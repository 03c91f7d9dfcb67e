//! The terminal side of the WASI build: socket error names, the terminal
//! size, the ANSI sequences the screen backend writes, and the decoder that
//! turns the bytes typed on stdin into key events.
use vstd::prelude::*;
use vstd::utf8::{decode_utf8, valid_utf8};

use crate::text;

verus! {

// ---------------------------------------------------------------------------
// Socket errors
// ---------------------------------------------------------------------------

/// The name of a host socket error number.
pub open spec fn errno_label(e: i32) -> Seq<char> {
    if e == 0 {
        "OK"@
    } else if e == 2 {
        "EACCES"@
    } else if e == 8 {
        "EBADF"@
    } else if e == 14 {
        "ECONNREFUSED"@
    } else if e == 27 {
        "EINTR"@
    } else if e == 28 {
        "EINVAL"@
    } else if e == 50 {
        "ENETUNREACH"@
    } else if e == 73 {
        "ETIMEDOUT"@
    } else {
        "errno"@
    }
}

/// The name of a host socket error number (`"errno"` for unknown ones).
pub fn errno_name(e: i32) -> (res: &'static str)
    ensures
        res@ == errno_label(e),
{
    if e == 0 {
        "OK"
    } else if e == 2 {
        "EACCES"
    } else if e == 8 {
        "EBADF"
    } else if e == 14 {
        "ECONNREFUSED"
    } else if e == 27 {
        "EINTR"
    } else if e == 28 {
        "EINVAL"
    } else if e == 50 {
        "ENETUNREACH"
    } else if e == 73 {
        "ETIMEDOUT"
    } else {
        "errno"
    }
}

/// The message of the I/O error for a host socket error number.
pub open spec fn io_error_text(errno: i32) -> Seq<char> {
    "rootshell_socket: "@ + errno_label(errno) + " ("@ + text::dec_int(errno as int) + ")"@
}

/// The message of the I/O error for a host socket error number:
/// `rootshell_socket: NAME (number)`.
pub fn io_error_message(errno: i32) -> (res: String)
    ensures
        res@ == io_error_text(errno),
{
    let mut msg = String::new();
    msg.append("rootshell_socket: ");
    msg.append(errno_name(errno));
    msg.append(" (");
    let digits = text::dec_i64(errno as i64);
    msg.append(text::string_of(&digits).as_str());
    msg.append(")");
    assert(msg@ =~= io_error_text(errno));
    msg
}

/// `std::io::Error`, carried through opaque.
#[verifier::external_type_specification]
#[verifier::external_body]
pub struct ExIoError(std::io::Error);

/// Name for the text an I/O error displays (its `Display` output).
pub uninterp spec fn io_error_text_of(e: std::io::Error) -> Seq<char>;

/// Name for whether an I/O error's kind (`kind()`) is `ErrorKind::Other`.
pub uninterp spec fn io_error_kind_is_other(e: std::io::Error) -> bool;

/// `std::io::Error::other`: an I/O error of kind `Other` wrapping `message`.
/// The contract states both, as std documents them: the kind is `Other`,
/// and the error displays `message`, as an error made from a string does.
#[verifier::external_body]
fn other_io_error(message: String) -> (res: std::io::Error)
    ensures
        io_error_kind_is_other(res),
        io_error_text_of(res) == message@,
{
    std::io::Error::other(message)
}

/// The I/O error for a host socket error number: of kind `Other`, it
/// displays `io_error_message(errno)`.
pub fn io_err(errno: i32) -> (res: std::io::Error)
    ensures
        io_error_kind_is_other(res),
        io_error_text_of(res) == io_error_text(errno),
{
    other_io_error(io_error_message(errno))
}

/// What a writer does after one host `send` while writing a whole buffer.
pub enum SendStep {
    /// The whole buffer has been sent.
    Done,
    /// Send again, from this offset into the buffer.
    Continue(usize),
    /// The host reported this error number.
    Failed(i32),
    /// The host accepted no bytes: the write cannot progress.
    WroteZero,
}

/// The decision after a `send` of the unsent tail of a `len`-byte buffer,
/// `sent_total` bytes of which had gone before, that reported `errno` and
/// `sent` accepted bytes: an error ends the write, as does a send that took
/// nothing; otherwise the write goes on until `len` bytes are out.
pub fn after_send(sent_total: usize, len: usize, errno: i32, sent: u32) -> (res: SendStep)
    requires
        sent_total + sent <= usize::MAX,
    ensures
        errno != 0 ==> res == SendStep::Failed(errno),
        errno == 0 && sent == 0 ==> res is WroteZero,
        errno == 0 && sent > 0 && sent_total + sent >= len ==> res is Done,
        errno == 0 && sent > 0 && sent_total + sent < len ==> res == SendStep::Continue(
            (sent_total + sent) as usize,
        ),
{
    if errno != 0 {
        return SendStep::Failed(errno);
    }
    if sent == 0 {
        return SendStep::WroteZero;
    }
    let total = sent_total + sent as usize;
    if total >= len {
        SendStep::Done
    } else {
        SendStep::Continue(total)
    }
}

// ---------------------------------------------------------------------------
// Terminal size
// ---------------------------------------------------------------------------

/// Whether the character is a decimal digit.
pub open spec fn is_dec_digit(c: char) -> bool {
    '0' <= c && c <= '9'
}

/// The value of a string of decimal digits, most significant first.
pub open spec fn dec_value(ds: Seq<char>) -> nat
    decreases ds.len(),
{
    if ds.len() == 0 {
        0
    } else {
        dec_value(ds.drop_last()) * 10 + (ds.last() as u32 - '0' as u32) as nat
    }
}

/// Whether every character is a decimal digit.
pub open spec fn all_dec(ds: Seq<char>) -> bool {
    forall|i: int| 0 <= i < ds.len() ==> is_dec_digit(#[trigger] ds[i])
}

/// `str::parse::<u16>`: an optional `+` sign, then one or more decimal
/// digits whose value fits in `u16`.
pub open spec fn parse_u16_spec(s: Seq<char>) -> Option<u16> {
    let ds = if s.len() > 0 && s[0] == '+' {
        s.drop_first()
    } else {
        s
    };
    if ds.len() > 0 && all_dec(ds) && dec_value(ds) <= u16::MAX {
        Some(dec_value(ds) as u16)
    } else {
        None
    }
}

proof fn lemma_dec_value_grows(ds: Seq<char>, k: int)
    requires
        0 <= k <= ds.len(),
        forall|i: int| 0 <= i < ds.len() ==> is_dec_digit(#[trigger] ds[i]),
    ensures
        dec_value(ds.take(k)) <= dec_value(ds),
    decreases ds.len() - k,
{
    if k < ds.len() {
        lemma_dec_value_grows(ds, k + 1);
        assert(ds.take(k + 1).drop_last() =~= ds.take(k));
        assert(ds.take(k + 1).last() == ds[k]);
    } else {
        assert(ds.take(k) =~= ds);
    }
}

/// `str::parse::<u16>`.
pub fn parse_u16(s: &str) -> (res: Option<u16>)
    ensures
        res == parse_u16_spec(s@),
{
    let cs = text::chars_of(s);
    let n = cs.len();
    let start: usize = if n > 0 && cs[0] == '+' {
        1
    } else {
        0
    };
    let ghost ds = if s@.len() > 0 && s@[0] == '+' {
        s@.drop_first()
    } else {
        s@
    };
    assert(ds =~= s@.skip(start as int));
    if start >= n {
        assert(ds.len() == 0);
        return None;
    }
    let mut value: u32 = 0;
    let mut i: usize = start;
    while i < n
        invariant
            n == cs@.len(),
            cs@ == s@,
            start <= i <= n,
            ds == s@.skip(start as int),
            ds == (if s@.len() > 0 && s@[0] == '+' {
                s@.drop_first()
            } else {
                s@
            }),
            forall|j: int| 0 <= j < i - start ==> is_dec_digit(#[trigger] ds[j]),
            value as nat == dec_value(ds.take(i - start)),
            value <= u16::MAX,
        decreases n - i,
    {
        let c = cs[i];
        assert(ds[i - start] == c);
        if !('0' <= c && c <= '9') {
            assert(!is_dec_digit(ds[i - start]));
            return None;
        }
        proof {
            assert(ds.take(i - start + 1).drop_last() =~= ds.take(i - start));
            assert(ds.take(i - start + 1).last() == c);
        }
        let d = (c as u32) - ('0' as u32);
        let next = value * 10 + d;
        if next > 65535 {
            proof {
                assert(dec_value(ds.take(i - start + 1)) == next);
                assert forall|j: int| 0 <= j < i - start + 1 implies is_dec_digit(
                    #[trigger] ds[j],
                ) by {}
                if all_dec(ds) {
                    lemma_dec_value_grows(ds, i - start + 1);
                }
            }
            return None;
        }
        value = next;
        i = i + 1;
    }
    assert(ds.take(n - start) =~= ds);
    Some(value as u16)
}

/// A `COLUMNS` or `LINES` value as a dimension, or `default` where it is
/// missing or no `u16`.
pub open spec fn env_dimension(value: Option<Seq<char>>, default: u16) -> u16 {
    match value {
        Some(v) => match parse_u16_spec(v) {
            Some(n) => n,
            None => default,
        },
        None => default,
    }
}

/// The size reported from the recorded `(cols, rows)` and the `COLUMNS` and
/// `LINES` values: the recorded size when both dimensions are known, else
/// the environment's (80 by 24 by default).
pub open spec fn reported_size(
    cols: u16,
    rows: u16,
    columns: Option<Seq<char>>,
    lines: Option<Seq<char>>,
) -> (u16, u16) {
    if cols != 0 && rows != 0 {
        (cols, rows)
    } else {
        (env_dimension(columns, 80), env_dimension(lines, 24))
    }
}

/// The text of an optional string slice.
pub open spec fn opt_view(s: Option<&str>) -> Option<Seq<char>> {
    match s {
        Some(v) => Some(v@),
        None => None,
    }
}

/// Once a size with both dimensions non-zero is recorded, it is what is
/// reported, whatever the environment says.
pub proof fn law_recorded_size_is_reported(
    cols: u16,
    rows: u16,
    columns: Option<Seq<char>>,
    lines: Option<Seq<char>>,
    later_columns: Option<Seq<char>>,
    later_lines: Option<Seq<char>>,
)
    ensures
        cols != 0 && rows != 0 ==> reported_size(cols, rows, columns, lines) == (cols, rows),
        ({
            let first = reported_size(cols, rows, columns, lines);
            first.0 != 0 && first.1 != 0 ==> reported_size(
                first.0,
                first.1,
                later_columns,
                later_lines,
            ) == first
        }),
{
}

/// The terminal size as last recorded; 0 stands for "not known yet".
pub struct ScreenSize {
    pub cols: u16,
    pub rows: u16,
}

impl ScreenSize {
    /// Nothing recorded yet.
    pub fn unknown() -> (res: ScreenSize)
        ensures
            res.cols == 0 && res.rows == 0,
    {
        ScreenSize { cols: 0, rows: 0 }
    }

    /// Records a size reported by the terminal.
    pub fn set_screen_size(&mut self, cols: u16, rows: u16)
        ensures
            final(self).cols == cols,
            final(self).rows == rows,
    {
        self.cols = cols;
        self.rows = rows;
    }

    /// The terminal size. While either dimension is unknown both are taken
    /// from the `COLUMNS` and `LINES` values given (80 and 24 where a value
    /// is missing or no `u16`) and recorded.
    pub fn screen_size(&mut self, columns: Option<&str>, lines: Option<&str>) -> (res: (u16, u16))
        ensures
            res == reported_size(old(self).cols, old(self).rows, opt_view(columns), opt_view(lines)),
            final(self).cols == res.0,
            final(self).rows == res.1,
    {
        if self.cols == 0 || self.rows == 0 {
            let c = match columns {
                Some(text) => match parse_u16(text) {
                    Some(v) => v,
                    None => 80,
                },
                None => 80,
            };
            let r = match lines {
                Some(text) => match parse_u16(text) {
                    Some(v) => v,
                    None => 24,
                },
                None => 24,
            };
            self.cols = c;
            self.rows = r;
        }
        (self.cols, self.rows)
    }
}

// ---------------------------------------------------------------------------
// Colours and effects
// ---------------------------------------------------------------------------

/// The eight base colours of a terminal.
#[derive(PartialEq, Eq, Structural, Clone, Copy, Debug)]
pub enum BaseColor {
    Black,
    Red,
    Green,
    Yellow,
    Blue,
    Magenta,
    Cyan,
    White,
}

/// A colour as the screen backend draws it.
#[derive(PartialEq, Eq, Structural, Clone, Copy, Debug)]
pub enum Color {
    TerminalDefault,
    Dark(BaseColor),
    Light(BaseColor),
    Rgb(u8, u8, u8),
    /// A colour of the 6x6x6 cube; each component should be at most 5.
    RgbLowRes(u8, u8, u8),
}

/// Foreground and background colours.
#[derive(PartialEq, Eq, Structural, Clone, Copy, Debug)]
pub struct ColorPair {
    pub front: Color,
    pub back: Color,
}

/// Text effects.
#[derive(PartialEq, Eq, Structural, Clone, Copy, Debug)]
pub enum Effect {
    Simple,
    Reverse,
    Bold,
    Dim,
    Italic,
    Underline,
    Blink,
    Strikethrough,
}

/// The ANSI index of a base colour.
pub open spec fn base_index(b: BaseColor) -> u8 {
    match b {
        BaseColor::Black => 0,
        BaseColor::Red => 1,
        BaseColor::Green => 2,
        BaseColor::Yellow => 3,
        BaseColor::Blue => 4,
        BaseColor::Magenta => 5,
        BaseColor::Cyan => 6,
        BaseColor::White => 7,
    }
}

/// The ANSI index of a base colour.
pub fn base_color_index(b: BaseColor) -> (res: u8)
    ensures
        res == base_index(b),
{
    match b {
        BaseColor::Black => 0,
        BaseColor::Red => 1,
        BaseColor::Green => 2,
        BaseColor::Yellow => 3,
        BaseColor::Blue => 4,
        BaseColor::Magenta => 5,
        BaseColor::Cyan => 6,
        BaseColor::White => 7,
    }
}

/// Whether the colour can be written: a low-resolution colour's cube index
/// `16 + 36 r + 6 g + b` must fit in a byte.
pub open spec fn drawable(c: Color) -> bool {
    match c {
        Color::RgbLowRes(r, g, b) => 16 + 36 * r + 6 * g + b <= 255,
        _ => true,
    }
}

/// The SGR parameters that select `c`; `base` is 30 for the foreground and
/// 40 for the background (bright colours add 60, true colour and the colour
/// cube use 38 and 48).
pub open spec fn sgr_color(c: Color, base: nat) -> Seq<char> {
    match c {
        Color::TerminalDefault => text::dec(base + 9),
        Color::Dark(b) => text::dec(base + base_index(b) as nat),
        Color::Light(b) => text::dec(base + 60 + base_index(b) as nat),
        Color::Rgb(r, g, b) => text::dec(base + 8) + ";2;"@ + text::dec(r as nat) + seq![';']
            + text::dec(g as nat) + seq![';'] + text::dec(b as nat),
        Color::RgbLowRes(r, g, b) => text::dec(base + 8) + ";5;"@ + text::dec(
            (16 + 36 * r + 6 * g + b) as nat,
        ),
    }
}

fn sgr_color_exec(c: Color, base: u8) -> (res: String)
    requires
        base == 30 || base == 40,
        drawable(c),
    ensures
        res@ == sgr_color(c, base as nat),
{
    let mut out: Vec<char> = Vec::new();
    match c {
        Color::TerminalDefault => {
            out = text::dec_u64((base + 9) as u64);
        },
        Color::Dark(b) => {
            out = text::dec_u64((base + base_color_index(b)) as u64);
        },
        Color::Light(b) => {
            out = text::dec_u64((base + 60 + base_color_index(b)) as u64);
        },
        Color::Rgb(r, g, b) => {
            out = text::dec_u64((base + 8) as u64);
            text::push_str(&mut out, ";2;");
            let rs = text::dec_u64(r as u64);
            text::push_all(&mut out, rs.as_slice());
            out.push(';');
            let gs = text::dec_u64(g as u64);
            text::push_all(&mut out, gs.as_slice());
            out.push(';');
            let bs = text::dec_u64(b as u64);
            text::push_all(&mut out, bs.as_slice());
        },
        Color::RgbLowRes(r, g, b) => {
            out = text::dec_u64((base + 8) as u64);
            text::push_str(&mut out, ";5;");
            let idx: u8 = 16 + 36 * r + 6 * g + b;
            let is = text::dec_u64(idx as u64);
            text::push_all(&mut out, is.as_slice());
        },
    }
    assert(out@ =~= sgr_color(c, base as nat));
    text::string_of(&out)
}

/// The SGR parameters that set `c` as the foreground colour.
pub fn sgr_fg(c: Color) -> (res: String)
    requires
        drawable(c),
    ensures
        res@ == sgr_color(c, 30),
{
    sgr_color_exec(c, 30)
}

/// The SGR parameters that set `c` as the background colour.
pub fn sgr_bg(c: Color) -> (res: String)
    requires
        drawable(c),
    ensures
        res@ == sgr_color(c, 40),
{
    sgr_color_exec(c, 40)
}

/// The escape sequence that selects a colour pair.
pub open spec fn color_sequence(pair: ColorPair) -> Seq<char> {
    "\x1b["@ + sgr_color(pair.front, 30) + seq![';'] + sgr_color(pair.back, 40) + seq!['m']
}

/// The escape sequence that selects a colour pair.
pub fn color_pair_sequence(pair: ColorPair) -> (res: String)
    requires
        drawable(pair.front),
        drawable(pair.back),
    ensures
        res@ == color_sequence(pair),
{
    let mut s = String::new();
    s.append("\x1b[");
    s.append(sgr_fg(pair.front).as_str());
    s.append(";");
    s.append(sgr_bg(pair.back).as_str());
    s.append("m");
    proof {
        reveal_strlit(";");
        reveal_strlit("m");
    }
    assert(s@ =~= color_sequence(pair));
    s
}

/// The escape sequence that clears the screen to `color` and homes the
/// cursor.
pub fn clear_sequence(color: Color) -> (res: String)
    requires
        drawable(color),
    ensures
        res@ == color_sequence(ColorPair { front: color, back: color }) + "\x1b[2J\x1b[H"@,
{
    let mut s = color_pair_sequence(ColorPair { front: color, back: color });
    s.append("\x1b[2J\x1b[H");
    s
}

/// The escape sequence that moves the cursor to column `x`, row `y`
/// (counted from 0; the terminal counts from 1).
pub fn move_sequence(x: usize, y: usize) -> (res: String)
    requires
        x < usize::MAX,
        y < usize::MAX,
    ensures
        res@ == "\x1b["@ + text::dec((y + 1) as nat) + seq![';'] + text::dec((x + 1) as nat) + seq![
            'H',
        ],
{
    let mut out: Vec<char> = Vec::new();
    text::push_str(&mut out, "\x1b[");
    let ys = text::dec_u64((y + 1) as u64);
    text::push_all(&mut out, ys.as_slice());
    out.push(';');
    let xs = text::dec_u64((x + 1) as u64);
    text::push_all(&mut out, xs.as_slice());
    out.push('H');
    text::string_of(&out)
}

/// The escape sequence that turns an effect on (`None` for `Simple`).
pub fn effect_on_sequence(effect: Effect) -> (res: Option<&'static str>)
    ensures
        match effect {
            Effect::Simple => res is None,
            Effect::Reverse => res matches Some(s) && s@ == "\x1b[7m"@,
            Effect::Bold => res matches Some(s) && s@ == "\x1b[1m"@,
            Effect::Dim => res matches Some(s) && s@ == "\x1b[2m"@,
            Effect::Italic => res matches Some(s) && s@ == "\x1b[3m"@,
            Effect::Underline => res matches Some(s) && s@ == "\x1b[4m"@,
            Effect::Blink => res matches Some(s) && s@ == "\x1b[5m"@,
            Effect::Strikethrough => res matches Some(s) && s@ == "\x1b[9m"@,
        },
{
    match effect {
        Effect::Simple => None,
        Effect::Reverse => Some("\x1b[7m"),
        Effect::Bold => Some("\x1b[1m"),
        Effect::Dim => Some("\x1b[2m"),
        Effect::Italic => Some("\x1b[3m"),
        Effect::Underline => Some("\x1b[4m"),
        Effect::Blink => Some("\x1b[5m"),
        Effect::Strikethrough => Some("\x1b[9m"),
    }
}

/// The escape sequence that turns an effect off (`None` for `Simple`; bold
/// and dim share one).
pub fn effect_off_sequence(effect: Effect) -> (res: Option<&'static str>)
    ensures
        match effect {
            Effect::Simple => res is None,
            Effect::Reverse => res matches Some(s) && s@ == "\x1b[27m"@,
            Effect::Bold => res matches Some(s) && s@ == "\x1b[22m"@,
            Effect::Dim => res matches Some(s) && s@ == "\x1b[22m"@,
            Effect::Italic => res matches Some(s) && s@ == "\x1b[23m"@,
            Effect::Underline => res matches Some(s) && s@ == "\x1b[24m"@,
            Effect::Blink => res matches Some(s) && s@ == "\x1b[25m"@,
            Effect::Strikethrough => res matches Some(s) && s@ == "\x1b[29m"@,
        },
{
    match effect {
        Effect::Simple => None,
        Effect::Reverse => Some("\x1b[27m"),
        Effect::Bold | Effect::Dim => Some("\x1b[22m"),
        Effect::Italic => Some("\x1b[23m"),
        Effect::Underline => Some("\x1b[24m"),
        Effect::Blink => Some("\x1b[25m"),
        Effect::Strikethrough => Some("\x1b[29m"),
    }
}

/// What the screen backend remembers between calls: the colours in effect,
/// and whether an event was handed out since the last empty poll.
pub struct BackendState {
    pub current: ColorPair,
    pub drained_this_frame: bool,
}

impl BackendState {
    /// The state once `colors` are in effect.
    pub open spec fn switched(self, colors: ColorPair) -> BackendState {
        BackendState { current: colors, drained_this_frame: self.drained_this_frame }
    }

    /// What switching to `colors` writes: nothing when they are already in
    /// effect, else their SGR sequence.
    pub open spec fn switch_output(self, colors: ColorPair) -> Option<Seq<char>> {
        if self.current == colors {
            None
        } else {
            Some(color_sequence(colors))
        }
    }

    /// Whether the next poll reads the keyboard: it does unless the
    /// previous poll handed out an event.
    pub open spec fn poll_reads(self) -> bool {
        !self.drained_this_frame
    }

    /// The state after a poll; `got_event` is what a reading poll got.
    pub open spec fn after_poll(self, got_event: bool) -> BackendState {
        BackendState {
            current: self.current,
            drained_this_frame: if self.poll_reads() {
                got_event
            } else {
                false
            },
        }
    }

    /// Terminal default colours, no event handed out yet.
    pub fn new() -> (res: BackendState)
        ensures
            res.current == (ColorPair { front: Color::TerminalDefault, back: Color::TerminalDefault }),
            res.poll_reads(),
    {
        BackendState {
            current: ColorPair { front: Color::TerminalDefault, back: Color::TerminalDefault },
            drained_this_frame: false,
        }
    }

    /// Switches to `colors`, returning the colours that were in effect and,
    /// when they differ, the sequence to write.
    pub fn set_color(&mut self, colors: ColorPair) -> (res: (ColorPair, Option<String>))
        requires
            drawable(colors.front),
            drawable(colors.back),
        ensures
            res.0 == old(self).current,
            *final(self) == old(self).switched(colors),
            res.1 is None <==> old(self).switch_output(colors) is None,
            res.1 matches Some(s) ==> old(self).switch_output(colors) == Some(s@),
    {
        let prev = self.current;
        if prev != colors {
            let seq = color_pair_sequence(colors);
            self.current = colors;
            (prev, Some(seq))
        } else {
            (prev, None)
        }
    }

    /// Whether this poll must report "no event" without reading: it
    /// alternates with the polls that read, so that the screen is drawn
    /// after every event. A skipped poll is complete; one that is not
    /// skipped goes on with a read and `record_poll`.
    pub fn poll_skips_read(&mut self) -> (res: bool)
        ensures
            res == !old(self).poll_reads(),
            res ==> *final(self) == old(self).after_poll(false),
            !res ==> *final(self) == *old(self),
    {
        if self.drained_this_frame {
            self.drained_this_frame = false;
            true
        } else {
            false
        }
    }

    /// Notes the outcome of a poll that read: an event was handed out or not.
    pub fn record_poll(&mut self, got_event: bool)
        ensures
            final(self).drained_this_frame == (old(self).drained_this_frame || got_event),
            final(self).current == old(self).current,
            old(self).poll_reads() ==> *final(self) == old(self).after_poll(got_event),
    {
        if got_event {
            self.drained_this_frame = true;
        }
    }
}

/// Switching to the colours already in effect writes nothing: repeating a
/// switch is silent and leaves the state as it was.
pub proof fn law_repeated_switch_is_silent(s: BackendState, colors: ColorPair)
    ensures
        s.switched(colors).switch_output(colors) is None,
        s.switched(colors).switched(colors) == s.switched(colors),
        s.current != colors ==> s.switch_output(colors) is Some,
{
}

/// Polls alternate: after a poll that read and handed out an event, the
/// next poll does not read (it reports "no event" so the screen is drawn),
/// and the poll after that reads again.
pub proof fn law_polls_alternate(s: BackendState, got_next: bool)
    ensures
        s.poll_reads() ==> !s.after_poll(true).poll_reads(),
        !s.poll_reads() ==> s.after_poll(got_next).poll_reads(),
        s.poll_reads() ==> s.after_poll(true).after_poll(got_next).poll_reads(),
        s.poll_reads() ==> s.after_poll(false).poll_reads(),
{
}

// ---------------------------------------------------------------------------
// Keyboard input
// ---------------------------------------------------------------------------

/// Named keys.
#[derive(PartialEq, Eq, Structural, Clone, Copy, Debug)]
pub enum Key {
    Backspace,
    Enter,
    Tab,
    Esc,
    Up,
    Down,
    Right,
    Left,
    Home,
    End,
    Ins,
    Del,
    PageUp,
    PageDown,
    F1,
    F2,
    F3,
    F4,
    F5,
    F6,
    F7,
    F8,
    F9,
    F10,
    F11,
    F12,
}

/// A decoded keyboard event.
#[derive(PartialEq, Eq, Structural, Clone, Copy, Debug)]
pub enum KeyEvent {
    Key(Key),
    Char(char),
    CtrlChar(char),
    AltChar(char),
    Shift(Key),
}

/// Where the decoder stands inside an input sequence.
pub enum DecodeState {
    /// Between events.
    Start,
    /// After ESC.
    Escape,
    /// After ESC `[`.
    Csi,
    /// Inside CSI parameters: the digits and `;` kept so far (at most six).
    CsiParams { kept: Vec<char> },
    /// After ESC `O`.
    Ss3,
    /// Inside a UTF-8 character: its bytes so far and how many are missing.
    Utf8 { bytes: Vec<u8>, missing: usize },
}

/// What one byte leads to.
pub enum Feed {
    /// The sequence goes on: read another byte.
    More,
    /// The sequence is over; it denotes this event, or none.
    Done(Option<KeyEvent>),
}

/// How many continuation bytes follow a UTF-8 lead byte.
pub open spec fn continuation_count(lead: u8) -> Option<usize> {
    if lead & 0xe0 == 0xc0 {
        Some(1)
    } else if lead & 0xf0 == 0xe0 {
        Some(2)
    } else if lead & 0xf8 == 0xf0 {
        Some(3)
    } else {
        None
    }
}

/// How many continuation bytes follow a UTF-8 lead byte (`None` for a byte
/// that leads no sequence).
pub fn utf8_continuation_count(lead: u8) -> (res: Option<usize>)
    ensures
        res == continuation_count(lead),
{
    if lead & 0b1110_0000 == 0b1100_0000 {
        Some(1)
    } else if lead & 0b1111_0000 == 0b1110_0000 {
        Some(2)
    } else if lead & 0b1111_1000 == 0b1111_0000 {
        Some(3)
    } else {
        None
    }
}

/// The event a byte denotes on its own, at the start of a sequence; `None`
/// for bytes that begin an escape or UTF-8 sequence or denote nothing.
pub open spec fn single_byte_event(b: u8) -> Option<KeyEvent> {
    if b == 0x7f {
        Some(KeyEvent::Key(Key::Backspace))
    } else if b == 0x0d || b == 0x0a {
        Some(KeyEvent::Key(Key::Enter))
    } else if b == 0x09 {
        Some(KeyEvent::Key(Key::Tab))
    } else if b == 0x03 {
        Some(KeyEvent::CtrlChar('c'))
    } else if 0x01 <= b <= 0x1a {
        Some(KeyEvent::CtrlChar(((b - 1 + 97) as u8) as char))
    } else if 0x20 <= b <= 0x7e {
        Some(KeyEvent::Char(b as char))
    } else {
        None
    }
}

/// The key a CSI sequence with parameter `param` and final byte `~` denotes.
pub open spec fn tilde_key(param: nat) -> Option<Key> {
    if param == 1 || param == 7 {
        Some(Key::Home)
    } else if param == 2 {
        Some(Key::Ins)
    } else if param == 3 {
        Some(Key::Del)
    } else if param == 4 || param == 8 {
        Some(Key::End)
    } else if param == 5 {
        Some(Key::PageUp)
    } else if param == 6 {
        Some(Key::PageDown)
    } else if param == 11 {
        Some(Key::F1)
    } else if param == 12 {
        Some(Key::F2)
    } else if param == 13 {
        Some(Key::F3)
    } else if param == 14 {
        Some(Key::F4)
    } else if param == 15 {
        Some(Key::F5)
    } else if param == 17 {
        Some(Key::F6)
    } else if param == 18 {
        Some(Key::F7)
    } else if param == 19 {
        Some(Key::F8)
    } else if param == 20 {
        Some(Key::F9)
    } else if param == 21 {
        Some(Key::F10)
    } else if param == 23 {
        Some(Key::F11)
    } else if param == 24 {
        Some(Key::F12)
    } else {
        None
    }
}

/// The characters before the first `;`.
pub open spec fn before_semicolon(s: Seq<char>) -> Seq<char>
    decreases s.len(),
{
    if s.len() == 0 || s[0] == ';' {
        Seq::<char>::empty()
    } else {
        seq![s[0]] + before_semicolon(s.drop_first())
    }
}

/// The first CSI parameter: the number written before the first `;`.
pub open spec fn first_param(kept: Seq<char>) -> nat {
    dec_value(before_semicolon(kept))
}

/// Whether kept CSI parameter text is well formed: one to six characters,
/// digits and `;`, starting with a digit.
pub open spec fn params_wf(kept: Seq<char>) -> bool {
    &&& 1 <= kept.len() <= 6
    &&& is_dec_digit(kept[0])
    &&& forall|i: int| 0 <= i < kept.len() ==> is_dec_digit(#[trigger] kept[i]) || kept[i] == ';'
}

proof fn lemma_before_semicolon(s: Seq<char>, k: int)
    requires
        0 <= k <= s.len(),
        forall|j: int| 0 <= j < k ==> #[trigger] s[j] != ';',
        k == s.len() || s[k] == ';',
    ensures
        before_semicolon(s) == s.take(k),
    decreases k,
{
    if k == 0 {
        assert(s.take(0) =~= Seq::<char>::empty());
    } else {
        let t = s.drop_first();
        assert forall|j: int| 0 <= j < k - 1 implies #[trigger] t[j] != ';' by {
            assert(t[j] == s[j + 1]);
        }
        lemma_before_semicolon(t, k - 1);
        assert(seq![s[0]] + t.take(k - 1) =~= s.take(k));
    }
}

/// The key a CSI sequence ending in `~` denotes, for well-formed kept
/// parameter text.
fn tilde_param_key(kept: &[char]) -> (res: Option<Key>)
    requires
        params_wf(kept@),
    ensures
        res == tilde_key(first_param(kept@)),
{
    let n = kept.len();
    let mut k: usize = 0;
    while k < n && kept[k] != ';'
        invariant
            n == kept@.len(),
            k <= n,
            forall|j: int| 0 <= j < k ==> #[trigger] kept@[j] != ';',
        decreases n - k,
    {
        k = k + 1;
    }
    proof {
        lemma_before_semicolon(kept@, k as int);
    }
    let ghost digits = kept@.take(k as int);
    assert(all_dec(digits)) by {
        assert forall|j: int| 0 <= j < digits.len() implies is_dec_digit(#[trigger] digits[j]) by {
            assert(digits[j] == kept@[j]);
        }
    }
    let mut value: u32 = 0;
    let mut i: usize = 0;
    while i < k
        invariant
            k <= n == kept@.len(),
            digits == kept@.take(k as int),
            all_dec(digits),
            i <= k,
            value as nat == dec_value(digits.take(i as int)),
            value <= 10009,
            before_semicolon(kept@) == digits,
        decreases k - i,
    {
        let c = kept[i];
        assert(digits[i as int] == c);
        assert(is_dec_digit(digits[i as int]));
        proof {
            assert(digits.take(i + 1).drop_last() =~= digits.take(i as int));
            assert(digits.take(i + 1).last() == c);
        }
        if value > 1000 {
            proof {
                lemma_dec_value_grows(digits, i as int);
            }
            return None;
        }
        value = value * 10 + ((c as u32) - ('0' as u32));
        i = i + 1;
    }
    assert(digits.take(k as int) =~= digits);
    if value == 1 || value == 7 {
        Some(Key::Home)
    } else if value == 2 {
        Some(Key::Ins)
    } else if value == 3 {
        Some(Key::Del)
    } else if value == 4 || value == 8 {
        Some(Key::End)
    } else if value == 5 {
        Some(Key::PageUp)
    } else if value == 6 {
        Some(Key::PageDown)
    } else if value == 11 {
        Some(Key::F1)
    } else if value == 12 {
        Some(Key::F2)
    } else if value == 13 {
        Some(Key::F3)
    } else if value == 14 {
        Some(Key::F4)
    } else if value == 15 {
        Some(Key::F5)
    } else if value == 17 {
        Some(Key::F6)
    } else if value == 18 {
        Some(Key::F7)
    } else if value == 19 {
        Some(Key::F8)
    } else if value == 20 {
        Some(Key::F9)
    } else if value == 21 {
        Some(Key::F10)
    } else if value == 23 {
        Some(Key::F11)
    } else if value == 24 {
        Some(Key::F12)
    } else {
        None
    }
}

/// The event a completed UTF-8 sequence denotes: its first character when
/// the bytes are well formed, else none.
pub open spec fn utf8_event(bytes: Seq<u8>) -> Option<KeyEvent> {
    if valid_utf8(bytes) && decode_utf8(bytes).len() > 0 {
        Some(KeyEvent::Char(decode_utf8(bytes)[0]))
    } else {
        None
    }
}

/// The event a byte after ESC denotes, when it ends the sequence.
pub open spec fn escape_event(b: u8) -> KeyEvent {
    if (97 <= b <= 122) || (65 <= b <= 90) || (48 <= b <= 57) {
        KeyEvent::AltChar(b as char)
    } else {
        KeyEvent::Key(Key::Esc)
    }
}

/// The event a byte after ESC `[` denotes, when it ends the sequence.
pub open spec fn csi_event(b: u8) -> Option<KeyEvent> {
    if b == 65 {
        Some(KeyEvent::Key(Key::Up))
    } else if b == 66 {
        Some(KeyEvent::Key(Key::Down))
    } else if b == 67 {
        Some(KeyEvent::Key(Key::Right))
    } else if b == 68 {
        Some(KeyEvent::Key(Key::Left))
    } else if b == 72 {
        Some(KeyEvent::Key(Key::Home))
    } else if b == 70 {
        Some(KeyEvent::Key(Key::End))
    } else if b == 90 {
        Some(KeyEvent::Shift(Key::Tab))
    } else {
        None
    }
}

/// The event a byte after ESC `O` denotes.
pub open spec fn ss3_event(b: u8) -> Option<KeyEvent> {
    if b == 80 {
        Some(KeyEvent::Key(Key::F1))
    } else if b == 81 {
        Some(KeyEvent::Key(Key::F2))
    } else if b == 82 {
        Some(KeyEvent::Key(Key::F3))
    } else if b == 83 {
        Some(KeyEvent::Key(Key::F4))
    } else {
        None
    }
}

/// Keys arriving as CSI sequences (`ESC [` and a final byte) follow the
/// VT100/xterm codes: `A` up, `B` down, `C` right, `D` left, `H` home, `F`
/// end, `Z` Shift+Tab; no other final byte is a key by itself.
pub proof fn law_csi_cursor_keys(b: u8)
    ensures
        csi_event(65) == Some(KeyEvent::Key(Key::Up)),
        csi_event(66) == Some(KeyEvent::Key(Key::Down)),
        csi_event(67) == Some(KeyEvent::Key(Key::Right)),
        csi_event(68) == Some(KeyEvent::Key(Key::Left)),
        csi_event(72) == Some(KeyEvent::Key(Key::Home)),
        csi_event(70) == Some(KeyEvent::Key(Key::End)),
        csi_event(90) == Some(KeyEvent::Shift(Key::Tab)),
        csi_event(b) is Some <==> (65 <= b <= 68 || b == 70 || b == 72 || b == 90),
{
}

/// `ESC O P` to `ESC O S` are F1 to F4, and nothing else after `ESC O` is a
/// key.
pub proof fn law_ss3_function_keys(b: u8)
    ensures
        ss3_event(80) == Some(KeyEvent::Key(Key::F1)),
        ss3_event(81) == Some(KeyEvent::Key(Key::F2)),
        ss3_event(82) == Some(KeyEvent::Key(Key::F3)),
        ss3_event(83) == Some(KeyEvent::Key(Key::F4)),
        ss3_event(b) is Some <==> 80 <= b <= 83,
{
}

/// `ESC [ n ~` follows the VT220 numbering: 1 and 7 home, 2 insert, 3
/// delete, 4 and 8 end, 5 and 6 page up and down, 11 to 15 F1 to F5, 17 to
/// 21 F6 to F10, 23 and 24 F11 and F12; other numbers are no key.
pub proof fn law_tilde_keys(n: nat)
    ensures
        tilde_key(1) == Some(Key::Home) && tilde_key(7) == Some(Key::Home),
        tilde_key(2) == Some(Key::Ins),
        tilde_key(3) == Some(Key::Del),
        tilde_key(4) == Some(Key::End) && tilde_key(8) == Some(Key::End),
        tilde_key(5) == Some(Key::PageUp),
        tilde_key(6) == Some(Key::PageDown),
        tilde_key(11) == Some(Key::F1),
        tilde_key(12) == Some(Key::F2),
        tilde_key(13) == Some(Key::F3),
        tilde_key(14) == Some(Key::F4),
        tilde_key(15) == Some(Key::F5),
        tilde_key(17) == Some(Key::F6),
        tilde_key(18) == Some(Key::F7),
        tilde_key(19) == Some(Key::F8),
        tilde_key(20) == Some(Key::F9),
        tilde_key(21) == Some(Key::F10),
        tilde_key(23) == Some(Key::F11),
        tilde_key(24) == Some(Key::F12),
        tilde_key(n) is Some <==> (1 <= n <= 8 || 11 <= n <= 15 || 17 <= n <= 21 || n == 23 || n
            == 24),
{
}

/// A single byte: DEL is Backspace, CR and LF Enter, TAB Tab; the other
/// control bytes 1 to 26 are Ctrl with the letter they are (1 is `a`, 26 is
/// `z`); printable ASCII is that character; NUL, the bytes 27 to 31 and
/// bytes past DEL give no event alone.
pub proof fn law_single_bytes(b: u8)
    ensures
        single_byte_event(0x7f) == Some(KeyEvent::Key(Key::Backspace)),
        single_byte_event(0x0d) == Some(KeyEvent::Key(Key::Enter)),
        single_byte_event(0x0a) == Some(KeyEvent::Key(Key::Enter)),
        single_byte_event(0x09) == Some(KeyEvent::Key(Key::Tab)),
        0x20 <= b <= 0x7e ==> single_byte_event(b) == Some(KeyEvent::Char(b as char)),
        1 <= b <= 26 && b != 9 && b != 10 && b != 13 ==> (single_byte_event(b) matches Some(
            KeyEvent::CtrlChar(c),
        ) && c as u32 == b + 96 && 'a' <= c <= 'z'),
        single_byte_event(b) is None <==> (b == 0 || (27 <= b <= 31) || b >= 0x80),
{
}

/// After ESC, an ASCII letter or digit is that character with Alt; any
/// other byte ends the sequence as Esc.
pub proof fn law_alt_chars(b: u8)
    ensures
        (97 <= b <= 122 || 65 <= b <= 90 || 48 <= b <= 57) ==> escape_event(b) == KeyEvent::AltChar(
            b as char,
        ),
        !(97 <= b <= 122 || 65 <= b <= 90 || 48 <= b <= 57) ==> escape_event(b) == KeyEvent::Key(
            Key::Esc,
        ),
{
}

/// Base colours take the standard ANSI indices: black 0, red 1, green 2,
/// yellow 3, blue 4, magenta 5, cyan 6, white 7.
pub proof fn law_ansi_base_colours()
    ensures
        base_index(BaseColor::Black) == 0,
        base_index(BaseColor::Red) == 1,
        base_index(BaseColor::Green) == 2,
        base_index(BaseColor::Yellow) == 3,
        base_index(BaseColor::Blue) == 4,
        base_index(BaseColor::Magenta) == 5,
        base_index(BaseColor::Cyan) == 6,
        base_index(BaseColor::White) == 7,
{
}

/// The SGR parameters of the base colours: dark foregrounds 30 to 37,
/// bright foregrounds 90 to 97, dark backgrounds 40 to 47, bright
/// backgrounds 100 to 107, in ANSI order; the terminal's default colours
/// are 39 and 49.
pub proof fn law_sgr_base_colours()
    ensures
        sgr_color(Color::Dark(BaseColor::Black), 30) == "30"@,
        sgr_color(Color::Light(BaseColor::Black), 30) == "90"@,
        sgr_color(Color::Dark(BaseColor::Black), 40) == "40"@,
        sgr_color(Color::Light(BaseColor::Black), 40) == "100"@,
        sgr_color(Color::Dark(BaseColor::Red), 30) == "31"@,
        sgr_color(Color::Light(BaseColor::Red), 30) == "91"@,
        sgr_color(Color::Dark(BaseColor::Red), 40) == "41"@,
        sgr_color(Color::Light(BaseColor::Red), 40) == "101"@,
        sgr_color(Color::Dark(BaseColor::Green), 30) == "32"@,
        sgr_color(Color::Light(BaseColor::Green), 30) == "92"@,
        sgr_color(Color::Dark(BaseColor::Green), 40) == "42"@,
        sgr_color(Color::Light(BaseColor::Green), 40) == "102"@,
        sgr_color(Color::Dark(BaseColor::Yellow), 30) == "33"@,
        sgr_color(Color::Light(BaseColor::Yellow), 30) == "93"@,
        sgr_color(Color::Dark(BaseColor::Yellow), 40) == "43"@,
        sgr_color(Color::Light(BaseColor::Yellow), 40) == "103"@,
        sgr_color(Color::Dark(BaseColor::Blue), 30) == "34"@,
        sgr_color(Color::Light(BaseColor::Blue), 30) == "94"@,
        sgr_color(Color::Dark(BaseColor::Blue), 40) == "44"@,
        sgr_color(Color::Light(BaseColor::Blue), 40) == "104"@,
        sgr_color(Color::Dark(BaseColor::Magenta), 30) == "35"@,
        sgr_color(Color::Light(BaseColor::Magenta), 30) == "95"@,
        sgr_color(Color::Dark(BaseColor::Magenta), 40) == "45"@,
        sgr_color(Color::Light(BaseColor::Magenta), 40) == "105"@,
        sgr_color(Color::Dark(BaseColor::Cyan), 30) == "36"@,
        sgr_color(Color::Light(BaseColor::Cyan), 30) == "96"@,
        sgr_color(Color::Dark(BaseColor::Cyan), 40) == "46"@,
        sgr_color(Color::Light(BaseColor::Cyan), 40) == "106"@,
        sgr_color(Color::Dark(BaseColor::White), 30) == "37"@,
        sgr_color(Color::Light(BaseColor::White), 30) == "97"@,
        sgr_color(Color::Dark(BaseColor::White), 40) == "47"@,
        sgr_color(Color::Light(BaseColor::White), 40) == "107"@,
        sgr_color(Color::TerminalDefault, 30) == "39"@,
        sgr_color(Color::TerminalDefault, 40) == "49"@,
{
    reveal_with_fuel(text::dec, 3);
    reveal_strlit("30");
    reveal_strlit("31");
    reveal_strlit("32");
    reveal_strlit("33");
    reveal_strlit("34");
    reveal_strlit("35");
    reveal_strlit("36");
    reveal_strlit("37");
    reveal_strlit("39");
    reveal_strlit("40");
    reveal_strlit("41");
    reveal_strlit("42");
    reveal_strlit("43");
    reveal_strlit("44");
    reveal_strlit("45");
    reveal_strlit("46");
    reveal_strlit("47");
    reveal_strlit("49");
    reveal_strlit("90");
    reveal_strlit("91");
    reveal_strlit("92");
    reveal_strlit("93");
    reveal_strlit("94");
    reveal_strlit("95");
    reveal_strlit("96");
    reveal_strlit("97");
    reveal_strlit("100");
    reveal_strlit("101");
    reveal_strlit("102");
    reveal_strlit("103");
    reveal_strlit("104");
    reveal_strlit("105");
    reveal_strlit("106");
    reveal_strlit("107");
}

/// Turns the bytes read from stdin, one at a time, into key events.
pub struct KeyDecoder {
    pub state: DecodeState,
}

impl KeyDecoder {
    /// Whether the decoder's state is one it can be in.
    pub open spec fn wf(&self) -> bool {
        match self.state {
            DecodeState::CsiParams { kept } => params_wf(kept@),
            DecodeState::Utf8 { bytes, missing } => missing >= 1 && bytes@.len() >= 1,
            _ => true,
        }
    }

    /// A decoder between events.
    pub fn new() -> (res: KeyDecoder)
        ensures
            res.state is Start,
            res.wf(),
    {
        KeyDecoder { state: DecodeState::Start }
    }

    /// Takes the next byte. Plain bytes denote keys and characters; ESC
    /// starts Alt-, CSI (`ESC [`) and SS3 (`ESC O`) sequences; a UTF-8 lead
    /// byte waits for its continuation bytes. When the sequence is over the
    /// decoder is back between events.
    pub fn feed(&mut self, b: u8) -> (res: Feed)
        requires
            old(self).wf(),
        ensures
            final(self).wf(),
            res is Done ==> final(self).state is Start,
            match old(self).state {
                DecodeState::Start => if b == 0x1b {
                    res is More && final(self).state is Escape
                } else if b >= 0xc0 {
                    match continuation_count(b) {
                        None => res == Feed::Done(None),
                        Some(k) => res is More && (final(self).state matches DecodeState::Utf8 {
                            bytes,
                            missing,
                        } && bytes@ == seq![b] && missing == k),
                    }
                } else {
                    res == Feed::Done(single_byte_event(b))
                },
                DecodeState::Escape => if b == 91 {
                    res is More && final(self).state is Csi
                } else if b == 79 {
                    res is More && final(self).state is Ss3
                } else if b == 0x1b {
                    res == Feed::Done(Some(KeyEvent::Key(Key::Esc)))
                } else {
                    res == Feed::Done(Some(escape_event(b)))
                },
                DecodeState::Csi => if 48 <= b <= 57 {
                    res is More && (final(self).state matches DecodeState::CsiParams { kept }
                        && kept@ == seq![b as char])
                } else {
                    res == Feed::Done(csi_event(b))
                },
                DecodeState::CsiParams { kept } => if (48 <= b <= 57) || b == 59 {
                    res is More && (final(self).state matches DecodeState::CsiParams { kept: now }
                        && now@ == if kept@.len() < 6 {
                        kept@.push(b as char)
                    } else {
                        kept@
                    })
                } else if b == 126 {
                    res == Feed::Done(
                        match tilde_key(first_param(kept@)) {
                            Some(k) => Some(KeyEvent::Key(k)),
                            None => None,
                        },
                    )
                } else {
                    res == Feed::Done(None)
                },
                DecodeState::Ss3 => res == Feed::Done(ss3_event(b)),
                DecodeState::Utf8 { bytes, missing } => if missing > 1 {
                    res is More && (final(self).state matches DecodeState::Utf8 {
                        bytes: now,
                        missing: left,
                    } && now@ == bytes@.push(b) && left == missing - 1)
                } else {
                    res == Feed::Done(utf8_event(bytes@.push(b)))
                },
            },
    {
        let mut state = DecodeState::Start;
        std::mem::swap(&mut state, &mut self.state);
        match state {
            DecodeState::Start => {
                if b == 0x1b {
                    self.state = DecodeState::Escape;
                    Feed::More
                } else if b >= 0xc0 {
                    match utf8_continuation_count(b) {
                        None => Feed::Done(None),
                        Some(k) => {
                            let mut bytes: Vec<u8> = Vec::new();
                            bytes.push(b);
                            self.state = DecodeState::Utf8 { bytes, missing: k };
                            Feed::More
                        },
                    }
                } else {
                    Feed::Done(single_byte(b))
                }
            },
            DecodeState::Escape => {
                if b == 91 {
                    self.state = DecodeState::Csi;
                    Feed::More
                } else if b == 79 {
                    self.state = DecodeState::Ss3;
                    Feed::More
                } else if b == 0x1b {
                    Feed::Done(Some(KeyEvent::Key(Key::Esc)))
                } else if (97 <= b && b <= 122) || (65 <= b && b <= 90) || (48 <= b && b <= 57) {
                    Feed::Done(Some(KeyEvent::AltChar(b as char)))
                } else {
                    Feed::Done(Some(KeyEvent::Key(Key::Esc)))
                }
            },
            DecodeState::Csi => {
                if 48 <= b && b <= 57 {
                    let mut kept: Vec<char> = Vec::new();
                    kept.push(b as char);
                    self.state = DecodeState::CsiParams { kept };
                    Feed::More
                } else if b == 65 {
                    Feed::Done(Some(KeyEvent::Key(Key::Up)))
                } else if b == 66 {
                    Feed::Done(Some(KeyEvent::Key(Key::Down)))
                } else if b == 67 {
                    Feed::Done(Some(KeyEvent::Key(Key::Right)))
                } else if b == 68 {
                    Feed::Done(Some(KeyEvent::Key(Key::Left)))
                } else if b == 72 {
                    Feed::Done(Some(KeyEvent::Key(Key::Home)))
                } else if b == 70 {
                    Feed::Done(Some(KeyEvent::Key(Key::End)))
                } else if b == 90 {
                    Feed::Done(Some(KeyEvent::Shift(Key::Tab)))
                } else {
                    Feed::Done(None)
                }
            },
            DecodeState::CsiParams { kept } => {
                if (48 <= b && b <= 57) || b == 59 {
                    let mut now = kept;
                    if now.len() < 6 {
                        now.push(b as char);
                    }
                    self.state = DecodeState::CsiParams { kept: now };
                    Feed::More
                } else if b == 126 {
                    match tilde_param_key(kept.as_slice()) {
                        Some(k) => Feed::Done(Some(KeyEvent::Key(k))),
                        None => Feed::Done(None),
                    }
                } else {
                    Feed::Done(None)
                }
            },
            DecodeState::Ss3 => {
                if b == 80 {
                    Feed::Done(Some(KeyEvent::Key(Key::F1)))
                } else if b == 81 {
                    Feed::Done(Some(KeyEvent::Key(Key::F2)))
                } else if b == 82 {
                    Feed::Done(Some(KeyEvent::Key(Key::F3)))
                } else if b == 83 {
                    Feed::Done(Some(KeyEvent::Key(Key::F4)))
                } else {
                    Feed::Done(None)
                }
            },
            DecodeState::Utf8 { bytes, missing } => {
                let mut now = bytes;
                now.push(b);
                if missing > 1 {
                    self.state = DecodeState::Utf8 { bytes: now, missing: missing - 1 };
                    Feed::More
                } else {
                    match text::utf8_chars(now.as_slice()) {
                        Some(cs) => {
                            if cs.len() > 0 {
                                Feed::Done(Some(KeyEvent::Char(cs[0])))
                            } else {
                                Feed::Done(None)
                            }
                        },
                        None => Feed::Done(None),
                    }
                }
            },
        }
    }
}

/// The event a byte denotes on its own.
fn single_byte(b: u8) -> (res: Option<KeyEvent>)
    ensures
        res == single_byte_event(b),
{
    if b == 0x7f {
        Some(KeyEvent::Key(Key::Backspace))
    } else if b == 0x0d || b == 0x0a {
        Some(KeyEvent::Key(Key::Enter))
    } else if b == 0x09 {
        Some(KeyEvent::Key(Key::Tab))
    } else if b == 0x03 {
        Some(KeyEvent::CtrlChar('c'))
    } else if 0x01 <= b && b <= 0x1a {
        Some(KeyEvent::CtrlChar((b - 1 + 97) as char))
    } else if 0x20 <= b && b <= 0x7e {
        Some(KeyEvent::Char(b as char))
    } else {
        None
    }
}

} // verus!
