//! The HTTP/1.1 client's byte-level work: chunked transfer decoding,
//! judging a response once its head is parsed, the request text, and the
//! retry policy.
use vstd::prelude::*;
use vstd::utf8::{decode_utf8, encode_scalar, encode_utf8, valid_utf8};

use crate::text;

verus! {

// ---------------------------------------------------------------------------
// UTF-8 and hexadecimal numbers
// ---------------------------------------------------------------------------

/// The value of a hexadecimal digit, if `c` is one.
pub open spec fn hex_digit(c: char) -> Option<nat> {
    if '0' <= c && c <= '9' {
        Some((c as u32 - '0' as u32) as nat)
    } else if 'a' <= c && c <= 'f' {
        Some((c as u32 - 'a' as u32 + 10) as nat)
    } else if 'A' <= c && c <= 'F' {
        Some((c as u32 - 'A' as u32 + 10) as nat)
    } else {
        None
    }
}

/// Whether every character is a hexadecimal digit.
pub open spec fn all_hex(ds: Seq<char>) -> bool {
    forall|i: int| 0 <= i < ds.len() ==> (#[trigger] hex_digit(ds[i])) is Some
}

/// The value of a string of hexadecimal digits, most significant first.
pub open spec fn hex_value(ds: Seq<char>) -> nat
    decreases ds.len(),
{
    if ds.len() == 0 {
        0
    } else {
        hex_value(ds.drop_last()) * 16 + match hex_digit(ds.last()) {
            Some(d) => d,
            None => 0,
        }
    }
}

/// `usize::from_str_radix(s, 16)`: an optional `+` sign, then one or more
/// hexadecimal digits whose value fits in `usize`.
pub open spec fn parse_hex_usize(s: Seq<char>) -> Option<nat> {
    let ds = if s.len() > 0 && s[0] == '+' {
        s.drop_first()
    } else {
        s
    };
    if ds.len() > 0 && all_hex(ds) && hex_value(ds) <= usize::MAX {
        Some(hex_value(ds))
    } else {
        None
    }
}

fn hex_digit_exec(c: char) -> (res: Option<u8>)
    ensures
        res matches Some(d) ==> hex_digit(c) == Some(d as nat) && d < 16,
        res is None ==> hex_digit(c) is None,
{
    if '0' <= c && c <= '9' {
        Some(((c as u32) - ('0' as u32)) as u8)
    } else if 'a' <= c && c <= 'f' {
        Some(((c as u32) - ('a' as u32) + 10) as u8)
    } else if 'A' <= c && c <= 'F' {
        Some(((c as u32) - ('A' as u32) + 10) as u8)
    } else {
        None
    }
}

proof fn lemma_hex_value_grows(ds: Seq<char>, k: int)
    requires
        0 <= k <= ds.len(),
    ensures
        hex_value(ds.take(k)) <= hex_value(ds),
    decreases ds.len() - k,
{
    if k < ds.len() {
        lemma_hex_value_grows(ds, k + 1);
        assert(ds.take(k + 1).drop_last() =~= ds.take(k));
    } else {
        assert(ds.take(k) =~= ds);
    }
}

/// `usize::from_str_radix(s, 16)`.
pub fn parse_hex(s: &[char]) -> (res: Option<usize>)
    ensures
        res matches Some(v) ==> parse_hex_usize(s@) == Some(v as nat),
        res is None ==> parse_hex_usize(s@) is None,
{
    let n = s.len();
    let start: usize = if n > 0 && s[0] == '+' {
        1
    } else {
        0
    };
    let ghost ds = if s@.len() > 0 && s@[0] == '+' {
        s@.drop_first()
    } else {
        s@
    };
    assert(ds =~= s@.skip(start as int));
    if start >= n {
        assert(ds.len() == 0);
        return None;
    }
    let mut value: usize = 0;
    let mut i: usize = start;
    while i < n
        invariant
            n == s@.len(),
            start <= i <= n,
            ds == s@.skip(start as int),
            ds == (if s@.len() > 0 && s@[0] == '+' {
                s@.drop_first()
            } else {
                s@
            }),
            forall|j: int| 0 <= j < i - start ==> (#[trigger] hex_digit(ds[j])) is Some,
            value as nat == hex_value(ds.take(i - start)),
        decreases n - i,
    {
        let c = s[i];
        assert(ds[i - start] == c);
        match hex_digit_exec(c) {
            None => {
                assert(!all_hex(ds));
                return None;
            },
            Some(d) => {
                proof {
                    assert(ds.take(i - start + 1).drop_last() =~= ds.take(i - start));
                    assert(ds.take(i - start + 1).last() == c);
                }
                if value > (usize::MAX - d as usize) / 16 {
                    proof {
                        assert(hex_value(ds.take(i - start + 1)) == value * 16 + d);
                        assert(value * 16 + d > usize::MAX) by (nonlinear_arith)
                            requires
                                value > (usize::MAX - d) / 16,
                                d < 16,
                        ;
                        lemma_hex_value_grows(ds, i - start + 1);
                        if all_hex(ds) {
                            assert(hex_value(ds) > usize::MAX);
                        }
                    }
                    return None;
                }
                assert(value * 16 + d <= usize::MAX) by (nonlinear_arith)
                    requires
                        value <= (usize::MAX - d) / 16,
                        d < 16,
                ;
                value = value * 16 + d as usize;
            },
        }
        i = i + 1;
    }
    assert(ds.take(n - start) =~= ds);
    Some(value)
}

// ---------------------------------------------------------------------------
// Chunked transfer coding (RFC 7230, section 4.1)
// ---------------------------------------------------------------------------

/// Why a chunked body could not be decoded.
pub enum ChunkError {
    /// No CRLF ends a chunk-size line.
    NoCrlfAfterSize,
    /// A chunk-size line is not UTF-8.
    NonUtf8Size,
    /// A chunk size (shown here, extensions and whitespace removed) is not a
    /// hexadecimal `usize`.
    InvalidSize { text: String },
    /// A chunk claims `want` bytes where only `have` remain.
    Truncated { want: usize, have: usize },
    /// Chunk data is not followed by CRLF.
    MissingCrlfAfterData,
}

/// Name for what `format!("{:?}", s)` gives for a string slice: the text
/// quoted and escaped as Rust's `Debug` writes it.
pub uninterp spec fn debug_text_of(s: Seq<char>) -> Seq<char>;

/// `<str as Debug>::fmt`, through `format!`: the text quoted and escaped.
/// Its contract names the result (`debug_text_of`), a function of the text
/// alone; std's escaping rules are left unstated.
#[verifier::external_body]
fn debug_quoted(s: &str) -> (res: String)
    ensures
        res@ == debug_text_of(s@),
{
    format!("{:?}", s)
}

/// The message of a chunked-decoding error.
pub open spec fn chunk_error_text(e: ChunkError) -> Seq<char> {
    match e {
        ChunkError::NoCrlfAfterSize => "Chunked: no CRLF after chunk size"@,
        ChunkError::NonUtf8Size => "Chunked: non-utf8 chunk size"@,
        ChunkError::InvalidSize { text } => "Chunked: invalid chunk size "@ + debug_text_of(text@),
        ChunkError::Truncated { want, have } => "Chunked: body truncated (want "@ + text::dec(
            want as nat,
        ) + " bytes, have "@ + text::dec(have as nat) + ")"@,
        ChunkError::MissingCrlfAfterData => "Chunked: missing CRLF after chunk data"@,
    }
}

impl ChunkError {
    /// The message shown for the error.
    pub fn message(&self) -> (res: String)
        ensures
            res@ == chunk_error_text(*self),
    {
        match self {
            ChunkError::NoCrlfAfterSize => "Chunked: no CRLF after chunk size".to_owned(),
            ChunkError::NonUtf8Size => "Chunked: non-utf8 chunk size".to_owned(),
            ChunkError::InvalidSize { text } => {
                let mut s = String::new();
                s.append("Chunked: invalid chunk size ");
                s.append(debug_quoted(text.as_str()).as_str());
                s
            },
            ChunkError::Truncated { want, have } => {
                let mut s = String::new();
                s.append("Chunked: body truncated (want ");
                s.append(text::string_of(&text::dec_u64(*want as u64)).as_str());
                s.append(" bytes, have ");
                s.append(text::string_of(&text::dec_u64(*have as u64)).as_str());
                s.append(")");
                s
            },
            ChunkError::MissingCrlfAfterData => "Chunked: missing CRLF after chunk data".to_owned(),
        }
    }
}

/// What decoding a chunked body gives, stated over sequences.
pub enum ChunkedOutcome {
    Body(Seq<u8>),
    NoCrlfAfterSize,
    NonUtf8Size,
    InvalidSize(Seq<char>),
    Truncated(nat, nat),
    MissingCrlfAfterData,
    /// The chunk size plus its position exceeds `usize::MAX`, where the
    /// decoding arithmetic overflows.
    SizeOverflow,
}

/// Whether `s[i]`, `s[i + 1]` is CR LF.
pub open spec fn crlf_at(s: Seq<u8>, i: int) -> bool {
    0 <= i && i + 1 < s.len() && s[i] == 13u8 && s[i + 1] == 10u8
}

/// The first position at or after `from` where CR LF starts.
pub open spec fn first_crlf(s: Seq<u8>, from: int) -> Option<int>
    decreases s.len() - from,
{
    if from < 0 || from + 1 >= s.len() {
        None
    } else if crlf_at(s, from) {
        Some(from)
    } else {
        first_crlf(s, from + 1)
    }
}

proof fn lemma_first_crlf_bounds(s: Seq<u8>, from: int)
    requires
        from >= 0,
    ensures
        first_crlf(s, from) matches Some(j) ==> from <= j && crlf_at(s, j) && forall|k: int|
            from <= k < j ==> !crlf_at(s, k),
        first_crlf(s, from) is None ==> forall|k: int| from <= k ==> !crlf_at(s, k),
    decreases s.len() - from,
{
    if from < 0 || from + 1 >= s.len() {
    } else if crlf_at(s, from) {
    } else {
        lemma_first_crlf_bounds(s, from + 1);
    }
}

/// The chunk size written on a size line: the text before any `;`
/// extension, trimmed.
pub open spec fn size_text(line: Seq<u8>) -> Seq<char> {
    text::trim(text::split_on(decode_utf8(line), ';')[0])
}

/// Decoding from position `pos`, with `out` already decoded.
pub open spec fn decode_from(s: Seq<u8>, pos: int, out: Seq<u8>) -> ChunkedOutcome
    decreases s.len() - pos,
{
    if pos < 0 || pos > s.len() {
        ChunkedOutcome::NoCrlfAfterSize
    } else {
        match first_crlf(s, pos) {
            None => ChunkedOutcome::NoCrlfAfterSize,
            Some(j) => {
                let line = s.subrange(pos, j);
                if !valid_utf8(line) {
                    ChunkedOutcome::NonUtf8Size
                } else {
                    match parse_hex_usize(size_text(line)) {
                        None => ChunkedOutcome::InvalidSize(size_text(line)),
                        Some(size) => {
                            let data = j + 2;
                            if size == 0 {
                                ChunkedOutcome::Body(out)
                            } else if data + size > usize::MAX {
                                ChunkedOutcome::SizeOverflow
                            } else if data + size > s.len() {
                                ChunkedOutcome::Truncated(size, (s.len() - data) as nat)
                            } else if !crlf_at(s, data + size) {
                                ChunkedOutcome::MissingCrlfAfterData
                            } else if j < pos {
                                ChunkedOutcome::NoCrlfAfterSize
                            } else {
                                decode_from(s, data + size + 2, out + s.subrange(data, data + size))
                            }
                        },
                    }
                }
            },
        }
    }
}

/// What decoding the chunked body `s` gives.
pub open spec fn chunked_outcome(s: Seq<u8>) -> ChunkedOutcome {
    decode_from(s, 0, Seq::<u8>::empty())
}

/// How a decoding result reads as an outcome.
pub open spec fn outcome_of(res: Result<Vec<u8>, ChunkError>) -> ChunkedOutcome {
    match res {
        Ok(body) => ChunkedOutcome::Body(body@),
        Err(ChunkError::NoCrlfAfterSize) => ChunkedOutcome::NoCrlfAfterSize,
        Err(ChunkError::NonUtf8Size) => ChunkedOutcome::NonUtf8Size,
        Err(ChunkError::InvalidSize { text }) => ChunkedOutcome::InvalidSize(text@),
        Err(ChunkError::Truncated { want, have }) => ChunkedOutcome::Truncated(
            want as nat,
            have as nat,
        ),
        Err(ChunkError::MissingCrlfAfterData) => ChunkedOutcome::MissingCrlfAfterData,
    }
}

fn find_crlf(s: &[u8], from: usize) -> (res: Option<usize>)
    ensures
        res matches Some(j) ==> first_crlf(s@, from as int) == Some(j as int),
        res is None ==> first_crlf(s@, from as int) is None,
{
    let n = s.len();
    let mut j: usize = from;
    while j < n && j + 1 < n
        invariant
            n == s@.len(),
            from <= j,
            first_crlf(s@, from as int) == first_crlf(s@, j as int),
        decreases n - j,
    {
        if s[j] == 13u8 && s[j + 1] == 10u8 {
            return Some(j);
        }
        j = j + 1;
    }
    None
}

fn copy_range(s: &[u8], from: usize, to: usize) -> (res: Vec<u8>)
    requires
        from <= to <= s@.len(),
    ensures
        res@ == s@.subrange(from as int, to as int),
{
    let mut res: Vec<u8> = Vec::new();
    let mut i: usize = from;
    while i < to
        invariant
            from <= i <= to <= s@.len(),
            res@ == s@.subrange(from as int, i as int),
        decreases to - i,
    {
        res.push(s[i]);
        i = i + 1;
        assert(res@ =~= s@.subrange(from as int, i as int));
    }
    res
}

/// The walk behind the decoders: `None` where the chunk-size arithmetic
/// would overflow.
fn walk_chunks(input: &[u8]) -> (res: Option<Result<Vec<u8>, ChunkError>>)
    ensures
        res is None <==> chunked_outcome(input@) is SizeOverflow,
        res matches Some(r) ==> outcome_of(r) == chunked_outcome(input@),
{
    let n = input.len();
    let mut out: Vec<u8> = Vec::new();
    let mut pos: usize = 0;
    loop
        invariant
            n == input@.len(),
            pos <= n,
            decode_from(input@, pos as int, out@) == chunked_outcome(input@),
        decreases n - pos,
    {
        proof {
            lemma_first_crlf_bounds(input@, pos as int);
        }
        let j = match find_crlf(input, pos) {
            None => {
                return Some(Err(ChunkError::NoCrlfAfterSize));
            },
            Some(j) => j,
        };
        let line = copy_range(input, pos, j);
        let chars = match text::utf8_chars(line.as_slice()) {
            None => {
                return Some(Err(ChunkError::NonUtf8Size));
            },
            Some(cs) => cs,
        };
        let pieces = text::split_chars(chars.as_slice(), ';');
        proof {
            text::lemma_split_on_nonempty(chars@, ';');
        }
        let size_chars = text::trim_chars(pieces[0].as_slice());
        assert(size_chars@ == size_text(line@));
        let size = match parse_hex(size_chars.as_slice()) {
            None => {
                return Some(Err(ChunkError::InvalidSize { text: text::string_of(&size_chars) }));
            },
            Some(v) => v,
        };
        let data = j + 2;
        if size == 0 {
            return Some(Ok(out));
        }
        if size > usize::MAX - data {
            return None;
        }
        if size > n - data {
            return Some(Err(ChunkError::Truncated { want: size, have: n - data }));
        }
        let end = data + size;
        if !(n - end >= 2 && input[end] == 13u8 && input[end + 1] == 10u8) {
            return Some(Err(ChunkError::MissingCrlfAfterData));
        }
        let mut piece = copy_range(input, data, end);
        out.append(&mut piece);
        pos = end + 2;
    }
}

/// Decodes an HTTP/1.1 chunked body: each chunk is a hexadecimal size line
/// (extensions after `;` ignored), CRLF, that many bytes, CRLF; a zero size
/// ends the body and whatever follows it (trailers) is ignored. A body whose
/// chunk size overflows the position arithmetic is outside the domain.
pub fn decode_chunked(input: &[u8]) -> (res: Result<Vec<u8>, ChunkError>)
    requires
        !(chunked_outcome(input@) is SizeOverflow),
    ensures
        outcome_of(res) == chunked_outcome(input@),
{
    match walk_chunks(input) {
        Some(r) => r,
        None => {
            assert(false);
            Err(ChunkError::NoCrlfAfterSize)
        },
    }
}

/// `decode_chunked` for any input: `None` exactly where a chunk size would
/// overflow the position arithmetic.
pub fn try_decode_chunked(input: &[u8]) -> (res: Option<Result<Vec<u8>, ChunkError>>)
    ensures
        res is None <==> chunked_outcome(input@) is SizeOverflow,
        res matches Some(r) ==> outcome_of(r) == chunked_outcome(input@),
{
    walk_chunks(input)
}

// ---------------------------------------------------------------------------
// Chunked framing, and decoding it back
// ---------------------------------------------------------------------------

/// CR LF.
pub open spec fn crlf() -> Seq<u8> {
    seq![13u8, 10u8]
}

/// The size line that announces a chunk of `n` bytes, with its CR LF.
pub open spec fn size_line(n: nat) -> Seq<u8> {
    encode_utf8(text::hex_numeral(n)) + crlf()
}

/// One chunk on the wire: size line, data, CR LF.
pub open spec fn chunk_frame(data: Seq<u8>) -> Seq<u8> {
    size_line(data.len()) + data + crlf()
}

/// The frames of `chunks`, in order.
pub open spec fn frames(chunks: Seq<Seq<u8>>) -> Seq<u8>
    decreases chunks.len(),
{
    if chunks.len() == 0 {
        Seq::<u8>::empty()
    } else {
        chunk_frame(chunks[0]) + frames(chunks.drop_first())
    }
}

/// The chunked encoding of a body sent as `chunks`: their frames, then the
/// zero-size last chunk's size line, then `trailer` (trailer fields and the
/// final CR LF; a bare CR LF when there are none).
pub open spec fn chunked_encoding(chunks: Seq<Seq<u8>>, trailer: Seq<u8>) -> Seq<u8> {
    frames(chunks) + size_line(0) + trailer
}

/// The byte strings joined in order.
pub open spec fn concat_chunks(chunks: Seq<Seq<u8>>) -> Seq<u8>
    decreases chunks.len(),
{
    if chunks.len() == 0 {
        Seq::<u8>::empty()
    } else {
        chunks[0] + concat_chunks(chunks.drop_first())
    }
}

proof fn lemma_hex_numeral(n: nat)
    ensures
        text::hex_numeral(n).len() > 0,
        all_hex(text::hex_numeral(n)),
        hex_value(text::hex_numeral(n)) == n,
        forall|i: int|
            0 <= i < text::hex_numeral(n).len() ==> {
                let c = #[trigger] text::hex_numeral(n)[i];
                ('0' <= c && c <= '9') || ('a' <= c && c <= 'f')
            },
    decreases n,
{
    if n >= 16 {
        lemma_hex_numeral(n / 16);
        let p = text::hex_numeral(n / 16);
        let q = p.push(text::hex_char(n % 16));
        assert(q.drop_last() =~= p);
        assert(q.last() == text::hex_char(n % 16));
        assert(hex_digit(text::hex_char(n % 16)) == Some(n % 16));
        assert(hex_value(q) == hex_value(p) * 16 + n % 16);
        assert((n / 16) * 16 + n % 16 == n);
        assert forall|i: int| 0 <= i < q.len() implies (#[trigger] hex_digit(q[i])) is Some by {
            if i < p.len() {
                assert(q[i] == p[i]);
            }
        }
    } else {
        assert(hex_digit(text::hex_char(n)) == Some(n));
        assert(text::hex_numeral(n).drop_last() =~= Seq::<char>::empty());
        assert(text::hex_numeral(n).last() == text::hex_char(n));
        assert(hex_value(text::hex_numeral(n)) == hex_value(Seq::<char>::empty()) * 16 + n);
    }
}

/// The UTF-8 encoding of ASCII characters is their codes, one byte each.
proof fn lemma_encode_ascii(chars: Seq<char>)
    requires
        forall|i: int| 0 <= i < chars.len() ==> (#[trigger] chars[i]) as u32 <= 0x7f,
    ensures
        encode_utf8(chars).len() == chars.len(),
        forall|i: int|
            0 <= i < chars.len() ==> #[trigger] encode_utf8(chars)[i] == chars[i] as u32 as u8,
    decreases chars.len(),
{
    if chars.len() > 0 {
        let rest = chars.drop_first();
        assert forall|i: int| 0 <= i < rest.len() implies (#[trigger] rest[i]) as u32 <= 0x7f by {
            assert(rest[i] == chars[i + 1]);
        }
        lemma_encode_ascii(rest);
        let c = chars[0] as u32;
        assert((c & 0x7f) == c) by (bit_vector)
            requires
                c <= 0x7f,
        ;
        let first = encode_scalar(c);
        assert(first =~= seq![c as u8]);
        assert forall|i: int| 0 <= i < chars.len() implies #[trigger] encode_utf8(chars)[i]
            == chars[i] as u32 as u8 by {
            if i > 0 {
                assert(encode_utf8(chars)[i] == encode_utf8(rest)[i - 1]);
                assert(rest[i - 1] == chars[i]);
            }
        }
    }
}

proof fn lemma_first_crlf_at(s: Seq<u8>, from: int, j: int)
    requires
        0 <= from <= j,
        crlf_at(s, j),
        forall|k: int| from <= k < j ==> !crlf_at(s, k),
    ensures
        first_crlf(s, from) == Some(j),
    decreases j - from,
{
    if from < j {
        lemma_first_crlf_at(s, from + 1, j);
    }
}

/// A size line for `n` at `pos` is read back as the size `n`, its CR LF
/// found where the hexadecimal digits end.
proof fn lemma_read_size_line(s: Seq<u8>, pos: int, n: nat)
    requires
        0 <= pos,
        pos + size_line(n).len() <= s.len(),
        s.subrange(pos, pos + size_line(n).len()) == size_line(n),
        n <= usize::MAX,
    ensures
        size_line(n).len() == text::hex_numeral(n).len() + 2,
        first_crlf(s, pos) == Some(pos + text::hex_numeral(n).len()),
        valid_utf8(s.subrange(pos, pos + text::hex_numeral(n).len())),
        parse_hex_usize(size_text(s.subrange(pos, pos + text::hex_numeral(n).len()))) == Some(n),
{
    let h = text::hex_numeral(n);
    let l = h.len() as int;
    lemma_hex_numeral(n);
    assert forall|i: int| 0 <= i < h.len() implies (#[trigger] h[i]) as u32 <= 0x7f by {
        let c = h[i];
        assert(('0' <= c && c <= '9') || ('a' <= c && c <= 'f'));
    }
    lemma_encode_ascii(h);
    let e = encode_utf8(h);
    let line = size_line(n);
    assert(line.len() == l + 2);
    assert forall|k: int| pos <= k < pos + l implies !crlf_at(s, k) by {
        assert(s[k] == line[k - pos]);
        assert(line[k - pos] == e[k - pos]);
        let c = h[k - pos];
        assert(('0' <= c && c <= '9') || ('a' <= c && c <= 'f'));
        assert(e[k - pos] == c as u32 as u8);
    }
    assert(s[pos + l] == line[l]);
    assert(s[pos + l + 1] == line[l + 1]);
    lemma_first_crlf_at(s, pos, pos + l);
    assert(s.subrange(pos, pos + l) =~= e);
    vstd::utf8::encode_utf8_valid_utf8(h);
    vstd::utf8::encode_utf8_decode_utf8(h);
    assert(!h.contains(';')) by {
        if h.contains(';') {
            let k = choose|k: int| 0 <= k < h.len() && h[k] == ';';
            let c = h[k];
            assert(('0' <= c && c <= '9') || ('a' <= c && c <= 'f'));
        }
    }
    text::lemma_split_without_sep(h, ';');
    assert(!text::is_white(h[0]));
    assert(!text::is_white(h.last())) by {
        assert(h.last() == h[h.len() - 1]);
    }
    assert(text::trim_start(h) == h);
    assert(text::trim_end(h) == h);
    assert(h[0] != '+');
}

/// Decoding from a position where `frames(chunks)` and the last chunk
/// begin gives what was decoded so far followed by the chunks' data.
proof fn lemma_decode_frames(
    s: Seq<u8>,
    pos: int,
    out: Seq<u8>,
    chunks: Seq<Seq<u8>>,
    trailer: Seq<u8>,
)
    requires
        0 <= pos <= s.len(),
        s.skip(pos) == frames(chunks) + size_line(0) + trailer,
        s.len() <= usize::MAX,
        forall|i: int| 0 <= i < chunks.len() ==> (#[trigger] chunks[i]).len() > 0,
    ensures
        decode_from(s, pos, out) == ChunkedOutcome::Body(out + concat_chunks(chunks)),
    decreases chunks.len(),
{
    if chunks.len() == 0 {
        let line = size_line(0);
        assert(frames(chunks) =~= Seq::<u8>::empty());
        let rest = s.skip(pos);
        assert(rest =~= line + trailer);
        assert(rest.len() == s.len() - pos);
        assert(s.subrange(pos, pos + line.len()) =~= line) by {
            assert forall|k: int| 0 <= k < line.len() implies s.subrange(
                pos,
                pos + line.len(),
            )[k] == line[k] by {
                assert(k < rest.len());
                assert(rest[k] == s[pos + k]);
                assert((line + trailer)[k] == line[k]);
            }
        }
        lemma_read_size_line(s, pos, 0);
        assert(concat_chunks(chunks) =~= Seq::<u8>::empty());
        assert(out + concat_chunks(chunks) =~= out);
    } else {
        let c0 = chunks[0];
        let rest = chunks.drop_first();
        let n = c0.len();
        let line = size_line(n);
        let frame = chunk_frame(c0);
        assert(frames(chunks) == frame + frames(rest));
        let tail = frames(rest) + size_line(0) + trailer;
        assert(s.skip(pos) =~= frame + tail);
        assert(frame =~= line + c0 + crlf());
        assert(s.subrange(pos, pos + line.len()) =~= line) by {
            assert forall|k: int| 0 <= k < line.len() implies s.subrange(
                pos,
                pos + line.len(),
            )[k] == line[k] by {
                assert(s.skip(pos)[k] == s[pos + k]);
                assert((frame + tail)[k] == frame[k]);
            }
        }
        assert(n <= usize::MAX);
        lemma_read_size_line(s, pos, n);
        let j = pos + text::hex_numeral(n).len();
        let data = j + 2;
        assert(data == pos + line.len());
        let end = data + n;
        assert(end + 2 + tail.len() == s.len());
        assert forall|k: int| 0 <= k < n implies s[data + k] == c0[k] by {
            assert(s.skip(pos)[line.len() + k] == s[data + k]);
            assert((frame + tail)[line.len() + k] == frame[line.len() + k]);
        }
        assert(s.subrange(data, end) =~= c0);
        assert(crlf_at(s, end)) by {
            assert(s.skip(pos)[line.len() as int + n as int] == s[end]);
            assert(s.skip(pos)[line.len() as int + n as int + 1] == s[end + 1]);
            assert((frame + tail)[line.len() as int + n as int] == frame[line.len() as int + n as int]);
            assert((frame + tail)[line.len() as int + n as int + 1] == frame[line.len() as int + n as int + 1]);
        }
        assert(s.skip(end + 2) =~= tail) by {
            assert forall|k: int| 0 <= k < tail.len() implies s.skip(end + 2)[k] == tail[k] by {
                assert(s.skip(pos)[frame.len() + k] == s[end + 2 + k]);
                assert((frame + tail)[frame.len() + k] == tail[k]);
            }
        }
        assert forall|i: int| 0 <= i < rest.len() implies (#[trigger] rest[i]).len() > 0 by {
            assert(rest[i] == chunks[i + 1]);
        }
        lemma_decode_frames(s, end + 2, out + c0, rest, trailer);
        assert(out + c0 + concat_chunks(rest) =~= out + concat_chunks(chunks));
    }
}

/// Decoding undoes chunking: a body sent as non-empty chunks, each framed
/// with its hexadecimal size, and closed by the zero-size chunk, decodes to
/// the chunks' data joined in order, whatever trailer follows.
pub proof fn law_decoding_undoes_chunking(chunks: Seq<Seq<u8>>, trailer: Seq<u8>)
    requires
        forall|i: int| 0 <= i < chunks.len() ==> (#[trigger] chunks[i]).len() > 0,
        chunked_encoding(chunks, trailer).len() <= usize::MAX,
    ensures
        chunked_outcome(chunked_encoding(chunks, trailer)) == ChunkedOutcome::Body(
            concat_chunks(chunks),
        ),
{
    let s = chunked_encoding(chunks, trailer);
    assert(s.skip(0) =~= frames(chunks) + size_line(0) + trailer);
    lemma_decode_frames(s, 0, Seq::<u8>::empty(), chunks, trailer);
    assert(Seq::<u8>::empty() + concat_chunks(chunks) =~= concat_chunks(chunks));
}

// ---------------------------------------------------------------------------
// Judging a response
// ---------------------------------------------------------------------------

/// How many header lines the response head may hold.
pub const MAX_HEADERS: usize = 64;

/// How large a response may grow while it is read (4 MiB).
pub const MAX_RESPONSE: usize = 4194304;

/// What parsing a response head gives, stated over sequences.
pub enum HeadOutcome {
    Malformed,
    Partial,
    /// The head's length in bytes, the status code, and the headers as
    /// (name, value) pairs in order.
    Complete(nat, Option<u16>, Seq<(Seq<char>, Seq<u8>)>),
}

/// The result of parsing a response head.
pub enum HeadParse {
    Malformed,
    Partial,
    Complete { head_len: usize, code: Option<u16>, headers: Vec<(String, Vec<u8>)> },
}

/// A parsed head read as sequences.
pub open spec fn head_view(h: HeadParse) -> HeadOutcome {
    match h {
        HeadParse::Malformed => HeadOutcome::Malformed,
        HeadParse::Partial => HeadOutcome::Partial,
        HeadParse::Complete { head_len, code, headers } => HeadOutcome::Complete(
            head_len as nat,
            code,
            headers@.map_values(|h: (String, Vec<u8>)| (h.0@, h.1@)),
        ),
    }
}

/// Name for what `httparse::Response::parse` gives for `buf` with room for
/// `max_headers` headers.
pub uninterp spec fn response_head(buf: Seq<u8>, max_headers: nat) -> HeadOutcome;

/// `httparse::Response::parse`, with room for `max_headers` headers. The
/// outcome is named (`response_head`); of it the contract states only that a
/// complete head is no longer than the input, as the parser's source shows
/// (it reports the bytes it consumed).
#[verifier::external_body]
fn parse_head(buf: &[u8], max_headers: usize) -> (res: HeadParse)
    ensures
        head_view(res) == response_head(buf@, max_headers as nat),
        res matches HeadParse::Complete { head_len, .. } ==> head_len <= buf@.len(),
{
    let mut slots = vec![httparse::EMPTY_HEADER; max_headers];
    let mut resp = httparse::Response::new(&mut slots);
    match resp.parse(buf) {
        Err(_) => HeadParse::Malformed,
        Ok(httparse::Status::Partial) => HeadParse::Partial,
        Ok(httparse::Status::Complete(n)) => HeadParse::Complete {
            head_len: n,
            code: resp.code,
            headers: resp.headers.iter().map(|h| (h.name.to_string(), h.value.to_vec())).collect(),
        },
    }
}

/// Why a request or its response failed.
pub enum HttpError {
    /// The URL did not parse.
    InvalidUrl,
    /// The URL has no host.
    NoHost,
    /// The URL has no port and its scheme has no default one.
    NoPort,
    /// Neither `http` nor `https`.
    UnsupportedScheme { scheme: String },
    /// The response grew past `MAX_RESPONSE` bytes.
    ResponseTooLarge,
    /// The response head did not parse.
    MalformedHead,
    /// The response ended inside its head.
    TruncatedHead,
    /// The status code is outside 200..400 (0 when the head gave none).
    BadStatus { status: u16 },
    /// The chunked body did not decode.
    Chunked { error: ChunkError },
    /// The body is not UTF-8.
    NonUtf8Body,
}

/// The message of a request error for `url`.
pub open spec fn http_error_text(e: HttpError, url: Seq<char>) -> Seq<char> {
    match e {
        HttpError::InvalidUrl => "Invalid URL: "@ + url,
        HttpError::NoHost => "URL has no host: "@ + url,
        HttpError::NoPort => "URL has no port and scheme has no default: "@ + url,
        HttpError::UnsupportedScheme { scheme } => "Unsupported URL scheme: "@ + scheme@,
        HttpError::ResponseTooLarge => "HTTP response exceeded "@ + text::dec(MAX_RESPONSE as nat)
            + " bytes"@,
        HttpError::MalformedHead => "Malformed HTTP response head"@,
        HttpError::TruncatedHead => "Truncated HTTP response head"@,
        HttpError::BadStatus { status } => "HTTP request failed with status "@ + text::dec(
            status as nat,
        ),
        HttpError::Chunked { error } => chunk_error_text(error),
        HttpError::NonUtf8Body => "HTTP response body is not valid UTF-8"@,
    }
}

impl HttpError {
    /// The message shown for the error met while fetching `url`.
    pub fn message(&self, url: &str) -> (res: String)
        ensures
            res@ == http_error_text(*self, url@),
    {
        match self {
            HttpError::InvalidUrl => {
                let mut s = String::new();
                s.append("Invalid URL: ");
                s.append(url);
                s
            },
            HttpError::NoHost => {
                let mut s = String::new();
                s.append("URL has no host: ");
                s.append(url);
                s
            },
            HttpError::NoPort => {
                let mut s = String::new();
                s.append("URL has no port and scheme has no default: ");
                s.append(url);
                s
            },
            HttpError::UnsupportedScheme { scheme } => {
                let mut s = String::new();
                s.append("Unsupported URL scheme: ");
                s.append(scheme.as_str());
                s
            },
            HttpError::ResponseTooLarge => {
                let mut s = String::new();
                s.append("HTTP response exceeded ");
                s.append(text::string_of(&text::dec_u64(MAX_RESPONSE as u64)).as_str());
                s.append(" bytes");
                s
            },
            HttpError::MalformedHead => "Malformed HTTP response head".to_owned(),
            HttpError::TruncatedHead => "Truncated HTTP response head".to_owned(),
            HttpError::BadStatus { status } => {
                let mut s = String::new();
                s.append("HTTP request failed with status ");
                s.append(text::string_of(&text::dec_u64(*status as u64)).as_str());
                s
            },
            HttpError::Chunked { error } => error.message(),
            HttpError::NonUtf8Body => "HTTP response body is not valid UTF-8".to_owned(),
        }
    }
}

/// Whether a `Transfer-Encoding` value lists `chunked` among its
/// comma-separated codings (ASCII case ignored).
pub open spec fn lists_chunked(value: Seq<u8>) -> bool {
    &&& valid_utf8(value)
    &&& exists|i: int|
        0 <= i < text::split_on(decode_utf8(value), ',').len() && text::eq_ignore_ascii_case(
            text::trim(#[trigger] text::split_on(decode_utf8(value), ',')[i]),
            "chunked"@,
        )
}

/// Whether a header says the body is chunked.
pub open spec fn chunked_header(h: (Seq<char>, Seq<u8>)) -> bool {
    text::eq_ignore_ascii_case(h.0, "transfer-encoding"@) && lists_chunked(h.1)
}

/// Whether any header says the body is chunked.
pub open spec fn any_chunked(headers: Seq<(Seq<char>, Seq<u8>)>) -> bool {
    exists|i: int| 0 <= i < headers.len() && chunked_header(#[trigger] headers[i])
}

/// Where a `Transfer-Encoding: chunked` header stands among the headers does
/// not matter: a chunked header at any position makes the body chunked, and
/// headers that are not chunked ones, before or after the others, change
/// nothing; without any chunked header the body is taken as it is.
pub proof fn law_chunked_header_anywhere(
    headers: Seq<(Seq<char>, Seq<u8>)>,
    i: int,
    other: (Seq<char>, Seq<u8>),
)
    ensures
        0 <= i < headers.len() && chunked_header(headers[i]) ==> any_chunked(headers),
        (forall|k: int| 0 <= k < headers.len() ==> !chunked_header(#[trigger] headers[k]))
            ==> !any_chunked(headers),
        !chunked_header(other) ==> any_chunked(seq![other] + headers) == any_chunked(headers),
        !chunked_header(other) ==> any_chunked(headers + seq![other]) == any_chunked(headers),
        chunked_header(other) ==> any_chunked(seq![other] + headers) && any_chunked(
            headers + seq![other],
        ),
{
    let front = seq![other] + headers;
    let back = headers + seq![other];
    if 0 <= i < headers.len() && chunked_header(headers[i]) {
        assert(chunked_header(headers[i]));
    }
    if any_chunked(headers) {
        let j = choose|j: int| 0 <= j < headers.len() && chunked_header(#[trigger] headers[j]);
        assert(front[j + 1] == headers[j]);
        assert(back[j] == headers[j]);
    }
    if any_chunked(front) {
        let j = choose|j: int| 0 <= j < front.len() && chunked_header(#[trigger] front[j]);
        if j > 0 {
            assert(front[j] == headers[j - 1]);
        }
    }
    if any_chunked(back) {
        let j = choose|j: int| 0 <= j < back.len() && chunked_header(#[trigger] back[j]);
        if j < headers.len() {
            assert(back[j] == headers[j]);
        }
    }
    assert(front[0] == other);
    assert(back[headers.len() as int] == other);
}

/// The status a head reports, 0 when it gives none.
pub open spec fn status_of(code: Option<u16>) -> u16 {
    match code {
        Some(c) => c,
        None => 0,
    }
}

/// Whether the response carries the body `b` as text: `Ok` with its
/// characters when it is UTF-8, else the non-UTF-8 error.
pub open spec fn text_body(res: Option<Result<String, HttpError>>, b: Seq<u8>) -> bool {
    if valid_utf8(b) {
        res matches Some(Ok(t)) && t@ == decode_utf8(b)
    } else {
        res matches Some(Err(HttpError::NonUtf8Body))
    }
}

fn lists_chunked_exec(value: &[u8]) -> (res: bool)
    ensures
        res == lists_chunked(value@),
{
    let chars = match text::utf8_chars(value) {
        None => {
            return false;
        },
        Some(cs) => cs,
    };
    let pieces = text::split_chars(chars.as_slice(), ',');
    let word = text::chars_of("chunked");
    let n = pieces.len();
    let mut i: usize = 0;
    while i < n
        invariant
            n == pieces@.len(),
            i <= n,
            valid_utf8(value@),
            text::views(pieces@) == text::split_on(decode_utf8(value@), ','),
            word@ == "chunked"@,
            forall|k: int|
                0 <= k < i ==> !text::eq_ignore_ascii_case(
                    text::trim(#[trigger] text::split_on(decode_utf8(value@), ',')[k]),
                    "chunked"@,
                ),
        decreases n - i,
    {
        assert(pieces@[i as int]@ == text::split_on(decode_utf8(value@), ',')[i as int]);
        let t = text::trim_chars(pieces[i].as_slice());
        if text::eq_ignore_ascii_case_chars(t.as_slice(), word.as_slice()) {
            assert(text::eq_ignore_ascii_case(
                text::trim(text::split_on(decode_utf8(value@), ',')[i as int]),
                "chunked"@,
            ));
            return true;
        }
        i = i + 1;
    }
    false
}

fn any_chunked_exec(headers: &Vec<(String, Vec<u8>)>) -> (res: bool)
    ensures
        res == any_chunked(headers@.map_values(|h: (String, Vec<u8>)| (h.0@, h.1@))),
{
    let ghost hs = headers@.map_values(|h: (String, Vec<u8>)| (h.0@, h.1@));
    let name = text::chars_of("transfer-encoding");
    let n = headers.len();
    let mut i: usize = 0;
    while i < n
        invariant
            n == headers@.len(),
            hs == headers@.map_values(|h: (String, Vec<u8>)| (h.0@, h.1@)),
            i <= n,
            name@ == "transfer-encoding"@,
            forall|k: int| 0 <= k < i ==> !chunked_header(#[trigger] hs[k]),
        decreases n - i,
    {
        let h = &headers[i];
        assert(hs[i as int] == (h.0@, h.1@));
        let hn = text::chars_of(h.0.as_str());
        if text::eq_ignore_ascii_case_chars(hn.as_slice(), name.as_slice()) && lists_chunked_exec(
            h.1.as_slice(),
        ) {
            return true;
        }
        i = i + 1;
    }
    false
}

fn body_text(body: &[u8]) -> (res: Option<Result<String, HttpError>>)
    ensures
        text_body(res, body@),
{
    match text::utf8_chars(body) {
        Some(cs) => Some(Ok(text::string_of(&cs))),
        None => Some(Err(HttpError::NonUtf8Body)),
    }
}

/// Judges a complete response (everything read until the server closed the
/// connection): the head must parse, the status must lie in 200..400, a
/// chunked body is decoded, and the body must be UTF-8. `None` where a chunk
/// size would overflow the position arithmetic.
pub fn read_response(buf: &[u8]) -> (res: Option<Result<String, HttpError>>)
    ensures
        response_head(buf@, MAX_HEADERS as nat) is Malformed ==> res matches Some(
            Err(HttpError::MalformedHead),
        ),
        response_head(buf@, MAX_HEADERS as nat) is Partial ==> res matches Some(
            Err(HttpError::TruncatedHead),
        ),
        response_head(buf@, MAX_HEADERS as nat) matches HeadOutcome::Complete(n, code, headers) ==> {
            let status = status_of(code);
            let raw = buf@.skip(n as int);
            if !(200 <= status < 400) {
                res matches Some(Err(HttpError::BadStatus { status: s })) && s == status
            } else if any_chunked(headers) {
                match chunked_outcome(raw) {
                    ChunkedOutcome::SizeOverflow => res is None,
                    ChunkedOutcome::Body(b) => text_body(res, b),
                    _ => res matches Some(Err(HttpError::Chunked { error })) && outcome_of(
                        Err(error),
                    ) == chunked_outcome(raw),
                }
            } else {
                text_body(res, raw)
            }
        },
{
    match parse_head(buf, MAX_HEADERS) {
        HeadParse::Malformed => Some(Err(HttpError::MalformedHead)),
        HeadParse::Partial => Some(Err(HttpError::TruncatedHead)),
        HeadParse::Complete { head_len, code, headers } => {
            let status: u16 = match code {
                Some(c) => c,
                None => 0,
            };
            if !(200 <= status && status < 400) {
                return Some(Err(HttpError::BadStatus { status }));
            }
            let raw = copy_range(buf, head_len, buf.len());
            assert(raw@ == buf@.skip(head_len as int));
            if any_chunked_exec(&headers) {
                match try_decode_chunked(raw.as_slice()) {
                    None => None,
                    Some(Ok(body)) => body_text(body.as_slice()),
                    Some(Err(error)) => Some(Err(HttpError::Chunked { error })),
                }
            } else {
                body_text(raw.as_slice())
            }
        },
    }
}

/// The response buffer after `piece` is added to `buf`: `None` where it
/// would grow past `MAX_RESPONSE` bytes.
pub open spec fn accepted(buf: Seq<u8>, piece: Seq<u8>) -> Option<Seq<u8>> {
    if buf.len() + piece.len() > MAX_RESPONSE {
        None
    } else {
        Some(buf + piece)
    }
}

/// The buffer after the `pieces` are added one after another to `buf`:
/// `None` once one of them is refused.
pub open spec fn gathered(buf: Seq<u8>, pieces: Seq<Seq<u8>>) -> Option<Seq<u8>>
    decreases pieces.len(),
{
    if pieces.len() == 0 {
        Some(buf)
    } else {
        match accepted(buf, pieces[0]) {
            None => None,
            Some(next) => gathered(next, pieces.drop_first()),
        }
    }
}

/// Adds a piece just read to the response buffer, refusing to let the
/// response grow past `MAX_RESPONSE` bytes.
pub fn accept_piece(buf: &mut Vec<u8>, piece: &[u8]) -> (res: Result<(), HttpError>)
    ensures
        accepted(old(buf)@, piece@) is None ==> (res matches Err(HttpError::ResponseTooLarge)
            && final(buf)@ == old(buf)@),
        accepted(old(buf)@, piece@) matches Some(next) ==> (res is Ok && final(buf)@ == next),
{
    if piece.len() > MAX_RESPONSE || buf.len() > MAX_RESPONSE - piece.len() {
        return Err(HttpError::ResponseTooLarge);
    }
    let mut copy = copy_range(piece, 0, piece.len());
    assert(copy@ =~= piece@);
    buf.append(&mut copy);
    Ok(())
}

proof fn lemma_gathered(buf: Seq<u8>, pieces: Seq<Seq<u8>>)
    requires
        buf.len() <= MAX_RESPONSE,
    ensures
        gathered(buf, pieces) == if buf.len() + concat_chunks(pieces).len() <= MAX_RESPONSE {
            Some(buf + concat_chunks(pieces))
        } else {
            None
        },
    decreases pieces.len(),
{
    if pieces.len() > 0 {
        let p0 = pieces[0];
        let rest = pieces.drop_first();
        assert(concat_chunks(pieces) == p0 + concat_chunks(rest));
        assert(concat_chunks(pieces).len() == p0.len() + concat_chunks(rest).len());
        assert(buf + p0 + concat_chunks(rest) =~= buf + concat_chunks(pieces));
        if buf.len() + p0.len() > MAX_RESPONSE {
            assert(accepted(buf, p0) is None);
            assert(gathered(buf, pieces) is None);
        } else {
            lemma_gathered(buf + p0, rest);
            assert(accepted(buf, p0) == Some(buf + p0));
            assert(gathered(buf, pieces) == gathered(buf + p0, rest));
        }
    } else {
        assert(buf + concat_chunks(pieces) =~= buf);
    }
}

/// A response read piece by piece is kept whole exactly when it is at most
/// `MAX_RESPONSE` bytes long: then the buffer holds every piece in order;
/// otherwise it is refused.
pub proof fn law_response_is_capped(pieces: Seq<Seq<u8>>)
    ensures
        concat_chunks(pieces).len() <= MAX_RESPONSE ==> gathered(Seq::<u8>::empty(), pieces) == Some(
            concat_chunks(pieces),
        ),
        concat_chunks(pieces).len() > MAX_RESPONSE ==> gathered(Seq::<u8>::empty(), pieces) is None,
{
    lemma_gathered(Seq::<u8>::empty(), pieces);
    assert(Seq::<u8>::empty() + concat_chunks(pieces) =~= concat_chunks(pieces));
}

// ---------------------------------------------------------------------------
// The request
// ---------------------------------------------------------------------------

/// The text of a GET request for `path` on `host`, asking for JSON without
/// compression and for the connection to be closed after the response.
pub open spec fn request_text_spec(host: Seq<char>, path: Seq<char>, user_agent: Seq<char>) -> Seq<char> {
    "GET "@ + path + " HTTP/1.1\r\nHost: "@ + host + "\r\nUser-Agent: "@ + user_agent
        + "\r\nAccept: application/json\r\nAccept-Encoding: identity\r\nConnection: close\r\n\r\n"@
}

/// The request text for `path` on `host`.
pub fn request_text(host: &str, path: &str, user_agent: &str) -> (res: String)
    ensures
        res@ == request_text_spec(host@, path@, user_agent@),
{
    let mut req = String::new();
    req.append("GET ");
    req.append(path);
    req.append(" HTTP/1.1\r\nHost: ");
    req.append(host);
    req.append("\r\nUser-Agent: ");
    req.append(user_agent);
    req.append("\r\nAccept: application/json\r\nAccept-Encoding: identity\r\nConnection: close\r\n\r\n");
    assert(req@ =~= request_text_spec(host@, path@, user_agent@));
    req
}

// ---------------------------------------------------------------------------
// Where a request goes
// ---------------------------------------------------------------------------

/// The components of a parsed URL that a request needs, as sequences.
pub struct UrlView {
    pub scheme: Seq<char>,
    pub host: Option<Seq<char>>,
    pub port: Option<u16>,
    pub path: Seq<char>,
    pub query: Option<Seq<char>>,
}

/// The components of a parsed URL that a request needs.
pub struct UrlParts {
    pub scheme: String,
    pub host: Option<String>,
    /// The explicit port, or the scheme's default one.
    pub port: Option<u16>,
    pub path: String,
    pub query: Option<String>,
}

/// A URL's parts read as sequences.
pub open spec fn url_view(u: UrlParts) -> UrlView {
    UrlView {
        scheme: u.scheme@,
        host: match u.host {
            Some(h) => Some(h@),
            None => None,
        },
        port: u.port,
        path: u.path@,
        query: match u.query {
            Some(q) => Some(q@),
            None => None,
        },
    }
}

/// Name for what `url::Url::parse` gives for `input`, read through the
/// accessors `scheme`, `host_str`, `port_or_known_default`, `path` and
/// `query`; `None` when the URL does not parse.
pub uninterp spec fn parsed_url(input: Seq<char>) -> Option<UrlView>;

/// `url::Url::parse` and the accessors a request needs. The parse is named
/// (`parsed_url`), a function of the input alone; WHATWG URL parsing itself
/// is left unstated.
#[verifier::external_body]
fn parse_url(input: &str) -> (res: Option<UrlParts>)
    ensures
        res is None <==> parsed_url(input@) is None,
        res matches Some(u) ==> parsed_url(input@) == Some(url_view(u)),
{
    let u = url::Url::parse(input).ok()?;
    Some(UrlParts {
        scheme: u.scheme().to_string(),
        host: u.host_str().map(|h| h.to_string()),
        port: u.port_or_known_default(),
        path: u.path().to_string(),
        query: u.query().map(|q| q.to_string()),
    })
}

/// Where and how a GET request is sent.
pub struct RequestPlan {
    /// TLS (`https`) or plain TCP (`http`).
    pub secure: bool,
    pub host: String,
    pub port: u16,
    /// The path, `/` when empty, followed by `?query` when there is one.
    pub target: String,
}

/// The request target: the path (`/` when empty), then `?` and the query.
pub open spec fn request_target(path: Seq<char>, query: Option<Seq<char>>) -> Seq<char> {
    let p = if path.len() == 0 {
        seq!['/']
    } else {
        path
    };
    match query {
        Some(q) => p + seq!['?'] + q,
        None => p,
    }
}

/// Decides where a GET for `url` goes: the URL must parse and have a host
/// and a port (explicit or the scheme's default), and its scheme must be
/// `https` (TLS) or `http`; the checks come in that order.
pub fn plan_request(url: &str) -> (res: Result<RequestPlan, HttpError>)
    ensures
        parsed_url(url@) is None ==> res matches Err(HttpError::InvalidUrl),
        parsed_url(url@) matches Some(u) ==> {
            if u.host is None {
                res matches Err(HttpError::NoHost)
            } else if u.port is None {
                res matches Err(HttpError::NoPort)
            } else if u.scheme == "https"@ || u.scheme == "http"@ {
                res matches Ok(p) && p.secure == (u.scheme == "https"@) && p.host@ == u.host->0
                    && p.port == u.port->0 && p.target@ == request_target(u.path, u.query)
            } else {
                res matches Err(HttpError::UnsupportedScheme { scheme }) && scheme@ == u.scheme
            }
        },
{
    let parts = match parse_url(url) {
        None => {
            return Err(HttpError::InvalidUrl);
        },
        Some(p) => p,
    };
    let host = match parts.host {
        None => {
            return Err(HttpError::NoHost);
        },
        Some(h) => h,
    };
    let port = match parts.port {
        None => {
            return Err(HttpError::NoPort);
        },
        Some(p) => p,
    };
    let mut target = text::chars_of(parts.path.as_str());
    if target.len() == 0 {
        target.push('/');
    }
    match &parts.query {
        Some(q) => {
            target.push('?');
            text::push_str(&mut target, q.as_str());
        },
        None => {},
    }
    assert(target@ =~= request_target(parts.path@, url_view(parts).query));
    let scheme = text::chars_of(parts.scheme.as_str());
    let https = text::chars_of("https");
    let http = text::chars_of("http");
    if text::chars_eq(scheme.as_slice(), https.as_slice()) {
        Ok(RequestPlan { secure: true, host, port, target: text::string_of(&target) })
    } else if text::chars_eq(scheme.as_slice(), http.as_slice()) {
        Ok(RequestPlan { secure: false, host, port, target: text::string_of(&target) })
    } else {
        Err(HttpError::UnsupportedScheme { scheme: parts.scheme })
    }
}

// ---------------------------------------------------------------------------
// Retrying
// ---------------------------------------------------------------------------

/// The pause before the next try after try number `attempt` (counting from
/// 0) failed: 100 ms, doubling with every try.
pub open spec fn retry_delay(attempt: nat) -> nat {
    100 * vstd::arithmetic::power2::pow2(attempt)
}

/// Each retry waits twice as long as the one before.
pub proof fn law_retry_delay_doubles(attempt: nat)
    ensures
        retry_delay(attempt + 1) == 2 * retry_delay(attempt),
{
    vstd::arithmetic::power2::lemma_pow2_unfold(attempt + 1);
}

/// What to do after try number `attempt` (counting from 0) failed, with
/// `max_retries` retries allowed after the first try: wait the returned
/// number of milliseconds and try again, or give up (`None`) once the
/// retries are spent.
pub fn after_failed_attempt(attempt: u32, max_retries: u32) -> (res: Option<u64>)
    requires
        attempt < max_retries ==> retry_delay(attempt as nat) <= u64::MAX,
    ensures
        attempt >= max_retries ==> res is None,
        attempt < max_retries ==> res == Some(retry_delay(attempt as nat) as u64),
{
    if attempt >= max_retries {
        return None;
    }
    let mut factor: u64 = 1;
    let mut k: u32 = 0;
    proof {
        vstd::arithmetic::power2::lemma2_to64();
    }
    while k < attempt
        invariant
            k <= attempt,
            factor as nat == vstd::arithmetic::power2::pow2(k as nat),
            100 * vstd::arithmetic::power2::pow2(attempt as nat) <= u64::MAX,
        decreases attempt - k,
    {
        proof {
            vstd::arithmetic::power2::lemma_pow2_unfold((k + 1) as nat);
            if k + 1 < attempt {
                vstd::arithmetic::power2::lemma_pow2_strictly_increases(
                    (k + 1) as nat,
                    attempt as nat,
                );
            }
        }
        factor = factor * 2;
        k = k + 1;
    }
    Some(100 * factor)
}

} // verus!
