//! Character-sequence building blocks shared by the rest of the library:
//! whitespace trimming, splitting, joining, padding and decimal rendering,
//! each stated over `Seq<char>` and implemented on `Vec<char>`.
use vstd::prelude::*;
use vstd::utf8::{decode_utf8, valid_utf8};

verus! {

// ---------------------------------------------------------------------------
// Specifications
// ---------------------------------------------------------------------------

/// Unicode `White_Space`, the set that `char::is_whitespace` tests.
pub open spec fn is_white(c: char) -> bool {
    ||| c == ' '
    ||| ('\t' <= c && c <= '\r')
    ||| c == '\u{85}'
    ||| c == '\u{a0}'
    ||| c == '\u{1680}'
    ||| ('\u{2000}' <= c && c <= '\u{200a}')
    ||| c == '\u{2028}'
    ||| c == '\u{2029}'
    ||| c == '\u{202f}'
    ||| c == '\u{205f}'
    ||| c == '\u{3000}'
}

/// `s` without its leading whitespace.
pub open spec fn trim_start(s: Seq<char>) -> Seq<char>
    decreases s.len(),
{
    if s.len() > 0 && is_white(s[0]) {
        trim_start(s.drop_first())
    } else {
        s
    }
}

/// `s` without its trailing whitespace.
pub open spec fn trim_end(s: Seq<char>) -> Seq<char>
    decreases s.len(),
{
    if s.len() > 0 && is_white(s.last()) {
        trim_end(s.drop_last())
    } else {
        s
    }
}

/// `s` without leading and trailing whitespace (`str::trim`).
pub open spec fn trim(s: Seq<char>) -> Seq<char> {
    trim_end(trim_start(s))
}

/// Whether every character is ASCII.
pub open spec fn is_ascii_text(s: Seq<char>) -> bool {
    forall|i: int| 0 <= i < s.len() ==> (#[trigger] s[i]) as u32 <= 0x7f
}

/// The ASCII upper-case of a character (`char::to_ascii_uppercase`).
pub open spec fn ascii_upper(c: char) -> char {
    if 'a' <= c && c <= 'z' {
        ((c as u32 - 32) as u32) as char
    } else {
        c
    }
}

/// The ASCII lower-case of a character (`char::to_ascii_lowercase`).
pub open spec fn ascii_lower(c: char) -> char {
    if 'A' <= c && c <= 'Z' {
        ((c as u32 + 32) as u32) as char
    } else {
        c
    }
}

/// `s` with ASCII letters upper-cased (`str::to_ascii_uppercase`).
pub open spec fn upper_ascii(s: Seq<char>) -> Seq<char> {
    s.map_values(|c: char| ascii_upper(c))
}

/// `s` with ASCII letters lower-cased (`str::to_ascii_lowercase`).
pub open spec fn lower_ascii(s: Seq<char>) -> Seq<char> {
    s.map_values(|c: char| ascii_lower(c))
}

/// The pieces of `s` between occurrences of `sep` (`str::split` on a char):
/// always at least one piece, empty pieces kept.
pub open spec fn split_on(s: Seq<char>, sep: char) -> Seq<Seq<char>>
    decreases s.len(),
{
    if s.len() == 0 {
        seq![Seq::<char>::empty()]
    } else {
        let prev = split_on(s.drop_last(), sep);
        if s.last() == sep {
            prev.push(Seq::<char>::empty())
        } else {
            prev.update(prev.len() - 1, prev.last().push(s.last()))
        }
    }
}

/// The maximal runs of non-whitespace characters of `s`
/// (`str::split_whitespace`).
pub open spec fn words(s: Seq<char>) -> Seq<Seq<char>>
    decreases s.len(),
{
    if s.len() == 0 {
        Seq::<Seq<char>>::empty()
    } else {
        let prev = words(s.drop_last());
        let c = s.last();
        if is_white(c) {
            prev
        } else if s.len() >= 2 && !is_white(s[s.len() - 2]) {
            prev.update(prev.len() - 1, prev.last().push(c))
        } else {
            prev.push(seq![c])
        }
    }
}

/// The pieces joined with `sep` between neighbours (`[String]::join`).
pub open spec fn join(parts: Seq<Seq<char>>, sep: Seq<char>) -> Seq<char>
    decreases parts.len(),
{
    if parts.len() == 0 {
        Seq::<char>::empty()
    } else if parts.len() == 1 {
        parts[0]
    } else {
        join(parts.drop_last(), sep) + sep + parts.last()
    }
}

/// `n` spaces.
pub open spec fn spaces(n: nat) -> Seq<char> {
    Seq::new(n, |i: int| ' ')
}

/// `s` left-aligned in a field of `width` characters (`{:<width$}`).
pub open spec fn pad_right(s: Seq<char>, width: nat) -> Seq<char> {
    if s.len() >= width {
        s
    } else {
        s + spaces((width - s.len()) as nat)
    }
}

/// `s` right-aligned in a field of `width` characters (`{:>width$}`).
pub open spec fn pad_left(s: Seq<char>, width: nat) -> Seq<char> {
    if s.len() >= width {
        s
    } else {
        spaces((width - s.len()) as nat) + s
    }
}

/// The decimal digit for `d < 10`.
pub open spec fn digit_char(d: nat) -> char {
    if d == 0 {
        '0'
    } else if d == 1 {
        '1'
    } else if d == 2 {
        '2'
    } else if d == 3 {
        '3'
    } else if d == 4 {
        '4'
    } else if d == 5 {
        '5'
    } else if d == 6 {
        '6'
    } else if d == 7 {
        '7'
    } else if d == 8 {
        '8'
    } else {
        '9'
    }
}

/// Decimal rendering of a natural number, without leading zeros.
pub open spec fn dec(n: nat) -> Seq<char>
    decreases n,
{
    if n < 10 {
        seq![digit_char(n)]
    } else {
        dec(n / 10).push(digit_char(n % 10))
    }
}

/// The lower-case hexadecimal digit for `d < 16`.
pub open spec fn hex_char(d: nat) -> char {
    if d < 10 {
        ((d + 48) as u32) as char
    } else {
        ((d + 87) as u32) as char
    }
}

/// `n` written in lower-case hexadecimal, without leading zeros.
pub open spec fn hex_numeral(n: nat) -> Seq<char>
    decreases n,
{
    if n < 16 {
        seq![hex_char(n)]
    } else {
        hex_numeral(n / 16).push(hex_char(n % 16))
    }
}

/// Decimal rendering of an integer, with a leading `-` when negative.
pub open spec fn dec_int(n: int) -> Seq<char> {
    if n < 0 {
        seq!['-'] + dec((-n) as nat)
    } else {
        dec(n as nat)
    }
}

/// Whether two characters agree once ASCII letters are folded to one case.
pub open spec fn ascii_ci_eq(a: char, b: char) -> bool {
    ||| a == b
    ||| ('A' <= a && a <= 'Z' && (a as u32) + 32 == (b as u32))
    ||| ('A' <= b && b <= 'Z' && (b as u32) + 32 == (a as u32))
}

/// `str::eq_ignore_ascii_case`.
pub open spec fn eq_ignore_ascii_case(a: Seq<char>, b: Seq<char>) -> bool {
    &&& a.len() == b.len()
    &&& forall|i: int| 0 <= i < a.len() ==> ascii_ci_eq(#[trigger] a[i], b[i])
}

proof fn lemma_ascii_ci_eq_lower(x: char, y: char)
    ensures
        ascii_ci_eq(x, y) <==> ascii_lower(x) == ascii_lower(y),
{
}

/// Comparing ignoring ASCII case is comparing the ASCII lower-cased texts:
/// the texts have the same length and agree letter for letter once `A`-`Z`
/// are mapped to `a`-`z`.
pub proof fn law_eq_ignore_ascii_case_is_lowered_equality(a: Seq<char>, b: Seq<char>)
    ensures
        eq_ignore_ascii_case(a, b) <==> lower_ascii(a) == lower_ascii(b),
        eq_ignore_ascii_case(a, b) ==> a.len() == b.len(),
{
    if a.len() == b.len() {
        assert forall|i: int| 0 <= i < a.len() implies (ascii_ci_eq(a[i], b[i]) <==> lower_ascii(
            a,
        )[i] == lower_ascii(b)[i]) by {
            lemma_ascii_ci_eq_lower(a[i], b[i]);
        }
        if lower_ascii(a) == lower_ascii(b) {
            assert forall|i: int| 0 <= i < a.len() implies ascii_ci_eq(#[trigger] a[i], b[i]) by {
                lemma_ascii_ci_eq_lower(a[i], b[i]);
                assert(lower_ascii(a)[i] == lower_ascii(b)[i]);
            }
        }
        if eq_ignore_ascii_case(a, b) {
            assert forall|i: int| 0 <= i < a.len() implies lower_ascii(a)[i] == lower_ascii(b)[i] by {
                lemma_ascii_ci_eq_lower(a[i], b[i]);
                assert(ascii_ci_eq(a[i], b[i]));
            }
            assert(lower_ascii(a) =~= lower_ascii(b));
        }
    } else {
        assert(lower_ascii(a).len() != lower_ascii(b).len());
    }
}

/// Whether `pat` occurs in `s` at position `i`.
pub open spec fn occurs_at(s: Seq<char>, pat: Seq<char>, i: int) -> bool {
    0 <= i && i + pat.len() <= s.len() && s.subrange(i, i + pat.len()) == pat
}

/// Whether `pat` occurs anywhere in `s` (`str::contains`).
pub open spec fn contains_seq(s: Seq<char>, pat: Seq<char>) -> bool {
    exists|i: int| occurs_at(s, pat, i)
}

/// Every non-overlapping occurrence of `pat`, scanning from the left,
/// replaced by `rep` (`str::replace`), for a non-empty `pat`.
pub open spec fn replace_all(s: Seq<char>, pat: Seq<char>, rep: Seq<char>) -> Seq<char>
    decreases s.len(),
{
    if pat.len() == 0 || s.len() < pat.len() {
        s
    } else if s.take(pat.len() as int) == pat {
        rep + replace_all(s.skip(pat.len() as int), pat, rep)
    } else {
        seq![s[0]] + replace_all(s.drop_first(), pat, rep)
    }
}

/// The three outcomes of comparing two character sequences.
#[derive(PartialEq, Eq, Structural, Clone, Copy, Debug)]
pub enum Order {
    Less,
    Equal,
    Greater,
}

/// Lexicographic order by code point, which is the order `str` compares in.
pub open spec fn lex_order(a: Seq<char>, b: Seq<char>) -> Order
    decreases a.len(),
{
    if a.len() == 0 {
        if b.len() == 0 {
            Order::Equal
        } else {
            Order::Less
        }
    } else if b.len() == 0 {
        Order::Greater
    } else if a[0] < b[0] {
        Order::Less
    } else if b[0] < a[0] {
        Order::Greater
    } else {
        lex_order(a.drop_first(), b.drop_first())
    }
}


// ---------------------------------------------------------------------------
// Lemmas
// ---------------------------------------------------------------------------

proof fn lemma_trim_start_skip(s: Seq<char>, k: int)
    requires
        0 <= k <= s.len(),
        forall|j: int| 0 <= j < k ==> is_white(#[trigger] s[j]),
        k == s.len() || !is_white(s[k]),
    ensures
        trim_start(s) == s.skip(k),
    decreases k,
{
    if k == 0 {
        assert(s.skip(0) =~= s);
    } else {
        assert(is_white(s[0]));
        let t = s.drop_first();
        assert forall|j: int| 0 <= j < k - 1 implies is_white(#[trigger] t[j]) by {
            assert(t[j] == s[j + 1]);
        }
        lemma_trim_start_skip(t, k - 1);
        assert(t.skip(k - 1) =~= s.skip(k));
    }
}

proof fn lemma_trim_end_take(s: Seq<char>, m: int)
    requires
        0 <= m <= s.len(),
        forall|j: int| m <= j < s.len() ==> is_white(#[trigger] s[j]),
        m == 0 || !is_white(s[m - 1]),
    ensures
        trim_end(s) == s.take(m),
    decreases s.len() - m,
{
    if m == s.len() {
        assert(s.take(m) =~= s);
    } else {
        assert(is_white(s.last()));
        let t = s.drop_last();
        lemma_trim_end_take(t, m);
        assert(t.take(m) =~= s.take(m));
    }
}

pub proof fn lemma_split_on_nonempty(s: Seq<char>, sep: char)
    ensures
        split_on(s, sep).len() >= 1,
    decreases s.len(),
{
    if s.len() > 0 {
        lemma_split_on_nonempty(s.drop_last(), sep);
    }
}

/// Splitting on a character and joining the pieces with it gives the
/// string back.
pub proof fn law_join_undoes_split(s: Seq<char>, sep: char)
    ensures
        join(split_on(s, sep), seq![sep]) == s,
    decreases s.len(),
{
    if s.len() > 0 {
        let t = s.drop_last();
        let p = split_on(t, sep);
        law_join_undoes_split(t, sep);
        lemma_split_on_nonempty(t, sep);
        if s.last() == sep {
            assert(p.push(Seq::<char>::empty()).drop_last() =~= p);
            assert(join(p, seq![sep]) + seq![sep] + Seq::<char>::empty() =~= s);
        } else {
            let q = p.update(p.len() - 1, p.last().push(s.last()));
            if p.len() == 1 {
                assert(q[0] =~= s);
            } else {
                let c = s.last();
                let head = join(p.drop_last(), seq![sep]) + seq![sep];
                assert(q.drop_last() =~= p.drop_last());
                assert(q.last() == p.last().push(c));
                assert(join(p, seq![sep]) == head + p.last());
                assert(join(q, seq![sep]) == head + p.last().push(c));
                assert(head + p.last().push(c) =~= (head + p.last()).push(c));
                assert(s =~= t.push(c));
            }
        }
    } else {
        assert(split_on(s, sep) =~= seq![Seq::<char>::empty()]);
    }
}

proof fn lemma_trim_start_shape(s: Seq<char>)
    ensures
        trim_start(s).len() == 0 || !is_white(trim_start(s)[0]),
    decreases s.len(),
{
    if s.len() > 0 && is_white(s[0]) {
        lemma_trim_start_shape(s.drop_first());
    }
}

proof fn lemma_trim_end_shape(s: Seq<char>)
    ensures
        trim_end(s).len() <= s.len(),
        trim_end(s) == s.take(trim_end(s).len() as int),
        trim_end(s).len() == 0 || !is_white(trim_end(s).last()),
    decreases s.len(),
{
    if s.len() > 0 && is_white(s.last()) {
        lemma_trim_end_shape(s.drop_last());
        let r = trim_end(s.drop_last());
        assert(s.drop_last().take(r.len() as int) =~= s.take(r.len() as int));
    } else {
        assert(s.take(s.len() as int) =~= s);
    }
}

/// Trimming twice is trimming once.
pub proof fn law_trim_is_idempotent(s: Seq<char>)
    ensures
        trim(trim(s)) == trim(s),
{
    let u = trim_start(s);
    let v = trim_end(u);
    lemma_trim_start_shape(s);
    lemma_trim_end_shape(u);
    if v.len() > 0 {
        assert(v[0] == u[0]);
    }
    assert(trim_start(v) == v);
    lemma_trim_end_shape(v);
    assert(trim_end(v) == v);
}

/// Trimming keeps a text ASCII.
pub proof fn lemma_trim_keeps_ascii(s: Seq<char>)
    requires
        is_ascii_text(s),
    ensures
        is_ascii_text(trim(s)),
{
    lemma_trim_start_keeps_ascii(s);
    lemma_trim_end_keeps_ascii(trim_start(s));
}

proof fn lemma_trim_start_keeps_ascii(s: Seq<char>)
    requires
        is_ascii_text(s),
    ensures
        is_ascii_text(trim_start(s)),
    decreases s.len(),
{
    if s.len() > 0 && is_white(s[0]) {
        let t = s.drop_first();
        assert forall|i: int| 0 <= i < t.len() implies (#[trigger] t[i]) as u32 <= 0x7f by {
            assert(t[i] == s[i + 1]);
        }
        lemma_trim_start_keeps_ascii(t);
    }
}

proof fn lemma_trim_end_keeps_ascii(s: Seq<char>)
    requires
        is_ascii_text(s),
    ensures
        is_ascii_text(trim_end(s)),
    decreases s.len(),
{
    if s.len() > 0 && is_white(s.last()) {
        let t = s.drop_last();
        assert forall|i: int| 0 <= i < t.len() implies (#[trigger] t[i]) as u32 <= 0x7f by {
            assert(t[i] == s[i]);
        }
        lemma_trim_end_keeps_ascii(t);
    }
}

/// Changing the case of ASCII letters keeps whitespace and non-whitespace.
proof fn lemma_case_keeps_white(c: char)
    ensures
        is_white(ascii_lower(c)) == is_white(c),
        is_white(ascii_upper(c)) == is_white(c),
{
}

/// Trimming commutes with ASCII lower-casing.
pub proof fn lemma_trim_lower(s: Seq<char>)
    ensures
        trim(lower_ascii(s)) == lower_ascii(trim(s)),
{
    lemma_trim_start_lower(s);
    lemma_trim_end_lower(trim_start(s));
}

proof fn lemma_trim_start_lower(s: Seq<char>)
    ensures
        trim_start(lower_ascii(s)) == lower_ascii(trim_start(s)),
    decreases s.len(),
{
    let m = lower_ascii(s);
    if s.len() > 0 {
        lemma_case_keeps_white(s[0]);
        assert(m[0] == ascii_lower(s[0]));
        assert(m.drop_first() =~= lower_ascii(s.drop_first()));
        lemma_trim_start_lower(s.drop_first());
    } else {
        assert(m =~= s);
    }
}

proof fn lemma_trim_end_lower(s: Seq<char>)
    ensures
        trim_end(lower_ascii(s)) == lower_ascii(trim_end(s)),
    decreases s.len(),
{
    let m = lower_ascii(s);
    if s.len() > 0 {
        lemma_case_keeps_white(s.last());
        assert(m.last() == ascii_lower(s.last()));
        assert(m.drop_last() =~= lower_ascii(s.drop_last()));
        lemma_trim_end_lower(s.drop_last());
    } else {
        assert(m =~= s);
    }
}

/// Trimming commutes with ASCII upper-casing.
pub proof fn lemma_trim_upper(s: Seq<char>)
    ensures
        trim(upper_ascii(s)) == upper_ascii(trim(s)),
{
    lemma_trim_start_upper(s);
    lemma_trim_end_upper(trim_start(s));
}

proof fn lemma_trim_start_upper(s: Seq<char>)
    ensures
        trim_start(upper_ascii(s)) == upper_ascii(trim_start(s)),
    decreases s.len(),
{
    let m = upper_ascii(s);
    if s.len() > 0 {
        lemma_case_keeps_white(s[0]);
        assert(m[0] == ascii_upper(s[0]));
        assert(m.drop_first() =~= upper_ascii(s.drop_first()));
        lemma_trim_start_upper(s.drop_first());
    } else {
        assert(m =~= s);
    }
}

proof fn lemma_trim_end_upper(s: Seq<char>)
    ensures
        trim_end(upper_ascii(s)) == upper_ascii(trim_end(s)),
    decreases s.len(),
{
    let m = upper_ascii(s);
    if s.len() > 0 {
        lemma_case_keeps_white(s.last());
        assert(m.last() == ascii_upper(s.last()));
        assert(m.drop_last() =~= upper_ascii(s.drop_last()));
        lemma_trim_end_upper(s.drop_last());
    } else {
        assert(m =~= s);
    }
}

/// Upper-casing after either ASCII case change is upper-casing alone.
pub proof fn lemma_upper_after_case(s: Seq<char>)
    ensures
        upper_ascii(lower_ascii(s)) == upper_ascii(s),
        upper_ascii(upper_ascii(s)) == upper_ascii(s),
{
    assert forall|i: int| 0 <= i < s.len() implies #[trigger] upper_ascii(lower_ascii(s))[i]
        == upper_ascii(s)[i] by {
        let c = s[i];
        assert(lower_ascii(s)[i] == ascii_lower(c));
    }
    assert forall|i: int| 0 <= i < s.len() implies #[trigger] upper_ascii(upper_ascii(s))[i]
        == upper_ascii(s)[i] by {
        let c = s[i];
        assert(upper_ascii(s)[i] == ascii_upper(c));
    }
    assert(upper_ascii(lower_ascii(s)) =~= upper_ascii(s));
    assert(upper_ascii(upper_ascii(s)) =~= upper_ascii(s));
}

/// ASCII case changes keep a text ASCII.
pub proof fn lemma_case_keeps_ascii(s: Seq<char>)
    requires
        is_ascii_text(s),
    ensures
        is_ascii_text(lower_ascii(s)),
        is_ascii_text(upper_ascii(s)),
{
    assert forall|i: int| 0 <= i < s.len() implies (#[trigger] lower_ascii(s)[i]) as u32 <= 0x7f by {
        assert(lower_ascii(s)[i] == ascii_lower(s[i]));
    }
    assert forall|i: int| 0 <= i < s.len() implies (#[trigger] upper_ascii(s)[i]) as u32 <= 0x7f by {
        assert(upper_ascii(s)[i] == ascii_upper(s[i]));
    }
}

proof fn lemma_words_nonempty(s: Seq<char>)
    requires
        s.len() > 0,
        !is_white(s.last()),
    ensures
        words(s).len() >= 1,
    decreases s.len(),
{
    if s.len() >= 2 && !is_white(s[s.len() - 2]) {
        lemma_words_nonempty(s.drop_last());
    }
}

/// Without the separator there is one piece, the whole text.
pub proof fn lemma_split_without_sep(s: Seq<char>, sep: char)
    requires
        !s.contains(sep),
    ensures
        split_on(s, sep) == seq![s],
    decreases s.len(),
{
    if s.len() > 0 {
        let t = s.drop_last();
        assert(!t.contains(sep)) by {
            if t.contains(sep) {
                let k = choose|k: int| 0 <= k < t.len() && t[k] == sep;
                assert(s[k] == sep);
            }
        }
        lemma_split_without_sep(t, sep);
        assert(s.last() != sep) by {
            assert(s[s.len() - 1] == s.last());
        }
        assert(t.push(s.last()) =~= s);
        assert(seq![t].update(0, t.push(s.last())) =~= seq![s]);
    } else {
        assert(s =~= Seq::<char>::empty());
    }
}

/// Splitting at a separator placed between two texts splits each of them.
pub proof fn lemma_split_concat(x: Seq<char>, y: Seq<char>, sep: char)
    ensures
        split_on(x + seq![sep] + y, sep) == split_on(x, sep) + split_on(y, sep),
    decreases y.len(),
{
    let s = x + seq![sep] + y;
    lemma_split_on_nonempty(x, sep);
    if y.len() == 0 {
        assert(s.drop_last() =~= x);
        assert(s.last() == sep);
        assert(split_on(y, sep) =~= seq![Seq::<char>::empty()]);
        assert(split_on(x, sep).push(Seq::<char>::empty()) =~= split_on(x, sep) + split_on(y, sep));
    } else {
        let y2 = y.drop_last();
        assert(s.drop_last() =~= x + seq![sep] + y2);
        assert(s.last() == y.last());
        lemma_split_concat(x, y2, sep);
        lemma_split_on_nonempty(y2, sep);
        let px = split_on(x, sep);
        let py = split_on(y2, sep);
        if y.last() == sep {
            assert((px + py).push(Seq::<char>::empty()) =~= px + py.push(Seq::<char>::empty()));
        } else {
            let prev = px + py;
            assert(prev.last() == py.last());
            assert(prev.update(prev.len() - 1, prev.last().push(y.last())) =~= px + py.update(
                py.len() - 1,
                py.last().push(y.last()),
            ));
        }
    }
}

/// No piece of a split holds the separator.
pub proof fn lemma_split_pieces_without_sep(s: Seq<char>, sep: char)
    ensures
        forall|i: int, j: int|
            #![trigger split_on(s, sep)[i][j]]
            0 <= i < split_on(s, sep).len() && 0 <= j < split_on(s, sep)[i].len() ==> split_on(
                s,
                sep,
            )[i][j] != sep,
    decreases s.len(),
{
    if s.len() > 0 {
        let t = s.drop_last();
        lemma_split_pieces_without_sep(t, sep);
        lemma_split_on_nonempty(t, sep);
        let prev = split_on(t, sep);
        let r = split_on(s, sep);
        assert forall|i: int, j: int| 0 <= i < r.len() && 0 <= j < r[i].len() implies #[trigger] r[i][j]
            != sep by {
            if s.last() == sep {
                if i < prev.len() {
                    assert(r[i] == prev[i]);
                }
            } else {
                if i < prev.len() - 1 {
                    assert(r[i] == prev[i]);
                } else {
                    assert(r[i] == prev.last().push(s.last()));
                    if j < prev.last().len() {
                        assert(r[i][j] == prev[prev.len() - 1][j]);
                    }
                }
            }
        }
    }
}

/// Every character of `trim(s)` satisfies what every character of `s` does.
pub proof fn lemma_trim_within(s: Seq<char>, p: spec_fn(char) -> bool)
    requires
        forall|i: int| 0 <= i < s.len() ==> p(#[trigger] s[i]),
    ensures
        forall|i: int| 0 <= i < trim(s).len() ==> p(#[trigger] trim(s)[i]),
{
    lemma_trim_start_within(s, p);
    lemma_trim_end_within(trim_start(s), p);
}

proof fn lemma_trim_start_within(s: Seq<char>, p: spec_fn(char) -> bool)
    requires
        forall|i: int| 0 <= i < s.len() ==> p(#[trigger] s[i]),
    ensures
        forall|i: int| 0 <= i < trim_start(s).len() ==> p(#[trigger] trim_start(s)[i]),
    decreases s.len(),
{
    if s.len() > 0 && is_white(s[0]) {
        let t = s.drop_first();
        assert forall|i: int| 0 <= i < t.len() implies p(#[trigger] t[i]) by {
            assert(t[i] == s[i + 1]);
        }
        lemma_trim_start_within(t, p);
        assert(trim_start(s) == trim_start(t));
    } else {
        assert(trim_start(s) == s);
    }
}

proof fn lemma_trim_end_within(s: Seq<char>, p: spec_fn(char) -> bool)
    requires
        forall|i: int| 0 <= i < s.len() ==> p(#[trigger] s[i]),
    ensures
        forall|i: int| 0 <= i < trim_end(s).len() ==> p(#[trigger] trim_end(s)[i]),
    decreases s.len(),
{
    if s.len() > 0 && is_white(s.last()) {
        let t = s.drop_last();
        assert forall|i: int| 0 <= i < t.len() implies p(#[trigger] t[i]) by {
            assert(t[i] == s[i]);
        }
        lemma_trim_end_within(t, p);
        assert(trim_end(s) == trim_end(t));
    } else {
        assert(trim_end(s) == s);
    }
}

/// Whether the text has no whitespace at either end.
pub open spec fn tidy(s: Seq<char>) -> bool {
    s.len() == 0 || (!is_white(s[0]) && !is_white(s.last()))
}

/// A trimmed text is tidy.
pub proof fn lemma_trim_tidy(s: Seq<char>)
    ensures
        tidy(trim(s)),
{
    lemma_trim_start_shape(s);
    lemma_trim_end_shape(trim_start(s));
    if trim(s).len() > 0 {
        assert(trim(s)[0] == trim_start(s)[0]);
    }
}

/// A tidy text is its own trim, also after a leading space.
pub proof fn lemma_tidy_trim(s: Seq<char>)
    requires
        tidy(s),
    ensures
        trim(s) == s,
        trim(seq![' '] + s) == s,
{
    let t = seq![' '] + s;
    assert(t.drop_first() =~= s);
    assert(trim_start(t) == trim_start(s));
    assert(trim_start(s) == s);
    assert(trim_end(s) == s);
}

/// Whether no character is whitespace.
pub open spec fn no_white(w: Seq<char>) -> bool {
    forall|i: int| 0 <= i < w.len() ==> !is_white(#[trigger] w[i])
}

proof fn lemma_words_of_word(w: Seq<char>)
    requires
        w.len() > 0,
        no_white(w),
    ensures
        words(w) == seq![w],
    decreases w.len(),
{
    let v = w.drop_last();
    assert(!is_white(w[w.len() - 1]));
    if w.len() == 1 {
        assert(v =~= Seq::<char>::empty());
        assert(words(v) =~= Seq::<Seq<char>>::empty());
        assert(words(w) == words(v).push(seq![w.last()]));
        assert(seq![w.last()] =~= w);
        assert(words(v).push(seq![w.last()]) =~= seq![w]);
    } else {
        assert forall|i: int| 0 <= i < v.len() implies !is_white(#[trigger] v[i]) by {
            assert(v[i] == w[i]);
        }
        lemma_words_of_word(v);
        assert(!is_white(w[w.len() - 2]));
        assert(words(w) == words(v).update(words(v).len() - 1, words(v).last().push(w.last())));
        assert(v.push(w.last()) =~= w);
        assert(seq![v].update(0, v.push(w.last())) =~= seq![w]);
    }
}

proof fn lemma_words_after_space(p: Seq<char>, w: Seq<char>)
    requires
        w.len() > 0,
        no_white(w),
    ensures
        words(p + seq![' '] + w) == words(p).push(w),
    decreases w.len(),
{
    let s = p + seq![' '] + w;
    assert(!is_white(w[w.len() - 1]));
    assert(s.last() == w.last());
    if w.len() == 1 {
        let u = p + seq![' '];
        assert(s.drop_last() =~= u);
        assert(u.drop_last() =~= p);
        assert(u.last() == ' ');
        assert(words(u) == words(p));
        assert(s[s.len() - 2] == ' ');
        assert(words(s) == words(u).push(seq![s.last()]));
        assert(seq![w.last()] =~= w);
    } else {
        let v = w.drop_last();
        assert forall|i: int| 0 <= i < v.len() implies !is_white(#[trigger] v[i]) by {
            assert(v[i] == w[i]);
        }
        assert(s.drop_last() =~= p + seq![' '] + v);
        lemma_words_after_space(p, v);
        assert(s[s.len() - 2] == w[w.len() - 2]);
        assert(!is_white(w[w.len() - 2]));
        assert(v.push(w.last()) =~= w);
        let prev = words(p).push(v);
        assert(words(s) == prev.update(prev.len() - 1, prev.last().push(s.last())));
        assert(prev.update(prev.len() - 1, prev.last().push(w.last())) =~= words(p).push(w));
    }
}

/// The words of words joined with single spaces are those words.
pub proof fn lemma_words_of_join(ws: Seq<Seq<char>>)
    requires
        forall|i: int| 0 <= i < ws.len() ==> (#[trigger] ws[i]).len() > 0 && no_white(ws[i]),
    ensures
        words(join(ws, seq![' '])) == ws,
    decreases ws.len(),
{
    if ws.len() == 1 {
        lemma_words_of_word(ws[0]);
        assert(seq![ws[0]] =~= ws);
    } else if ws.len() >= 2 {
        let front = ws.drop_last();
        assert forall|i: int| 0 <= i < front.len() implies (#[trigger] front[i]).len() > 0 && no_white(
            front[i],
        ) by {
            assert(front[i] == ws[i]);
        }
        lemma_words_of_join(front);
        assert(ws.last() == ws[ws.len() - 1]);
        lemma_words_after_space(join(front, seq![' ']), ws.last());
        assert(front.push(ws.last()) =~= ws);
    }
}

/// Every character of words joined with single spaces is a space or a
/// character of a word.
pub proof fn lemma_join_within(ws: Seq<Seq<char>>, p: spec_fn(char) -> bool)
    requires
        p(' '),
        forall|i: int, j: int|
            #![trigger ws[i][j]]
            0 <= i < ws.len() && 0 <= j < ws[i].len() ==> p(ws[i][j]),
    ensures
        forall|k: int|
            0 <= k < join(ws, seq![' ']).len() ==> p(#[trigger] join(ws, seq![' '])[k]),
    decreases ws.len(),
{
    if ws.len() == 1 {
        assert forall|k: int| 0 <= k < ws[0].len() implies p(#[trigger] ws[0][k]) by {
            assert(p(ws[0][k]));
        }
    } else if ws.len() >= 2 {
        let front = ws.drop_last();
        assert forall|i: int, j: int| 0 <= i < front.len() && 0 <= j < front[i].len() implies p(
            #[trigger] front[i][j],
        ) by {
            assert(front[i] == ws[i]);
        }
        lemma_join_within(front, p);
        let jf = join(front, seq![' ']);
        let l = ws.last();
        assert forall|k: int| 0 <= k < join(ws, seq![' ']).len() implies p(
            #[trigger] join(ws, seq![' '])[k],
        ) by {
            let j = join(ws, seq![' ']);
            assert(j == jf + seq![' '] + l);
            if k < jf.len() {
                assert(j[k] == jf[k]);
            } else if k == jf.len() {
                assert(j[k] == ' ');
            } else {
                assert(j[k] == l[k - jf.len() - 1]);
                assert(l == ws[ws.len() - 1]);
                assert(p(ws[ws.len() - 1][k - jf.len() - 1]));
            }
        }
    }
}

/// Words joined with single spaces: long enough, and starting and ending
/// with the first and last words' ends.
pub proof fn lemma_join_ends(ws: Seq<Seq<char>>)
    requires
        ws.len() > 0,
        forall|i: int| 0 <= i < ws.len() ==> (#[trigger] ws[i]).len() > 0,
    ensures
        join(ws, seq![' ']).len() >= 2 * ws.len() - 1,
        join(ws, seq![' '])[0] == ws[0][0],
        join(ws, seq![' ']).last() == ws.last().last(),
    decreases ws.len(),
{
    if ws.len() >= 2 {
        let front = ws.drop_last();
        assert forall|i: int| 0 <= i < front.len() implies (#[trigger] front[i]).len() > 0 by {
            assert(front[i] == ws[i]);
        }
        lemma_join_ends(front);
        assert(ws.last() == ws[ws.len() - 1]);
        assert(front[0] == ws[0]);
    }
}

proof fn lemma_words_nonempty_first(s: Seq<char>)
    requires
        s.len() > 0,
        !is_white(s[0]),
    ensures
        words(s).len() >= 1,
    decreases s.len(),
{
    if is_white(s.last()) {
        let t = s.drop_last();
        assert(t[0] == s[0]);
        lemma_words_nonempty_first(t);
    } else {
        lemma_words_nonempty(s);
    }
}

/// A tidy text with a single word is that word.
pub proof fn lemma_single_word(s: Seq<char>)
    requires
        s.len() > 0,
        tidy(s),
        words(s).len() == 1,
    ensures
        s == words(s)[0],
    decreases s.len(),
{
    let c = s.last();
    let t = s.drop_last();
    assert(!is_white(c));
    if s.len() == 1 {
        assert(t =~= Seq::<char>::empty());
        assert(words(t) =~= Seq::<Seq<char>>::empty());
        assert(words(s) == words(t).push(seq![c]));
        assert(seq![c] =~= s);
    } else if !is_white(s[s.len() - 2]) {
        assert(words(s) == words(t).update(words(t).len() - 1, words(t).last().push(c)));
        assert(t.last() == s[s.len() - 2]);
        assert(t[0] == s[0]);
        lemma_words_nonempty(t);
        lemma_single_word(t);
        assert(t.push(c) =~= s);
    } else {
        assert(words(s) == words(t).push(seq![c]));
        assert(t[0] == s[0]);
        lemma_words_nonempty_first(t);
    }
}

/// The prefix of length `n + 1` loses its last element to become the prefix of length `n`.
proof fn lemma_take_step<A>(s: Seq<A>, n: int)
    requires
        0 <= n < s.len(),
    ensures
        s.take(n + 1).drop_last() == s.take(n),
        s.take(n + 1).last() == s[n],
        s.take(n + 1).len() == n + 1,
{
    assert(s.take(n + 1).drop_last() =~= s.take(n));
}

// ---------------------------------------------------------------------------
// Executable helpers
// ---------------------------------------------------------------------------

/// Name for what `str::to_uppercase` returns on a string of these characters.
pub uninterp spec fn uppercase_of(s: Seq<char>) -> Seq<char>;

/// `str::to_uppercase`: the string whose characters are the Unicode upper-case
/// mappings of the characters of `s`. Its contract names the result
/// (`uppercase_of`), a function of the characters alone, and states the one
/// fact std's documentation gives plainly: on ASCII text it maps `a`-`z` to
/// `A`-`Z` as `to_ascii_uppercase` does. The mapping of other characters,
/// std's Unicode tables, is left unstated.
#[verifier::external_body]
pub(crate) fn to_uppercase_chars(s: &[char]) -> (res: Vec<char>)
    ensures
        res@ == uppercase_of(s@),
        is_ascii_text(s@) ==> res@ == upper_ascii(s@),
{
    let text: String = s.iter().collect();
    text.to_uppercase().chars().collect()
}

/// `std::str::from_utf8`: the characters encoded by `bytes` when they are
/// well-formed UTF-8 (std's definition, which is vstd's `valid_utf8`), else
/// `None`.
#[verifier::external_body]
pub(crate) fn utf8_chars(bytes: &[u8]) -> (res: Option<Vec<char>>)
    ensures
        res is Some <==> valid_utf8(bytes@),
        res matches Some(cs) ==> cs@ == decode_utf8(bytes@),
{
    match std::str::from_utf8(bytes) {
        Ok(s) => Some(s.chars().collect()),
        Err(_) => None,
    }
}

/// The characters of a string slice, in order.
pub fn chars_of(s: &str) -> (res: Vec<char>)
    ensures
        res@ == s@,
{
    let mut res: Vec<char> = Vec::new();
    for c in it: s.chars()
        invariant
            res@ == it.seq().take(it.index() as int),
            it.seq() == s@,
    {
        res.push(c);
    }
    res
}

/// `String::from_iter` over characters: the string made of `chars`.
#[verifier::external_body]
pub(crate) fn string_of(chars: &Vec<char>) -> (res: String)
    ensures
        res@ == chars@,
{
    chars.iter().collect()
}

/// Appends every character of `src` to `dst`.
pub fn push_all(dst: &mut Vec<char>, src: &[char])
    ensures
        final(dst)@ == old(dst)@ + src@,
{
    let n = src.len();
    let mut i: usize = 0;
    while i < n
        invariant
            n == src@.len(),
            i <= n,
            dst@ == old(dst)@ + src@.take(i as int),
        decreases n - i,
    {
        dst.push(src[i]);
        proof {
            lemma_take_step(src@, i as int);
        }
        i = i + 1;
    }
    assert(src@.take(n as int) =~= src@);
}

/// Appends the characters of `s` to `dst`.
pub fn push_str(dst: &mut Vec<char>, s: &str)
    ensures
        final(dst)@ == old(dst)@ + s@,
{
    let cs = chars_of(s);
    push_all(dst, cs.as_slice());
}

/// Appends `n` copies of `c` to `dst`.
pub fn push_repeat(dst: &mut Vec<char>, c: char, n: usize)
    ensures
        final(dst)@ == old(dst)@ + Seq::new(n as nat, |i: int| c),
{
    let mut i: usize = 0;
    while i < n
        invariant
            i <= n,
            dst@ == old(dst)@ + Seq::new(i as nat, |k: int| c),
        decreases n - i,
    {
        dst.push(c);
        i = i + 1;
        assert(dst@ =~= old(dst)@ + Seq::new(i as nat, |k: int| c));
    }
}

/// `char::is_whitespace`.
pub fn is_white_char(c: char) -> (b: bool)
    ensures
        b == is_white(c),
{
    c == ' ' || ('\t' <= c && c <= '\r') || c == '\u{85}' || c == '\u{a0}' || c == '\u{1680}'
        || ('\u{2000}' <= c && c <= '\u{200a}') || c == '\u{2028}' || c == '\u{2029}'
        || c == '\u{202f}' || c == '\u{205f}' || c == '\u{3000}'
}

/// `str::trim` on characters.
pub fn trim_chars(s: &[char]) -> (res: Vec<char>)
    ensures
        res@ == trim(s@),
{
    let n = s.len();
    let mut k: usize = 0;
    while k < n && is_white_char(s[k])
        invariant
            n == s@.len(),
            k <= n,
            forall|j: int| 0 <= j < k ==> is_white(#[trigger] s@[j]),
        decreases n - k,
    {
        k = k + 1;
    }
    proof {
        lemma_trim_start_skip(s@, k as int);
    }
    let mut m: usize = n;
    while m > k && is_white_char(s[m - 1])
        invariant
            n == s@.len(),
            k <= m <= n,
            forall|j: int| m <= j < n ==> is_white(#[trigger] s@[j]),
        decreases m,
    {
        m = m - 1;
    }
    let ghost t = s@.skip(k as int);
    proof {
        assert forall|j: int| m - k <= j < t.len() implies is_white(#[trigger] t[j]) by {
            assert(t[j] == s@[j + k]);
        }
        if m > k {
            assert(t[m - k - 1] == s@[m - 1]);
        }
        lemma_trim_end_take(t, m - k);
    }
    let mut res: Vec<char> = Vec::new();
    let mut i: usize = k;
    while i < m
        invariant
            k <= i <= m <= n,
            n == s@.len(),
            res@ == s@.subrange(k as int, i as int),
        decreases m - i,
    {
        res.push(s[i]);
        i = i + 1;
        assert(res@ =~= s@.subrange(k as int, i as int));
    }
    assert(t.take(m - k) =~= s@.subrange(k as int, m as int));
    res
}

/// `str::trim` on a string slice, as characters.
pub fn trim_str(s: &str) -> (res: Vec<char>)
    ensures
        res@ == trim(s@),
{
    let cs = chars_of(s);
    trim_chars(cs.as_slice())
}

/// The views of a vector of character vectors.
pub open spec fn views(v: Seq<Vec<char>>) -> Seq<Seq<char>> {
    v.map_values(|x: Vec<char>| x@)
}

/// `str::split` on a single character.
pub fn split_chars(s: &[char], sep: char) -> (res: Vec<Vec<char>>)
    ensures
        views(res@) == split_on(s@, sep),
{
    let n = s.len();
    let mut parts: Vec<Vec<char>> = Vec::new();
    let mut cur: Vec<char> = Vec::new();
    let mut i: usize = 0;
    assert(s@.take(0) =~= Seq::<char>::empty());
    assert(views(parts@) + seq![cur@] =~= split_on(s@.take(0), sep));
    while i < n
        invariant
            n == s@.len(),
            i <= n,
            views(parts@) + seq![cur@] == split_on(s@.take(i as int), sep),
        decreases n - i,
    {
        let c = s[i];
        proof {
            lemma_take_step(s@, i as int);
            lemma_split_on_nonempty(s@.take(i as int), sep);
        }
        let ghost old_parts = parts@;
        let ghost old_cur = cur@;
        if c == sep {
            let done = cur;
            parts.push(done);
            cur = Vec::new();
            assert(views(parts@) =~= views(old_parts) + seq![old_cur]);
            assert(views(parts@) + seq![cur@] =~= split_on(s@.take(i + 1), sep));
        } else {
            cur.push(c);
            assert(views(parts@) + seq![cur@] =~= split_on(s@.take(i + 1), sep));
        }
        i = i + 1;
    }
    let ghost before = parts@;
    parts.push(cur);
    assert(views(parts@) =~= views(before) + seq![parts@.last()@]);
    assert(s@.take(n as int) =~= s@);
    parts
}

/// `str::split_whitespace`.
pub fn words_of(s: &[char]) -> (res: Vec<Vec<char>>)
    ensures
        views(res@) == words(s@),
{
    let n = s.len();
    let mut ws: Vec<Vec<char>> = Vec::new();
    let mut cur: Vec<char> = Vec::new();
    let mut i: usize = 0;
    assert(s@.take(0) =~= Seq::<char>::empty());
    assert(views(ws@) =~= words(s@.take(0)));
    while i < n
        invariant
            n == s@.len(),
            i <= n,
            (cur@.len() > 0) <==> (i > 0 && !is_white(s@[i - 1])),
            words(s@.take(i as int)) == if cur@.len() > 0 {
                views(ws@) + seq![cur@]
            } else {
                views(ws@)
            },
        decreases n - i,
    {
        let c = s[i];
        proof {
            lemma_take_step(s@, i as int);
        }
        let ghost old_ws = ws@;
        let ghost old_cur = cur@;
        if is_white_char(c) {
            if cur.len() > 0 {
                let done = cur;
                ws.push(done);
                cur = Vec::new();
                assert(views(ws@) =~= views(old_ws) + seq![old_cur]);
            }
        } else {
            assert(words(s@.take(i as int)) == if old_cur.len() > 0 {
                views(old_ws) + seq![old_cur]
            } else {
                views(old_ws)
            });
            cur.push(c);
            if cur.len() > 1 {
                assert(s@.take(i + 1)[i - 1] == s@[i - 1]);
                assert(views(ws@) + seq![cur@] =~= words(s@.take(i + 1)));
            } else {
                if i > 0 {
                    assert(s@.take(i + 1)[i - 1] == s@[i - 1]);
                }
                assert(words(s@.take(i as int)) == views(old_ws));
                assert(cur@ =~= seq![c]);
                assert(views(ws@) + seq![cur@] =~= words(s@.take(i + 1)));
            }
        }
        i = i + 1;
    }
    assert(s@.take(n as int) =~= s@);
    if cur.len() > 0 {
        let ghost before = ws@;
        ws.push(cur);
        assert(views(ws@) =~= views(before) + seq![ws@.last()@]);
    }
    ws
}

/// `[String]::join`.
pub fn join_chars(parts: &Vec<Vec<char>>, sep: &[char]) -> (res: Vec<char>)
    ensures
        res@ == join(views(parts@), sep@),
{
    let n = parts.len();
    let mut res: Vec<char> = Vec::new();
    let mut i: usize = 0;
    while i < n
        invariant
            n == parts@.len(),
            i <= n,
            res@ == join(views(parts@).take(i as int), sep@),
        decreases n - i,
    {
        proof {
            lemma_take_step(views(parts@), i as int);
        }
        if i > 0 {
            push_all(&mut res, sep);
        }
        push_all(&mut res, parts[i].as_slice());
        i = i + 1;
    }
    assert(views(parts@).take(n as int) =~= views(parts@));
    res
}

/// Whether two character sequences are equal.
pub fn chars_eq(a: &[char], b: &[char]) -> (res: bool)
    ensures
        res == (a@ == b@),
{
    if a.len() != b.len() {
        return false;
    }
    let n = a.len();
    let mut i: usize = 0;
    while i < n
        invariant
            n == a@.len(),
            n == b@.len(),
            i <= n,
            forall|j: int| 0 <= j < i ==> a@[j] == b@[j],
        decreases n - i,
    {
        if a[i] != b[i] {
            return false;
        }
        i = i + 1;
    }
    assert(a@ =~= b@);
    true
}

/// Whether a character sequence equals the characters of a string slice.
pub fn chars_eq_str(a: &[char], b: &str) -> (res: bool)
    ensures
        res == (a@ == b@),
{
    let bs = chars_of(b);
    chars_eq(a, bs.as_slice())
}

/// `str::eq_ignore_ascii_case`.
pub fn eq_ignore_ascii_case_chars(a: &[char], b: &[char]) -> (res: bool)
    ensures
        res == eq_ignore_ascii_case(a@, b@),
{
    if a.len() != b.len() {
        return false;
    }
    let n = a.len();
    let mut i: usize = 0;
    while i < n
        invariant
            n == a@.len(),
            n == b@.len(),
            i <= n,
            forall|j: int| 0 <= j < i ==> ascii_ci_eq(#[trigger] a@[j], b@[j]),
        decreases n - i,
    {
        let x = a[i];
        let y = b[i];
        let same = x == y || ('A' <= x && x <= 'Z' && (x as u32) + 32 == (y as u32)) || (
        'A' <= y && y <= 'Z' && (y as u32) + 32 == (x as u32));
        if !same {
            return false;
        }
        i = i + 1;
    }
    true
}

/// The decimal digit character for `d < 10`.
pub fn digit_of(d: u64) -> (c: char)
    requires
        d < 10,
    ensures
        c == digit_char(d as nat),
{
    if d == 0 {
        '0'
    } else if d == 1 {
        '1'
    } else if d == 2 {
        '2'
    } else if d == 3 {
        '3'
    } else if d == 4 {
        '4'
    } else if d == 5 {
        '5'
    } else if d == 6 {
        '6'
    } else if d == 7 {
        '7'
    } else if d == 8 {
        '8'
    } else {
        '9'
    }
}

/// Decimal rendering of an unsigned integer (`u64`'s `Display`).
pub fn dec_u64(n: u64) -> (res: Vec<char>)
    ensures
        res@ == dec(n as nat),
    decreases n,
{
    if n < 10 {
        let mut v: Vec<char> = Vec::new();
        v.push(digit_of(n));
        v
    } else {
        let mut v = dec_u64(n / 10);
        v.push(digit_of(n % 10));
        v
    }
}

/// The lower-case hexadecimal digit for `d < 16`.
pub fn hex_digit_of(d: u64) -> (c: char)
    requires
        d < 16,
    ensures
        c == hex_char(d as nat),
{
    if d < 10 {
        digit_of(d)
    } else if d == 10 {
        'a'
    } else if d == 11 {
        'b'
    } else if d == 12 {
        'c'
    } else if d == 13 {
        'd'
    } else if d == 14 {
        'e'
    } else {
        'f'
    }
}

/// Lower-case hexadecimal rendering of an unsigned integer (`{:x}`).
pub fn hex_u64(n: u64) -> (res: Vec<char>)
    ensures
        res@ == hex_numeral(n as nat),
    decreases n,
{
    if n < 16 {
        let mut v: Vec<char> = Vec::new();
        v.push(hex_digit_of(n));
        v
    } else {
        let mut v = hex_u64(n / 16);
        v.push(hex_digit_of(n % 16));
        v
    }
}

/// Decimal rendering of a signed integer (`i64`'s `Display`).
pub fn dec_i64(n: i64) -> (res: Vec<char>)
    ensures
        res@ == dec_int(n as int),
{
    if n < 0 {
        let mag: u64 = if n == i64::MIN {
            9223372036854775808u64
        } else {
            (-n) as u64
        };
        let mut v: Vec<char> = Vec::new();
        v.push('-');
        let d = dec_u64(mag);
        push_all(&mut v, d.as_slice());
        v
    } else {
        dec_u64(n as u64)
    }
}

/// `s` left-aligned in a field of `width` characters.
pub fn pad_right_chars(s: &[char], width: usize) -> (res: Vec<char>)
    ensures
        res@ == pad_right(s@, width as nat),
{
    let mut res: Vec<char> = Vec::new();
    push_all(&mut res, s);
    if s.len() < width {
        push_repeat(&mut res, ' ', width - s.len());
    }
    assert(res@ =~= pad_right(s@, width as nat));
    res
}

/// `s` right-aligned in a field of `width` characters.
pub fn pad_left_chars(s: &[char], width: usize) -> (res: Vec<char>)
    ensures
        res@ == pad_left(s@, width as nat),
{
    let mut res: Vec<char> = Vec::new();
    if s.len() < width {
        push_repeat(&mut res, ' ', width - s.len());
    }
    push_all(&mut res, s);
    assert(res@ =~= pad_left(s@, width as nat));
    res
}

/// Whether `pat` occurs at position `i` of `s`.
pub fn occurs_at_exec(s: &[char], pat: &[char], i: usize) -> (res: bool)
    ensures
        res == occurs_at(s@, pat@, i as int),
{
    if i > s.len() || pat.len() > s.len() - i {
        return false;
    }
    let m = pat.len();
    let n = s.len();
    let mut j: usize = 0;
    while j < m
        invariant
            m == pat@.len(),
            n == s@.len(),
            i + m <= s@.len(),
            j <= m,
            forall|k: int| 0 <= k < j ==> s@[i + k] == pat@[k],
        decreases m - j,
    {
        if s[i + j] != pat[j] {
            assert(s@.subrange(i as int, i + m)[j as int] == s@[i + j]);
            return false;
        }
        j = j + 1;
    }
    assert(s@.subrange(i as int, i + m) =~= pat@);
    true
}

/// `str::contains` with a pattern.
pub fn contains_chars(s: &[char], pat: &[char]) -> (res: bool)
    ensures
        res == contains_seq(s@, pat@),
{
    let n = s.len();
    let mut i: usize = 0;
    while i <= n
        invariant
            n == s@.len(),
            forall|k: int| 0 <= k < i ==> !occurs_at(s@, pat@, k),
        decreases n + 1 - i,
    {
        if occurs_at_exec(s, pat, i) {
            return true;
        }
        if i == n {
            assert forall|k: int| !occurs_at(s@, pat@, k) by {
                if 0 <= k < i {
                }
            }
            return false;
        }
        i = i + 1;
    }
    false
}

proof fn lemma_replace_step(s: Seq<char>, pat: Seq<char>, rep: Seq<char>, i: int)
    requires
        pat.len() > 0,
        0 <= i,
        i + pat.len() <= s.len(),
    ensures
        occurs_at(s, pat, i) ==> replace_all(s.skip(i), pat, rep) == rep + replace_all(
            s.skip(i + pat.len()),
            pat,
            rep,
        ),
        !occurs_at(s, pat, i) ==> replace_all(s.skip(i), pat, rep) == seq![s[i]] + replace_all(
            s.skip(i + 1),
            pat,
            rep,
        ),
{
    let t = s.skip(i);
    assert(t.take(pat.len() as int) =~= s.subrange(i, i + pat.len()));
    assert(t.skip(pat.len() as int) =~= s.skip(i + pat.len()));
    assert(t.drop_first() =~= s.skip(i + 1));
}

/// `str::replace` with a non-empty pattern.
pub fn replace_chars(s: &[char], pat: &[char], rep: &[char]) -> (res: Vec<char>)
    requires
        pat@.len() > 0,
    ensures
        res@ == replace_all(s@, pat@, rep@),
{
    let n = s.len();
    let m = pat.len();
    let mut out: Vec<char> = Vec::new();
    let mut i: usize = 0;
    assert(s@.skip(0) =~= s@);
    while i < n && m <= n - i
        invariant
            n == s@.len(),
            m == pat@.len(),
            m > 0,
            i <= n,
            out@ + replace_all(s@.skip(i as int), pat@, rep@) == replace_all(s@, pat@, rep@),
        decreases n - i,
    {
        proof {
            lemma_replace_step(s@, pat@, rep@, i as int);
        }
        if occurs_at_exec(s, pat, i) {
            push_all(&mut out, rep);
            i = i + m;
        } else {
            out.push(s[i]);
            i = i + 1;
        }
        assert(out@ + replace_all(s@.skip(i as int), pat@, rep@) =~= replace_all(s@, pat@, rep@));
    }
    assert(replace_all(s@.skip(i as int), pat@, rep@) == s@.skip(i as int));
    let mut j: usize = i;
    while j < n
        invariant
            n == s@.len(),
            i <= j <= n,
            out@ + s@.subrange(j as int, n as int) == replace_all(s@, pat@, rep@),
        decreases n - j,
    {
        out.push(s[j]);
        j = j + 1;
        assert(out@ + s@.subrange(j as int, n as int) =~= replace_all(s@, pat@, rep@));
    }
    assert(s@.subrange(n as int, n as int) =~= Seq::<char>::empty());
    assert(out@ =~= replace_all(s@, pat@, rep@));
    out
}

} // verus!
