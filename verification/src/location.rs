//! Location records: normalising user input and looked-up names, deciding
//! how a location string is looked up, choosing among geocoding results, and
//! deciding when a cached record can be reused.
use vstd::prelude::*;

use crate::geo;
use crate::text;

verus! {

/// How long a cached location record stays valid, in seconds (four hours).
pub const LOCATION_CACHE_SECS: u64 = 14400;

/// Name for what `stringcase::pascal_case` returns for a word.
pub uninterp spec fn pascal_case_of(word: Seq<char>) -> Seq<char>;

/// Whether `c` is an ASCII letter.
pub open spec fn is_ascii_letter(c: char) -> bool {
    ('a' <= c && c <= 'z') || ('A' <= c && c <= 'Z')
}

/// Whether `w` is an ASCII letter followed by ASCII lower-case letters.
pub open spec fn letter_word(w: Seq<char>) -> bool {
    &&& w.len() > 0
    &&& is_ascii_letter(w[0])
    &&& forall|i: int| 1 <= i < w.len() ==> 'a' <= #[trigger] w[i] && w[i] <= 'z'
}

/// `w` with its first letter upper-cased.
pub open spec fn capitalized(w: Seq<char>) -> Seq<char> {
    seq![text::ascii_upper(w[0])] + w.drop_first()
}

/// `stringcase::pascal_case`: the word in PascalCase. Its contract names the
/// result (`pascal_case_of`), a function of the word alone, and states what
/// the crate's source shows for the plainest words: an ASCII letter followed
/// by ASCII lower-case letters comes out with its first letter upper-cased
/// and the rest unchanged. The casing rules for other words are left
/// unstated.
#[verifier::external_body]
fn pascal_case(word: &[char]) -> (res: Vec<char>)
    ensures
        res@ == pascal_case_of(word@),
        letter_word(word@) ==> res@ == capitalized(word@),
{
    let w: String = word.iter().collect();
    stringcase::pascal_case(&w).chars().collect()
}

/// `", "`.
pub open spec fn comma_space() -> Seq<char> {
    seq![',', ' ']
}

/// A city name in title case: each whitespace-separated word through
/// `pascal_case`, the words joined by single spaces.
pub open spec fn normalized_city(city: Seq<char>) -> Seq<char> {
    text::join(text::words(city).map_values(|w: Seq<char>| pascal_case_of(w)), seq![' '])
}

/// `"City, COUNTRY"` or `"City, State, COUNTRY"`, as shown for a location.
pub open spec fn location_label(city: Seq<char>, state: Seq<char>, country: Seq<char>) -> Seq<char> {
    if state.len() == 0 {
        city + comma_space() + country
    } else {
        city + comma_space() + state + comma_space() + country
    }
}

/// The normal form of a location typed by the user: two or three
/// comma-separated parts are normalised part by part (the state expanded from
/// a US code where it is one, else title-cased); anything else is kept as is.
pub open spec fn normalized_location(location: Seq<char>) -> Seq<char> {
    if location.len() == 0 {
        location
    } else {
        let parts = text::split_on(location, ',');
        if parts.len() == 2 {
            normalized_city(text::trim(parts[0])) + comma_space() + text::uppercase_of(
                text::trim(parts[1]),
            )
        } else if parts.len() == 3 {
            let raw_state = text::trim(parts[1]);
            let state = match geo::expanded_state(raw_state) {
                Some(full) => full,
                None => normalized_city(raw_state),
            };
            normalized_city(text::trim(parts[0])) + comma_space() + state + comma_space()
                + text::uppercase_of(text::trim(parts[2]))
        } else {
            location
        }
    }
}

/// A resolved location. Coordinates are not held here: they are floating
/// point values that the callers carry beside the record.
pub struct LocationData {
    pub city: String,
    pub country_code: String,
    pub location: String,
    pub created_at: u64,
    /// First-level administrative division (US state, province); empty when
    /// the lookup gave none.
    pub state: String,
}

/// How a location string is to be looked up.
pub enum LookupRequest {
    /// No location given: locate by IP address.
    ByIp,
    /// `"City, CountryCode"`.
    ByCity { name: String, country_code: String },
    /// `"City, State, CountryCode"`.
    ByCityInState { name: String, state: String, country_code: String },
}

/// Why a location could not be resolved.
pub enum LocationError {
    /// The location string has neither two nor three comma-separated parts.
    InvalidFormat,
    /// The geocoding service returned no results.
    NoResults { name: String, country: String },
    /// No result lies in the requested state or region; `alternatives`
    /// lists the regions that were returned.
    NoStateMatch { name: String, state: String, country: String, alternatives: String },
}

/// The message of a location error.
pub open spec fn error_text(e: LocationError) -> Seq<char> {
    match e {
        LocationError::InvalidFormat => "Invalid location format. Use 'City, CountryCode' or 'City, State, CountryCode'."@,
        LocationError::NoResults { name, country } => "No location results found for "@ + name@
            + comma_space() + country@,
        LocationError::NoStateMatch { name, state, country, alternatives } => "No "@ + name@
            + " found in state/region '"@ + state@ + "' (country "@ + country@
            + "). Open-Meteo returned: "@ + alternatives@,
    }
}

impl LocationError {
    /// The message shown for the error.
    pub fn message(&self) -> (res: String)
        ensures
            res@ == error_text(*self),
    {
        match self {
            LocationError::InvalidFormat => {
                "Invalid location format. Use 'City, CountryCode' or 'City, State, CountryCode'.".to_owned()
            },
            LocationError::NoResults { name, country } => {
                let mut s = String::new();
                s.append("No location results found for ");
                s.append(name.as_str());
                s.append(", ");
                s.append(country.as_str());
                proof {
                    reveal_strlit(", ");
                }
                s
            },
            LocationError::NoStateMatch { name, state, country, alternatives } => {
                let mut s = String::new();
                s.append("No ");
                s.append(name.as_str());
                s.append(" found in state/region '");
                s.append(state.as_str());
                s.append("' (country ");
                s.append(country.as_str());
                s.append("). Open-Meteo returned: ");
                s.append(alternatives.as_str());
                s
            },
        }
    }
}

/// The regions among the results, in order, skipping results without one.
pub open spec fn present_regions(admin1s: Seq<Option<String>>) -> Seq<Seq<char>>
    decreases admin1s.len(),
{
    if admin1s.len() == 0 {
        Seq::<Seq<char>>::empty()
    } else {
        let prev = present_regions(admin1s.drop_last());
        match admin1s.last() {
            Some(a) => prev.push(a@),
            None => prev,
        }
    }
}

/// The list of returned regions as reported when none matched.
pub open spec fn alternatives_text(admin1s: Seq<Option<String>>) -> Seq<char> {
    if present_regions(admin1s).len() == 0 {
        "no admin1 data"@
    } else {
        text::join(present_regions(admin1s), comma_space())
    }
}

/// The state the results are matched against: the full name for a US code,
/// else the text as given.
pub open spec fn target_region(state: Seq<char>) -> Seq<char> {
    match geo::expanded_state(state) {
        Some(full) => full,
        None => state,
    }
}

/// Whether a result's region matches the requested state, ignoring ASCII case.
pub open spec fn region_matches(admin1: Option<String>, state: Seq<char>) -> bool {
    match admin1 {
        Some(a) => text::eq_ignore_ascii_case(a@, target_region(state))
            || text::eq_ignore_ascii_case(a@, state),
        None => false,
    }
}

/// Whether every word of `t` is an ASCII letter followed by ASCII
/// lower-case letters.
pub open spec fn plain_words(t: Seq<char>) -> bool {
    forall|i: int| 0 <= i < text::words(t).len() ==> letter_word(#[trigger] text::words(t)[i])
}

/// `t`'s words with their first letters upper-cased, joined by single
/// spaces: what `normalized_city` gives when the words are plain.
pub open spec fn title_city(t: Seq<char>) -> Seq<char> {
    text::join(text::words(t).map_values(|w: Seq<char>| capitalized(w)), seq![' '])
}

/// Whether `location` is a location string whose normal form is known in
/// full: two or three comma-separated parts, the city part made of plain
/// words, the state and country parts ASCII, and the state part, when it is
/// no US state code, made of plain words.
pub open spec fn plain_location(location: Seq<char>) -> bool {
    let parts = text::split_on(location, ',');
    &&& location.len() > 0
    &&& parts.len() == 2 || parts.len() == 3
    &&& plain_words(text::trim(parts[0]))
    &&& text::is_ascii_text(text::trim(parts[parts.len() - 1]))
    &&& parts.len() == 3 ==> {
        &&& text::is_ascii_text(text::trim(parts[1]))
        &&& geo::us_state_name(text::upper_ascii(text::trim(parts[1]))) is None ==> plain_words(
            text::trim(parts[1]),
        )
    }
}

/// Whether the state part of a three-part location, if there is one, is
/// other than the District of Columbia's code.
pub open spec fn not_dc(location: Seq<char>) -> bool {
    let parts = text::split_on(location, ',');
    parts.len() == 3 ==> geo::us_state_name(text::upper_ascii(text::trim(parts[1])))
        != Some("District of Columbia"@)
}

/// The state part of a plain location's normal form: the full name for a US
/// state code, else the part title-cased.
pub open spec fn plain_state(t: Seq<char>) -> Seq<char> {
    match geo::us_state_name(text::upper_ascii(t)) {
        Some(full) => full,
        None => title_city(t),
    }
}

/// The normal form of a plain location string: title-cased city, the state
/// expanded or title-cased, ASCII upper-cased country.
pub open spec fn plain_normal(location: Seq<char>) -> Seq<char> {
    let parts = text::split_on(location, ',');
    if parts.len() == 2 {
        title_city(text::trim(parts[0])) + comma_space() + text::upper_ascii(text::trim(parts[1]))
    } else {
        title_city(text::trim(parts[0])) + comma_space() + plain_state(text::trim(parts[1]))
            + comma_space() + text::upper_ascii(text::trim(parts[2]))
    }
}

proof fn lemma_capitalized(w: Seq<char>)
    requires
        letter_word(w),
    ensures
        letter_word(capitalized(w)),
        capitalized(capitalized(w)) == capitalized(w),
        text::no_white(capitalized(w)),
        capitalized(w).len() == w.len(),
        forall|i: int| 0 <= i < w.len() ==> is_ascii_letter(#[trigger] capitalized(w)[i]),
        text::upper_ascii(capitalized(w)) == text::upper_ascii(w),
{
    let c = capitalized(w);
    assert(c[0] == text::ascii_upper(w[0]));
    assert forall|i: int| 1 <= i < c.len() implies #[trigger] c[i] == w[i] by {}
    assert(c.drop_first() =~= w.drop_first());
    assert(capitalized(c) =~= c);
    assert forall|i: int| 0 <= i < c.len() implies !text::is_white(#[trigger] c[i]) by {
        assert(is_ascii_letter(c[i]));
    }
    assert forall|i: int| 0 <= i < w.len() implies #[trigger] text::upper_ascii(c)[i]
        == text::upper_ascii(w)[i] by {}
    assert(text::upper_ascii(c) =~= text::upper_ascii(w));
}

/// What a title-cased city of plain words is like: plain words again, its
/// own title case, tidy, and made of ASCII letters and spaces.
proof fn lemma_title_city(t: Seq<char>)
    requires
        plain_words(t),
    ensures
        plain_words(title_city(t)),
        title_city(title_city(t)) == title_city(t),
        text::tidy(title_city(t)),
        forall|k: int|
            0 <= k < title_city(t).len() ==> is_ascii_letter(#[trigger] title_city(t)[k])
                || title_city(t)[k] == ' ',
        text::words(title_city(t)) == text::words(t).map_values(|w: Seq<char>| capitalized(w)),
{
    let ws = text::words(t);
    let cs = ws.map_values(|w: Seq<char>| capitalized(w));
    let r = title_city(t);
    assert forall|i: int| 0 <= i < cs.len() implies (#[trigger] cs[i]).len() > 0 && text::no_white(
        cs[i],
    ) && letter_word(cs[i]) && capitalized(cs[i]) == cs[i] by {
        assert(letter_word(ws[i]));
        lemma_capitalized(ws[i]);
    }
    text::lemma_words_of_join(cs);
    assert(text::words(r) == cs);
    assert(cs.map_values(|w: Seq<char>| capitalized(w)) =~= cs);
    let p = |c: char| is_ascii_letter(c) || c == ' ';
    assert forall|i: int, j: int| 0 <= i < cs.len() && 0 <= j < cs[i].len() implies p(
        #[trigger] cs[i][j],
    ) by {
        assert(letter_word(ws[i]));
        lemma_capitalized(ws[i]);
        assert(is_ascii_letter(capitalized(ws[i])[j]));
    }
    text::lemma_join_within(cs, p);
    if cs.len() > 0 {
        text::lemma_join_ends(cs);
        assert(is_ascii_letter(cs[0][0]));
        assert(cs.last() == cs[cs.len() - 1]);
        assert(is_ascii_letter(cs.last()[cs.last().len() - 1]));
    } else {
        assert(r =~= Seq::<char>::empty());
    }
}

/// The last part of a split, trimmed and ASCII upper-cased: tidy, ASCII and
/// comma-free, and its own upper case.
proof fn lemma_country_part(piece: Seq<char>)
    requires
        text::is_ascii_text(text::trim(piece)),
        !piece.contains(','),
    ensures
        text::tidy(text::upper_ascii(text::trim(piece))),
        text::is_ascii_text(text::upper_ascii(text::trim(piece))),
        !text::upper_ascii(text::trim(piece)).contains(','),
        text::upper_ascii(text::upper_ascii(text::trim(piece))) == text::upper_ascii(
            text::trim(piece),
        ),
{
    let t = text::trim(piece);
    let u = text::upper_ascii(t);
    text::lemma_trim_tidy(piece);
    text::lemma_case_keeps_ascii(t);
    text::lemma_upper_after_case(t);
    assert forall|i: int| 0 <= i < piece.len() implies (|c: char| c != ',')(#[trigger] piece[i]) by {}
    text::lemma_trim_within(piece, |c: char| c != ',');
    assert forall|i: int| 0 <= i < u.len() implies #[trigger] u[i] != ',' by {
        assert(u[i] == text::ascii_upper(t[i]));
        assert(t[i] != ',');
    }
    if u.len() > 0 {
        assert(u[0] == text::ascii_upper(t[0]));
        assert(u.last() == text::ascii_upper(t.last()));
    }
}

/// A part that is not a US state code is not one after title casing
/// either.
proof fn lemma_title_not_code(t: Seq<char>)
    requires
        plain_words(t),
        text::tidy(t),
        geo::us_state_name(text::upper_ascii(t)) is None,
    ensures
        geo::us_state_name(text::upper_ascii(title_city(t))) is None,
{
    let ws = text::words(t);
    let cs = ws.map_values(|w: Seq<char>| capitalized(w));
    let r = title_city(t);
    if r.len() == 2 {
        assert forall|i: int| 0 <= i < cs.len() implies (#[trigger] cs[i]).len() > 0 by {
            assert(letter_word(ws[i]));
            lemma_capitalized(ws[i]);
        }
        if cs.len() == 0 {
            assert(r =~= Seq::<char>::empty());
        } else {
            text::lemma_join_ends(cs);
            assert(cs.len() == 1);
            assert(r == cs[0]);
            assert(t.len() > 0);
            text::lemma_single_word(t);
            assert(letter_word(ws[0]));
            lemma_capitalized(ws[0]);
        }
    }
}

/// A title-cased part of plain words is ASCII and comma-free.
proof fn lemma_no_comma_title(t: Seq<char>)
    requires
        plain_words(t),
    ensures
        !title_city(t).contains(','),
        text::is_ascii_text(title_city(t)),
{
    lemma_title_city(t);
    let r = title_city(t);
    assert forall|k: int| 0 <= k < r.len() implies (#[trigger] r[k]) as u32 <= 0x7f && r[k] != ',' by {
        assert(is_ascii_letter(r[k]) || r[k] == ' ');
    }
}

/// Whether `w` is an ASCII upper-case letter followed by ASCII lower-case
/// letters.
pub open spec fn capital_word(w: Seq<char>) -> bool {
    letter_word(w) && 'A' <= w[0] && w[0] <= 'Z'
}

/// What a name of capitalised words joined by single spaces is like: plain
/// words, its own title case, tidy, ASCII, comma-free, and no state code.
proof fn lemma_title_name(f: Seq<char>, ws: Seq<Seq<char>>)
    requires
        ws.len() > 0,
        forall|i: int| 0 <= i < ws.len() ==> capital_word(#[trigger] ws[i]),
        f == text::join(ws, seq![' ']),
        f.len() > 2,
    ensures
        plain_words(f),
        title_city(f) == f,
        text::tidy(f),
        text::is_ascii_text(f),
        !f.contains(','),
        geo::us_state_name(text::upper_ascii(f)) is None,
{
    assert forall|i: int| 0 <= i < ws.len() implies (#[trigger] ws[i]).len() > 0 && text::no_white(
        ws[i],
    ) by {
        assert(capital_word(ws[i]));
        assert forall|j: int| 0 <= j < ws[i].len() implies !text::is_white(#[trigger] ws[i][j]) by {
            if j > 0 {
                assert('a' <= ws[i][j] && ws[i][j] <= 'z');
            }
        }
    }
    text::lemma_words_of_join(ws);
    let cs = ws.map_values(|w: Seq<char>| capitalized(w));
    assert forall|i: int| 0 <= i < ws.len() implies #[trigger] cs[i] == ws[i] by {
        assert(capital_word(ws[i]));
        assert(capitalized(ws[i]) =~= ws[i]);
    }
    assert(cs =~= ws);
    let p = |c: char| is_ascii_letter(c) || c == ' ';
    assert forall|i: int, j: int| 0 <= i < ws.len() && 0 <= j < ws[i].len() implies p(
        #[trigger] ws[i][j],
    ) by {
        assert(capital_word(ws[i]));
        if j > 0 {
            assert('a' <= ws[i][j] && ws[i][j] <= 'z');
        }
    }
    text::lemma_join_within(ws, p);
    text::lemma_join_ends(ws);
    assert(capital_word(ws[0]));
    assert(ws.last() == ws[ws.len() - 1]);
    assert(capital_word(ws[ws.len() - 1]));
    let l = ws[ws.len() - 1];
    if l.len() > 1 {
        assert('a' <= l[l.len() - 1] && l[l.len() - 1] <= 'z');
    }
    assert forall|k: int| 0 <= k < f.len() implies (#[trigger] f[k]) as u32 <= 0x7f && f[k] != ',' by {
        assert(p(f[k]));
    }
}

/// What holds of a name of capitalised words joined by single spaces.
pub open spec fn title_name_facts(f: Seq<char>) -> bool {
    &&& plain_words(f)
    &&& title_city(f) == f
    &&& text::tidy(f)
    &&& text::is_ascii_text(f)
    &&& !f.contains(',')
    &&& geo::us_state_name(text::upper_ascii(f)) is None
}

#[verifier::spinoff_prover]
proof fn lemma_state_names_a(b: char, f: Seq<char>)
    requires
        geo::state_name_of('A', b) == Some(f),
        f != "District of Columbia"@,
    ensures
        title_name_facts(f),
{
    reveal_with_fuel(text::join, 4);
    if b == 'L' {
        reveal_strlit("Alabama");
        let ws: Seq<Seq<char>> = seq![seq!['A', 'l', 'a', 'b', 'a', 'm', 'a']];
        assert(f =~= text::join(ws, seq![' ']));
        lemma_title_name(f, ws);
    } else if b == 'K' {
        reveal_strlit("Alaska");
        let ws: Seq<Seq<char>> = seq![seq!['A', 'l', 'a', 's', 'k', 'a']];
        assert(f =~= text::join(ws, seq![' ']));
        lemma_title_name(f, ws);
    } else if b == 'Z' {
        reveal_strlit("Arizona");
        let ws: Seq<Seq<char>> = seq![seq!['A', 'r', 'i', 'z', 'o', 'n', 'a']];
        assert(f =~= text::join(ws, seq![' ']));
        lemma_title_name(f, ws);
    } else if b == 'R' {
        reveal_strlit("Arkansas");
        let ws: Seq<Seq<char>> = seq![seq!['A', 'r', 'k', 'a', 'n', 's', 'a', 's']];
        assert(f =~= text::join(ws, seq![' ']));
        lemma_title_name(f, ws);
    }
}

#[verifier::spinoff_prover]
proof fn lemma_state_names_c(b: char, f: Seq<char>)
    requires
        geo::state_name_of('C', b) == Some(f),
        f != "District of Columbia"@,
    ensures
        title_name_facts(f),
{
    reveal_with_fuel(text::join, 4);
    if b == 'A' {
        reveal_strlit("California");
        let ws: Seq<Seq<char>> = seq![seq!['C', 'a', 'l', 'i', 'f', 'o', 'r', 'n', 'i', 'a']];
        assert(f =~= text::join(ws, seq![' ']));
        lemma_title_name(f, ws);
    } else if b == 'O' {
        reveal_strlit("Colorado");
        let ws: Seq<Seq<char>> = seq![seq!['C', 'o', 'l', 'o', 'r', 'a', 'd', 'o']];
        assert(f =~= text::join(ws, seq![' ']));
        lemma_title_name(f, ws);
    } else if b == 'T' {
        reveal_strlit("Connecticut");
        let ws: Seq<Seq<char>> = seq![seq!['C', 'o', 'n', 'n', 'e', 'c', 't', 'i', 'c', 'u', 't']];
        assert(f =~= text::join(ws, seq![' ']));
        lemma_title_name(f, ws);
    }
}

#[verifier::spinoff_prover]
proof fn lemma_state_names_d(b: char, f: Seq<char>)
    requires
        geo::state_name_of('D', b) == Some(f),
        f != "District of Columbia"@,
    ensures
        title_name_facts(f),
{
    reveal_with_fuel(text::join, 4);
    if b == 'E' {
        reveal_strlit("Delaware");
        let ws: Seq<Seq<char>> = seq![seq!['D', 'e', 'l', 'a', 'w', 'a', 'r', 'e']];
        assert(f =~= text::join(ws, seq![' ']));
        lemma_title_name(f, ws);
    }
}

#[verifier::spinoff_prover]
proof fn lemma_state_names_f(b: char, f: Seq<char>)
    requires
        geo::state_name_of('F', b) == Some(f),
        f != "District of Columbia"@,
    ensures
        title_name_facts(f),
{
    reveal_with_fuel(text::join, 4);
    if b == 'L' {
        reveal_strlit("Florida");
        let ws: Seq<Seq<char>> = seq![seq!['F', 'l', 'o', 'r', 'i', 'd', 'a']];
        assert(f =~= text::join(ws, seq![' ']));
        lemma_title_name(f, ws);
    }
}

#[verifier::spinoff_prover]
proof fn lemma_state_names_g(b: char, f: Seq<char>)
    requires
        geo::state_name_of('G', b) == Some(f),
        f != "District of Columbia"@,
    ensures
        title_name_facts(f),
{
    reveal_with_fuel(text::join, 4);
    if b == 'A' {
        reveal_strlit("Georgia");
        let ws: Seq<Seq<char>> = seq![seq!['G', 'e', 'o', 'r', 'g', 'i', 'a']];
        assert(f =~= text::join(ws, seq![' ']));
        lemma_title_name(f, ws);
    }
}

#[verifier::spinoff_prover]
proof fn lemma_state_names_h(b: char, f: Seq<char>)
    requires
        geo::state_name_of('H', b) == Some(f),
        f != "District of Columbia"@,
    ensures
        title_name_facts(f),
{
    reveal_with_fuel(text::join, 4);
    if b == 'I' {
        reveal_strlit("Hawaii");
        let ws: Seq<Seq<char>> = seq![seq!['H', 'a', 'w', 'a', 'i', 'i']];
        assert(f =~= text::join(ws, seq![' ']));
        lemma_title_name(f, ws);
    }
}

#[verifier::spinoff_prover]
proof fn lemma_state_names_i(b: char, f: Seq<char>)
    requires
        geo::state_name_of('I', b) == Some(f),
        f != "District of Columbia"@,
    ensures
        title_name_facts(f),
{
    reveal_with_fuel(text::join, 4);
    if b == 'D' {
        reveal_strlit("Idaho");
        let ws: Seq<Seq<char>> = seq![seq!['I', 'd', 'a', 'h', 'o']];
        assert(f =~= text::join(ws, seq![' ']));
        lemma_title_name(f, ws);
    } else if b == 'L' {
        reveal_strlit("Illinois");
        let ws: Seq<Seq<char>> = seq![seq!['I', 'l', 'l', 'i', 'n', 'o', 'i', 's']];
        assert(f =~= text::join(ws, seq![' ']));
        lemma_title_name(f, ws);
    } else if b == 'N' {
        reveal_strlit("Indiana");
        let ws: Seq<Seq<char>> = seq![seq!['I', 'n', 'd', 'i', 'a', 'n', 'a']];
        assert(f =~= text::join(ws, seq![' ']));
        lemma_title_name(f, ws);
    } else if b == 'A' {
        reveal_strlit("Iowa");
        let ws: Seq<Seq<char>> = seq![seq!['I', 'o', 'w', 'a']];
        assert(f =~= text::join(ws, seq![' ']));
        lemma_title_name(f, ws);
    }
}

#[verifier::spinoff_prover]
proof fn lemma_state_names_k(b: char, f: Seq<char>)
    requires
        geo::state_name_of('K', b) == Some(f),
        f != "District of Columbia"@,
    ensures
        title_name_facts(f),
{
    reveal_with_fuel(text::join, 4);
    if b == 'S' {
        reveal_strlit("Kansas");
        let ws: Seq<Seq<char>> = seq![seq!['K', 'a', 'n', 's', 'a', 's']];
        assert(f =~= text::join(ws, seq![' ']));
        lemma_title_name(f, ws);
    } else if b == 'Y' {
        reveal_strlit("Kentucky");
        let ws: Seq<Seq<char>> = seq![seq!['K', 'e', 'n', 't', 'u', 'c', 'k', 'y']];
        assert(f =~= text::join(ws, seq![' ']));
        lemma_title_name(f, ws);
    }
}

#[verifier::spinoff_prover]
proof fn lemma_state_names_l(b: char, f: Seq<char>)
    requires
        geo::state_name_of('L', b) == Some(f),
        f != "District of Columbia"@,
    ensures
        title_name_facts(f),
{
    reveal_with_fuel(text::join, 4);
    if b == 'A' {
        reveal_strlit("Louisiana");
        let ws: Seq<Seq<char>> = seq![seq!['L', 'o', 'u', 'i', 's', 'i', 'a', 'n', 'a']];
        assert(f =~= text::join(ws, seq![' ']));
        lemma_title_name(f, ws);
    }
}

#[verifier::spinoff_prover]
proof fn lemma_state_names_m(b: char, f: Seq<char>)
    requires
        geo::state_name_of('M', b) == Some(f),
        f != "District of Columbia"@,
    ensures
        title_name_facts(f),
{
    reveal_with_fuel(text::join, 4);
    if b == 'E' {
        reveal_strlit("Maine");
        let ws: Seq<Seq<char>> = seq![seq!['M', 'a', 'i', 'n', 'e']];
        assert(f =~= text::join(ws, seq![' ']));
        lemma_title_name(f, ws);
    } else if b == 'D' {
        reveal_strlit("Maryland");
        let ws: Seq<Seq<char>> = seq![seq!['M', 'a', 'r', 'y', 'l', 'a', 'n', 'd']];
        assert(f =~= text::join(ws, seq![' ']));
        lemma_title_name(f, ws);
    } else if b == 'A' {
        reveal_strlit("Massachusetts");
        let ws: Seq<Seq<char>> = seq![seq!['M', 'a', 's', 's', 'a', 'c', 'h', 'u', 's', 'e', 't', 't', 's']];
        assert(f =~= text::join(ws, seq![' ']));
        lemma_title_name(f, ws);
    } else if b == 'I' {
        reveal_strlit("Michigan");
        let ws: Seq<Seq<char>> = seq![seq!['M', 'i', 'c', 'h', 'i', 'g', 'a', 'n']];
        assert(f =~= text::join(ws, seq![' ']));
        lemma_title_name(f, ws);
    } else if b == 'N' {
        reveal_strlit("Minnesota");
        let ws: Seq<Seq<char>> = seq![seq!['M', 'i', 'n', 'n', 'e', 's', 'o', 't', 'a']];
        assert(f =~= text::join(ws, seq![' ']));
        lemma_title_name(f, ws);
    } else if b == 'S' {
        reveal_strlit("Mississippi");
        let ws: Seq<Seq<char>> = seq![seq!['M', 'i', 's', 's', 'i', 's', 's', 'i', 'p', 'p', 'i']];
        assert(f =~= text::join(ws, seq![' ']));
        lemma_title_name(f, ws);
    } else if b == 'O' {
        reveal_strlit("Missouri");
        let ws: Seq<Seq<char>> = seq![seq!['M', 'i', 's', 's', 'o', 'u', 'r', 'i']];
        assert(f =~= text::join(ws, seq![' ']));
        lemma_title_name(f, ws);
    } else if b == 'T' {
        reveal_strlit("Montana");
        let ws: Seq<Seq<char>> = seq![seq!['M', 'o', 'n', 't', 'a', 'n', 'a']];
        assert(f =~= text::join(ws, seq![' ']));
        lemma_title_name(f, ws);
    }
}

#[verifier::spinoff_prover]
proof fn lemma_state_names_n(b: char, f: Seq<char>)
    requires
        geo::state_name_of('N', b) == Some(f),
        f != "District of Columbia"@,
    ensures
        title_name_facts(f),
{
    reveal_with_fuel(text::join, 4);
    if b == 'E' {
        reveal_strlit("Nebraska");
        let ws: Seq<Seq<char>> = seq![seq!['N', 'e', 'b', 'r', 'a', 's', 'k', 'a']];
        assert(f =~= text::join(ws, seq![' ']));
        lemma_title_name(f, ws);
    } else if b == 'V' {
        reveal_strlit("Nevada");
        let ws: Seq<Seq<char>> = seq![seq!['N', 'e', 'v', 'a', 'd', 'a']];
        assert(f =~= text::join(ws, seq![' ']));
        lemma_title_name(f, ws);
    } else if b == 'H' {
        reveal_strlit("New Hampshire");
        let ws: Seq<Seq<char>> = seq![seq!['N', 'e', 'w'], seq!['H', 'a', 'm', 'p', 's', 'h', 'i', 'r', 'e']];
        assert(f =~= text::join(ws, seq![' ']));
        lemma_title_name(f, ws);
    } else if b == 'J' {
        reveal_strlit("New Jersey");
        let ws: Seq<Seq<char>> = seq![seq!['N', 'e', 'w'], seq!['J', 'e', 'r', 's', 'e', 'y']];
        assert(f =~= text::join(ws, seq![' ']));
        lemma_title_name(f, ws);
    } else if b == 'M' {
        reveal_strlit("New Mexico");
        let ws: Seq<Seq<char>> = seq![seq!['N', 'e', 'w'], seq!['M', 'e', 'x', 'i', 'c', 'o']];
        assert(f =~= text::join(ws, seq![' ']));
        lemma_title_name(f, ws);
    } else if b == 'Y' {
        reveal_strlit("New York");
        let ws: Seq<Seq<char>> = seq![seq!['N', 'e', 'w'], seq!['Y', 'o', 'r', 'k']];
        assert(f =~= text::join(ws, seq![' ']));
        lemma_title_name(f, ws);
    } else if b == 'C' {
        reveal_strlit("North Carolina");
        let ws: Seq<Seq<char>> = seq![seq!['N', 'o', 'r', 't', 'h'], seq!['C', 'a', 'r', 'o', 'l', 'i', 'n', 'a']];
        assert(f =~= text::join(ws, seq![' ']));
        lemma_title_name(f, ws);
    } else if b == 'D' {
        reveal_strlit("North Dakota");
        let ws: Seq<Seq<char>> = seq![seq!['N', 'o', 'r', 't', 'h'], seq!['D', 'a', 'k', 'o', 't', 'a']];
        assert(f =~= text::join(ws, seq![' ']));
        lemma_title_name(f, ws);
    }
}

#[verifier::spinoff_prover]
proof fn lemma_state_names_o(b: char, f: Seq<char>)
    requires
        geo::state_name_of('O', b) == Some(f),
        f != "District of Columbia"@,
    ensures
        title_name_facts(f),
{
    reveal_with_fuel(text::join, 4);
    if b == 'H' {
        reveal_strlit("Ohio");
        let ws: Seq<Seq<char>> = seq![seq!['O', 'h', 'i', 'o']];
        assert(f =~= text::join(ws, seq![' ']));
        lemma_title_name(f, ws);
    } else if b == 'K' {
        reveal_strlit("Oklahoma");
        let ws: Seq<Seq<char>> = seq![seq!['O', 'k', 'l', 'a', 'h', 'o', 'm', 'a']];
        assert(f =~= text::join(ws, seq![' ']));
        lemma_title_name(f, ws);
    } else if b == 'R' {
        reveal_strlit("Oregon");
        let ws: Seq<Seq<char>> = seq![seq!['O', 'r', 'e', 'g', 'o', 'n']];
        assert(f =~= text::join(ws, seq![' ']));
        lemma_title_name(f, ws);
    }
}

#[verifier::spinoff_prover]
proof fn lemma_state_names_p(b: char, f: Seq<char>)
    requires
        geo::state_name_of('P', b) == Some(f),
        f != "District of Columbia"@,
    ensures
        title_name_facts(f),
{
    reveal_with_fuel(text::join, 4);
    if b == 'A' {
        reveal_strlit("Pennsylvania");
        let ws: Seq<Seq<char>> = seq![seq!['P', 'e', 'n', 'n', 's', 'y', 'l', 'v', 'a', 'n', 'i', 'a']];
        assert(f =~= text::join(ws, seq![' ']));
        lemma_title_name(f, ws);
    }
}

#[verifier::spinoff_prover]
proof fn lemma_state_names_r(b: char, f: Seq<char>)
    requires
        geo::state_name_of('R', b) == Some(f),
        f != "District of Columbia"@,
    ensures
        title_name_facts(f),
{
    reveal_with_fuel(text::join, 4);
    if b == 'I' {
        reveal_strlit("Rhode Island");
        let ws: Seq<Seq<char>> = seq![seq!['R', 'h', 'o', 'd', 'e'], seq!['I', 's', 'l', 'a', 'n', 'd']];
        assert(f =~= text::join(ws, seq![' ']));
        lemma_title_name(f, ws);
    }
}

#[verifier::spinoff_prover]
proof fn lemma_state_names_s(b: char, f: Seq<char>)
    requires
        geo::state_name_of('S', b) == Some(f),
        f != "District of Columbia"@,
    ensures
        title_name_facts(f),
{
    reveal_with_fuel(text::join, 4);
    if b == 'C' {
        reveal_strlit("South Carolina");
        let ws: Seq<Seq<char>> = seq![seq!['S', 'o', 'u', 't', 'h'], seq!['C', 'a', 'r', 'o', 'l', 'i', 'n', 'a']];
        assert(f =~= text::join(ws, seq![' ']));
        lemma_title_name(f, ws);
    } else if b == 'D' {
        reveal_strlit("South Dakota");
        let ws: Seq<Seq<char>> = seq![seq!['S', 'o', 'u', 't', 'h'], seq!['D', 'a', 'k', 'o', 't', 'a']];
        assert(f =~= text::join(ws, seq![' ']));
        lemma_title_name(f, ws);
    }
}

#[verifier::spinoff_prover]
proof fn lemma_state_names_t(b: char, f: Seq<char>)
    requires
        geo::state_name_of('T', b) == Some(f),
        f != "District of Columbia"@,
    ensures
        title_name_facts(f),
{
    reveal_with_fuel(text::join, 4);
    if b == 'N' {
        reveal_strlit("Tennessee");
        let ws: Seq<Seq<char>> = seq![seq!['T', 'e', 'n', 'n', 'e', 's', 's', 'e', 'e']];
        assert(f =~= text::join(ws, seq![' ']));
        lemma_title_name(f, ws);
    } else if b == 'X' {
        reveal_strlit("Texas");
        let ws: Seq<Seq<char>> = seq![seq!['T', 'e', 'x', 'a', 's']];
        assert(f =~= text::join(ws, seq![' ']));
        lemma_title_name(f, ws);
    }
}

#[verifier::spinoff_prover]
proof fn lemma_state_names_u(b: char, f: Seq<char>)
    requires
        geo::state_name_of('U', b) == Some(f),
        f != "District of Columbia"@,
    ensures
        title_name_facts(f),
{
    reveal_with_fuel(text::join, 4);
    if b == 'T' {
        reveal_strlit("Utah");
        let ws: Seq<Seq<char>> = seq![seq!['U', 't', 'a', 'h']];
        assert(f =~= text::join(ws, seq![' ']));
        lemma_title_name(f, ws);
    }
}

#[verifier::spinoff_prover]
proof fn lemma_state_names_v(b: char, f: Seq<char>)
    requires
        geo::state_name_of('V', b) == Some(f),
        f != "District of Columbia"@,
    ensures
        title_name_facts(f),
{
    reveal_with_fuel(text::join, 4);
    if b == 'T' {
        reveal_strlit("Vermont");
        let ws: Seq<Seq<char>> = seq![seq!['V', 'e', 'r', 'm', 'o', 'n', 't']];
        assert(f =~= text::join(ws, seq![' ']));
        lemma_title_name(f, ws);
    } else if b == 'A' {
        reveal_strlit("Virginia");
        let ws: Seq<Seq<char>> = seq![seq!['V', 'i', 'r', 'g', 'i', 'n', 'i', 'a']];
        assert(f =~= text::join(ws, seq![' ']));
        lemma_title_name(f, ws);
    }
}

#[verifier::spinoff_prover]
proof fn lemma_state_names_w(b: char, f: Seq<char>)
    requires
        geo::state_name_of('W', b) == Some(f),
        f != "District of Columbia"@,
    ensures
        title_name_facts(f),
{
    reveal_with_fuel(text::join, 4);
    if b == 'A' {
        reveal_strlit("Washington");
        let ws: Seq<Seq<char>> = seq![seq!['W', 'a', 's', 'h', 'i', 'n', 'g', 't', 'o', 'n']];
        assert(f =~= text::join(ws, seq![' ']));
        lemma_title_name(f, ws);
    } else if b == 'V' {
        reveal_strlit("West Virginia");
        let ws: Seq<Seq<char>> = seq![seq!['W', 'e', 's', 't'], seq!['V', 'i', 'r', 'g', 'i', 'n', 'i', 'a']];
        assert(f =~= text::join(ws, seq![' ']));
        lemma_title_name(f, ws);
    } else if b == 'I' {
        reveal_strlit("Wisconsin");
        let ws: Seq<Seq<char>> = seq![seq!['W', 'i', 's', 'c', 'o', 'n', 's', 'i', 'n']];
        assert(f =~= text::join(ws, seq![' ']));
        lemma_title_name(f, ws);
    } else if b == 'Y' {
        reveal_strlit("Wyoming");
        let ws: Seq<Seq<char>> = seq![seq!['W', 'y', 'o', 'm', 'i', 'n', 'g']];
        assert(f =~= text::join(ws, seq![' ']));
        lemma_title_name(f, ws);
    }
}

/// A US state's full name, other than the District of Columbia's, is
/// capitalised words joined by single spaces.
proof fn lemma_full_state_name(a: char, b: char, f: Seq<char>)
    requires
        geo::state_name_of(a, b) == Some(f),
        f != "District of Columbia"@,
    ensures
        title_name_facts(f),
{
    if a == 'A' {
        lemma_state_names_a(b, f);
    } else if a == 'C' {
        lemma_state_names_c(b, f);
    } else if a == 'D' {
        lemma_state_names_d(b, f);
    } else if a == 'F' {
        lemma_state_names_f(b, f);
    } else if a == 'G' {
        lemma_state_names_g(b, f);
    } else if a == 'H' {
        lemma_state_names_h(b, f);
    } else if a == 'I' {
        lemma_state_names_i(b, f);
    } else if a == 'K' {
        lemma_state_names_k(b, f);
    } else if a == 'L' {
        lemma_state_names_l(b, f);
    } else if a == 'M' {
        lemma_state_names_m(b, f);
    } else if a == 'N' {
        lemma_state_names_n(b, f);
    } else if a == 'O' {
        lemma_state_names_o(b, f);
    } else if a == 'P' {
        lemma_state_names_p(b, f);
    } else if a == 'R' {
        lemma_state_names_r(b, f);
    } else if a == 'S' {
        lemma_state_names_s(b, f);
    } else if a == 'T' {
        lemma_state_names_t(b, f);
    } else if a == 'U' {
        lemma_state_names_u(b, f);
    } else if a == 'V' {
        lemma_state_names_v(b, f);
    } else if a == 'W' {
        lemma_state_names_w(b, f);
    }
}

/// The state part of a plain location, other than the District of
/// Columbia's code, becomes a name of capitalised words joined by single
/// spaces.
proof fn lemma_plain_state(t: Seq<char>)
    requires
        text::is_ascii_text(t),
        text::tidy(t),
        geo::us_state_name(text::upper_ascii(t)) is None ==> plain_words(t),
        geo::us_state_name(text::upper_ascii(t)) != Some("District of Columbia"@),
    ensures
        title_name_facts(plain_state(t)),
{
    let u = text::upper_ascii(t);
    match geo::us_state_name(u) {
        Some(full) => {
            lemma_full_state_name(u[0], u[1], full);
        },
        None => {
            lemma_title_city(t);
            lemma_no_comma_title(t);
            lemma_title_not_code(t);
        },
    }
}

proof fn lemma_spaced(x: Seq<char>)
    requires
        text::is_ascii_text(x),
        !x.contains(','),
    ensures
        text::is_ascii_text(seq![' '] + x),
        !(seq![' '] + x).contains(','),
{
    let sx = seq![' '] + x;
    assert forall|i: int| 0 <= i < sx.len() implies (#[trigger] sx[i]) as u32 <= 0x7f by {
        if i > 0 {
            assert(sx[i] == x[i - 1]);
        }
    }
    assert(!sx.contains(',')) by {
        if sx.contains(',') {
            let j = choose|j: int| 0 <= j < sx.len() && sx[j] == ',';
            assert(j > 0);
            assert(sx[j] == x[j - 1]);
            assert(x.contains(','));
        }
    }
}

/// Normalising a plain location string twice is normalising it once: its
/// normal form is plain again and is its own normal form. The one input left
/// out is a state part that is the District of Columbia's code, whose full
/// name ("District of Columbia") title-cases differently.
pub proof fn law_normalizing_twice_is_normalizing_once(location: Seq<char>)
    requires
        plain_location(location),
        not_dc(location),
    ensures
        plain_location(plain_normal(location)),
        not_dc(plain_normal(location)),
        plain_normal(plain_normal(location)) == plain_normal(location),
{
    let parts = text::split_on(location, ',');
    text::lemma_split_pieces_without_sep(location, ',');
    let last = parts[parts.len() - 1];
    assert(!last.contains(',')) by {
        if last.contains(',') {
            let j = choose|j: int| 0 <= j < last.len() && last[j] == ',';
            assert(parts[parts.len() - 1][j] != ',');
        }
    }
    let t0 = text::trim(parts[0]);
    let a = title_city(t0);
    lemma_title_city(t0);
    lemma_no_comma_title(t0);
    text::lemma_tidy_trim(a);
    let c = text::upper_ascii(text::trim(last));
    lemma_country_part(last);
    text::lemma_tidy_trim(c);
    let sc = seq![' '] + c;
    lemma_spaced(c);
    text::lemma_split_without_sep(a, ',');
    text::lemma_split_without_sep(sc, ',');
    if parts.len() == 2 {
        let out = plain_normal(location);
        assert(out =~= a + seq![','] + sc);
        text::lemma_split_concat(a, sc, ',');
        assert(text::split_on(out, ',') =~= seq![a, sc]);
    } else {
        let t1 = text::trim(parts[1]);
        text::lemma_trim_tidy(parts[1]);
        lemma_plain_state(t1);
        let b = plain_state(t1);
        text::lemma_tidy_trim(b);
        let sb = seq![' '] + b;
        lemma_spaced(b);
        text::lemma_split_without_sep(sb, ',');
        let out = plain_normal(location);
        let front = a + seq![','] + sb;
        assert(out =~= front + seq![','] + sc);
        text::lemma_split_concat(a, sb, ',');
        text::lemma_split_concat(front, sc, ',');
        assert(text::split_on(front, ',') =~= seq![a, sb]);
        assert(text::split_on(out, ',') =~= seq![a, sb, sc]);
        assert(plain_state(b) == b);
    }
}

proof fn lemma_map_take_step(ws: Seq<Seq<char>>, i: int)
    requires
        0 <= i < ws.len(),
    ensures
        ws.take(i + 1).map_values(|w: Seq<char>| pascal_case_of(w)) == ws.take(i).map_values(
            |w: Seq<char>| pascal_case_of(w),
        ).push(pascal_case_of(ws[i])),
{
    assert(ws.take(i + 1).map_values(|w: Seq<char>| pascal_case_of(w)) =~= ws.take(i).map_values(
        |w: Seq<char>| pascal_case_of(w),
    ).push(pascal_case_of(ws[i])));
}

/// `normalized_city` on characters.
pub fn normalize_city_chars(city: &[char]) -> (res: Vec<char>)
    ensures
        res@ == normalized_city(city@),
        plain_words(city@) ==> normalized_city(city@) == title_city(city@),
{
    let ws = text::words_of(city);
    let n = ws.len();
    let mut cased: Vec<Vec<char>> = Vec::new();
    let mut i: usize = 0;
    let ghost all = text::views(ws@);
    while i < n
        invariant
            n == ws@.len(),
            all == text::views(ws@),
            all == text::words(city@),
            i <= n,
            text::views(cased@) == all.take(i as int).map_values(|w: Seq<char>| pascal_case_of(w)),
            forall|k: int|
                0 <= k < i && letter_word(all[k]) ==> pascal_case_of(#[trigger] all[k])
                    == capitalized(all[k]),
        decreases n - i,
    {
        let w = pascal_case(ws[i].as_slice());
        let ghost before = cased@;
        cased.push(w);
        proof {
            lemma_map_take_step(all, i as int);
            assert(all[i as int] == ws@[i as int]@);
            assert(text::views(cased@) =~= text::views(before).push(cased@.last()@));
        }
        i = i + 1;
    }
    assert(all.take(n as int) =~= all);
    proof {
        if plain_words(city@) {
            let m1 = all.map_values(|w: Seq<char>| pascal_case_of(w));
            let m2 = all.map_values(|w: Seq<char>| capitalized(w));
            assert forall|k: int| 0 <= k < all.len() implies #[trigger] m1[k] == m2[k] by {
                assert(letter_word(all[k]));
            }
            assert(m1 =~= m2);
        }
    }
    let mut sep: Vec<char> = Vec::new();
    sep.push(' ');
    assert(sep@ =~= seq![' ']);
    text::join_chars(&cased, sep.as_slice())
}

fn comma_space_chars() -> (res: Vec<char>)
    ensures
        res@ == comma_space(),
{
    let mut v: Vec<char> = Vec::new();
    v.push(',');
    v.push(' ');
    assert(v@ =~= comma_space());
    v
}

fn label_chars(city: &[char], state: &[char], country: &[char]) -> (res: Vec<char>)
    ensures
        res@ == location_label(city@, state@, country@),
{
    let sep = comma_space_chars();
    let mut out: Vec<char> = Vec::new();
    text::push_all(&mut out, city);
    text::push_all(&mut out, sep.as_slice());
    if state.len() > 0 {
        text::push_all(&mut out, state);
        text::push_all(&mut out, sep.as_slice());
    }
    text::push_all(&mut out, country);
    assert(out@ =~= location_label(city@, state@, country@));
    out
}

impl LocationData {
    /// Normalises a city name to title case: `"new york"` becomes `"New York"`.
    pub fn normalize_city_name(city: &str) -> (res: String)
        ensures
            res@ == normalized_city(city@),
    {
        let cs = text::chars_of(city);
        let out = normalize_city_chars(cs.as_slice());
        text::string_of(&out)
    }

    /// Normalises a location string: `"City, CountryCode"` becomes
    /// `"City, COUNTRY"` and `"City, State, CountryCode"` becomes
    /// `"City, State, COUNTRY"`; other strings are returned unchanged.
    pub fn normalize_location_string(location: &str) -> (res: String)
        ensures
            res@ == normalized_location(location@),
            plain_location(location@) ==> res@ == plain_normal(location@),
    {
        let cs = text::chars_of(location);
        if cs.len() == 0 {
            return location.to_owned();
        }
        let parts = text::split_chars(cs.as_slice(), ',');
        assert(text::views(parts@) == text::split_on(location@, ','));
        let sep = comma_space_chars();
        if parts.len() == 2 {
            assert(parts@[0]@ == text::split_on(location@, ',')[0]);
            assert(parts@[1]@ == text::split_on(location@, ',')[1]);
            let city_raw = text::trim_chars(parts[0].as_slice());
            let mut out = normalize_city_chars(city_raw.as_slice());
            let country_raw = text::trim_chars(parts[1].as_slice());
            let country = text::to_uppercase_chars(country_raw.as_slice());
            text::push_all(&mut out, sep.as_slice());
            text::push_all(&mut out, country.as_slice());
            proof {
                if plain_location(location@) {
                    assert(country@ == text::upper_ascii(text::trim(parts@[1]@)));
                    assert(out@ == plain_normal(location@));
                }
            }
            text::string_of(&out)
        } else if parts.len() == 3 {
            assert(parts@[0]@ == text::split_on(location@, ',')[0]);
            assert(parts@[1]@ == text::split_on(location@, ',')[1]);
            assert(parts@[2]@ == text::split_on(location@, ',')[2]);
            let city_raw = text::trim_chars(parts[0].as_slice());
            let mut out = normalize_city_chars(city_raw.as_slice());
            let raw_state = text::trim_chars(parts[1].as_slice());
            proof {
                text::law_trim_is_idempotent(parts@[1]@);
            }
            let state = match geo::expand_us_state_chars(raw_state.as_slice()) {
                Some(full) => text::chars_of(full.as_str()),
                None => normalize_city_chars(raw_state.as_slice()),
            };
            let country_raw = text::trim_chars(parts[2].as_slice());
            let country = text::to_uppercase_chars(country_raw.as_slice());
            text::push_all(&mut out, sep.as_slice());
            text::push_all(&mut out, state.as_slice());
            text::push_all(&mut out, sep.as_slice());
            text::push_all(&mut out, country.as_slice());
            proof {
                if plain_location(location@) {
                    assert(country@ == text::upper_ascii(text::trim(parts@[2]@)));
                    assert(state@ == plain_state(text::trim(parts@[1]@)));
                    assert(out@ == plain_normal(location@));
                }
            }
            text::string_of(&out)
        } else {
            location.to_owned()
        }
    }

    /// Normalises the record: the city to title case, the country code to
    /// upper case, and, when both are non-empty, the location label rebuilt
    /// from city, state and country.
    pub fn normalize(&mut self)
        ensures
            final(self).city@ == normalized_city(old(self).city@),
            final(self).country_code@ == text::uppercase_of(old(self).country_code@),
            final(self).state == old(self).state,
            final(self).created_at == old(self).created_at,
            final(self).location@ == if final(self).city@.len() > 0 && final(self).country_code@.len()
                > 0 {
                location_label(final(self).city@, old(self).state@, final(self).country_code@)
            } else {
                old(self).location@
            },
    {
        let city_chars = text::chars_of(self.city.as_str());
        let city = normalize_city_chars(city_chars.as_slice());
        let cc_chars = text::chars_of(self.country_code.as_str());
        let country = text::to_uppercase_chars(cc_chars.as_slice());
        if city.len() > 0 && country.len() > 0 {
            let state = text::chars_of(self.state.as_str());
            let label = label_chars(city.as_slice(), state.as_slice(), country.as_slice());
            self.location = text::string_of(&label);
        }
        self.city = text::string_of(&city);
        self.country_code = text::string_of(&country);
    }

    /// A normalised record for a looked-up place: `state` is the region the
    /// lookup gave (empty when none), and the label is filled in by
    /// `normalize`.
    pub fn from_lookup(city: String, country_code: String, state: String, created_at: u64) -> (res:
        LocationData)
        ensures
            res.city@ == normalized_city(city@),
            res.country_code@ == text::uppercase_of(country_code@),
            res.state == state,
            res.created_at == created_at,
            res.location@ == if res.city@.len() > 0 && res.country_code@.len() > 0 {
                location_label(res.city@, state@, res.country_code@)
            } else {
                Seq::<char>::empty()
            },
    {
        let mut data = LocationData { city, country_code, location: String::new(), created_at, state };
        data.normalize();
        data
    }

    /// Decides how a location string is looked up: empty means by IP
    /// address; `"City, CountryCode"` and `"City, State, CountryCode"` by
    /// name (city normalised, country upper-cased, state trimmed); anything
    /// else is an invalid format.
    pub fn plan_lookup(l: &str) -> (res: Result<LookupRequest, LocationError>)
        ensures
            ({
                let parts = text::split_on(l@, ',');
                match res {
                    Ok(LookupRequest::ByIp) => l@.len() == 0,
                    Ok(LookupRequest::ByCity { name, country_code }) => {
                        &&& l@.len() > 0
                        &&& parts.len() == 2
                        &&& name@ == normalized_city(text::trim(parts[0]))
                        &&& country_code@ == text::uppercase_of(text::trim(parts[1]))
                    },
                    Ok(LookupRequest::ByCityInState { name, state, country_code }) => {
                        &&& l@.len() > 0
                        &&& parts.len() == 3
                        &&& name@ == normalized_city(text::trim(parts[0]))
                        &&& state@ == text::trim(parts[1])
                        &&& country_code@ == text::uppercase_of(text::trim(parts[2]))
                    },
                    Err(e) => {
                        &&& l@.len() > 0
                        &&& parts.len() != 2
                        &&& parts.len() != 3
                        &&& e is InvalidFormat
                    },
                }
            }),
    {
        let cs = text::chars_of(l);
        if cs.len() == 0 {
            return Ok(LookupRequest::ByIp);
        }
        let parts = text::split_chars(cs.as_slice(), ',');
        assert(text::views(parts@) == text::split_on(l@, ','));
        if parts.len() == 2 {
            assert(parts@[0]@ == text::split_on(l@, ',')[0]);
            assert(parts@[1]@ == text::split_on(l@, ',')[1]);
            let city_raw = text::trim_chars(parts[0].as_slice());
            let name = normalize_city_chars(city_raw.as_slice());
            let cc_raw = text::trim_chars(parts[1].as_slice());
            let cc = text::to_uppercase_chars(cc_raw.as_slice());
            Ok(LookupRequest::ByCity { name: text::string_of(&name), country_code: text::string_of(&cc) })
        } else if parts.len() == 3 {
            assert(parts@[0]@ == text::split_on(l@, ',')[0]);
            assert(parts@[1]@ == text::split_on(l@, ',')[1]);
            assert(parts@[2]@ == text::split_on(l@, ',')[2]);
            let city_raw = text::trim_chars(parts[0].as_slice());
            let name = normalize_city_chars(city_raw.as_slice());
            let state = text::trim_chars(parts[1].as_slice());
            let cc_raw = text::trim_chars(parts[2].as_slice());
            let cc = text::to_uppercase_chars(cc_raw.as_slice());
            Ok(
                LookupRequest::ByCityInState {
                    name: text::string_of(&name),
                    state: text::string_of(&state),
                    country_code: text::string_of(&cc),
                },
            )
        } else {
            Err(LocationError::InvalidFormat)
        }
    }

    /// Whether this cached record, saved when the location setting was
    /// `saved_for`, answers a request for the setting `requested` at `now`:
    /// it was saved for that same setting, it carries a creation time, and it
    /// is younger than `LOCATION_CACHE_SECS`. A clock that has gone back past
    /// such a record's creation time is outside the domain.
    pub fn cache_answers(&self, saved_for: &str, requested: &str, now: u64) -> (res: bool)
        requires
            (saved_for@ == requested@ && self.created_at > 0) ==> now >= self.created_at,
        ensures
            res == cache_reusable(saved_for@, self.created_at, requested@, now),
    {
        let have = text::chars_of(saved_for);
        let same = text::chars_eq_str(have.as_slice(), requested);
        same && self.created_at > 0 && now - self.created_at < LOCATION_CACHE_SECS
    }
}

/// Whether a record saved for the location setting `saved_for` at
/// `created_at` is reused for a request for the setting `requested` at
/// `now`: the same setting, a creation time, and less than four hours old.
pub open spec fn cache_reusable(saved_for: Seq<char>, created_at: u64, requested: Seq<char>, now: u64) -> bool {
    saved_for == requested && created_at > 0 && now - created_at < LOCATION_CACHE_SECS
}

/// A record saved for a location setting is reused for that setting, an
/// IP lookup (the empty setting) included, from its creation until four
/// hours have passed, and not afterwards.
pub proof fn law_fresh_record_is_reused(setting: Seq<char>, created_at: u64, now: u64)
    requires
        0 < created_at <= now,
    ensures
        cache_reusable(setting, created_at, setting, now) <==> now - created_at
            < LOCATION_CACHE_SECS,
{
}

/// Picks the geocoding result to use. With no state every query takes the
/// first result; with a state, the first result whose region equals the
/// state (or the full name of a US state code) ignoring ASCII case.
pub fn select_geo_result(name: &str, state: &str, country: &str, admin1s: &Vec<Option<String>>) -> (res:
    Result<usize, LocationError>)
    ensures
        admin1s@.len() == 0 ==> (res matches Err(LocationError::NoResults { name: n, country: c })
            && n@ == name@ && c@ == country@),
        admin1s@.len() > 0 && state@.len() == 0 ==> res == Ok::<usize, LocationError>(0),
        admin1s@.len() > 0 && state@.len() > 0 ==> match res {
            Ok(i) => {
                &&& i < admin1s@.len()
                &&& region_matches(admin1s@[i as int], state@)
                &&& forall|j: int| 0 <= j < i ==> !region_matches(#[trigger] admin1s@[j], state@)
            },
            Err(LocationError::NoStateMatch { name: n, state: s, country: c, alternatives }) => {
                &&& forall|j: int|
                    0 <= j < admin1s@.len() ==> !region_matches(#[trigger] admin1s@[j], state@)
                &&& n@ == name@
                &&& s@ == state@
                &&& c@ == country@
                &&& alternatives@ == alternatives_text(admin1s@)
            },
            Err(_) => false,
        },
{
    if admin1s.len() == 0 {
        return Err(LocationError::NoResults { name: name.to_owned(), country: country.to_owned() });
    }
    let state_chars = text::chars_of(state);
    if state_chars.len() == 0 {
        return Ok(0);
    }
    let target = match geo::expand_us_state_chars(state_chars.as_slice()) {
        Some(full) => text::chars_of(full.as_str()),
        None => text::chars_of(state),
    };
    let n = admin1s.len();
    let mut i: usize = 0;
    while i < n
        invariant
            n == admin1s@.len(),
            i <= n,
            state_chars@ == state@,
            state@.len() > 0,
            target@ == target_region(state@),
            forall|j: int| 0 <= j < i ==> !region_matches(#[trigger] admin1s@[j], state@),
        decreases n - i,
    {
        match &admin1s[i] {
            Some(a) => {
                let ac = text::chars_of(a.as_str());
                if text::eq_ignore_ascii_case_chars(ac.as_slice(), target.as_slice())
                    || text::eq_ignore_ascii_case_chars(ac.as_slice(), state_chars.as_slice()) {
                    return Ok(i);
                }
            },
            None => {},
        }
        i = i + 1;
    }
    let alternatives = alternatives_of(admin1s);
    Err(
        LocationError::NoStateMatch {
            name: name.to_owned(),
            state: state.to_owned(),
            country: country.to_owned(),
            alternatives,
        },
    )
}

proof fn lemma_present_step(admin1s: Seq<Option<String>>, i: int)
    requires
        0 <= i < admin1s.len(),
    ensures
        present_regions(admin1s.take(i + 1)) == match admin1s[i] {
            Some(a) => present_regions(admin1s.take(i)).push(a@),
            None => present_regions(admin1s.take(i)),
        },
{
    assert(admin1s.take(i + 1).drop_last() =~= admin1s.take(i));
}

fn alternatives_of(admin1s: &Vec<Option<String>>) -> (res: String)
    ensures
        res@ == alternatives_text(admin1s@),
{
    let n = admin1s.len();
    let mut found: Vec<Vec<char>> = Vec::new();
    let mut i: usize = 0;
    while i < n
        invariant
            n == admin1s@.len(),
            i <= n,
            text::views(found@) == present_regions(admin1s@.take(i as int)),
        decreases n - i,
    {
        proof {
            lemma_present_step(admin1s@, i as int);
        }
        match &admin1s[i] {
            Some(a) => {
                let ghost before = found@;
                found.push(text::chars_of(a.as_str()));
                assert(text::views(found@) =~= text::views(before).push(found@.last()@));
            },
            None => {},
        }
        i = i + 1;
    }
    assert(admin1s@.take(n as int) =~= admin1s@);
    if found.len() == 0 {
        "no admin1 data".to_owned()
    } else {
        let sep = comma_space_chars();
        let joined = text::join_chars(&found, sep.as_slice());
        text::string_of(&joined)
    }
}

} // verus!
