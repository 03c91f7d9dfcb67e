//! US state abbreviations and their full names.
use vstd::prelude::*;

use crate::text;

verus! {

/// The full name of the US state (or DC) whose two-letter postal code is `a b`.
pub open spec fn state_name_of(a: char, b: char) -> Option<Seq<char>> {
    if a == 'A' && b == 'L' {
        Some("Alabama"@)
    } else if a == 'A' && b == 'K' {
        Some("Alaska"@)
    } else if a == 'A' && b == 'Z' {
        Some("Arizona"@)
    } else if a == 'A' && b == 'R' {
        Some("Arkansas"@)
    } else if a == 'C' && b == 'A' {
        Some("California"@)
    } else if a == 'C' && b == 'O' {
        Some("Colorado"@)
    } else if a == 'C' && b == 'T' {
        Some("Connecticut"@)
    } else if a == 'D' && b == 'E' {
        Some("Delaware"@)
    } else if a == 'D' && b == 'C' {
        Some("District of Columbia"@)
    } else if a == 'F' && b == 'L' {
        Some("Florida"@)
    } else if a == 'G' && b == 'A' {
        Some("Georgia"@)
    } else if a == 'H' && b == 'I' {
        Some("Hawaii"@)
    } else if a == 'I' && b == 'D' {
        Some("Idaho"@)
    } else if a == 'I' && b == 'L' {
        Some("Illinois"@)
    } else if a == 'I' && b == 'N' {
        Some("Indiana"@)
    } else if a == 'I' && b == 'A' {
        Some("Iowa"@)
    } else if a == 'K' && b == 'S' {
        Some("Kansas"@)
    } else if a == 'K' && b == 'Y' {
        Some("Kentucky"@)
    } else if a == 'L' && b == 'A' {
        Some("Louisiana"@)
    } else if a == 'M' && b == 'E' {
        Some("Maine"@)
    } else if a == 'M' && b == 'D' {
        Some("Maryland"@)
    } else if a == 'M' && b == 'A' {
        Some("Massachusetts"@)
    } else if a == 'M' && b == 'I' {
        Some("Michigan"@)
    } else if a == 'M' && b == 'N' {
        Some("Minnesota"@)
    } else if a == 'M' && b == 'S' {
        Some("Mississippi"@)
    } else if a == 'M' && b == 'O' {
        Some("Missouri"@)
    } else if a == 'M' && b == 'T' {
        Some("Montana"@)
    } else if a == 'N' && b == 'E' {
        Some("Nebraska"@)
    } else if a == 'N' && b == 'V' {
        Some("Nevada"@)
    } else if a == 'N' && b == 'H' {
        Some("New Hampshire"@)
    } else if a == 'N' && b == 'J' {
        Some("New Jersey"@)
    } else if a == 'N' && b == 'M' {
        Some("New Mexico"@)
    } else if a == 'N' && b == 'Y' {
        Some("New York"@)
    } else if a == 'N' && b == 'C' {
        Some("North Carolina"@)
    } else if a == 'N' && b == 'D' {
        Some("North Dakota"@)
    } else if a == 'O' && b == 'H' {
        Some("Ohio"@)
    } else if a == 'O' && b == 'K' {
        Some("Oklahoma"@)
    } else if a == 'O' && b == 'R' {
        Some("Oregon"@)
    } else if a == 'P' && b == 'A' {
        Some("Pennsylvania"@)
    } else if a == 'R' && b == 'I' {
        Some("Rhode Island"@)
    } else if a == 'S' && b == 'C' {
        Some("South Carolina"@)
    } else if a == 'S' && b == 'D' {
        Some("South Dakota"@)
    } else if a == 'T' && b == 'N' {
        Some("Tennessee"@)
    } else if a == 'T' && b == 'X' {
        Some("Texas"@)
    } else if a == 'U' && b == 'T' {
        Some("Utah"@)
    } else if a == 'V' && b == 'T' {
        Some("Vermont"@)
    } else if a == 'V' && b == 'A' {
        Some("Virginia"@)
    } else if a == 'W' && b == 'A' {
        Some("Washington"@)
    } else if a == 'W' && b == 'V' {
        Some("West Virginia"@)
    } else if a == 'W' && b == 'I' {
        Some("Wisconsin"@)
    } else if a == 'W' && b == 'Y' {
        Some("Wyoming"@)
    } else {
        None
    }
}

/// The full name for an upper-case two-letter code, `None` for anything else.
pub open spec fn us_state_name(code: Seq<char>) -> Option<Seq<char>> {
    if code.len() == 2 {
        state_name_of(code[0], code[1])
    } else {
        None
    }
}

/// What `expand_us_state` gives for `abbr`: the code is trimmed and
/// upper-cased before the table is consulted.
pub open spec fn expanded_state(abbr: Seq<char>) -> Option<Seq<char>> {
    us_state_name(text::uppercase_of(text::trim(abbr)))
}

/// The state table is the USPS list of the 50 states and the District of
/// Columbia: each of these codes expands to its full name.
pub proof fn law_state_table()
    ensures
        us_state_name(seq!['A', 'L']) == Some("Alabama"@),
        us_state_name(seq!['A', 'K']) == Some("Alaska"@),
        us_state_name(seq!['A', 'Z']) == Some("Arizona"@),
        us_state_name(seq!['A', 'R']) == Some("Arkansas"@),
        us_state_name(seq!['C', 'A']) == Some("California"@),
        us_state_name(seq!['C', 'O']) == Some("Colorado"@),
        us_state_name(seq!['C', 'T']) == Some("Connecticut"@),
        us_state_name(seq!['D', 'E']) == Some("Delaware"@),
        us_state_name(seq!['D', 'C']) == Some("District of Columbia"@),
        us_state_name(seq!['F', 'L']) == Some("Florida"@),
        us_state_name(seq!['G', 'A']) == Some("Georgia"@),
        us_state_name(seq!['H', 'I']) == Some("Hawaii"@),
        us_state_name(seq!['I', 'D']) == Some("Idaho"@),
        us_state_name(seq!['I', 'L']) == Some("Illinois"@),
        us_state_name(seq!['I', 'N']) == Some("Indiana"@),
        us_state_name(seq!['I', 'A']) == Some("Iowa"@),
        us_state_name(seq!['K', 'S']) == Some("Kansas"@),
        us_state_name(seq!['K', 'Y']) == Some("Kentucky"@),
        us_state_name(seq!['L', 'A']) == Some("Louisiana"@),
        us_state_name(seq!['M', 'E']) == Some("Maine"@),
        us_state_name(seq!['M', 'D']) == Some("Maryland"@),
        us_state_name(seq!['M', 'A']) == Some("Massachusetts"@),
        us_state_name(seq!['M', 'I']) == Some("Michigan"@),
        us_state_name(seq!['M', 'N']) == Some("Minnesota"@),
        us_state_name(seq!['M', 'S']) == Some("Mississippi"@),
        us_state_name(seq!['M', 'O']) == Some("Missouri"@),
        us_state_name(seq!['M', 'T']) == Some("Montana"@),
        us_state_name(seq!['N', 'E']) == Some("Nebraska"@),
        us_state_name(seq!['N', 'V']) == Some("Nevada"@),
        us_state_name(seq!['N', 'H']) == Some("New Hampshire"@),
        us_state_name(seq!['N', 'J']) == Some("New Jersey"@),
        us_state_name(seq!['N', 'M']) == Some("New Mexico"@),
        us_state_name(seq!['N', 'Y']) == Some("New York"@),
        us_state_name(seq!['N', 'C']) == Some("North Carolina"@),
        us_state_name(seq!['N', 'D']) == Some("North Dakota"@),
        us_state_name(seq!['O', 'H']) == Some("Ohio"@),
        us_state_name(seq!['O', 'K']) == Some("Oklahoma"@),
        us_state_name(seq!['O', 'R']) == Some("Oregon"@),
        us_state_name(seq!['P', 'A']) == Some("Pennsylvania"@),
        us_state_name(seq!['R', 'I']) == Some("Rhode Island"@),
        us_state_name(seq!['S', 'C']) == Some("South Carolina"@),
        us_state_name(seq!['S', 'D']) == Some("South Dakota"@),
        us_state_name(seq!['T', 'N']) == Some("Tennessee"@),
        us_state_name(seq!['T', 'X']) == Some("Texas"@),
        us_state_name(seq!['U', 'T']) == Some("Utah"@),
        us_state_name(seq!['V', 'T']) == Some("Vermont"@),
        us_state_name(seq!['V', 'A']) == Some("Virginia"@),
        us_state_name(seq!['W', 'A']) == Some("Washington"@),
        us_state_name(seq!['W', 'V']) == Some("West Virginia"@),
        us_state_name(seq!['W', 'I']) == Some("Wisconsin"@),
        us_state_name(seq!['W', 'Y']) == Some("Wyoming"@),
{
}

/// No other two-letter code expands: exactly the 51 codes of the table do.
pub proof fn law_only_listed_codes_expand(a: char, b: char)
    ensures
        state_name_of(a, b) is Some <==> ((a == 'A' && b == 'L') || (a == 'A' && b == 'K') || (a == 'A' && b == 'Z') || (a == 'A' && b == 'R') || (a == 'C' && b == 'A') || (a == 'C' && b == 'O') || (a == 'C' && b == 'T') || (a == 'D' && b == 'E') || (a == 'D' && b == 'C') || (a == 'F' && b == 'L') || (a == 'G' && b == 'A') || (a == 'H' && b == 'I') || (a == 'I' && b == 'D') || (a == 'I' && b == 'L') || (a == 'I' && b == 'N') || (a == 'I' && b == 'A') || (a == 'K' && b == 'S') || (a == 'K' && b == 'Y') || (a == 'L' && b == 'A') || (a == 'M' && b == 'E') || (a == 'M' && b == 'D') || (a == 'M' && b == 'A') || (a == 'M' && b == 'I') || (a == 'M' && b == 'N') || (a == 'M' && b == 'S') || (a == 'M' && b == 'O') || (a == 'M' && b == 'T') || (a == 'N' && b == 'E') || (a == 'N' && b == 'V') || (a == 'N' && b == 'H') || (a == 'N' && b == 'J') || (a == 'N' && b == 'M') || (a == 'N' && b == 'Y') || (a == 'N' && b == 'C') || (a == 'N' && b == 'D') || (a == 'O' && b == 'H') || (a == 'O' && b == 'K') || (a == 'O' && b == 'R') || (a == 'P' && b == 'A') || (a == 'R' && b == 'I') || (a == 'S' && b == 'C') || (a == 'S' && b == 'D') || (a == 'T' && b == 'N') || (a == 'T' && b == 'X') || (a == 'U' && b == 'T') || (a == 'V' && b == 'T') || (a == 'V' && b == 'A') || (a == 'W' && b == 'A') || (a == 'W' && b == 'V') || (a == 'W' && b == 'I') || (a == 'W' && b == 'Y')),
{
}

/// Surrounding whitespace does not change an expansion: an abbreviation
/// expands as its trimmed form does.
pub proof fn law_expansion_ignores_surrounding_space(abbr: Seq<char>)
    ensures
        expanded_state(text::trim(abbr)) == expanded_state(abbr),
{
    text::law_trim_is_idempotent(abbr);
}

/// The expansion of an ASCII abbreviation: its trimmed, ASCII upper-cased
/// form looked up as a state code.
pub open spec fn expanded_ascii_state(abbr: Seq<char>) -> Option<Seq<char>> {
    us_state_name(text::upper_ascii(text::trim(abbr)))
}

/// Letter case does not change the expansion of an ASCII abbreviation:
/// lower-cased, upper-cased or as given, it expands alike.
pub proof fn law_expansion_ignores_case(abbr: Seq<char>)
    requires
        text::is_ascii_text(abbr),
    ensures
        expanded_ascii_state(text::lower_ascii(abbr)) == expanded_ascii_state(abbr),
        expanded_ascii_state(text::upper_ascii(abbr)) == expanded_ascii_state(abbr),
{
    text::lemma_trim_lower(abbr);
    text::lemma_trim_upper(abbr);
    text::lemma_upper_after_case(text::trim(abbr));
}

fn state_name_of_exec(a: char, b: char) -> (res: Option<String>)
    ensures
        res matches Some(s) ==> state_name_of(a, b) == Some(s@),
        res is None ==> state_name_of(a, b) is None,
{
    if a == 'A' && b == 'L' {
        Some("Alabama".to_owned())
    } else if a == 'A' && b == 'K' {
        Some("Alaska".to_owned())
    } else if a == 'A' && b == 'Z' {
        Some("Arizona".to_owned())
    } else if a == 'A' && b == 'R' {
        Some("Arkansas".to_owned())
    } else if a == 'C' && b == 'A' {
        Some("California".to_owned())
    } else if a == 'C' && b == 'O' {
        Some("Colorado".to_owned())
    } else if a == 'C' && b == 'T' {
        Some("Connecticut".to_owned())
    } else if a == 'D' && b == 'E' {
        Some("Delaware".to_owned())
    } else if a == 'D' && b == 'C' {
        Some("District of Columbia".to_owned())
    } else if a == 'F' && b == 'L' {
        Some("Florida".to_owned())
    } else if a == 'G' && b == 'A' {
        Some("Georgia".to_owned())
    } else if a == 'H' && b == 'I' {
        Some("Hawaii".to_owned())
    } else if a == 'I' && b == 'D' {
        Some("Idaho".to_owned())
    } else if a == 'I' && b == 'L' {
        Some("Illinois".to_owned())
    } else if a == 'I' && b == 'N' {
        Some("Indiana".to_owned())
    } else if a == 'I' && b == 'A' {
        Some("Iowa".to_owned())
    } else if a == 'K' && b == 'S' {
        Some("Kansas".to_owned())
    } else if a == 'K' && b == 'Y' {
        Some("Kentucky".to_owned())
    } else if a == 'L' && b == 'A' {
        Some("Louisiana".to_owned())
    } else if a == 'M' && b == 'E' {
        Some("Maine".to_owned())
    } else if a == 'M' && b == 'D' {
        Some("Maryland".to_owned())
    } else if a == 'M' && b == 'A' {
        Some("Massachusetts".to_owned())
    } else if a == 'M' && b == 'I' {
        Some("Michigan".to_owned())
    } else if a == 'M' && b == 'N' {
        Some("Minnesota".to_owned())
    } else if a == 'M' && b == 'S' {
        Some("Mississippi".to_owned())
    } else if a == 'M' && b == 'O' {
        Some("Missouri".to_owned())
    } else if a == 'M' && b == 'T' {
        Some("Montana".to_owned())
    } else if a == 'N' && b == 'E' {
        Some("Nebraska".to_owned())
    } else if a == 'N' && b == 'V' {
        Some("Nevada".to_owned())
    } else if a == 'N' && b == 'H' {
        Some("New Hampshire".to_owned())
    } else if a == 'N' && b == 'J' {
        Some("New Jersey".to_owned())
    } else if a == 'N' && b == 'M' {
        Some("New Mexico".to_owned())
    } else if a == 'N' && b == 'Y' {
        Some("New York".to_owned())
    } else if a == 'N' && b == 'C' {
        Some("North Carolina".to_owned())
    } else if a == 'N' && b == 'D' {
        Some("North Dakota".to_owned())
    } else if a == 'O' && b == 'H' {
        Some("Ohio".to_owned())
    } else if a == 'O' && b == 'K' {
        Some("Oklahoma".to_owned())
    } else if a == 'O' && b == 'R' {
        Some("Oregon".to_owned())
    } else if a == 'P' && b == 'A' {
        Some("Pennsylvania".to_owned())
    } else if a == 'R' && b == 'I' {
        Some("Rhode Island".to_owned())
    } else if a == 'S' && b == 'C' {
        Some("South Carolina".to_owned())
    } else if a == 'S' && b == 'D' {
        Some("South Dakota".to_owned())
    } else if a == 'T' && b == 'N' {
        Some("Tennessee".to_owned())
    } else if a == 'T' && b == 'X' {
        Some("Texas".to_owned())
    } else if a == 'U' && b == 'T' {
        Some("Utah".to_owned())
    } else if a == 'V' && b == 'T' {
        Some("Vermont".to_owned())
    } else if a == 'V' && b == 'A' {
        Some("Virginia".to_owned())
    } else if a == 'W' && b == 'A' {
        Some("Washington".to_owned())
    } else if a == 'W' && b == 'V' {
        Some("West Virginia".to_owned())
    } else if a == 'W' && b == 'I' {
        Some("Wisconsin".to_owned())
    } else if a == 'W' && b == 'Y' {
        Some("Wyoming".to_owned())
    } else {
        None
    }
}

/// The full state name for an already trimmed and upper-cased code
/// (`"MA"` gives `"Massachusetts"`); `None` when it is no US state code.
pub fn state_name_for_code(code: &[char]) -> (res: Option<String>)
    ensures
        res matches Some(s) ==> us_state_name(code@) == Some(s@),
        res is None ==> us_state_name(code@) is None,
{
    if code.len() != 2 {
        return None;
    }
    state_name_of_exec(code[0], code[1])
}

/// Expands a US state two-letter abbreviation to its full name. Surrounding
/// whitespace and letter case are ignored; anything that is not a known code
/// (full state names included) gives `None`.
pub fn expand_us_state(abbr: &str) -> (res: Option<String>)
    ensures
        res matches Some(s) ==> expanded_state(abbr@) == Some(s@),
        res is None ==> expanded_state(abbr@) is None,
        text::is_ascii_text(abbr@) ==> expanded_state(abbr@) == expanded_ascii_state(abbr@),
{
    let chars = text::chars_of(abbr);
    expand_us_state_chars(chars.as_slice())
}

/// `expand_us_state` on the characters of the abbreviation.
pub fn expand_us_state_chars(abbr: &[char]) -> (res: Option<String>)
    ensures
        res matches Some(s) ==> expanded_state(abbr@) == Some(s@),
        res is None ==> expanded_state(abbr@) is None,
        text::is_ascii_text(abbr@) ==> expanded_state(abbr@) == expanded_ascii_state(abbr@),
{
    let trimmed = text::trim_chars(abbr);
    proof {
        if text::is_ascii_text(abbr@) {
            text::lemma_trim_keeps_ascii(abbr@);
        }
    }
    let upper = text::to_uppercase_chars(trimmed.as_slice());
    state_name_for_code(upper.as_slice())
}

} // verus!
