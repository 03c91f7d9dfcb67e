use outside::text::{hex_u64, join_chars, split_chars, trim_chars, words_of};

fn chars(s: &str) -> Vec<char> {
    s.chars().collect()
}

#[test]
fn joining_undoes_splitting() {
    for s in ["Boston, MA, US", "", ",", "a,,b,", "no separator"] {
        let parts = split_chars(&chars(s), ',');
        assert_eq!(parts.len(), s.split(',').count());
        assert_eq!(join_chars(&parts, &[',']), chars(s));
    }
}

#[test]
fn trimming_twice_is_trimming_once() {
    for s in ["  New York \t", "\u{3000}x\u{a0}", "   ", "plain"] {
        let once = trim_chars(&chars(s));
        assert_eq!(once, chars(s.trim()));
        assert_eq!(trim_chars(&once), once);
    }
}

#[test]
fn words_and_hex() {
    let w = words_of(&chars("  new   york "));
    assert_eq!(w, vec![chars("new"), chars("york")]);
    assert_eq!(hex_u64(0), chars("0"));
    assert_eq!(hex_u64(4096), chars("1000"));
    assert_eq!(hex_u64(0xabcdef), chars("abcdef"));
}
