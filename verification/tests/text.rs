use gnutbot::text::{
    has_prefix, is_blank, is_whitespace, join_words_from, lex_less, parse_u64, parse_usize,
    push_decimal, same_text, split_words, trim_leading,
};

#[test]
fn split_words_uses_unicode_whitespace() {
    let w = split_words("  ^quote\tadd\u{3000}hello  world \n");
    assert_eq!(w, vec!["^quote", "add", "hello", "world"]);
    assert!(split_words("").is_empty());
    assert!(split_words(" \t\n").is_empty());
}

#[test]
fn whitespace_set_matches_std() {
    for c in ['\t', '\n', '\u{b}', '\u{c}', '\r', ' ', '\u{85}', '\u{a0}', '\u{1680}', '\u{2000}', '\u{200a}', '\u{2028}', '\u{2029}', '\u{202f}', '\u{205f}', '\u{3000}', 'a', '^', '\u{200b}', '\u{180e}'] {
        assert_eq!(is_whitespace(c), c.is_whitespace(), "{:?}", c);
    }
}

#[test]
fn prefixes_and_equality() {
    assert!(has_prefix("^quote add", "^quote"));
    assert!(!has_prefix("^quo", "^quote"));
    assert!(has_prefix("x", ""));
    assert!(same_text("abc", "abc"));
    assert!(!same_text("abc", "abd"));
    assert!(!same_text("abc", "ab"));
    assert_eq!(trim_leading("^^^throw", '^'), "throw");
    assert_eq!(trim_leading("^", '^'), "");
    assert!(is_blank("  \t"));
    assert!(!is_blank(" a "));
}

#[test]
fn numbers_parse_like_from_str_radix() {
    assert_eq!(parse_u64("42"), Some(42));
    assert_eq!(parse_u64("+7"), Some(7));
    assert_eq!(parse_u64("007"), Some(7));
    assert_eq!(parse_u64(""), None);
    assert_eq!(parse_u64("+"), None);
    assert_eq!(parse_u64("-1"), None);
    assert_eq!(parse_u64("1a"), None);
    assert_eq!(parse_u64("18446744073709551615"), Some(u64::MAX));
    assert_eq!(parse_u64("18446744073709551616"), None);
    assert_eq!(parse_usize("12"), Some(12));
    for s in ["0", "+3", "-3", "", "99999999999999999999", "3x"] {
        assert_eq!(parse_u64(s), u64::from_str_radix(s, 10).ok(), "{:?}", s);
    }
}

#[test]
fn decimals_are_written_like_display() {
    for n in [0u64, 7, 10, 99, 1234567890, u64::MAX] {
        let mut s = String::from("#");
        push_decimal(&mut s, n);
        assert_eq!(s, format!("#{}", n));
    }
}

#[test]
fn string_order_matches_std() {
    let samples = ["", "a", "ab", "b", "en", "en-GB", "de", "é", "z"];
    for a in samples {
        for b in samples {
            assert_eq!(lex_less(a, b), a < b, "{:?} {:?}", a, b);
        }
    }
}

#[test]
fn words_join_with_trailing_spaces() {
    let w = split_words("^quote add a b");
    assert_eq!(join_words_from(&w, 2), "a b ");
    assert_eq!(join_words_from(&w, 4), "");
}
