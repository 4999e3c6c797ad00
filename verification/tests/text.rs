use poker_server::text::{
    char_count, decimal_string, equals_ignore_ascii_case, is_whitespace, trim_str,
};

#[test]
fn trims_unicode_whitespace_like_std() {
    for s in ["", "   ", "a", " a ", "\t\n a b \r", "\u{3000}x\u{2029}", "\u{85}é\u{a0}", "a\u{200b}"] {
        assert_eq!(trim_str(s), s.trim());
    }
    for c in ['\u{0}', ' ', '\u{1680}', '\u{2007}', '\u{200b}', '\u{feff}', 'x', '\u{205f}'] {
        assert_eq!(is_whitespace(c), c.is_whitespace());
    }
}

#[test]
fn renders_decimal_like_to_string() {
    for n in [0u64, 7, 9, 10, 99, 100, 12345, u64::MAX] {
        assert_eq!(decimal_string(n), n.to_string());
    }
}

#[test]
fn counts_characters_and_folds_ascii_case() {
    assert_eq!(char_count("東京 b"), 4);
    assert!(equals_ignore_ascii_case("TRUE", "true"));
    assert!(equals_ignore_ascii_case("", ""));
    assert!(!equals_ignore_ascii_case("truE", "tru"));
    assert!(!equals_ignore_ascii_case("É", "é"));
}
