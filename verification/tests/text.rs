use seam_explorer::text::{decimal_text, is_whitespace, same_text, split_words, text_contains, trim_text};

#[test]
fn is_whitespace_agrees_with_std_on_every_char() {
    for code in 0u32..=0x10FFFF {
        if let Some(c) = char::from_u32(code) {
            assert_eq!(is_whitespace(c), c.is_whitespace(), "U+{code:04X}");
        }
    }
}

#[test]
fn trim_and_split_agree_with_std() {
    for s in ["", "   ", " a ", "\u{3000}x y\u{2028}", "code -g", "\t subl  -n \n", "a\u{00A0}b", "é  ü"] {
        assert_eq!(trim_text(s), s.trim(), "{s:?}");
        let words: Vec<String> = s.split_whitespace().map(str::to_string).collect();
        assert_eq!(split_words(s), words, "{s:?}");
    }
}

#[test]
fn decimal_and_search_helpers() {
    assert_eq!(decimal_text(0), "0");
    assert_eq!(decimal_text(356), "356");
    assert_eq!(decimal_text(u128::MAX), u128::MAX.to_string());
    assert!(same_text("abc", "abc"));
    assert!(!same_text("abc", "abd"));
    assert!(text_contains("PaymentService", "ment"));
    assert!(text_contains("abc", ""));
    assert!(!text_contains("ab", "abc"));
}
