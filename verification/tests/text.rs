use tjipe_showcase::text::{
    chars_of, contains_text, decimal_text, is_blank, is_whitespace, same_text, text_of, to_lowercase, trim,
};

#[test]
fn white_space_is_that_of_char() {
    for c in '\0'..=char::MAX {
        assert_eq!(is_whitespace(c), c.is_whitespace(), "{:?}", c);
    }
}

#[test]
fn trim_removes_outer_white_space_only() {
    for sample in ["", " ", "a", "  a b\t", "\u{3000}成果\u{a0}", "\u{200b}x", "\n\r\n", "x \u{2028}"] {
        assert_eq!(trim(sample), sample.trim());
    }
    assert_eq!(trim(&trim("  a b ")), "a b");
    assert!(is_blank(" \u{3000}\t"));
    assert!(!is_blank(" x "));
}

#[test]
fn lower_case_is_ascii_only() {
    assert_eq!(to_lowercase("MP4 ÄÖ É成果Z"), "mp4 ÄÖ É成果z");
    for c in '\0'..='\u{ff}' {
        assert_eq!(to_lowercase(&c.to_string()), c.to_string().to_ascii_lowercase());
    }
}

#[test]
fn decimal_writes_numbers() {
    for n in [0, 1, 9, 10, 11, 99, 100, 1_700_000_000, u64::MAX] {
        assert_eq!(decimal_text(n), n.to_string());
    }
}

#[test]
fn characters_and_back() {
    let chars = chars_of("a成果b");
    assert_eq!(chars, vec!['a', '成', '果', 'b']);
    assert_eq!(text_of(&chars, 1, 3), "成果");
    assert_eq!(text_of(&chars, 2, 2), "");
}

#[test]
fn texts_are_compared() {
    assert!(same_text("成果", "成果"));
    assert!(!same_text("a", "A"));
    let list = vec!["a".to_string(), "b".to_string()];
    assert!(contains_text(&list, "b"));
    assert!(!contains_text(&list, "c"));
}
