use buzz_acp::text::{decimal_text, is_white, same_text, trim};

#[test]
fn white_space_is_that_of_unicode() {
    for n in 0..=0x10ffffu32 {
        if let Some(c) = char::from_u32(n) {
            assert_eq!(is_white(c), c.is_whitespace(), "{n:x}");
        }
    }
}

#[test]
fn trimming_takes_both_ends() {
    for s in ["", " ", "a", " a", "a ", " \u{3000}a b\n\t", "\u{a0}", "é ", "\u{200b}x"] {
        assert_eq!(trim(s), s.trim());
        assert_eq!(trim(trim(s)), trim(s));
    }
}

#[test]
fn numbers_are_decimal() {
    assert_eq!(decimal_text(0), "0");
    assert_eq!(decimal_text(9), "9");
    assert_eq!(decimal_text(10), "10");
    assert_eq!(decimal_text(1234567890), "1234567890");
    assert_eq!(decimal_text(u128::MAX), u128::MAX.to_string());
}

#[test]
fn texts_are_compared_whole() {
    assert!(same_text("", ""));
    assert!(same_text("think", "think"));
    assert!(!same_text("think", "thin"));
    assert!(!same_text("say", "sax"));
    assert!(!same_text("é", "e\u{301}"));
}
