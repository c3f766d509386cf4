use scrappy::text::{contains_text, decimal_text};

#[test]
fn numbers_are_written_in_decimal() {
    assert_eq!(decimal_text(0), "0");
    assert_eq!(decimal_text(9), "9");
    assert_eq!(decimal_text(10), "10");
    assert_eq!(decimal_text(255), "255");
}

#[test]
fn parts_are_found() {
    assert!(contains_text("abc", "bc"));
    assert!(contains_text("abc", ""));
    assert!(contains_text("", ""));
    assert!(contains_text("\u{44F}x\u{44F}", "x\u{44F}"));
    assert!(!contains_text("abc", "ac"));
    assert!(!contains_text("ab", "abc"));
    assert!(contains_text("aab", "ab"));
}
