use ai_auditor::text::{chars_of, contains_str, count_char, push_decimal, trim_whitespace, truncate_chars};

#[test]
fn decimal_notation() {
    let mut s = String::from("n=");
    push_decimal(&mut s, 0);
    push_decimal(&mut s, 7);
    s.push(',');
    push_decimal(&mut s, 1204);
    assert_eq!(s, "n=07,1204");
}

#[test]
fn truncation_by_characters() {
    assert_eq!(truncate_chars("héllo", 2), "hé");
    assert_eq!(truncate_chars("hi", 5), "hi");
    assert_eq!(truncate_chars("", 0), "");
}

#[test]
fn trimming_unicode_white_space() {
    assert_eq!(trim_whitespace("\u{3000}\t a b \n\u{85}"), "a b");
    assert_eq!(trim_whitespace("   "), "");
    assert_eq!(trim_whitespace("x"), "x");
}

#[test]
fn counting_and_searching() {
    let v = chars_of("a{b{c}");
    assert_eq!(count_char(&v, '{'), 2);
    assert_eq!(count_char(&v, '}'), 1);
    assert!(contains_str(&v, "b{c"));
    assert!(!contains_str(&v, "cb"));
    assert!(contains_str(&v, ""));
    assert!(!contains_str(&chars_of("ab"), "abc"));
}
