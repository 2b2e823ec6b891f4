use token_rotation::text::same_text;

#[test]
fn same_text_holds_of_equal_strings() {
    assert!(same_text("", ""));
    assert!(same_text("a", "a"));
    assert!(same_text("10.0.0.1:8080", "10.0.0.1:8080"));
    let owned = String::from("proxy");
    assert!(same_text(&owned, "proxy"));
}

#[test]
fn same_text_fails_on_any_difference() {
    assert!(!same_text("", "a"));
    assert!(!same_text("a", ""));
    assert!(!same_text("abc", "abd"));
    assert!(!same_text("abc", "xbc"));
    assert!(!same_text("abc", "abcd"));
    assert!(!same_text("abc", "ABC"));
    assert!(!same_text("a b", "a  b"));
}

#[test]
fn same_text_compares_characters_outside_ascii() {
    assert!(same_text("naïve", "naïve"));
    assert!(!same_text("naïve", "naive"));
    assert!(same_text("日本語", "日本語"));
    assert!(!same_text("日本語", "日本"));
    // One character, or a letter followed by a combining mark: not the same text.
    assert!(!same_text("\u{e9}", "e\u{301}"));
}
