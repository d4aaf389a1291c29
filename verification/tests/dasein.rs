use executive::dasein::contains_meaningful_term;

#[test]
fn terms_of_three_or_more_characters_match_case_insensitively() {
    assert!(contains_meaningful_term("we extracted the token module", "Token-rotation!"));
    assert!(contains_meaningful_term("{\"observation\":\"auth\"}", "fix AUTH"));
    assert!(!contains_meaningful_term("a b c", "to be or"));
    assert!(!contains_meaningful_term("nothing here", "xyz, qrs"));
}

#[test]
fn terms_are_whole_alphanumeric_runs() {
    // "abcd" is one term; its part "abc" alone does not count.
    assert!(!contains_meaningful_term("abc", "abcd"));
    assert!(contains_meaningful_term("xxabcdxx", "abcd"));
    assert!(contains_meaningful_term("caf\u{e9} time", "caf\u{e9}"));
    assert!(!contains_meaningful_term("anything", ""));
}
