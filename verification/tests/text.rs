use executive::text::{
    bound_text, escape, sanitize_reason, truncate, truncate_at_char_boundary, truncate_chars,
    truncate_utf8,
};

#[test]
fn truncate_utf8_safe() {
    let s = "hello world";
    assert_eq!(truncate_at_char_boundary(s, 5), "hello");
    assert_eq!(truncate_at_char_boundary(s, 50), s);
}

#[test]
fn truncate_multibyte_boundary() {
    let s = "hello\u{1f600}world";
    let result = truncate_at_char_boundary(s, 8);
    assert!(result.len() <= 8);
    assert!(result.starts_with("hello"));
}

#[test]
fn truncation_backs_off_to_the_character_start() {
    assert_eq!(truncate_at_char_boundary("hello\u{1f600}world", 8), "hello");
    assert_eq!(truncate_at_char_boundary("hello\u{1f600}world", 9), "hello\u{1f600}");
    assert_eq!(truncate_at_char_boundary("\u{e9}", 1), "");
    assert_eq!(truncate_utf8("caf\u{e9}", 4), "caf");
    assert_eq!(bound_text("abc", 0), "");
}

#[test]
fn character_truncation_counts_characters() {
    assert_eq!(truncate("h\u{e9}llo", 2), "h\u{e9}");
    assert_eq!(truncate("abc", 10), "abc");
    assert_eq!(truncate_chars("abcdef", 4), "abc\u{2026}");
    assert_eq!(truncate_chars("abc", 3), "abc");
    assert_eq!(truncate_chars("abc", 0), "");
}

#[test]
fn missing_reason_gets_the_default() {
    assert_eq!(sanitize_reason(None), "processor degraded without a public reason");
    assert_eq!(sanitize_reason(Some("timeout")), "timeout");
    let long = "x".repeat(2000);
    assert_eq!(sanitize_reason(Some(&long)).chars().count(), 1024);
}

#[test]
fn escape_replaces_markup_characters() {
    assert_eq!(escape("a<b>&c"), "a&lt;b&gt;&amp;c");
    assert_eq!(escape("plain"), "plain");
}

fn unescape(x: &str) -> String {
    x.replace("&gt;", ">").replace("&lt;", "<").replace("&amp;", "&")
}

#[test]
fn escaped_text_reads_back() {
    for value in ["plain", "<tag attr=\"x\">&amp;</tag>", "&lt;", "a&&b>>c<<", "&gt;&amp;lt;", ""] {
        let escaped = escape(value);
        assert!(!escaped.contains('<') && !escaped.contains('>'));
        assert_eq!(unescape(&escaped), value);
    }
}
