use executive::context_assembly::{append_fragment, assemble_context, blank, MAX_INJECTED_CHARS};
use executive::history::{ContentBlock, Message, MessageRole};

fn text_of(message: &Message) -> &str {
    match &message.content[0] {
        ContentBlock::Text { text } => text,
        other => panic!("expected text block, got {other:?}"),
    }
}

#[test]
fn blank_values_are_white_space_only() {
    assert!(blank(""));
    assert!(blank(" \t\n\u{3000}\u{a0}"));
    assert!(!blank("  x "));
}

#[test]
fn fragments_are_tagged_and_bounded() {
    let mut out = String::new();
    let mut remaining = 4;
    append_fragment(&mut out, "skills", "abcdef", &mut remaining);
    assert_eq!(out, "<skills>\nabcd\n</skills>\n");
    assert_eq!(remaining, 0);
    append_fragment(&mut out, "more", "zzz", &mut remaining);
    assert_eq!(out, "<skills>\nabcd\n</skills>\n");

    let mut empty = String::new();
    let mut plenty = MAX_INJECTED_CHARS;
    append_fragment(&mut empty, "skills", "   ", &mut plenty);
    assert_eq!(empty, "");
    assert_eq!(plenty, MAX_INJECTED_CHARS);
}

#[test]
fn assembled_context_injects_fragments_before_the_input() {
    let history = vec![Message::user("earlier".into())];
    let assembled = assemble_context("prefix", Some("{\"self\":1}"), "skill body", "hello", &history);
    assert_eq!(
        assembled.effective_user_message,
        "<conscious-context>\n{\"self\":1}\n</conscious-context>\n<skills>\nskill body\n</skills>\n\nhello"
    );
    assert_eq!(assembled.messages.len(), 3);
    assert_eq!(assembled.messages[0].role, MessageRole::System);
    assert_eq!(text_of(&assembled.messages[0]), "prefix");
    assert_eq!(text_of(&assembled.messages[1]), "earlier");
    assert_eq!(text_of(&assembled.messages[2]), assembled.effective_user_message);
}

#[test]
fn without_fragments_the_input_is_sent_as_is() {
    let assembled = assemble_context("p", None, "", "just this", &[]);
    assert_eq!(assembled.effective_user_message, "just this");
    assert_eq!(assembled.messages.len(), 2);
}
