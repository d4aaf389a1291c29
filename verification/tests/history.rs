use executive::history::{
    bounded_text_history, build_request_messages, ContentBlock, Message, MessageRole,
    MAX_HISTORY_MESSAGE_CHARS,
};

fn text_of(message: &Message) -> &str {
    match &message.content[0] {
        ContentBlock::Text { text } => text,
        other => panic!("expected text block, got {other:?}"),
    }
}

#[test]
fn bounded_history_excludes_tool_result_blocks() {
    let history = vec![
        Message::system("large transient prefix".into()),
        Message::user("raw user".into()),
        Message::tool_result("call-1".into(), "tool output".into(), false),
        Message::assistant("raw assistant".into()),
    ];

    let bounded = bounded_text_history(&history);

    assert_eq!(bounded.len(), 3);
    assert_eq!(text_of(&bounded[0]), "large transient prefix");
    assert_eq!(text_of(&bounded[1]), "raw user");
    assert_eq!(text_of(&bounded[2]), "raw assistant");
}

#[test]
fn bounded_history_caps_restored_injected_payloads() {
    let huge = format!("<activated-skill>{}</activated-skill>", "x".repeat(200_000));
    let history = vec![Message::user(huge)];

    let bounded = bounded_text_history(&history);

    assert_eq!(bounded.len(), 1);
    assert!(text_of(&bounded[0]).chars().count() <= MAX_HISTORY_MESSAGE_CHARS);
}

#[test]
fn request_contains_system_prefix_and_user_message_with_full_history() {
    let history = vec![
        Message::system("old prefix that must not be replayed".into()),
        Message::user("raw prior user".into()),
        Message::assistant("raw prior assistant".into()),
    ];

    let messages = build_request_messages(
        "current prefix".into(),
        &history,
        "<activated-skill>ephemeral</activated-skill>\ncurrent raw user".into(),
    );

    assert_eq!(messages.len(), 5);
    assert_eq!(text_of(&messages[0]), "current prefix");
    assert_eq!(
        text_of(messages.last().unwrap()),
        "<activated-skill>ephemeral</activated-skill>\ncurrent raw user"
    );
    assert!(messages.iter().any(|m| text_of(m).contains("old prefix")));
}

#[test]
fn only_the_six_most_recent_messages_are_replayed() {
    let history: Vec<Message> = (0..9).map(|i| Message::user(format!("m{i}"))).collect();
    let bounded = bounded_text_history(&history);
    let texts: Vec<&str> = bounded.iter().map(text_of).collect();
    assert_eq!(texts, vec!["m3", "m4", "m5", "m6", "m7", "m8"]);
    assert!(bounded.iter().all(|m| m.role == MessageRole::User));
}

#[test]
fn the_total_budget_cuts_older_messages_first() {
    let big = "y".repeat(30_000);
    let history: Vec<Message> = (0..5).map(|_| Message::assistant(big.clone())).collect();
    let bounded = bounded_text_history(&history);
    // Each message keeps 16383 characters and an ellipsis; the fifth newest
    // gets what is left of the 64 KiB budget.
    assert_eq!(bounded.len(), 4);
    let counts: Vec<usize> = bounded.iter().map(|m| text_of(m).chars().count()).collect();
    assert_eq!(counts, vec![16_384, 16_384, 16_384, 16_384]);
}
