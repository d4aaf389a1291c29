use executive::context::{decimal_text, AgentContextItemKind, AgentContextProjection, ContextFork};

#[test]
fn decimal_text_prints_numbers() {
    assert_eq!(decimal_text(0), "0");
    assert_eq!(decimal_text(7), "7");
    assert_eq!(decimal_text(10), "10");
    assert_eq!(decimal_text(12_345), "12345");
    assert_eq!(decimal_text(u64::MAX), u64::MAX.to_string());
}

#[test]
fn empty_fork_projects_nothing() {
    let projection = AgentContextProjection::from_fork(&ContextFork::Empty);
    assert!(projection.items.is_empty());
    assert_eq!(projection.omitted_count, 0);
}

#[test]
fn last_turns_fork_carries_the_count() {
    let projection = AgentContextProjection::from_fork(&ContextFork::LastTurns { count: 12 });
    assert_eq!(projection.items.len(), 1);
    let item = &projection.items[0];
    assert_eq!(item.kind, AgentContextItemKind::RecentTurns);
    assert_eq!(item.label, "requested_recent_turn_count");
    assert_eq!(item.content, "12");
}

#[test]
fn selected_items_are_labelled_from_one() {
    let fork = ContextFork::SelectedProjection {
        items: vec!["first".into(), "second".into()],
    };
    let projection = AgentContextProjection::from_fork(&fork);
    assert_eq!(projection.items.len(), 2);
    assert_eq!(projection.items[0].label, "selected_context_1");
    assert_eq!(projection.items[0].content, "first");
    assert_eq!(projection.items[1].label, "selected_context_2");
    assert_eq!(projection.items[1].kind, AgentContextItemKind::Selected);
    assert_eq!(projection.omitted_count, 0);
}
