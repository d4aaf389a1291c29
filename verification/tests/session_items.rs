use executive::compaction::ItemPayload;
use executive::history::{ContentBlock, MessageRole};
use executive::session_items::{
    check_fork_link, inherit_items, FORK_ITEM_NAMESPACE, item_visibility, project_messages, validate_item, validate_session, EventVisibility,
    ItemRecord, LegacyJournalProjector, SessionEvent, SessionItemError,
};

const SCHEMA: u32 = 1;

fn record(sequence: u64, payload: ItemPayload) -> ItemRecord {
    ItemRecord {
        schema_version: SCHEMA,
        id: format!("item-{sequence}"),
        session_id: "s".into(),
        turn_id: "turn-1".into(),
        sequence,
        created_at_ms: 0,
        payload,
    }
}

#[test]
fn projection_hides_orphan_tool_result() {
    let item = record(
        1,
        ItemPayload::ToolResult {
            call_id: "missing".into(),
            content: "output".into(),
            is_error: false,
            permit_id: None,
            audit_id: None,
        },
    );
    let messages = project_messages(vec![item]).unwrap();
    assert_eq!(messages.len(), 1);
    assert_eq!(messages[0].role, MessageRole::System);
}

#[test]
fn user_and_assistant_events_project_only_to_history_items() {
    let user = LegacyJournalProjector::project(
        &SessionEvent::UserMessage { content: "u".into() },
        "item-1".into(),
        "s".into(),
        "turn-1".into(),
        1,
        1,
        SCHEMA,
    )
    .unwrap();
    let assistant = LegacyJournalProjector::project(
        &SessionEvent::AssistantMessage { content: "a".into() },
        "item-2".into(),
        "s".into(),
        "turn-1".into(),
        2,
        2,
        SCHEMA,
    )
    .unwrap();
    assert!(matches!(user.payload, ItemPayload::UserMessage { .. }));
    assert!(matches!(assistant.payload, ItemPayload::AssistantMessage { .. }));
}

#[test]
fn journal_tool_events_become_calls_and_results() {
    let call = LegacyJournalProjector::project(
        &SessionEvent::ToolCallStarted {
            tool_call_id: "c1".into(),
            tool_name: "bash".into(),
            input: "{\"command\":\"true\"}".into(),
        },
        "item-1".into(),
        "s".into(),
        "turn-1".into(),
        7,
        9,
        SCHEMA,
    )
    .unwrap();
    assert_eq!(call.sequence, 7);
    assert_eq!(call.created_at_ms, 9);
    match call.payload {
        ItemPayload::ToolCall { call_id, name, input } => {
            assert_eq!(call_id, "c1");
            assert_eq!(name, "bash");
            assert_eq!(input, "{\"command\":\"true\"}");
        }
        other => panic!("unexpected payload {other:?}"),
    }
    let result = LegacyJournalProjector::project(
        &SessionEvent::ToolCallCompleted {
            tool_call_id: "c1".into(),
            is_error: true,
            content: "boom".into(),
            elapsed_ms: 3,
        },
        "item-2".into(),
        "s".into(),
        "turn-1".into(),
        8,
        10,
        SCHEMA,
    )
    .unwrap();
    assert!(matches!(
        result.payload,
        ItemPayload::ToolResult { ref call_id, is_error: true, permit_id: None, audit_id: None, .. }
            if call_id == "c1"
    ));
}

#[test]
fn non_history_journal_events_are_skipped() {
    for event in [
        SessionEvent::SessionCreated { session_id: "s".into() },
        SessionEvent::CheckpointBoundary { iteration: 2 },
        SessionEvent::Compacted { before_count: 4, after_count: 2 },
        SessionEvent::Summary { text: "sum".into() },
        SessionEvent::SessionEnded { reason: "done".into() },
    ] {
        let projected = LegacyJournalProjector::project(
            &event,
            "item".into(),
            "s".into(),
            "turn".into(),
            1,
            1,
            SCHEMA,
        );
        assert!(projected.is_none());
    }
}

#[test]
fn paired_tool_traffic_is_shown_and_projections_are_not() {
    let items = vec![
        record(1, ItemPayload::UserMessage { content: "hi".into() }),
        record(
            2,
            ItemPayload::ToolCall { call_id: "c1".into(), name: "read".into(), input: "{}".into() },
        ),
        record(
            3,
            ItemPayload::ToolResult {
                call_id: "c1".into(),
                content: "ok".into(),
                is_error: false,
                permit_id: None,
                audit_id: None,
            },
        ),
        record(
            4,
            ItemPayload::ContextProjection {
                space: "workspace".into(),
                broadcast_epoch: Some(7),
                workspace_version: Some(3),
                dasein_version: 4,
                content_ids: vec!["fragment-1".into()],
            },
        ),
        record(5, ItemPayload::SystemNotice { content: "note".into() }),
    ];
    let messages = project_messages(items).unwrap();
    assert_eq!(messages.len(), 4);
    assert_eq!(messages[0].role, MessageRole::User);
    assert_eq!(messages[1].role, MessageRole::Assistant);
    assert!(matches!(&messages[1].content[0], ContentBlock::ToolUse { id, .. } if id == "c1"));
    assert_eq!(messages[2].role, MessageRole::Tool);
    assert!(matches!(
        &messages[2].content[0],
        ContentBlock::ToolResult { tool_use_id, content, is_error: false } if tool_use_id == "c1" && content == "ok"
    ));
    assert_eq!(messages[3].role, MessageRole::System);
}

#[test]
fn out_of_order_items_are_refused() {
    let items = vec![
        record(1, ItemPayload::UserMessage { content: "a".into() }),
        record(3, ItemPayload::UserMessage { content: "b".into() }),
        record(3, ItemPayload::UserMessage { content: "c".into() }),
    ];
    let error = project_messages(items).unwrap_err();
    assert_eq!(error, SessionItemError::OutOfOrder { sequence: 3 });
    assert_eq!(error.message(), "items are duplicate or out of order at sequence 3");
    let zero = project_messages(vec![record(0, ItemPayload::UserMessage { content: "a".into() })]);
    assert_eq!(zero.unwrap_err(), SessionItemError::OutOfOrder { sequence: 0 });
    assert!(project_messages(Vec::new()).unwrap().is_empty());
}

#[test]
fn appends_check_schema_session_and_sequence() {
    let item = record(2, ItemPayload::UserMessage { content: "a".into() });
    assert_eq!(validate_item(&"s".to_string(), 2, &item, SCHEMA), Ok(()));
    let error = validate_item(&"s".to_string(), 2, &item, SCHEMA + 1).unwrap_err();
    assert_eq!(error, SessionItemError::UnsupportedItemSchema { version: SCHEMA });
    assert_eq!(error.message(), "unsupported item schema version 1");
    let error = validate_item(&"other".to_string(), 2, &item, SCHEMA).unwrap_err();
    assert_eq!(error, SessionItemError::SessionMismatch);
    assert_eq!(error.message(), "item session does not match append target");
    let error = validate_item(&"s".to_string(), 5, &item, SCHEMA).unwrap_err();
    assert_eq!(error, SessionItemError::SequenceMismatch { sequence: 2, expected: 5 });
    assert_eq!(error.message(), "item sequence 2 does not match expected 5");
}

#[test]
fn sessions_need_the_supported_schema() {
    assert_eq!(validate_session(SCHEMA, SCHEMA), Ok(()));
    let error = validate_session(42, SCHEMA).unwrap_err();
    assert_eq!(error, SessionItemError::UnsupportedSessionSchema { version: 42 });
    assert_eq!(error.message(), "unsupported session schema version 42");
}

#[test]
fn notices_and_projections_are_control_events() {
    assert_eq!(
        item_visibility(&ItemPayload::UserMessage { content: "a".into() }),
        EventVisibility::ModelVisible
    );
    assert_eq!(
        item_visibility(&ItemPayload::SystemNotice { content: "n".into() }),
        EventVisibility::Control
    );
    assert_eq!(
        item_visibility(&ItemPayload::ContextProjection {
            space: "w".into(),
            broadcast_epoch: None,
            workspace_version: None,
            dasein_version: 0,
            content_ids: vec![],
        }),
        EventVisibility::Control
    );
}

#[test]
fn forks_inherit_items_through_the_fork_point() {
    let parent = vec![
        record(1, ItemPayload::UserMessage { content: "a".into() }),
        record(2, ItemPayload::AssistantMessage { content: "b".into() }),
        record(3, ItemPayload::UserMessage { content: "c".into() }),
    ];
    let inherited = inherit_items(parent, 2, &"child".to_string()).unwrap();
    assert_eq!(inherited.len(), 2);
    let namespace = uuid::Uuid::from_u128(FORK_ITEM_NAMESPACE);
    for (item, sequence) in inherited.iter().zip([1u64, 2]) {
        assert_eq!(item.sequence, sequence);
        assert_eq!(item.session_id, "child");
        assert_eq!(item.turn_id, "turn-1");
        let expected = uuid::Uuid::new_v5(&namespace, format!("child:item-{sequence}").as_bytes());
        assert_eq!(item.id, expected.to_string());
    }
    assert!(matches!(&inherited[1].payload, ItemPayload::AssistantMessage { content } if content == "b"));
}

#[test]
fn forks_need_the_parent_to_reach_the_fork_point() {
    let parent = vec![record(1, ItemPayload::UserMessage { content: "a".into() })];
    let error = inherit_items(parent.clone(), 2, &"child".to_string()).unwrap_err();
    assert_eq!(error, SessionItemError::MissingParentSequence { sequence: 2 });
    assert_eq!(error.message(), "parent sequence 2 does not exist");
    assert!(inherit_items(Vec::new(), 0, &"child".to_string()).unwrap().is_empty());
    assert_eq!(
        inherit_items(Vec::new(), 1, &"child".to_string()).unwrap_err(),
        SessionItemError::MissingParentSequence { sequence: 1 }
    );
    assert!(inherit_items(parent, 0, &"child".to_string()).unwrap().is_empty());
}

#[test]
fn fork_links_must_match_the_request() {
    let parent = "p".to_string();
    assert_eq!(check_fork_link(&parent, 3, &Some(("p".into(), 3))), Ok(()));
    let missing = check_fork_link(&parent, 3, &None).unwrap_err();
    assert_eq!(missing, SessionItemError::ForkMissingParent);
    assert_eq!(missing.message(), "fork child missing parent metadata");
    let mismatch = check_fork_link(&parent, 3, &Some(("q".into(), 3))).unwrap_err();
    assert_eq!(mismatch, SessionItemError::ForkMismatch);
    assert_eq!(mismatch.message(), "fork metadata does not match request");
    assert_eq!(
        check_fork_link(&parent, 3, &Some(("p".into(), 4))),
        Err(SessionItemError::ForkMismatch)
    );
}
