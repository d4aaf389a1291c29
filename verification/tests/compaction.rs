use executive::compaction::{normalize_tool_pairs, safe_tool_tail_cut, ItemPayload};

#[test]
fn paired_tool_calls_are_preserved() {
    let items = vec![
        ItemPayload::ToolCall {
            call_id: "c1".into(),
            name: "bash".into(),
            input: "null".into(),
        },
        ItemPayload::ToolResult {
            call_id: "c1".into(),
            content: "output".into(),
            is_error: false,
            permit_id: None,
            audit_id: None,
        },
    ];
    let result = normalize_tool_pairs(items);
    assert_eq!(result.orphan_results, 0);
    assert_eq!(result.items.len(), 2);
}

#[test]
fn orphan_result_is_wrapped() {
    let items = vec![ItemPayload::ToolResult {
        call_id: "orphan".into(),
        content: "lost output".into(),
        is_error: false,
        permit_id: None,
        audit_id: None,
    }];
    let result = normalize_tool_pairs(items);
    assert_eq!(result.orphan_results, 1);
    assert!(matches!(result.items[0], ItemPayload::SystemNotice { .. }));
}

#[test]
fn mixed_paired_and_orphan() {
    let items = vec![
        ItemPayload::ToolCall {
            call_id: "c1".into(),
            name: "bash".into(),
            input: "null".into(),
        },
        ItemPayload::ToolResult {
            call_id: "c1".into(),
            content: "good".into(),
            is_error: false,
            permit_id: None,
            audit_id: None,
        },
        ItemPayload::ToolResult {
            call_id: "orphan".into(),
            content: "bad".into(),
            is_error: true,
            permit_id: None,
            audit_id: None,
        },
    ];
    let result = normalize_tool_pairs(items);
    assert_eq!(result.orphan_results, 1);
    assert_eq!(result.items.len(), 3);
}

#[test]
fn orphan_notice_records_the_result() {
    let items = vec![
        ItemPayload::UserMessage { content: "hi".into() },
        ItemPayload::ToolResult {
            call_id: "x9".into(),
            content: "bad".into(),
            is_error: true,
            permit_id: None,
            audit_id: None,
        },
    ];
    let result = normalize_tool_pairs(items);
    match &result.items[1] {
        ItemPayload::SystemNotice { content } => {
            assert_eq!(content, "Orphan tool result (call_id=x9, is_error=true): bad");
        }
        other => panic!("expected a notice, got {other:?}"),
    }
    assert!(matches!(&result.items[0], ItemPayload::UserMessage { content } if content == "hi"));
}

#[test]
fn a_call_after_its_result_still_pairs_it() {
    let items = vec![
        ItemPayload::ToolResult {
            call_id: "c1".into(),
            content: "early".into(),
            is_error: false,
            permit_id: None,
            audit_id: None,
        },
        ItemPayload::ToolCall {
            call_id: "c1".into(),
            name: "bash".into(),
            input: "{}".into(),
        },
    ];
    let result = normalize_tool_pairs(items);
    assert_eq!(result.orphan_results, 0);
}

#[test]
fn tail_cut_keeps_the_requested_boundary() {
    let items = vec![ItemPayload::UserMessage { content: "a".into() }];
    assert_eq!(safe_tool_tail_cut(&items, 1), 1);
    assert_eq!(safe_tool_tail_cut(&items, 0), 0);
}
