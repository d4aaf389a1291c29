use executive::agent_control::VisibilityScope;
use executive::broadcast_view::{
    content_schema, processor_broadcast_view, workspace_schema, BroadcastCandidate, WorkspaceContentKind,
};

fn candidate(id: u128, visibility: VisibilityScope, kind: WorkspaceContentKind) -> BroadcastCandidate {
    BroadcastCandidate { id, visibility, kind }
}

fn selection() -> Vec<BroadcastCandidate> {
    vec![
        candidate(1, VisibilityScope::Session, WorkspaceContentKind::Observation),
        candidate(2, VisibilityScope::PrivateProcess { process: 10 }, WorkspaceContentKind::Goal),
        candidate(3, VisibilityScope::PrivateProcess { process: 11 }, WorkspaceContentKind::Goal),
        candidate(4, VisibilityScope::AgentTree { root: 100 }, WorkspaceContentKind::Plan),
        candidate(5, VisibilityScope::AgentTree { root: 200 }, WorkspaceContentKind::Plan),
    ]
}

fn schemas(names: &[&str]) -> Vec<String> {
    names.iter().map(|n| n.to_string()).collect()
}

#[test]
fn processor_sees_visible_subscribed_candidates_only() {
    let view = processor_broadcast_view(
        &selection(),
        &vec![5, 4, 1, 2],
        &vec![2, 9, 4],
        10,
        100,
        &schemas(&["aletheon.workspace.goal/v1", "aletheon.workspace.plan/v1"]),
    )
    .unwrap();
    assert_eq!(view.selected_ids, vec![2, 4]);
    assert_eq!(view.selected.len(), 2);
    assert_eq!(view.selected[1].kind, WorkspaceContentKind::Plan);
    assert_eq!(view.evaluated_positions, vec![1, 3]);
    assert_eq!(view.rejected_below_ignition, vec![2, 4]);
}

#[test]
fn the_any_schema_subscribes_to_every_content() {
    let view = processor_broadcast_view(
        &selection(),
        &vec![],
        &vec![],
        10,
        100,
        &schemas(&["aletheon.workspace.any/v1"]),
    )
    .unwrap();
    assert_eq!(view.selected_ids, vec![1, 2, 4]);
    assert!(view.evaluated_positions.is_empty());
}

#[test]
fn nothing_shown_gives_no_view() {
    assert!(processor_broadcast_view(&selection(), &vec![1], &vec![1], 10, 100, &Vec::new()).is_none());
    assert!(processor_broadcast_view(
        &selection(),
        &vec![],
        &vec![],
        99,
        999,
        &schemas(&["aletheon.workspace.goal/v1"])
    )
    .is_none());
}

#[test]
fn content_kinds_name_their_schemas() {
    assert_eq!(
        workspace_schema(WorkspaceContentKind::ActionProposal),
        "aletheon.workspace.action-proposal/v1"
    );
    assert_eq!(
        workspace_schema(WorkspaceContentKind::GovernedActionOutcome),
        "aletheon.workspace.governed-action-outcome/v1"
    );
    assert_eq!(workspace_schema(WorkspaceContentKind::Extension), "aletheon.workspace.extension/v1");
}

#[test]
fn the_inspector_reports_short_schemas() {
    assert_eq!(content_schema(WorkspaceContentKind::PredictionError, "ignored"), "prediction_error/v1");
    assert_eq!(content_schema(WorkspaceContentKind::Extension, "vendor.custom/v2"), "vendor.custom/v2");
}
