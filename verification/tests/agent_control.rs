use executive::agent_control::{
    reject_terminal_target, root_identity, root_workspace, tally_recovery, AgentRecoveryDecision,
    agent_lifecycle_hook_context,
    cancellation_subtree,
    authorize_message_sender, authorize_run, can_observe_broadcast, check_external_parent,
    check_parent_pair, check_parent_run, storage_for_runtime, AgentLink, BroadcastRef,
    VisibilityScope,
};
use executive::agent_admission::AgentStorageRequest;
use executive::agent_status::AgentRunStatus;
use executive::control_error::AgentControlErrorKind;

fn link(agent: u128, parent: Option<u128>, status: AgentRunStatus) -> AgentLink {
    AgentLink {
        agent_id: agent,
        root_agent_id: 1,
        parent_agent_id: parent,
        process_id: 100 + agent,
        root_process_id: 101,
        status,
    }
}

#[test]
fn runs_of_other_roots_are_forbidden() {
    let run = link(2, Some(1), AgentRunStatus::Running);
    assert_eq!(authorize_run(1, Some(run)).unwrap(), run);
    let err = authorize_run(9, Some(run)).unwrap_err();
    assert_eq!(err.kind, AgentControlErrorKind::Forbidden);
    assert_eq!(authorize_run(1, None).unwrap_err().kind, AgentControlErrorKind::NotFound);
}

#[test]
fn only_adjacent_or_routed_agents_may_message() {
    let target = link(3, Some(2), AgentRunStatus::Running);
    let parent = link(2, Some(1), AgentRunStatus::Running);
    let child = link(4, Some(3), AgentRunStatus::Waiting);
    let sibling = link(5, Some(2), AgentRunStatus::Running);
    let cousin = link(6, Some(7), AgentRunStatus::Running);

    assert_eq!(authorize_message_sender(None, 1, &target, None, false).unwrap(), 1);
    assert_eq!(authorize_message_sender(Some(1), 1, &target, None, false).unwrap(), 1);
    assert_eq!(authorize_message_sender(Some(2), 1, &target, Some(parent), false).unwrap(), 2);
    assert_eq!(authorize_message_sender(Some(4), 1, &target, Some(child), false).unwrap(), 4);
    assert_eq!(authorize_message_sender(Some(5), 1, &target, Some(sibling), true).unwrap(), 5);
    let err = authorize_message_sender(Some(5), 1, &target, Some(sibling), false).unwrap_err();
    assert_eq!(
        err.message,
        "sibling or non-adjacent Agent messaging requires explicit parent policy"
    );
    assert!(authorize_message_sender(Some(6), 1, &target, Some(cousin), true).is_err());
    let gone = link(5, Some(2), AgentRunStatus::Succeeded);
    assert_eq!(
        authorize_message_sender(Some(5), 1, &target, Some(gone), true).unwrap_err().message,
        "message sender is outside the live Agent tree"
    );
    assert_eq!(
        authorize_message_sender(Some(8), 1, &target, None, true).unwrap_err().kind,
        AgentControlErrorKind::NotFound
    );
}

#[test]
fn spawn_parents_are_checked() {
    assert!(check_parent_pair(None, None).is_ok());
    assert!(check_parent_pair(Some(1), Some(2)).is_ok());
    assert_eq!(
        check_parent_pair(Some(1), None).unwrap_err().kind,
        AgentControlErrorKind::InvalidRequest
    );
    let parent = link(2, Some(1), AgentRunStatus::Running);
    assert!(check_parent_run(1, 102, &parent).is_ok());
    assert!(check_parent_run(1, 999, &parent).is_err());
    assert!(check_parent_run(1, 102, &link(2, Some(1), AgentRunStatus::Failed)).is_err());
    assert!(check_external_parent(1, 1, 1, false).is_ok());
    assert!(check_external_parent(1, 2, 1, false).is_err());
    assert!(check_external_parent(1, 1, 1, true).is_err());
}

#[test]
fn broadcasts_are_observable_only_when_referenced_and_visible() {
    let run = link(3, Some(2), AgentRunStatus::Running);
    let refs = vec![BroadcastRef {
        space: "s".into(),
        epoch: 4,
        content_id: 77,
    }];
    assert!(can_observe_broadcast(&run, &refs, 4, "s", 77, VisibilityScope::Session, true));
    assert!(!can_observe_broadcast(&run, &refs, 5, "s", 77, VisibilityScope::Session, true));
    assert!(!can_observe_broadcast(&run, &refs, 4, "s", 77, VisibilityScope::Session, false));
    assert!(can_observe_broadcast(
        &run,
        &refs,
        4,
        "s",
        77,
        VisibilityScope::PrivateProcess { process: 103 },
        true
    ));
    assert!(!can_observe_broadcast(
        &run,
        &refs,
        4,
        "s",
        77,
        VisibilityScope::AgentTree { root: 5 },
        true
    ));
}

#[test]
fn pi_runtimes_reserve_storage() {
    assert_eq!(
        storage_for_runtime("pi-coder"),
        AgentStorageRequest {
            bytes: 1024 * 1024 * 1024,
            items: 1
        }
    );
    assert_eq!(storage_for_runtime("native"), AgentStorageRequest::default());
}

use executive::agent_control::{authorize_broadcast, SiblingRoutes};

#[test]
fn permitted_sibling_routes_admit_messages() {
    let parent = link(2, Some(1), AgentRunStatus::Running);
    let from = link(5, Some(2), AgentRunStatus::Running);
    let to = link(3, Some(2), AgentRunStatus::Waiting);
    let mut routes = SiblingRoutes::new();
    assert!(!routes.contains(2, 5, 3));
    routes.permit(&parent, &from, &to).unwrap();
    assert!(routes.contains(2, 5, 3));
    assert!(!routes.contains(2, 3, 5));
    let allowed = routes.contains(2, 5, 3);
    assert_eq!(authorize_message_sender(Some(5), 1, &to, Some(from), allowed).unwrap(), 5);

    let stranger = link(9, Some(8), AgentRunStatus::Running);
    let err = routes.permit(&parent, &stranger, &to).unwrap_err();
    assert_eq!(err.message, "sibling route does not match one live parent topology");
}

#[test]
fn broadcasts_need_a_valid_candidate_and_a_bound_workspace() {
    let run = link(3, Some(2), AgentRunStatus::Running);
    let refs = vec![BroadcastRef {
        space: "s".into(),
        epoch: 1,
        content_id: 9,
    }];
    assert!(authorize_broadcast(&run, &refs, true, 1, "s", 9, VisibilityScope::Session, None).is_ok());
    let unbound =
        authorize_broadcast(&run, &refs, false, 1, "s", 9, VisibilityScope::Session, None).unwrap_err();
    assert_eq!(unbound.kind, AgentControlErrorKind::Forbidden);
    let invalid = authorize_broadcast(
        &run,
        &refs,
        true,
        1,
        "s",
        9,
        VisibilityScope::Session,
        Some("candidate has no content".into()),
    )
    .unwrap_err();
    assert_eq!(invalid.kind, AgentControlErrorKind::InvalidRequest);
    assert_eq!(invalid.message, "candidate has no content");
}

use executive::agent_control::{
    lease_owner, settlement_lease_keys, terminal_plan, transfers_budget_to_parent, RuntimeOutcome,
};
use executive::supervision::ExitReason;

#[test]
fn runtime_outcomes_map_to_terminal_plans() {
    let done = terminal_plan(RuntimeOutcome::Completed);
    assert_eq!(done.status, AgentRunStatus::Succeeded);
    assert_eq!(done.error, None);
    assert_eq!(done.process_exit, ExitReason::Completed);
    assert_eq!(done.hook_label, "succeeded");

    let cancelled = terminal_plan(RuntimeOutcome::Cancelled {
        message: "Agent runtime cancelled".into(),
    });
    assert_eq!(cancelled.status, AgentRunStatus::Cancelled);
    assert_eq!(cancelled.process_exit, ExitReason::Cancelled("Agent runtime cancelled".into()));
    assert_eq!(cancelled.hook_label, "cancelled");

    let failed = terminal_plan(RuntimeOutcome::Failed { message: "boom".into() });
    assert_eq!(failed.status, AgentRunStatus::Failed);
    assert_eq!(failed.error.as_deref(), Some("boom"));
    assert_eq!(failed.process_exit, ExitReason::Failed("boom".into()));
    assert_eq!(failed.hook_label, "failed");
}

#[test]
fn budget_moves_to_the_parent_only_when_everything_allows_it() {
    assert!(transfers_budget_to_parent(Some(1), true, true, true));
    assert!(!transfers_budget_to_parent(None, true, true, true));
    assert!(!transfers_budget_to_parent(Some(1), false, true, true));
    assert!(!transfers_budget_to_parent(Some(1), true, false, true));
    assert!(!transfers_budget_to_parent(Some(1), true, true, false));
}

#[test]
fn lease_keys_and_owner_name_the_agent_and_process() {
    let agent = 0x11u128;
    let text = uuid::Uuid::from_u128(agent).to_string();
    assert_eq!(
        settlement_lease_keys(agent),
        vec![
            format!("admission:{text}"),
            format!("mailbox:{text}"),
            format!("execution:{text}")
        ]
    );
    assert_eq!(lease_owner(7), format!("process:{}", uuid::Uuid::from_u128(7)));
}

#[test]
fn cancellation_reaches_the_whole_live_subtree() {
    let live = vec![(2, Some(1)), (3, Some(2)), (4, Some(9)), (5, None), (6, Some(3))];
    assert_eq!(cancellation_subtree(1, &live), vec![1, 2, 3, 6]);
    let reversed: Vec<(u128, Option<u128>)> = live.iter().rev().cloned().collect();
    let mut found = cancellation_subtree(1, &reversed);
    assert_eq!(found[0], 1);
    found.sort();
    assert_eq!(found, vec![1, 2, 3, 6]);
}

#[test]
fn cancellation_of_a_leaf_or_a_cycle_stops() {
    assert_eq!(cancellation_subtree(42, &vec![(2, Some(1))]), vec![42]);
    let cycle = vec![(7, Some(8)), (8, Some(7))];
    assert_eq!(cancellation_subtree(7, &cycle), vec![7, 8]);
}

#[test]
fn lifecycle_hook_context_names_the_run() {
    let root: u128 = 0x0123_4567_89ab_cdef_0123_4567_89ab_cdef;
    let context = agent_lifecycle_hook_context(root, 2, Some(root), 3, "summarize", "started", Some("/repo".into()));
    assert_eq!(context.session_id, "01234567-89ab-cdef-0123-456789abcdef");
    assert_eq!(context.turn_count, 0);
    assert_eq!(context.message, "summarize");
    let pairs: Vec<(&str, &str)> = context.metadata.iter().map(|(k, v)| (k.as_str(), v.as_str())).collect();
    assert_eq!(
        pairs,
        vec![
            ("agent_id", "00000000-0000-0000-0000-000000000002"),
            ("parent_agent_id", "01234567-89ab-cdef-0123-456789abcdef"),
            ("operation_id", "00000000-0000-0000-0000-000000000003"),
            ("status", "started"),
            ("workspace_root", "/repo"),
        ]
    );
    let orphan = agent_lifecycle_hook_context(root, 2, None, 3, "t", "failed", None);
    assert_eq!(orphan.metadata[1].1, "");
    assert_eq!(orphan.metadata[4].1, "");
}

#[test]
fn terminal_runs_reject_new_messages() {
    let done = link(2, Some(1), AgentRunStatus::Succeeded);
    let error = reject_terminal_target(&done).unwrap_err();
    assert_eq!(error.kind, executive::control_error::AgentControlErrorKind::Terminal);
    assert_eq!(error.message, "terminal Agent rejects new messages");
    assert!(reject_terminal_target(&link(2, Some(1), AgentRunStatus::Running)).is_ok());
}

#[test]
fn a_spawn_without_parent_is_its_own_root() {
    let identity = root_identity(42);
    assert_eq!(identity.agent_id, 42);
    assert_eq!(identity.depth, 0);
    assert!(identity.root_process_id.is_none());
    assert!(identity.root_workspace_id.is_none());
    assert!(identity.parent_profile.is_none());
}

#[test]
fn root_workspace_falls_back_in_order() {
    assert_eq!(root_workspace(Some("bound".into()), Some("ref".into()), 1), "bound");
    assert_eq!(root_workspace(None, Some("ref".into()), 1), "ref");
    assert_eq!(root_workspace(None, None, 1), "00000000-0000-0000-0000-000000000001");
}

#[test]
fn recovery_tally_counts_each_outcome() {
    let runs = vec![
        (Some(AgentRecoveryDecision::Interrupt), false),
        (Some(AgentRecoveryDecision::Resume), true),
        (Some(AgentRecoveryDecision::Resume), false),
        (Some(AgentRecoveryDecision::Finalize), false),
        (None, false),
        (Some(AgentRecoveryDecision::Interrupt), true),
    ];
    let reopened = vec![Some(AgentRecoveryDecision::Resume), None, Some(AgentRecoveryDecision::Interrupt)];
    let report = tally_recovery(&runs, &reopened);
    assert_eq!(report.open_rows, 6);
    assert_eq!(report.interrupted, 2);
    assert_eq!(report.resumed, 1);
    assert_eq!(report.finalized, 1);
    assert_eq!(report.recovery_failed, 2);
    assert_eq!(report.unreconciled, 2);
}
