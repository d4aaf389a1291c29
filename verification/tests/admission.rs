use executive::agent_admission::{
    exceeds_optional, is_non_delegating_role, validate_policy, AdmissionLease, AdmissionState,
    AgentAdmissionConfig, AgentAdmissionMetrics, AgentAdmissionRequest, AgentBudgetRequest,
    AgentStorageRequest, CostRequest, LeasePhase, PendingAdmission,
};
use executive::control_error::AgentControlErrorKind;

fn config() -> AgentAdmissionConfig {
    AgentAdmissionConfig {
        max_agents_per_root: 2,
        max_running_agents: 1,
        max_queued_per_root: 2,
        max_depth: 3,
        max_child_tokens: 1_000,
        max_child_cost_micro: Some(500),
        max_storage_bytes: 100,
        max_storage_items: 10,
        sibling_fairness_quantum: 7,
        root_max_tokens: 10_000,
        root_max_cost_micro: None,
    }
}

fn budget(tokens: u64, cost: CostRequest) -> AgentBudgetRequest {
    AgentBudgetRequest {
        max_input_tokens: tokens,
        max_output_tokens: 0,
        max_depth: 3,
        cost,
    }
}

fn request(tokens: u64, depth: u16, parent: Option<&str>) -> AgentAdmissionRequest {
    AgentAdmissionRequest::new(
        1,
        budget(tokens, CostRequest::Micro(10)),
        depth,
        parent.map(|p| p.to_string()),
        AgentStorageRequest { bytes: 10, items: 1 },
    )
}

#[test]
fn policy_accepts_a_request_within_every_allowance() {
    assert!(validate_policy(&config(), &request(1_000, 3, Some("worker"))).is_ok());
}

#[test]
fn policy_refusals_name_their_reason() {
    let cfg = config();
    let deep = validate_policy(&cfg, &request(10, 4, None)).unwrap_err();
    assert_eq!(deep.kind, AgentControlErrorKind::Capacity);
    assert_eq!(deep.message, "Agent tree depth is exhausted");

    let greedy = validate_policy(&cfg, &request(1_001, 1, None)).unwrap_err();
    assert_eq!(greedy.message, "Agent child token allowance is exhausted");

    let overflow = AgentAdmissionRequest::new(
        1,
        AgentBudgetRequest {
            max_input_tokens: u64::MAX,
            max_output_tokens: 1,
            max_depth: 3,
            cost: CostRequest::Unbounded,
        },
        1,
        None,
        AgentStorageRequest::default(),
    );
    let err = validate_policy(&cfg, &overflow).unwrap_err();
    assert_eq!(err.kind, AgentControlErrorKind::InvalidRequest);
    assert_eq!(err.message, "Agent token request overflow");

    let invalid_cost = AgentAdmissionRequest::new(
        1,
        budget(10, CostRequest::Invalid),
        1,
        None,
        AgentStorageRequest::default(),
    );
    assert_eq!(
        validate_policy(&cfg, &invalid_cost).unwrap_err().message,
        "Agent cost budget is invalid"
    );

    let unbounded_cost = AgentAdmissionRequest::new(
        1,
        budget(10, CostRequest::Unbounded),
        1,
        None,
        AgentStorageRequest::default(),
    );
    assert_eq!(
        validate_policy(&cfg, &unbounded_cost).unwrap_err().message,
        "Agent child cost allowance is exhausted"
    );

    let big_storage = AgentAdmissionRequest::new(
        1,
        budget(10, CostRequest::Micro(1)),
        1,
        None,
        AgentStorageRequest { bytes: 101, items: 1 },
    );
    assert_eq!(
        validate_policy(&cfg, &big_storage).unwrap_err().message,
        "Agent storage request exceeds policy"
    );

    let memory = validate_policy(&cfg, &request(10, 1, Some("Mnemosyne-Keeper"))).unwrap_err();
    assert_eq!(memory.kind, AgentControlErrorKind::Forbidden);
    assert_eq!(memory.message, "internal memory/consolidation Agent roles cannot delegate");
}

#[test]
fn optional_limits_compare_as_documented() {
    assert!(!exceeds_optional(Some(5), None));
    assert!(exceeds_optional(Some(6), Some(5)));
    assert!(!exceeds_optional(Some(5), Some(5)));
    assert!(exceeds_optional(None, Some(5)));
    assert!(!exceeds_optional(None, None));
}

#[test]
fn memory_roles_are_recognised_case_insensitively() {
    assert!(is_non_delegating_role("MEMORY-writer"));
    assert!(is_non_delegating_role("nightly-Consolidation"));
    assert!(is_non_delegating_role("internal-recall"));
    assert!(!is_non_delegating_role("researcher"));
}

#[test]
fn queue_admit_run_and_close_one_child() {
    let cfg = config();
    let mut state = AdmissionState::new();
    let storage = AgentStorageRequest { bytes: 10, items: 1 };
    let (waiter, ticket) = state.enqueue(&cfg, 9, storage).unwrap();
    assert_eq!(ticket, 0);
    let entry = state.root_state(9).unwrap();
    assert_eq!((entry.resident, entry.queued, entry.running), (1, 1, 0));
    assert_eq!(entry.next_ticket, 7);

    assert!(!state.try_admit(&cfg, waiter + 1));
    assert!(state.try_admit(&cfg, waiter));
    assert_eq!(state.available_permits(&cfg), 0);

    let mut lease = AdmissionLease::new(9, storage, 55);
    assert_eq!(lease.current_phase(), LeasePhase::Queued);
    lease.mark_running(&mut state).unwrap();
    assert_eq!(lease.current_phase(), LeasePhase::Running);
    let again = lease.mark_running(&mut state).unwrap_err();
    assert_eq!(again.kind, AgentControlErrorKind::Conflict);
    assert_eq!(again.message, "Agent admission lease is not queued");

    let metrics = state.metrics();
    assert_eq!(
        metrics,
        AgentAdmissionMetrics {
            roots: 1,
            resident_agents: 1,
            queued_agents: 0,
            running_agents: 1,
            resident_idle_agents: 0,
            reserved_storage_bytes: 10,
            reserved_storage_items: 1,
        }
    );

    assert_eq!(lease.settlement_reservation().unwrap(), 55);
    lease.close(&mut state);
    assert_eq!(lease.current_phase(), LeasePhase::Closed);
    assert_eq!(
        lease.settlement_reservation().unwrap_err().message,
        "Agent admission lease is already closed"
    );
    assert_eq!(state.available_permits(&cfg), 1);
    let entry = state.root_state(9).unwrap();
    assert_eq!((entry.resident, entry.queued, entry.running), (0, 0, 0));
    assert_eq!((entry.storage_bytes, entry.storage_items), (0, 0));
}

#[test]
fn full_roots_refuse_more_children() {
    let cfg = config();
    let mut state = AdmissionState::new();
    let storage = AgentStorageRequest { bytes: 60, items: 1 };
    state.enqueue(&cfg, 1, storage).unwrap();
    let err = state.enqueue(&cfg, 1, storage).unwrap_err();
    assert_eq!(err.kind, AgentControlErrorKind::Capacity);
    assert_eq!(err.message, "Agent root storage capacity is exhausted");

    let small = AgentStorageRequest { bytes: 1, items: 1 };
    state.enqueue(&cfg, 1, small).unwrap();
    let err = state.enqueue(&cfg, 1, small).unwrap_err();
    assert_eq!(err.message, "Agent root tree capacity is exhausted");
    assert!(state.root_state(2).is_none());
}

#[test]
fn abandoning_a_waiting_child_restores_its_root() {
    let cfg = config();
    let mut state = AdmissionState::new();
    let storage = AgentStorageRequest { bytes: 5, items: 2 };
    let (waiter, _) = state.enqueue(&cfg, 3, storage).unwrap();
    let mut pending = PendingAdmission::new(waiter, 3, storage);
    pending.abandon(&mut state);
    let entry = state.root_state(3).unwrap();
    assert_eq!((entry.resident, entry.queued), (0, 0));
    assert_eq!((entry.storage_bytes, entry.storage_items), (0, 0));
    assert!(!state.try_admit(&cfg, waiter));
}

#[test]
fn budget_scope_binds_once_per_root() {
    let cfg = config();
    let mut state = AdmissionState::new();
    state.enqueue(&cfg, 4, AgentStorageRequest::default()).unwrap();
    assert_eq!(state.bind_budget_scope(4, 100), 100);
    assert_eq!(state.bind_budget_scope(4, 200), 100);
    assert_eq!(state.root_state(4).unwrap().budget_scope, Some(100));
}
