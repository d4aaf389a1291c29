use executive::conscious::{check_selected_outcome, ActionCall, DurableWinner, OutcomeRefusal, SelectedAction};
use executive::conscious::{action_id, deterministic_content_id, outcome_id, ACTION_NAMESPACE, NAMESPACE_OID, attribution, batch_decisions, metric_ref, FieldDecisionKind, WorkspaceAttribution};
use executive::conscious::{recommend, CareAction, ModulationRecommendation, ModulationSignals};

fn signals(high_risk: bool, self_relevance: f32, urgency: f32) -> ModulationSignals {
    ModulationSignals {
        high_risk,
        self_relevance_low: self_relevance < 0.3,
        self_relevance_high: self_relevance >= 0.7,
        urgency_low: urgency < 0.3,
        urgency_high: urgency >= 0.7,
    }
}

#[test]
fn negate_high_risk_low_relevance_vetoes() {
    let rec = recommend(Some(CareAction::Negate), signals(true, 0.1, 0.5));
    assert_eq!(rec, ModulationRecommendation::Veto);
}

#[test]
fn negate_otherwise_defers() {
    let rec = recommend(Some(CareAction::Negate), signals(false, 0.9, 0.5));
    assert_eq!(rec, ModulationRecommendation::Defer);
}

#[test]
fn wait_low_urgency_defers() {
    let rec = recommend(Some(CareAction::Wait), signals(false, 0.5, 0.1));
    assert_eq!(rec, ModulationRecommendation::Defer);
}

#[test]
fn deliberate_urgent_relevant_reorders() {
    let rec = recommend(Some(CareAction::Deliberate), signals(false, 0.8, 0.9));
    assert_eq!(rec, ModulationRecommendation::Reorder);
}

#[test]
fn direct_always_proceeds_even_at_max_risk() {
    let rec = recommend(Some(CareAction::Direct), signals(true, 0.9, 0.9));
    assert_eq!(rec, ModulationRecommendation::Proceed);
}

#[test]
fn no_care_signal_proceeds() {
    let rec = recommend(None, signals(true, 0.5, 0.5));
    assert_eq!(rec, ModulationRecommendation::Proceed);
}

#[test]
fn only_proceed_is_not_modulating() {
    assert!(!ModulationRecommendation::Proceed.is_modulating());
    assert!(ModulationRecommendation::Reorder.is_modulating());
    assert!(ModulationRecommendation::Defer.is_modulating());
    assert!(ModulationRecommendation::Veto.is_modulating());
}

use executive::conscious::{validate_submission, CandidateCause, ProcessorKind, SubmissionRefusal};

#[test]
fn processor_ids_are_stable() {
    assert_eq!(ProcessorKind::Dasein.id(), "dasein");
    assert_eq!(ProcessorKind::Cognit.id(), "cognit");
}

#[test]
fn required_source_refs_name_the_cause() {
    let op = 0x0123_4567_89ab_cdef_0011_2233_4455_6677u128;
    let outcome = CandidateCause::GovernedActionOutcome {
        permit_id: "p-1".into(),
        operation_id: op,
    };
    assert_eq!(
        outcome.required_source_ref(),
        "capability:p-1:01234567-89ab-cdef-0011-223344556677"
    );
    assert_eq!(
        outcome.required_source_ref(),
        format!("capability:p-1:{}", uuid::Uuid::from_u128(op))
    );
    let dasein = CandidateCause::DaseinTransition { event_id: 1, version: 42 };
    assert_eq!(
        dasein.required_source_ref(),
        "dasein:00000000-0000-0000-0000-000000000001:v42"
    );
    let response = CandidateCause::ProcessorResponse {
        processor: "cognit".into(),
        source_epoch: 9,
    };
    assert_eq!(response.required_source_ref(), "broadcast_epoch:9");
}

#[test]
fn submissions_must_carry_their_source_references() {
    let cause = CandidateCause::ExternalObservation { event_ref: "evt-1".into() };
    let refs = vec!["evt-1".to_string()];
    assert!(validate_submission(true, "s", &refs, &cause, true).is_ok());
    assert_eq!(
        validate_submission(false, "s", &refs, &cause, true),
        Err(SubmissionRefusal::InvalidCandidate)
    );
    assert_eq!(
        validate_submission(true, "s", &vec![], &cause, true),
        Err(SubmissionRefusal::MissingSourceRef)
    );
    let blank = CandidateCause::ExternalObservation { event_ref: "  ".into() };
    assert_eq!(
        validate_submission(true, "s", &refs, &blank, true),
        Err(SubmissionRefusal::ExternalEventRef)
    );
    let response = CandidateCause::ProcessorResponse {
        processor: "cognit".into(),
        source_epoch: 3,
    };
    let both = vec!["broadcast:s:3".to_string(), "processor:cognit".to_string()];
    assert!(validate_submission(true, "s", &both, &response, true).is_ok());
    assert_eq!(
        validate_submission(true, "s", &both[..1].to_vec(), &response, true),
        Err(SubmissionRefusal::MissingProcessorRef)
    );
    assert_eq!(
        validate_submission(true, "t", &both, &response, true),
        Err(SubmissionRefusal::MissingBroadcastRef)
    );
    assert_eq!(
        validate_submission(true, "s", &both, &response, false),
        Err(SubmissionRefusal::InvalidProcessor)
    );
    let permit = CandidateCause::GovernedActionOutcome {
        permit_id: "x".repeat(1025),
        operation_id: 5,
    };
    assert_eq!(
        validate_submission(true, "s", &both, &permit, true),
        Err(SubmissionRefusal::PermitRef)
    );
}

use executive::conscious::stable_priority_order;

fn total_key(value: f32) -> i32 {
    let bits = value.to_bits() as i32;
    bits ^ ((((bits >> 31) as u32) >> 1) as i32)
}

#[test]
fn priorities_sort_descending_and_keep_ties_in_order() {
    let priorities: Vec<(String, i32)> = [("a", 0.5f32), ("b", 0.9), ("c", 0.5), ("d", 0.0), ("e", 1.0)]
        .iter()
        .map(|(name, p)| (name.to_string(), total_key(*p)))
        .collect();
    assert_eq!(stable_priority_order(&priorities), vec!["e", "b", "a", "c", "d"]);
    assert!(stable_priority_order(&Vec::new()).is_empty());
}

#[test]
fn batch_decisions_mark_moved_calls() {
    let calls: Vec<String> = vec!["a".into(), "b".into(), "c".into()];
    let moved: Vec<String> = vec!["b".into(), "a".into(), "c".into()];
    assert_eq!(
        batch_decisions(&calls, &moved),
        vec![FieldDecisionKind::Reorder, FieldDecisionKind::Reorder, FieldDecisionKind::Proceed]
    );
    assert_eq!(batch_decisions(&calls, &calls), vec![FieldDecisionKind::Proceed; 3]);
    assert!(batch_decisions(&Vec::new(), &moved).is_empty());
}

#[test]
fn metric_ref_prefers_the_latest_snapshot_of_the_epoch() {
    let snapshots: Vec<(u64, String)> = vec![
        (9, "trace-old".into()),
        (8, "trace-other".into()),
        (9, "trace-new".into()),
    ];
    assert_eq!(metric_ref(&snapshots, "space", 9), "trace-new");
    assert_eq!(metric_ref(&snapshots, "space", 8), "trace-other");
    assert_eq!(metric_ref(&snapshots, "space", 7), "broadcast:space:7");
    let blank_latest: Vec<(u64, String)> = vec![(9, "trace-old".into()), (9, "  ".into())];
    assert_eq!(metric_ref(&blank_latest, "ws", 9), "broadcast:ws:9");
    assert_eq!(metric_ref(&Vec::new(), "ws", 12), "broadcast:ws:12");
}

#[test]
fn attribution_separates_root_and_children() {
    assert_eq!(attribution(5, 5), WorkspaceAttribution::RootAgent { process: 5 });
    assert_eq!(attribution(6, 5), WorkspaceAttribution::ChildAgent { process: 6 });
}

#[test]
fn derived_ids_are_name_based_uuids() {
    let namespace = uuid::Uuid::from_u128(ACTION_NAMESPACE);
    let operation: u128 = 0x1111_2222_3333_4444_5555_6666_7777_8888;
    let expected = uuid::Uuid::new_v5(
        &namespace,
        b"11112222-3333-4444-5555-666677778888:call-1:file_read",
    );
    let action = action_id(operation, "call-1", "file_read");
    assert_eq!(action, expected.as_u128());
    assert_eq!(action, action_id(operation, "call-1", "file_read"));
    assert_ne!(action, action_id(operation, "call-2", "file_read"));

    let outcome = outcome_id(action, "permit-9");
    let material = format!("outcome:{}:permit-9", expected);
    assert_eq!(outcome, uuid::Uuid::new_v5(&namespace, material.as_bytes()).as_u128());

    assert_eq!(NAMESPACE_OID, uuid::Uuid::NAMESPACE_OID.as_u128());
    assert_eq!(
        deterministic_content_id("material"),
        uuid::Uuid::new_v5(&uuid::Uuid::NAMESPACE_OID, b"material").as_u128()
    );
}

fn selected(source: u128, root: u128) -> SelectedAction {
    SelectedAction {
        candidate_id: 9,
        broadcast_epoch: 3,
        operation_id: 5,
        source_process: source,
        attribution: attribution(source, root),
    }
}

fn call() -> ActionCall {
    ActionCall { operation_id: 5, process_id: 11, call_id: "c1".into(), name: "file_read".into() }
}

fn winner() -> DurableWinner {
    DurableWinner {
        space: "ws".into(),
        source: 11,
        producer: 11,
        operation: Some(5),
        proposal: Some(("c1".into(), "invoke governed capability file_read".into())),
    }
}

#[test]
fn outcome_identity_checks_come_in_order() {
    let space = "ws".to_string();
    let ok = check_selected_outcome(77, &selected(11, 1), &call(), 11, 1, &space, &Some(winner()));
    assert_eq!(ok, Ok(()));
    let none = check_selected_outcome(0, &selected(11, 1), &call(), 11, 1, &space, &Some(winner()));
    assert_eq!(none, Err(OutcomeRefusal::NoPermit));
    assert_eq!(OutcomeRefusal::NoPermit.message(), "governed capability result has no permit identity");
    let mut other_op = call();
    other_op.operation_id = 6;
    assert_eq!(
        check_selected_outcome(77, &selected(11, 1), &other_op, 11, 1, &space, &Some(winner())),
        Err(OutcomeRefusal::OperationChanged)
    );
    let mut other_process = call();
    other_process.process_id = 12;
    assert_eq!(
        check_selected_outcome(77, &selected(11, 1), &other_process, 11, 1, &space, &Some(winner())),
        Err(OutcomeRefusal::ProcessChanged)
    );
    assert_eq!(
        check_selected_outcome(77, &selected(11, 1), &call(), 12, 1, &space, &Some(winner())),
        Err(OutcomeRefusal::AnotherProcess)
    );
    assert_eq!(
        check_selected_outcome(77, &selected(11, 1), &call(), 11, 11, &space, &Some(winner())),
        Err(OutcomeRefusal::AttributionChanged)
    );
    assert_eq!(
        check_selected_outcome(77, &selected(11, 1), &call(), 11, 1, &space, &None),
        Err(OutcomeRefusal::NotDurableWinner)
    );
    assert_eq!(
        check_selected_outcome(77, &selected(11, 1), &call(), 11, 1, &"other".to_string(), &Some(winner())),
        Err(OutcomeRefusal::AnotherWorkspace)
    );
    let mut foreign = winner();
    foreign.producer = 12;
    assert_eq!(
        check_selected_outcome(77, &selected(11, 1), &call(), 11, 1, &space, &Some(foreign)),
        Err(OutcomeRefusal::ProvenanceChanged)
    );
    let mut renamed = winner();
    renamed.proposal = Some(("c1".into(), "invoke governed capability shell".into()));
    assert_eq!(
        check_selected_outcome(77, &selected(11, 1), &call(), 11, 1, &space, &Some(renamed)),
        Err(OutcomeRefusal::NotRequestedAction)
    );
    let mut observation = winner();
    observation.proposal = None;
    assert_eq!(
        check_selected_outcome(77, &selected(11, 1), &call(), 11, 1, &space, &Some(observation)),
        Err(OutcomeRefusal::NotRequestedAction)
    );
}
