use executive::agent_control::VisibilityScope;
use executive::conscious::CandidateAdmissionStatus;
use executive::processor_cycle::{
    admitted_candidates, cycle_step, next_workspace_version, processor_status, submits_candidates,
    CycleStage, CycleStep, ProcessorHealth, ProcessorReply,
};

fn reply(processor: &str, health: ProcessorHealth) -> ProcessorReply {
    ProcessorReply {
        processor: processor.into(),
        health,
        invalid: None,
        visibilities: vec![VisibilityScope::Session, VisibilityScope::Session],
        detail: Some("ok".into()),
    }
}

#[test]
fn processor_replies_are_judged() {
    let me = "p1".to_string();
    let timed = processor_status(&me, VisibilityScope::Session, &None);
    assert_eq!(timed.health, ProcessorHealth::TimedOut);
    assert!(!timed.keeps_candidates);
    assert_eq!(timed.detail.as_deref(), Some("processor deadline exceeded"));
    let other = processor_status(&me, VisibilityScope::Session, &Some(reply("p2", ProcessorHealth::Healthy)));
    assert_eq!(other.health, ProcessorHealth::Failed);
    assert_eq!(other.detail.as_deref(), Some("processor response identity mismatch"));
    let mut invalid = reply("p1", ProcessorHealth::Healthy);
    invalid.invalid = Some("bad epoch".into());
    let judged = processor_status(&me, VisibilityScope::Session, &Some(invalid));
    assert_eq!(judged.detail.as_deref(), Some("invalid processor response: bad epoch"));
    let mut long = reply("p1", ProcessorHealth::Healthy);
    long.invalid = Some("x".repeat(5_000));
    let cut = processor_status(&me, VisibilityScope::Session, &Some(long));
    assert_eq!(cut.detail.unwrap().chars().count(), 4096);
    let mut wide = reply("p1", ProcessorHealth::Healthy);
    wide.visibilities.push(VisibilityScope::AgentTree { root: 1 });
    let refused = processor_status(&me, VisibilityScope::Session, &Some(wide));
    assert_eq!(refused.detail.as_deref(), Some("processor response visibility exceeds registration"));
    assert!(!refused.keeps_candidates);
    let fine = processor_status(&me, VisibilityScope::Session, &Some(reply("p1", ProcessorHealth::Degraded)));
    assert_eq!(fine.health, ProcessorHealth::Degraded);
    assert!(fine.keeps_candidates);
    assert_eq!(fine.detail.as_deref(), Some("ok"));
}

#[test]
fn only_healthy_or_degraded_candidates_are_submitted_and_accepted_ones_count() {
    assert!(submits_candidates(ProcessorHealth::Healthy));
    assert!(submits_candidates(ProcessorHealth::Degraded));
    assert!(!submits_candidates(ProcessorHealth::Failed));
    assert!(!submits_candidates(ProcessorHealth::TimedOut));
    let receipts = vec![
        (1, CandidateAdmissionStatus::Accepted),
        (2, CandidateAdmissionStatus::Duplicate),
        (3, CandidateAdmissionStatus::RejectedCapacity),
        (4, CandidateAdmissionStatus::Accepted),
    ];
    assert_eq!(admitted_candidates(&receipts), vec![1, 4]);
}

#[test]
fn cycle_steps_check_the_deadline() {
    assert_eq!(cycle_step(CycleStage::Opened, false, false), CycleStep::Select);
    assert_eq!(cycle_step(CycleStage::Opened, true, false), CycleStep::DeadlineExceeded);
    assert_eq!(cycle_step(CycleStage::Selected, true, true), CycleStep::RecordNoIgnition);
    assert_eq!(cycle_step(CycleStage::Selected, true, false), CycleStep::DeadlineExceeded);
    assert_eq!(cycle_step(CycleStage::Selected, false, false), CycleStep::BroadcastSelection);
    assert_eq!(cycle_step(CycleStage::Broadcast, false, true), CycleStep::IntegrateAndDeliver);
    assert_eq!(cycle_step(CycleStage::Broadcast, true, false), CycleStep::DeadlineExceeded);
    assert_eq!(next_workspace_version(4), 5);
    assert_eq!(next_workspace_version(u64::MAX), u64::MAX);
}
