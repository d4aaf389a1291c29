use executive::supervision::{ExitReason, GroupStrategy, RestartDecision, RestartPolicy, SupervisorTree};

fn pid(id: u64) -> u128 {
    id as u128
}

fn failed() -> ExitReason {
    ExitReason::Failed("test failure".into())
}

fn success() -> ExitReason {
    ExitReason::Completed
}

#[test]
fn success_exit_is_not_restarted() {
    let mut tree = SupervisorTree::new();
    tree.supervise(pid(1), RestartPolicy::RestartOnFailure { max_restarts: 3 });
    let d = tree.record_exit(pid(1), &success());
    assert_eq!(d, RestartDecision::DoNotRestart);
}

#[test]
fn failure_with_never_policy_does_not_restart() {
    let mut tree = SupervisorTree::new();
    tree.supervise(pid(1), RestartPolicy::Never);
    let d = tree.record_exit(pid(1), &failed());
    assert_eq!(d, RestartDecision::DoNotRestart);
}

#[test]
fn failure_with_restart_policy_restarts() {
    let mut tree = SupervisorTree::new();
    tree.supervise(pid(1), RestartPolicy::RestartOnFailure { max_restarts: 3 });
    let d = tree.record_exit(pid(1), &failed());
    assert_eq!(d, RestartDecision::Restart { attempt: 1 });
}

#[test]
fn max_restarts_exceeded_returns_failed_limit() {
    let mut tree = SupervisorTree::new();
    tree.supervise(pid(1), RestartPolicy::RestartOnFailure { max_restarts: 1 });
    let d1 = tree.record_exit(pid(1), &failed());
    assert_eq!(d1, RestartDecision::Restart { attempt: 1 });

    let d2 = tree.record_exit(pid(1), &failed());
    assert_eq!(d2, RestartDecision::FailedLimitReached);
}

#[test]
fn one_for_one_restarts_only_failed() {
    let mut tree = SupervisorTree::new();
    tree.create_group("workers", GroupStrategy::OneForOne);
    tree.add_to_group("workers", pid(1));
    tree.add_to_group("workers", pid(2));
    tree.supervise(pid(1), RestartPolicy::RestartOnFailure { max_restarts: 3 });
    tree.supervise(pid(2), RestartPolicy::RestartOnFailure { max_restarts: 3 });

    let d = tree.record_exit(pid(1), &failed());
    assert_eq!(d, RestartDecision::Restart { attempt: 1 });
}

#[test]
fn one_for_all_restarts_all_siblings() {
    let mut tree = SupervisorTree::new();
    tree.create_group("workers", GroupStrategy::OneForAll);
    tree.add_to_group("workers", pid(1));
    tree.add_to_group("workers", pid(2));
    tree.add_to_group("workers", pid(3));
    tree.supervise(pid(1), RestartPolicy::RestartOnFailure { max_restarts: 3 });
    tree.supervise(pid(2), RestartPolicy::RestartOnFailure { max_restarts: 3 });
    tree.supervise(pid(3), RestartPolicy::RestartOnFailure { max_restarts: 3 });

    let d = tree.record_exit(pid(1), &failed());
    match d {
        RestartDecision::RestartGroup { attempt, siblings } => {
            assert_eq!(attempt, 1);
            assert_eq!(siblings.len(), 2);
            assert!(siblings.contains(&pid(2)));
            assert!(siblings.contains(&pid(3)));
        }
        other => panic!("expected RestartGroup, got {other:?}"),
    }
}

#[test]
fn rest_for_one_restarts_failed_and_later_siblings() {
    let mut tree = SupervisorTree::new();
    tree.create_group("pipeline", GroupStrategy::RestForOne);
    tree.add_to_group("pipeline", pid(10));
    tree.add_to_group("pipeline", pid(20));
    tree.add_to_group("pipeline", pid(30));
    tree.add_to_group("pipeline", pid(40));
    for i in [10, 20, 30, 40] {
        tree.supervise(pid(i), RestartPolicy::RestartOnFailure { max_restarts: 3 });
    }

    let d = tree.record_exit(pid(20), &failed());
    match d {
        RestartDecision::RestartGroup { attempt, siblings } => {
            assert_eq!(attempt, 1);
            assert_eq!(siblings.len(), 2);
            assert!(siblings.contains(&pid(30)));
            assert!(siblings.contains(&pid(40)));
            assert!(!siblings.contains(&pid(10)));
        }
        other => panic!("expected RestartGroup, got {other:?}"),
    }
}

#[test]
fn rest_for_one_last_member_restarts_only_self() {
    let mut tree = SupervisorTree::new();
    tree.create_group("pipeline", GroupStrategy::RestForOne);
    tree.add_to_group("pipeline", pid(10));
    tree.add_to_group("pipeline", pid(20));
    tree.supervise(pid(10), RestartPolicy::RestartOnFailure { max_restarts: 3 });
    tree.supervise(pid(20), RestartPolicy::RestartOnFailure { max_restarts: 3 });

    let d = tree.record_exit(pid(20), &failed());
    assert_eq!(d, RestartDecision::Restart { attempt: 1 });
}

#[test]
fn group_restart_resets_sibling_counters() {
    let mut tree = SupervisorTree::new();
    tree.create_group("workers", GroupStrategy::OneForAll);
    tree.add_to_group("workers", pid(1));
    tree.add_to_group("workers", pid(2));
    tree.supervise(pid(1), RestartPolicy::RestartOnFailure { max_restarts: 3 });
    tree.supervise(pid(2), RestartPolicy::RestartOnFailure { max_restarts: 3 });

    assert_eq!(
        tree.record_exit(pid(2), &failed()),
        RestartDecision::RestartGroup {
            attempt: 1,
            siblings: vec![pid(1)]
        }
    );

    let d = tree.record_exit(pid(1), &failed());
    assert!(matches!(d, RestartDecision::RestartGroup { .. }));

    let d2 = tree.record_exit(pid(2), &failed());
    match d2 {
        RestartDecision::RestartGroup { attempt, .. } => {
            assert_eq!(attempt, 1, "counter should have been reset to 1");
        }
        other => panic!("expected RestartGroup, got {other:?}"),
    }
}

#[test]
fn non_failure_does_not_trigger_group_restart() {
    let mut tree = SupervisorTree::new();
    tree.create_group("workers", GroupStrategy::OneForAll);
    tree.add_to_group("workers", pid(1));
    tree.add_to_group("workers", pid(2));
    tree.supervise(pid(1), RestartPolicy::RestartOnFailure { max_restarts: 3 });
    tree.supervise(pid(2), RestartPolicy::RestartOnFailure { max_restarts: 3 });

    let d = tree.record_exit(pid(1), &success());
    assert_eq!(d, RestartDecision::DoNotRestart);
}

#[test]
fn group_of_returns_correct_group() {
    let mut tree = SupervisorTree::new();
    tree.create_group("a", GroupStrategy::OneForOne);
    tree.add_to_group("a", pid(1));

    assert_eq!(tree.group_of(pid(1)), Some("a"));
    assert_eq!(tree.group_of(pid(99)), None);
}

#[test]
fn panic_and_deadline_count_as_failures_but_cancel_does_not() {
    let mut tree = SupervisorTree::new();
    tree.supervise(pid(1), RestartPolicy::RestartOnFailure { max_restarts: 5 });
    assert_eq!(
        tree.record_exit(pid(1), &ExitReason::Panic("boom".into())),
        RestartDecision::Restart { attempt: 1 }
    );
    assert_eq!(
        tree.record_exit(pid(1), &ExitReason::DeadlineExceeded),
        RestartDecision::Restart { attempt: 2 }
    );
    assert_eq!(
        tree.record_exit(pid(1), &ExitReason::Cancelled("stop".into())),
        RestartDecision::DoNotRestart
    );
}

#[test]
fn unsupervised_process_is_not_restarted() {
    let mut tree = SupervisorTree::new();
    assert_eq!(tree.record_exit(pid(7), &failed()), RestartDecision::DoNotRestart);
}

#[test]
fn failures_count_up_to_the_limit_then_stay_refused() {
    let mut tree = SupervisorTree::new();
    tree.supervise(pid(7), RestartPolicy::RestartOnFailure { max_restarts: 2 });
    assert!(matches!(tree.record_exit(pid(7), &failed()), RestartDecision::Restart { attempt: 1 }));
    assert!(matches!(tree.record_exit(pid(7), &ExitReason::Completed), RestartDecision::DoNotRestart));
    assert!(matches!(tree.record_exit(pid(7), &ExitReason::Panic("p".into())), RestartDecision::Restart { attempt: 2 }));
    for _ in 0..3 {
        assert!(matches!(tree.record_exit(pid(7), &ExitReason::DeadlineExceeded), RestartDecision::FailedLimitReached));
    }
    assert!(matches!(tree.record_exit(pid(99), &failed()), RestartDecision::DoNotRestart));
}
