use executive::budget::{AdmissionError, BudgetRequest, InMemoryBudgetController, UsageReport};

#[test]
fn unlimited_account_always_approves() {
    let mut ctrl = InMemoryBudgetController::new();
    let req = BudgetRequest {
        max_tokens: Some(10_000),
        max_cost_micro: Some(500),
    };
    let id = ctrl.reserve("agent-1", &req).unwrap();
    ctrl.settle(
        "agent-1",
        id,
        &UsageReport {
            tokens_used: 8_000,
            cost_micro: 400,
            ..Default::default()
        },
    );
    assert_eq!(ctrl.remaining_tokens("agent-1"), Some(None));
}

#[test]
fn limited_account_approves_within_budget() {
    let mut ctrl = InMemoryBudgetController::new();
    ctrl.set_budget("agent-1", Some(100_000), Some(1_000_000));
    let req = BudgetRequest {
        max_tokens: Some(10_000),
        max_cost_micro: Some(5_000),
    };
    let id = ctrl.reserve("agent-1", &req).unwrap();
    assert!(id != 0);
    assert_eq!(ctrl.remaining_tokens("agent-1"), Some(Some(90_000)));
    assert_eq!(ctrl.remaining_cost("agent-1"), Some(Some(995_000)));
}

#[test]
fn limited_account_denies_over_budget() {
    let mut ctrl = InMemoryBudgetController::new();
    ctrl.set_budget("agent-1", Some(1_000), Some(10_000));
    let req = BudgetRequest {
        max_tokens: Some(5_000),
        max_cost_micro: None,
    };
    let err = ctrl.reserve("agent-1", &req).unwrap_err();
    assert!(matches!(err, AdmissionError::BudgetExceeded));
    assert_eq!(ctrl.remaining_tokens("agent-1"), Some(Some(1_000)));
}

#[test]
fn settle_adjusts_to_actual_usage() {
    let mut ctrl = InMemoryBudgetController::new();
    ctrl.set_budget("agent-1", Some(100_000), None);
    let req = BudgetRequest {
        max_tokens: Some(10_000),
        max_cost_micro: None,
    };
    let id = ctrl.reserve("agent-1", &req).unwrap();
    ctrl.settle(
        "agent-1",
        id,
        &UsageReport {
            tokens_used: 3_000,
            ..Default::default()
        },
    );
    assert_eq!(ctrl.remaining_tokens("agent-1"), Some(Some(97_000)));

    let req2 = BudgetRequest {
        max_tokens: Some(97_000),
        max_cost_micro: None,
    };
    let id2 = ctrl.reserve("agent-1", &req2).unwrap();
    ctrl.settle(
        "agent-1",
        id2,
        &UsageReport {
            tokens_used: 97_000,
            ..Default::default()
        },
    );

    let req3 = BudgetRequest {
        max_tokens: Some(1),
        max_cost_micro: None,
    };
    let err = ctrl.reserve("agent-1", &req3).unwrap_err();
    assert!(matches!(err, AdmissionError::BudgetExceeded));
}

#[test]
fn revoke_returns_budget_to_pool() {
    let mut ctrl = InMemoryBudgetController::new();
    ctrl.set_budget("agent-1", Some(10_000), None);
    let req = BudgetRequest {
        max_tokens: Some(5_000),
        max_cost_micro: None,
    };
    let id = ctrl.reserve("agent-1", &req).unwrap();
    ctrl.revoke("agent-1", id);

    let req2 = BudgetRequest {
        max_tokens: Some(10_000),
        max_cost_micro: None,
    };
    let id2 = ctrl.reserve("agent-1", &req2).unwrap();
    assert!(id2 != 0);
}

#[test]
fn cost_budget_limits_enforced() {
    let mut ctrl = InMemoryBudgetController::new();
    ctrl.set_budget("agent-1", None, Some(1_000));
    let req = BudgetRequest {
        max_tokens: None,
        max_cost_micro: Some(2_000),
    };
    let err = ctrl.reserve("agent-1", &req).unwrap_err();
    assert!(matches!(err, AdmissionError::BudgetExceeded));
}

#[test]
fn reserve_with_id_uses_the_given_id() {
    let mut ctrl = InMemoryBudgetController::new();
    ctrl.set_budget("p", Some(10), None);
    let req = BudgetRequest { max_tokens: Some(4), max_cost_micro: None };
    assert_eq!(ctrl.reserve_with_id("p", &req, 42), Ok(42));
    assert_eq!(ctrl.remaining_tokens("p"), Some(Some(6)));
    ctrl.revoke("p", 42);
    assert_eq!(ctrl.remaining_tokens("p"), Some(Some(10)));
    ctrl.revoke("p", 42);
    assert_eq!(ctrl.remaining_tokens("p"), Some(Some(10)));
}

#[test]
fn unknown_principal_has_no_account() {
    let ctrl = InMemoryBudgetController::new();
    assert_eq!(ctrl.remaining_tokens("nobody"), None);
    assert_eq!(ctrl.remaining_cost("nobody"), None);
}

#[test]
fn settle_charges_usage_beyond_the_reservation() {
    let mut ctrl = InMemoryBudgetController::new();
    ctrl.set_budget("agent-1", Some(1_000), None);
    let req = BudgetRequest {
        max_tokens: Some(100),
        max_cost_micro: None,
    };
    let id = ctrl.reserve("agent-1", &req).unwrap();
    ctrl.settle(
        "agent-1",
        id,
        &UsageReport {
            tokens_used: 250,
            ..Default::default()
        },
    );
    assert_eq!(ctrl.remaining_tokens("agent-1"), Some(Some(750)));
    let big = ctrl
        .reserve("agent-1", &BudgetRequest { max_tokens: Some(700), max_cost_micro: None })
        .unwrap();
    ctrl.settle(
        "agent-1",
        big,
        &UsageReport {
            tokens_used: 5_000,
            ..Default::default()
        },
    );
    assert_eq!(ctrl.remaining_tokens("agent-1"), Some(Some(0)));
}
