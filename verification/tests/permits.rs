use executive::budget::AdmissionError;
use executive::permits::{
    AdmissionRequest, ProductionAdmissionController, SandboxDecision, SandboxRequirement,
    PERMIT_TTL_MS,
};

fn default_request() -> AdmissionRequest {
    AdmissionRequest {
        operation_id: 1,
        process_id: 2,
        principal: "test-agent".into(),
        capability: "test.tool".into(),
        action: "execute".into(),
        sandbox: SandboxRequirement::NotRequired,
    }
}

#[test]
fn admit_not_required() {
    let ctrl = ProductionAdmissionController::new();
    let permit = ctrl.admit_call(default_request(), 0);
    assert_eq!(permit.sandbox, SandboxDecision::NotApplicable);
    assert!(permit.is_valid_at(0));
}

#[test]
fn admit_required_maps_to_required() {
    let ctrl = ProductionAdmissionController::new();
    let req = AdmissionRequest {
        sandbox: SandboxRequirement::Required,
        ..default_request()
    };
    let permit = ctrl.admit_call(req, 0);
    assert_eq!(permit.sandbox, SandboxDecision::Required);
}

#[test]
fn admit_required_then_promote_maps_to_required() {
    let ctrl = ProductionAdmissionController::new();
    let req = AdmissionRequest {
        sandbox: SandboxRequirement::RequiredThenPromote,
        ..default_request()
    };
    let permit = ctrl.admit_call(req, 0);
    assert_eq!(permit.sandbox, SandboxDecision::Required);
}

#[test]
fn double_settle_fails() {
    let mut ctrl = ProductionAdmissionController::new();
    let permit = ctrl.admit_call(default_request(), 0);
    ctrl.settle(permit.id).unwrap();
    let err = ctrl.settle(permit.id).unwrap_err();
    assert!(matches!(err, AdmissionError::AlreadySettled));
}

#[test]
fn revoke_after_settle_fails() {
    let mut ctrl = ProductionAdmissionController::new();
    let permit = ctrl.admit_call(default_request(), 0);
    ctrl.settle(permit.id).unwrap();
    let err = ctrl.revoke(permit.id).unwrap_err();
    assert!(matches!(err, AdmissionError::AlreadySettled));
}

#[test]
fn revoke_then_settle_succeeds() {
    let mut ctrl = ProductionAdmissionController::new();
    let permit = ctrl.admit_call(default_request(), 0);
    ctrl.revoke(permit.id).unwrap();
    ctrl.settle(permit.id).unwrap();
}

#[test]
fn permit_is_expired_after_deadline() {
    let ctrl = ProductionAdmissionController::new();
    let permit = ctrl.admit_call(default_request(), 0);
    assert!(!permit.is_valid_at(30_001));
}

#[test]
fn permit_is_valid_before_deadline() {
    let ctrl = ProductionAdmissionController::new();
    let permit = ctrl.admit_call(default_request(), 0);
    assert!(permit.is_valid_at(29_999));
}

#[test]
fn permit_carries_the_request_and_expires_after_the_ttl() {
    let ctrl = ProductionAdmissionController::new();
    let permit = ctrl.admit_with_id(default_request(), 1_000, 77);
    assert_eq!(permit.id, 77);
    assert_eq!(permit.operation_id, 1);
    assert_eq!(permit.process_id, 2);
    assert_eq!(permit.capability, "test.tool");
    assert_eq!(permit.expires_at_ms, 1_000 + PERMIT_TTL_MS);
    assert!(!permit.is_valid_at(1_000 + PERMIT_TTL_MS));
    let late = ctrl.admit_with_id(default_request(), u64::MAX - 5, 78);
    assert_eq!(late.expires_at_ms, u64::MAX);
    assert!(ctrl.admit_call(default_request(), 0).id != 0);
}
