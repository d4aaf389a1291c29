use executive::approvals::{
    ApprovalDecisionDelivery, ApprovalOwner, PendingApproval, PendingApprovalError,
    PendingApprovals, ScopedApprovalCache,
};

fn owner(principal: &str, thread: &str) -> ApprovalOwner {
    ApprovalOwner {
        principal_id: principal.into(),
        thread_id: thread.into(),
    }
}

fn approval(principal: &str, thread: &str, id: &str, connection: u128) -> PendingApproval {
    PendingApproval {
        owner: owner(principal, thread),
        turn_id: 1,
        call_id: "call".into(),
        approval_id: id.into(),
        connection_id: connection,
        tool: "bash".into(),
    }
}

#[test]
fn owner_resolves_its_approval_once() {
    let mut pending = PendingApprovals::new();
    pending.insert_with_id(approval("alice", "t1", "a1", 7));
    let resolved = pending.resolve(&owner("alice", "t1"), "a1").unwrap();
    assert_eq!(resolved.approval_id, "a1");
    assert_eq!(
        pending.resolve(&owner("alice", "t1"), "a1").unwrap_err(),
        PendingApprovalError::NotFound
    );
}

#[test]
fn another_owner_is_refused_and_the_approval_stays() {
    let mut pending = PendingApprovals::new();
    pending.insert_with_id(approval("alice", "t1", "a1", 7));
    assert_eq!(
        pending.resolve(&owner("mallory", "t1"), "a1").unwrap_err(),
        PendingApprovalError::WrongOwner
    );
    assert_eq!(
        pending.resolve(&owner("alice", "t2"), "a1").unwrap_err(),
        PendingApprovalError::WrongOwner
    );
    assert!(pending.resolve(&owner("alice", "t1"), "a1").is_ok());
}

#[test]
fn legacy_response_checks_principal_and_connection() {
    let mut pending = PendingApprovals::new();
    pending.insert_with_id(approval("alice", "t1", "a1", 7));
    assert_eq!(
        pending.resolve_authenticated("alice", 8, "a1").unwrap_err(),
        PendingApprovalError::WrongOwner
    );
    assert_eq!(
        pending.resolve_authenticated("bob", 7, "a1").unwrap_err(),
        PendingApprovalError::WrongOwner
    );
    assert_eq!(
        pending.resolve_authenticated("alice", 7, "zz").unwrap_err(),
        PendingApprovalError::NotFound
    );
    let resolved = pending.resolve_authenticated("alice", 7, "a1").unwrap();
    assert_eq!(resolved.connection_id, 7);
}

#[test]
fn same_key_replaces_in_place() {
    let mut pending = PendingApprovals::new();
    pending.insert_with_id(approval("alice", "t1", "a1", 7));
    pending.insert_with_id(approval("alice", "t1", "a1", 9));
    assert_eq!(
        pending.resolve_authenticated("alice", 7, "a1").unwrap_err(),
        PendingApprovalError::WrongOwner
    );
    assert!(pending.resolve_authenticated("alice", 9, "a1").is_ok());
    assert!(pending.resolve(&owner("alice", "t1"), "a1").is_err());
}

#[test]
fn closing_a_connection_cancels_only_its_approvals() {
    let mut pending = PendingApprovals::new();
    pending.insert_with_id(approval("alice", "t1", "a1", 7));
    pending.insert_with_id(approval("bob", "t2", "b1", 8));
    pending.insert_with_id(approval("alice", "t3", "a2", 7));
    let cancelled = pending.cancel_connection(7);
    let ids: Vec<&str> = cancelled.iter().map(|a| a.approval_id.as_str()).collect();
    assert_eq!(ids, vec!["a1", "a2"]);
    assert!(pending.resolve(&owner("bob", "t2"), "b1").is_ok());
    assert!(pending.cancel_connection(7).is_empty());
}

#[test]
fn insert_returns_a_fresh_id_that_resolves() {
    let mut pending = PendingApprovals::new();
    let id = pending.insert(owner("alice", "t1"), 3, "call-1".into(), "bash".into(), 5);
    assert_eq!(id.len(), 36);
    assert!(uuid::Uuid::parse_str(&id).is_ok());
    let other = pending.insert(owner("alice", "t1"), 3, "call-2".into(), "bash".into(), 5);
    assert_ne!(id, other);
    let resolved = pending.resolve(&owner("alice", "t1"), &id).unwrap();
    assert_eq!(resolved.call_id, "call-1");
    let outcome = resolved.into_resolution(false);
    assert_eq!(outcome.delivery, ApprovalDecisionDelivery::ConsumerGone);
    assert_eq!(outcome.tool, "bash");
}

#[test]
fn thread_grants_are_scoped() {
    let mut cache = ScopedApprovalCache::new();
    cache.allow_for_thread("alice".into(), "t1".into(), "bash".into());
    assert!(cache.is_allowed("alice", "t1", "bash"));
    assert!(!cache.is_allowed("alice", "t2", "bash"));
    assert!(!cache.is_allowed("bob", "t1", "bash"));
    cache.allow_for_thread("alice".into(), "t1".into(), "bash".into());
    cache.clear();
    assert!(!cache.is_allowed("alice", "t1", "bash"));
}
