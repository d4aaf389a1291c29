//! Production admission of side-effecting capability calls.
//!
//! Every admitted call gets an execution permit that expires 30 seconds
//! after admission. Calls that require a sandbox are admitted with a
//! `Required` sandbox decision, which the executor must decline until
//! sandboxed execution exists (fail-closed). A permit is settled at most
//! once, and cannot be revoked after it was settled.

use vstd::prelude::*;
use crate::keyed::IdMap;
use crate::ids::random_uuid;
use crate::budget::AdmissionError;

verus! {

/// Lifetime of a permit, in milliseconds.
pub const PERMIT_TTL_MS: u64 = 30_000;

/// What sandboxing a capability call asks for.
#[derive(Debug, Clone, Copy, PartialEq, Eq, Structural)]
pub enum SandboxRequirement {
    NotRequired,
    Required,
    RequiredThenPromote,
}

/// What the executor must do about sandboxing.
#[derive(Debug, Clone, Copy, PartialEq, Eq, Structural)]
pub enum SandboxDecision {
    NotApplicable,
    Required,
    Passed,
}

/// The sandbox decision for a requirement: anything that needs a sandbox
/// is `Required`.
pub open spec fn sandbox_decision(requirement: SandboxRequirement) -> SandboxDecision {
    match requirement {
        SandboxRequirement::NotRequired => SandboxDecision::NotApplicable,
        SandboxRequirement::Required => SandboxDecision::Required,
        SandboxRequirement::RequiredThenPromote => SandboxDecision::Required,
    }
}

/// A request to run a capability.
#[derive(Debug, Clone)]
pub struct AdmissionRequest {
    pub operation_id: u128,
    pub process_id: u128,
    pub principal: String,
    pub capability: String,
    pub action: String,
    pub sandbox: SandboxRequirement,
}

/// Permission to run one capability call until `expires_at_ms`.
#[derive(Debug, Clone)]
pub struct ExecutionPermit {
    pub id: u128,
    pub operation_id: u128,
    pub process_id: u128,
    pub capability: String,
    pub expires_at_ms: u64,
    pub sandbox: SandboxDecision,
    pub budget_reservation: Option<u128>,
    pub lease: Option<u128>,
}

/// `a + b`, or `u64::MAX` when that overflows.
pub open spec fn sat_add(a: u64, b: u64) -> u64 {
    if a + b > u64::MAX {
        u64::MAX
    } else {
        (a + b) as u64
    }
}

impl ExecutionPermit {
    /// Whether the permit is still valid at clock reading `now_ms`.
    pub fn is_valid_at(&self, now_ms: u64) -> (valid: bool)
        ensures
            valid == (now_ms < self.expires_at_ms),
    {
        now_ms < self.expires_at_ms
    }
}

/// Admission controller that tracks which permits were settled.
#[derive(Debug)]
pub struct ProductionAdmissionController {
    settled: IdMap<()>,
}

impl ProductionAdmissionController {
    /// Ids of the permits settled so far.
    pub closed spec fn settled(&self) -> Set<u128> {
        self.settled@.dom()
    }

    pub closed spec fn wf(&self) -> bool {
        self.settled.wf()
    }

    pub fn new() -> (controller: Self)
        ensures
            controller.wf(),
            controller.settled() == Set::<u128>::empty(),
    {
        let controller = ProductionAdmissionController { settled: IdMap::new() };
        proof {
            assert(controller.settled() =~= Set::<u128>::empty());
        }
        controller
    }

    /// Admits `request` at clock reading `now_ms` under permit id `id`.
    pub fn admit_with_id(&self, request: AdmissionRequest, now_ms: u64, id: u128) -> (permit:
        ExecutionPermit)
        ensures
            permit.id == id,
            permit.operation_id == request.operation_id,
            permit.process_id == request.process_id,
            permit.capability == request.capability,
            permit.expires_at_ms == sat_add(now_ms, PERMIT_TTL_MS),
            permit.sandbox == sandbox_decision(request.sandbox),
            permit.budget_reservation is None,
            permit.lease is None,
    {
        let sandbox = match request.sandbox {
            SandboxRequirement::NotRequired => SandboxDecision::NotApplicable,
            SandboxRequirement::Required | SandboxRequirement::RequiredThenPromote => {
                SandboxDecision::Required
            },
        };
        ExecutionPermit {
            id,
            operation_id: request.operation_id,
            process_id: request.process_id,
            capability: request.capability,
            expires_at_ms: now_ms.saturating_add(PERMIT_TTL_MS),
            sandbox,
            budget_reservation: None,
            lease: None,
        }
    }

    /// Admits `request` at clock reading `now_ms` under a fresh random
    /// permit id; see `admit_with_id`.
    pub fn admit_call(&self, request: AdmissionRequest, now_ms: u64) -> (permit: ExecutionPermit)
        ensures
            permit.id != 0,
            permit.operation_id == request.operation_id,
            permit.process_id == request.process_id,
            permit.capability == request.capability,
            permit.expires_at_ms == sat_add(now_ms, PERMIT_TTL_MS),
            permit.sandbox == sandbox_decision(request.sandbox),
            permit.budget_reservation is None,
            permit.lease is None,
    {
        let id = random_uuid();
        self.admit_with_id(request, now_ms, id)
    }

    /// Settles permit `permit_id`: refused when it was settled already.
    pub fn settle(&mut self, permit_id: u128) -> (outcome: Result<(), AdmissionError>)
        requires
            old(self).wf(),
        ensures
            final(self).wf(),
            old(self).settled().contains(permit_id) ==> outcome == Err::<(), AdmissionError>(
                AdmissionError::AlreadySettled,
            ) && final(self).settled() == old(self).settled(),
            !old(self).settled().contains(permit_id) ==> outcome is Ok && final(self).settled()
                == old(self).settled().insert(permit_id),
    {
        if self.settled.contains_key(permit_id) {
            return Err(AdmissionError::AlreadySettled);
        }
        self.settled.insert(permit_id, ());
        proof {
            assert(self.settled() =~= old(self).settled().insert(permit_id));
        }
        Ok(())
    }

    /// Revokes permit `permit_id`: refused after it was settled; otherwise
    /// nothing to do (revocation is idempotent).
    pub fn revoke(&self, permit_id: u128) -> (outcome: Result<(), AdmissionError>)
        requires
            self.wf(),
        ensures
            outcome == if self.settled().contains(permit_id) {
                Err::<(), AdmissionError>(AdmissionError::AlreadySettled)
            } else {
                Ok(())
            },
    {
        if self.settled.contains_key(permit_id) {
            Err(AdmissionError::AlreadySettled)
        } else {
            Ok(())
        }
    }
}

/// A permit is settled at most once: a second settlement of the same permit
/// is refused, and so is a revocation after settlement.
pub proof fn law_settle_once(settled: Set<u128>, permit_id: u128)
    ensures
        settled.insert(permit_id).contains(permit_id),
{
}

} // verus!
