//! Stored session rows and the tally of a replay of committed session
//! events.

use vstd::prelude::*;

verus! {

/// One stored session.
#[derive(Debug, Clone)]
pub struct SessionRecord {
    pub session_id: String,
    pub created_at: String,
    pub updated_at: String,
    pub status: String,
    pub messages_json: String,
    pub metadata_json: String,
}

/// How many committed events a replay scanned, and how many of them it
/// materialized into the session read model.
#[derive(Debug, Clone, Copy, PartialEq, Eq, Structural)]
pub struct SessionEventReconcileReport {
    pub scanned: u64,
    pub materialized: u64,
}

impl SessionEventReconcileReport {
    /// The tally before any event.
    pub fn new() -> (report: Self)
        ensures
            report.scanned == 0,
            report.materialized == 0,
    {
        SessionEventReconcileReport { scanned: 0, materialized: 0 }
    }

    /// Counts one replayed event; a session event is also counted as
    /// materialized.
    pub fn count_event(&mut self, session_event: bool)
        requires
            old(self).scanned < u64::MAX,
            old(self).materialized < u64::MAX,
        ensures
            final(self).scanned == old(self).scanned + 1,
            final(self).materialized == old(self).materialized + if session_event {
                1int
            } else {
                0int
            },
    {
        self.scanned = self.scanned + 1;
        if session_event {
            self.materialized = self.materialized + 1;
        }
    }
}

impl Default for SessionEventReconcileReport {
    fn default() -> (report: Self)
        ensures
            report.scanned == 0,
            report.materialized == 0,
    {
        SessionEventReconcileReport::new()
    }
}

} // verus!
