//! Lifecycle tracking of tool calls: registered, called, settled.
//!
//! Times are readings of a monotonic millisecond clock taken by the caller;
//! every recorded time is relative to the tracker's creation.

use vstd::prelude::*;
use crate::keyed::TextMap;

verus! {

/// State of a tracked tool call.
#[derive(Debug, Clone)]
pub struct ToolCallState {
    pub tool_call_id: String,
    pub tool_name: String,
    /// Milliseconds after the tracker's creation at registration.
    pub registered_at_epoch_ms: u64,
    /// Whether the call was sent to the provider.
    pub called: bool,
    /// Whether the call received a final result.
    pub settled: bool,
    /// Whether the call ended in error.
    pub is_error: bool,
    /// Milliseconds from registration to settlement (set on settle).
    pub elapsed_ms: Option<u64>,
}

/// `a - b`, or zero when that underflows.
pub open spec fn sat_sub(a: u64, b: u64) -> u64 {
    if a >= b {
        (a - b) as u64
    } else {
        0
    }
}

/// A call marked as sent.
pub open spec fn called_state(s: ToolCallState) -> ToolCallState {
    ToolCallState { called: true, ..s }
}

/// A call settled at `elapsed` milliseconds after the tracker's creation.
pub open spec fn settled_state(s: ToolCallState, is_error: bool, elapsed: u64) -> ToolCallState {
    ToolCallState {
        settled: true,
        is_error,
        elapsed_ms: Some((elapsed - s.registered_at_epoch_ms) as u64),
        ..s
    }
}

/// Whether a call is still waiting for its result.
pub open spec fn is_unsettled(s: ToolCallState) -> bool {
    !s.settled
}

/// Tracks tool calls through their lifecycle.
#[derive(Debug)]
pub struct ToolTracker {
    calls: TextMap<ToolCallState>,
    created_at_ms: u64,
}

impl ToolTracker {
    /// Tracked calls by id.
    pub closed spec fn calls(&self) -> Map<Seq<char>, ToolCallState> {
        self.calls@
    }

    /// Tracked calls in registration order.
    pub closed spec fn calls_in_order(&self) -> Seq<ToolCallState> {
        self.calls.values_in_order()
    }

    /// The clock reading at creation.
    pub closed spec fn created_at(&self) -> u64 {
        self.created_at_ms
    }

    pub closed spec fn wf(&self) -> bool {
        self.calls.wf()
    }

    /// Milliseconds since creation at clock reading `now_ms`.
    pub open spec fn elapsed_at(&self, now_ms: u64) -> u64 {
        sat_sub(now_ms, self.created_at())
    }

    /// No call was registered later than `elapsed`.
    pub open spec fn registered_by(&self, elapsed: u64) -> bool {
        forall|k: Seq<char>| #[trigger]
            self.calls().contains_key(k) ==> self.calls()[k].registered_at_epoch_ms <= elapsed
    }

    /// A tracker created at clock reading `created_at_ms`.
    pub fn new(created_at_ms: u64) -> (tracker: Self)
        ensures
            tracker.wf(),
            tracker.created_at() == created_at_ms,
            tracker.calls() == Map::<Seq<char>, ToolCallState>::empty(),
            tracker.calls_in_order() == Seq::<ToolCallState>::empty(),
    {
        let tracker = ToolTracker { calls: TextMap::new(), created_at_ms };
        proof {
            assert(tracker.calls.values_in_order() =~= Seq::<ToolCallState>::empty());
        }
        tracker
    }

    fn elapsed_ms(&self, now_ms: u64) -> (elapsed: u64)
        ensures
            elapsed == self.elapsed_at(now_ms),
    {
        now_ms.saturating_sub(self.created_at_ms)
    }

    /// Registers a call before it is sent; a call registered again starts
    /// over.
    pub fn register(&mut self, tool_call_id: &str, tool_name: &str, now_ms: u64)
        requires
            old(self).wf(),
        ensures
            final(self).wf(),
            final(self).created_at() == old(self).created_at(),
            final(self).calls() == old(self).calls().insert(
                tool_call_id@,
                ToolCallState {
                    tool_call_id: final(self).calls()[tool_call_id@].tool_call_id,
                    tool_name: final(self).calls()[tool_call_id@].tool_name,
                    registered_at_epoch_ms: old(self).elapsed_at(now_ms),
                    called: false,
                    settled: false,
                    is_error: false,
                    elapsed_ms: None,
                },
            ),
            final(self).calls()[tool_call_id@].tool_call_id@ == tool_call_id@,
            final(self).calls()[tool_call_id@].tool_name@ == tool_name@,
    {
        let state = ToolCallState {
            tool_call_id: tool_call_id.to_owned(),
            tool_name: tool_name.to_owned(),
            registered_at_epoch_ms: self.elapsed_ms(now_ms),
            called: false,
            settled: false,
            is_error: false,
            elapsed_ms: None,
        };
        self.calls.insert(tool_call_id.to_owned(), state);
    }

    /// Marks a call as sent; false for an unknown call.
    pub fn mark_called(&mut self, tool_call_id: &str) -> (known: bool)
        requires
            old(self).wf(),
        ensures
            final(self).wf(),
            known == old(self).calls().contains_key(tool_call_id@),
            final(self).created_at() == old(self).created_at(),
            known ==> final(self).calls() == old(self).calls().insert(
                tool_call_id@,
                called_state(old(self).calls()[tool_call_id@]),
            ),
            !known ==> final(self).calls() == old(self).calls(),
            final(self).calls_in_order().len() == old(self).calls_in_order().len(),
    {
        let i = match self.calls.index_of(tool_call_id) {
            Some(i) => i,
            None => {
                return false;
            },
        };
        proof {
            self.calls.lemma_in_order();
        }
        let current = self.calls.value_at(i);
        let updated = ToolCallState {
            tool_call_id: current.tool_call_id.clone(),
            tool_name: current.tool_name.clone(),
            registered_at_epoch_ms: current.registered_at_epoch_ms,
            called: true,
            settled: current.settled,
            is_error: current.is_error,
            elapsed_ms: current.elapsed_ms,
        };
        self.calls.set_value_at(i, updated);
        true
    }

    /// Marks a call as settled at clock reading `now_ms`, recording whether
    /// it failed and how long it took; false for an unknown call.
    pub fn mark_settled(&mut self, tool_call_id: &str, is_error: bool, now_ms: u64) -> (known: bool)
        requires
            old(self).wf(),
            old(self).registered_by(old(self).elapsed_at(now_ms)),
        ensures
            final(self).wf(),
            known == old(self).calls().contains_key(tool_call_id@),
            final(self).created_at() == old(self).created_at(),
            known ==> final(self).calls() == old(self).calls().insert(
                tool_call_id@,
                settled_state(
                    old(self).calls()[tool_call_id@],
                    is_error,
                    old(self).elapsed_at(now_ms),
                ),
            ),
            !known ==> final(self).calls() == old(self).calls(),
            final(self).calls_in_order().len() == old(self).calls_in_order().len(),
    {
        let now = self.elapsed_ms(now_ms);
        let i = match self.calls.index_of(tool_call_id) {
            Some(i) => i,
            None => {
                return false;
            },
        };
        proof {
            self.calls.lemma_in_order();
            assert(self.calls()[tool_call_id@].registered_at_epoch_ms <= now);
        }
        let current = self.calls.value_at(i);
        let updated = ToolCallState {
            tool_call_id: current.tool_call_id.clone(),
            tool_name: current.tool_name.clone(),
            registered_at_epoch_ms: current.registered_at_epoch_ms,
            called: current.called,
            settled: true,
            is_error,
            elapsed_ms: Some(now - current.registered_at_epoch_ms),
        };
        self.calls.set_value_at(i, updated);
        true
    }

    /// The calls still waiting for their result, in registration order.
    pub fn unsettled_calls(&self) -> (unsettled: Vec<&ToolCallState>)
        requires
            self.wf(),
        ensures
            unsettled@.map_values(|s: &ToolCallState| *s) == self.calls_in_order().filter(
                |s: ToolCallState| is_unsettled(s),
            ),
    {
        let mut out: Vec<&ToolCallState> = Vec::new();
        let ghost all = self.calls_in_order();
        let ghost keep = |s: ToolCallState| is_unsettled(s);
        let n = self.calls.count();
        let mut i: usize = 0;
        while i < n
            invariant
                0 <= i <= n,
                n == all.len(),
                all == self.calls_in_order(),
                keep == (|s: ToolCallState| is_unsettled(s)),
                out@.map_values(|s: &ToolCallState| *s) == all.take(i as int).filter(keep),
            decreases n - i,
        {
            let state = self.calls.value_at(i);
            if !state.settled {
                out.push(state);
            }
            proof {
                reveal(Seq::filter);
                assert(all.take(i + 1).drop_last() =~= all.take(i as int));
                assert(all.take(i + 1).last() == all[i as int]);
                assert(out@.map_values(|s: &ToolCallState| *s) =~= all.take(i + 1).filter(keep));
            }
            i = i + 1;
        }
        proof {
            assert(all.take(n as int) =~= all);
        }
        out
    }

    /// Fails every call still waiting for its result (on abort), settling
    /// it as an error at clock reading `now_ms`; returns how many.
    pub fn fail_unsettled(&mut self, now_ms: u64) -> (failed: usize)
        requires
            old(self).wf(),
            old(self).registered_by(old(self).elapsed_at(now_ms)),
        ensures
            final(self).wf(),
            final(self).created_at() == old(self).created_at(),
            failed == old(self).calls_in_order().filter(|s: ToolCallState| is_unsettled(s)).len(),
            final(self).calls_in_order().len() == old(self).calls_in_order().len(),
            forall|j: int|
                0 <= j < old(self).calls_in_order().len() ==> #[trigger] final(self).calls_in_order()[j] == if is_unsettled(old(self).calls_in_order()[j]) {
                    settled_state(old(self).calls_in_order()[j], true, old(self).elapsed_at(now_ms))
                } else {
                    old(self).calls_in_order()[j]
                },
            final(self).calls().dom() == old(self).calls().dom(),
    {
        let now = self.elapsed_ms(now_ms);
        let ghost before = self.calls_in_order();
        let ghost keep = |s: ToolCallState| is_unsettled(s);
        proof {
            self.calls.lemma_in_order();
        }
        let n = self.calls.count();
        let mut count: usize = 0;
        let mut i: usize = 0;
        while i < n
            invariant
                0 <= i <= n,
                n == before.len(),
                self.calls.wf(),
                old(self).calls.wf(),
                self.created_at_ms == old(self).created_at_ms,
                keep == (|s: ToolCallState| is_unsettled(s)),
                self.calls_in_order().len() == n,
                self.calls.keys_in_order() == old(self).calls.keys_in_order(),
                forall|k: Seq<char>| #[trigger]
                    old(self).calls@.contains_key(k) ==> old(self).calls@[k].registered_at_epoch_ms
                        <= now,
                before == old(self).calls_in_order(),
                count == before.take(i as int).filter(keep).len(),
                count <= i,
                forall|j: int|
                    0 <= j < i ==> #[trigger] self.calls_in_order()[j] == if is_unsettled(
                        before[j],
                    ) {
                        settled_state(before[j], true, now)
                    } else {
                        before[j]
                    },
                forall|j: int| i <= j < n ==> #[trigger] self.calls_in_order()[j] == before[j],
                self.calls@.dom() == old(self).calls@.dom(),
            decreases n - i,
        {
            proof {
                old(self).calls.lemma_in_order();
                assert(old(self).calls@.contains_key(old(self).calls.keys_in_order()[i as int]));
            }
            let state = self.calls.value_at(i);
            if !state.settled {
                let updated = ToolCallState {
                    tool_call_id: state.tool_call_id.clone(),
                    tool_name: state.tool_name.clone(),
                    registered_at_epoch_ms: state.registered_at_epoch_ms,
                    called: state.called,
                    settled: true,
                    is_error: true,
                    elapsed_ms: Some(now - state.registered_at_epoch_ms),
                };
                self.calls.set_value_at(i, updated);
                count = count + 1;
            }
            proof {
                reveal(Seq::filter);
                assert(before.take(i + 1).drop_last() =~= before.take(i as int));
                assert(before.take(i + 1).last() == before[i as int]);
            }
            i = i + 1;
        }
        proof {
            assert(before.take(n as int) =~= before);
        }
        count
    }

    /// Number of tracked calls.
    pub fn total_calls(&self) -> (n: usize)
        requires
            self.wf(),
        ensures
            n == self.calls().len(),
    {
        self.calls.len()
    }
}

} // verus!
