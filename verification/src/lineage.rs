//! The lineage notice that records which compaction run produced a
//! session's summary.

use vstd::prelude::*;
use vstd::string::StringExecFns;
use crate::compaction::{notice_of, ItemPayload};
use crate::context::{decimal, decimal_text};

verus! {

/// Which compaction run produced a summary for a session.
#[derive(Debug, Clone)]
pub struct CompactionLineage {
    /// Monotonic compaction run number within the session.
    pub compaction_run: u64,
    /// Strategy that produced the summary.
    pub strategy: String,
    /// Whether the summary failed degenerate detection.
    pub degenerate: bool,
    /// Token count before compaction.
    pub tokens_before: usize,
    /// Token count after compaction.
    pub tokens_after: usize,
    /// Messages evicted during this compaction run.
    pub evicted_count: usize,
}

/// The text of the lineage notice, given the lineage's JSON encoding.
pub open spec fn lineage_notice(lineage: CompactionLineage, json: Seq<char>) -> Seq<char> {
    "[compaction lineage run="@ + decimal(lineage.compaction_run as nat) + " strategy="@
        + lineage.strategy@ + " tokens_before="@ + decimal(lineage.tokens_before as nat)
        + " tokens_after="@ + decimal(lineage.tokens_after as nat) + " evicted="@ + decimal(
        lineage.evicted_count as nat,
    ) + "] "@ + json
}

impl CompactionLineage {
    /// The system notice that records this lineage at the end of the run;
    /// `lineage_json` is the lineage's JSON encoding (empty when it could
    /// not be encoded).
    pub fn to_item_payload(&self, lineage_json: &str) -> (item: ItemPayload)
        ensures
            notice_of(item) == Some(lineage_notice(*self, lineage_json@)),
    {
        let mut content = "[compaction lineage run=".to_owned();
        content.append(decimal_text(self.compaction_run).as_str());
        content.append(" strategy=");
        content.append(self.strategy.as_str());
        content.append(" tokens_before=");
        content.append(decimal_text(self.tokens_before as u64).as_str());
        content.append(" tokens_after=");
        content.append(decimal_text(self.tokens_after as u64).as_str());
        content.append(" evicted=");
        content.append(decimal_text(self.evicted_count as u64).as_str());
        content.append("] ");
        content.append(lineage_json);
        ItemPayload::SystemNotice { content }
    }

    /// The lineage with the outcome of degenerate-summary detection.
    pub fn with_degenerate_check(self, degenerate: bool) -> (checked: Self)
        ensures
            checked == (CompactionLineage { degenerate, ..self }),
    {
        CompactionLineage { degenerate, ..self }
    }
}

} // verus!
