use executive::compaction::ItemPayload;
use executive::lineage::CompactionLineage;

fn lineage() -> CompactionLineage {
    CompactionLineage {
        compaction_run: 1,
        strategy: "TailKeep".into(),
        degenerate: false,
        tokens_before: 1000,
        tokens_after: 500,
        evicted_count: 3,
    }
}

#[test]
fn lineage_notice_records_the_run() {
    match lineage().to_item_payload("{}") {
        ItemPayload::SystemNotice { content } => assert_eq!(
            content,
            "[compaction lineage run=1 strategy=TailKeep tokens_before=1000 tokens_after=500 evicted=3] {}"
        ),
        other => panic!("expected a notice, got {other:?}"),
    }
}

#[test]
fn degenerate_outcome_is_recorded() {
    assert!(lineage().with_degenerate_check(true).degenerate);
    assert!(!lineage().with_degenerate_check(false).degenerate);
    assert_eq!(lineage().with_degenerate_check(true).tokens_after, 500);
}
