use executive::session::SessionEventReconcileReport;

#[test]
fn replay_tally_counts_scanned_and_materialized_events() {
    let mut report = SessionEventReconcileReport::default();
    report.count_event(true);
    report.count_event(false);
    report.count_event(true);
    assert_eq!(report, SessionEventReconcileReport { scanned: 3, materialized: 2 });
    assert_eq!(SessionEventReconcileReport::new(), SessionEventReconcileReport::default());
}
