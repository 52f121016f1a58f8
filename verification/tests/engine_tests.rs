use fs_hunt::engine::{Aggregator, Scan};

#[test]
fn in_flight_counts_queued_and_outstanding() {
    let mut scan: Scan<u32> = Scan::new();
    assert_eq!(scan.in_flight_count(), 0);
    assert!(scan.is_done());

    scan.push_item(10);
    scan.push_item(11);
    assert_eq!(scan.in_flight_count(), 2);
    assert!(!scan.is_done());

    // Popping a unit keeps it in flight until it is completed.
    let item = scan.take_work();
    assert_eq!(item, Some(11));
    assert_eq!(scan.in_flight_count(), 2);
    assert!(!scan.is_done());

    scan.complete_unit();
    assert_eq!(scan.in_flight_count(), 1);
    assert!(!scan.is_done());
}

#[test]
fn empty_frontier_with_outstanding_unit_is_not_done() {
    // The race the in-flight counter exists to close: the queue is empty
    // while a sibling unit is still being enumerated, so the scan must not
    // report completion.
    let mut scan: Scan<u32> = Scan::new();
    scan.push_item(1);
    let _ = scan.take_work();
    assert_eq!(scan.in_flight_count(), 1);
    assert!(!scan.is_done());
    assert_eq!(scan.take_work(), None);

    // The outstanding unit forwards two children, then completes.
    scan.push_item(2);
    scan.push_item(3);
    scan.complete_unit();
    assert_eq!(scan.in_flight_count(), 2);
    assert!(!scan.is_done());

    let _ = scan.take_work();
    scan.complete_unit();
    let _ = scan.take_work();
    scan.complete_unit();
    assert_eq!(scan.in_flight_count(), 0);
    assert!(scan.is_done());
}

#[test]
fn frontier_pops_newest_first() {
    let mut scan: Scan<&str> = Scan::new();
    scan.push_item("a");
    scan.push_item("b");
    assert_eq!(scan.take_work(), Some("b"));
    assert_eq!(scan.take_work(), Some("a"));
    assert_eq!(scan.take_work(), None);
}

#[test]
fn cancellation_releases_workers_immediately() {
    let mut scan: Scan<u32> = Scan::new();
    scan.push_item(1);
    scan.push_item(2);
    let _ = scan.take_work();
    scan.cancel();
    // Pending work is no longer handed out and the scan reports done even
    // though a unit is still in flight.
    assert_eq!(scan.take_work(), None);
    assert!(scan.is_done());
    assert_eq!(scan.in_flight_count(), 2);
}

#[test]
fn aggregator_counts_by_kind() {
    let mut agg = Aggregator::new();
    assert_eq!(agg.summary(), (0, 0));
    assert_eq!(agg.error_count(), 0);
    agg.record_match(true);
    agg.record_match(false);
    agg.record_match(false);
    agg.record_error();
    assert_eq!(agg.summary(), (1, 2));
    assert_eq!(agg.error_count(), 1);
}
