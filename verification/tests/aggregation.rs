use hires_logger::agg::{Benchmarks, Event, DEFAULT_DATA_CAPACITY, MAX_EVENT_BUCKET_SIZE};

#[test]
fn summarize_single_event_exact() {
    let mut bench = Benchmarks::new();
    assert!(bench.record(5, 10));
    assert!(bench.record(5, 20));
    assert!(bench.record(5, 30));
    let summary = bench.summary();
    assert_eq!(summary.len(), 1);
    assert_eq!(summary[0].id, 5);
    assert_eq!(summary[0].count, 3);
    assert_eq!(summary[0].sum, 60);
    let average = summary[0].sum as f32 / summary[0].count as f32;
    assert_eq!(average, 20.0);
}

#[test]
fn summary_is_in_event_id_order() {
    let mut bench = Benchmarks::new();
    assert!(bench.record(200, 7));
    assert!(bench.record(3, 1));
    assert!(bench.record(9, 2));
    assert!(bench.record(3, 5));
    let summary = bench.summary();
    let ids: Vec<u64> = summary.iter().map(|r| r.id).collect();
    assert_eq!(ids, vec![3, 9, 200]);
    assert_eq!(summary[0].count, 2);
    assert_eq!(summary[0].sum, 6);
    assert_eq!(summary[1].count, 1);
    assert_eq!(summary[2].count, 1);
}

#[test]
fn zero_count_events_are_filtered_out() {
    let bench = Benchmarks::new();
    assert!(bench.summary().is_empty());
}

#[test]
fn sample_cap_freezes_count_and_average() {
    let mut bench = Benchmarks::with_cap(2);
    assert!(bench.record(9, 10));
    assert!(bench.record(9, 20));
    // Beyond the cap: refused, not counted, average unchanged.
    assert!(!bench.record(9, 1000));
    assert!(!bench.record(9, 4));
    let summary = bench.summary();
    assert_eq!(summary.len(), 1);
    assert_eq!(summary[0].count, 2);
    assert_eq!(summary[0].sum, 30);
    let average = summary[0].sum as f32 / summary[0].count as f32;
    assert_eq!(average, 15.0);
}

#[test]
fn event_accumulator_cap_behaviour() {
    let mut event = Event::with_cap(7, 3);
    assert!(event.add_data(1));
    assert!(event.add_data(2));
    assert!(event.add_data(3));
    assert!(!event.add_data(4));
    assert_eq!(event.count, 3);
    assert_eq!(event.sum(), 6);
    let line = event.summary();
    assert_eq!(line.id, 7);
    assert_eq!(line.count, 3);
    assert_eq!(line.sum, 6);
}

#[test]
fn default_cap_matches_engine_default() {
    let event = Event::new(11);
    assert_eq!(event.cap, DEFAULT_DATA_CAPACITY);
    assert_eq!(event.count, 0);
    assert_eq!(event.id, 11);
}

#[test]
fn out_of_range_event_id_is_not_aggregated() {
    let mut bench = Benchmarks::new();
    assert!(!bench.record(MAX_EVENT_BUCKET_SIZE as u32, 5));
    assert!(!bench.record(1000, 5));
    assert!(bench.summary().is_empty());
}

#[test]
fn boundary_event_ids_have_buckets() {
    let mut bench = Benchmarks::new();
    assert!(bench.record(0, 40));
    assert!(bench.record((MAX_EVENT_BUCKET_SIZE - 1) as u32, 2));
    let summary = bench.summary();
    assert_eq!(summary.len(), 2);
    assert_eq!(summary[0].id, 0);
    assert_eq!(summary[0].sum, 40);
    assert_eq!(summary[1].id, (MAX_EVENT_BUCKET_SIZE - 1) as u64);
}

#[test]
fn large_samples_do_not_overflow_the_sum() {
    let mut event = Event::with_cap(1, 4);
    assert!(event.add_data(u64::MAX));
    assert!(event.add_data(u64::MAX));
    assert!(event.add_data(u64::MAX));
    let expected = (u64::MAX as u128) * 3;
    assert_eq!(event.sum(), expected);
}
