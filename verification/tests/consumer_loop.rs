use hires_logger::agg::Benchmarks;
use hires_logger::calib::{cycles_to_us, delta_us, AlignedU64};
use hires_logger::conn::HiResConn;
use hires_logger::consumer::{consume_step, DropReporter, StepOutcome};
use hires_logger::entry::LOG_FLAG_VALID;

#[test]
fn drop_delta_reporting_scenario() {
    // Counter observed as 0, 0, 5, 5, 12: exactly two warnings, for
    // deltas 5 and 7.
    let mut reporter = DropReporter::new();
    let mut warnings: Vec<u64> = Vec::new();
    for reading in [0u64, 0, 5, 5, 12] {
        if let Some(delta) = reporter.observe(reading) {
            warnings.push(delta);
        }
    }
    assert_eq!(warnings, vec![5, 7]);
}

#[test]
fn drop_deltas_sum_to_total_increase() {
    let mut reporter = DropReporter::new();
    let readings = [0u64, 3, 3, 10, 11, 11, 40];
    let mut total: u64 = 0;
    for reading in readings {
        if let Some(delta) = reporter.observe(reading) {
            total += delta;
        }
    }
    assert_eq!(total, 40);
}

#[test]
fn connect_validates_and_exposes_the_layout() {
    let conn = HiResConn::connect(64, 2500).unwrap();
    assert_eq!(conn.get_rb_capacity(), 64);
    assert_eq!(conn.get_rb_idx_mask(), 63);
    assert_eq!(conn.get_drop_num(), 0);
    assert_eq!(conn.get_cycles_per_us(), 2500);
    assert!(HiResConn::connect(12, 2500).is_err());
    assert!(HiResConn::connect(0, 2500).is_err());
}

#[test]
fn log_and_pop_through_the_connection() {
    let mut conn = HiResConn::connect(8, 1000).unwrap();
    assert!(conn.log(123456, 2, 7, 42, 43));
    let got = conn.pop().expect("one record is in flight");
    assert_eq!(got.timestamp, 123456);
    assert_eq!(got.cpu_id, 2);
    assert_eq!(got.event_id, 7);
    assert_eq!(got.data1, 42);
    assert_eq!(got.data2, 43);
    assert_ne!(got.flags & LOG_FLAG_VALID, 0);
    assert!(conn.pop().is_none());
}

#[test]
fn connection_overflow_is_counted() {
    let mut conn = HiResConn::connect(2, 1000).unwrap();
    assert!(conn.log(1, 0, 1, 0, 0));
    assert!(conn.log(2, 0, 1, 0, 0));
    assert!(!conn.log(3, 0, 1, 0, 0));
    assert_eq!(conn.get_drop_num(), 1);
}

#[test]
fn disconnect_twice_is_a_no_op() {
    let mut conn = HiResConn::connect(8, 1000).unwrap();
    assert!(conn.log(1, 0, 1, 10, 0));
    // First teardown releases; the second must not fault and must not
    // release anything again.
    assert!(conn.disconnect());
    assert!(!conn.disconnect());
    // A released connection refuses work, as the original handle does.
    assert!(!conn.log(2, 0, 1, 20, 0));
    assert!(conn.pop().is_none());
    assert_eq!(conn.get_rb_capacity(), 0);
    assert_eq!(conn.get_rb_idx_mask(), 0);
    assert_eq!(conn.get_drop_num(), 0);
}

#[test]
fn consume_step_processes_pending_records() {
    let mut conn = HiResConn::connect(8, 1000).unwrap();
    let mut bench = Benchmarks::new();
    let mut processed: u64 = 0;
    assert!(conn.log(10, 0, 5, 100, 0));
    assert!(conn.log(20, 1, 5, 300, 0));
    let r1 = consume_step(&mut conn, &mut bench, &mut processed, 10);
    assert!(matches!(r1, StepOutcome::Processed(true)));
    let r2 = consume_step(&mut conn, &mut bench, &mut processed, 10);
    assert!(matches!(r2, StepOutcome::Processed(true)));
    assert_eq!(processed, 2);
    let summary = bench.summary();
    assert_eq!(summary.len(), 1);
    assert_eq!(summary[0].id, 5);
    assert_eq!(summary[0].count, 2);
    assert_eq!(summary[0].sum, 400);
}

#[test]
fn consume_step_backoff_policy() {
    let mut conn = HiResConn::connect(8, 1000).unwrap();
    let mut bench = Benchmarks::new();
    let mut processed: u64 = 0;
    // Empty buffer, nonzero interval: sleep that long.
    let r = consume_step(&mut conn, &mut bench, &mut processed, 25);
    assert!(matches!(r, StepOutcome::EmptySleep(25)));
    // Empty buffer, zero interval: busy-poll.
    let r = consume_step(&mut conn, &mut bench, &mut processed, 0);
    assert!(matches!(r, StepOutcome::EmptySpin));
    assert_eq!(processed, 0);
}

#[test]
fn consume_step_on_released_connection_is_idle() {
    let mut conn = HiResConn::connect(8, 1000).unwrap();
    assert!(conn.log(10, 0, 3, 7, 0));
    conn.disconnect();
    let mut bench = Benchmarks::new();
    let mut processed: u64 = 0;
    let r = consume_step(&mut conn, &mut bench, &mut processed, 5);
    assert!(matches!(r, StepOutcome::EmptySleep(5)));
    assert_eq!(processed, 0);
    assert!(bench.summary().is_empty());
}

#[test]
fn consume_step_refuses_samples_beyond_the_cap() {
    let mut conn = HiResConn::connect(8, 1000).unwrap();
    let mut bench = Benchmarks::with_cap(1);
    let mut processed: u64 = 0;
    assert!(conn.log(1, 0, 2, 50, 0));
    assert!(conn.log(2, 0, 2, 60, 0));
    let r1 = consume_step(&mut conn, &mut bench, &mut processed, 0);
    assert!(matches!(r1, StepOutcome::Processed(true)));
    let r2 = consume_step(&mut conn, &mut bench, &mut processed, 0);
    assert!(matches!(r2, StepOutcome::Processed(false)));
    // Both records were drained and counted as processed, but only
    // the retained sample enters the average.
    assert_eq!(processed, 2);
    let summary = bench.summary();
    assert_eq!(summary[0].count, 1);
    assert_eq!(summary[0].sum, 50);
}

#[test]
fn cycle_calibration_conversions() {
    assert_eq!(cycles_to_us(25000, 2500), 10);
    assert_eq!(cycles_to_us(24999, 2500), 9);
    assert_eq!(cycles_to_us(0, 2500), 0);
    assert_eq!(delta_us(1000, 6000, 1000), 5);
    assert_eq!(delta_us(500, 500, 3), 0);
    let cal = AlignedU64(1234);
    assert_eq!(cal.value(), 1234);
}

#[test]
fn average_in_microseconds_at_report_time() {
    // Entry timestamps are raw cycle counts; the division by the
    // cached calibration constant happens at report time.
    let mut conn = HiResConn::connect(8, 2000).unwrap();
    let mut bench = Benchmarks::new();
    let mut processed: u64 = 0;
    assert!(conn.log(0, 0, 1, 6000, 0));
    assert!(conn.log(0, 0, 1, 10000, 0));
    while !matches!(
        consume_step(&mut conn, &mut bench, &mut processed, 0),
        StepOutcome::EmptySpin
    ) {}
    let summary = bench.summary();
    let avg_cycles = summary[0].sum as f32 / summary[0].count as f32;
    let avg_us = avg_cycles / conn.get_cycles_per_us() as f32;
    assert_eq!(avg_cycles, 8000.0);
    assert_eq!(avg_us, 4.0);
}
