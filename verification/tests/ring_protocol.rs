use hires_logger::entry::{LogEntry, LOG_FLAG_KERNEL, LOG_FLAG_VALID};
use hires_logger::ring::SharedRingBuffer;

fn entry(i: u64) -> LogEntry {
    LogEntry {
        timestamp: i * 1000 + 17,
        cpu_id: (i % 4) as u32,
        event_id: (i % 7) as u32,
        flags: 0,
        data1: i * i,
        data2: i.wrapping_mul(0x9e3779b97f4a7c15),
    }
}

fn assert_payload_matches(got: &LogEntry, want: &LogEntry) {
    assert_eq!(got.timestamp, want.timestamp);
    assert_eq!(got.cpu_id, want.cpu_id);
    assert_eq!(got.event_id, want.event_id);
    assert_eq!(got.data1, want.data1);
    assert_eq!(got.data2, want.data2);
    assert_ne!(got.flags & LOG_FLAG_VALID, 0);
}

#[test]
fn round_trip_preserves_order_and_fields() {
    let mut rb = SharedRingBuffer::new(8).unwrap();
    for i in 0..5u64 {
        assert!(rb.try_write(entry(i)));
    }
    assert_eq!(rb.in_flight(), 5);
    for i in 0..5u64 {
        let got = rb.pop().expect("entry must be available");
        assert_payload_matches(&got, &entry(i));
    }
    assert!(rb.pop().is_none());
    assert_eq!(rb.dropped_count(), 0);
}

#[test]
fn overflow_drops_exactly_k_and_keeps_first_c() {
    let mut rb = SharedRingBuffer::new(4).unwrap();
    for i in 0..4u64 {
        assert!(rb.try_write(entry(i)));
    }
    // K = 3 further writes must all be refused and counted.
    for i in 4..7u64 {
        assert!(!rb.try_write(entry(i)));
    }
    assert_eq!(rb.dropped_count(), 3);
    // The first C entries are intact and readable.
    for i in 0..4u64 {
        let got = rb.pop().expect("entry must be available");
        assert_payload_matches(&got, &entry(i));
    }
    assert!(rb.pop().is_none());
    assert_eq!(rb.dropped_count(), 3);
}

#[test]
fn wrap_around_never_yields_stale_or_unpublished_data() {
    // Interleave writes and reads across far more than `capacity`
    // total operations; every read must return a published record
    // with exactly the fields of the oldest unread write.
    let mut rb = SharedRingBuffer::new(4).unwrap();
    let mut next_write: u64 = 0;
    let mut next_read: u64 = 0;
    // Pattern: two writes, one read, repeated well past wrap-around.
    for _round in 0..32 {
        for _ in 0..2 {
            if rb.try_write(entry(next_write)) {
                next_write += 1;
            }
        }
        if let Some(got) = rb.pop() {
            assert_payload_matches(&got, &entry(next_read));
            next_read += 1;
        }
    }
    // Drain the rest; order and payloads must still line up.
    while let Some(got) = rb.pop() {
        assert_payload_matches(&got, &entry(next_read));
        next_read += 1;
    }
    assert_eq!(next_read, next_write);
    assert!(next_write > 8, "the test must wrap the 4-slot ring several times");
}

#[test]
fn consumer_observes_valid_only_with_exact_payload() {
    // Deterministic payload pattern paired with the claim index: what
    // comes back after a successful VALID check must equal what the
    // producer wrote for that index, bit for bit.
    let mut rb = SharedRingBuffer::new(16).unwrap();
    let mut claimed: u64 = 0;
    let mut consumed: u64 = 0;
    for step in 0..200u64 {
        if step % 3 != 2 {
            if rb.try_write(entry(claimed)) {
                claimed += 1;
            }
        } else if let Some(got) = rb.pop() {
            assert_ne!(got.flags & LOG_FLAG_VALID, 0);
            assert_payload_matches(&got, &entry(consumed));
            consumed += 1;
        }
    }
}

#[test]
fn kernel_flag_survives_publication() {
    let mut rb = SharedRingBuffer::new(2).unwrap();
    let mut e = entry(1);
    e.flags = LOG_FLAG_KERNEL;
    assert!(rb.try_write(e));
    let got = rb.pop().unwrap();
    assert_ne!(got.flags & LOG_FLAG_KERNEL, 0);
    assert_ne!(got.flags & LOG_FLAG_VALID, 0);
}

#[test]
fn capacity_must_be_a_power_of_two() {
    assert!(SharedRingBuffer::new(0).is_err());
    assert!(SharedRingBuffer::new(3).is_err());
    assert!(SharedRingBuffer::new(12).is_err());
    assert!(SharedRingBuffer::new(1023).is_err());
    assert!(SharedRingBuffer::new(1).is_ok());
    assert!(SharedRingBuffer::new(2).is_ok());
    assert!(SharedRingBuffer::new(1024).is_ok());
}

#[test]
fn single_slot_ring_alternates() {
    let mut rb = SharedRingBuffer::new(1).unwrap();
    assert_eq!(rb.index_mask(), 0);
    for i in 0..10u64 {
        assert!(rb.try_write(entry(i)));
        assert!(!rb.try_write(entry(1000 + i)));
        let got = rb.pop().unwrap();
        assert_payload_matches(&got, &entry(i));
    }
    assert_eq!(rb.dropped_count(), 10);
}

#[test]
fn capacity_error_is_described() {
    let err = match SharedRingBuffer::new(3) {
        Err(err) => err,
        Ok(_) => panic!("a slot count of 3 must be refused"),
    };
    assert!(!err.message().is_empty());
}

#[test]
fn getters_report_the_layout() {
    let rb = SharedRingBuffer::new(64).unwrap();
    assert_eq!(rb.capacity(), 64);
    assert_eq!(rb.index_mask(), 63);
    assert_eq!(rb.dropped_count(), 0);
    assert_eq!(rb.in_flight(), 0);
}

#[test]
fn empty_and_valid_bits() {
    let zero = LogEntry::empty();
    assert_eq!(zero.flags, 0);
    assert!(!zero.is_valid());
    assert_eq!(zero.timestamp, 0);
    assert_eq!(zero.data1, 0);
}
