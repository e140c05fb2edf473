//! The fixed-size log entry record shared between producers and the
//! consumer, and the per-slot flag bits of the publication handshake.

use vstd::prelude::*;

verus! {

/// Flag bit: the slot's payload write is complete and safe to read.
pub const LOG_FLAG_VALID: u16 = 0x1;

/// Flag bit: the entry originates from a kernel-context producer.
pub const LOG_FLAG_KERNEL: u16 = 0x2;

/// One fixed-width telemetry record. A slot of the ring buffer holds
/// exactly one of these; the `flags` field carries the handshake bit
/// that publishes the payload fields to the consumer.
#[derive(Clone, Copy, PartialEq, Eq, Structural, Debug)]
pub struct LogEntry {
    /// Raw hardware cycle count at the moment the event was recorded.
    pub timestamp: u64,
    /// Identity of the producing core.
    pub cpu_id: u32,
    /// Event type/category; also the aggregation key.
    pub event_id: u32,
    /// Bitset; `LOG_FLAG_VALID` marks the slot readable,
    /// `LOG_FLAG_KERNEL` marks provenance.
    pub flags: u16,
    /// Caller-defined payload.
    pub data1: u64,
    /// Caller-defined payload.
    pub data2: u64,
}

impl LogEntry {
    /// An all-zero record: the state of a slot that no producer has
    /// claimed yet (`VALID` unset).
    pub fn empty() -> (r: LogEntry)
        ensures
            r == (LogEntry {
                timestamp: 0u64,
                cpu_id: 0u32,
                event_id: 0u32,
                flags: 0u16,
                data1: 0u64,
                data2: 0u64,
            }),
    {
        LogEntry { timestamp: 0, cpu_id: 0, event_id: 0, flags: 0, data1: 0, data2: 0 }
    }

    /// Whether the publication handshake bit is set on this record.
    pub fn is_valid(&self) -> (r: bool)
        ensures
            r == (self.flags & LOG_FLAG_VALID != 0),
    {
        self.flags & LOG_FLAG_VALID != 0
    }
}

/// The record a producer publishes for payload `e`: the same payload
/// fields with the `VALID` handshake bit set in `flags`.
pub open spec fn published(e: LogEntry) -> LogEntry {
    LogEntry { flags: e.flags | LOG_FLAG_VALID, ..e }
}

/// A published record always carries the `VALID` bit.
pub proof fn lemma_published_is_valid(e: LogEntry)
    ensures
        published(e).flags & LOG_FLAG_VALID != 0,
{
    let f = e.flags;
    assert((f | LOG_FLAG_VALID) & LOG_FLAG_VALID != 0) by (bit_vector);
}

} // verus!
