//! The consumer-side connection: exclusive owner of the ring buffer's
//! `tail` cursor and of the cached calibration constant, released
//! exactly once (a second teardown is a no-op, never a fault).
//!
//! The collaborator that establishes the mapping hands over the
//! region's capacity and the cycles-per-microsecond constant as plain
//! values; `connect` validates the power-of-two startup invariant and
//! builds the encapsulated buffer from them.

use vstd::prelude::*;

use crate::calib::AlignedU64;
use crate::entry::{published, LogEntry, LOG_FLAG_VALID};
use crate::protocol::{step_read, step_write, RingTrace};
use crate::ring::{is_ring_capacity, SharedRingBuffer};
use crate::HiResError;

verus! {

/// The record a producer submits through `log`: payload fields as
/// given, handshake bits clear until publication.
pub open spec fn log_record(
    timestamp: u64,
    cpu_id: u32,
    event_id: u32,
    data1: u64,
    data2: u64,
) -> LogEntry {
    LogEntry { timestamp, cpu_id, event_id, flags: 0u16, data1, data2 }
}

/// A connection to one shared telemetry ring.
pub struct HiResConn {
    buffer: SharedRingBuffer,
    /// Cycles-per-microsecond calibration, fetched once at connection
    /// time and cached for every later conversion.
    pub cycle_per_us: AlignedU64,
    connected: bool,
}

impl HiResConn {
    /// Whether the connection still holds the mapping.
    pub closed spec fn spec_connected(self) -> bool {
        self.connected
    }

    /// The cached calibration constant.
    pub closed spec fn spec_cycles_per_us(self) -> u64 {
        self.cycle_per_us.0
    }

    /// The buffer's structural invariant; holds from `connect` on,
    /// released or not.
    pub closed spec fn wf(self) -> bool {
        self.buffer.wf()
    }

    /// The buffer's observable history, in the protocol model's terms.
    pub closed spec fn trace(self) -> RingTrace {
        self.buffer.trace()
    }

    /// Records published but not yet consumed, oldest first.
    pub closed spec fn pending(self) -> Seq<LogEntry> {
        self.buffer.pending()
    }

    /// Number of slots in the ring.
    pub closed spec fn spec_capacity(self) -> nat {
        self.buffer.spec_capacity()
    }

    /// Monotonic count of slots claimed by producers.
    pub closed spec fn spec_head(self) -> u64 {
        self.buffer.spec_head()
    }

    /// Current value of the drop counter.
    pub closed spec fn spec_dropped(self) -> u64 {
        self.buffer.spec_dropped()
    }

    /// The connection after teardown: the mapping is marked released;
    /// the shared region's state is not touched.
    pub closed spec fn after_disconnect(self) -> HiResConn {
        HiResConn { connected: false, ..self }
    }

    /// Establishes a connection over a shared region of `capacity`
    /// slots whose calibration constant is `cycles_per_us`. Fails
    /// exactly when `capacity` breaks the power-of-two startup
    /// invariant (or cannot be indexed on this machine) — the hard
    /// failure class of a producer/consumer layout mismatch.
    pub fn connect(capacity: u64, cycles_per_us: u64) -> (r: Result<HiResConn, HiResError>)
        ensures
            (is_ring_capacity(capacity as nat) && capacity <= usize::MAX as u64) <==> r is Ok,
            r matches Ok(c) ==> c.wf() && c.spec_connected() && c.spec_capacity() == capacity
                && c.trace() == crate::protocol::empty_trace() && c.spec_cycles_per_us() == cycles_per_us
                && c.spec_head() == 0,
    {
        let buffer = SharedRingBuffer::new(capacity)?;
        Ok(HiResConn { buffer, cycle_per_us: AlignedU64(cycles_per_us), connected: true })
    }

    /// Producer write of one event record; the caller supplies the
    /// cycle stamp and core identity read at the event's site. Returns
    /// `true` when the record was published, `false` when the buffer
    /// was full (the record is dropped and counted) or the connection
    /// is already released.
    pub fn log(&mut self, timestamp: u64, cpu_id: u32, event_id: u32, data1: u64, data2: u64) -> (r:
        bool)
        requires
            old(self).wf(),
        ensures
            final(self).wf(),
            final(self).spec_connected() == old(self).spec_connected(),
            final(self).spec_cycles_per_us() == old(self).spec_cycles_per_us(),
            !old(self).spec_connected() ==> r == false && *final(self) == *old(self),
            old(self).spec_connected() ==> {
                let e = log_record(timestamp, cpu_id, event_id, data1, data2);
                &&& r == (old(self).pending().len() < old(self).spec_capacity() && old(
                    self,
                ).spec_head() < u64::MAX)
                &&& r ==> final(self).pending() == old(self).pending().push(published(e))
                &&& r ==> final(self).spec_dropped() == old(self).spec_dropped()
                &&& !r ==> final(self).pending() == old(self).pending()
                &&& !r ==> final(self).spec_dropped() as int == (if old(self).spec_dropped()
                    == u64::MAX {
                    u64::MAX as int
                } else {
                    old(self).spec_dropped() + 1
                })
                &&& (old(self).spec_head() < u64::MAX && old(self).spec_dropped() < u64::MAX)
                    ==> final(self).trace() == step_write(
                    old(self).trace(),
                    old(self).spec_capacity(),
                    e,
                )
            },
    {
        if !self.connected {
            return false;
        }
        let e = LogEntry { timestamp, cpu_id, event_id, flags: 0, data1, data2 };
        self.buffer.try_write(e)
    }

    /// Consumer read of the oldest published record, advancing the
    /// consumer-owned `tail`. `None` when the buffer is empty or the
    /// connection is already released. A returned record always
    /// carries the `VALID` handshake bit and is exactly the record
    /// published for that claim index.
    pub fn pop(&mut self) -> (r: Option<LogEntry>)
        requires
            old(self).wf(),
        ensures
            final(self).wf(),
            final(self).spec_connected() == old(self).spec_connected(),
            final(self).spec_cycles_per_us() == old(self).spec_cycles_per_us(),
            final(self).spec_dropped() == old(self).spec_dropped(),
            final(self).spec_capacity() == old(self).spec_capacity(),
            !old(self).spec_connected() ==> r == None::<LogEntry> && *final(self) == *old(self),
            old(self).spec_connected() ==> final(self).trace() == step_read(old(self).trace()),
            old(self).spec_connected() && old(self).pending().len() == 0 ==> r == None::<LogEntry>
                && *final(self) == *old(self),
            old(self).spec_connected() && old(self).pending().len() > 0 ==> r == Some(
                old(self).pending()[0],
            ) && final(self).pending() == old(self).pending().drop_first() && r == Some(
                old(self).trace().accepted[old(self).trace().popped.len() as int],
            ),
            r matches Some(entry) ==> entry.flags & LOG_FLAG_VALID != 0,
    {
        if !self.connected {
            return None;
        }
        self.buffer.pop()
    }

    /// Number of slots the shared region advertises; `0` once the
    /// connection is released.
    pub fn get_rb_capacity(&self) -> (r: u64)
        requires
            self.wf(),
        ensures
            self.spec_connected() ==> r as nat == self.spec_capacity(),
            !self.spec_connected() ==> r == 0,
    {
        if !self.connected {
            return 0;
        }
        self.buffer.capacity()
    }

    /// The region's index mask, `capacity - 1`; `0` once released.
    pub fn get_rb_idx_mask(&self) -> (r: u64)
        requires
            self.wf(),
        ensures
            self.spec_connected() ==> r as int == self.spec_capacity() - 1,
            !self.spec_connected() ==> r == 0,
    {
        if !self.connected {
            return 0;
        }
        self.buffer.index_mask()
    }

    /// Current value of the monotonic drop counter; `0` once released.
    pub fn get_drop_num(&self) -> (r: u64)
        requires
            self.wf(),
        ensures
            self.spec_connected() ==> r == self.spec_dropped(),
            !self.spec_connected() ==> r == 0,
    {
        if !self.connected {
            return 0;
        }
        self.buffer.dropped_count()
    }

    /// The cached cycles-per-microsecond calibration constant.
    pub fn get_cycles_per_us(&self) -> (r: u64)
        ensures
            r == self.spec_cycles_per_us(),
    {
        self.cycle_per_us.value()
    }

    /// Releases the connection. Returns whether a mapping was actually
    /// held — `true` on the first call, `false` on any later one; the
    /// underlying release action is performed at most once, and a
    /// released connection is never a fault to release again.
    pub fn disconnect(&mut self) -> (released: bool)
        ensures
            *final(self) == old(self).after_disconnect(),
            released == old(self).spec_connected(),
            !final(self).spec_connected(),
    {
        let was_connected = self.connected;
        self.connected = false;
        was_connected
    }
}

/// Idempotent teardown law: releasing a connection a second time
/// changes nothing — the state after two teardowns is the state after
/// one, no mapping is held afterwards, and teardown never touches the
/// shared region's observable history (so nothing is double-released).
pub proof fn lemma_disconnect_idempotent(c: HiResConn)
    ensures
        c.after_disconnect().after_disconnect() == c.after_disconnect(),
        !c.after_disconnect().spec_connected(),
        c.after_disconnect().trace() == c.trace(),
{
}

} // verus!
