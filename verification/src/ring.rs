//! The shared ring buffer: `capacity` slots (a power of two) addressed
//! through `index & index_mask`, a monotonic `head` claimed by
//! producers, a monotonic `tail` owned by the consumer, and a drop
//! counter for writes refused when the buffer is full.
//!
//! The type encapsulates every slot access, so callers cannot bypass
//! the handshake protocol: a write stages the payload first and
//! publishes it by setting the `VALID` flag bit (the step that a
//! shared-memory realisation performs with release ordering), and a
//! read checks the flag before the record is surfaced and before
//! `tail` advances (the acquire side).

use vstd::arithmetic::div_mod::lemma_fundamental_div_mod;
use vstd::arithmetic::div_mod::lemma_mod_bound;
use vstd::arithmetic::power2::pow2;
use vstd::bits::lemma_u64_low_bits_mask_is_mod;
use vstd::bits::lemma_u64_pow2_no_overflow;
use vstd::bits::lemma_u64_shl_is_mul;
use vstd::bits::low_bits_mask;
use vstd::prelude::*;

use crate::entry::{published, LogEntry, LOG_FLAG_VALID};
use crate::protocol::{step_read, step_write, RingTrace};

verus! {

/// A legal slot count: a power of two that a 64-bit index can address.
pub open spec fn is_ring_capacity(c: nat) -> bool {
    exists|k: nat| k < 64 && c == pow2(k)
}

/// The shared ring buffer. `head` and `tail` are free-running slot
/// counts; `index & index_mask` maps a count to a physical slot. The
/// two ghost fields carry the publication and consumption histories
/// that the protocol laws speak about; they take no space at run time.
pub struct SharedRingBuffer {
    entries: Vec<LogEntry>,
    head: u64,
    tail: u64,
    dropped_count: u64,
    index_mask: u64,
    accepted: Ghost<Seq<LogEntry>>,
    popped: Ghost<Seq<LogEntry>>,
}

impl SharedRingBuffer {
    /// Number of slots.
    pub closed spec fn spec_capacity(self) -> nat {
        self.entries@.len()
    }

    /// Monotonic count of slots claimed by producers.
    pub closed spec fn spec_head(self) -> u64 {
        self.head
    }

    /// Monotonic count of slots consumed; owned solely by the consumer.
    pub closed spec fn spec_tail(self) -> u64 {
        self.tail
    }

    /// Writes refused because no slot was free (saturating at the
    /// counter's width).
    pub closed spec fn spec_dropped(self) -> u64 {
        self.dropped_count
    }

    /// The mask that maps a free-running count to a physical slot.
    pub closed spec fn spec_index_mask(self) -> u64 {
        self.index_mask
    }

    /// Records published but not yet consumed, oldest first: the slots
    /// from `tail` (inclusive) to `head` (exclusive).
    pub closed spec fn pending(self) -> Seq<LogEntry> {
        Seq::new(
            (self.head - self.tail) as nat,
            |i: int| self.entries@[(self.tail + i) % (self.entries@.len() as int)],
        )
    }

    /// Every record published so far, in claim order.
    pub closed spec fn spec_accepted(self) -> Seq<LogEntry> {
        self.accepted@
    }

    /// Every record the consumer has read, in read order.
    pub closed spec fn spec_popped(self) -> Seq<LogEntry> {
        self.popped@
    }

    /// The buffer's observable history, in the protocol model's terms.
    pub open spec fn trace(self) -> RingTrace {
        RingTrace {
            pending: self.pending(),
            accepted: self.spec_accepted(),
            popped: self.spec_popped(),
            dropped: self.spec_dropped() as nat,
        }
    }

    /// Structural invariant: the slot count is a power of two matched
    /// by the mask, the consumer never runs ahead of the producers,
    /// producers never run more than `capacity` ahead of the consumer,
    /// the read history followed by the in-flight records is exactly
    /// the publication history, and every published record carries the
    /// `VALID` bit.
    pub closed spec fn wf(self) -> bool {
        &&& is_ring_capacity(self.entries@.len())
        &&& self.index_mask as int == self.entries@.len() - 1
        &&& self.tail <= self.head
        &&& self.head - self.tail <= self.entries@.len()
        &&& self.popped@ + self.pending() == self.accepted@
        &&& forall|i: int|
            0 <= i < self.accepted@.len() ==> (#[trigger] self.accepted@[i]).flags & LOG_FLAG_VALID
                != 0
    }

    /// Creates an empty ring of `capacity` slots. Fails exactly when
    /// `capacity` is not a power of two that this machine can index —
    /// the startup invariant whose violation is a hard failure.
    pub fn new(capacity: u64) -> (r: Result<SharedRingBuffer, crate::HiResError>)
        ensures
            (is_ring_capacity(capacity as nat) && capacity <= usize::MAX as u64) <==> r is Ok,
            r matches Ok(b) ==> b.wf() && b.spec_capacity() == capacity && b.trace()
                == crate::protocol::empty_trace() && b.spec_head() == 0 && b.spec_tail() == 0,
    {
        if capacity > usize::MAX as u64 {
            return Err(
                crate::HiResError::new("ring capacity does not fit this machine".to_string()),
            );
        }
        let exponent = find_exponent(capacity);
        match exponent {
            None => Err(crate::HiResError::new("ring capacity is not a power of two".to_string())),
            Some(k) => {
                proof {
                    lemma_u64_pow2_no_overflow(k as nat);
                }
                let mut entries: Vec<LogEntry> = Vec::new();
                let n = capacity as usize;
                let mut i: usize = 0;
                while i < n
                    invariant
                        i <= n,
                        entries@.len() == i,
                    decreases n - i,
                {
                    entries.push(LogEntry::empty());
                    i = i + 1;
                }
                let rb = SharedRingBuffer {
                    entries,
                    head: 0,
                    tail: 0,
                    dropped_count: 0,
                    index_mask: capacity - 1,
                    accepted: Ghost(Seq::empty()),
                    popped: Ghost(Seq::empty()),
                };
                proof {
                    assert(rb.pending() =~= Seq::<LogEntry>::empty());
                    assert(rb.popped@ + rb.pending() =~= rb.accepted@);
                    assert(rb.trace() =~= crate::protocol::empty_trace());
                }
                Ok(rb)
            },
        }
    }

    /// Number of slots, as the shared region advertises it.
    pub fn capacity(&self) -> (r: u64)
        requires
            self.wf(),
        ensures
            r as nat == self.spec_capacity(),
    {
        proof {
            let k = choose|k: nat| k < 64 && self.entries@.len() == pow2(k);
            lemma_u64_pow2_no_overflow(k);
        }
        self.entries.len() as u64
    }

    /// The index mask, `capacity - 1`.
    pub fn index_mask(&self) -> (r: u64)
        requires
            self.wf(),
        ensures
            r == self.spec_index_mask(),
            r as int == self.spec_capacity() - 1,
    {
        self.index_mask
    }

    /// Current value of the drop counter.
    pub fn dropped_count(&self) -> (r: u64)
        requires
            self.wf(),
        ensures
            r == self.spec_dropped(),
    {
        self.dropped_count
    }

    /// How many records are published but not yet consumed.
    pub fn in_flight(&self) -> (r: u64)
        requires
            self.wf(),
        ensures
            r as nat == self.pending().len(),
    {
        self.head - self.tail
    }

    /// Maps a free-running slot count to its physical slot through the
    /// mask; for a power-of-two slot count this is reduction modulo
    /// `capacity`.
    fn slot_index(&self, i: u64) -> (r: usize)
        requires
            self.wf(),
        ensures
            r as int == i as int % (self.spec_capacity() as int),
            r < self.spec_capacity(),
    {
        proof {
            self.lemma_mask_is_mod(i);
            lemma_mod_bound(i as int, self.entries@.len() as int);
            assert(self.entries@.len() == self.entries.len());
        }
        (i & self.index_mask) as usize
    }

    /// For a well-formed ring, masking equals reduction modulo the
    /// slot count.
    proof fn lemma_mask_is_mod(self, i: u64)
        requires
            self.wf(),
        ensures
            i & self.index_mask == i as int % (self.entries@.len() as int),
    {
        let k = choose|k: nat| k < 64 && self.entries@.len() == pow2(k);
        lemma_u64_pow2_no_overflow(k);
        assert(self.index_mask == low_bits_mask(k) as u64);
        lemma_u64_low_bits_mask_is_mod(i, k);
    }

    /// Producer write. When a slot is free and a fresh claim index
    /// exists, the payload of `e` is staged in the claimed slot and
    /// then published by setting the `VALID` bit — in shared memory,
    /// the release-ordered store that makes the payload visible — and
    /// the write returns `true`. When every slot holds an unconsumed
    /// record, the record is dropped instead of overwriting in-flight
    /// data, the drop counter grows by one (saturating), and the write
    /// returns `false`.
    pub fn try_write(&mut self, e: LogEntry) -> (r: bool)
        requires
            old(self).wf(),
        ensures
            final(self).wf(),
            final(self).spec_capacity() == old(self).spec_capacity(),
            final(self).spec_index_mask() == old(self).spec_index_mask(),
            final(self).spec_tail() == old(self).spec_tail(),
            final(self).spec_popped() == old(self).spec_popped(),
            r == (old(self).pending().len() < old(self).spec_capacity() && old(self).spec_head()
                < u64::MAX),
            r ==> final(self).pending() == old(self).pending().push(published(e)),
            r ==> final(self).spec_accepted() == old(self).spec_accepted().push(published(e)),
            r ==> final(self).spec_head() == old(self).spec_head() + 1,
            r ==> final(self).spec_dropped() == old(self).spec_dropped(),
            !r ==> final(self).pending() == old(self).pending(),
            !r ==> final(self).spec_accepted() == old(self).spec_accepted(),
            !r ==> final(self).spec_head() == old(self).spec_head(),
            !r ==> final(self).spec_dropped() as int == (if old(self).spec_dropped() == u64::MAX {
                u64::MAX as int
            } else {
                old(self).spec_dropped() + 1
            }),
            old(self).spec_head() < u64::MAX && old(self).spec_dropped() < u64::MAX ==> final(self).trace()
                == step_write(old(self).trace(), old(self).spec_capacity(), e),
    {
        let ghost pre = *self;
        let capacity = self.capacity();
        let in_flight = self.head - self.tail;
        if in_flight == capacity || self.head == u64::MAX {
            self.dropped_count = if self.dropped_count == u64::MAX {
                u64::MAX
            } else {
                self.dropped_count + 1
            };
            proof {
                assert(self.pending() =~= pre.pending());
                assert(self.trace().pending =~= pre.trace().pending);
                if pre.head < u64::MAX && pre.dropped_count < u64::MAX {
                    assert(self.trace() =~= step_write(pre.trace(), pre.spec_capacity(), e));
                }
            }
            false
        } else {
            let idx = self.slot_index(self.head);
            // Stage the payload in the claimed slot; the record is not
            // yet readable (`VALID` clear models the WRITING state).
            let staged = LogEntry { flags: e.flags & !LOG_FLAG_VALID, ..e };
            self.entries[idx] = staged;
            // Publish: set the `VALID` bit. This is the single
            // synchronization point of the handshake.
            self.entries[idx] = LogEntry { flags: e.flags | LOG_FLAG_VALID, ..staged };
            self.head = self.head + 1;
            proof {
                self.accepted@ = self.accepted@.push(published(e));
            }
            proof {
                assert(self.entries@ =~= pre.entries@.update(idx as int, published(e)));
                self.lemma_write_updates_pending(pre, e, idx);
                crate::entry::lemma_published_is_valid(e);
                assert(self.popped@ + self.pending() =~= self.accepted@);
                assert(self.trace() =~= step_write(pre.trace(), pre.spec_capacity(), e));
            }
            true
        }
    }

    /// After the body of a successful write — new record at slot
    /// `head & mask`, `head` advanced — the in-flight view has grown
    /// by exactly the published record.
    proof fn lemma_write_updates_pending(self, pre: SharedRingBuffer, e: LogEntry, idx: usize)
        requires
            pre.wf(),
            pre.head < u64::MAX,
            pre.head - pre.tail < pre.entries@.len(),
            idx as int == pre.head as int % (pre.entries@.len() as int),
            self.entries@ == pre.entries@.update(idx as int, published(e)),
            self.head == pre.head + 1,
            self.tail == pre.tail,
        ensures
            self.pending() == pre.pending().push(published(e)),
    {
        let cap = pre.entries@.len() as int;
        let n = (pre.head - pre.tail) as int;
        assert forall|i: int| 0 <= i < n implies self.pending()[i] == pre.pending()[i] by {
            lemma_mod_bound(pre.tail as int + i, cap);
            lemma_mod_distinct(pre.tail as int + i, pre.head as int, cap);
        }
        assert(self.pending()[n] == published(e)) by {
            lemma_mod_bound(pre.head as int, cap);
        }
        assert(self.pending() =~= pre.pending().push(published(e)));
    }

    /// Consumer read. On an empty buffer (`tail == head`) nothing
    /// happens and `None` comes back. Otherwise the record at the tail
    /// slot is checked for the `VALID` bit — the acquire side of the
    /// handshake; under this type's single-consumer ownership the bit
    /// is always found set — read out, and `tail` advances, which is
    /// the release that lets producers reuse the slot. The record
    /// returned is exactly the one published for that claim index.
    pub fn pop(&mut self) -> (r: Option<LogEntry>)
        requires
            old(self).wf(),
        ensures
            final(self).wf(),
            final(self).spec_capacity() == old(self).spec_capacity(),
            final(self).spec_index_mask() == old(self).spec_index_mask(),
            final(self).spec_head() == old(self).spec_head(),
            final(self).spec_dropped() == old(self).spec_dropped(),
            final(self).spec_accepted() == old(self).spec_accepted(),
            final(self).trace() == step_read(old(self).trace()),
            old(self).pending().len() == 0 ==> r == None::<LogEntry> && *final(self) == *old(self),
            old(self).pending().len() > 0 ==> r == Some(old(self).pending()[0]),
            old(self).pending().len() > 0 ==> r == Some(
                old(self).spec_accepted()[old(self).spec_popped().len() as int],
            ),
            old(self).pending().len() > 0 ==> final(self).pending()
                == old(self).pending().drop_first(),
            old(self).pending().len() > 0 ==> final(self).spec_tail() == old(self).spec_tail() + 1,
            old(self).pending().len() > 0 ==> final(self).spec_popped()
                == old(self).spec_popped().push(old(self).pending()[0]),
            r matches Some(entry) ==> entry.flags & LOG_FLAG_VALID != 0,
    {
        let ghost pre = *self;
        if self.tail == self.head {
            proof {
                assert(self.pending() =~= Seq::<LogEntry>::empty());
                assert(self.trace() =~= step_read(pre.trace()));
            }
            return None;
        }
        let idx = self.slot_index(self.tail);
        let entry = self.entries[idx];
        proof {
            assert(entry == pre.pending()[0]);
            assert(pre.pending()[0] == pre.accepted@[pre.popped@.len() as int]) by {
                assert(pre.accepted@[pre.popped@.len() as int] == (pre.popped@
                    + pre.pending())[pre.popped@.len() as int]);
            }
        }
        if entry.flags & LOG_FLAG_VALID != 0 {
            self.tail = self.tail + 1;
            proof {
                self.popped@ = self.popped@.push(entry);
            }
            proof {
                assert forall|i: int| 0 <= i < self.pending().len() implies self.pending()[i]
                    == pre.pending()[i + 1] by {
                    assert((self.tail + i) as int == pre.tail + (i + 1));
                }
                assert(self.pending() =~= pre.pending().drop_first());
                assert(self.popped@ + self.pending() =~= self.accepted@);
                assert(self.trace() =~= step_read(pre.trace()));
            }
            Some(entry)
        } else {
            // Unreachable: the invariant says every in-flight record
            // was published before `head` moved past it.
            proof {
                assert(false);
            }
            None
        }
    }
}

/// The exponent of a power-of-two value, found by scanning the 64
/// possible bit positions; `None` exactly when the value is not a
/// power of two.
fn find_exponent(capacity: u64) -> (r: Option<u8>)
    ensures
        r matches Some(k) ==> k < 64 && capacity as nat == pow2(k as nat),
        r is None ==> !is_ring_capacity(capacity as nat),
{
    let mut k: u8 = 0;
    while k < 64
        invariant
            k <= 64,
            forall|j: nat| j < k ==> capacity as nat != pow2(j),
        decreases 64 - k,
    {
        proof {
            lemma_u64_pow2_no_overflow(k as nat);
            lemma_u64_shl_is_mul(1u64, k as u64);
        }
        if capacity == 1u64 << (k as u64) {
            return Some(k);
        }
        k = k + 1;
    }
    None
}

/// A well-formed buffer's history is coherent in the protocol model's
/// sense: the records the consumer has observed, followed by those in
/// flight, are exactly the published records, in publication order,
/// each carrying the `VALID` bit — across any number of wrap-arounds,
/// no read surfaces stale prior-generation or unpublished data.
pub proof fn lemma_buffer_coherent(rb: SharedRingBuffer)
    requires
        rb.wf(),
    ensures
        crate::protocol::coherent(rb.trace(), rb.spec_capacity()),
{
}

/// Two distinct slot counts less than one capacity apart never map to
/// the same physical slot.
proof fn lemma_mod_distinct(a: int, b: int, c: int)
    requires
        0 < c,
        a < b,
        b - a < c,
    ensures
        a % c != b % c,
{
    lemma_fundamental_div_mod(a, c);
    lemma_fundamental_div_mod(b, c);
    if a % c == b % c {
        assert(b - a == c * (b / c - a / c)) by (nonlinear_arith)
            requires
                a == c * (a / c) + a % c,
                b == c * (b / c) + b % c,
                a % c == b % c,
        ;
        assert(false) by (nonlinear_arith)
            requires
                b - a == c * (b / c - a / c),
                0 < b - a,
                b - a < c,
        ;
    }
}

} // verus!
