//! The slot handshake protocol, as a mathematical model: the effect of
//! each producer write and consumer read on the stream of records, and
//! the first-in-first-out laws that the ring buffer obeys under any
//! interleaving of the two sides.

use vstd::prelude::*;

use crate::entry::{published, LogEntry, LOG_FLAG_VALID};

verus! {

/// The observable history of one ring buffer: what is in flight, what
/// producers have published so far, what the consumer has read so far,
/// and how many writes were refused for want of a free slot.
pub struct RingTrace {
    /// Records published but not yet consumed, oldest first.
    pub pending: Seq<LogEntry>,
    /// Every record a producer published, in claim order.
    pub accepted: Seq<LogEntry>,
    /// Every record the consumer read, in read order.
    pub popped: Seq<LogEntry>,
    /// Writes dropped because the buffer held `capacity` unconsumed records.
    pub dropped: nat,
}

/// One operation at the shared buffer: a producer write of a payload
/// record, or a consumer read.
pub enum RingOp {
    Write(LogEntry),
    Read,
}

/// The trace of a buffer nobody has touched.
pub open spec fn empty_trace() -> RingTrace {
    RingTrace { pending: Seq::empty(), accepted: Seq::empty(), popped: Seq::empty(), dropped: 0 }
}

/// A producer write against a buffer of `cap` slots: if a slot is free
/// the record is published (payload intact, `VALID` bit set) behind the
/// in-flight records; otherwise nothing is written and the drop counter
/// grows by one.
pub open spec fn step_write(t: RingTrace, cap: nat, e: LogEntry) -> RingTrace {
    if t.pending.len() < cap {
        RingTrace {
            pending: t.pending.push(published(e)),
            accepted: t.accepted.push(published(e)),
            ..t
        }
    } else {
        RingTrace { dropped: t.dropped + 1, ..t }
    }
}

/// A consumer read: the oldest in-flight record, if any, moves to the
/// read history; an empty buffer is left untouched.
pub open spec fn step_read(t: RingTrace) -> RingTrace {
    if t.pending.len() > 0 {
        RingTrace { pending: t.pending.drop_first(), popped: t.popped.push(t.pending[0]), ..t }
    } else {
        t
    }
}

/// The trace after running `ops` in order against an initially empty
/// buffer of `cap` slots.
pub open spec fn run_ops(cap: nat, ops: Seq<RingOp>) -> RingTrace
    decreases ops.len(),
{
    if ops.len() == 0 {
        empty_trace()
    } else {
        let t = run_ops(cap, ops.drop_last());
        match ops.last() {
            RingOp::Write(e) => step_write(t, cap, e),
            RingOp::Read => step_read(t),
        }
    }
}

/// How many of `ops` are producer writes.
pub open spec fn count_writes(ops: Seq<RingOp>) -> nat
    decreases ops.len(),
{
    if ops.len() == 0 {
        0
    } else {
        count_writes(ops.drop_last()) + (if ops.last() is Write {
            1nat
        } else {
            0nat
        })
    }
}

/// A trace is coherent when the read history followed by the in-flight
/// records is exactly the published history, every published record
/// carries the `VALID` bit, and no more records are in flight than the
/// buffer has slots.
pub open spec fn coherent(t: RingTrace, cap: nat) -> bool {
    &&& t.popped + t.pending == t.accepted
    &&& forall|i: int|
        0 <= i < t.accepted.len() ==> (#[trigger] t.accepted[i]).flags & LOG_FLAG_VALID != 0
    &&& t.pending.len() <= cap
}

/// First-in-first-out law of the handshake protocol: under any
/// interleaving of producer writes and consumer reads, the consumer
/// observes exactly the published records, in publication order, each
/// with its `VALID` bit set and its payload fields as written; records
/// are never lost silently — every write is either published or counted
/// in the drop counter.
pub proof fn lemma_ring_fifo(cap: nat, ops: Seq<RingOp>)
    ensures
        coherent(run_ops(cap, ops), cap),
        run_ops(cap, ops).accepted.len() + run_ops(cap, ops).dropped == count_writes(ops),
    decreases ops.len(),
{
    if ops.len() == 0 {
        assert(run_ops(cap, ops).popped + run_ops(cap, ops).pending =~= run_ops(
            cap,
            ops,
        ).accepted);
    } else {
        let t = run_ops(cap, ops.drop_last());
        lemma_ring_fifo(cap, ops.drop_last());
        match ops.last() {
            RingOp::Write(e) => {
                let t2 = step_write(t, cap, e);
                if t.pending.len() < cap {
                    crate::entry::lemma_published_is_valid(e);
                    assert(t2.popped + t2.pending =~= t2.accepted);
                }
            },
            RingOp::Read => {
                let t2 = step_read(t);
                if t.pending.len() > 0 {
                    assert(t2.popped + t2.pending =~= t2.accepted);
                }
            },
        }
    }
}

/// `n` writes of the records of `es`, in order, followed by `reads`
/// consumer reads.
pub open spec fn writes_then_reads(es: Seq<LogEntry>, reads: nat) -> Seq<RingOp> {
    es.map_values(|e: LogEntry| RingOp::Write(e)) + Seq::new(reads, |i: int| RingOp::Read)
}

/// After the writes of `es` against an empty buffer (no reads yet), the
/// in-flight records are the published forms of the first `cap` of `es`
/// and exactly the overflowing writes are counted as drops.
pub proof fn lemma_writes_fill(cap: nat, es: Seq<LogEntry>)
    ensures
        ({
            let t = run_ops(cap, es.map_values(|e: LogEntry| RingOp::Write(e)));
            &&& t.popped == Seq::<LogEntry>::empty()
            &&& t.accepted == (if es.len() <= cap {
                es
            } else {
                es.take(cap as int)
            }).map_values(|e: LogEntry| published(e))
            &&& t.pending == t.accepted
            &&& t.dropped == (if es.len() <= cap {
                0nat
            } else {
                (es.len() - cap) as nat
            })
        }),
    decreases es.len(),
{
    let ops = es.map_values(|e: LogEntry| RingOp::Write(e));
    if es.len() == 0 {
        assert(ops.len() == 0);
        assert(run_ops(cap, ops).popped =~= Seq::<LogEntry>::empty());
        assert(run_ops(cap, ops).accepted =~= Seq::<LogEntry>::empty().map_values(
            |e: LogEntry| published(e),
        ));
    } else {
        let es0 = es.drop_last();
        lemma_writes_fill(cap, es0);
        let ops0 = es0.map_values(|e: LogEntry| RingOp::Write(e));
        assert(ops.drop_last() =~= ops0);
        assert(ops.last() == RingOp::Write(es.last()));
        let t0 = run_ops(cap, ops0);
        let t = run_ops(cap, ops);
        assert(t == step_write(t0, cap, es.last()));
        if es0.len() < cap {
            // this write is published
            assert(es.len() <= cap);
            assert(t.accepted =~= es.map_values(|e: LogEntry| published(e))) by {
                assert(es0.push(es.last()) =~= es);
            }
        } else {
            // buffer already full: this write is dropped
            let front = if es0.len() <= cap {
                es0
            } else {
                es0.take(cap as int)
            };
            assert(front =~= (if es.len() <= cap {
                es
            } else {
                es.take(cap as int)
            }));
        }
    }
}

/// Draining law: `reads` consecutive consumer reads pop the oldest
/// `reads` in-flight records, in order, and touch nothing else.
pub proof fn lemma_reads_drain(t: RingTrace, reads: nat)
    requires
        reads <= t.pending.len(),
    ensures
        ({
            let t2 = fold_reads(t, reads);
            &&& t2.popped == t.popped + t.pending.take(reads as int)
            &&& t2.pending == t.pending.skip(reads as int)
            &&& t2.accepted == t.accepted
            &&& t2.dropped == t.dropped
        }),
    decreases reads,
{
    if reads == 0 {
        assert(fold_reads(t, 0).popped =~= t.popped + t.pending.take(0));
        assert(fold_reads(t, 0).pending =~= t.pending.skip(0));
    } else {
        let t1 = step_read(t);
        lemma_reads_drain(t1, (reads - 1) as nat);
        let t2 = fold_reads(t, reads);
        assert(t2 == fold_reads(t1, (reads - 1) as nat));
        assert(t2.popped =~= t.popped + t.pending.take(reads as int)) by {
            assert(t1.popped =~= t.popped.push(t.pending[0]));
            assert(t1.pending.take(reads - 1) =~= t.pending.skip(1).take(reads - 1));
        }
        assert(t2.pending =~= t.pending.skip(reads as int));
    }
}

/// `reads` consecutive consumer reads applied to `t`.
pub open spec fn fold_reads(t: RingTrace, reads: nat) -> RingTrace
    decreases reads,
{
    if reads == 0 {
        t
    } else {
        fold_reads(step_read(t), (reads - 1) as nat)
    }
}

/// Round-trip law: writing the `N` records of `es` into an empty buffer
/// of `cap >= N` slots and then reading `N` times yields exactly the
/// published forms of `es`, in write order, with no drops and nothing
/// left in flight. The payload fields of each record come back
/// identical; only the `VALID` handshake bit is added by publication.
pub proof fn lemma_round_trip(cap: nat, es: Seq<LogEntry>)
    requires
        es.len() <= cap,
    ensures
        ({
            let t = run_ops(cap, writes_then_reads(es, es.len()));
            &&& t.popped == es.map_values(|e: LogEntry| published(e))
            &&& t.pending == Seq::<LogEntry>::empty()
            &&& t.dropped == 0
        }),
{
    let ops_w = es.map_values(|e: LogEntry| RingOp::Write(e));
    lemma_writes_fill(cap, es);
    let tw = run_ops(cap, ops_w);
    lemma_reads_drain(tw, es.len());
    lemma_run_ops_append(cap, ops_w, es.len());
    let t = run_ops(cap, writes_then_reads(es, es.len()));
    assert(t == fold_reads(tw, es.len()));
    assert(t.popped =~= es.map_values(|e: LogEntry| published(e))) by {
        assert(tw.pending.take(es.len() as int) =~= tw.pending);
    }
    assert(t.pending =~= Seq::<LogEntry>::empty());
}

/// Overflow law: writing `cap + k` records (`k > 0`) into an empty
/// buffer with no consumption publishes the first `cap` intact and
/// drops exactly `k`, with the drop counter growing by exactly `k`.
pub proof fn lemma_overflow(cap: nat, es: Seq<LogEntry>)
    requires
        es.len() > cap,
    ensures
        ({
            let t = run_ops(cap, es.map_values(|e: LogEntry| RingOp::Write(e)));
            &&& t.pending == es.take(cap as int).map_values(|e: LogEntry| published(e))
            &&& t.dropped == es.len() - cap
        }),
{
    lemma_writes_fill(cap, es);
}

/// Running `ops` then `reads` reads equals folding the reads onto the
/// trace of `ops`.
proof fn lemma_run_ops_append(cap: nat, ops: Seq<RingOp>, reads: nat)
    ensures
        run_ops(cap, ops + Seq::new(reads, |i: int| RingOp::Read)) == fold_reads(
            run_ops(cap, ops),
            reads,
        ),
    decreases reads,
{
    let rs = Seq::new(reads, |i: int| RingOp::Read);
    if reads == 0 {
        assert(ops + rs =~= ops);
    } else {
        // peel the first read off the tail block and push it onto `ops`
        let rs1 = Seq::new((reads - 1) as nat, |i: int| RingOp::Read);
        assert(ops + rs =~= (ops.push(RingOp::Read)) + rs1);
        lemma_run_ops_append(cap, ops.push(RingOp::Read), (reads - 1) as nat);
        assert((ops.push(RingOp::Read)).drop_last() =~= ops);
        assert(run_ops(cap, ops.push(RingOp::Read)) == step_read(run_ops(cap, ops)));
        lemma_fold_reads_unfold_left(run_ops(cap, ops), reads);
    }
}

/// Folding `reads` reads is one read followed by `reads - 1` more.
proof fn lemma_fold_reads_unfold_left(t: RingTrace, reads: nat)
    requires
        reads > 0,
    ensures
        fold_reads(t, reads) == fold_reads(step_read(t), (reads - 1) as nat),
{
}

} // verus!
