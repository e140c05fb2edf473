//! The consumer loop's decisions, separated from the waiting and
//! printing around them: one drain-and-dispatch step, the backoff
//! policy for an empty poll, and delta reporting over the monotonic
//! drop counter. The caller runs the loop, performs the sleeps, and
//! surfaces the warnings; every decision is taken here.

use vstd::prelude::*;

use crate::agg::{sum_of, Benchmarks, MAX_EVENT_BUCKET_SIZE};
use crate::conn::HiResConn;
use crate::protocol::step_read;

verus! {

/// Watches the monotonic drop counter across polls and reports each
/// increase exactly once, as a delta against the last reported value.
pub struct DropReporter {
    last_dropped_count: u64,
}

/// One observation step: a reading above the baseline moves the
/// baseline up and emits the difference; any other reading emits
/// nothing and leaves the baseline alone.
pub open spec fn fold_observe(last: u64, obs: Seq<u64>) -> (u64, Seq<u64>)
    decreases obs.len(),
{
    if obs.len() == 0 {
        (last, Seq::empty())
    } else {
        let prev = fold_observe(last, obs.drop_last());
        if obs.last() > prev.0 {
            (obs.last(), prev.1.push((obs.last() - prev.0) as u64))
        } else {
            prev
        }
    }
}

impl DropReporter {
    /// The baseline: the counter value up to which drops have been
    /// reported already.
    pub closed spec fn spec_last(self) -> u64 {
        self.last_dropped_count
    }

    /// A reporter that has reported nothing yet.
    pub fn new() -> (r: DropReporter)
        ensures
            r.spec_last() == 0,
    {
        DropReporter { last_dropped_count: 0 }
    }

    /// Feeds one reading of the drop counter. Emits the number of
    /// drops not yet reported, if any, and moves the baseline so the
    /// same drops are never reported twice.
    pub fn observe(&mut self, current: u64) -> (delta: Option<u64>)
        ensures
            current > old(self).spec_last() ==> delta == Some(
                (current - old(self).spec_last()) as u64,
            ) && final(self).spec_last() == current,
            current <= old(self).spec_last() ==> delta == None::<u64> && final(self).spec_last()
                == old(self).spec_last(),
    {
        if current > self.last_dropped_count {
            let delta = current - self.last_dropped_count;
            self.last_dropped_count = current;
            Some(delta)
        } else {
            None
        }
    }
}

/// Drop accounting law: over any run of polls of the monotonic drop
/// counter, the reported deltas sum to exactly the counter's total
/// increase — every drop is reported once and none twice.
pub proof fn lemma_drop_deltas_account(last: u64, obs: Seq<u64>)
    requires
        forall|i: int, j: int| 0 <= i <= j < obs.len() ==> obs[i] <= obs[j],
        obs.len() > 0 ==> last <= obs[0],
    ensures
        fold_observe(last, obs).0 == (if obs.len() == 0 {
            last
        } else {
            obs.last()
        }),
        sum_of(fold_observe(last, obs).1) == fold_observe(last, obs).0 - last,
    decreases obs.len(),
{
    if obs.len() > 0 {
        let front = obs.drop_last();
        lemma_drop_deltas_account(last, front);
        let prev = fold_observe(last, front);
        if obs.last() > prev.0 {
            let d = (obs.last() - prev.0) as u64;
            assert(prev.1.push(d).drop_last() =~= prev.1);
        } else {
            if front.len() > 0 {
                assert(front.last() == obs[obs.len() - 2]);
                assert(obs[obs.len() - 2] <= obs.last());
            }
        }
    }
}

/// What one iteration of the consumer loop decided.
#[derive(Clone, Copy, PartialEq, Eq, Structural, Debug)]
pub enum StepOutcome {
    /// A record was drained and dispatched; the flag says whether the
    /// aggregation engine retained the sample (`false` when the
    /// record's bucket is at its cap or its event ID is out of range —
    /// the caller's capacity warning).
    Processed(bool),
    /// A drained record failed the defensive handshake re-check. The
    /// protocol rules this out — see the last clause of
    /// `consume_step` — so a caller never observes it.
    Invalid,
    /// Nothing to drain; the caller should sleep this many
    /// milliseconds before the next poll.
    EmptySleep(u64),
    /// Nothing to drain; the caller accepts full processor use and
    /// polls again at once.
    EmptySpin,
}

/// One iteration of the consumer loop: drain one record if there is
/// one, re-check its handshake bit, count it and hand its payload to
/// the aggregation engine keyed by its event ID; on an empty buffer
/// decide the backoff from the configured poll interval (zero means
/// busy-poll).
pub fn consume_step(
    conn: &mut HiResConn,
    bench: &mut Benchmarks,
    entries_processed: &mut u64,
    poll_interval_ms: u64,
) -> (r: StepOutcome)
    requires
        old(conn).wf(),
        old(bench).wf(),
        *old(entries_processed) < u64::MAX,
    ensures
        final(conn).wf(),
        final(bench).wf(),
        final(conn).spec_connected() == old(conn).spec_connected(),
        (!old(conn).spec_connected() || old(conn).pending().len() == 0) ==> *final(conn) == *old(conn) && final(bench).event_bucket@ == old(bench).event_bucket@ && *final(entries_processed)
            == *old(entries_processed) && r == (if poll_interval_ms > 0 {
            StepOutcome::EmptySleep(poll_interval_ms)
        } else {
            StepOutcome::EmptySpin
        }),
        (old(conn).spec_connected() && old(conn).pending().len() > 0) ==> ({
            let e = old(conn).pending()[0];
            let in_range = (e.event_id as int) < MAX_EVENT_BUCKET_SIZE as int;
            let retained = in_range && old(bench).spec_samples(e.event_id as int).len() < old(bench).event_bucket@[e.event_id as int].cap;
            &&& r == StepOutcome::Processed(retained)
            &&& final(conn).trace() == step_read(old(conn).trace())
            &&& final(conn).pending() == old(conn).pending().drop_first()
            &&& *final(entries_processed) == *old(entries_processed) + 1
            &&& forall|j: int|
                0 <= j < MAX_EVENT_BUCKET_SIZE as int && j != e.event_id ==> final(bench).event_bucket@[j] == old(bench).event_bucket@[j]
            &&& retained ==> final(bench).spec_samples(e.event_id as int) == old(bench).spec_samples(e.event_id as int).push(e.data1)
            &&& retained ==> final(bench).spec_count(e.event_id as int) == old(bench).spec_count(
                e.event_id as int,
            ) + 1
            &&& !retained ==> final(bench).event_bucket@ == old(bench).event_bucket@
        }),
        r != StepOutcome::Invalid,
{
    let popped = conn.pop();
    match popped {
        Some(entry) => {
            if entry.is_valid() {
                *entries_processed = *entries_processed + 1;
                let retained = bench.record(entry.event_id, entry.data1);
                StepOutcome::Processed(retained)
            } else {
                // Unreachable: a drained record always carries the
                // handshake bit.
                proof {
                    assert(false);
                }
                StepOutcome::Invalid
            }
        },
        None => {
            if poll_interval_ms > 0 {
                StepOutcome::EmptySleep(poll_interval_ms)
            } else {
                StepOutcome::EmptySpin
            }
        },
    }
}

} // verus!
