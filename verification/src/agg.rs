//! The online aggregation engine: bounded per-event-ID accumulators
//! (count plus retained samples) fed by the drained entry stream, and
//! the summary of every event seen, in event-ID order.

use vstd::prelude::*;

verus! {

/// Number of event-ID buckets the engine maintains; records with an
/// event ID at or above this bound are not aggregated.
pub const MAX_EVENT_BUCKET_SIZE: usize = 256;

/// Default cap on retained samples per event ID; beyond it further
/// samples are refused so memory stays bounded under sustained load.
pub const DEFAULT_DATA_CAPACITY: usize = 1 << 25;

/// Sum of a sample sequence, as an unbounded integer.
pub open spec fn sum_of(s: Seq<u64>) -> int
    decreases s.len(),
{
    if s.len() == 0 {
        0
    } else {
        sum_of(s.drop_last()) + s.last()
    }
}

/// The sum of `n` samples lies between `0` and `n * u64::MAX`.
pub proof fn lemma_sum_of_bounds(s: Seq<u64>)
    ensures
        0 <= sum_of(s) <= s.len() * u64::MAX,
    decreases s.len(),
{
    if s.len() > 0 {
        lemma_sum_of_bounds(s.drop_last());
    }
}

/// The bounded accumulator for one event ID: how many samples were
/// recorded and the samples themselves, capped at `cap`.
pub struct Event {
    /// The event ID this accumulator belongs to.
    pub id: u64,
    /// Samples recorded; never counts past the retained samples.
    pub count: u64,
    /// The retained samples, in arrival order.
    pub data: Vec<u64>,
    /// Cap on retained samples.
    pub cap: usize,
}

/// One line of the summary: the event's ID, its sample count, and the
/// exact sum of its retained samples. The average is `sum / count`,
/// taken at report time so the hot path stays free of wide divisions.
#[derive(Clone, Copy, PartialEq, Eq, Structural, Debug)]
pub struct EventResult {
    pub id: u64,
    pub count: u64,
    pub sum: u128,
}

/// The summary line an accumulator produces.
pub open spec fn spec_summary(e: Event) -> EventResult {
    EventResult { id: e.id, count: e.count, sum: sum_of(e.data@) as u128 }
}

/// The summary of a bucket sequence: one line per accumulator with at
/// least one recorded sample, in bucket (that is, event-ID) order.
pub open spec fn spec_summarize(s: Seq<Event>) -> Seq<EventResult>
    decreases s.len(),
{
    if s.len() == 0 {
        Seq::empty()
    } else {
        spec_summarize(s.drop_last()) + (if s.last().count > 0 {
            seq![spec_summary(s.last())]
        } else {
            Seq::empty()
        })
    }
}

/// A bucket table with no recorded samples summarizes to nothing:
/// zero-count events are filtered out.
pub proof fn lemma_summarize_all_zero(s: Seq<Event>)
    requires
        forall|i: int| 0 <= i < s.len() ==> (#[trigger] s[i]).count == 0,
    ensures
        spec_summarize(s) == Seq::<EventResult>::empty(),
    decreases s.len(),
{
    if s.len() > 0 {
        lemma_summarize_all_zero(s.drop_last());
        assert(spec_summarize(s) =~= Seq::<EventResult>::empty());
    }
}

/// A bucket table with samples at exactly one index summarizes to the
/// single line of that bucket.
pub proof fn lemma_summarize_single(s: Seq<Event>, j: int)
    requires
        0 <= j < s.len(),
        s[j].count > 0,
        forall|i: int| 0 <= i < s.len() && i != j ==> (#[trigger] s[i]).count == 0,
    ensures
        spec_summarize(s) == seq![spec_summary(s[j])],
    decreases s.len(),
{
    if j == s.len() - 1 {
        lemma_summarize_all_zero(s.drop_last());
        assert(spec_summarize(s) =~= seq![spec_summary(s[j])]);
    } else {
        lemma_summarize_single(s.drop_last(), j);
        assert(s.drop_last()[j] == s[j]);
        assert(spec_summarize(s) =~= seq![spec_summary(s[j])]);
    }
}

/// When bucket `i` accumulates event ID `i` (the engine's invariant),
/// the summary's lines carry strictly increasing event IDs, each
/// within the table's range.
pub proof fn lemma_summarize_ordered(s: Seq<Event>)
    requires
        forall|i: int| 0 <= i < s.len() ==> (#[trigger] s[i]).id == i,
    ensures
        forall|a: int|
            0 <= a < spec_summarize(s).len() ==> (#[trigger] spec_summarize(s)[a]).id < s.len(),
        forall|a: int, b: int|
            0 <= a < b < spec_summarize(s).len() ==> spec_summarize(s)[a].id < spec_summarize(
                s,
            )[b].id,
    decreases s.len(),
{
    if s.len() > 0 {
        lemma_summarize_ordered(s.drop_last());
        let r0 = spec_summarize(s.drop_last());
        let r = spec_summarize(s);
        if s.last().count > 0 {
            assert(r =~= r0.push(spec_summary(s.last())));
            assert(spec_summary(s.last()).id == s.len() - 1);
            assert forall|a: int, b: int| 0 <= a < b < r.len() implies r[a].id < r[b].id by {
                if b == r0.len() {
                    assert(r[a] == r0[a]);
                    assert(r0[a].id < s.drop_last().len());
                }
            }
        } else {
            assert(r =~= r0);
        }
    }
}

/// Every event with at least one recorded sample has its line in the
/// summary.
pub proof fn lemma_summarize_complete(s: Seq<Event>, j: int)
    requires
        forall|i: int| 0 <= i < s.len() ==> (#[trigger] s[i]).id == i,
        0 <= j < s.len(),
        s[j].count > 0,
    ensures
        exists|a: int|
            0 <= a < spec_summarize(s).len() && spec_summarize(s)[a] == spec_summary(s[j]),
    decreases s.len(),
{
    let r = spec_summarize(s);
    if j == s.len() - 1 {
        assert(r[r.len() - 1] == spec_summary(s[j]));
    } else {
        lemma_summarize_complete(s.drop_last(), j);
        let a = choose|a: int|
            0 <= a < spec_summarize(s.drop_last()).len() && spec_summarize(s.drop_last())[a]
                == spec_summary(s.drop_last()[j]);
        assert(r[a] == spec_summary(s[j]));
    }
}

/// The samples an accumulator holds after being offered `vs`, one at
/// a time, on top of `samples`, under cap `cap`: each offer is
/// retained while room remains and refused afterwards — the transition
/// `add_data` makes, folded over a sequence of offers.
pub open spec fn retained_after(samples: Seq<u64>, cap: nat, vs: Seq<u64>) -> Seq<u64>
    decreases vs.len(),
{
    if vs.len() == 0 {
        samples
    } else {
        let p = retained_after(samples, cap, vs.drop_last());
        if p.len() < cap {
            p.push(vs.last())
        } else {
            p
        }
    }
}

/// Sample-cap law: offering any sequence of samples to an accumulator
/// retains exactly the first samples up to the cap, in offer order,
/// and nothing beyond — so the count freezes at the cap and the
/// average is computed only over the retained prefix.
pub proof fn lemma_retained_is_capped_prefix(samples: Seq<u64>, cap: nat, vs: Seq<u64>)
    requires
        samples.len() <= cap,
    ensures
        retained_after(samples, cap, vs) == samples + vs.take(
            if vs.len() <= cap - samples.len() {
                vs.len() as int
            } else {
                cap - samples.len()
            },
        ),
        retained_after(samples, cap, vs).len() == (if samples.len() + vs.len() <= cap {
            samples.len() + vs.len()
        } else {
            cap
        }),
    decreases vs.len(),
{
    let room = (cap - samples.len()) as nat;
    if vs.len() == 0 {
        assert(retained_after(samples, cap, vs) =~= samples + vs.take(0));
    } else {
        let front = vs.drop_last();
        lemma_retained_is_capped_prefix(samples, cap, front);
        let p = retained_after(samples, cap, front);
        if front.len() <= room {
            assert(front.take(front.len() as int) =~= front);
            if p.len() < cap {
                // this offer still fits
                assert(p.push(vs.last()) =~= samples + vs.take(vs.len() as int)) by {
                    assert(vs.take(vs.len() as int) =~= front.push(vs.last()));
                }
            } else {
                // the cap is reached exactly at this offer
                assert(p =~= samples + vs.take(room as int)) by {
                    assert(front.take(room as int) =~= vs.take(room as int));
                }
            }
        } else {
            // the cap was reached among the earlier offers
            assert(front.take(room as int) =~= vs.take(room as int));
            assert(p =~= samples + vs.take(room as int));
        }
    }
}

impl Event {
    /// The accumulator's invariant: the count is exactly the number of
    /// retained samples (a refused sample is not counted), and the
    /// retained samples never exceed the cap.
    pub open spec fn wf(self) -> bool {
        &&& self.count == self.data@.len()
        &&& self.data@.len() <= self.cap
    }

    /// A fresh accumulator for `id` with the default sample cap.
    pub fn new(id: u64) -> (r: Event)
        ensures
            r.wf(),
            r.id == id,
            r.count == 0,
            r.data@ == Seq::<u64>::empty(),
            r.cap == DEFAULT_DATA_CAPACITY,
    {
        Event { id, count: 0, data: Vec::new(), cap: DEFAULT_DATA_CAPACITY }
    }

    /// A fresh accumulator for `id` with a configured sample cap.
    pub fn with_cap(id: u64, cap: usize) -> (r: Event)
        ensures
            r.wf(),
            r.id == id,
            r.count == 0,
            r.data@ == Seq::<u64>::empty(),
            r.cap == cap,
    {
        Event { id, count: 0, data: Vec::new(), cap }
    }

    /// Records one sample. Below the cap the sample is retained and
    /// counted; at the cap it is refused — `false` comes back so the
    /// caller can surface the capacity warning — and neither the count
    /// nor the retained samples change, keeping the average over
    /// retained samples only.
    pub fn add_data(&mut self, data: u64) -> (accepted: bool)
        requires
            old(self).wf(),
        ensures
            final(self).wf(),
            final(self).id == old(self).id,
            final(self).cap == old(self).cap,
            accepted == (old(self).data@.len() < old(self).cap),
            accepted ==> final(self).data@ == old(self).data@.push(data) && final(self).count == old(
                self,
            ).count + 1,
            !accepted ==> *final(self) == *old(self),
    {
        if self.data.len() < self.cap {
            self.count = self.count + 1;
            self.data.push(data);
            true
        } else {
            false
        }
    }

    /// The exact sum of the retained samples. A 128-bit accumulator
    /// holds the largest possible sum of `cap` 64-bit samples.
    pub fn sum(&self) -> (s: u128)
        requires
            self.wf(),
        ensures
            s as int == sum_of(self.data@),
    {
        let n = self.data.len();
        let mut s: u128 = 0;
        let mut i: usize = 0;
        while i < n
            invariant
                i <= n,
                n == self.data@.len(),
                s as int == sum_of(self.data@.take(i as int)),
                s as int <= i * u64::MAX,
            decreases n - i,
        {
            proof {
                assert(self.data@.take(i + 1).drop_last() =~= self.data@.take(i as int));
                assert(self.data@.take(i + 1).last() == self.data@[i as int]);
            }
            s = s + (self.data[i] as u128);
            i = i + 1;
        }
        proof {
            assert(self.data@.take(n as int) =~= self.data@);
        }
        s
    }

    /// This accumulator's summary line.
    pub fn summary(&self) -> (r: EventResult)
        requires
            self.wf(),
        ensures
            r == spec_summary(*self),
            r.id == self.id,
            r.count == self.count,
            r.sum as int == sum_of(self.data@),
    {
        proof {
            lemma_sum_of_bounds(self.data@);
        }
        EventResult { id: self.id, count: self.count, sum: self.sum() }
    }
}

/// The engine: one bounded accumulator per supported event ID, the
/// bucket's position being its event ID.
pub struct Benchmarks {
    /// The flat bucket table, indexed by event ID.
    pub event_bucket: Vec<Event>,
}

impl Benchmarks {
    /// The engine's invariant: the table covers exactly the supported
    /// event-ID range, bucket `i` accumulates event ID `i`, and every
    /// bucket is well-formed.
    pub open spec fn wf(self) -> bool {
        &&& self.event_bucket@.len() == MAX_EVENT_BUCKET_SIZE
        &&& forall|i: int|
            0 <= i < self.event_bucket@.len() ==> (#[trigger] self.event_bucket@[i]).wf()
                && self.event_bucket@[i].id == i
    }

    /// The samples retained for event ID `j`.
    pub open spec fn spec_samples(self, j: int) -> Seq<u64> {
        self.event_bucket@[j].data@
    }

    /// The sample count for event ID `j`.
    pub open spec fn spec_count(self, j: int) -> u64 {
        self.event_bucket@[j].count
    }

    /// A fresh engine: every bucket empty, default sample cap.
    pub fn new() -> (r: Benchmarks)
        ensures
            r.wf(),
            forall|j: int| 0 <= j < MAX_EVENT_BUCKET_SIZE ==> r.spec_count(j) == 0,
            forall|j: int|
                0 <= j < MAX_EVENT_BUCKET_SIZE ==> r.spec_samples(j) == Seq::<u64>::empty(),
            forall|j: int|
                0 <= j < MAX_EVENT_BUCKET_SIZE ==> (#[trigger] r.event_bucket@[j]).cap
                    == DEFAULT_DATA_CAPACITY,
    {
        Self::with_cap(DEFAULT_DATA_CAPACITY)
    }

    /// A fresh engine with a configured per-event sample cap.
    pub fn with_cap(cap: usize) -> (r: Benchmarks)
        ensures
            r.wf(),
            forall|j: int| 0 <= j < MAX_EVENT_BUCKET_SIZE ==> r.spec_count(j) == 0,
            forall|j: int|
                0 <= j < MAX_EVENT_BUCKET_SIZE ==> r.spec_samples(j) == Seq::<u64>::empty(),
            forall|j: int|
                0 <= j < MAX_EVENT_BUCKET_SIZE ==> (#[trigger] r.event_bucket@[j]).cap == cap,
    {
        let mut event_bucket: Vec<Event> = Vec::new();
        let mut i: usize = 0;
        while i < MAX_EVENT_BUCKET_SIZE
            invariant
                i <= MAX_EVENT_BUCKET_SIZE,
                event_bucket@.len() == i,
                forall|j: int|
                    0 <= j < i ==> (#[trigger] event_bucket@[j]).wf() && event_bucket@[j].id == j
                        && event_bucket@[j].count == 0 && event_bucket@[j].data@ == Seq::<
                        u64,
                    >::empty() && event_bucket@[j].cap == cap,
            decreases MAX_EVENT_BUCKET_SIZE - i,
        {
            event_bucket.push(Event::with_cap(i as u64, cap));
            i = i + 1;
        }
        Benchmarks { event_bucket }
    }

    /// Routes one drained record's payload to the bucket of its event
    /// ID. A record whose event ID lies outside the supported range is
    /// not aggregated; one whose bucket is at its sample cap leaves
    /// the bucket unchanged. `true` exactly when the sample was
    /// retained.
    pub fn record(&mut self, event_id: u32, value: u64) -> (accepted: bool)
        requires
            old(self).wf(),
        ensures
            final(self).wf(),
            accepted == (event_id < MAX_EVENT_BUCKET_SIZE && old(self).spec_samples(
                event_id as int,
            ).len() < old(self).event_bucket@[event_id as int].cap),
            forall|j: int|
                0 <= j < MAX_EVENT_BUCKET_SIZE && j != event_id ==> final(self).event_bucket@[j]
                    == old(self).event_bucket@[j],
            accepted ==> final(self).spec_samples(event_id as int) == old(self).spec_samples(
                event_id as int,
            ).push(value),
            accepted ==> final(self).spec_count(event_id as int) == old(self).spec_count(
                event_id as int,
            ) + 1,
            !accepted ==> final(self).event_bucket@ == old(self).event_bucket@,
            forall|j: int|
                0 <= j < MAX_EVENT_BUCKET_SIZE ==> (#[trigger] final(self).event_bucket@[j]).cap
                    == old(self).event_bucket@[j].cap,
    {
        let idx = event_id as usize;
        if idx < MAX_EVENT_BUCKET_SIZE {
            let accepted = self.event_bucket[idx].add_data(value);
            proof {
                if !accepted {
                    assert(old(self).event_bucket@ =~= self.event_bucket@);
                }
            }
            accepted
        } else {
            false
        }
    }

    /// The summary: one line per event ID with at least one recorded
    /// sample, in event-ID order, with exact counts and sums.
    pub fn summary(&self) -> (r: Vec<EventResult>)
        requires
            self.wf(),
        ensures
            r@ == spec_summarize(self.event_bucket@),
    {
        let n = self.event_bucket.len();
        let mut out: Vec<EventResult> = Vec::new();
        let mut i: usize = 0;
        while i < n
            invariant
                i <= n,
                n == self.event_bucket@.len(),
                self.wf(),
                out@ == spec_summarize(self.event_bucket@.take(i as int)),
            decreases n - i,
        {
            proof {
                assert(self.event_bucket@.take(i + 1).drop_last() =~= self.event_bucket@.take(
                    i as int,
                ));
                assert(self.event_bucket@.take(i + 1).last() == self.event_bucket@[i as int]);
            }
            let e = &self.event_bucket[i];
            if e.count > 0 {
                let line = e.summary();
                out.push(line);
            }
            i = i + 1;
        }
        proof {
            assert(self.event_bucket@.take(n as int) =~= self.event_bucket@);
        }
        out
    }
}

} // verus!
