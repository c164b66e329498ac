//! The look-ahead generation scheduler.
//!
//! `ModelGenerator` keeps a bounded queue of generation jobs keyed by target
//! frame timestamp. Once per frame, `advance` polls the result channel
//! without blocking, evicts stale and out-of-window jobs, hands back the
//! front job's result when it is ready, and tops the queue back up to its
//! capacity, reporting which new jobs the caller must submit to its worker
//! pool.
//!
//! The queue is always a contiguous run of timestamps: the slot at index
//! `i` targets `front + i`. Each slot is pending (submitted, no result yet)
//! or ready (holds a completed result), and `in_flight` always equals the
//! number of pending slots.

use vstd::prelude::*;

use crate::channel;
use crate::params::{params_match, shape_params, FlaskParams};

verus! {

/// A completed generation job: the mesh produced for frame `ts`.
pub struct GeneratedModel<M> {
    pub ts: u32,
    pub mesh: M,
}

/// One tracked job: pending while `result` is `None`, ready once the
/// worker's mesh has been stored.
pub struct Slot<M> {
    pub ts: u32,
    pub result: Option<M>,
}

/// A job the caller must submit to its worker pool: generate with `params`
/// and send the mesh back on the result channel tagged with `ts`.
#[derive(Clone, Copy, PartialEq, Eq, Structural, Debug)]
pub struct JobRequest {
    pub ts: u32,
    pub params: FlaskParams,
}

/// What one `advance` call produced: at most one ready mesh for the
/// consumer, and the jobs the caller must now submit.
pub struct AdvanceResult<M> {
    pub yielded: Option<GeneratedModel<M>>,
    pub requests: Vec<JobRequest>,
}

/// The slot has no result yet.
pub open spec fn slot_pending<M>(s: Slot<M>) -> bool {
    s.result is None
}

/// Timestamps run front-to-back without gaps: slot `i` targets `front + i`.
pub open spec fn contiguous<M>(q: Seq<Slot<M>>) -> bool {
    forall|i: int| 0 <= i < q.len() ==> #[trigger] q[i].ts == q[0].ts + i
}

/// How many slots of `q` are still pending.
pub open spec fn pending_count<M>(q: Seq<Slot<M>>) -> int
    decreases q.len(),
{
    if q.len() == 0 {
        0
    } else {
        (if slot_pending(q[0]) {
            1int
        } else {
            0int
        }) + pending_count(q.drop_first())
    }
}

/// One arriving completion: if its timestamp is still tracked and that slot
/// is pending, the slot becomes ready; otherwise the result is discarded.
pub open spec fn apply_completion_spec<M>(q: Seq<Slot<M>>, c: GeneratedModel<M>) -> Seq<Slot<M>> {
    if q.len() > 0 && q[0].ts <= c.ts && c.ts - q[0].ts < q.len() && slot_pending(
        q[c.ts - q[0].ts],
    ) {
        q.update(c.ts - q[0].ts, Slot { ts: c.ts, result: Some(c.mesh) })
    } else {
        q
    }
}

/// All arriving completions, applied in order.
pub open spec fn drain_spec<M>(q: Seq<Slot<M>>, cs: Seq<GeneratedModel<M>>) -> Seq<Slot<M>>
    decreases cs.len(),
{
    if cs.len() == 0 {
        q
    } else {
        drain_spec(apply_completion_spec(q, cs[0]), cs.drop_first())
    }
}

/// Drop superseded front entries: while a second entry is also at or before
/// `ts`, the front one is stale and goes.
pub open spec fn evict_stale_spec<M>(q: Seq<Slot<M>>, ts: u32) -> Seq<Slot<M>>
    decreases q.len(),
{
    if q.len() > 1 && q[1].ts <= ts {
        evict_stale_spec(q.drop_first(), ts)
    } else {
        q
    }
}

/// Drop front entries more than `max` frames behind `ts`.
pub open spec fn evict_old_spec<M>(q: Seq<Slot<M>>, ts: u32, max: u32) -> Seq<Slot<M>>
    decreases q.len(),
{
    if q.len() > 0 && q[0].ts + max < ts {
        evict_old_spec(q.drop_first(), ts, max)
    } else {
        q
    }
}

/// Drop back entries beyond `ts + max`.
pub open spec fn evict_future_spec<M>(q: Seq<Slot<M>>, ts: u32, max: u32) -> Seq<Slot<M>>
    decreases q.len(),
{
    if q.len() > 0 && q.last().ts > ts + max {
        evict_future_spec(q.drop_last(), ts, max)
    } else {
        q
    }
}

/// The queue after the completions were applied and every eviction ran.
pub open spec fn post_evict_spec<M>(
    q: Seq<Slot<M>>,
    cs: Seq<GeneratedModel<M>>,
    ts: u32,
    max: u32,
) -> Seq<Slot<M>> {
    evict_future_spec(evict_old_spec(evict_stale_spec(drain_spec(q, cs), ts), ts, max), ts, max)
}

/// The front entry holds a result.
pub open spec fn front_ready<M>(q: Seq<Slot<M>>) -> bool {
    q.len() > 0 && q[0].result is Some
}

/// What the consumer gets: the front entry's result, if it is ready.
pub open spec fn yield_spec<M>(q: Seq<Slot<M>>) -> Option<GeneratedModel<M>> {
    if front_ready(q) {
        Some(GeneratedModel { ts: q[0].ts, mesh: q[0].result->Some_0 })
    } else {
        None
    }
}

/// Taking is destructive: a yielded front entry leaves the queue.
pub open spec fn consume_spec<M>(q: Seq<Slot<M>>) -> Seq<Slot<M>> {
    if front_ready(q) {
        q.drop_first()
    } else {
        q
    }
}

/// The timestamp the next appended job targets: one past the back, or `ts`
/// itself when the queue is empty.
pub open spec fn next_fill_ts<M>(q: Seq<Slot<M>>, ts: u32) -> int {
    if q.len() == 0 {
        ts as int
    } else {
        q.last().ts + 1
    }
}

/// Append pending jobs with consecutive timestamps until the queue holds
/// `max` entries.
pub open spec fn refill_spec<M>(q: Seq<Slot<M>>, ts: u32, max: u32) -> Seq<Slot<M>>
    decreases max - q.len(),
{
    if q.len() < max && next_fill_ts(q, ts) <= u32::MAX {
        refill_spec(q.push(Slot { ts: next_fill_ts(q, ts) as u32, result: None }), ts, max)
    } else {
        q
    }
}

/// The queue right before the refill: completions applied, evictions done,
/// a ready front consumed.
pub open spec fn pre_refill_spec<M>(
    q: Seq<Slot<M>>,
    cs: Seq<GeneratedModel<M>>,
    ts: u32,
    max: u32,
) -> Seq<Slot<M>> {
    consume_spec(post_evict_spec(q, cs, ts, max))
}

/// The whole queue transition of one `advance(ts)` call that received the
/// completions `cs`.
pub open spec fn advance_queue_spec<M>(
    q: Seq<Slot<M>>,
    cs: Seq<GeneratedModel<M>>,
    ts: u32,
    max: u32,
) -> Seq<Slot<M>> {
    refill_spec(pre_refill_spec(q, cs, ts, max), ts, max)
}

/// What one `advance(ts)` call that received the completions `cs` yields.
pub open spec fn advance_yield_spec<M>(
    q: Seq<Slot<M>>,
    cs: Seq<GeneratedModel<M>>,
    ts: u32,
    max: u32,
) -> Option<GeneratedModel<M>> {
    yield_spec(post_evict_spec(q, cs, ts, max))
}

/// The pending count is between zero and the queue length.
pub proof fn lemma_pending_count_bounds<M>(q: Seq<Slot<M>>)
    ensures
        0 <= pending_count(q) <= q.len(),
    decreases q.len(),
{
    if q.len() > 0 {
        lemma_pending_count_bounds(q.drop_first());
    }
}

/// Appending a slot adds its own pendingness to the count.
pub proof fn lemma_pending_count_push<M>(q: Seq<Slot<M>>, s: Slot<M>)
    ensures
        pending_count(q.push(s)) == pending_count(q) + (if slot_pending(s) {
            1int
        } else {
            0int
        }),
    decreases q.len(),
{
    assert(q.push(s)[0] == if q.len() == 0 {
        s
    } else {
        q[0]
    });
    assert(q.push(s).len() == q.len() + 1);
    assert(pending_count(q.push(s)) == (if slot_pending(q.push(s)[0]) {
        1int
    } else {
        0int
    }) + pending_count(q.push(s).drop_first()));
    if q.len() == 0 {
        assert(q.push(s).drop_first() =~= Seq::<Slot<M>>::empty());
        assert(pending_count(Seq::<Slot<M>>::empty()) == 0);
    } else {
        assert(q.push(s).drop_first() =~= q.drop_first().push(s));
        lemma_pending_count_push(q.drop_first(), s);
        assert(pending_count(q) == (if slot_pending(q[0]) {
            1int
        } else {
            0int
        }) + pending_count(q.drop_first()));
    }
}

/// Replacing one slot trades its pendingness for the new slot's.
pub proof fn lemma_pending_count_update<M>(q: Seq<Slot<M>>, i: int, s: Slot<M>)
    requires
        0 <= i < q.len(),
    ensures
        pending_count(q.update(i, s)) == pending_count(q) - (if slot_pending(q[i]) {
            1int
        } else {
            0int
        }) + (if slot_pending(s) {
            1int
        } else {
            0int
        }),
    decreases q.len(),
{
    if i == 0 {
        assert(q.update(0, s).drop_first() =~= q.drop_first());
    } else {
        assert(q.update(i, s).drop_first() =~= q.drop_first().update(i - 1, s));
        lemma_pending_count_update(q.drop_first(), i - 1, s);
    }
}

/// A queue with a pending slot has a positive pending count.
pub proof fn lemma_pending_count_at<M>(q: Seq<Slot<M>>, i: int)
    requires
        0 <= i < q.len(),
        slot_pending(q[i]),
    ensures
        pending_count(q) >= 1,
    decreases q.len(),
{
    if i == 0 {
        lemma_pending_count_bounds(q.drop_first());
    } else {
        lemma_pending_count_at(q.drop_first(), i - 1);
    }
}

/// Dropping the front of a contiguous queue leaves it contiguous.
pub proof fn lemma_contiguous_drop_first<M>(q: Seq<Slot<M>>)
    requires
        q.len() > 0,
        contiguous(q),
    ensures
        contiguous(q.drop_first()),
{
    let q1 = q.drop_first();
    assert forall|i: int| 0 <= i < q1.len() implies #[trigger] q1[i].ts == q1[0].ts + i by {
        assert(q1[i] == q[i + 1]);
        assert(q1[0] == q[1]);
        assert(q[i + 1].ts == q[0].ts + i + 1);
        assert(q[1].ts == q[0].ts + 1);
    }
}

/// Stale eviction keeps a suffix of the queue: contiguity, the back entry
/// and at least one entry survive, and the new front either is the old one
/// or lies at or before `ts`.
pub proof fn lemma_evict_stale_props<M>(q: Seq<Slot<M>>, ts: u32)
    requires
        contiguous(q),
    ensures
        ({
            let r = evict_stale_spec(q, ts);
            &&& contiguous(r)
            &&& r.len() <= q.len()
            &&& (q.len() > 0 ==> r.len() >= 1)
            &&& exists|k: int| 0 <= k <= q.len() && r == q.skip(k)
            &&& (q.len() > 0 ==> r.last() == q.last())
            &&& (q.len() > 0 ==> q[0].ts <= r[0].ts)
            &&& (q.len() > 0 ==> (r[0].ts == q[0].ts || r[0].ts <= ts))
        }),
    decreases q.len(),
{
    let r = evict_stale_spec(q, ts);
    if q.len() > 1 && q[1].ts <= ts {
        let q1 = q.drop_first();
        lemma_contiguous_drop_first(q);
        lemma_evict_stale_props(q1, ts);
        let k1 = choose|k: int| 0 <= k <= q1.len() && evict_stale_spec(q1, ts) == q1.skip(k);
        assert(q1.skip(k1) =~= q.skip(k1 + 1));
        assert(r == q.skip(k1 + 1));
        assert(q1.last() == q.last());
        assert(q1[0] == q[1]);
        assert(r[0].ts == q1[0].ts || r[0].ts <= ts);
        assert(q1[0].ts <= ts);
    } else {
        assert(q =~= q.skip(0));
        assert(r == q.skip(0));
    }
}

/// Out-of-window front eviction keeps a suffix: contiguity and the back
/// survive, the surviving front is in the window, and nothing is dropped
/// when the front already is.
pub proof fn lemma_evict_old_props<M>(q: Seq<Slot<M>>, ts: u32, max: u32)
    requires
        contiguous(q),
    ensures
        ({
            let r = evict_old_spec(q, ts, max);
            &&& contiguous(r)
            &&& r.len() <= q.len()
            &&& exists|k: int| 0 <= k <= q.len() && r == q.skip(k)
            &&& (r.len() > 0 ==> r.last() == q.last())
            &&& (r.len() > 0 ==> ts <= r[0].ts + max)
            &&& (r.len() > 0 && q.len() > 0 ==> q[0].ts <= r[0].ts)
            &&& (q.len() > 0 && ts <= q[0].ts + max ==> r == q)
        }),
    decreases q.len(),
{
    let r = evict_old_spec(q, ts, max);
    if q.len() > 0 && q[0].ts + max < ts {
        let q1 = q.drop_first();
        lemma_contiguous_drop_first(q);
        lemma_evict_old_props(q1, ts, max);
        let k1 = choose|k: int| 0 <= k <= q1.len() && evict_old_spec(q1, ts, max) == q1.skip(k);
        assert(q1.skip(k1) =~= q.skip(k1 + 1));
        assert(r == q.skip(k1 + 1));
        if q1.len() > 0 {
            assert(q1.last() == q.last());
            assert(q1[0] == q[1]);
        }
    } else {
        assert(q =~= q.skip(0));
        assert(r == q.skip(0));
    }
}

/// Dropping the back of a contiguous queue leaves it contiguous.
pub proof fn lemma_contiguous_drop_last<M>(q: Seq<Slot<M>>)
    requires
        q.len() > 0,
        contiguous(q),
    ensures
        contiguous(q.drop_last()),
{
    let q1 = q.drop_last();
    assert forall|i: int| 0 <= i < q1.len() implies #[trigger] q1[i].ts == q1[0].ts + i by {
        assert(q1[i] == q[i]);
        assert(q1[0] == q[0]);
    }
}

/// Out-of-window back eviction keeps a prefix: the front survives whenever
/// it lies inside the window, and the surviving back is in the window.
pub proof fn lemma_evict_future_props<M>(q: Seq<Slot<M>>, ts: u32, max: u32)
    requires
        contiguous(q),
    ensures
        ({
            let r = evict_future_spec(q, ts, max);
            &&& contiguous(r)
            &&& r.len() <= q.len()
            &&& exists|k: int| 0 <= k <= q.len() && r == q.take(k)
            &&& (r.len() > 0 ==> r[0] == q[0])
            &&& (r.len() > 0 ==> r.last().ts <= ts + max)
            &&& (q.len() > 0 && q[0].ts <= ts + max ==> r.len() > 0)
        }),
    decreases q.len(),
{
    let r = evict_future_spec(q, ts, max);
    if q.len() > 0 && q.last().ts > ts + max {
        let q1 = q.drop_last();
        lemma_contiguous_drop_last(q);
        lemma_evict_future_props(q1, ts, max);
        let k1 = choose|k: int| 0 <= k <= q1.len() && evict_future_spec(q1, ts, max) == q1.take(
            k,
        );
        assert(q1.take(k1) =~= q.take(k1));
        assert(r == q.take(k1));
        if q1.len() > 0 {
            assert(q1[0] == q[0]);
        }
    } else {
        assert(q =~= q.take(q.len() as int));
        assert(r == q.take(q.len() as int));
    }
}

/// The refill fills the queue to exactly `max` entries: the existing prefix
/// is kept, and the appended slots are pending and continue the contiguous
/// run (starting at `ts` when the queue was empty).
pub proof fn lemma_refill_props<M>(q: Seq<Slot<M>>, ts: u32, max: u32)
    requires
        contiguous(q),
        q.len() <= max,
        q.len() == 0 ==> ts + max <= u32::MAX,
        q.len() > 0 ==> q.last().ts + max - q.len() <= u32::MAX,
    ensures
        ({
            let r = refill_spec(q, ts, max);
            &&& r.len() == max
            &&& contiguous(r)
            &&& forall|i: int| 0 <= i < q.len() ==> r[i] == q[i]
            &&& (q.len() > 0 ==> r[0].ts == q[0].ts)
            &&& (q.len() == 0 && max > 0 ==> r[0].ts == ts)
            &&& forall|i: int| q.len() <= i < max ==> slot_pending(r[i])
        }),
    decreases max - q.len(),
{
    if q.len() < max {
        let next = next_fill_ts(q, ts);
        assert(next <= u32::MAX);
        let s = Slot { ts: next as u32, result: None::<M> };
        let q1 = q.push(s);
        assert(contiguous(q1)) by {
            assert forall|i: int| 0 <= i < q1.len() implies #[trigger] q1[i].ts == q1[0].ts
                + i by {
                if i < q.len() {
                    assert(q1[i] == q[i]);
                } else {
                    assert(q1[i] == s);
                    if q.len() > 0 {
                        assert(q.last().ts == q[0].ts + q.len() - 1);
                    }
                }
                assert(q1[0] == if q.len() == 0 {
                    s
                } else {
                    q[0]
                });
            }
        };
        lemma_refill_props(q1, ts, max);
        assert(refill_spec(q, ts, max) == refill_spec(q1, ts, max));
    }
}

/// Dropping the back subtracts its pendingness from the count.
pub proof fn lemma_pending_count_drop_last<M>(q: Seq<Slot<M>>)
    requires
        q.len() > 0,
    ensures
        pending_count(q) == pending_count(q.drop_last()) + (if slot_pending(q.last()) {
            1int
        } else {
            0int
        }),
{
    assert(q =~= q.drop_last().push(q.last()));
    lemma_pending_count_push(q.drop_last(), q.last());
}

/// Staleness discard: a completion whose timestamp is no longer tracked
/// leaves the queue exactly as it was — it is neither stored nor yielded.
pub proof fn lemma_stale_completion_ignored<M>(q: Seq<Slot<M>>, c: GeneratedModel<M>)
    requires
        contiguous(q),
        forall|i: int| 0 <= i < q.len() ==> (#[trigger] q[i]).ts != c.ts,
    ensures
        apply_completion_spec(q, c) == q,
{
    if q.len() > 0 && q[0].ts <= c.ts && c.ts - q[0].ts < q.len() {
        let idx = c.ts - q[0].ts;
        assert(q[idx].ts == q[0].ts + idx);
        assert(false);
    }
}

/// Progress: once the pool has caught up — every tracked job is ready —
/// and the front job is at or before the current frame and inside the
/// window, the advance step yields a mesh, and it is for a frame at or
/// before the current one. So a consumer that keeps asking is never
/// starved once generation keeps up.
pub proof fn lemma_progress<M>(q: Seq<Slot<M>>, ts: u32, max: u32)
    requires
        contiguous(q),
        q.len() > 0,
        forall|i: int| 0 <= i < q.len() ==> !slot_pending(#[trigger] q[i]),
        q[0].ts <= ts,
        ts <= q[0].ts + max,
    ensures
        ({
            let y = advance_yield_spec(q, Seq::<GeneratedModel<M>>::empty(), ts, max);
            &&& y is Some
            &&& (y->Some_0).ts <= ts
        }),
{
    let cs = Seq::<GeneratedModel<M>>::empty();
    assert(drain_spec(q, cs) == q);
    lemma_evict_stale_props(q, ts);
    let q1 = evict_stale_spec(q, ts);
    let k1 = choose|k: int| 0 <= k <= q.len() && q1 == q.skip(k);
    assert(q1[0] == q[k1]);
    assert(q1[0].ts <= ts);
    lemma_evict_old_props(q1, ts, max);
    let q2 = evict_old_spec(q1, ts, max);
    assert(ts <= q1[0].ts + max);
    assert(q2 == q1);
    lemma_evict_future_props(q2, ts, max);
    let q3 = evict_future_spec(q2, ts, max);
    assert(q3.len() > 0);
    assert(q3[0] == q1[0]);
    assert(!slot_pending(q1[0]));
    assert(front_ready(q3));
    assert(q3 == post_evict_spec(q, cs, ts, max));
}

/// The look-ahead generation scheduler.
///
/// It owns the receiving end of the result channel; the caller owns the
/// worker pool and the matching senders, submits each `JobRequest` that
/// `advance` hands back, and has the worker send the finished
/// `GeneratedModel` on the channel.
#[verifier::reject_recursive_types(M)]
pub struct ModelGenerator<M> {
    pub rx: std::sync::mpsc::Receiver<GeneratedModel<M>>,
    pub max_queue_size: u32,
    pub beat_interval: u32,
    pub queue: Vec<Slot<M>>,
    pub in_flight: u32,
    pub last_ts: Ghost<u32>,
    /// An upper bound on the results still to arrive on the channel (jobs
    /// handed out, less completions received); it bounds the per-frame poll.
    pub expected_results: u64,
}

impl<M> ModelGenerator<M> {
    /// The queue invariant: bounded by the capacity, timestamps contiguous,
    /// and `in_flight` equal to the number of pending slots.
    pub open spec fn core_inv(self) -> bool {
        &&& 1 <= self.max_queue_size
        &&& 1 <= self.beat_interval
        &&& self.queue@.len() <= self.max_queue_size
        &&& contiguous(self.queue@)
        &&& self.in_flight == pending_count(self.queue@)
    }

    /// Well-formed between calls: the queue invariant, and the front no
    /// further ahead of the last driven frame than the window allows.
    pub open spec fn wf(self) -> bool {
        &&& self.core_inv()
        &&& (self.queue@.len() > 0 ==> self.queue@[0].ts <= self.last_ts@ + self.max_queue_size)
    }

    /// A fresh scheduler with an empty queue, reading results from `rx`.
    pub fn new(
        rx: std::sync::mpsc::Receiver<GeneratedModel<M>>,
        max_queue_size: u32,
        beat_interval: u32,
    ) -> (g: Self)
        requires
            1 <= max_queue_size,
            1 <= beat_interval,
        ensures
            g.wf(),
            g.max_queue_size == max_queue_size,
            g.beat_interval == beat_interval,
            g.queue@.len() == 0,
            g.in_flight == 0,
            g.last_ts@ == 0,
    {
        let g = ModelGenerator {
            rx,
            max_queue_size,
            beat_interval,
            queue: Vec::new(),
            in_flight: 0,
            last_ts: Ghost(0u32),
            expected_results: 0,
        };
        proof {
            assert(pending_count(g.queue@) == 0);
        }
        g
    }

    /// The look-ahead capacity this scheduler was built with.
    pub fn max_queue_size(&self) -> (n: u32)
        ensures
            n == self.max_queue_size,
    {
        self.max_queue_size
    }

    /// How many jobs the queue currently tracks, pending or ready.
    pub fn queue_size(&self) -> (n: u32)
        requires
            self.wf(),
        ensures
            n == self.queue@.len(),
    {
        self.queue.len() as u32
    }

    /// How many tracked jobs are still pending on the pool.
    pub fn in_flight_jobs(&self) -> (n: u32)
        ensures
            n == self.in_flight,
    {
        self.in_flight
    }

    /// The timestamps the queue currently tracks, front to back.
    pub fn job_timestamps(&self) -> (v: Vec<u32>)
        ensures
            v@.len() == self.queue@.len(),
            forall|i: int| 0 <= i < v@.len() ==> v@[i] == self.queue@[i].ts,
    {
        let mut v: Vec<u32> = Vec::new();
        let mut i: usize = 0;
        while i < self.queue.len()
            invariant
                i <= self.queue@.len(),
                v@.len() == i,
                forall|j: int| 0 <= j < i as int ==> v@[j] == self.queue@[j].ts,
            decreases self.queue@.len() - i,
        {
            v.push(self.queue[i].ts);
            i = i + 1;
        }
        v
    }

    /// Store one arriving completion in its slot, or discard it when its
    /// timestamp is no longer tracked or its slot is already ready.
    fn apply_completion(&mut self, c: GeneratedModel<M>)
        requires
            old(self).core_inv(),
        ensures
            final(self).core_inv(),
            final(self).queue@ == apply_completion_spec(old(self).queue@, c),
            final(self).max_queue_size == old(self).max_queue_size,
            final(self).beat_interval == old(self).beat_interval,
            final(self).last_ts == old(self).last_ts,
            final(self).queue@.len() == old(self).queue@.len(),
            forall|i: int|
                0 <= i < final(self).queue@.len() ==> final(self).queue@[i].ts == old(
                    self,
                ).queue@[i].ts,
    {
        let ghost q0 = self.queue@;
        let c_ts = c.ts;
        if self.queue.len() > 0 && self.queue[0].ts <= c_ts {
            let off = c_ts - self.queue[0].ts;
            if (off as usize) < self.queue.len() && self.queue[off as usize].result.is_none() {
                let slot = Slot { ts: c_ts, result: Some(c.mesh) };
                proof {
                    lemma_pending_count_at(q0, off as int);
                    lemma_pending_count_update(q0, off as int, slot);
                    assert(q0[off as int].ts == q0[0].ts + off);
                }
                self.queue[off as usize] = slot;
                self.in_flight = self.in_flight - 1;
                proof {
                    assert(contiguous(self.queue@)) by {
                        assert forall|i: int|
                            0 <= i < self.queue@.len() implies #[trigger] self.queue@[i].ts
                            == self.queue@[0].ts + i by {
                            assert(self.queue@[i].ts == q0[i].ts);
                            assert(self.queue@[0].ts == q0[0].ts);
                        }
                    };
                }
            }
        }
    }

    /// Drop superseded front entries: while a second entry is also at or
    /// before `ts`, the front one goes.
    fn evict_stale_front(&mut self, ts: u32)
        requires
            old(self).core_inv(),
        ensures
            final(self).core_inv(),
            final(self).queue@ == evict_stale_spec(old(self).queue@, ts),
            final(self).max_queue_size == old(self).max_queue_size,
            final(self).beat_interval == old(self).beat_interval,
            final(self).last_ts == old(self).last_ts,
    {
        while self.queue.len() > 1 && self.queue[1].ts <= ts
            invariant
                self.core_inv(),
                self.max_queue_size == old(self).max_queue_size,
                self.beat_interval == old(self).beat_interval,
                self.last_ts == old(self).last_ts,
                evict_stale_spec(self.queue@, ts) == evict_stale_spec(old(self).queue@, ts),
            decreases self.queue@.len(),
        {
            let ghost qpre = self.queue@;
            let front = self.queue.remove(0);
            if front.result.is_none() {
                proof {
                    lemma_pending_count_at(qpre, 0);
                }
                self.in_flight = self.in_flight - 1;
            }
            proof {
                assert(self.queue@ =~= qpre.drop_first());
                lemma_contiguous_drop_first(qpre);
                assert(pending_count(qpre) == (if slot_pending(qpre[0]) {
                    1int
                } else {
                    0int
                }) + pending_count(qpre.drop_first()));
            }
        }
    }

    /// Drop front entries more than the window behind `ts`.
    fn evict_out_of_window_front(&mut self, ts: u32)
        requires
            old(self).core_inv(),
        ensures
            final(self).core_inv(),
            final(self).queue@ == evict_old_spec(old(self).queue@, ts, old(self).max_queue_size),
            final(self).max_queue_size == old(self).max_queue_size,
            final(self).beat_interval == old(self).beat_interval,
            final(self).last_ts == old(self).last_ts,
    {
        while self.queue.len() > 0 && (self.queue[0].ts as u64) + (self.max_queue_size as u64) < (
        ts as u64)
            invariant
                self.core_inv(),
                self.max_queue_size == old(self).max_queue_size,
                self.beat_interval == old(self).beat_interval,
                self.last_ts == old(self).last_ts,
                evict_old_spec(self.queue@, ts, self.max_queue_size) == evict_old_spec(
                    old(self).queue@,
                    ts,
                    old(self).max_queue_size,
                ),
            decreases self.queue@.len(),
        {
            let ghost qpre = self.queue@;
            let front = self.queue.remove(0);
            if front.result.is_none() {
                proof {
                    lemma_pending_count_at(qpre, 0);
                }
                self.in_flight = self.in_flight - 1;
            }
            proof {
                assert(self.queue@ =~= qpre.drop_first());
                lemma_contiguous_drop_first(qpre);
                assert(pending_count(qpre) == (if slot_pending(qpre[0]) {
                    1int
                } else {
                    0int
                }) + pending_count(qpre.drop_first()));
            }
        }
    }

    /// Drop back entries beyond `ts` plus the window.
    fn evict_out_of_window_back(&mut self, ts: u32)
        requires
            old(self).core_inv(),
        ensures
            final(self).core_inv(),
            final(self).queue@ == evict_future_spec(old(self).queue@, ts, old(self).max_queue_size),
            final(self).max_queue_size == old(self).max_queue_size,
            final(self).beat_interval == old(self).beat_interval,
            final(self).last_ts == old(self).last_ts,
    {
        while self.queue.len() > 0 && (self.queue[self.queue.len() - 1].ts as u64) > (ts as u64)
            + (self.max_queue_size as u64)
            invariant
                self.core_inv(),
                self.max_queue_size == old(self).max_queue_size,
                self.beat_interval == old(self).beat_interval,
                self.last_ts == old(self).last_ts,
                evict_future_spec(self.queue@, ts, self.max_queue_size) == evict_future_spec(
                    old(self).queue@,
                    ts,
                    old(self).max_queue_size,
                ),
            decreases self.queue@.len(),
        {
            let ghost qpre = self.queue@;
            proof {
                lemma_pending_count_drop_last(qpre);
                lemma_pending_count_bounds(qpre.drop_last());
                lemma_contiguous_drop_last(qpre);
            }
            match self.queue.pop() {
                Some(back) => {
                    proof {
                        assert(self.queue@ =~= qpre.drop_last());
                        assert(back == qpre.last());
                    }
                    if back.result.is_none() {
                        self.in_flight = self.in_flight - 1;
                    }
                },
                None => {
                    proof {
                        assert(false);
                    }
                },
            }
        }
    }

    /// Take the front entry's mesh when it is ready; taking removes the
    /// entry.
    fn take_front_ready(&mut self) -> (y: Option<GeneratedModel<M>>)
        requires
            old(self).core_inv(),
        ensures
            final(self).core_inv(),
            y == yield_spec(old(self).queue@),
            final(self).queue@ == consume_spec(old(self).queue@),
            final(self).max_queue_size == old(self).max_queue_size,
            final(self).beat_interval == old(self).beat_interval,
            final(self).last_ts == old(self).last_ts,
    {
        if self.queue.len() > 0 && self.queue[0].result.is_some() {
            let ghost qpre = self.queue@;
            let s = self.queue.remove(0);
            proof {
                assert(self.queue@ =~= qpre.drop_first());
                lemma_contiguous_drop_first(qpre);
                assert(pending_count(qpre) == (if slot_pending(qpre[0]) {
                    1int
                } else {
                    0int
                }) + pending_count(qpre.drop_first()));
            }
            match s.result {
                Some(mesh) => Some(GeneratedModel { ts: s.ts, mesh }),
                None => {
                    proof {
                        assert(false);
                    }
                    None
                },
            }
        } else {
            None
        }
    }

    /// Append pending jobs until the queue is full again, and report them so
    /// the caller can submit the work.
    fn refill(&mut self, ts: u32) -> (requests: Vec<JobRequest>)
        requires
            old(self).core_inv(),
            old(self).queue@.len() > 0 ==> old(self).queue@.last().ts <= ts + old(
                self,
            ).max_queue_size,
            ts + 2 * old(self).max_queue_size <= u32::MAX,
        ensures
            final(self).core_inv(),
            final(self).queue@ == refill_spec(old(self).queue@, ts, old(self).max_queue_size),
            final(self).queue@.len() == final(self).max_queue_size,
            final(self).max_queue_size == old(self).max_queue_size,
            final(self).beat_interval == old(self).beat_interval,
            final(self).last_ts == old(self).last_ts,
            requests@.len() == final(self).max_queue_size - old(self).queue@.len(),
            forall|i: int|
                0 <= i < requests@.len() ==> (#[trigger] requests@[i]).ts == final(self).queue@[old(
                    self,
                ).queue@.len() + i].ts && params_match(
                    requests@[i].params,
                    requests@[i].ts,
                    final(self).beat_interval,
                ),
    {
        let ghost q0 = self.queue@;
        let mut requests: Vec<JobRequest> = Vec::new();
        while self.queue.len() < (self.max_queue_size as usize)
            invariant
                self.core_inv(),
                self.max_queue_size == old(self).max_queue_size,
                self.beat_interval == old(self).beat_interval,
                self.last_ts == old(self).last_ts,
                ts + 2 * self.max_queue_size <= u32::MAX,
                q0.len() <= self.queue@.len(),
                forall|i: int| 0 <= i < q0.len() ==> self.queue@[i] == q0[i],
                refill_spec(self.queue@, ts, self.max_queue_size) == refill_spec(
                    q0,
                    ts,
                    self.max_queue_size,
                ),
                requests@.len() == self.queue@.len() - q0.len(),
                forall|i: int|
                    0 <= i < requests@.len() ==> (#[trigger] requests@[i]).ts
                        == self.queue@[q0.len() + i].ts && params_match(
                        requests@[i].params,
                        requests@[i].ts,
                        self.beat_interval,
                    ),
                self.queue@.len() > 0 ==> self.queue@.last().ts <= ts + self.max_queue_size + (
                self.queue@.len() - q0.len()),
            decreases self.max_queue_size - self.queue@.len(),
        {
            let gen_ts: u32 = if self.queue.len() == 0 {
                ts
            } else {
                self.queue[self.queue.len() - 1].ts + 1
            };
            let params = shape_params(gen_ts, self.beat_interval);
            let slot: Slot<M> = Slot { ts: gen_ts, result: None };
            let ghost qpre = self.queue@;
            proof {
                lemma_pending_count_push(qpre, slot);
                lemma_pending_count_bounds(qpre);
                assert(gen_ts as int == next_fill_ts(qpre, ts));
            }
            self.queue.push(Slot { ts: gen_ts, result: None });
            self.in_flight = self.in_flight + 1;
            requests.push(JobRequest { ts: gen_ts, params });
            proof {
                assert(self.queue@ == qpre.push(slot));
                assert(contiguous(self.queue@)) by {
                    assert forall|i: int|
                        0 <= i < self.queue@.len() implies #[trigger] self.queue@[i].ts
                        == self.queue@[0].ts + i by {
                        if i < qpre.len() {
                            assert(self.queue@[i] == qpre[i]);
                        } else {
                            assert(self.queue@[i] == slot);
                            if qpre.len() > 0 {
                                assert(qpre.last().ts == qpre[0].ts + qpre.len() - 1);
                            }
                        }
                        assert(self.queue@[0] == if qpre.len() == 0 {
                            slot
                        } else {
                            qpre[0]
                        });
                    }
                };
            }
        }
        requests
    }

    /// One frame step, with the arriving completions given explicitly: apply
    /// them, evict stale and out-of-window jobs, hand over a ready front
    /// result, and top the queue back up. The whole transition is the spec
    /// function `advance_queue_spec`; what it yields is `advance_yield_spec`.
    ///
    /// Timestamps must be driven forward (`last_ts@ <= ts`), and `ts` must
    /// leave arithmetic headroom of two windows below `u32::MAX`.
    pub fn advance_with(&mut self, ts: u32, completions: Vec<GeneratedModel<M>>) -> (r:
        AdvanceResult<M>)
        requires
            old(self).wf(),
            old(self).last_ts@ <= ts,
            ts + 2 * old(self).max_queue_size <= u32::MAX,
        ensures
            final(self).wf(),
            final(self).max_queue_size == old(self).max_queue_size,
            final(self).beat_interval == old(self).beat_interval,
            final(self).last_ts@ == ts,
            final(self).queue@ == advance_queue_spec(
                old(self).queue@,
                completions@,
                ts,
                old(self).max_queue_size,
            ),
            r.yielded == advance_yield_spec(
                old(self).queue@,
                completions@,
                ts,
                old(self).max_queue_size,
            ),
            final(self).queue@.len() == final(self).max_queue_size,
            ts <= final(self).queue@[0].ts + final(self).max_queue_size,
            final(self).queue@[0].ts <= ts + final(self).max_queue_size,
            r.yielded matches Some(y) ==> ts <= y.ts + final(self).max_queue_size && y.ts <= ts
                + final(self).max_queue_size,
            r.requests@.len() == final(self).max_queue_size - pre_refill_spec(
                old(self).queue@,
                completions@,
                ts,
                old(self).max_queue_size,
            ).len(),
            forall|i: int|
                0 <= i < r.requests@.len() ==> {
                    let n = final(self).queue@.len() - r.requests@.len();
                    &&& (#[trigger] r.requests@[i]).ts == final(self).queue@[n + i].ts
                    &&& params_match(
                        r.requests@[i].params,
                        r.requests@[i].ts,
                        final(self).beat_interval,
                    )
                    &&& slot_pending(final(self).queue@[n + i])
                },
    {
        let ghost q0 = self.queue@;
        let ghost cs0 = completions@;
        let ghost max = self.max_queue_size;
        self.last_ts = Ghost(ts);
        let mut completions = completions;
        while completions.len() > 0
            invariant
                self.core_inv(),
                self.max_queue_size == old(self).max_queue_size,
                self.beat_interval == old(self).beat_interval,
                self.last_ts@ == ts,
                drain_spec(self.queue@, completions@) == drain_spec(q0, cs0),
                self.queue@.len() == q0.len(),
                forall|i: int| 0 <= i < q0.len() ==> self.queue@[i].ts == q0[i].ts,
            decreases completions@.len(),
        {
            let ghost qpre = self.queue@;
            let ghost cpre = completions@;
            let c = completions.remove(0);
            proof {
                assert(completions@ =~= cpre.drop_first());
            }
            self.apply_completion(c);
        }
        let ghost q_drained = self.queue@;
        proof {
            assert(drain_spec(q_drained, completions@) == q_drained);
            assert(q_drained == drain_spec(q0, cs0));
        }
        self.evict_stale_front(ts);
        let ghost q_s = self.queue@;
        self.evict_out_of_window_front(ts);
        let ghost q_o = self.queue@;
        self.evict_out_of_window_back(ts);
        let ghost q_evicted = self.queue@;
        proof {
            lemma_evict_stale_props(q_drained, ts);
            lemma_evict_old_props(q_s, ts, max);
            lemma_evict_future_props(q_o, ts, max);
            assert(q_evicted == post_evict_spec(q0, cs0, ts, max));
            // The drained queue still starts where the old one did, so the
            // surviving front is never past `ts + max`.
            if q_drained.len() > 0 {
                assert(q_drained[0].ts == q0[0].ts);
                assert(q_drained[0].ts <= ts + max);
            }
        }
        let yielded = self.take_front_ready();
        let ghost q_pre_refill = self.queue@;
        proof {
            assert(q_pre_refill == pre_refill_spec(q0, cs0, ts, max));
            // The back survives a front consumption, so it stays in window.
            if q_pre_refill.len() > 0 {
                assert(q_pre_refill.last() == q_evicted.last());
                assert(q_pre_refill.last().ts <= ts + max);
            }
            // A yielded mesh is the evicted queue's front, which sits within
            // one window of the driven frame on both sides.
            if yielded is Some {
                assert(front_ready(q_evicted));
                assert((yielded->Some_0).ts == q_evicted[0].ts);
                assert(ts <= q_evicted[0].ts + max);
                assert(q_evicted.last().ts == q_evicted[0].ts + q_evicted.len() - 1);
                assert(q_evicted[0].ts <= ts + max);
            }
        }
        let requests = self.refill(ts);
        proof {
            lemma_refill_props(q_pre_refill, ts, max);
            assert(self.queue@ == advance_queue_spec(q0, cs0, ts, max));
            // Window bounds on the refilled queue's front.
            if q_pre_refill.len() > 0 {
                assert(self.queue@[0].ts == q_pre_refill[0].ts);
                // The front survived both front evictions, so it is not
                // behind the window...
                assert(ts <= q_o[0].ts + max);
                assert(q_pre_refill[0].ts >= q_o[0].ts);
                // ...and it sits at or before the surviving back.
                assert(q_pre_refill[0].ts <= q_pre_refill.last().ts);
            } else {
                assert(self.queue@[0].ts == ts);
            }
        }
        let added = requests.len() as u64;
        if self.expected_results <= u64::MAX - added {
            self.expected_results = self.expected_results + added;
        }
        AdvanceResult { yielded, requests }
    }

    /// One frame step: poll the result channel dry without blocking, then
    /// step as `advance_with` does on exactly the completions received.
    pub fn advance(&mut self, ts: u32) -> (r: AdvanceResult<M>)
        requires
            old(self).wf(),
            old(self).last_ts@ <= ts,
            ts + 2 * old(self).max_queue_size <= u32::MAX,
        ensures
            final(self).wf(),
            final(self).max_queue_size == old(self).max_queue_size,
            final(self).beat_interval == old(self).beat_interval,
            final(self).last_ts@ == ts,
            final(self).queue@.len() == final(self).max_queue_size,
            ts <= final(self).queue@[0].ts + final(self).max_queue_size,
            final(self).queue@[0].ts <= ts + final(self).max_queue_size,
            r.yielded matches Some(y) ==> ts <= y.ts + final(self).max_queue_size && y.ts <= ts
                + final(self).max_queue_size,
            forall|i: int|
                0 <= i < r.requests@.len() ==> {
                    let n = final(self).queue@.len() - r.requests@.len();
                    &&& (#[trigger] r.requests@[i]).ts == final(self).queue@[n + i].ts
                    &&& params_match(
                        r.requests@[i].params,
                        r.requests@[i].ts,
                        final(self).beat_interval,
                    )
                    &&& slot_pending(final(self).queue@[n + i])
                },
            exists|cs: Seq<GeneratedModel<M>>|
                {
                    &&& final(self).queue@ == #[trigger] advance_queue_spec(
                        old(self).queue@,
                        cs,
                        ts,
                        old(self).max_queue_size,
                    )
                    &&& r.yielded == advance_yield_spec(
                        old(self).queue@,
                        cs,
                        ts,
                        old(self).max_queue_size,
                    )
                },
    {
        let mut completions: Vec<GeneratedModel<M>> = Vec::new();
        let mut remaining: u64 = self.expected_results;
        while remaining > 0
            invariant
                self == old(self),
            decreases remaining,
        {
            match channel::try_recv(&self.rx) {
                Some(c) => {
                    completions.push(c);
                    remaining = remaining - 1;
                },
                None => {
                    break;
                },
            }
        }
        self.expected_results = remaining;
        let ghost cs = completions@;
        let r = self.advance_with(ts, completions);
        proof {
            assert(self.queue@ == advance_queue_spec(
                old(self).queue@,
                cs,
                ts,
                old(self).max_queue_size,
            ));
        }
        r
    }

    /// Tear the scheduler down: the queue is dropped whole, and the caller
    /// is told whether jobs are still in flight — if so it must drain its
    /// worker pool before dropping the channel endpoints, since in-flight
    /// workers still hold senders.
    pub fn shutdown(&mut self) -> (must_drain: bool)
        requires
            old(self).wf(),
        ensures
            must_drain == (old(self).in_flight > 0),
            final(self).wf(),
            final(self).queue@.len() == 0,
            final(self).in_flight == 0,
            final(self).max_queue_size == old(self).max_queue_size,
            final(self).beat_interval == old(self).beat_interval,
    {
        let must_drain = self.in_flight > 0;
        self.queue.clear();
        self.in_flight = 0;
        proof {
            assert(pending_count(self.queue@) == 0);
        }
        must_drain
    }

    /// Window bound: a well-formed scheduler never tracks more jobs than
    /// the capacity it was built with; since `advance` returns the
    /// scheduler well-formed, `queue_size()` never exceeds
    /// `max_queue_size()` after any sequence of `advance` calls.
    pub proof fn lemma_window_bound(self)
        requires
            self.wf(),
        ensures
            self.queue@.len() <= self.max_queue_size,
    {
    }

    /// Every tracked timestamp lies in `[front, front + max_queue_size]`:
    /// the queue is one contiguous run, never wider than the window.
    pub proof fn lemma_tracked_within_window(self)
        requires
            self.wf(),
        ensures
            forall|i: int|
                0 <= i < self.queue@.len() ==> self.queue@[0].ts <= (
                #[trigger] self.queue@[i]).ts <= self.queue@[0].ts + self.max_queue_size,
    {
    }
}

} // verus!
