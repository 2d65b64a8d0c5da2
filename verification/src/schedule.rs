//! Static partition of the frames over a fixed pool of workers, and the
//! assembly of what the workers hand back, by frame index.

use vstd::prelude::*;

verus! {

/// The frames `[low, upp)` that one worker analyzes.
#[derive(Clone, Copy, Debug, PartialEq, Eq, Structural)]
pub struct FrameRange {
    pub low: usize,
    pub upp: usize,
}

/// First frame of worker `th` among `workers`.
pub open spec fn range_low(num_frames: int, workers: int, th: int) -> int {
    th * (num_frames / workers)
}

/// End of the frames of worker `th`: the last worker takes the remainder.
pub open spec fn range_upp(num_frames: int, workers: int, th: int) -> int {
    range_low(num_frames, workers, th) + num_frames / workers + if th == workers - 1 {
        num_frames % workers
    } else {
        0
    }
}

/// The ranges are contiguous, start at frame 0 and end at `num_frames`.
pub proof fn lemma_partition_covers(num_frames: int, workers: int)
    requires
        num_frames >= 0,
        workers >= 1,
    ensures
        range_low(num_frames, workers, 0) == 0,
        range_upp(num_frames, workers, workers - 1) == num_frames,
        forall|th: int|
            0 <= th < workers ==> 0 <= #[trigger] range_low(num_frames, workers, th) <= range_upp(
                num_frames,
                workers,
                th,
            ) <= num_frames,
        forall|th: int|
            0 <= th < workers - 1 ==> #[trigger] range_upp(num_frames, workers, th) == range_low(
                num_frames,
                workers,
                th + 1,
            ),
{
    let q = num_frames / workers;
    let m = num_frames % workers;
    assert(q * workers + m == num_frames && q >= 0 && 0 <= m < workers) by (nonlinear_arith)
        requires
            num_frames >= 0,
            workers >= 1,
            q == num_frames / workers,
            m == num_frames % workers,
    ;
    assert((workers - 1) * q + q == q * workers) by (nonlinear_arith);
    assert forall|th: int| 0 <= th < workers implies 0 <= #[trigger] range_low(
        num_frames,
        workers,
        th,
    ) <= range_upp(num_frames, workers, th) <= num_frames by {
        assert(0 <= th * q && th * q + q <= q * workers) by (nonlinear_arith)
            requires
                0 <= th < workers,
                q >= 0,
        ;
    }
    assert forall|th: int| 0 <= th < workers - 1 implies #[trigger] range_upp(
        num_frames,
        workers,
        th,
    ) == range_low(num_frames, workers, th + 1) by {
        assert(th * q + q == (th + 1) * q) by (nonlinear_arith);
    }
}

/// Every frame belongs to the range of exactly one worker.
pub proof fn lemma_partition_unique(num_frames: int, workers: int, f: int)
    requires
        workers >= 1,
        0 <= f < num_frames,
    ensures
        exists|th: int|
            0 <= th < workers && #[trigger] range_low(num_frames, workers, th) <= f < range_upp(
                num_frames,
                workers,
                th,
            ),
        forall|a: int, b: int|
            0 <= a < workers && 0 <= b < workers && #[trigger] range_low(num_frames, workers, a)
                <= f < range_upp(num_frames, workers, a) && #[trigger] range_low(
                num_frames,
                workers,
                b,
            ) <= f < range_upp(num_frames, workers, b) ==> a == b,
{
    let q = num_frames / workers;
    let m = num_frames % workers;
    assert(q * workers + m == num_frames && q >= 0 && 0 <= m < workers) by (nonlinear_arith)
        requires
            num_frames >= 0,
            workers >= 1,
            q == num_frames / workers,
            m == num_frames % workers,
    ;
    let th = if q == 0 || f / q >= workers - 1 {
        workers - 1
    } else {
        f / q
    };
    if q > 0 {
        let g = f / q;
        assert(g * q <= f < g * q + q && g >= 0) by (nonlinear_arith)
            requires
                f >= 0,
                q > 0,
                g == f / q,
        ;
        if g >= workers - 1 {
            assert((workers - 1) * q <= g * q) by (nonlinear_arith)
                requires
                    g >= workers - 1,
                    q > 0,
            ;
        }
    } else {
        assert((workers - 1) * q == 0) by (nonlinear_arith)
            requires
                q == 0,
        ;
    }
    assert((workers - 1) * q + q == q * workers) by (nonlinear_arith);
    assert(range_low(num_frames, workers, th) <= f < range_upp(num_frames, workers, th));
    assert forall|a: int, b: int|
        0 <= a < workers && 0 <= b < workers && #[trigger] range_low(num_frames, workers, a) <= f
            < range_upp(num_frames, workers, a) && #[trigger] range_low(num_frames, workers, b)
            <= f < range_upp(num_frames, workers, b) implies a == b by {
        if a < b {
            assert(a * q + q <= b * q) by (nonlinear_arith)
                requires
                    a < b,
                    q >= 0,
            ;
        }
        if b < a {
            assert(b * q + q <= a * q) by (nonlinear_arith)
                requires
                    b < a,
                    q >= 0,
            ;
        }
    }
}

/// Splits the frames `0..num_frames` into `workers` contiguous ranges of equal
/// size, the remainder going to the last one.
pub fn partition(num_frames: usize, workers: usize) -> (r: Vec<FrameRange>)
    requires
        workers >= 1,
    ensures
        r.len() == workers,
        forall|th: int|
            0 <= th < workers ==> (#[trigger] r[th]).low == range_low(
                num_frames as int,
                workers as int,
                th,
            ) && r[th].upp == range_upp(num_frames as int, workers as int, th),
{
    let frames_per_worker: usize = num_frames / workers;
    let extra_frames_last_worker: usize = num_frames % workers;
    let mut ranges: Vec<FrameRange> = Vec::new();
    let mut th: usize = 0;
    proof {
        lemma_partition_covers(num_frames as int, workers as int);
    }
    while th < workers
        invariant
            workers >= 1,
            th <= workers,
            ranges.len() == th,
            frames_per_worker == num_frames as int / workers as int,
            extra_frames_last_worker == num_frames as int % workers as int,
            forall|k: int|
                0 <= k < workers ==> 0 <= #[trigger] range_low(
                    num_frames as int,
                    workers as int,
                    k,
                ) <= range_upp(num_frames as int, workers as int, k) <= num_frames,
            forall|k: int|
                0 <= k < th ==> (#[trigger] ranges[k]).low == range_low(
                    num_frames as int,
                    workers as int,
                    k,
                ) && ranges[k].upp == range_upp(num_frames as int, workers as int, k),
        decreases workers - th,
    {
        proof {
            assert(0 <= range_low(num_frames as int, workers as int, th as int) <= range_upp(
                num_frames as int,
                workers as int,
                th as int,
            ) <= num_frames);
        }
        let low: usize = th * frames_per_worker;
        let extra: usize = if th == workers - 1 {
            extra_frames_last_worker
        } else {
            0
        };
        let upp: usize = low + frames_per_worker + extra;
        ranges.push(FrameRange { low, upp });
        th += 1;
    }
    ranges
}

/// The number of workers that this machine offers.
///
/// Trusted: calls `num_cpus::get`, whose documentation promises a count of at
/// least one. Nothing else is claimed of it.
#[verifier::external_body]
fn worker_count() -> (w: usize)
    ensures
        w >= 1,
{
    num_cpus::get()
}

/// Splits the frames over as many workers as the machine has logical cores.
pub fn partition_for_machine(num_frames: usize) -> (r: Vec<FrameRange>)
    ensures
        r.len() >= 1,
        forall|th: int|
            0 <= th < r.len() ==> (#[trigger] r[th]).low == range_low(
                num_frames as int,
                r.len() as int,
                th,
            ) && r[th].upp == range_upp(num_frames as int, r.len() as int, th),
{
    let workers: usize = worker_count();
    partition(num_frames, workers)
}

/// What the slot of frame `i` holds once all of `arrivals` are in: the value
/// of the last arrival tagged `i`, or nothing.
pub open spec fn slot_of<T>(arrivals: Seq<(usize, T)>, i: int) -> Option<T>
    decreases arrivals.len(),
{
    if arrivals.len() == 0 {
        None
    } else if arrivals.last().0 == i {
        Some(arrivals.last().1)
    } else {
        slot_of(arrivals.drop_last(), i)
    }
}

/// The result vector of `num_frames` slots, each filled by its own tag.
pub open spec fn assembled<T>(num_frames: int, arrivals: Seq<(usize, T)>) -> Seq<Option<T>> {
    Seq::new(num_frames as nat, |i: int| slot_of(arrivals, i))
}

/// Number of slots that hold a value.
pub open spec fn count_filled<T>(slots: Seq<Option<T>>) -> int
    decreases slots.len(),
{
    if slots.len() == 0 {
        0
    } else {
        count_filled(slots.drop_last()) + if slots.last() is Some {
            1int
        } else {
            0int
        }
    }
}

/// Filling an empty slot adds one to the count, and the count never exceeds
/// the number of slots.
pub proof fn lemma_count_filled_update<T>(slots: Seq<Option<T>>, i: int, v: T)
    requires
        0 <= i < slots.len(),
        slots[i] is None,
    ensures
        count_filled(slots.update(i, Some(v))) == count_filled(slots) + 1,
        0 <= count_filled(slots) < slots.len(),
    decreases slots.len(),
{
    let after = slots.update(i, Some(v));
    if i == slots.len() - 1 {
        assert(after.drop_last() =~= slots.drop_last());
        lemma_count_filled_bounds(slots.drop_last());
    } else {
        assert(after.drop_last() =~= slots.drop_last().update(i, Some(v)));
        lemma_count_filled_update(slots.drop_last(), i, v);
    }
}

/// The count of filled slots lies between zero and the number of slots.
pub proof fn lemma_count_filled_bounds<T>(slots: Seq<Option<T>>)
    ensures
        0 <= count_filled(slots) <= slots.len(),
    decreases slots.len(),
{
    if slots.len() > 0 {
        lemma_count_filled_bounds(slots.drop_last());
    }
}

/// The frames of one signal after a parallel run: a vector per frame that
/// succeeded, a hole for each that did not.
pub struct Assembled<T> {
    pub vectors: Vec<Option<T>>,
    pub succeeded: usize,
    pub failed: usize,
}

/// Puts each arrival into the slot of its frame index, whatever the order of
/// arrival, and counts the frames that came and those that did not.
pub fn assemble<T>(num_frames: usize, arrivals: Vec<(usize, T)>) -> (r: Assembled<T>)
    requires
        forall|k: int| 0 <= k < arrivals.len() ==> (#[trigger] arrivals[k]).0 < num_frames,
    ensures
        r.vectors@ == assembled(num_frames as int, arrivals@),
        r.succeeded == count_filled(r.vectors@),
        r.succeeded + r.failed == num_frames,
{
    let ghost all = arrivals@;
    let mut arrivals = arrivals;
    let mut vectors: Vec<Option<T>> = Vec::new();
    let mut i: usize = 0;
    while i < num_frames
        invariant
            i <= num_frames,
            vectors.len() == i,
            forall|k: int| 0 <= k < i ==> (#[trigger] vectors[k]) is None,
            count_filled(vectors@) == 0,
        decreases num_frames - i,
    {
        let ghost before = vectors@;
        vectors.push(None);
        proof {
            assert(vectors@.drop_last() =~= before);
        }
        i += 1;
    }
    let mut succeeded: usize = 0;
    while arrivals.len() > 0
        invariant
            vectors.len() == num_frames,
            arrivals@ == all.subrange(0, arrivals.len() as int),
            arrivals.len() <= all.len(),
            forall|k: int| 0 <= k < all.len() ==> (#[trigger] all[k]).0 < num_frames,
            succeeded == count_filled(vectors@),
            succeeded <= num_frames,
            forall|k: int|
                0 <= k < num_frames ==> slot_of(all, k) == if (#[trigger] vectors[k]) is Some {
                    vectors[k]
                } else {
                    slot_of(arrivals@, k)
                },
        decreases arrivals.len(),
    {
        let ghost rest = arrivals@;
        let arrival = arrivals.pop();
        proof {
            assert(arrivals@ =~= rest.drop_last());
            assert(arrivals@ =~= all.subrange(0, arrivals.len() as int));
            assert(rest.last() == all[rest.len() - 1]);
        }
        match arrival {
            Some((tag, value)) => {
                if vectors[tag].is_none() {
                    proof {
                        lemma_count_filled_update(vectors@, tag as int, value);
                    }
                    vectors.set(tag, Some(value));
                    succeeded += 1;
                }
            },
            None => {},
        }
    }
    proof {
        assert(vectors@ =~= assembled(num_frames as int, all));
    }
    Assembled { vectors, succeeded, failed: num_frames - succeeded }
}

/// A filled slot holds the value of an arrival with that tag; an empty slot
/// means that no arrival carries the tag.
pub proof fn lemma_slot_of<T>(arrivals: Seq<(usize, T)>, i: int)
    ensures
        slot_of(arrivals, i) is Some ==> exists|k: int|
            0 <= k < arrivals.len() && (#[trigger] arrivals[k]).0 == i && slot_of(arrivals, i)
                == Some(arrivals[k].1),
        slot_of(arrivals, i) is None ==> forall|k: int|
            0 <= k < arrivals.len() ==> (#[trigger] arrivals[k]).0 != i,
    decreases arrivals.len(),
{
    if arrivals.len() > 0 {
        let rest = arrivals.drop_last();
        lemma_slot_of(rest, i);
        if arrivals.last().0 == i {
            assert(arrivals[arrivals.len() - 1].0 == i);
        } else {
            if slot_of(rest, i) is Some {
                let k = choose|k: int|
                    0 <= k < rest.len() && (#[trigger] rest[k]).0 == i && slot_of(rest, i) == Some(
                        rest[k].1,
                    );
                assert(arrivals[k] == rest[k]);
            } else {
                assert forall|k: int| 0 <= k < arrivals.len() implies (#[trigger] arrivals[k]).0
                    != i by {
                    if k < rest.len() {
                        assert(arrivals[k] == rest[k]);
                    }
                }
            }
        }
    }
}

/// A strictly sequential run over the frames of one signal: frames are
/// analyzed in order, and the first failure ends the run.
pub struct SequentialRun<T> {
    pub num_frames: usize,
    pub vectors: Vec<T>,
    pub aborted: bool,
}

impl<T> SequentialRun<T> {
    /// No more vectors than frames; an aborted run stopped before the end.
    pub open spec fn wf(&self) -> bool {
        &&& self.vectors.len() <= self.num_frames
        &&& self.aborted ==> self.vectors.len() < self.num_frames
    }

    /// The frame to analyze next, if the run goes on.
    pub open spec fn spec_next_frame(&self) -> Option<usize> {
        if !self.aborted && self.vectors.len() < self.num_frames {
            Some(self.vectors.len() as usize)
        } else {
            None
        }
    }

    /// The vectors kept so far are the outcomes of the first frames, in
    /// order, and an aborted run stopped at a frame that failed.
    pub open spec fn follows(&self, outcome: spec_fn(int) -> Option<T>) -> bool {
        &&& forall|i: int|
            0 <= i < self.vectors.len() ==> #[trigger] outcome(i) == Some(self.vectors[i])
        &&& self.aborted ==> outcome(self.vectors.len() as int) is None
    }

    /// A run over `num_frames` frames, none analyzed yet.
    pub fn new(num_frames: usize) -> (r: Self)
        ensures
            r.wf(),
            r.num_frames == num_frames,
            r.vectors@.len() == 0,
            !r.aborted,
    {
        SequentialRun { num_frames, vectors: Vec::new(), aborted: false }
    }

    /// The frame to analyze next; `None` once every frame is done or one
    /// frame has failed.
    pub fn next_frame(&self) -> (r: Option<usize>)
        ensures
            r == self.spec_next_frame(),
    {
        if !self.aborted && self.vectors.len() < self.num_frames {
            Some(self.vectors.len())
        } else {
            None
        }
    }

    /// Number of frames analyzed with success so far.
    pub fn frames_processed(&self) -> (r: usize)
        ensures
            r == self.vectors.len(),
    {
        self.vectors.len()
    }

    /// Takes the outcome of the frame that `next_frame` named: a vector is
    /// kept, a failure ends the run.
    pub fn record(&mut self, outcome: Option<T>)
        requires
            old(self).wf(),
            old(self).spec_next_frame() is Some,
        ensures
            final(self).wf(),
            final(self).num_frames == old(self).num_frames,
            final(self).aborted == (outcome is None),
            final(self).vectors@ == match outcome {
                Some(v) => old(self).vectors@.push(v),
                None => old(self).vectors@,
            },
    {
        match outcome {
            Some(v) => {
                self.vectors.push(v);
            },
            None => {
                self.aborted = true;
            },
        }
    }
}

/// A run that follows the analyzer keeps following it after it records the
/// analyzer's outcome for the next frame.
pub proof fn lemma_record_follows<T>(
    before: SequentialRun<T>,
    after: SequentialRun<T>,
    outcome: spec_fn(int) -> Option<T>,
)
    requires
        before.follows(outcome),
        before.spec_next_frame() is Some,
        after.aborted == (outcome(before.vectors.len() as int) is None),
        after.vectors@ == match outcome(before.vectors.len() as int) {
            Some(v) => before.vectors@.push(v),
            None => before.vectors@,
        },
    ensures
        after.follows(outcome),
{
    assert forall|i: int| 0 <= i < after.vectors.len() implies #[trigger] outcome(i) == Some(
        after.vectors[i],
    ) by {
        if i < before.vectors.len() {
            assert(outcome(i) == Some(before.vectors[i]));
        }
    }
}

/// The parallel run and the sequential run agree. Where the workers hand back
/// the analyzer's outcome of each frame that succeeded, tagged by its frame
/// and in any order of arrival, every slot of the assembled result holds the
/// analyzer's outcome of its frame; so each vector that a sequential run kept
/// stands at the same place, with the same value, in the parallel result.
pub proof fn lemma_parallel_matches_sequential<T>(
    num_frames: int,
    outcome: spec_fn(int) -> Option<T>,
    arrivals: Seq<(usize, T)>,
    run: SequentialRun<T>,
)
    requires
        run.wf(),
        run.num_frames == num_frames,
        run.follows(outcome),
        forall|k: int|
            0 <= k < arrivals.len() ==> (#[trigger] arrivals[k]).0 < num_frames && outcome(
                arrivals[k].0 as int,
            ) == Some(arrivals[k].1),
        forall|i: int|
            0 <= i < num_frames && (#[trigger] outcome(i)) is Some ==> exists|k: int|
                0 <= k < arrivals.len() && (#[trigger] arrivals[k]).0 == i,
    ensures
        assembled(num_frames, arrivals).len() == num_frames,
        forall|i: int|
            0 <= i < num_frames ==> #[trigger] assembled(num_frames, arrivals)[i] == outcome(i),
        forall|i: int|
            0 <= i < run.vectors.len() ==> #[trigger] assembled(num_frames, arrivals)[i] == Some(
                run.vectors[i],
            ),
{
    assert forall|i: int| 0 <= i < num_frames implies #[trigger] assembled(
        num_frames,
        arrivals,
    )[i] == outcome(i) by {
        lemma_slot_of(arrivals, i);
        if slot_of(arrivals, i) is Some {
            let k = choose|k: int|
                0 <= k < arrivals.len() && (#[trigger] arrivals[k]).0 == i && slot_of(arrivals, i)
                    == Some(arrivals[k].1);
            assert(outcome(arrivals[k].0 as int) == Some(arrivals[k].1));
        } else {
            if outcome(i) is Some {
                let k = choose|k: int| 0 <= k < arrivals.len() && (#[trigger] arrivals[k]).0 == i;
                assert(arrivals[k].0 != i);
            }
        }
    }
    assert forall|i: int| 0 <= i < run.vectors.len() implies #[trigger] assembled(
        num_frames,
        arrivals,
    )[i] == Some(run.vectors[i]) by {
        assert(outcome(i) == Some(run.vectors[i]));
    }
}

/// The order of arrival does not matter: two sets of arrivals that hold the
/// same tagged values, each tag at most once, assemble to the same result.
pub proof fn lemma_assembly_ignores_order<T>(
    num_frames: int,
    first: Seq<(usize, T)>,
    second: Seq<(usize, T)>,
)
    requires
        0 <= num_frames,
        forall|j: int, k: int|
            0 <= j < k < first.len() ==> (#[trigger] first[j]).0 != (#[trigger] first[k]).0,
        forall|j: int, k: int|
            0 <= j < k < second.len() ==> (#[trigger] second[j]).0 != (#[trigger] second[k]).0,
        forall|k: int| 0 <= k < first.len() ==> second.contains(#[trigger] first[k]),
        forall|k: int| 0 <= k < second.len() ==> first.contains(#[trigger] second[k]),
    ensures
        assembled(num_frames, first) == assembled(num_frames, second),
{
    assert forall|i: int| 0 <= i < num_frames implies slot_of(first, i) == slot_of(second, i) by {
        lemma_slot_of(first, i);
        lemma_slot_of(second, i);
        if slot_of(first, i) is Some {
            let k = choose|k: int|
                0 <= k < first.len() && (#[trigger] first[k]).0 == i && slot_of(first, i) == Some(
                    first[k].1,
                );
            assert(second.contains(first[k]));
            let m = choose|m: int| 0 <= m < second.len() && second[m] == first[k];
            assert(second[m].0 == i);
            let n = choose|n: int|
                0 <= n < second.len() && (#[trigger] second[n]).0 == i && slot_of(second, i)
                    == Some(second[n].1);
            assert(n == m);
        } else if slot_of(second, i) is Some {
            let n = choose|n: int|
                0 <= n < second.len() && (#[trigger] second[n]).0 == i && slot_of(second, i)
                    == Some(second[n].1);
            assert(first.contains(second[n]));
            let m = choose|m: int| 0 <= m < first.len() && first[m] == second[n];
            assert(first[m].0 != i);
        }
    }
    assert(assembled(num_frames, first) =~= assembled(num_frames, second));
}

} // verus!
