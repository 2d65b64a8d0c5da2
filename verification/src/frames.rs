//! Framing of a signal: how many frames a signal holds, where each one lies.

use vstd::prelude::*;
use crate::error::EcozError;

verus! {

/// Number of samples that `length_ms` milliseconds hold at `sample_rate`.
pub open spec fn samples_in(length_ms: int, sample_rate: int) -> int {
    length_ms * sample_rate / 1000
}

/// Number of complete frames of `win_size` samples, `offset` samples apart,
/// in a signal of `num_samples` samples.
pub open spec fn frame_count(num_samples: int, win_size: int, offset: int) -> int
    recommends
        offset > 0,
        win_size <= num_samples,
{
    (num_samples - (win_size - offset)) / offset
}

/// The framing of one signal.
#[derive(Clone, Copy, Debug, PartialEq, Eq, Structural)]
pub struct FrameLayout {
    pub num_samples: usize,
    pub win_size: usize,
    pub offset: usize,
    pub num_frames: usize,
}

impl FrameLayout {
    /// Every frame lies inside the signal, and no further frame would.
    pub open spec fn wf(&self) -> bool {
        &&& 0 < self.offset
        &&& self.win_size <= self.num_samples
        &&& self.num_frames >= 1
        &&& self.num_frames == frame_count(
            self.num_samples as int,
            self.win_size as int,
            self.offset as int,
        )
        &&& (self.num_frames - 1) * self.offset + self.win_size <= self.num_samples
        &&& self.num_frames * self.offset + self.win_size > self.num_samples
    }

    /// First sample of frame `t`.
    pub open spec fn spec_frame_start(&self, t: int) -> int {
        t * self.offset
    }

    /// The samples `[from, to)` of frame `t`.
    pub fn frame_bounds(&self, t: usize) -> (r: (usize, usize))
        requires
            self.wf(),
            t < self.num_frames,
        ensures
            r.0 == self.spec_frame_start(t as int),
            r.1 == r.0 + self.win_size,
            r.1 <= self.num_samples,
    {
        proof {
            lemma_frame_inside(t as int, self.num_frames as int, self.offset as int);
        }
        let from: usize = t * self.offset;
        (from, from + self.win_size)
    }
}

/// A frame before the last one starts no later than the last one.
pub proof fn lemma_frame_inside(t: int, num_frames: int, offset: int)
    requires
        0 <= t < num_frames,
        offset > 0,
    ensures
        0 <= t * offset <= (num_frames - 1) * offset,
{
    assert(0 <= t * offset <= (num_frames - 1) * offset) by (nonlinear_arith)
        requires
            0 <= t <= num_frames - 1,
            offset > 0,
    ;
}

/// The frame count is `(num_samples - win_size) / offset + 1`; the last frame
/// ends inside the signal and one more frame would not.
pub proof fn lemma_frame_count(num_samples: int, win_size: int, offset: int)
    requires
        offset > 0,
        0 <= win_size <= num_samples,
    ensures
        frame_count(num_samples, win_size, offset) == (num_samples - win_size) / offset + 1,
        frame_count(num_samples, win_size, offset) >= 1,
        frame_count(num_samples, win_size, offset) <= num_samples - win_size + 1,
        (frame_count(num_samples, win_size, offset) - 1) * offset + win_size <= num_samples,
        frame_count(num_samples, win_size, offset) * offset + win_size > num_samples,
{
    let d = num_samples - win_size;
    let q = d / offset;
    assert((d + offset) / offset == q + 1 && q >= 0 && q * offset <= d && (q + 1) * offset > d)
        by (nonlinear_arith)
        requires
            d >= 0,
            offset > 0,
            q == d / offset,
    ;
    assert(num_samples - (win_size - offset) == d + offset);
    assert(q <= d) by (nonlinear_arith)
        requires
            d >= 0,
            offset > 0,
            q == d / offset,
    ;
}

/// Frames the signal: the window and the hop in samples, and the number of
/// complete frames. A window longer than the signal is refused.
pub fn frame_layout(
    num_samples: usize,
    sample_rate: usize,
    window_length_ms: usize,
    offset_length_ms: usize,
) -> (r: Result<FrameLayout, EcozError>)
    requires
        window_length_ms * sample_rate <= usize::MAX,
        offset_length_ms * sample_rate <= usize::MAX,
        samples_in(offset_length_ms as int, sample_rate as int) > 0,
        num_samples < usize::MAX,
    ensures
        samples_in(window_length_ms as int, sample_rate as int) > num_samples
            <==> r == Err::<FrameLayout, EcozError>(EcozError::SignalTooShort),
        r is Ok ==> {
            let l = r->Ok_0;
            &&& l.wf()
            &&& l.num_samples == num_samples
            &&& l.win_size == samples_in(window_length_ms as int, sample_rate as int)
            &&& l.offset == samples_in(offset_length_ms as int, sample_rate as int)
            &&& l.num_frames == frame_count(num_samples as int, l.win_size as int, l.offset as int)
        },
        r is Err ==> r == Err::<FrameLayout, EcozError>(EcozError::SignalTooShort),
{
    let win_size: usize = window_length_ms * sample_rate / 1000;
    let offset: usize = offset_length_ms * sample_rate / 1000;
    if win_size > num_samples {
        return Err(EcozError::SignalTooShort);
    }
    proof {
        lemma_frame_count(num_samples as int, win_size as int, offset as int);
    }
    let num_frames: usize = (num_samples - win_size) / offset + 1;
    Ok(FrameLayout { num_samples, win_size, offset, num_frames })
}

/// Status of the analysis of a frame that went through.
pub const FRAME_DONE: i32 = 0;

/// Status of the analysis of a frame without energy.
pub const FRAME_DEGENERATE: i32 = 1;

/// What the status of the analysis of one frame means: a frame that went
/// through, a frame without energy, or, for any other status, a prediction
/// error that became non-positive.
pub fn frame_outcome(status: i32) -> (r: Result<(), EcozError>)
    ensures
        r == if status == FRAME_DONE {
            Ok::<(), EcozError>(())
        } else if status == FRAME_DEGENERATE {
            Err::<(), EcozError>(EcozError::DegenerateFrame)
        } else {
            Err::<(), EcozError>(EcozError::UnstableFrame)
        },
{
    if status == FRAME_DONE {
        Ok(())
    } else if status == FRAME_DEGENERATE {
        Err(EcozError::DegenerateFrame)
    } else {
        Err(EcozError::UnstableFrame)
    }
}

} // verus!
