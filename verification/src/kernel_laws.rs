//! What a block inherits from the numeric kernel that it was processed with.
//!
//! The kernel is the caller's; each law below takes what it needs of the
//! kernel as a hypothesis and states what then holds of a whole block.

use vstd::prelude::*;
use crate::block_layout::{lemma_offset_covers, sample_offset};
use crate::plugin_ring_modulator::{
    advanced_at,
    blended_at,
    is_rendered,
    is_trajectory,
};

verus! {

/// Whether blending at the mix ratio `mix` computes `gain`: the one outcome
/// of blending `sample` with the sine component `sin` is `gain(sample, sin)`.
pub open spec fn blend_computes<T, M>(blend: M, mix: T, gain: spec_fn(T, T) -> T) -> bool where
    M: Fn(T, T, T) -> T,
 {
    forall|sample: T, sin: T, out: T| #[trigger]
        blend.ensures((sample, mix, sin), out) ==> out == gain(sample, sin)
}

/// Whether the angular step `w` leaves every phase where it is.
pub open spec fn step_is_still<T, A>(advance: A, w: T) -> bool where A: Fn(T, T, T) -> (T, T) {
    forall|sin: T, cos: T, next: (T, T)| #[trigger]
        advance.ensures((sin, cos, w), next) ==> next == (sin, cos)
}

/// Every output sample of a block is the blend of the input sample at the
/// same position with the sine component of its frame, whatever its channel:
/// all channels of a frame meet the same oscillator value.
pub proof fn lemma_rendered_pointwise<T, M>(
    blend: M,
    mix: T,
    gain: spec_fn(T, T) -> T,
    traj: Seq<(T, T)>,
    input: Seq<T>,
    output: Seq<T>,
    frames: int,
    channels: int,
    frame: int,
    channel: int,
) where M: Fn(T, T, T) -> T
    requires
        blend_computes(blend, mix, gain),
        is_rendered(blend, mix, traj, input, output, frames, channels),
        0 <= frame < frames,
        0 <= channel < channels,
    ensures
        output[sample_offset(frame, channel, channels)] == gain(
            input[sample_offset(frame, channel, channels)],
            traj[frame].0,
        ),
{
    assert(blended_at(
        blend,
        mix,
        traj[frame].0,
        input,
        output,
        sample_offset(frame, channel, channels),
    ));
}

/// Where blending at the mix ratio `mix` hands the input sample on
/// unchanged, a block's output is its input, position by position and
/// whatever the oscillator does.
pub proof fn lemma_dry_block<T, M>(
    blend: M,
    mix: T,
    traj: Seq<(T, T)>,
    input: Seq<T>,
    output: Seq<T>,
    frames: int,
    channels: int,
) where M: Fn(T, T, T) -> T
    requires
        blend_computes(blend, mix, |sample: T, sin: T| sample),
        is_rendered(blend, mix, traj, input, output, frames, channels),
        0 <= frames,
        0 <= channels,
    ensures
        forall|at: int| 0 <= at < frames * channels ==> output[at] == input[at],
{
    assert forall|at: int| 0 <= at < frames * channels implies output[at] == input[at] by {
        lemma_offset_covers(at, frames, channels);
        lemma_rendered_pointwise(
            blend,
            mix,
            |sample: T, sin: T| sample,
            traj,
            input,
            output,
            frames,
            channels,
            at / channels,
            at % channels,
        );
    }
}

/// Where the angular step leaves every phase where it is, the oscillator
/// stays at its starting phase for the whole run.
pub proof fn lemma_still_trajectory<T, A>(advance: A, w: T, traj: Seq<(T, T)>, k: int) where
    A: Fn(T, T, T) -> (T, T),

    requires
        step_is_still(advance, w),
        is_trajectory(advance, w, traj),
        0 <= k < traj.len(),
    ensures
        traj[k] == traj[0],
    decreases k,
{
    if k > 0 {
        lemma_still_trajectory(advance, w, traj, k - 1);
        assert(advanced_at(advance, w, traj, k - 1));
    }
}

/// Where the angular step leaves every phase where it is, every sample of
/// the block is blended with the sine component that the oscillator started
/// with.
pub proof fn lemma_still_block<T, A, M>(
    advance: A,
    blend: M,
    w: T,
    mix: T,
    gain: spec_fn(T, T) -> T,
    traj: Seq<(T, T)>,
    input: Seq<T>,
    output: Seq<T>,
    frames: int,
    channels: int,
) where A: Fn(T, T, T) -> (T, T), M: Fn(T, T, T) -> T
    requires
        step_is_still(advance, w),
        blend_computes(blend, mix, gain),
        is_trajectory(advance, w, traj),
        traj.len() == frames + 1,
        is_rendered(blend, mix, traj, input, output, frames, channels),
        0 <= frames,
        0 <= channels,
    ensures
        forall|at: int|
            0 <= at < frames * channels ==> output[at] == gain(input[at], traj[0].0),
{
    assert forall|at: int| 0 <= at < frames * channels implies output[at] == gain(
        input[at],
        traj[0].0,
    ) by {
        lemma_offset_covers(at, frames, channels);
        lemma_still_trajectory(advance, w, traj, at / channels);
        lemma_rendered_pointwise(
            blend,
            mix,
            gain,
            traj,
            input,
            output,
            frames,
            channels,
            at / channels,
            at % channels,
        );
    }
}

} // verus!
