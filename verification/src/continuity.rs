//! Phase continuity: what holds of the oscillator and of the output when a
//! stream is processed block after block.

use vstd::prelude::*;
use crate::block_layout::{lemma_offset_covers, lemma_offset_in_block, sample_offset};
use crate::plugin_ring_modulator::{
    advanced_at,
    blended_at,
    is_block_run,
    is_trajectory,
};

verus! {

/// Whether advancing a phase by an angular step has one outcome only.
pub open spec fn advance_deterministic<T, A>(advance: A) -> bool where A: Fn(T, T, T) -> (T, T) {
    forall|sin: T, cos: T, w: T, p: (T, T), q: (T, T)|
        advance.ensures((sin, cos, w), p) && advance.ensures((sin, cos, w), q) ==> p == q
}

/// Whether computing the angular step has one outcome only.
pub open spec fn step_deterministic<T, W>(step: W) -> bool where W: Fn(T, u32) -> T {
    forall|frequency: T, samplerate: u32, v: T, w: T|
        step.ensures((frequency, samplerate), v) && step.ensures((frequency, samplerate), w) ==> v
            == w
}

/// Whether blending a sample has one outcome only.
pub open spec fn blend_deterministic<T, M>(blend: M) -> bool where M: Fn(T, T, T) -> T {
    forall|sample: T, mix: T, sin: T, x: T, y: T|
        blend.ensures((sample, mix, sin), x) && blend.ensures((sample, mix, sin), y) ==> x == y
}

/// The run of the oscillator over two consecutive blocks: the run over the
/// first, then the run over the second without its starting phase, which is
/// the last phase of the first.
pub open spec fn joined<T>(first: Seq<(T, T)>, second: Seq<(T, T)>) -> Seq<(T, T)> {
    first + second.drop_first()
}

/// Two runs of the oscillator, the second of which starts at the phase where
/// the first ends, make one run when joined.
pub proof fn lemma_trajectory_joins<T, A>(
    advance: A,
    w: T,
    first: Seq<(T, T)>,
    second: Seq<(T, T)>,
) where A: Fn(T, T, T) -> (T, T)
    requires
        first.len() > 0,
        second.len() > 0,
        first.last() == second[0],
        is_trajectory(advance, w, first),
        is_trajectory(advance, w, second),
    ensures
        is_trajectory(advance, w, joined(first, second)),
        joined(first, second).len() == first.len() + second.len() - 1,
        joined(first, second)[0] == first[0],
        joined(first, second).last() == second.last(),
{
    let whole = joined(first, second);
    let a = first.len() - 1;
    assert forall|k: int| 0 <= k < whole.len() - 1 implies #[trigger] advanced_at(
        advance,
        w,
        whole,
        k,
    ) by {
        if k < a {
            assert(advanced_at(advance, w, first, k));
        } else {
            assert(advanced_at(advance, w, second, k - a));
            assert(whole[k + 1] == second[k - a + 1]);
            if k > a {
                assert(whole[k] == second[k - a]);
            }
        }
    }
}

/// Where advancing has one outcome only, two runs of the oscillator that
/// start at the same phase pass through the same phases, step by step.
pub proof fn lemma_trajectory_unique<T, A>(
    advance: A,
    w: T,
    left: Seq<(T, T)>,
    right: Seq<(T, T)>,
    k: int,
) where A: Fn(T, T, T) -> (T, T)
    requires
        advance_deterministic::<T, A>(advance),
        is_trajectory(advance, w, left),
        is_trajectory(advance, w, right),
        0 <= k < left.len(),
        k < right.len(),
        left[0] == right[0],
    ensures
        left[k] == right[k],
    decreases k,
{
    if k > 0 {
        lemma_trajectory_unique(advance, w, left, right, k - 1);
        assert(advanced_at(advance, w, left, k - 1));
        assert(advanced_at(advance, w, right, k - 1));
    }
}

/// Phase continuity. With the angular step unchanged, processing `a` frames
/// and then `b` frames takes the oscillator through the same phases as
/// processing `a + b` frames at once: the run over the combined block is the
/// two shorter runs joined, and it ends at the phase where the second run ends.
pub proof fn lemma_phase_continuity<T, A>(
    advance: A,
    w: T,
    first: Seq<(T, T)>,
    second: Seq<(T, T)>,
    whole: Seq<(T, T)>,
) where A: Fn(T, T, T) -> (T, T)
    requires
        advance_deterministic::<T, A>(advance),
        first.len() > 0,
        second.len() > 0,
        whole.len() == first.len() + second.len() - 1,
        is_trajectory(advance, w, first),
        is_trajectory(advance, w, second),
        is_trajectory(advance, w, whole),
        whole[0] == first[0],
        second[0] == first.last(),
    ensures
        whole == joined(first, second),
        whole.last() == second.last(),
{
    lemma_trajectory_joins(advance, w, first, second);
    let both = joined(first, second);
    assert forall|k: int| 0 <= k < whole.len() implies whole[k] == both[k] by {
        lemma_trajectory_unique(advance, w, whole, both, k);
    }
    assert(whole =~= both);
}

/// Two consecutive blocks make one block of the combined length: where the
/// first block turns `input1` into `output1` along `first`, and the second,
/// starting at the phase where the first ends and with the same angular step
/// and mix, turns `input2` into `output2` along `second`, the concatenated
/// input gives the concatenated output along the joined run.
pub proof fn lemma_blocks_join<T, W, A, M>(
    step: W,
    advance: A,
    blend: M,
    frequency: T,
    mix: T,
    samplerate: u32,
    w: T,
    channels: int,
    frames1: int,
    first: Seq<(T, T)>,
    input1: Seq<T>,
    output1: Seq<T>,
    frames2: int,
    second: Seq<(T, T)>,
    input2: Seq<T>,
    output2: Seq<T>,
) where W: Fn(T, u32) -> T, A: Fn(T, T, T) -> (T, T), M: Fn(T, T, T) -> T
    requires
        0 <= channels,
        0 <= frames1,
        0 <= frames2,
        input1.len() == frames1 * channels,
        output1.len() == frames1 * channels,
        frames2 * channels <= input2.len(),
        frames2 * channels <= output2.len(),
        is_block_run(
            step,
            advance,
            blend,
            frequency,
            mix,
            samplerate,
            w,
            first,
            input1,
            output1,
            frames1,
            channels,
        ),
        is_block_run(
            step,
            advance,
            blend,
            frequency,
            mix,
            samplerate,
            w,
            second,
            input2,
            output2,
            frames2,
            channels,
        ),
        second[0] == first.last(),
    ensures
        is_block_run(
            step,
            advance,
            blend,
            frequency,
            mix,
            samplerate,
            w,
            joined(first, second),
            input1 + input2,
            output1 + output2,
            frames1 + frames2,
            channels,
        ),
{
    lemma_trajectory_joins(advance, w, first, second);
    let whole = joined(first, second);
    let input = input1 + input2;
    let output = output1 + output2;
    assert forall|n: int, i: int| 0 <= n < frames1 + frames2 && 0 <= i < channels implies blended_at(
        blend,
        mix,
        whole[n].0,
        input,
        output,
        #[trigger] sample_offset(n, i, channels),
    ) by {
        if n < frames1 {
            lemma_offset_in_block(n, i, frames1, channels);
            assert(blended_at(blend, mix, first[n].0, input1, output1, sample_offset(n, i, channels)));
            assert(whole[n] == first[n]);
        } else {
            let m = n - frames1;
            lemma_offset_in_block(m, i, frames2, channels);
            assert(sample_offset(n, i, channels) == frames1 * channels + sample_offset(
                m,
                i,
                channels,
            )) by (nonlinear_arith)
                requires
                    m == n - frames1,
            ;
            assert(blended_at(blend, mix, second[m].0, input2, output2, sample_offset(m, i, channels)));
            if m > 0 {
                assert(whole[n] == second.drop_first()[m - 1]);
            }
            assert(whole[n] == second[m]);
            let at = sample_offset(n, i, channels);
            assert(input[at] == input2[at - input1.len()]);
            assert(output[at] == output2[at - output1.len()]);
        }
    }
}

/// Processing a stream in two consecutive blocks gives what processing it
/// as one block of the combined length gives. With a kernel whose outcomes
/// are determined by its inputs, and with frequency, mix and sample rate
/// unchanged: where the second block starts at the phase at which the first
/// ended, and the combined block starts where the first started and reads the
/// two inputs one after the other, the combined block takes the oscillator
/// through the phases of the two blocks joined, ends at the phase at which
/// the second ended, and writes the two outputs one after the other.
pub proof fn lemma_consecutive_blocks<T, W, A, M>(
    step: W,
    advance: A,
    blend: M,
    frequency: T,
    mix: T,
    samplerate: u32,
    channels: int,
    frames1: int,
    w1: T,
    first: Seq<(T, T)>,
    input1: Seq<T>,
    output1: Seq<T>,
    frames2: int,
    w2: T,
    second: Seq<(T, T)>,
    input2: Seq<T>,
    output2: Seq<T>,
    w: T,
    whole: Seq<(T, T)>,
    output: Seq<T>,
) where W: Fn(T, u32) -> T, A: Fn(T, T, T) -> (T, T), M: Fn(T, T, T) -> T
    requires
        step_deterministic::<T, W>(step),
        advance_deterministic::<T, A>(advance),
        blend_deterministic::<T, M>(blend),
        0 <= channels,
        0 <= frames1,
        0 <= frames2,
        input1.len() == frames1 * channels,
        output1.len() == frames1 * channels,
        frames2 * channels <= input2.len(),
        frames2 * channels <= output2.len(),
        is_block_run(
            step,
            advance,
            blend,
            frequency,
            mix,
            samplerate,
            w1,
            first,
            input1,
            output1,
            frames1,
            channels,
        ),
        is_block_run(
            step,
            advance,
            blend,
            frequency,
            mix,
            samplerate,
            w2,
            second,
            input2,
            output2,
            frames2,
            channels,
        ),
        is_block_run(
            step,
            advance,
            blend,
            frequency,
            mix,
            samplerate,
            w,
            whole,
            input1 + input2,
            output,
            frames1 + frames2,
            channels,
        ),
        second[0] == first.last(),
        whole[0] == first[0],
    ensures
        whole == joined(first, second),
        whole.last() == second.last(),
        forall|at: int|
            0 <= at < (frames1 + frames2) * channels ==> output[at] == (output1 + output2)[at],
{
    lemma_phase_continuity(advance, w, first, second, whole);
    lemma_blocks_join(
        step,
        advance,
        blend,
        frequency,
        mix,
        samplerate,
        w,
        channels,
        frames1,
        first,
        input1,
        output1,
        frames2,
        second,
        input2,
        output2,
    );
    let frames = frames1 + frames2;
    let input = input1 + input2;
    assert forall|at: int| 0 <= at < frames * channels implies output[at] == (output1
        + output2)[at] by {
        lemma_offset_covers(at, frames, channels);
        let n = at / channels;
        let i = at % channels;
        assert(blended_at(blend, mix, whole[n].0, input, output, sample_offset(n, i, channels)));
        assert(blended_at(
            blend,
            mix,
            whole[n].0,
            input,
            output1 + output2,
            sample_offset(n, i, channels),
        ));
    }
}

} // verus!
