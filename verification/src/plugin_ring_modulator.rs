//! The ring modulator itself: its parameter slots, its oscillator phase and
//! the schedule by which a block of interleaved samples is processed.

use vstd::prelude::*;
use crate::block_layout::{lemma_offset_in_block, lemma_offset_ordered, sample_offset};
use crate::unity_audio_dsp::UnityAudioResult;

verus! {

/// Number of controls that the effect declares to its host.
pub const PARAM_COUNT: usize = 2;

/// Slot of the oscillator frequency, in Hz.
pub const PARAM_FREQ: usize = 0;

/// Slot of the wet/dry mix ratio.
pub const PARAM_MIX: usize = 1;

/// Number of addressable slots: the declared controls and the one slot just
/// past them, which the index check has always admitted.
pub const SLOT_COUNT: usize = 3;

/// Whether a host-supplied parameter index is admitted.
///
/// The upper bound is inclusive: an index equal to the number of declared
/// controls is let through, and addresses the slot just past them. Hosts
/// have been tested against this boundary, so it is kept.
///
/// Open question: whether the bound should become exclusive. Until that is
/// decided the extra slot is a real one, so that the access is harmless.
pub open spec fn index_accepted(index: int) -> bool {
    0 <= index <= PARAM_COUNT
}

/// Why a parameter access was turned down.
#[derive(Clone, Copy, Debug, PartialEq, Eq, Structural)]
pub enum ParameterError {
    /// The index lies outside the admitted range.
    InvalidIndex,
}

impl ParameterError {
    /// The result code by which the host learns of this error.
    pub fn code(self) -> (r: UnityAudioResult)
        ensures
            r == UnityAudioResult::ErrUnsupported,
    {
        UnityAudioResult::ErrUnsupported
    }
}

/// What a write of `value` to `index` makes of the slots `slots`.
pub open spec fn slots_after_set<T>(slots: Seq<T>, index: int, value: T) -> Seq<T> {
    if index_accepted(index) {
        slots.update(index, value)
    } else {
        slots
    }
}

/// What a read of `index` yields from the slots `slots`.
pub open spec fn slot_read<T>(slots: Seq<T>, index: int) -> Result<T, ParameterError> {
    if index_accepted(index) {
        Ok(slots[index])
    } else {
        Err(ParameterError::InvalidIndex)
    }
}

/// A value written to an admitted slot is the value read back from it,
/// exactly as it was written.
pub proof fn lemma_get_after_set<T>(slots: Seq<T>, index: int, value: T)
    requires
        slots.len() == SLOT_COUNT,
        index_accepted(index),
    ensures
        slot_read(slots_after_set(slots, index, value), index) == Ok::<T, ParameterError>(value),
{
}

/// A write leaves every slot but its own as it was, and a write that is
/// turned down leaves them all.
pub proof fn lemma_set_keeps_others<T>(slots: Seq<T>, index: int, value: T, other: int)
    requires
        slots.len() == SLOT_COUNT,
        index_accepted(other),
        other != index,
    ensures
        slot_read(slots_after_set(slots, index, value), other) == slot_read(slots, other),
{
}

/// State of one effect instance: the parameter slots and the oscillator's
/// current point on the unit circle.
pub struct EffectData<T> {
    pub param: [T; 3],
    pub sin: T,
    pub cos: T,
}

impl<T: Copy> EffectData<T> {
    /// The parameter slots, in index order.
    pub open spec fn slots(&self) -> Seq<T> {
        self.param@
    }

    /// The oscillator phase as the pair (sine component, cosine component).
    pub open spec fn phase(&self) -> (T, T) {
        (self.sin, self.cos)
    }

    /// A fresh instance with the given slot contents and oscillator phase.
    pub fn new(frequency: T, mix: T, reserved: T, sin: T, cos: T) -> (data: Self)
        ensures
            data.slots() == seq![frequency, mix, reserved],
            data.phase() == (sin, cos),
    {
        let data = EffectData { param: [frequency, mix, reserved], sin, cos };
        assert(data.param@ =~= seq![frequency, mix, reserved]);
        data
    }

    /// Stores `value` in the slot `index`, as it is: no clamping to the
    /// declared range. An index that is not admitted changes nothing.
    pub fn set_float_parameter(&mut self, index: i32, value: T) -> (r: Result<(), ParameterError>)
        ensures
            r.is_ok() <==> index_accepted(index as int),
            r.is_err() ==> r == Err::<(), ParameterError>(ParameterError::InvalidIndex),
            final(self).slots() == slots_after_set(old(self).slots(), index as int, value),
            final(self).phase() == old(self).phase(),
    {
        if index < 0 || index > PARAM_COUNT as i32 {
            return Err(ParameterError::InvalidIndex);
        }
        let slot: usize = index as usize;
        self.param[slot] = value;
        Ok(())
    }

    /// Reads the slot `index`, together with the text that the host is to
    /// display for it, which is always empty.
    pub fn get_float_parameter(&self, index: i32) -> (r: Result<(T, &'static str), ParameterError>)
        ensures
            r.is_ok() <==> index_accepted(index as int),
            match r {
                Ok((value, text)) => slot_read(self.slots(), index as int) == Ok::<T, ParameterError>(value)
                    && text@.len() == 0,
                Err(e) => slot_read(self.slots(), index as int) == Err::<T, ParameterError>(e),
            },
    {
        if index < 0 || index > PARAM_COUNT as i32 {
            return Err(ParameterError::InvalidIndex);
        }
        let slot: usize = index as usize;
        proof {
            reveal_strlit("");
        }
        Ok((self.param[slot], ""))
    }
}


/// Whether the three parts of a numeric kernel accept every input.
pub open spec fn kernel_total<T, W, A, M>(step: W, advance: A, blend: M) -> bool where
    W: Fn(T, u32) -> T,
    A: Fn(T, T, T) -> (T, T),
    M: Fn(T, T, T) -> T,
 {
    &&& forall|frequency: T, samplerate: u32| step.requires((frequency, samplerate))
    &&& forall|sin: T, cos: T, w: T| advance.requires((sin, cos, w))
    &&& forall|sample: T, mix: T, sin: T| blend.requires((sample, mix, sin))
}

/// Whether `traj[k + 1]` is an outcome of advancing `traj[k]` by the angular step `w`.
pub open spec fn advanced_at<T, A>(advance: A, w: T, traj: Seq<(T, T)>, k: int) -> bool where
    A: Fn(T, T, T) -> (T, T),
 {
    advance.ensures((traj[k].0, traj[k].1, w), traj[k + 1])
}

/// Whether `traj` is a run of the oscillator: each phase after the first
/// comes from the one before it by one advance with the angular step `w`.
pub open spec fn is_trajectory<T, A>(advance: A, w: T, traj: Seq<(T, T)>) -> bool where
    A: Fn(T, T, T) -> (T, T),
 {
    forall|k: int| 0 <= k < traj.len() - 1 ==> #[trigger] advanced_at(advance, w, traj, k)
}

/// Whether the output sample at position `at` is an outcome of blending the
/// input sample at the same position with the sine component `sin`.
pub open spec fn blended_at<T, M>(
    blend: M,
    mix: T,
    sin: T,
    input: Seq<T>,
    output: Seq<T>,
    at: int,
) -> bool where M: Fn(T, T, T) -> T {
    blend.ensures((input[at], mix, sin), output[at])
}

/// Whether `output` holds the block that `input` gives along the oscillator
/// run `traj`: every channel of frame `n` is blended with the sine component
/// of `traj[n]`, the phase after `n` advances.
pub open spec fn is_rendered<T, M>(
    blend: M,
    mix: T,
    traj: Seq<(T, T)>,
    input: Seq<T>,
    output: Seq<T>,
    frames: int,
    channels: int,
) -> bool where M: Fn(T, T, T) -> T {
    forall|n: int, i: int|
        0 <= n < frames && 0 <= i < channels ==> blended_at(
            blend,
            mix,
            traj[n].0,
            input,
            output,
            #[trigger] sample_offset(n, i, channels),
        )
}

/// Whether processing one block can take the oscillator along `traj` with
/// the angular step `w` and turn `input` into `output`.
pub open spec fn is_block_run<T, W, A, M>(
    step: W,
    advance: A,
    blend: M,
    frequency: T,
    mix: T,
    samplerate: u32,
    w: T,
    traj: Seq<(T, T)>,
    input: Seq<T>,
    output: Seq<T>,
    frames: int,
    channels: int,
) -> bool where W: Fn(T, u32) -> T, A: Fn(T, T, T) -> (T, T), M: Fn(T, T, T) -> T {
    &&& step.ensures((frequency, samplerate), w)
    &&& traj.len() == frames + 1
    &&& is_trajectory(advance, w, traj)
    &&& is_rendered(blend, mix, traj, input, output, frames, channels)
}

impl<T: Copy> EffectData<T> {
    /// Answers the host's request for a named analysis buffer. The effect
    /// produces no analysis data: the call succeeds and writes nothing.
    pub fn get_float_buffer(&self, name: &[u8], buffer: &mut [T], num_samples: i32) -> (r:
        UnityAudioResult)
        ensures
            r == UnityAudioResult::Success,
            final(buffer)@ == old(buffer)@,
    {
        UnityAudioResult::Success
    }

    /// Processes one block of `length` frames of `out_channels` interleaved
    /// channels each.
    ///
    /// The angular step is taken once, from the frequency slot and the sample
    /// rate. Every sample of a frame is blended with the sine component that
    /// the oscillator has at that frame, and the oscillator advances once
    /// after each frame. Positions after the block keep their contents, and
    /// so do the parameter slots.
    ///
    /// Both buffers are indexed by `out_channels`; `in_channels` is not
    /// consulted. Open question: what to do for a host whose channel counts
    /// differ. The host is taken to pass equal counts.
    ///
    /// The kernel must accept every input, the channel count must not be
    /// negative, and both buffers must hold the whole block.
    pub fn process<W, A, M>(
        &mut self,
        samplerate: u32,
        in_buffer: &[T],
        out_buffer: &mut [T],
        length: u32,
        in_channels: i32,
        out_channels: i32,
        step: W,
        advance: A,
        blend: M,
    ) -> (r: UnityAudioResult) where
        W: Fn(T, u32) -> T,
        A: Fn(T, T, T) -> (T, T),
        M: Fn(T, T, T) -> T,

        requires
            out_channels >= 0,
            length * out_channels <= in_buffer@.len(),
            length * out_channels <= old(out_buffer)@.len(),
            kernel_total(step, advance, blend),
        ensures
            r == UnityAudioResult::Success,
            final(self).slots() == old(self).slots(),
            final(out_buffer)@.len() == old(out_buffer)@.len(),
            forall|at: int|
                length * out_channels <= at < old(out_buffer)@.len() ==> final(out_buffer)@[at]
                    == old(out_buffer)@[at],
            exists|w: T, traj: Seq<(T, T)>|
                is_block_run(
                    step,
                    advance,
                    blend,
                    old(self).slots()[PARAM_FREQ as int],
                    old(self).slots()[PARAM_MIX as int],
                    samplerate,
                    w,
                    traj,
                    in_buffer@,
                    final(out_buffer)@,
                    length as int,
                    out_channels as int,
                ) && traj[0] == old(self).phase() && traj[length as int] == final(self).phase(),
    {
        let frames: usize = length as usize;
        let channels: usize = out_channels as usize;
        let w = step(self.param[PARAM_FREQ], samplerate);
        let mix = self.param[PARAM_MIX];
        let available: usize = in_buffer.len();
        let ghost before = out_buffer@;
        let ghost mut traj: Seq<(T, T)> = seq![(self.sin, self.cos)];
        let mut n: usize = 0;
        while n < frames
            invariant
                n <= frames,
                frames * channels <= available,
                available == in_buffer@.len(),
                frames * channels <= before.len(),
                out_buffer@.len() == before.len(),
                kernel_total(step, advance, blend),
                self.param == old(self).param,
                mix == self.param@[PARAM_MIX as int],
                traj.len() == n + 1,
                traj[0] == old(self).phase(),
                traj[n as int] == self.phase(),
                is_trajectory(advance, w, traj),
                is_rendered(blend, mix, traj, in_buffer@, out_buffer@, n as int, channels as int),
                forall|at: int| n * channels <= at < before.len() ==> out_buffer@[at] == before[at],
            decreases frames - n,
        {
            let mut i: usize = 0;
            while i < channels
                invariant
                    n < frames,
                    i <= channels,
                    frames * channels <= available,
                available == in_buffer@.len(),
                    frames * channels <= before.len(),
                    out_buffer@.len() == before.len(),
                    kernel_total(step, advance, blend),
                    traj.len() == n + 1,
                    traj[n as int] == self.phase(),
                    is_rendered(
                        blend,
                        mix,
                        traj,
                        in_buffer@,
                        out_buffer@,
                        n as int,
                        channels as int,
                    ),
                    forall|j: int|
                        0 <= j < i ==> blended_at(
                            blend,
                            mix,
                            self.sin,
                            in_buffer@,
                            out_buffer@,
                            #[trigger] sample_offset(n as int, j, channels as int),
                        ),
                    forall|at: int|
                        n * channels + i <= at < before.len() ==> out_buffer@[at] == before[at],
                decreases channels - i,
            {
                proof {
                    lemma_offset_in_block(n as int, i as int, frames as int, channels as int);
                }
                let offset: usize = n * channels + i;
                let in_value = in_buffer[offset];
                let out_value = blend(in_value, mix, self.sin);
                let ghost earlier = out_buffer@;
                out_buffer[offset] = out_value;
                proof {
                    assert forall|m: int, j: int| 0 <= m < n && 0 <= j < channels implies blended_at(
                        blend,
                        mix,
                        traj[m].0,
                        in_buffer@,
                        out_buffer@,
                        #[trigger] sample_offset(m, j, channels as int),
                    ) by {
                        lemma_offset_ordered(m, j, n as int, i as int, channels as int);
                        assert(blended_at(
                            blend,
                            mix,
                            traj[m].0,
                            in_buffer@,
                            earlier,
                            sample_offset(m, j, channels as int),
                        ));
                    }
                    assert forall|j: int| 0 <= j < i + 1 implies blended_at(
                        blend,
                        mix,
                        self.sin,
                        in_buffer@,
                        out_buffer@,
                        #[trigger] sample_offset(n as int, j, channels as int),
                    ) by {
                        if j < i {
                            assert(blended_at(
                                blend,
                                mix,
                                self.sin,
                                in_buffer@,
                                earlier,
                                sample_offset(n as int, j, channels as int),
                            ));
                        }
                    }
                }
                i += 1;
            }
            let (sin, cos) = advance(self.sin, self.cos, w);
            let ghost shorter = traj;
            proof {
                traj = traj.push((sin, cos));
                assert forall|k: int| 0 <= k < traj.len() - 1 implies #[trigger] advanced_at(
                    advance,
                    w,
                    traj,
                    k,
                ) by {
                    if k < n {
                        assert(advanced_at(advance, w, shorter, k));
                    }
                }
                assert forall|m: int, j: int| 0 <= m < n + 1 && 0 <= j < channels implies blended_at(
                    blend,
                    mix,
                    traj[m].0,
                    in_buffer@,
                    out_buffer@,
                    #[trigger] sample_offset(m, j, channels as int),
                ) by {
                    if m < n {
                        assert(traj[m] == shorter[m]);
                    }
                }
                assert((n + 1) * channels == n * channels + channels) by (nonlinear_arith);
            }
            self.sin = sin;
            self.cos = cos;
            n += 1;
        }
        proof {
            assert(is_block_run(
                step,
                advance,
                blend,
                old(self).slots()[PARAM_FREQ as int],
                old(self).slots()[PARAM_MIX as int],
                samplerate,
                w,
                traj,
                in_buffer@,
                out_buffer@,
                length as int,
                out_channels as int,
            ));
        }
        UnityAudioResult::Success
    }
}

} // verus!
