//! Layout of a block of interleaved samples: which buffer position belongs
//! to which frame and channel, and that the positions of a block are the
//! first `frames * channels`, each met exactly once.

use vstd::prelude::*;

verus! {

/// Position of the sample of `frame` and `channel` in an interleaved buffer
/// that holds `channels` samples per frame.
pub open spec fn sample_offset(frame: int, channel: int, channels: int) -> int {
    frame * channels + channel
}

/// Every sample of a block lies inside the first `frames * channels`
/// positions of the buffer.
pub proof fn lemma_offset_in_block(frame: int, channel: int, frames: int, channels: int)
    requires
        0 <= frame < frames,
        0 <= channel < channels,
    ensures
        0 <= sample_offset(frame, channel, channels) < frames * channels,
{
    assert(frame * channels >= 0) by (nonlinear_arith)
        requires
            frame >= 0,
            channels >= 0,
    ;
    assert((frame + 1) * channels <= frames * channels) by (nonlinear_arith)
        requires
            frame + 1 <= frames,
            channels >= 0,
    ;
    assert((frame + 1) * channels == frame * channels + channels) by (nonlinear_arith);
}

/// Samples of an earlier frame lie before every sample of a later frame.
pub proof fn lemma_offset_ordered(
    frame1: int,
    channel1: int,
    frame2: int,
    channel2: int,
    channels: int,
)
    requires
        0 <= frame1 < frame2,
        0 <= channel1 < channels,
        0 <= channel2,
    ensures
        sample_offset(frame1, channel1, channels) < sample_offset(frame2, channel2, channels),
{
    lemma_offset_in_block(frame1, channel1, frame2, channels);
}

/// No two samples of a block share a position.
pub proof fn lemma_offset_injective(
    frame1: int,
    channel1: int,
    frame2: int,
    channel2: int,
    channels: int,
)
    requires
        0 <= frame1,
        0 <= frame2,
        0 <= channel1 < channels,
        0 <= channel2 < channels,
        sample_offset(frame1, channel1, channels) == sample_offset(frame2, channel2, channels),
    ensures
        frame1 == frame2,
        channel1 == channel2,
{
    if frame1 < frame2 {
        lemma_offset_ordered(frame1, channel1, frame2, channel2, channels);
    }
    if frame2 < frame1 {
        lemma_offset_ordered(frame2, channel2, frame1, channel1, channels);
    }
}

/// Every position among the first `frames * channels` belongs to exactly one
/// frame and channel of the block: the quotient and the remainder of the
/// position by the channel count.
pub proof fn lemma_offset_covers(at: int, frames: int, channels: int)
    requires
        0 <= frames,
        0 <= channels,
        0 <= at < frames * channels,
    ensures
        channels > 0,
        0 <= at / channels < frames,
        0 <= at % channels < channels,
        sample_offset(at / channels, at % channels, channels) == at,
{
    assert(channels > 0) by (nonlinear_arith)
        requires
            0 <= channels,
            0 <= frames,
            0 < frames * channels,
    ;
    vstd::arithmetic::div_mod::lemma_fundamental_div_mod(at, channels);
    vstd::arithmetic::div_mod::lemma_mod_bound(at, channels);
    vstd::arithmetic::div_mod::lemma_div_pos_is_pos(at, channels);
    assert(channels * (at / channels) == (at / channels) * channels) by (nonlinear_arith);
    if at / channels >= frames {
        assert((at / channels) * channels >= frames * channels) by (nonlinear_arith)
            requires
                at / channels >= frames,
                channels > 0,
        ;
    }
}

} // verus!
