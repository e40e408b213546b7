//! Ring modulator effect unit: the parameter store, the block layout and the
//! per-block processing schedule, each with a machine-checked contract.
//!
//! The verifier does not reason about floating-point arithmetic, so the
//! library is generic in the sample type and takes the numeric kernel
//! (angular step, phase advance, wet/dry blend) from its caller. What it
//! fixes, and proves, is everything around that kernel: which parameter
//! slots exist, which buffer position belongs to which frame and channel,
//! and that the oscillator advances exactly once per frame.

use vstd::prelude::*;
use vstd::slice::slice_to_vec;
use vstd::string::StringSliceAdditionalSpecFns;
use crate::unity_audio_dsp::{
    UnityAudioEffectDefinition,
    UnityAudioParameterDefinition,
    UNITY_AUDIO_PLUGIN_API_VERSION,
};

pub mod block_layout;
pub mod continuity;
pub mod kernel_laws;
pub mod plugin_ring_modulator;
pub mod unity_audio_dsp;

verus! {

/// The longest prefix of `slice` that fits a zero-terminated field of `size` bytes.
pub open spec fn cstr_prefix_len(slice: Seq<u8>, size: int) -> int {
    if slice.len() < size {
        slice.len() as int
    } else {
        size - 1
    }
}

/// The contents of a fixed-size, zero-terminated text field holding `slice`:
/// the prefix that fits, then zeros up to the end of the field.
pub open spec fn cstr_field(slice: Seq<u8>, size: int) -> Seq<u8> {
    Seq::new(
        size as nat,
        |i: int|
            if i < cstr_prefix_len(slice, size) {
                slice[i]
            } else {
                0u8
            },
    )
}

/// Fits `slice` into a fixed-size field, truncating where needed so that the
/// last byte that is kept is always followed by a zero terminator.
pub fn fit_cstr_array<const SIZE: usize>(slice: &[u8]) -> (array: [u8; SIZE])
    requires
        SIZE > 0,
    ensures
        array@ == cstr_field(slice@, SIZE as int),
{
    let mut array: [u8; SIZE] = [0u8; SIZE];
    let limit: usize = if slice.len() < SIZE {
        slice.len()
    } else {
        SIZE - 1
    };
    let mut i: usize = 0;
    while i < limit
        invariant
            i <= limit,
            limit == cstr_prefix_len(slice@, SIZE as int),
            limit < SIZE,
            limit <= slice@.len(),
            forall|j: int| 0 <= j < i ==> array@[j] == slice@[j],
            forall|j: int| i <= j < SIZE ==> array@[j] == 0u8,
        decreases limit - i,
    {
        array[i] = slice[i];
        i += 1;
    }
    assert(array@ =~= cstr_field(slice@, SIZE as int));
    array
}

/// Version that the effect registers with.
pub const PLUGIN_VERSION: u32 = 0x010000;

/// Number of channels that the effect registers with.
pub const EFFECT_CHANNELS: u32 = 2;

/// Describes one control. Name and unit are fitted into their 16-byte
/// fields; everything else is taken as given.
pub fn declare_parameter<T: Copy>(
    name: &str,
    unit: &str,
    description: &'static str,
    min: T,
    max: T,
    default_val: T,
    display_scale: T,
    display_exponent: T,
) -> (def: UnityAudioParameterDefinition<T>)
    ensures
        def.name@ == cstr_field(name.spec_bytes(), 16),
        def.unit@ == cstr_field(unit.spec_bytes(), 16),
        def.description@ == description@,
        def.min == min,
        def.max == max,
        def.defaultval == default_val,
        def.displayscale == display_scale,
        def.displayexponent == display_exponent,
{
    UnityAudioParameterDefinition {
        name: fit_cstr_array::<16>(name.as_bytes()),
        unit: fit_cstr_array::<16>(unit.as_bytes()),
        description,
        min,
        max,
        defaultval: default_val,
        displayscale: display_scale,
        displayexponent: display_exponent,
    }
}

/// Describes the effect: the name fitted into its 32-byte field, the
/// controls in the order given, and the fixed versions, channel count and
/// flags. The control count is the low 32 bits of the number of controls.
pub fn declare_effect<T: Copy>(name: &str, param_defs: &[UnityAudioParameterDefinition<T>]) -> (def:
    UnityAudioEffectDefinition<T>)
    ensures
        def.apiversion == UNITY_AUDIO_PLUGIN_API_VERSION,
        def.pluginversion == PLUGIN_VERSION,
        def.name@ == cstr_field(name.spec_bytes(), 32),
        def.numparameters == param_defs@.len() % 0x1_0000_0000,
        def.channels == EFFECT_CHANNELS,
        def.flags == 0,
        def.paramdefs@ == param_defs@,
{
    let count: u64 = param_defs.len() as u64;
    let numparameters: u32 = (count % 0x1_0000_0000) as u32;
    UnityAudioEffectDefinition {
        apiversion: UNITY_AUDIO_PLUGIN_API_VERSION,
        pluginversion: PLUGIN_VERSION,
        channels: EFFECT_CHANNELS,
        numparameters,
        flags: 0,
        name: fit_cstr_array::<32>(name.as_bytes()),
        paramdefs: slice_to_vec(param_defs),
    }
}

} // verus!
