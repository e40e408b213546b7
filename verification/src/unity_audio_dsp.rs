//! Result codes and static descriptors shared with the host.

use vstd::prelude::*;

verus! {

/// Version of the host interface that the descriptors are laid out for.
pub const UNITY_AUDIO_PLUGIN_API_VERSION: u32 = 0x010402;

/// Result code handed back to the host at the end of every call.
#[derive(Clone, Copy, Debug, PartialEq, Eq, Structural)]
pub enum UnityAudioResult {
    Success,
    ErrUnsupported,
}

impl UnityAudioResult {
    /// The number that stands for this result on the host's side.
    pub open spec fn spec_code(self) -> int {
        match self {
            UnityAudioResult::Success => 0,
            UnityAudioResult::ErrUnsupported => 1,
        }
    }

    /// The number that stands for this result on the host's side:
    /// 0 for success, 1 for an unsupported request.
    pub fn code(self) -> (n: i32)
        ensures
            n == self.spec_code(),
    {
        match self {
            UnityAudioResult::Success => 0,
            UnityAudioResult::ErrUnsupported => 1,
        }
    }

    /// Whether the call succeeded.
    pub fn is_success(self) -> (b: bool)
        ensures
            b == (self == UnityAudioResult::Success),
    {
        match self {
            UnityAudioResult::Success => true,
            UnityAudioResult::ErrUnsupported => false,
        }
    }
}

/// Static description of one control: how the host names it, and the range,
/// default and display mapping that the host shows for it. The range is for
/// display; writes to the control are not held to it.
pub struct UnityAudioParameterDefinition<T> {
    /// Display name, zero-terminated.
    pub name: [u8; 16],
    /// Scientific unit appended to the value, zero-terminated.
    pub unit: [u8; 16],
    /// Text for tool tips and generated documentation.
    pub description: &'static str,
    /// Least value shown.
    pub min: T,
    /// Greatest value shown.
    pub max: T,
    /// Default and initial value.
    pub defaultval: T,
    /// Factor applied to the value for display only.
    pub displayscale: T,
    /// Exponent by which the value is mapped to a slider.
    pub displayexponent: T,
}

impl<T: Copy> Clone for UnityAudioParameterDefinition<T> {
    fn clone(&self) -> (def: Self)
        ensures
            def == *self,
    {
        *self
    }
}

impl<T: Copy> Copy for UnityAudioParameterDefinition<T> {

}

/// Static description of the effect: its registration name, its versions and
/// the controls that it exposes. Fixed once made, and the same for every
/// instance.
pub struct UnityAudioEffectDefinition<T> {
    /// Version of the host interface.
    pub apiversion: u32,
    /// Version of the effect.
    pub pluginversion: u32,
    /// Number of channels that the effect asks for.
    pub channels: u32,
    /// Number of controls, as the host's 32-bit field holds it.
    pub numparameters: u32,
    /// Capabilities and requirements.
    pub flags: u64,
    /// Registration name, zero-terminated.
    pub name: [u8; 32],
    /// The controls, in index order.
    pub paramdefs: Vec<UnityAudioParameterDefinition<T>>,
}

impl<T: Copy> UnityAudioEffectDefinition<T> {
    /// The description of the control `index`, where there is one.
    pub fn describe(&self, index: usize) -> (def: Option<UnityAudioParameterDefinition<T>>)
        ensures
            index < self.paramdefs@.len() ==> def == Some(self.paramdefs@[index as int]),
            index >= self.paramdefs@.len() ==> def.is_none(),
    {
        if index < self.paramdefs.len() {
            Some(self.paramdefs[index])
        } else {
            None
        }
    }
}

} // verus!
