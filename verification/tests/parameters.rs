use ring_modulator::plugin_ring_modulator::{
    EffectData, ParameterError, PARAM_COUNT, PARAM_FREQ, PARAM_MIX, SLOT_COUNT,
};
use ring_modulator::unity_audio_dsp::UnityAudioResult;

fn fresh() -> EffectData<f32> {
    EffectData::new(1000.0, 0.5, 0.0, 0.0, 1.0)
}

#[test]
fn new_instance_holds_defaults_and_rest_phase() {
    let data = fresh();
    assert_eq!(data.get_float_parameter(0).unwrap().0, 1000.0);
    assert_eq!(data.get_float_parameter(1).unwrap().0, 0.5);
    assert_eq!(data.get_float_parameter(2).unwrap().0, 0.0);
    assert_eq!(data.sin, 0.0);
    assert_eq!(data.cos, 1.0);
}

#[test]
fn slot_constants() {
    assert_eq!(PARAM_COUNT, 2);
    assert_eq!(PARAM_FREQ, 0);
    assert_eq!(PARAM_MIX, 1);
    assert_eq!(SLOT_COUNT, 3);
}

#[test]
fn get_after_set_returns_value_exactly() {
    let values: [f32; 7] = [0.0, -0.0, 1.0e-30, 440.0, 22050.0, 0.1, f32::MAX];
    for index in 0..2 {
        for v in values.iter() {
            let mut data = fresh();
            assert_eq!(data.set_float_parameter(index, *v), Ok(()));
            let (got, _) = data.get_float_parameter(index).unwrap();
            assert_eq!(got.to_bits(), v.to_bits());
        }
    }
}

#[test]
fn set_does_not_clamp_to_declared_range() {
    let mut data = fresh();
    assert_eq!(data.set_float_parameter(0, 96000.0), Ok(()));
    assert_eq!(data.set_float_parameter(1, -3.5), Ok(()));
    assert_eq!(data.get_float_parameter(0).unwrap().0, 96000.0);
    assert_eq!(data.get_float_parameter(1).unwrap().0, -3.5);
}

#[test]
fn set_leaves_other_slots_and_phase() {
    let mut data = fresh();
    assert_eq!(data.set_float_parameter(0, 220.0), Ok(()));
    assert_eq!(data.get_float_parameter(1).unwrap().0, 0.5);
    assert_eq!(data.get_float_parameter(2).unwrap().0, 0.0);
    assert_eq!(data.sin, 0.0);
    assert_eq!(data.cos, 1.0);
}

#[test]
fn negative_index_is_invalid() {
    let mut data = fresh();
    assert_eq!(data.set_float_parameter(-1, 1.0), Err(ParameterError::InvalidIndex));
    assert_eq!(data.get_float_parameter(-1), Err(ParameterError::InvalidIndex));
    assert_eq!(data.set_float_parameter(i32::MIN, 1.0), Err(ParameterError::InvalidIndex));
    assert_eq!(data.get_float_parameter(i32::MIN), Err(ParameterError::InvalidIndex));
}

#[test]
fn index_above_parameter_count_is_invalid() {
    let mut data = fresh();
    assert_eq!(data.set_float_parameter(3, 1.0), Err(ParameterError::InvalidIndex));
    assert_eq!(data.get_float_parameter(3), Err(ParameterError::InvalidIndex));
    assert_eq!(data.set_float_parameter(i32::MAX, 1.0), Err(ParameterError::InvalidIndex));
    assert_eq!(data.get_float_parameter(i32::MAX), Err(ParameterError::InvalidIndex));
}

#[test]
fn index_equal_to_parameter_count_is_accepted() {
    let mut data = fresh();
    assert_eq!(data.set_float_parameter(2, 7.25), Ok(()));
    assert_eq!(data.get_float_parameter(2), Ok((7.25, "")));
    // the declared controls and the oscillator are not touched by it
    assert_eq!(data.get_float_parameter(0).unwrap().0, 1000.0);
    assert_eq!(data.get_float_parameter(1).unwrap().0, 0.5);
    assert_eq!(data.sin, 0.0);
    assert_eq!(data.cos, 1.0);
}

#[test]
fn failed_set_changes_nothing() {
    let mut data = fresh();
    assert!(data.set_float_parameter(3, 9.0).is_err());
    assert!(data.set_float_parameter(-1, 9.0).is_err());
    assert_eq!(data.param, [1000.0, 0.5, 0.0]);
    assert_eq!(data.sin, 0.0);
    assert_eq!(data.cos, 1.0);
}

#[test]
fn display_text_is_empty() {
    let data = fresh();
    for index in 0..3 {
        let (_, text) = data.get_float_parameter(index).unwrap();
        assert_eq!(text, "");
    }
}

#[test]
fn invalid_index_maps_to_unsupported() {
    assert_eq!(ParameterError::InvalidIndex.code(), UnityAudioResult::ErrUnsupported);
}

#[test]
fn result_codes() {
    assert_eq!(UnityAudioResult::Success.code(), 0);
    assert_eq!(UnityAudioResult::ErrUnsupported.code(), 1);
    assert!(UnityAudioResult::Success.is_success());
    assert!(!UnityAudioResult::ErrUnsupported.is_success());
}

#[test]
fn named_buffer_query_succeeds_and_writes_nothing() {
    let data = fresh();
    let mut buffer: [f32; 4] = [1.0, 2.0, 3.0, 4.0];
    let r = data.get_float_buffer(b"Spectrum", &mut buffer, 4);
    assert_eq!(r, UnityAudioResult::Success);
    assert_eq!(buffer, [1.0, 2.0, 3.0, 4.0]);
    let r = data.get_float_buffer(b"", &mut buffer, -1);
    assert_eq!(r, UnityAudioResult::Success);
    assert_eq!(buffer, [1.0, 2.0, 3.0, 4.0]);
}

#[test]
fn works_with_other_sample_types() {
    let mut data: EffectData<u32> = EffectData::new(1, 2, 3, 4, 5);
    assert_eq!(data.set_float_parameter(1, 0x7fc0_0001), Ok(()));
    assert_eq!(data.get_float_parameter(1), Ok((0x7fc0_0001, "")));
}
