use ring_modulator::unity_audio_dsp::UNITY_AUDIO_PLUGIN_API_VERSION;
use ring_modulator::{declare_effect, declare_parameter, fit_cstr_array, EFFECT_CHANNELS, PLUGIN_VERSION};

#[test]
fn fit_shorter_text_is_padded_with_zeros() {
    let a: [u8; 8] = fit_cstr_array(b"Hz");
    assert_eq!(a, [b'H', b'z', 0, 0, 0, 0, 0, 0]);
}

#[test]
fn fit_text_of_exact_size_loses_last_byte() {
    let a: [u8; 4] = fit_cstr_array(b"abcd");
    assert_eq!(a, [b'a', b'b', b'c', 0]);
}

#[test]
fn fit_text_one_shorter_than_size_is_kept_whole() {
    let a: [u8; 4] = fit_cstr_array(b"abc");
    assert_eq!(a, [b'a', b'b', b'c', 0]);
}

#[test]
fn fit_longer_text_is_truncated_and_terminated() {
    let a: [u8; 4] = fit_cstr_array(b"Frequency");
    assert_eq!(a, [b'F', b'r', b'e', 0]);
}

#[test]
fn fit_empty_text_is_all_zeros() {
    let a: [u8; 3] = fit_cstr_array(b"");
    assert_eq!(a, [0, 0, 0]);
}

#[test]
fn fit_into_one_byte_is_terminator_only() {
    let a: [u8; 1] = fit_cstr_array(b"x");
    assert_eq!(a, [0]);
    let b: [u8; 1] = fit_cstr_array(b"");
    assert_eq!(b, [0]);
}

#[test]
fn fit_keeps_embedded_zero() {
    let a: [u8; 5] = fit_cstr_array(&[1, 0, 2]);
    assert_eq!(a, [1, 0, 2, 0, 0]);
}

#[test]
fn frequency_descriptor() {
    let def = declare_parameter::<f32>(
        "Frequency",
        "Hz",
        "The frequency of the sine wave",
        0.0,
        22050.0,
        1000.0,
        1.0,
        3.0,
    );
    assert_eq!(&def.name[..9], b"Frequency");
    assert_eq!(&def.name[9..], &[0u8; 7]);
    assert_eq!(&def.unit[..2], b"Hz");
    assert_eq!(&def.unit[2..], &[0u8; 14]);
    assert_eq!(def.description, "The frequency of the sine wave");
    assert_eq!(def.min, 0.0);
    assert_eq!(def.max, 22050.0);
    assert_eq!(def.defaultval, 1000.0);
    assert_eq!(def.displayscale, 1.0);
    assert_eq!(def.displayexponent, 3.0);
}

#[test]
fn mix_descriptor() {
    let def = declare_parameter::<f32>("Mix Amount", "%", "The amount of mix!", 0.0, 1.0, 0.5, 1.0, 1.0);
    assert_eq!(&def.name[..10], b"Mix Amount");
    assert_eq!(&def.name[10..], &[0u8; 6]);
    assert_eq!(&def.unit[..1], b"%");
    assert_eq!(&def.unit[1..], &[0u8; 15]);
    assert_eq!(def.description, "The amount of mix!");
    assert_eq!(def.min, 0.0);
    assert_eq!(def.max, 1.0);
    assert_eq!(def.defaultval, 0.5);
    assert_eq!(def.displayscale, 1.0);
    assert_eq!(def.displayexponent, 1.0);
}

#[test]
fn long_parameter_name_is_cut_to_fifteen_bytes() {
    let def = declare_parameter::<f32>("A name of twenty byt", "percentage points", "", 0.0, 0.0, 0.0, 0.0, 0.0);
    assert_eq!(&def.name[..15], b"A name of twent");
    assert_eq!(def.name[15], 0);
    assert_eq!(&def.unit[..15], b"percentage poin");
    assert_eq!(def.unit[15], 0);
}

#[test]
fn effect_descriptor() {
    let params = [
        declare_parameter::<f32>("Frequency", "Hz", "The frequency of the sine wave", 0.0, 22050.0, 1000.0, 1.0, 3.0),
        declare_parameter::<f32>("Mix Amount", "%", "The amount of mix!", 0.0, 1.0, 0.5, 1.0, 1.0),
    ];
    let def = declare_effect("Rusty Ring Modulator", &params);
    assert_eq!(def.apiversion, 0x010402);
    assert_eq!(def.apiversion, UNITY_AUDIO_PLUGIN_API_VERSION);
    assert_eq!(def.pluginversion, 0x010000);
    assert_eq!(def.pluginversion, PLUGIN_VERSION);
    assert_eq!(def.channels, 2);
    assert_eq!(def.channels, EFFECT_CHANNELS);
    assert_eq!(def.flags, 0);
    assert_eq!(def.numparameters, 2);
    assert_eq!(&def.name[..20], b"Rusty Ring Modulator");
    assert_eq!(&def.name[20..], &[0u8; 12]);
    assert_eq!(def.paramdefs.len(), 2);
    assert_eq!(def.paramdefs[0].defaultval, 1000.0);
    assert_eq!(def.paramdefs[1].defaultval, 0.5);
}

#[test]
fn describe_by_index() {
    let params = [
        declare_parameter::<f32>("Frequency", "Hz", "The frequency of the sine wave", 0.0, 22050.0, 1000.0, 1.0, 3.0),
        declare_parameter::<f32>("Mix Amount", "%", "The amount of mix!", 0.0, 1.0, 0.5, 1.0, 1.0),
    ];
    let def = declare_effect("Rusty Ring Modulator", &params);
    let freq = def.describe(0).unwrap();
    assert_eq!(freq.max, 22050.0);
    assert_eq!(freq.displayexponent, 3.0);
    let mix = def.describe(1).unwrap();
    assert_eq!(mix.max, 1.0);
    assert_eq!(&mix.name[..10], b"Mix Amount");
    assert!(def.describe(2).is_none());
    // describing twice gives the same thing: the table does not change
    assert_eq!(def.describe(0).unwrap().name, freq.name);
}

#[test]
fn effect_without_parameters() {
    let none: [ring_modulator::unity_audio_dsp::UnityAudioParameterDefinition<f32>; 0] = [];
    let def = declare_effect("A name that is longer than thirty-two bytes", &none);
    assert_eq!(def.numparameters, 0);
    assert_eq!(&def.name[..31], b"A name that is longer than thir");
    assert_eq!(def.name[31], 0);
    assert!(def.describe(0).is_none());
}
