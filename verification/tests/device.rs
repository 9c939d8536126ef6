use remoteio::device::{
    str_eq, BufferSize, Device, DeviceError, DeviceFromStringOpts, Host, StreamConfig,
    SupportedBufferSize, SupportedStreamConfig,
};

fn format(channels: u16, sample_rate: u32) -> SupportedStreamConfig {
    SupportedStreamConfig { channels, sample_rate, buffer_size: SupportedBufferSize::Unknown }
}

fn microphone(name: &str) -> Device {
    Device::new(name, Some(format(1, 16000)), None)
}

fn speakers(name: &str) -> Device {
    Device::new(name, None, Some(format(2, 48000)))
}

#[test]
fn a_device_keeps_its_name_and_is_keyed_in_lowercase() {
    let d = microphone("CABLE Input (VB-Audio Virtual Cable)");
    assert_eq!(d.name(), "CABLE Input (VB-Audio Virtual Cable)");
    assert_eq!(d.key(), "cable input (vb-audio virtual cable)");
}

#[test]
fn the_key_folds_letters_beyond_ascii() {
    assert_eq!(microphone("ÄÖÜ Mikrofon").key(), "äöü mikrofon");
}

#[test]
fn devices_are_equal_when_their_names_agree_up_to_case() {
    assert!(microphone("Speakers") == speakers("SPEAKERS"));
    assert!(microphone("Speakers") == microphone("speakers"));
    assert!(microphone("Speakers") != microphone("Speaker"));
    assert!(microphone("a").has_key("a"));
    assert!(microphone("A").has_key("a"));
    assert!(!microphone("A").has_key("A"));
}

#[test]
fn a_clone_is_the_same_device() {
    let d = Device::new("Line In", Some(format(2, 44100)), Some(format(2, 48000)));
    let c = d.clone();
    assert_eq!(c.name(), "Line In");
    assert_eq!(c.key(), "line in");
    assert_eq!(c.default_input_config(), Ok(format(2, 44100)));
    assert_eq!(c.default_output_config(), Ok(format(2, 48000)));
}

#[test]
fn a_device_without_a_format_reports_the_missing_side() {
    let mic = microphone("mic");
    assert_eq!(mic.default_input_config(), Ok(format(1, 16000)));
    assert_eq!(mic.default_output_config(), Err(DeviceError::NoOutputConfig));
    let out = speakers("out");
    assert_eq!(out.default_input_config(), Err(DeviceError::NoInputConfig));
    assert_eq!(out.default_output_config(), Ok(format(2, 48000)));
}

#[test]
fn a_stream_is_built_with_the_reported_channels_and_rate() {
    let supported = SupportedStreamConfig {
        channels: 2,
        sample_rate: 44100,
        buffer_size: SupportedBufferSize::Range { min: 64, max: 1024 },
    };
    assert_eq!(
        supported.config(),
        StreamConfig { channels: 2, sample_rate: 44100, buffer_size: BufferSize::Default }
    );
}

#[test]
fn a_name_resolves_whatever_its_case() {
    let host = Host::new(vec![microphone("Mic One"), speakers("Speakers")]);
    let found = host.find("SPEAKERS").unwrap();
    assert_eq!(found.name(), "Speakers");
    let found = Device::try_from(DeviceFromStringOpts { serial: "mic one", host: &host }).unwrap();
    assert_eq!(found.name(), "Mic One");
}

#[test]
fn of_several_devices_with_one_name_the_last_is_taken() {
    let host = Host::new(vec![
        Device::new("Duo", Some(format(1, 8000)), None),
        microphone("other"),
        Device::new("DUO", Some(format(2, 96000)), None),
    ]);
    let found = host.find("duo").unwrap();
    assert_eq!(found.name(), "DUO");
    assert_eq!(found.default_input_config(), Ok(format(2, 96000)));
}

#[test]
fn a_name_that_no_device_has_is_not_found() {
    let host = Host::new(vec![microphone("Mic")]);
    assert_eq!(host.find("Mic 2").err(), Some(DeviceError::NotFound));
    assert_eq!(
        Device::try_from(DeviceFromStringOpts { serial: "", host: &host }).err(),
        Some(DeviceError::NotFound)
    );
    let nothing = Host::new(vec![]);
    assert_eq!(nothing.find("Mic").err(), Some(DeviceError::NotFound));
}

#[test]
fn the_registry_lists_capturing_and_playing_devices_in_order() {
    let host = Host::new(vec![
        speakers("out 1"),
        microphone("in 1"),
        Device::new("both", Some(format(1, 1)), Some(format(1, 1))),
        Device::new("neither", None, None),
        microphone("in 2"),
    ]);
    let inputs: Vec<String> = host.input_devices().iter().map(|d| d.name()).collect();
    assert_eq!(inputs, vec!["in 1", "both", "in 2"]);
    let outputs: Vec<String> = host.output_devices().iter().map(|d| d.name()).collect();
    assert_eq!(outputs, vec!["out 1", "both"]);
    assert_eq!(host.devices().len(), 5);
    assert_eq!(host.clone().devices().len(), 5);
}

#[test]
fn texts_are_compared_character_by_character() {
    assert!(str_eq("abc", "abc"));
    assert!(!str_eq("abc", "abd"));
    assert!(!str_eq("abc", "ab"));
    assert!(str_eq("", ""));
}

#[test]
fn a_name_has_the_place_of_the_last_device_that_goes_by_it() {
    let host = Host::new(vec![microphone("Duo"), speakers("out"), microphone("DUO")]);
    assert_eq!(host.position("duo"), Some(2));
    assert_eq!(host.position("OUT"), Some(1));
    assert_eq!(host.position("none"), None);
}
