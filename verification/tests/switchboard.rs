use remoteio::device::{
    BufferSize, Device, DeviceError, Host, StreamConfig, SupportedBufferSize,
    SupportedStreamConfig,
};
use remoteio::ring::MAX_RING_CAPACITY;
use remoteio::switchboard::{
    ring_capacity, DeviceForwarder, DeviceSwitch, DeviceSwitchOpts, SwitchBoard, SwitchBoardOpts,
    LATENCY_MS,
};

fn format(channels: u16, sample_rate: u32) -> SupportedStreamConfig {
    SupportedStreamConfig { channels, sample_rate, buffer_size: SupportedBufferSize::Unknown }
}

fn stream(channels: u16, sample_rate: u32) -> StreamConfig {
    StreamConfig { channels, sample_rate, buffer_size: BufferSize::Default }
}

fn microphone(name: &str) -> Device {
    Device::new(name, Some(format(2, 48000)), None)
}

fn speakers(name: &str) -> Device {
    Device::new(name, None, Some(format(2, 44100)))
}

fn board(devices: Vec<Device>) -> SwitchBoard {
    SwitchBoard::new_from(SwitchBoardOpts { host: Host::new(devices) })
}

fn live(board: &SwitchBoard) -> Vec<(String, String)> {
    board
        .device_map()
        .iter()
        .filter_map(|c| c.consumer.as_ref().map(|to| (c.producer.device.name(), to.device.name())))
        .collect()
}

#[test]
fn the_latency_is_150_milliseconds() {
    assert_eq!(LATENCY_MS, 150);
}

#[test]
fn the_bridge_holds_twice_the_latency_in_samples() {
    assert_eq!(ring_capacity(&stream(2, 48000)), 28800);
    assert_eq!(ring_capacity(&stream(1, 44100)), 13230);
    assert_eq!(ring_capacity(&stream(1, 16000)), 4800);
    assert_eq!(ring_capacity(&stream(6, 192000)), 345600);
}

#[test]
fn the_latency_is_counted_in_whole_frames() {
    assert_eq!(ring_capacity(&stream(1, 7)), 2);
    assert_eq!(ring_capacity(&stream(3, 7)), 6);
    assert_eq!(ring_capacity(&stream(2, 6)), 0);
    assert_eq!(ring_capacity(&stream(0, 48000)), 0);
    assert_eq!(ring_capacity(&stream(2, 0)), 0);
    assert_eq!(ring_capacity(&stream(u16::MAX, u32::MAX)), 2 * 644245094 * 65535);
}

#[test]
fn a_switch_starts_without_a_connection() {
    let switch = DeviceSwitch::new_from(DeviceSwitchOpts { device: microphone("mic") });
    assert_eq!(switch.device.name(), "mic");
    assert!(switch.connection.is_none());
    let switch = DeviceSwitch::from(speakers("out"));
    assert!(switch.connection.is_none());
    let entry = switch.into_unconnected();
    assert!(entry.consumer.is_none());
    assert_eq!(entry.producer.device.name(), "out");
}

#[test]
fn a_new_switchboard_holds_every_capturing_device_unconnected() {
    let b = board(vec![speakers("out"), microphone("mic 1"), microphone("mic 2")]);
    let names: Vec<String> = b.device_map().iter().map(|c| c.producer.device.name()).collect();
    assert_eq!(names, vec!["mic 1", "mic 2"]);
    assert!(b.device_map().iter().all(|c| c.consumer.is_none()));
    assert!(b.device_map().iter().all(|c| c.producer.connection.is_none()));
}

#[test]
fn a_new_switchboard_holds_each_name_once() {
    let b = board(vec![microphone("Mic"), microphone("MIC"), microphone("mic")]);
    assert_eq!(b.device_map().len(), 1);
    assert_eq!(b.device_map()[0].producer.device.name(), "Mic");
}

#[test]
fn connect_pairs_the_devices_with_one_live_bridge() {
    let mut b = board(vec![microphone("mic"), speakers("out")]);
    let plan = b.connect((microphone("mic"), speakers("out"))).unwrap();
    assert!(plan.replaced.is_none());
    assert_eq!(live(&b), vec![("mic".to_string(), "out".to_string())]);
    assert_eq!(b.consumer_of(&microphone("MIC")).unwrap().name(), "out");
    let entry = &b.device_map()[0];
    assert_eq!(entry.producer.connection.unwrap().config, stream(2, 48000));
    assert_eq!(entry.consumer.as_ref().unwrap().connection.unwrap().config, stream(2, 44100));
}

#[test]
fn connect_yields_an_empty_bridge_sized_for_the_producer() {
    let mut b = board(vec![]);
    let mut plan = b.connect((microphone("mic"), speakers("out"))).unwrap();
    let f = &mut plan.forwarder;
    assert_eq!(f.source.name(), "mic");
    assert_eq!(f.dest.name(), "out");
    assert_eq!(f.config, stream(2, 48000));
    assert_eq!(f.output_config, stream(2, 44100));
    assert!(!f.playing);
    assert_eq!(f.bridge.pop(), None);
    let samples = vec![1u32; 28801];
    assert!(!f.bridge.listen_input(&samples[..28800]));
    assert!(f.bridge.listen_input(&samples[..1]));
}

#[test]
fn connect_adds_a_producer_that_was_not_on_the_switchboard() {
    let mut b = board(vec![microphone("mic 1")]);
    b.connect((microphone("mic 2"), speakers("out"))).unwrap();
    assert_eq!(b.device_map().len(), 2);
    assert_eq!(live(&b), vec![("mic 2".to_string(), "out".to_string())]);
    assert!(b.consumer_of(&microphone("mic 1")).is_none());
}

#[test]
fn connecting_again_replaces_the_bridge_of_the_producer() {
    let mut b = board(vec![microphone("mic")]);
    b.connect((microphone("mic"), speakers("out 1"))).unwrap();
    let plan = b.connect((microphone("mic"), speakers("out 2"))).unwrap();
    assert_eq!(plan.replaced.unwrap().name(), "out 1");
    assert_eq!(live(&b), vec![("mic".to_string(), "out 2".to_string())]);
    assert_eq!(b.device_map().len(), 1);
}

#[test]
fn connecting_one_producer_leaves_the_others_alone() {
    let mut b = board(vec![microphone("mic 1"), microphone("mic 2")]);
    b.connect((microphone("mic 1"), speakers("out 1"))).unwrap();
    b.connect((microphone("mic 2"), speakers("out 2"))).unwrap();
    b.connect((microphone("mic 1"), speakers("out 3"))).unwrap();
    assert_eq!(
        live(&b),
        vec![
            ("mic 1".to_string(), "out 3".to_string()),
            ("mic 2".to_string(), "out 2".to_string())
        ]
    );
}

#[test]
fn a_producer_that_does_not_capture_is_refused() {
    let mut b = board(vec![microphone("mic")]);
    let r = b.connect((speakers("out"), speakers("out 2")));
    assert_eq!(r.err(), Some(DeviceError::NoInputConfig));
    assert!(live(&b).is_empty());
    assert_eq!(b.device_map().len(), 1);
}

#[test]
fn a_consumer_that_does_not_play_is_refused() {
    let mut b = board(vec![microphone("mic")]);
    b.connect((microphone("mic"), speakers("out"))).unwrap();
    let r = b.connect((microphone("mic"), microphone("mic 2")));
    assert_eq!(r.err(), Some(DeviceError::NoOutputConfig));
    assert_eq!(live(&b), vec![("mic".to_string(), "out".to_string())]);
}

#[test]
fn a_bridge_beyond_the_largest_is_refused() {
    let mut b = board(vec![]);
    let huge = Device::new("huge", Some(format(2, u32::MAX)), None);
    let r = b.connect((huge.clone(), speakers("out")));
    assert_eq!(r.err(), Some(DeviceError::BridgeTooLarge));
    assert!(b.device_map().is_empty());
    let r = SwitchBoard::establish_connection(&huge, &speakers("out"));
    assert_eq!(r.err(), Some(DeviceError::BridgeTooLarge));
    assert!(ring_capacity(&stream(2, u32::MAX)) > MAX_RING_CAPACITY as u64);
}

#[test]
fn a_forwarder_is_built_played_and_stopped() {
    let mut f = DeviceForwarder::new(microphone("mic"), speakers("out"), stream(1, 16000)).unwrap();
    assert!(!f.playing);
    assert_eq!(f.config, stream(1, 16000));
    assert_eq!(f.output_config, stream(1, 16000));
    f.play();
    assert!(f.playing);
    assert!(!f.bridge.listen_input(&vec![3u32; 4800]));
    assert!(f.bridge.listen_input(&[3]));
    let (source, dest) = f.stop();
    assert_eq!(source.name(), "mic");
    assert_eq!(dest.name(), "out");
}

#[test]
fn a_forwarder_beyond_the_largest_bridge_is_refused() {
    let r = DeviceForwarder::new(microphone("mic"), speakers("out"), stream(u16::MAX, 48000));
    assert_eq!(r.err(), Some(DeviceError::BridgeTooLarge));
}

#[test]
fn disconnect_takes_the_bridge_and_keeps_the_producer() {
    let mut b = board(vec![microphone("mic 1"), microphone("mic 2")]);
    b.connect((microphone("mic 1"), speakers("out 1"))).unwrap();
    b.connect((microphone("mic 2"), speakers("out 2"))).unwrap();
    assert_eq!(b.disconnect(&microphone("MIC 1")).unwrap().name(), "out 1");
    assert_eq!(live(&b), vec![("mic 2".to_string(), "out 2".to_string())]);
    assert_eq!(b.device_map().len(), 2);
    assert!(b.device_map()[0].producer.connection.is_none());
    assert!(b.disconnect(&microphone("mic 1")).is_none());
    assert!(b.disconnect(&microphone("mic 3")).is_none());
    assert_eq!(b.device_map().len(), 2);
    let plan = b.connect((microphone("mic 1"), speakers("out 3"))).unwrap();
    assert!(plan.replaced.is_none());
}
