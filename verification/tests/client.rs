use remoteio::client::{
    announce, data_frames, Client, ClientError, StateError, SyncClient, DEFAULT_BUFFER_SIZE,
    FRAME_SAMPLES,
};
use remoteio::device::{
    BufferSize, Device, DeviceError, StreamConfig, SupportedBufferSize, SupportedStreamConfig,
};
use remoteio::wire::{decode, AliasedData, BinMessages, BinStreamAlias, BinStreamConfig};

fn microphone(name: &str, max_buffer: Option<u32>) -> Device {
    let buffer_size = match max_buffer {
        Some(max) => SupportedBufferSize::Range { min: 16, max },
        None => SupportedBufferSize::Unknown,
    };
    Device::new(
        name,
        Some(SupportedStreamConfig { channels: 1, sample_rate: 16000, buffer_size }),
        None,
    )
}

fn alias(text: &str) -> BinStreamAlias {
    BinStreamAlias { alias: text.to_string() }
}

#[test]
fn a_new_client_is_not_connected_and_not_alive() {
    let mut client = Client::new("client", microphone("mic", None));
    assert!(!client.is_alive());
    assert_eq!(client.name(), "client");
    assert_eq!(client.device().name(), "mic");
}

#[test]
fn connect_says_hello_and_gives_the_parameters() {
    let mut client = Client::new("client", microphone("mic", Some(512)));
    let shake = client.connect("localhost:9000", "[::1]:50000").unwrap();
    assert!(client.is_alive());
    assert_eq!(shake.alias, "[::1]:50000:client");
    assert_eq!(client.name(), "[::1]:50000:client");
    assert_eq!(decode(&shake.hello), Ok(BinMessages::BinHello(alias("[::1]:50000:client"))));
    assert_eq!(
        decode(&shake.config),
        Ok(BinMessages::BinConfig(AliasedData {
            alias: alias("[::1]:50000:client"),
            data: BinStreamConfig { channels: 1, sample_rate: 16000, buffer_size: 512 },
        }))
    );
    assert_eq!(
        shake.stream_config,
        StreamConfig { channels: 1, sample_rate: 16000, buffer_size: BufferSize::Default }
    );
}

#[test]
fn a_device_that_reports_no_buffer_size_is_announced_with_the_default() {
    assert_eq!(DEFAULT_BUFFER_SIZE, 4096);
    let unknown = SupportedStreamConfig {
        channels: 2,
        sample_rate: 48000,
        buffer_size: SupportedBufferSize::Unknown,
    };
    assert_eq!(
        announce(&unknown),
        BinStreamConfig { channels: 2, sample_rate: 48000, buffer_size: 4096 }
    );
    let range = SupportedStreamConfig {
        channels: 2,
        sample_rate: 48000,
        buffer_size: SupportedBufferSize::Range { min: 32, max: 8192 },
    };
    assert_eq!(announce(&range).buffer_size, 8192);
}

#[test]
fn a_client_whose_device_does_not_capture_does_not_connect() {
    let speakers = Device::new("out", None, None);
    let mut client = Client::new("client", speakers);
    let r = client.connect("localhost:9000", "[::1]:50000");
    assert_eq!(r.err(), Some(ClientError::Device(DeviceError::NoInputConfig)));
    assert!(!client.is_alive());
    assert_eq!(client.name(), "client");
}

#[test]
fn a_failed_send_leaves_the_client_dead_and_connected() {
    let mut client = Client::new("client", microphone("mic", None));
    client.connect("localhost:9000", "127.0.0.1:4000").unwrap();
    assert!(client.is_alive());
    client.send_failed();
    assert!(!client.is_alive());
    assert_eq!(client.name(), "127.0.0.1:4000:client");
    client.send_failed();
    assert!(!client.is_alive());
}

#[test]
fn only_a_new_connection_makes_a_dead_client_alive() {
    let mut client = Client::new("client", microphone("mic", None));
    client.connect("localhost:9000", "127.0.0.1:4000").unwrap();
    client.send_failed();
    client.change_source_device(microphone("mic 2", None)).unwrap();
    assert!(!client.is_alive());
    client.connect("localhost:9000", "127.0.0.1:4001").unwrap();
    assert!(client.is_alive());
    assert_eq!(client.name(), "127.0.0.1:4001:client");
}

#[test]
fn disconnect_gives_up_the_connection() {
    let mut client = Client::new("client", microphone("mic", None));
    client.connect("localhost:9000", "127.0.0.1:4000").unwrap();
    client.disconnect();
    assert!(!client.is_alive());
    assert_eq!(client.name(), "client");
}

#[test]
fn the_source_device_changes_over_the_same_connection() {
    let mut client = Client::new("client", microphone("mic", None));
    client.connect("localhost:9000", "127.0.0.1:4000").unwrap();
    let other = Device::new(
        "usb",
        Some(SupportedStreamConfig {
            channels: 2,
            sample_rate: 44100,
            buffer_size: SupportedBufferSize::Unknown,
        }),
        None,
    );
    let format = client.change_source_device(other).unwrap();
    assert_eq!(
        format,
        StreamConfig { channels: 2, sample_rate: 44100, buffer_size: BufferSize::Default }
    );
    assert_eq!(client.device().name(), "usb");
    assert!(client.is_alive());
    assert_eq!(client.name(), "127.0.0.1:4000:client");
}

#[test]
fn the_source_device_does_not_change_without_a_connection() {
    let mut client = Client::new("client", microphone("mic", None));
    let r = client.change_source_device(microphone("usb", None));
    assert_eq!(r, Err(ClientError::State(StateError::NotConnected)));
    assert_eq!(client.device().name(), "mic");
}

#[test]
fn the_source_device_does_not_change_to_one_that_does_not_capture() {
    let mut client = Client::new("client", microphone("mic", None));
    client.connect("localhost:9000", "127.0.0.1:4000").unwrap();
    let r = client.change_source_device(Device::new("out", None, None));
    assert_eq!(r, Err(ClientError::Device(DeviceError::NoInputConfig)));
    assert_eq!(client.device().name(), "mic");
    assert!(client.is_alive());
}

#[test]
fn captured_samples_go_out_in_runs_of_128() {
    assert_eq!(FRAME_SAMPLES, 128);
    let samples: Vec<u32> = (0..300).collect();
    let frames = data_frames("a", &samples);
    assert_eq!(frames.len(), 3);
    let runs: Vec<Vec<u32>> = frames
        .iter()
        .map(|frame| match decode(frame) {
            Ok(BinMessages::BinData(data)) => {
                assert_eq!(data.alias, alias("a"));
                data.data
            }
            other => panic!("not a data message: {:?}", other),
        })
        .collect();
    assert_eq!(runs[0], (0..128).collect::<Vec<u32>>());
    assert_eq!(runs[1], (128..256).collect::<Vec<u32>>());
    assert_eq!(runs[2], (256..300).collect::<Vec<u32>>());
}

#[test]
fn captured_samples_fall_into_as_few_runs_as_hold_them() {
    assert_eq!(data_frames("a", &[]).len(), 0);
    assert_eq!(data_frames("a", &[1]).len(), 1);
    assert_eq!(data_frames("a", &vec![0; 127]).len(), 1);
    assert_eq!(data_frames("a", &vec![0; 128]).len(), 1);
    assert_eq!(data_frames("a", &vec![0; 129]).len(), 2);
    assert_eq!(data_frames("a", &vec![0; 256]).len(), 2);
    assert_eq!(data_frames("a", &vec![0; 257]).len(), 3);
}

#[test]
fn a_data_message_fits_a_datagram() {
    let samples: Vec<u32> = (0..1000).collect();
    let alias = "[2001:db8::1]:65535:a client with a long name";
    for frame in data_frames(alias, &samples) {
        assert!(frame.len() <= 20 + alias.len() + 4 * FRAME_SAMPLES);
        assert!(frame.len() <= remoteio::wire::DATAGRAM_SIZE);
    }
    assert_eq!(data_frames("ab", &samples)[0].len(), 20 + 2 + 512);
    assert_eq!(data_frames("ab", &samples)[7].len(), 20 + 2 + 4 * (1000 - 7 * 128));
}
