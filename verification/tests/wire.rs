use remoteio::wire::{
    alias_of, decode, decode_config, decode_frame, encode, encode_config, encode_frame,
    AliasedData, BinMessages, BinStreamAlias, BinStreamConfig, ProtocolError,
};

fn alias(text: &str) -> BinStreamAlias {
    BinStreamAlias { alias: text.to_string() }
}

fn hello(text: &str) -> BinMessages {
    BinMessages::BinHello(alias(text))
}

fn config(text: &str, channels: u16, sample_rate: u32, buffer_size: u32) -> BinMessages {
    BinMessages::BinConfig(AliasedData {
        alias: alias(text),
        data: BinStreamConfig { channels, sample_rate, buffer_size },
    })
}

fn data(text: &str, samples: &[f32]) -> BinMessages {
    BinMessages::BinData(AliasedData {
        alias: alias(text),
        data: samples.iter().map(|s| s.to_bits()).collect(),
    })
}

#[test]
fn hello_is_kind_length_and_text() {
    let bytes = encode(&hello("x"));
    assert_eq!(bytes, vec![0, 0, 0, 0, 1, 0, 0, 0, 0, 0, 0, 0, b'x']);
}

#[test]
fn config_is_kind_alias_and_ten_bytes_of_parameters() {
    let bytes = encode(&config("x", 2, 48000, 4096));
    assert_eq!(
        bytes,
        vec![
            1, 0, 0, 0, 1, 0, 0, 0, 0, 0, 0, 0, b'x', 2, 0, 0x80, 0xbb, 0, 0, 0, 0x10, 0, 0
        ]
    );
}

#[test]
fn data_is_kind_alias_count_and_little_endian_samples() {
    let bytes = encode(&data("ab", &[1.0, -2.0]));
    assert_eq!(
        bytes,
        vec![
            2, 0, 0, 0, 2, 0, 0, 0, 0, 0, 0, 0, b'a', b'b', 2, 0, 0, 0, 0, 0, 0, 0, 0, 0, 0x80,
            0x3f, 0, 0, 0, 0xc0
        ]
    );
}

#[test]
fn text_length_counts_bytes_not_characters() {
    let bytes = encode(&hello("é"));
    assert_eq!(bytes, vec![0, 0, 0, 0, 2, 0, 0, 0, 0, 0, 0, 0, 0xc3, 0xa9]);
    assert_eq!(decode(&bytes), Ok(hello("é")));
}

#[test]
fn messages_have_the_layout_of_bincode_on_the_same_fields() {
    assert_eq!(encode(&hello("mic")), bincode::serialize(&(0u32, "mic")).unwrap());
    assert_eq!(
        encode(&config("mic", 2, 44100, 512)),
        bincode::serialize(&(1u32, "mic", 2u16, 44100u32, 512u32)).unwrap()
    );
    assert_eq!(
        encode(&data("mic", &[0.5, 0.25, -1.0])),
        bincode::serialize(&(2u32, "mic", vec![0.5f32, 0.25, -1.0])).unwrap()
    );
}

#[test]
fn round_trip_hello() {
    let m = hello("x");
    assert_eq!(decode(&encode(&m)), Ok(m));
}

#[test]
fn round_trip_config() {
    let m = config("x", 2, 48000, 4096);
    assert_eq!(decode(&encode(&m)), Ok(m));
}

#[test]
fn round_trip_data() {
    let m = data("x", &[0.0, 1.0, -1.0, 0.5, f32::MAX, f32::MIN_POSITIVE]);
    assert_eq!(decode(&encode(&m)), Ok(m));
}

#[test]
fn round_trip_data_without_samples_and_with_empty_alias() {
    let m = data("", &[]);
    assert_eq!(decode(&encode(&m)), Ok(m));
}

#[test]
fn round_trip_keeps_every_bit_of_a_sample() {
    let m = BinMessages::BinData(AliasedData {
        alias: alias("x"),
        data: vec![0x7fc0_0001, 0xffff_ffff, 0x8000_0000, 1],
    });
    assert_eq!(decode(&encode(&m)), Ok(m));
}

#[test]
fn bytes_after_a_message_are_ignored() {
    let mut bytes = encode(&hello("x"));
    bytes.extend_from_slice(&[9, 9, 9]);
    assert_eq!(decode(&bytes), Ok(hello("x")));
}

#[test]
fn nothing_is_no_message() {
    assert_eq!(decode(&[]), Err(ProtocolError::Malformed));
}

#[test]
fn a_kind_alone_is_no_message() {
    assert_eq!(decode(&[0, 0, 0, 0]), Err(ProtocolError::Malformed));
}

#[test]
fn an_unknown_kind_is_refused() {
    let mut bytes = encode(&hello("x"));
    bytes[0] = 3;
    assert_eq!(decode(&bytes), Err(ProtocolError::Malformed));
    bytes[0] = 0;
    bytes[3] = 1;
    assert_eq!(decode(&bytes), Err(ProtocolError::Malformed));
}

#[test]
fn a_message_cut_short_is_refused() {
    for m in [hello("abc"), config("abc", 1, 16000, 512), data("abc", &[1.0, 2.0])] {
        let bytes = encode(&m);
        for cut in 0..bytes.len() {
            assert_eq!(decode(&bytes[..cut]), Err(ProtocolError::Malformed));
        }
        assert_eq!(decode(&bytes), Ok(m));
    }
}

#[test]
fn an_alias_that_is_not_utf8_is_refused() {
    let bytes = vec![0, 0, 0, 0, 2, 0, 0, 0, 0, 0, 0, 0, 0xff, 0xfe];
    assert_eq!(decode(&bytes), Err(ProtocolError::Malformed));
}

#[test]
fn a_length_beyond_the_bytes_is_refused() {
    let bytes = vec![0, 0, 0, 0, 0xff, 0xff, 0xff, 0xff, 0xff, 0xff, 0xff, 0xff, b'x'];
    assert_eq!(decode(&bytes), Err(ProtocolError::Malformed));
    let bytes = vec![
        2, 0, 0, 0, 0, 0, 0, 0, 0, 0, 0, 0, 0xff, 0xff, 0xff, 0xff, 0xff, 0xff, 0xff, 0x3f, 1,
        2, 3, 4,
    ];
    assert_eq!(decode(&bytes), Err(ProtocolError::Malformed));
}

#[test]
fn alias_of_names_the_stream_of_each_kind() {
    assert_eq!(alias_of(&hello("a")), "a");
    assert_eq!(alias_of(&config("b", 1, 2, 3)), "b");
    assert_eq!(alias_of(&data("c", &[])), "c");
}

#[test]
fn bare_parameters_are_ten_bytes() {
    let c = BinStreamConfig { channels: 2, sample_rate: 48000, buffer_size: 4096 };
    let bytes = encode_config(&c);
    assert_eq!(bytes, vec![2, 0, 0x80, 0xbb, 0, 0, 0, 0x10, 0, 0]);
    assert_eq!(bytes, bincode::serialize(&(2u16, 48000u32, 4096u32)).unwrap());
    assert_eq!(decode_config(&bytes), Ok(c));
    assert_eq!(decode_config(&bytes[..9]), Err(ProtocolError::Malformed));
}

#[test]
fn bare_parameters_read_the_largest_values() {
    let c = BinStreamConfig { channels: u16::MAX, sample_rate: u32::MAX, buffer_size: 0x0102_0304 };
    assert_eq!(decode_config(&encode_config(&c)), Ok(c));
}

#[test]
fn a_raw_frame_is_big_endian_floats() {
    let samples = [1.0f32, -2.0, 0.15625];
    let bits: Vec<u32> = samples.iter().map(|s| s.to_bits()).collect();
    let bytes = encode_frame(&bits);
    assert_eq!(bytes, vec![0x3f, 0x80, 0, 0, 0xc0, 0, 0, 0, 0x3e, 0x20, 0, 0]);
    let expected: Vec<u8> = samples.iter().flat_map(|s| s.to_be_bytes()).collect();
    assert_eq!(bytes, expected);
}

#[test]
fn a_raw_frame_round_trips() {
    let bits = vec![0, 1, 0x0102_0304, 0xffff_ffff, 0x8000_0000];
    assert_eq!(decode_frame(&encode_frame(&bits)), Ok(bits));
    assert_eq!(decode_frame(&[]), Ok(vec![]));
    assert_eq!(decode_frame(&[1, 2, 3, 4]), Ok(vec![0x0102_0304]));
}

#[test]
fn a_raw_frame_that_ends_inside_a_sample_is_refused() {
    assert_eq!(decode_frame(&[1, 2, 3, 4, 5]), Err(ProtocolError::Malformed));
    assert_eq!(decode_frame(&[1]), Err(ProtocolError::Malformed));
}
