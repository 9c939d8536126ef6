//! The wire protocol: the messages between a capture end and a playback end,
//! and their exact layout in bytes.
//!
//! A message is a 32-bit kind, then the alias of the logical stream, then the
//! payload of that kind.  Integers are little-endian with a fixed width, a text
//! is its length in bytes as a 64-bit integer followed by its UTF-8 bytes, and
//! a run of samples is its count as a 64-bit integer followed by four bytes
//! for each sample.  Bytes after a complete message are ignored.

use vstd::prelude::*;
use vstd::bytes::*;
use vstd::utf8::*;
use vstd::slice::*;
use vstd::string::*;

verus! {

/// Playback parameters of one stream.
#[derive(Clone, Copy, Debug, PartialEq, Eq, Structural)]
pub struct BinStreamConfig {
    pub channels: u16,
    pub sample_rate: u32,
    pub buffer_size: u32,
}

/// The name a client chose for one logical stream.
#[derive(Clone, Debug, PartialEq, Eq)]
pub struct BinStreamAlias {
    pub alias: String,
}

/// A payload together with the alias of the stream it belongs to.
#[derive(Clone, Debug, PartialEq, Eq)]
pub struct AliasedData<T> {
    pub alias: BinStreamAlias,
    pub data: T,
}

/// A message as it is held in memory.  Samples are bit patterns of 32-bit floats.
#[derive(Clone, Debug, PartialEq, Eq)]
pub enum BinMessages {
    BinHello(BinStreamAlias),
    BinConfig(AliasedData<BinStreamConfig>),
    BinData(AliasedData<Vec<u32>>),
}

/// Why bytes were not taken for a message.
#[derive(Clone, Copy, Debug, PartialEq, Eq, Structural)]
pub enum ProtocolError {
    /// The bytes are no complete message of a known kind.
    Malformed,
    /// The message is of a kind that is not accepted at this point.
    Unexpected,
}

/// A message as a mathematical value.
pub enum Message {
    Hello { alias: Seq<char> },
    Config { alias: Seq<char>, config: BinStreamConfig },
    Data { alias: Seq<char>, samples: Seq<u32> },
}

impl Message {
    /// The alias of the stream that the message speaks of.
    pub open spec fn alias(self) -> Seq<char> {
        match self {
            Message::Hello { alias } => alias,
            Message::Config { alias, .. } => alias,
            Message::Data { alias, .. } => alias,
        }
    }

    /// The lengths that the message writes down fit the 64 bits they are written in.
    pub open spec fn fits(self) -> bool {
        &&& encode_utf8(self.alias()).len() <= u64::MAX
        &&& self matches Message::Data { samples, .. } ==> samples.len() <= u64::MAX
    }
}

impl View for BinStreamAlias {
    type V = Seq<char>;

    open spec fn view(&self) -> Seq<char> {
        self.alias@
    }
}

impl View for BinMessages {
    type V = Message;

    open spec fn view(&self) -> Message {
        match *self {
            BinMessages::BinHello(a) => Message::Hello { alias: a@ },
            BinMessages::BinConfig(c) => Message::Config { alias: c.alias@, config: c.data },
            BinMessages::BinData(d) => Message::Data { alias: d.alias@, samples: d.data@ },
        }
    }
}

/// The kind of a message that announces a stream.
pub const KIND_HELLO: u32 = 0;

/// The kind of a message that gives playback parameters.
pub const KIND_CONFIG: u32 = 1;

/// The kind of a message that carries samples.
pub const KIND_DATA: u32 = 2;

/// Four little-endian bytes for each sample, in order.
pub open spec fn le_words(samples: Seq<u32>) -> Seq<u8>
    decreases samples.len(),
{
    if samples.len() == 0 {
        Seq::<u8>::empty()
    } else {
        le_words(samples.drop_last()) + spec_u32_to_le_bytes(samples.last())
    }
}

/// The samples that the first `4 * count` bytes hold, four little-endian bytes each.
pub open spec fn words_of_le(bytes: Seq<u8>, count: nat) -> Seq<u32> {
    Seq::new(count, |i: int| spec_u32_from_le_bytes(bytes.subrange(4 * i, 4 * i + 4)))
}

/// A text on the wire: its byte length, then its UTF-8 bytes.
pub open spec fn text_field(text: Seq<char>) -> Seq<u8> {
    spec_u64_to_le_bytes(encode_utf8(text).len() as u64) + encode_utf8(text)
}

/// A run of samples on the wire: their count, then the samples.
pub open spec fn samples_field(samples: Seq<u32>) -> Seq<u8> {
    spec_u64_to_le_bytes(samples.len() as u64) + le_words(samples)
}

/// Playback parameters on the wire: ten bytes.
pub open spec fn config_field(config: BinStreamConfig) -> Seq<u8> {
    spec_u16_to_le_bytes(config.channels) + spec_u32_to_le_bytes(config.sample_rate)
        + spec_u32_to_le_bytes(config.buffer_size)
}

/// The bytes of a message.
pub open spec fn message_bytes(m: Message) -> Seq<u8> {
    match m {
        Message::Hello { alias } => spec_u32_to_le_bytes(KIND_HELLO) + text_field(alias),
        Message::Config { alias, config } => spec_u32_to_le_bytes(KIND_CONFIG) + text_field(alias)
            + config_field(config),
        Message::Data { alias, samples } => spec_u32_to_le_bytes(KIND_DATA) + text_field(alias)
            + samples_field(samples),
    }
}

/// The byte length that a text field at the start of `bytes` announces for its text.
pub open spec fn announced(bytes: Seq<u8>) -> int {
    spec_u64_from_le_bytes(bytes.take(8)) as int
}

/// `bytes` starts with a complete text field.
pub open spec fn text_ok(bytes: Seq<u8>) -> bool {
    &&& bytes.len() >= 8
    &&& announced(bytes) <= bytes.len() - 8
    &&& valid_utf8(bytes.subrange(8, 8 + announced(bytes)))
}

/// The text of the text field at the start of `bytes`.
pub open spec fn text_of(bytes: Seq<u8>) -> Seq<char> {
    decode_utf8(bytes.subrange(8, 8 + announced(bytes)))
}

/// `bytes` starts with a complete run of samples.
pub open spec fn samples_ok(bytes: Seq<u8>) -> bool {
    &&& bytes.len() >= 8
    &&& 4 * announced(bytes) <= bytes.len() - 8
}

/// The samples of the run at the start of `bytes`.
pub open spec fn samples_of(bytes: Seq<u8>) -> Seq<u32> {
    words_of_le(bytes.skip(8), announced(bytes) as nat)
}

/// The playback parameters at the start of `bytes`, if ten bytes are there.
pub open spec fn parse_config(bytes: Seq<u8>) -> Option<BinStreamConfig> {
    if bytes.len() < 10 {
        None
    } else {
        Some(
            BinStreamConfig {
                channels: spec_u16_from_le_bytes(bytes.subrange(0, 2)),
                sample_rate: spec_u32_from_le_bytes(bytes.subrange(2, 6)),
                buffer_size: spec_u32_from_le_bytes(bytes.subrange(6, 10)),
            },
        )
    }
}

/// The message at the start of `bytes`, if a complete one of a known kind is there.
pub open spec fn parse_message(bytes: Seq<u8>) -> Option<Message> {
    if bytes.len() < 4 || !text_ok(bytes.skip(4)) {
        None
    } else {
        let kind = spec_u32_from_le_bytes(bytes.take(4));
        let alias = text_of(bytes.skip(4));
        let payload = bytes.skip(12 + announced(bytes.skip(4)));
        if kind == KIND_HELLO {
            Some(Message::Hello { alias })
        } else if kind == KIND_CONFIG {
            match parse_config(payload) {
                Some(config) => Some(Message::Config { alias, config }),
                None => None,
            }
        } else if kind == KIND_DATA {
            if samples_ok(payload) {
                Some(Message::Data { alias, samples: samples_of(payload) })
            } else {
                None
            }
        } else {
            None
        }
    }
}

/// What `bincode` reports when it cannot write or read a value.
#[verifier::external_type_specification]
#[verifier::external_body]
pub struct ExErrorKind(bincode::ErrorKind);

/// `bincode::serialize` on a `u16`: with the fixed-width little-endian
/// encoding that this function uses, the two bytes of the value.  Writing to
/// memory without a size limit does not fail.
#[verifier::external_body]
fn serialize_u16(value: u16) -> (r: Result<Vec<u8>, Box<bincode::ErrorKind>>)
    ensures
        r is Ok,
        r matches Ok(out) ==> out@ == spec_u16_to_le_bytes(value),
{
    bincode::serialize(&value)
}

/// `bincode::serialize` on a `u32`: the four little-endian bytes of the
/// value.  It does not fail.
#[verifier::external_body]
fn serialize_u32(value: u32) -> (r: Result<Vec<u8>, Box<bincode::ErrorKind>>)
    ensures
        r is Ok,
        r matches Ok(out) ==> out@ == spec_u32_to_le_bytes(value),
{
    bincode::serialize(&value)
}

/// `bincode::serialize` on a `str`: the length in bytes as a 64-bit
/// little-endian integer, then the UTF-8 bytes.  It does not fail.
#[verifier::external_body]
fn serialize_text(text: &str) -> (r: Result<Vec<u8>, Box<bincode::ErrorKind>>)
    ensures
        r is Ok,
        r matches Ok(out) ==> out@ == text_field(text@),
{
    bincode::serialize(text)
}

/// `bincode::serialize` on a slice of `u32`: the number of elements as a
/// 64-bit little-endian integer, then four little-endian bytes for each.
/// It does not fail.
#[verifier::external_body]
fn serialize_samples(samples: &[u32]) -> (r: Result<Vec<u8>, Box<bincode::ErrorKind>>)
    ensures
        r is Ok,
        r matches Ok(out) ==> out@ == samples_field(samples@),
{
    bincode::serialize(samples)
}

/// `bincode::deserialize` to a `u16`: reads two bytes, little-endian, and
/// ignores what follows; fails when fewer than two bytes are there.
#[verifier::external_body]
fn deserialize_u16(bytes: &[u8]) -> (r: Result<u16, Box<bincode::ErrorKind>>)
    ensures
        r is Ok <==> bytes@.len() >= 2,
        r matches Ok(value) ==> value == spec_u16_from_le_bytes(bytes@.take(2)),
{
    bincode::deserialize::<u16>(bytes)
}

/// `bincode::deserialize` to a `u32`: reads four bytes, little-endian, and
/// ignores what follows; fails when fewer than four bytes are there.
#[verifier::external_body]
fn deserialize_u32(bytes: &[u8]) -> (r: Result<u32, Box<bincode::ErrorKind>>)
    ensures
        r is Ok <==> bytes@.len() >= 4,
        r matches Ok(value) ==> value == spec_u32_from_le_bytes(bytes@.take(4)),
{
    bincode::deserialize::<u32>(bytes)
}

/// `bincode::deserialize` to a `String`: reads a 64-bit length, then that
/// many bytes, which must be UTF-8, and ignores what follows.
#[verifier::external_body]
fn deserialize_text(bytes: &[u8]) -> (r: Result<String, Box<bincode::ErrorKind>>)
    ensures
        r is Ok <==> text_ok(bytes@),
        r matches Ok(text) ==> text@ == text_of(bytes@),
{
    bincode::deserialize::<String>(bytes)
}

/// `bincode::deserialize` to a `Vec<u32>`: reads a 64-bit count, then four
/// little-endian bytes for each element, and ignores what follows; fails
/// when the bytes end before the last element.
#[verifier::external_body]
fn deserialize_samples(bytes: &[u8]) -> (r: Result<Vec<u32>, Box<bincode::ErrorKind>>)
    ensures
        r is Ok <==> samples_ok(bytes@),
        r matches Ok(samples) ==> samples@ == samples_of(bytes@),
{
    bincode::deserialize::<Vec<u32>>(bytes)
}

/// The bytes of `message`.  Reading them gives the message back.
pub fn encode(message: &BinMessages) -> (out: Vec<u8>)
    ensures
        out@ == message_bytes(message@),
        parse_message(out@) == Some(message@),
{
    let alias: &str = alias_of(message);
    // The lengths are those of values in memory, so they fit the 64 bits
    // in which they are written.
    let _ = alias.as_bytes().len();
    let mut text: Vec<u8> = serialize_text(alias).unwrap();
    let out = match message {
        BinMessages::BinHello(_) => {
            let mut out: Vec<u8> = serialize_u32(KIND_HELLO).unwrap();
            out.append(&mut text);
            out
        },
        BinMessages::BinConfig(config) => {
            let mut out: Vec<u8> = serialize_u32(KIND_CONFIG).unwrap();
            let mut data: Vec<u8> = encode_config(&config.data);
            out.append(&mut text);
            out.append(&mut data);
            out
        },
        BinMessages::BinData(data) => {
            let _ = data.data.len();
            let mut out: Vec<u8> = serialize_u32(KIND_DATA).unwrap();
            let mut samples: Vec<u8> = serialize_samples(data.data.as_slice()).unwrap();
            out.append(&mut text);
            out.append(&mut samples);
            out
        },
    };
    proof {
        lemma_round_trip(message@, Seq::<u8>::empty());
    }
    out
}

/// The alias of the stream that `message` speaks of.
pub fn alias_of(message: &BinMessages) -> (alias: &str)
    ensures
        alias@ == message@.alias(),
{
    match message {
        BinMessages::BinHello(hello) => hello.alias.as_str(),
        BinMessages::BinConfig(config) => config.alias.alias.as_str(),
        BinMessages::BinData(data) => data.alias.alias.as_str(),
    }
}

/// The ten bytes of playback parameters, as they stand in a message and as
/// they open a connection that carries one stream.
pub fn encode_config(config: &BinStreamConfig) -> (out: Vec<u8>)
    ensures
        out@ == config_field(*config),
{
    let mut out: Vec<u8> = serialize_u16(config.channels).unwrap();
    let mut rate: Vec<u8> = serialize_u32(config.sample_rate).unwrap();
    let mut size: Vec<u8> = serialize_u32(config.buffer_size).unwrap();
    out.append(&mut rate);
    out.append(&mut size);
    out
}

/// Reads playback parameters from the start of `bytes`.
pub fn decode_config(bytes: &[u8]) -> (r: Result<BinStreamConfig, ProtocolError>)
    ensures
        match r {
            Ok(config) => parse_config(bytes@) == Some(config),
            Err(e) => parse_config(bytes@) is None && e == ProtocolError::Malformed,
        },
{
    if bytes.len() < 10 {
        return Err(ProtocolError::Malformed);
    }
    let channels = deserialize_u16(slice_subrange(bytes, 0, 2));
    let sample_rate = deserialize_u32(slice_subrange(bytes, 2, 6));
    let buffer_size = deserialize_u32(slice_subrange(bytes, 6, 10));
    assert(bytes@.subrange(0, 2).take(2) =~= bytes@.subrange(0, 2));
    assert(bytes@.subrange(2, 6).take(4) =~= bytes@.subrange(2, 6));
    assert(bytes@.subrange(6, 10).take(4) =~= bytes@.subrange(6, 10));
    match (channels, sample_rate, buffer_size) {
        (Ok(channels), Ok(sample_rate), Ok(buffer_size)) => Ok(
            BinStreamConfig { channels, sample_rate, buffer_size },
        ),
        _ => Err(ProtocolError::Malformed),
    }
}

/// Reads the message at the start of `bytes`.
pub fn decode(bytes: &[u8]) -> (r: Result<BinMessages, ProtocolError>)
    ensures
        match r {
            Ok(message) => parse_message(bytes@) == Some(message@),
            Err(e) => parse_message(bytes@) is None && e == ProtocolError::Malformed,
        },
{
    let kind: u32 = match deserialize_u32(bytes) {
        Ok(kind) => kind,
        Err(_) => {
            return Err(ProtocolError::Malformed);
        },
    };
    let body = slice_subrange(bytes, 4, bytes.len());
    let alias: String = match deserialize_text(body) {
        Ok(alias) => alias,
        Err(_) => {
            return Err(ProtocolError::Malformed);
        },
    };
    proof {
        decode_utf8_encode_utf8(body@.subrange(8, 8 + announced(body@)));
    }
    let used: usize = 8 + alias.as_str().len();
    let payload = slice_subrange(body, used, body.len());
    assert(payload@ =~= bytes@.skip(12 + announced(bytes@.skip(4))));
    let alias = BinStreamAlias { alias };
    if kind == KIND_HELLO {
        Ok(BinMessages::BinHello(alias))
    } else if kind == KIND_CONFIG {
        match decode_config(payload) {
            Ok(data) => Ok(BinMessages::BinConfig(AliasedData { alias, data })),
            Err(e) => Err(e),
        }
    } else if kind == KIND_DATA {
        match deserialize_samples(payload) {
            Ok(data) => Ok(BinMessages::BinData(AliasedData { alias, data })),
            Err(_) => Err(ProtocolError::Malformed),
        }
    } else {
        Err(ProtocolError::Malformed)
    }
}

/// Four bytes stand for each sample, and reading them gives the samples back,
/// whatever follows them.
pub proof fn lemma_words_round_trip(samples: Seq<u32>, tail: Seq<u8>)
    ensures
        le_words(samples).len() == 4 * samples.len(),
        words_of_le(le_words(samples) + tail, samples.len()) == samples,
    decreases samples.len(),
{
    lemma_auto_spec_u32_to_from_le_bytes();
    if samples.len() > 0 {
        let front = samples.drop_last();
        let last = spec_u32_to_le_bytes(samples.last());
        lemma_words_round_trip(front, last + tail);
        let all = le_words(samples) + tail;
        assert(all =~= le_words(front) + (last + tail));
        let read = words_of_le(all, samples.len());
        assert forall|i: int| 0 <= i < samples.len() implies read[i] == samples[i] by {
            if i < front.len() {
                assert(words_of_le(le_words(front) + (last + tail), front.len())[i] == front[i]);
            } else {
                assert(all.subrange(4 * i, 4 * i + 4) =~= last);
            }
        }
    }
}

/// A text field is read back as the text it was written from, whatever follows it.
pub proof fn lemma_text_round_trip(text: Seq<char>, tail: Seq<u8>)
    requires
        encode_utf8(text).len() <= u64::MAX,
    ensures
        text_ok(text_field(text) + tail),
        text_of(text_field(text) + tail) == text,
        announced(text_field(text) + tail) == encode_utf8(text).len(),
        text_field(text).len() == 8 + encode_utf8(text).len(),
{
    lemma_auto_spec_u64_to_from_le_bytes();
    encode_utf8_valid_utf8(text);
    encode_utf8_decode_utf8(text);
    let body = encode_utf8(text);
    let head = spec_u64_to_le_bytes(body.len() as u64);
    let all = text_field(text) + tail;
    assert(all.take(8) =~= head);
    assert(all.subrange(8, 8 + body.len() as int) =~= body);
}

/// A run of samples is read back as it was written, whatever follows it.
pub proof fn lemma_samples_round_trip(samples: Seq<u32>, tail: Seq<u8>)
    requires
        samples.len() <= u64::MAX,
    ensures
        samples_ok(samples_field(samples) + tail),
        samples_of(samples_field(samples) + tail) == samples,
{
    lemma_auto_spec_u64_to_from_le_bytes();
    lemma_words_round_trip(samples, tail);
    let head = spec_u64_to_le_bytes(samples.len() as u64);
    let all = samples_field(samples) + tail;
    assert(all.take(8) =~= head);
    assert(all.skip(8) =~= le_words(samples) + tail);
}

/// Playback parameters are read back as they were written, whatever follows them.
pub proof fn lemma_config_round_trip(config: BinStreamConfig, tail: Seq<u8>)
    ensures
        parse_config(config_field(config) + tail) == Some(config),
{
    lemma_auto_spec_u16_to_from_le_bytes();
    lemma_auto_spec_u32_to_from_le_bytes();
    let all = config_field(config) + tail;
    assert(all.subrange(0, 2) =~= spec_u16_to_le_bytes(config.channels));
    assert(all.subrange(2, 6) =~= spec_u32_to_le_bytes(config.sample_rate));
    assert(all.subrange(6, 10) =~= spec_u32_to_le_bytes(config.buffer_size));
}

/// Encoding is reversible: the bytes of a message, followed by anything, are
/// read back as that message.
pub proof fn lemma_round_trip(m: Message, tail: Seq<u8>)
    requires
        m.fits(),
    ensures
        parse_message(message_bytes(m) + tail) == Some(m),
{
    lemma_auto_spec_u32_to_from_le_bytes();
    let all = message_bytes(m) + tail;
    let alias = m.alias();
    match m {
        Message::Hello { .. } => {
            lemma_text_round_trip(alias, tail);
            assert(all.take(4) =~= spec_u32_to_le_bytes(KIND_HELLO));
            assert(all.skip(4) =~= text_field(alias) + tail);
        },
        Message::Config { config, .. } => {
            let rest = config_field(config) + tail;
            lemma_text_round_trip(alias, rest);
            lemma_config_round_trip(config, tail);
            assert(all.take(4) =~= spec_u32_to_le_bytes(KIND_CONFIG));
            assert(all.skip(4) =~= text_field(alias) + rest);
            assert(all.skip(12 + announced(all.skip(4))) =~= rest);
        },
        Message::Data { samples, .. } => {
            let rest = samples_field(samples) + tail;
            lemma_text_round_trip(alias, rest);
            lemma_samples_round_trip(samples, tail);
            assert(all.take(4) =~= spec_u32_to_le_bytes(KIND_DATA));
            assert(all.skip(4) =~= text_field(alias) + rest);
            assert(all.skip(12 + announced(all.skip(4))) =~= rest);
        },
    }
}

/// The largest message that a transport of single datagrams carries.
pub const DATAGRAM_SIZE: usize = 2048;

/// The number of bytes of a message: twelve for its kind and the length of
/// its alias, the alias, and the payload.
pub proof fn lemma_message_length(m: Message)
    ensures
        message_bytes(m).len() == 12 + encode_utf8(m.alias()).len() + match m {
            Message::Hello { .. } => 0,
            Message::Config { .. } => 10,
            Message::Data { samples, .. } => 8 + 4 * samples.len(),
        },
{
    lemma_auto_spec_u16_to_from_le_bytes();
    lemma_auto_spec_u32_to_from_le_bytes();
    lemma_auto_spec_u64_to_from_le_bytes();
    if let Message::Data { samples, .. } = m {
        lemma_words_round_trip(samples, Seq::empty());
    }
}

/// Reading the first `4 * count` bytes as samples and writing the samples
/// gives those bytes back.
pub proof fn lemma_words_written_back(bytes: Seq<u8>, count: nat)
    requires
        4 * count <= bytes.len(),
    ensures
        le_words(words_of_le(bytes, count)) == bytes.take(4 * count as int),
    decreases count,
{
    lemma_auto_spec_u32_to_from_le_bytes();
    if count > 0 {
        let front = (count - 1) as nat;
        lemma_words_written_back(bytes, front);
        assert(words_of_le(bytes, count).drop_last() =~= words_of_le(bytes, front));
    }
}

/// Reading is exact: bytes that are read as a message begin with the
/// bytes of that message, so that two readings differ only where the
/// messages do or in what follows them.
pub proof fn lemma_parsed_is_prefix(bytes: Seq<u8>, m: Message)
    requires
        parse_message(bytes) == Some(m),
    ensures
        m.fits(),
        message_bytes(m).len() <= bytes.len(),
        bytes.take(message_bytes(m).len() as int) == message_bytes(m),
{
    lemma_auto_spec_u16_to_from_le_bytes();
    lemma_auto_spec_u32_to_from_le_bytes();
    lemma_auto_spec_u64_to_from_le_bytes();
    let body = bytes.skip(4);
    let n = announced(body);
    let text = body.subrange(8, 8 + n);
    decode_utf8_encode_utf8(text);
    let payload = bytes.skip(12 + n);
    match m {
        Message::Hello { .. } => {},
        Message::Config { config, .. } => {
            assert(config_field(config) =~= payload.take(10));
        },
        Message::Data { .. } => {
            lemma_words_written_back(payload.skip(8), announced(payload) as nat);
        },
    }
}

/// The four bytes of one sample in a raw frame, most significant first.
pub open spec fn be_word(sample: u32) -> Seq<u8> {
    seq![
        (sample >> 24) as u8,
        ((sample >> 16) & 0xff) as u8,
        ((sample >> 8) & 0xff) as u8,
        (sample & 0xff) as u8,
    ]
}

/// The sample that four bytes of a raw frame stand for.
pub open spec fn word_of_be(b0: u8, b1: u8, b2: u8, b3: u8) -> u32 {
    (b0 as u32) << 24 | (b1 as u32) << 16 | (b2 as u32) << 8 | (b3 as u32)
}

/// A raw frame: the samples one after another, four big-endian bytes each,
/// with nothing before, between or after them.
pub open spec fn frame_bytes(samples: Seq<u32>) -> Seq<u8>
    decreases samples.len(),
{
    if samples.len() == 0 {
        Seq::<u8>::empty()
    } else {
        frame_bytes(samples.drop_last()) + be_word(samples.last())
    }
}

/// The samples of a raw frame whose length is a multiple of four.
pub open spec fn frame_samples(bytes: Seq<u8>) -> Seq<u32> {
    Seq::new(
        bytes.len() / 4,
        |i: int| word_of_be(bytes[4 * i], bytes[4 * i + 1], bytes[4 * i + 2], bytes[4 * i + 3]),
    )
}

/// Four bytes, most significant first, stand for exactly one sample.
pub proof fn lemma_be_word(sample: u32)
    ensures
        be_word(sample).len() == 4,
        word_of_be(
            be_word(sample)[0],
            be_word(sample)[1],
            be_word(sample)[2],
            be_word(sample)[3],
        ) == sample,
{
    assert(((sample >> 24) as u8 as u32) << 24 | ((((sample >> 16) & 0xff) as u8) as u32) << 16 | ((((
    sample >> 8) & 0xff) as u8) as u32) << 8 | (((sample & 0xff) as u8) as u32) == sample)
        by (bit_vector);
}

/// A raw frame is read back as the samples it was written from.
pub proof fn lemma_frame_round_trip(samples: Seq<u32>)
    ensures
        frame_bytes(samples).len() == 4 * samples.len(),
        frame_samples(frame_bytes(samples)) == samples,
    decreases samples.len(),
{
    if samples.len() > 0 {
        let front = samples.drop_last();
        lemma_frame_round_trip(front);
        lemma_be_word(samples.last());
        let all = frame_bytes(samples);
        let read = frame_samples(all);
        assert forall|i: int| 0 <= i < samples.len() implies read[i] == samples[i] by {
            if i < front.len() {
                assert(frame_samples(frame_bytes(front))[i] == front[i]);
            }
        }
    }
}

/// Writes samples as a raw frame.
pub fn encode_frame(samples: &[u32]) -> (out: Vec<u8>)
    ensures
        out@ == frame_bytes(samples@),
        frame_samples(out@) == samples@,
{
    let mut out: Vec<u8> = Vec::new();
    let mut i: usize = 0;
    while i < samples.len()
        invariant
            i <= samples@.len(),
            out@ == frame_bytes(samples@.take(i as int)),
        decreases samples@.len() - i,
    {
        let sample: u32 = samples[i];
        out.push((sample >> 24) as u8);
        out.push(((sample >> 16) & 0xff) as u8);
        out.push(((sample >> 8) & 0xff) as u8);
        out.push((sample & 0xff) as u8);
        assert(samples@.take(i + 1).drop_last() =~= samples@.take(i as int));
        i = i + 1;
    }
    proof {
        assert(samples@.take(i as int) =~= samples@);
        lemma_frame_round_trip(samples@);
    }
    out
}

/// Reads a raw frame.  A frame that does not end on a sample is refused.
pub fn decode_frame(bytes: &[u8]) -> (r: Result<Vec<u32>, ProtocolError>)
    ensures
        match r {
            Ok(samples) => bytes@.len() % 4 == 0 && samples@ == frame_samples(bytes@),
            Err(e) => bytes@.len() % 4 != 0 && e == ProtocolError::Malformed,
        },
{
    if bytes.len() % 4 != 0 {
        return Err(ProtocolError::Malformed);
    }
    let count: usize = bytes.len() / 4;
    let mut samples: Vec<u32> = Vec::new();
    let mut i: usize = 0;
    while i < count
        invariant
            4 * count == bytes@.len() <= usize::MAX,
            i <= count,
            samples@ == frame_samples(bytes@).take(i as int),
        decreases count - i,
    {
        let b0: u8 = bytes[4 * i];
        let b1: u8 = bytes[4 * i + 1];
        let b2: u8 = bytes[4 * i + 2];
        let b3: u8 = bytes[4 * i + 3];
        let sample: u32 = (b0 as u32) << 24 | (b1 as u32) << 16 | (b2 as u32) << 8 | (b3 as u32);
        samples.push(sample);
        i = i + 1;
    }
    Ok(samples)
}

} // verus!
