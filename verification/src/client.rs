//! The capture end of a remote stream.
//!
//! A client is disconnected, or connected and alive, or connected and dead.
//! It never sends and never captures: it says what is to be sent, and is told
//! what became of it.  A send that failed makes the client dead, and only a
//! new connection makes it alive again.

use vstd::prelude::*;
use crate::device::{Device, DeviceError, StreamConfig, SupportedBufferSize, SupportedStreamConfig};
use vstd::utf8::encode_utf8;
use crate::wire::{
    encode,
    lemma_message_length,
    message_bytes,
    AliasedData,
    BinMessages,
    BinStreamAlias,
    BinStreamConfig,
    Message,
};

verus! {

/// The buffer size that is announced for a device that reports none.
pub const DEFAULT_BUFFER_SIZE: u32 = 4096;

/// The largest number of samples that one data message carries.
pub const FRAME_SAMPLES: usize = 128;

/// An operation that the state of the client or the server does not allow.
#[derive(Clone, Copy, Debug, PartialEq, Eq, Structural)]
pub enum StateError {
    /// The client has no connection.
    NotConnected,
    /// No connection goes by the alias or address.
    UnknownAlias,
}

/// Why the client refused an operation.
#[derive(Clone, Copy, Debug, PartialEq, Eq, Structural)]
pub enum ClientError {
    State(StateError),
    Device(DeviceError),
}

/// The buffer size that a client announces for a capture format: the
/// largest the device supports, or [`DEFAULT_BUFFER_SIZE`] when it says nothing.
pub open spec fn announced_buffer_size(buffer_size: SupportedBufferSize) -> u32 {
    match buffer_size {
        SupportedBufferSize::Range { min, max } => max,
        SupportedBufferSize::Unknown => DEFAULT_BUFFER_SIZE,
    }
}

/// The playback parameters that a client announces for a capture format.
pub open spec fn announced_config(config: SupportedStreamConfig) -> BinStreamConfig {
    BinStreamConfig {
        channels: config.channels,
        sample_rate: config.sample_rate,
        buffer_size: announced_buffer_size(config.buffer_size),
    }
}

/// The playback parameters that a client announces for a capture format.
pub fn announce(config: &SupportedStreamConfig) -> (announced: BinStreamConfig)
    ensures
        announced == announced_config(*config),
{
    let buffer_size: u32 = match config.buffer_size {
        SupportedBufferSize::Range { min, max } => max,
        SupportedBufferSize::Unknown => DEFAULT_BUFFER_SIZE,
    };
    BinStreamConfig { channels: config.channels, sample_rate: config.sample_rate, buffer_size }
}

/// The alias of a stream: the local address of its transport, a colon, and
/// the name of the client.
pub open spec fn alias_of_stream(local_addr: Seq<char>, name: Seq<char>) -> Seq<char> {
    local_addr + seq![':'] + name
}

/// `format!` with two texts and a colon between them.
#[verifier::external_body]
fn join_with_colon(left: &str, right: &str) -> (joined: String)
    ensures
        joined@ == alias_of_stream(left@, right@),
{
    format!("{}:{}", left, right)
}

/// The `index`-th run of at most `size` samples of `data`.
pub open spec fn chunk(data: Seq<u32>, size: nat, index: int) -> Seq<u32> {
    data.subrange(
        index * size,
        if (index + 1) * size <= data.len() {
            (index + 1) * size
        } else {
            data.len() as int
        },
    )
}

/// The number of runs of at most `size` samples that `data` falls into.
pub open spec fn chunk_count(data: Seq<u32>, size: nat) -> nat
    recommends
        size > 0,
{
    ((data.len() + size - 1) / size as int) as nat
}

/// The data messages for captured samples: the samples in runs of at most
/// [`FRAME_SAMPLES`], each run in a message of its own under `alias`.  A
/// message is at most 532 bytes and the alias long.
pub fn data_frames(alias: &str, data: &[u32]) -> (frames: Vec<Vec<u8>>)
    ensures
        frames@.len() == chunk_count(data@, FRAME_SAMPLES as nat),
        forall|i: int|
            0 <= i < frames@.len() ==> (#[trigger] frames@[i])@ == message_bytes(
                Message::Data { alias: alias@, samples: chunk(data@, FRAME_SAMPLES as nat, i) },
            ),
        forall|i: int|
            0 <= i < frames@.len() ==> (#[trigger] frames@[i])@.len() <= 20 + encode_utf8(
                alias@,
            ).len() + 4 * FRAME_SAMPLES,
{
    let mut frames: Vec<Vec<u8>> = Vec::new();
    let total: usize = data.len();
    let mut start: usize = 0;
    while start < total
        invariant
            total == data@.len(),
            start <= total,
            start % FRAME_SAMPLES == 0 || start == total,
            start < total ==> frames@.len() * FRAME_SAMPLES == start,
            start == total ==> frames@.len() == chunk_count(data@, FRAME_SAMPLES as nat),
            forall|i: int|
                0 <= i < frames@.len() ==> (#[trigger] frames@[i])@ == message_bytes(
                    Message::Data { alias: alias@, samples: chunk(data@, FRAME_SAMPLES as nat, i) },
                ),
            forall|i: int|
                0 <= i < frames@.len() ==> (#[trigger] frames@[i])@.len() <= 20 + encode_utf8(
                    alias@,
                ).len() + 4 * FRAME_SAMPLES,
        decreases total - start,
    {
        let end: usize = if total - start > FRAME_SAMPLES {
            start + FRAME_SAMPLES
        } else {
            total
        };
        let mut samples: Vec<u32> = Vec::new();
        let mut i: usize = start;
        while i < end
            invariant
                start <= i <= end <= total,
                total == data@.len(),
                samples@ == data@.subrange(start as int, i as int),
            decreases end - i,
        {
            samples.push(data[i]);
            i = i + 1;
        }
        let message = BinMessages::BinData(
            AliasedData { alias: BinStreamAlias { alias: alias.to_owned() }, data: samples },
        );
        proof {
            lemma_message_length(message@);
        }
        frames.push(encode(&message));
        start = end;
    }
    frames
}

/// What a client has of its transport while it is connected.
#[derive(Debug)]
pub struct Connection {
    /// The local address of the transport.
    pub local_addr: String,
    /// The address of the server.
    pub send_endpoint: String,
}

/// What is to be sent when a connection was opened, and how to capture.
pub struct Handshake {
    /// The alias under which the stream is announced.
    pub alias: String,
    /// The bytes of the message that announces the stream.
    pub hello: Vec<u8>,
    /// The bytes of the message that gives the playback parameters.
    pub config: Vec<u8>,
    /// The format to capture with.
    pub stream_config: StreamConfig,
}

/// The operations of the capture end.
pub trait SyncClient {
    /// The connection of the client, as the pair of its local address and
    /// the address of the server, if the client is connected.
    spec fn link(&self) -> Option<(Seq<char>, Seq<char>)>;

    /// Whether the client is connected and no send has failed.
    spec fn alive(&self) -> bool;

    /// The name the client was given.
    spec fn given_name(&self) -> Seq<char>;

    /// The device the client captures from.
    spec fn source(&self) -> Device;

    /// Records that a transport to `url` was opened at `local_addr`, and
    /// says what to send over it.  A device that does not capture is
    /// refused and changes nothing.
    fn connect(&mut self, url: &str, local_addr: &str) -> (r: Result<Handshake, ClientError>)
        ensures
            final(self).given_name() == old(self).given_name(),
            final(self).source() == old(self).source(),
            match old(self).source().spec_input() {
                Some(input) => {
                    &&& r matches Ok(shake)
                    &&& final(self).link() == Some((local_addr@, url@))
                    &&& final(self).alive()
                    &&& shake.alias@ == alias_of_stream(local_addr@, old(self).given_name())
                    &&& shake.hello@ == message_bytes(Message::Hello { alias: shake.alias@ })
                    &&& shake.config@ == message_bytes(
                        Message::Config { alias: shake.alias@, config: announced_config(input) },
                    )
                    &&& shake.stream_config == input.spec_config()
                },
                None => {
                    &&& r matches Err(e)
                    &&& e == ClientError::Device(DeviceError::NoInputConfig)
                    &&& final(self).link() == old(self).link()
                    &&& final(self).alive() == old(self).alive()
                },
            },
    ;

    /// Captures from another device from now on, over the same transport.
    /// The result is the format to capture with.  Without a connection, or
    /// with a device that does not capture, nothing changes.
    fn change_source_device(&mut self, new_device: Device) -> (r: Result<StreamConfig, ClientError>)
        ensures
            final(self).given_name() == old(self).given_name(),
            final(self).link() == old(self).link(),
            final(self).alive() == old(self).alive(),
            match (old(self).link(), new_device.spec_input()) {
                (None, _) => r == Err::<StreamConfig, ClientError>(
                    ClientError::State(StateError::NotConnected),
                ) && final(self).source() == old(self).source(),
                (Some(_), None) => r == Err::<StreamConfig, ClientError>(
                    ClientError::Device(DeviceError::NoInputConfig),
                ) && final(self).source() == old(self).source(),
                (Some(_), Some(input)) => r == Ok::<StreamConfig, ClientError>(input.spec_config())
                    && final(self).source() == new_device,
            },
    ;

    /// Whether the client is connected and no send has failed.
    fn is_alive(&mut self) -> (b: bool)
        ensures
            b == old(self).alive(),
            final(self).alive() == old(self).alive(),
            final(self).link() == old(self).link(),
            final(self).given_name() == old(self).given_name(),
            final(self).source() == old(self).source(),
    ;

    /// The alias of the stream while the client is connected, and the name
    /// of the client while it is not.
    fn name(&mut self) -> (name: String)
        ensures
            name@ == match old(self).link() {
                Some((local_addr, _)) => alias_of_stream(local_addr, old(self).given_name()),
                None => old(self).given_name(),
            },
            final(self).alive() == old(self).alive(),
            final(self).link() == old(self).link(),
            final(self).given_name() == old(self).given_name(),
            final(self).source() == old(self).source(),
    ;
}

/// The capture end of one remote stream.
#[derive(Debug)]
pub struct Client {
    name: String,
    is_alive: bool,
    connection: Option<Connection>,
    device: Device,
}

impl Client {
    #[verifier::type_invariant]
    spec fn alive_when_connected(&self) -> bool {
        self.is_alive ==> self.connection is Some
    }

    /// A client that is not connected.
    pub fn new(name: &str, device: Device) -> (client: Client)
        ensures
            client.given_name() == name@,
            client.source() == device,
            client.link() is None,
            !client.alive(),
    {
        Client { name: name.to_owned(), is_alive: false, connection: None, device }
    }

    /// Records that a send failed: the client is dead from now on.
    pub fn send_failed(&mut self)
        ensures
            !final(self).alive(),
            final(self).link() == old(self).link(),
            final(self).given_name() == old(self).given_name(),
            final(self).source() == old(self).source(),
    {
        self.is_alive = false;
    }

    /// Gives up the connection.
    pub fn disconnect(&mut self)
        ensures
            !final(self).alive(),
            final(self).link() is None,
            final(self).given_name() == old(self).given_name(),
            final(self).source() == old(self).source(),
    {
        self.is_alive = false;
        self.connection = None;
    }

    /// The device the client captures from.
    pub fn device(&self) -> (device: &Device)
        ensures
            *device == self.source(),
    {
        &self.device
    }
}

impl SyncClient for Client {
    closed spec fn link(&self) -> Option<(Seq<char>, Seq<char>)> {
        match self.connection {
            Some(connection) => Some((connection.local_addr@, connection.send_endpoint@)),
            None => None,
        }
    }

    closed spec fn alive(&self) -> bool {
        self.is_alive
    }

    closed spec fn given_name(&self) -> Seq<char> {
        self.name@
    }

    closed spec fn source(&self) -> Device {
        self.device
    }

    fn connect(&mut self, url: &str, local_addr: &str) -> (r: Result<Handshake, ClientError>) {
        let input = match self.device.default_input_config() {
            Ok(input) => input,
            Err(e) => {
                return Err(ClientError::Device(e));
            },
        };
        let alias: String = join_with_colon(local_addr, self.name.as_str());
        let hello = encode(&BinMessages::BinHello(BinStreamAlias { alias: alias.clone() }));
        let config = encode(
            &BinMessages::BinConfig(
                AliasedData { alias: BinStreamAlias { alias: alias.clone() }, data: announce(&input) },
            ),
        );
        self.connection = Some(
            Connection { local_addr: local_addr.to_owned(), send_endpoint: url.to_owned() },
        );
        self.is_alive = true;
        Ok(Handshake { alias, hello, config, stream_config: input.config() })
    }

    fn change_source_device(&mut self, new_device: Device) -> (r: Result<
        StreamConfig,
        ClientError,
    >) {
        if self.connection.is_none() {
            return Err(ClientError::State(StateError::NotConnected));
        }
        let input = match new_device.default_input_config() {
            Ok(input) => input,
            Err(e) => {
                return Err(ClientError::Device(e));
            },
        };
        self.device = new_device;
        Ok(input.config())
    }

    fn is_alive(&mut self) -> (b: bool) {
        self.is_alive
    }

    fn name(&mut self) -> (name: String) {
        match &self.connection {
            Some(connection) => join_with_colon(connection.local_addr.as_str(), self.name.as_str()),
            None => self.name.clone(),
        }
    }
}

} // verus!
