//! The playback end of remote streams.
//!
//! The server keeps one connection for each peer.  A peer is known by its
//! alias where many streams share one endpoint, and by the address of its
//! socket where each stream has a transport of its own.  A connection holds
//! the negotiated format, a jitter buffer and a liveness flag.  The flag
//! only ever goes from alive to dead; a dead connection leaves the table at
//! the next sweep, and a peer that comes again gets a new connection.
//!
//! The server never touches a socket or a device: it is told what arrived,
//! and says what is to be done with the output stream of the peer.

use vstd::prelude::*;
use crate::client::StateError;
use crate::device::{BufferSize, Device, DeviceError, StreamConfig, lemma_filter_step};
use crate::jitter::{recent_window, BatchBuffer};
use crate::ring::output_of;
use crate::wire::{
    alias_of,
    decode,
    decode_frame,
    frame_samples,
    parse_message,
    BinMessages,
    BinStreamConfig,
    Message,
    ProtocolError,
};

verus! {

/// The number of samples that a playback tick takes, unless told otherwise.
pub const BATCH_SIZE: usize = 512;

/// The number of samples that a jitter buffer keeps, unless told otherwise.
pub const BUFFER_CAPACITY: usize = 2048;

/// Why the server refused what arrived, or what was asked of it.
#[derive(Clone, Copy, Debug, PartialEq, Eq, Structural)]
pub enum ServerError {
    Protocol(ProtocolError),
    State(StateError),
    Device(DeviceError),
}

/// What is to be done with the output stream of a peer.
#[derive(Clone, Copy, Debug, PartialEq, Eq, Structural)]
pub enum Action {
    /// Build the stream anew with this format, in place of the one the peer had.
    Rebuild(StreamConfig),
    /// Nothing: samples were put into the jitter buffer.
    Buffered,
}

/// A peer, as the server names it to its callers.
#[derive(Clone, Debug, PartialEq, Eq)]
pub struct Client {
    pub url: String,
}

/// What became of a message: the peer it was from, and what is to be done.
#[derive(Debug)]
pub struct Handled {
    pub client: Client,
    pub action: Action,
}

/// The format that announced playback parameters ask for.
pub open spec fn stream_config(config: BinStreamConfig) -> StreamConfig {
    StreamConfig {
        channels: config.channels,
        sample_rate: config.sample_rate,
        buffer_size: BufferSize::Fixed(config.buffer_size),
    }
}

/// The format that announced playback parameters ask for.
pub fn to_stream_config(config: &BinStreamConfig) -> (c: StreamConfig)
    ensures
        c == stream_config(*config),
{
    StreamConfig {
        channels: config.channels,
        sample_rate: config.sample_rate,
        buffer_size: BufferSize::Fixed(config.buffer_size),
    }
}

/// A connection as a mathematical value.
pub struct Peer {
    /// The alias or address that the peer is known by.
    pub url: Seq<char>,
    /// The device that plays the stream.
    pub device: Device,
    /// The negotiated format.
    pub config: StreamConfig,
    /// The samples in the jitter buffer, oldest first.
    pub queue: Seq<u32>,
    /// The number of samples that a playback tick takes.
    pub batch: nat,
    /// The number of samples that the jitter buffer keeps at most.
    pub limit: nat,
    /// Whether the transport of the peer is still usable.
    pub alive: bool,
}

/// The connection that a peer gets when it comes: alive, with nothing buffered.
pub open spec fn fresh_peer(
    url: Seq<char>,
    device: Device,
    config: StreamConfig,
    batch: nat,
    limit: nat,
) -> Peer {
    Peer { url, device, config, queue: Seq::empty(), batch, limit, alive: true }
}

/// No two connections are known by the same alias or address.
pub open spec fn distinct_urls(peers: Seq<Peer>) -> bool {
    forall|i: int, j: int|
        0 <= i < peers.len() && 0 <= j < peers.len() && i != j ==> peers[i].url != peers[j].url
}

/// The place of the first connection known by `url`; the number of
/// connections when there is none.
pub open spec fn seat(peers: Seq<Peer>, url: Seq<char>) -> int
    decreases peers.len(),
{
    if peers.len() == 0 {
        0
    } else if peers[0].url == url {
        0
    } else {
        1 + seat(peers.drop_first(), url)
    }
}

/// Some connection is known by `url`.
pub open spec fn knows(peers: Seq<Peer>, url: Seq<char>) -> bool {
    seat(peers, url) < peers.len()
}

/// The connections without the one known by `url`.
pub open spec fn without(peers: Seq<Peer>, url: Seq<char>) -> Seq<Peer> {
    if knows(peers, url) {
        peers.remove(seat(peers, url))
    } else {
        peers
    }
}

/// The connections after a peer came: what it had before is discarded, and
/// its new connection is the last of the table.
pub open spec fn opened(peers: Seq<Peer>, peer: Peer) -> Seq<Peer> {
    without(peers, peer.url).push(peer)
}

/// The connections after samples arrived for `url`: they are appended to
/// its jitter buffer, which then drops its oldest samples beyond the limit.
pub open spec fn fed(peers: Seq<Peer>, url: Seq<char>, samples: Seq<u32>) -> Seq<Peer> {
    peers.map_values(
        |p: Peer|
            if p.url == url {
                Peer { queue: recent_window(p.queue + samples, p.limit), ..p }
            } else {
                p
            },
    )
}

/// The connections after `url` announced new playback parameters: its
/// format is the new one and its jitter buffer is empty.
pub open spec fn reconfigured(peers: Seq<Peer>, url: Seq<char>, config: StreamConfig) -> Seq<Peer> {
    peers.map_values(
        |p: Peer|
            if p.url == url {
                Peer { config, queue: Seq::empty(), ..p }
            } else {
                p
            },
    )
}

/// The connections after the transport of `url` was found unusable.
pub open spec fn marked_dead(peers: Seq<Peer>, url: Seq<char>) -> Seq<Peer> {
    peers.map_values(
        |p: Peer|
            if p.url == url {
                Peer { alive: false, ..p }
            } else {
                p
            },
    )
}

/// The connections after every stream was bound to another device.
pub open spec fn rebound(peers: Seq<Peer>, device: Device) -> Seq<Peer> {
    peers.map_values(|p: Peer| Peer { device, ..p })
}

/// The connections that a sweep leaves: those that are alive, in order.
pub open spec fn swept(peers: Seq<Peer>) -> Seq<Peer> {
    peers.filter(|p: Peer| p.alive)
}

/// The connections that a sweep removes: those that are dead, in order.
pub open spec fn reaped(peers: Seq<Peer>) -> Seq<Peer> {
    peers.filter(|p: Peer| !p.alive)
}

/// The connections after a playback tick for `url`: one batch left its
/// jitter buffer if a whole batch was waiting.
pub open spec fn ticked(peers: Seq<Peer>, url: Seq<char>) -> Seq<Peer> {
    peers.map_values(
        |p: Peer|
            if p.url == url && p.batch > 0 && p.queue.len() >= p.batch {
                Peer { queue: p.queue.skip(p.batch as int), ..p }
            } else {
                p
            },
    )
}

/// Those of `streams` that no connection goes by, in order.
pub open spec fn orphaned(peers: Seq<Peer>, streams: Seq<Seq<char>>) -> Seq<Seq<char>> {
    streams.filter(|url: Seq<char>| !knows(peers, url))
}

/// The aliases or addresses of the connections, in order.
pub open spec fn urls(peers: Seq<Peer>) -> Seq<Seq<char>> {
    peers.map_values(|p: Peer| p.url)
}

/// `seat` is the first place at which a connection is known by `url`.
pub proof fn lemma_seat(peers: Seq<Peer>, url: Seq<char>)
    ensures
        0 <= seat(peers, url) <= peers.len(),
        seat(peers, url) < peers.len() ==> peers[seat(peers, url)].url == url,
        forall|j: int| 0 <= j < seat(peers, url) ==> peers[j].url != url,
    decreases peers.len(),
{
    if peers.len() > 0 && peers[0].url != url {
        let rest = peers.drop_first();
        lemma_seat(rest, url);
        assert forall|j: int| 0 <= j < seat(peers, url) implies peers[j].url != url by {
            if j > 0 {
                assert(rest[j - 1] == peers[j]);
            }
        }
    }
}

/// A place before which no connection is known by `url`, and at which one
/// is unless it is the end, is `seat`.
pub proof fn lemma_seat_is(peers: Seq<Peer>, url: Seq<char>, i: int)
    requires
        0 <= i <= peers.len(),
        i < peers.len() ==> peers[i].url == url,
        forall|j: int| 0 <= j < i ==> peers[j].url != url,
    ensures
        seat(peers, url) == i,
{
    lemma_seat(peers, url);
    let p = seat(peers, url);
    if p < i {
        assert(peers[p].url != url);
    } else if p > i {
        assert(peers[i].url != url);
    }
}

/// A table that changes no alias has its connections at the same seats.
pub proof fn lemma_seat_by_urls(before: Seq<Peer>, after: Seq<Peer>, url: Seq<char>)
    requires
        urls(before) == urls(after),
    ensures
        seat(after, url) == seat(before, url),
        knows(after, url) == knows(before, url),
        distinct_urls(before) ==> distinct_urls(after),
{
    assert(before.len() == urls(before).len());
    assert forall|i: int| 0 <= i < before.len() implies before[i].url == after[i].url by {
        assert(urls(before)[i] == before[i].url);
    }
    lemma_seat(before, url);
    lemma_seat_is(after, url, seat(before, url));
}

/// Removing the connection of a peer leaves no connection known by its
/// alias, keeps every other connection as it is, and keeps the aliases apart.
pub proof fn lemma_without(peers: Seq<Peer>, url: Seq<char>)
    requires
        distinct_urls(peers),
    ensures
        distinct_urls(without(peers, url)),
        !knows(without(peers, url), url),
        forall|i: int|
            0 <= i < without(peers, url).len() ==> (#[trigger] without(peers, url)[i]).url != url,
        forall|p: Peer| p.url != url ==> (without(peers, url).contains(p) <==> peers.contains(p)),
{
    let after = without(peers, url);
    let at = seat(peers, url);
    lemma_seat(peers, url);
    assert forall|i: int| 0 <= i < after.len() implies (#[trigger] after[i]).url != url by {
        if at < peers.len() {
            if i < at {
                assert(after[i] == peers[i]);
            } else {
                assert(after[i] == peers[i + 1]);
                assert(peers[i + 1].url != peers[at].url);
            }
        }
    }
    lemma_seat_is(after, url, after.len() as int);
    assert forall|i: int, j: int|
        0 <= i < after.len() && 0 <= j < after.len() && i != j implies after[i].url
        != after[j].url by {
        if at < peers.len() {
            let a = if i < at {
                i
            } else {
                i + 1
            };
            let b = if j < at {
                j
            } else {
                j + 1
            };
            assert(after[i] == peers[a]);
            assert(after[j] == peers[b]);
        }
    }
    assert forall|p: Peer| p.url != url implies (after.contains(p) <==> peers.contains(p)) by {
        if at < peers.len() {
            if after.contains(p) {
                let i = choose|i: int| 0 <= i < after.len() && after[i] == p;
                let a = if i < at {
                    i
                } else {
                    i + 1
                };
                assert(peers[a] == p);
            }
            if peers.contains(p) {
                let a = choose|a: int| 0 <= a < peers.len() && peers[a] == p;
                let i = if a < at {
                    a
                } else {
                    a - 1
                };
                assert(after[i] == p);
            }
        }
    }
}

/// After a peer came, its connection is the new one, every other
/// connection is as it was, and the aliases are apart.
pub proof fn lemma_opened(peers: Seq<Peer>, peer: Peer)
    requires
        distinct_urls(peers),
    ensures
        distinct_urls(opened(peers, peer)),
        knows(opened(peers, peer), peer.url),
        opened(peers, peer)[seat(opened(peers, peer), peer.url)] == peer,
        forall|p: Peer|
            p.url != peer.url ==> (opened(peers, peer).contains(p) <==> peers.contains(p)),
{
    let rest = without(peers, peer.url);
    let after = opened(peers, peer);
    lemma_without(peers, peer.url);
    lemma_seat_is(after, peer.url, rest.len() as int);
    assert forall|p: Peer| p.url != peer.url implies (after.contains(p) <==> peers.contains(p)) by {
        if after.contains(p) {
            let i = choose|i: int| 0 <= i < after.len() && after[i] == p;
            assert(rest[i] == p);
        }
        if rest.contains(p) {
            let i = choose|i: int| 0 <= i < rest.len() && rest[i] == p;
            assert(after[i] == p);
        }
    }
}

/// Alias isolation: samples for one alias change the jitter buffer of that
/// alias, and nothing of any other connection.
pub proof fn lemma_fed_isolated(peers: Seq<Peer>, url: Seq<char>, samples: Seq<u32>)
    ensures
        fed(peers, url, samples).len() == peers.len(),
        urls(fed(peers, url, samples)) == urls(peers),
        forall|i: int|
            0 <= i < peers.len() && peers[i].url != url ==> #[trigger] fed(peers, url, samples)[i]
                == peers[i],
        forall|i: int|
            0 <= i < peers.len() && peers[i].url == url ==> #[trigger] fed(peers, url, samples)[i]
                == (Peer {
                queue: recent_window(peers[i].queue + samples, peers[i].limit),
                ..peers[i]
            }),
{
}

/// Alias isolation, from the start of a stream: after one alias announced
/// itself and sent samples, every connection of another alias is in the
/// table exactly when it was before, and unchanged.
pub proof fn lemma_hello_data_isolated(
    peers: Seq<Peer>,
    peer: Peer,
    samples: Seq<u32>,
    other: Peer,
)
    requires
        distinct_urls(peers),
        other.url != peer.url,
    ensures
        fed(opened(peers, peer), peer.url, samples).contains(other) <==> peers.contains(other),
{
    let table = opened(peers, peer);
    let after = fed(table, peer.url, samples);
    lemma_opened(peers, peer);
    lemma_fed_isolated(table, peer.url, samples);
    if after.contains(other) {
        let i = choose|i: int| 0 <= i < after.len() && after[i] == other;
        assert(urls(after)[i] == urls(table)[i]);
        assert(table[i].url == other.url);
        assert(after[i] == table[i]);
        assert(table.contains(other));
    }
    if table.contains(other) {
        let i = choose|i: int| 0 <= i < table.len() && table[i] == other;
        assert(after[i] == other);
    }
}

/// A sweep keeps the aliases apart.
pub proof fn lemma_swept_distinct(peers: Seq<Peer>)
    requires
        distinct_urls(peers),
    ensures
        distinct_urls(swept(peers)),
    decreases peers.len(),
{
    reveal(Seq::filter);
    if peers.len() > 0 {
        let front = peers.drop_last();
        assert forall|i: int, j: int|
            0 <= i < front.len() && 0 <= j < front.len() && i != j implies front[i].url
            != front[j].url by {
            assert(front[i] == peers[i] && front[j] == peers[j]);
        }
        lemma_swept_distinct(front);
        if peers.last().alive {
            let kept = swept(front);
            assert forall|i: int| 0 <= i < kept.len() implies kept[i].url != peers.last().url by {
                front.lemma_filter_contains_rev(|p: Peer| p.alive, kept[i]);
                let k = choose|k: int| 0 <= k < front.len() && front[k] == kept[i];
                assert(peers[k] == kept[i]);
                assert(peers[k].url != peers[peers.len() - 1].url);
            }
        }
    }
}

/// Liveness: a connection that was found dead stays in the table, dead,
/// until the next sweep, and the sweep removes it and no connection that
/// is alive.
pub proof fn lemma_dead_until_swept(peers: Seq<Peer>, url: Seq<char>)
    ensures
        urls(marked_dead(peers, url)) == urls(peers),
        knows(marked_dead(peers, url), url) == knows(peers, url),
        forall|i: int|
            0 <= i < peers.len() && peers[i].url == url ==> !(#[trigger] marked_dead(
                peers,
                url,
            )[i]).alive,
        forall|i: int|
            0 <= i < peers.len() && peers[i].url != url ==> #[trigger] marked_dead(peers, url)[i]
                == peers[i],
        !knows(swept(marked_dead(peers, url)), url),
        forall|p: Peer|
            p.alive && p.url != url && peers.contains(p) ==> swept(marked_dead(peers, url)).contains(
                p,
            ),
{
    let dead = marked_dead(peers, url);
    let left = swept(dead);
    assert(urls(dead) =~= urls(peers));
    lemma_seat_by_urls(peers, dead, url);
    assert forall|i: int| 0 <= i < left.len() implies left[i].url != url by {
        dead.lemma_filter_pred(|p: Peer| p.alive, i);
        dead.lemma_filter_contains_rev(|p: Peer| p.alive, left[i]);
        let k = choose|k: int| 0 <= k < dead.len() && dead[k] == left[i];
        if peers[k].url == url {
            assert(!dead[k].alive);
        }
    }
    lemma_seat_is(left, url, left.len() as int);
    assert forall|p: Peer| p.alive && p.url != url && peers.contains(p) implies left.contains(
        p,
    ) by {
        let k = choose|k: int| 0 <= k < peers.len() && peers[k] == p;
        assert(dead[k] == p);
        dead.lemma_filter_contains(|p: Peer| p.alive, k);
    }
}

/// The state of one peer.
#[derive(Debug)]
pub struct Connection {
    client: Client,
    output_device: Device,
    buffer: BatchBuffer<u32>,
    config: StreamConfig,
    is_alive: bool,
}

impl Connection {
    /// The connection as a mathematical value.
    pub closed spec fn view(&self) -> Peer {
        Peer {
            url: self.client.url@,
            device: self.output_device,
            config: self.config,
            queue: self.buffer@,
            batch: self.buffer.batch_len(),
            limit: self.buffer.limit(),
            alive: self.is_alive,
        }
    }

    /// The connection of a peer that has just come.
    pub fn new(
        url: &str,
        output_device: Device,
        config: StreamConfig,
        batch_size: usize,
        capacity: usize,
    ) -> (c: Connection)
        ensures
            c@ == fresh_peer(url@, output_device, config, batch_size as nat, capacity as nat),
    {
        Connection {
            client: Client { url: url.to_owned() },
            output_device,
            buffer: BatchBuffer::with_capacity(batch_size, capacity),
            config,
            is_alive: true,
        }
    }

    /// The peer of the connection.
    pub fn client(&self) -> (client: &Client)
        ensures
            client.url@ == self@.url,
    {
        &self.client
    }

    /// The device that plays the stream.
    pub fn output_device(&self) -> (device: &Device)
        ensures
            *device == self@.device,
    {
        &self.output_device
    }

    /// The negotiated format.
    pub fn config(&self) -> (config: StreamConfig)
        ensures
            config == self@.config,
    {
        self.config
    }

    /// Whether the transport of the peer is still usable.
    pub fn is_alive(&self) -> (alive: bool)
        ensures
            alive == self@.alive,
    {
        self.is_alive
    }

    /// The samples in the jitter buffer, oldest first.
    pub fn buffered(&self) -> (samples: &[u32])
        ensures
            samples@ == self@.queue,
            samples@.len() <= self@.limit,
    {
        self.buffer.as_slice()
    }
}

/// The connections that a table holds.
pub open spec fn peers_of(table: Seq<Connection>) -> Seq<Peer> {
    table.map_values(|c: Connection| c@)
}

/// The aliases or addresses of a list of peers.
pub open spec fn client_urls(clients: Seq<Client>) -> Seq<Seq<char>> {
    clients.map_values(|c: Client| c.url@)
}

/// The texts of a list of strings.
pub open spec fn texts(strings: Seq<String>) -> Seq<Seq<char>> {
    strings.map_values(|s: String| s@)
}

/// The place of the connection known by `url` in a table, or the length of the table.
fn find_peer(table: &Vec<Connection>, url: &str) -> (i: usize)
    ensures
        i == seat(peers_of(table@), url@),
        i <= table@.len(),
{
    let mut i: usize = 0;
    while i < table.len()
        invariant
            i <= table@.len(),
            forall|j: int| 0 <= j < i ==> peers_of(table@)[j].url != url@,
        decreases table@.len() - i,
    {
        if crate::device::str_eq(table[i].client.url.as_str(), url) {
            proof {
                lemma_seat_is(peers_of(table@), url@, i as int);
            }
            return i;
        }
        i = i + 1;
    }
    proof {
        lemma_seat_is(peers_of(table@), url@, i as int);
    }
    i
}

/// The table of connections, and the device that new connections play on.
pub struct Server {
    connections: Vec<Connection>,
    device: Device,
    batch_size: usize,
    capacity: usize,
}

/// What a message does to the connections of a server that shares one
/// endpoint among its peers, and what is to be done then.
pub open spec fn after_message(
    peers: Seq<Peer>,
    device: Device,
    batch: nat,
    limit: nat,
    m: Message,
) -> Result<(Seq<Peer>, Action), ServerError> {
    match m {
        Message::Hello { alias } => match device.spec_output() {
            Some(output) => Ok(
                (
                    opened(peers, fresh_peer(alias, device, output.spec_config(), batch, limit)),
                    Action::Rebuild(output.spec_config()),
                ),
            ),
            None => Err(ServerError::Device(DeviceError::NoOutputConfig)),
        },
        Message::Config { alias, config } => Ok(
            (
                opened(peers, fresh_peer(alias, device, stream_config(config), batch, limit)),
                Action::Rebuild(stream_config(config)),
            ),
        ),
        Message::Data { alias, samples } => if knows(peers, alias) {
            Ok((fed(peers, alias, samples), Action::Buffered))
        } else {
            Err(ServerError::State(StateError::UnknownAlias))
        },
    }
}

/// What the first message of a peer with a transport of its own does to
/// the connections: it has to give the playback parameters.
pub open spec fn after_first(
    peers: Seq<Peer>,
    device: Device,
    batch: nat,
    limit: nat,
    address: Seq<char>,
    first: Option<Message>,
) -> Result<(Seq<Peer>, Action), ServerError> {
    match first {
        Some(Message::Config { config, .. }) => Ok(
            (
                opened(peers, fresh_peer(address, device, stream_config(config), batch, limit)),
                Action::Rebuild(stream_config(config)),
            ),
        ),
        Some(_) => Err(ServerError::Protocol(ProtocolError::Unexpected)),
        None => Err(ServerError::Protocol(ProtocolError::Malformed)),
    }
}

/// What a later message of a peer with a transport of its own does to the
/// connections.  Samples are buffered, playback parameters empty the
/// buffer and ask for a new stream, and anything else is a violation that
/// leaves the connection dead.
pub open spec fn after_later(peers: Seq<Peer>, address: Seq<char>, later: Option<Message>) -> (
    Seq<Peer>,
    Result<Action, ServerError>,
) {
    if !knows(peers, address) {
        (peers, Err(ServerError::State(StateError::UnknownAlias)))
    } else {
        match later {
            Some(Message::Data { samples, .. }) => (
                fed(peers, address, samples),
                Ok(Action::Buffered),
            ),
            Some(Message::Config { config, .. }) => (
                reconfigured(peers, address, stream_config(config)),
                Ok(Action::Rebuild(stream_config(config))),
            ),
            Some(Message::Hello { .. }) => (
                marked_dead(peers, address),
                Err(ServerError::Protocol(ProtocolError::Unexpected)),
            ),
            None => (
                marked_dead(peers, address),
                Err(ServerError::Protocol(ProtocolError::Malformed)),
            ),
        }
    }
}

impl Server {
    #[verifier::type_invariant]
    spec fn one_connection_each(&self) -> bool {
        distinct_urls(peers_of(self.connections@))
    }

    /// The connections, in the order in which their peers came.
    pub closed spec fn view(&self) -> Seq<Peer> {
        peers_of(self.connections@)
    }

    /// The device that new connections play on.
    pub closed spec fn output(&self) -> Device {
        self.device
    }

    /// The number of samples that a playback tick of a new connection takes.
    pub closed spec fn batch(&self) -> nat {
        self.batch_size as nat
    }

    /// The number of samples that the jitter buffer of a new connection keeps.
    pub closed spec fn limit(&self) -> nat {
        self.capacity as nat
    }

    /// Everything but the connections is as it was.
    pub open spec fn same_settings(&self, other: &Server) -> bool {
        &&& self.output() == other.output()
        &&& self.batch() == other.batch()
        &&& self.limit() == other.limit()
    }

    /// A server without connections that plays on `device`, with jitter
    /// buffers of [`BATCH_SIZE`] and [`BUFFER_CAPACITY`].
    pub fn new(device: Device) -> (server: Server)
        ensures
            server@ == Seq::<Peer>::empty(),
            server.output() == device,
            server.batch() == BATCH_SIZE,
            server.limit() == BUFFER_CAPACITY,
    {
        Server::with_buffers(device, BATCH_SIZE, BUFFER_CAPACITY)
    }

    /// A server without connections that plays on `device`.
    pub fn with_buffers(device: Device, batch_size: usize, capacity: usize) -> (server: Server)
        ensures
            server@ == Seq::<Peer>::empty(),
            server.output() == device,
            server.batch() == batch_size,
            server.limit() == capacity,
    {
        let connections: Vec<Connection> = Vec::new();
        Server { connections, device, batch_size, capacity }
    }

    /// The connections, in the order in which their peers came.
    pub fn connections(&self) -> (table: &Vec<Connection>)
        ensures
            peers_of(table@) == self@,
            distinct_urls(self@),
    {
        proof {
            use_type_invariant(self);
        }
        &self.connections
    }

    /// The connection known by `url`, if there is one.
    pub fn connection(&self, url: &str) -> (c: Option<&Connection>)
        ensures
            match c {
                Some(connection) => knows(self@, url@) && connection@ == self@[seat(self@, url@)],
                None => !knows(self@, url@),
            },
    {
        let at: usize = find_peer(&self.connections, url);
        if at < self.connections.len() {
            Some(&self.connections[at])
        } else {
            None
        }
    }

    /// The peers, in the order in which they came.
    pub fn list_clients(&self) -> (clients: Vec<Client>)
        ensures
            client_urls(clients@) == urls(self@),
    {
        let mut clients: Vec<Client> = Vec::new();
        let mut i: usize = 0;
        while i < self.connections.len()
            invariant
                i <= self.connections@.len(),
                clients@.len() == i,
                client_urls(clients@) == urls(peers_of(self.connections@)).take(i as int),
            decreases self.connections@.len() - i,
        {
            let ghost before = clients@;
            let url: String = self.connections[i].client.url.clone();
            clients.push(Client { url });
            proof {
                let all = urls(peers_of(self.connections@));
                assert forall|k: int| 0 <= k < i implies client_urls(clients@)[k] == all[k] by {
                    assert(client_urls(before)[k] == all.take(i as int)[k]);
                }
            }
            i = i + 1;
        }
        assert(urls(peers_of(self.connections@)).take(i as int) =~= urls(
            peers_of(self.connections@),
        ));
        clients
    }

    /// Puts the connection of a peer that has just come into the table, in
    /// place of what the peer had.
    pub fn open(&mut self, url: &str, config: StreamConfig)
        ensures
            final(self).same_settings(old(self)),
            distinct_urls(final(self)@),
            final(self)@ == opened(
                old(self)@,
                fresh_peer(url@, old(self).output(), config, old(self).batch(), old(self).limit()),
            ),
    {
        proof {
            use_type_invariant(&*self);
        }
        let connection = Connection::new(
            url,
            self.device.clone(),
            config,
            self.batch_size,
            self.capacity,
        );
        let at: usize = find_peer(&self.connections, url);
        let ghost before = self.connections@;
        let mut table: Vec<Connection> = Vec::new();
        core::mem::swap(&mut self.connections, &mut table);
        if at < table.len() {
            let _ = table.remove(at);
        }
        table.push(connection);
        proof {
            assert(peers_of(table@) =~= opened(peers_of(before), connection@));
            lemma_opened(peers_of(before), connection@);
        }
        core::mem::swap(&mut self.connections, &mut table);
    }

    /// Appends samples to the jitter buffer of the connection at `at`.
    fn feed(&mut self, at: usize, url: &str, samples: &[u32])
        requires
            at == seat(old(self)@, url@),
            knows(old(self)@, url@),
        ensures
            final(self).same_settings(old(self)),
            final(self)@ == fed(old(self)@, url@, samples@),
    {
        proof {
            use_type_invariant(&*self);
            lemma_seat(self@, url@);
        }
        let ghost before = self.connections@;
        let mut table: Vec<Connection> = Vec::new();
        core::mem::swap(&mut self.connections, &mut table);
        table[at].buffer.extend(samples);
        proof {
            let after = peers_of(table@);
            assert(after =~= fed(peers_of(before), url@, samples@));
            lemma_fed_isolated(peers_of(before), url@, samples@);
            lemma_seat_by_urls(peers_of(before), after, url@);
        }
        core::mem::swap(&mut self.connections, &mut table);
    }

    /// Takes a message from an endpoint that all peers share, and says
    /// what is to be done for the peer it is from.
    ///
    /// A hello or playback parameters give the alias a new connection, in
    /// place of what it had.  Samples go to the jitter buffer of the
    /// alias, which has to be known.  What is refused changes nothing.
    pub fn handle(&mut self, bytes: &[u8]) -> (r: Result<Handled, ServerError>)
        ensures
            final(self).same_settings(old(self)),
            distinct_urls(final(self)@),
            match parse_message(bytes@) {
                None => r matches Err(e) && e == ServerError::Protocol(ProtocolError::Malformed)
                    && final(self)@ == old(self)@,
                Some(m) => match after_message(
                    old(self)@,
                    old(self).output(),
                    old(self).batch(),
                    old(self).limit(),
                    m,
                ) {
                    Ok((peers, action)) => {
                        &&& r matches Ok(handled)
                        &&& handled.client.url@ == m.alias()
                        &&& handled.action == action
                        &&& final(self)@ == peers
                    },
                    Err(e) => r matches Err(f) && f == e && final(self)@ == old(self)@,
                },
            },
    {
        proof {
            use_type_invariant(&*self);
        }
        let message = match decode(bytes) {
            Ok(message) => message,
            Err(e) => {
                return Err(ServerError::Protocol(e));
            },
        };
        let client = Client { url: alias_of(&message).to_owned() };
        match message {
            BinMessages::BinHello(_) => {
                let output = match self.device.default_output_config() {
                    Ok(output) => output,
                    Err(e) => {
                        return Err(ServerError::Device(e));
                    },
                };
                self.open(client.url.as_str(), output.config());
                Ok(Handled { client, action: Action::Rebuild(output.config()) })
            },
            BinMessages::BinConfig(config) => {
                let format = to_stream_config(&config.data);
                self.open(client.url.as_str(), format);
                Ok(Handled { client, action: Action::Rebuild(format) })
            },
            BinMessages::BinData(data) => {
                let at: usize = find_peer(&self.connections, client.url.as_str());
                if at == self.connections.len() {
                    return Err(ServerError::State(StateError::UnknownAlias));
                }
                self.feed(at, client.url.as_str(), data.data.as_slice());
                proof {
                    lemma_fed_isolated(old(self)@, client.url@, data.data@);
                    lemma_seat_by_urls(old(self)@, self@, client.url@);
                }
                Ok(Handled { client, action: Action::Buffered })
            },
        }
    }

    /// Records that the transport of `url` was found unusable.  The
    /// connection stays in the table until the next sweep.
    pub fn mark_dead(&mut self, url: &str) -> (known: bool)
        ensures
            final(self).same_settings(old(self)),
            distinct_urls(final(self)@),
            known == knows(old(self)@, url@),
            final(self)@ == marked_dead(old(self)@, url@),
    {
        proof {
            use_type_invariant(&*self);
            lemma_seat(self@, url@);
        }
        let at: usize = find_peer(&self.connections, url);
        let ghost before = self.connections@;
        if at == self.connections.len() {
            return false;
        }
        let mut table: Vec<Connection> = Vec::new();
        core::mem::swap(&mut self.connections, &mut table);
        table[at].is_alive = false;
        proof {
            let after = peers_of(table@);
            assert(after =~= marked_dead(peers_of(before), url@));
            lemma_dead_until_swept(peers_of(before), url@);
            lemma_seat_by_urls(peers_of(before), after, url@);
        }
        core::mem::swap(&mut self.connections, &mut table);
        true
    }

    /// Gives the connection at `at` a new format and an empty jitter buffer.
    fn reconfigure(&mut self, at: usize, url: &str, config: StreamConfig)
        requires
            at == seat(old(self)@, url@),
            knows(old(self)@, url@),
        ensures
            final(self).same_settings(old(self)),
            distinct_urls(final(self)@),
            final(self)@ == reconfigured(old(self)@, url@, config),
    {
        proof {
            use_type_invariant(&*self);
            lemma_seat(self@, url@);
        }
        let ghost before = self.connections@;
        let mut table: Vec<Connection> = Vec::new();
        core::mem::swap(&mut self.connections, &mut table);
        let batch_size: usize = table[at].buffer.batch_size();
        let capacity: usize = table[at].buffer.capacity();
        table[at].config = config;
        table[at].buffer = BatchBuffer::with_capacity(batch_size, capacity);
        proof {
            let after = peers_of(table@);
            assert(urls(after) =~= urls(peers_of(before)));
            lemma_seat_by_urls(peers_of(before), after, url@);
        }
        core::mem::swap(&mut self.connections, &mut table);
    }

    /// Takes the first message of a peer whose transport, at `address`,
    /// carries one stream.  The message has to give the playback
    /// parameters; the peer then gets a new connection, in place of what the
    /// address had.  Anything else is refused and changes nothing.
    pub fn accept(&mut self, address: &str, first_message: &[u8]) -> (r: Result<Action, ServerError>)
        ensures
            final(self).same_settings(old(self)),
            distinct_urls(final(self)@),
            match after_first(
                old(self)@,
                old(self).output(),
                old(self).batch(),
                old(self).limit(),
                address@,
                parse_message(first_message@),
            ) {
                Ok((peers, action)) => r == Ok::<Action, ServerError>(action) && final(self)@
                    == peers,
                Err(e) => r == Err::<Action, ServerError>(e) && final(self)@ == old(self)@,
            },
    {
        proof {
            use_type_invariant(&*self);
        }
        match decode(first_message) {
            Ok(BinMessages::BinConfig(config)) => {
                let format = to_stream_config(&config.data);
                self.open(address, format);
                Ok(Action::Rebuild(format))
            },
            Ok(_) => Err(ServerError::Protocol(ProtocolError::Unexpected)),
            Err(e) => Err(ServerError::Protocol(e)),
        }
    }

    /// Takes a later message of the peer at `address`.  Samples go to its
    /// jitter buffer; playback parameters empty the buffer and ask for a
    /// new stream.  Bytes that are no message, and a message that is not
    /// expected, leave the connection dead.
    pub fn receive(&mut self, address: &str, bytes: &[u8]) -> (r: Result<Action, ServerError>)
        ensures
            final(self).same_settings(old(self)),
            distinct_urls(final(self)@),
            final(self)@ == after_later(old(self)@, address@, parse_message(bytes@)).0,
            r == after_later(old(self)@, address@, parse_message(bytes@)).1,
    {
        proof {
            use_type_invariant(&*self);
        }
        let at: usize = find_peer(&self.connections, address);
        if at == self.connections.len() {
            return Err(ServerError::State(StateError::UnknownAlias));
        }
        match decode(bytes) {
            Ok(BinMessages::BinData(data)) => {
                self.feed(at, address, data.data.as_slice());
                proof {
                    lemma_fed_isolated(old(self)@, address@, data.data@);
                    lemma_seat_by_urls(old(self)@, self@, address@);
                }
                Ok(Action::Buffered)
            },
            Ok(BinMessages::BinConfig(config)) => {
                let format = to_stream_config(&config.data);
                self.reconfigure(at, address, format);
                Ok(Action::Rebuild(format))
            },
            Ok(BinMessages::BinHello(_)) => {
                let _ = self.mark_dead(address);
                Err(ServerError::Protocol(ProtocolError::Unexpected))
            },
            Err(e) => {
                let _ = self.mark_dead(address);
                Err(ServerError::Protocol(e))
            },
        }
    }

    /// Takes a raw frame of the peer at `address`: samples one after
    /// another, with no envelope.  A frame that does not end on a sample
    /// leaves the connection dead.
    pub fn receive_frame(&mut self, address: &str, bytes: &[u8]) -> (r: Result<Action, ServerError>)
        ensures
            final(self).same_settings(old(self)),
            distinct_urls(final(self)@),
            !knows(old(self)@, address@) ==> final(self)@ == old(self)@ && r == Err::<
                Action,
                ServerError,
            >(ServerError::State(StateError::UnknownAlias)),
            knows(old(self)@, address@) && bytes@.len() % 4 == 0 ==> final(self)@ == fed(
                old(self)@,
                address@,
                frame_samples(bytes@),
            ) && r == Ok::<Action, ServerError>(Action::Buffered),
            knows(old(self)@, address@) && bytes@.len() % 4 != 0 ==> final(self)@ == marked_dead(
                old(self)@,
                address@,
            ) && r == Err::<Action, ServerError>(ServerError::Protocol(ProtocolError::Malformed)),
    {
        proof {
            use_type_invariant(&*self);
        }
        let at: usize = find_peer(&self.connections, address);
        if at == self.connections.len() {
            return Err(ServerError::State(StateError::UnknownAlias));
        }
        match decode_frame(bytes) {
            Ok(samples) => {
                self.feed(at, address, samples.as_slice());
                proof {
                    lemma_fed_isolated(old(self)@, address@, samples@);
                    lemma_seat_by_urls(old(self)@, self@, address@);
                }
                Ok(Action::Buffered)
            },
            Err(e) => {
                let _ = self.mark_dead(address);
                Err(ServerError::Protocol(e))
            },
        }
    }

    /// Removes the connection known by `url`, and says whose it was.
    pub fn disconnect_client(&mut self, url: &str) -> (removed: Option<Client>)
        ensures
            final(self).same_settings(old(self)),
            distinct_urls(final(self)@),
            final(self)@ == without(old(self)@, url@),
            removed is Some <==> knows(old(self)@, url@),
            removed matches Some(client) ==> client.url@ == url@,
    {
        proof {
            use_type_invariant(&*self);
            lemma_seat(self@, url@);
            lemma_without(self@, url@);
        }
        let at: usize = find_peer(&self.connections, url);
        if at == self.connections.len() {
            return None;
        }
        let ghost before = self.connections@;
        let mut table: Vec<Connection> = Vec::new();
        core::mem::swap(&mut self.connections, &mut table);
        let connection = table.remove(at);
        assert(peers_of(table@) =~= without(peers_of(before), url@));
        core::mem::swap(&mut self.connections, &mut table);
        Some(connection.client)
    }

    /// Plays on another device from now on.  Every connection is bound to
    /// it, and keeps its format and what is in its jitter buffer; the
    /// stream of each is to be built anew.
    pub fn change_output_device(&mut self, new_output: Device)
        ensures
            final(self).output() == new_output,
            final(self).batch() == old(self).batch(),
            final(self).limit() == old(self).limit(),
            distinct_urls(final(self)@),
            final(self)@ == rebound(old(self)@, new_output),
    {
        proof {
            use_type_invariant(&*self);
        }
        let ghost before = self.connections@;
        let mut table: Vec<Connection> = Vec::new();
        core::mem::swap(&mut self.connections, &mut table);
        let mut i: usize = 0;
        while i < table.len()
            invariant
                i <= table@.len(),
                table@.len() == before.len(),
                forall|k: int|
                    0 <= k < i ==> (#[trigger] table@[k])@ == (Peer {
                        device: new_output,
                        ..before[k]@
                    }),
                forall|k: int| i <= k < table@.len() ==> #[trigger] table@[k] == before[k],
            decreases table@.len() - i,
        {
            table[i].output_device = new_output.clone();
            i = i + 1;
        }
        proof {
            let after = peers_of(table@);
            assert(urls(after) =~= urls(peers_of(before)));
            lemma_seat_by_urls(peers_of(before), after, Seq::<char>::empty());
        }
        core::mem::swap(&mut self.connections, &mut table);
        self.device = new_output;
    }

    /// The sweep: removes every dead connection, and says whose they were.
    pub fn sweep(&mut self) -> (removed: Vec<Client>)
        ensures
            final(self).same_settings(old(self)),
            distinct_urls(final(self)@),
            final(self)@ == swept(old(self)@),
            client_urls(removed@) == urls(reaped(old(self)@)),
    {
        proof {
            use_type_invariant(&*self);
        }
        let ghost before = peers_of(self.connections@);
        let mut table: Vec<Connection> = Vec::new();
        core::mem::swap(&mut self.connections, &mut table);
        let mut removed: Vec<Client> = Vec::new();
        let mut i: usize = 0;
        let ghost mut seen: int = 0;
        proof {
            reveal(Seq::filter);
        }
        while i < table.len()
            invariant
                0 <= seen <= before.len(),
                i <= table@.len(),
                table@.len() - i == before.len() - seen,
                peers_of(table@).skip(i as int) == before.skip(seen),
                peers_of(table@).take(i as int) == swept(before.take(seen)),
                client_urls(removed@) == urls(reaped(before.take(seen))),
            decreases table@.len() - i,
        {
            let ghost table_before = peers_of(table@);
            let ghost removed_before = removed@;
            proof {
                lemma_filter_step(before, seen, |p: Peer| p.alive);
                lemma_filter_step(before, seen, |p: Peer| !p.alive);
                assert(table_before[i as int] == table_before.skip(i as int)[0]);
            }
            if table[i].is_alive {
                proof {
                    assert(table_before.take(i + 1) =~= table_before.take(i as int).push(
                        table_before[i as int],
                    ));
                    assert(table_before.skip(i + 1) =~= table_before.skip(i as int).skip(1));
                }
                i = i + 1;
            } else {
                let connection = table.remove(i);
                removed.push(connection.client);
                proof {
                    let now = peers_of(table@);
                    assert(now.skip(i as int) =~= table_before.skip(i as int).skip(1));
                    assert(client_urls(removed@) =~= client_urls(removed_before).push(
                        before[seen].url,
                    ));
                    assert(urls(reaped(before.take(seen)).push(before[seen])) =~= urls(
                        reaped(before.take(seen)),
                    ).push(before[seen].url));
                }
            }
            proof {
                seen = seen + 1;
            }
        }
        proof {
            assert(peers_of(table@).take(i as int) =~= peers_of(table@));
            assert(before.take(seen) =~= before);
            lemma_swept_distinct(before);
        }
        core::mem::swap(&mut self.connections, &mut table);
        removed
    }

    /// Of the streams that run, named by alias or address, those whose
    /// connection is gone: they are to be stopped.
    pub fn orphans(&self, streams: &Vec<String>) -> (stale: Vec<String>)
        ensures
            texts(stale@) == orphaned(self@, texts(streams@)),
    {
        let mut stale: Vec<String> = Vec::new();
        let mut i: usize = 0;
        assert(texts(streams@).take(0) =~= Seq::<Seq<char>>::empty());
        assert(texts(stale@) =~= Seq::<Seq<char>>::empty());
        proof {
            reveal(Seq::filter);
        }
        while i < streams.len()
            invariant
                i <= streams@.len(),
                texts(stale@) == orphaned(self@, texts(streams@).take(i as int)),
            decreases streams@.len() - i,
        {
            let ghost before = stale@;
            proof {
                lemma_filter_step(texts(streams@), i as int, |url: Seq<char>| !knows(self@, url));
            }
            let at: usize = find_peer(&self.connections, streams[i].as_str());
            if at == self.connections.len() {
                stale.push(streams[i].clone());
                assert(texts(stale@) =~= texts(before).push(streams@[i as int]@));
            }
            i = i + 1;
        }
        assert(texts(streams@).take(i as int) =~= texts(streams@));
        stale
    }

    /// A playback tick for the connection known by `url`: see
    /// [`BatchBuffer::play`].  The result says whether less than a batch
    /// was waiting.
    pub fn play(&mut self, url: &str, data: &mut [u32]) -> (r: Result<bool, StateError>)
        ensures
            final(self).same_settings(old(self)),
            distinct_urls(final(self)@),
            final(self)@ == if knows(old(self)@, url@) {
                ticked(old(self)@, url@)
            } else {
                old(self)@
            },
            match r {
                Ok(underrun) => {
                    let peer = old(self)@[seat(old(self)@, url@)];
                    &&& knows(old(self)@, url@)
                    &&& underrun == (peer.batch == 0 || peer.queue.len() < peer.batch)
                    &&& final(data)@ == output_of(
                        if underrun {
                            Seq::<u32>::empty()
                        } else {
                            peer.queue.take(peer.batch as int)
                        },
                        old(data)@.len(),
                    )
                },
                Err(e) => {
                    &&& !knows(old(self)@, url@)
                    &&& e == StateError::UnknownAlias
                    &&& final(data)@ == old(data)@
                },
            },
    {
        proof {
            use_type_invariant(&*self);
            lemma_seat(self@, url@);
        }
        let at: usize = find_peer(&self.connections, url);
        if at == self.connections.len() {
            return Err(StateError::UnknownAlias);
        }
        let ghost before = self.connections@;
        let mut table: Vec<Connection> = Vec::new();
        core::mem::swap(&mut self.connections, &mut table);
        let underrun: bool = table[at].buffer.play(data);
        proof {
            let after = peers_of(table@);
            assert(urls(after) =~= urls(peers_of(before)));
            lemma_seat_by_urls(peers_of(before), after, url@);
        }
        core::mem::swap(&mut self.connections, &mut table);
        Ok(underrun)
    }
}

} // verus!
