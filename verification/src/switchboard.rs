//! The local switchboard: which capturing device feeds which playing device,
//! and the bridges that realise it.
//!
//! The switchboard decides; it does not touch a device.  Connecting a
//! producer to a consumer yields the bridge to run, together with the
//! consumer whose bridge has to be stopped first, and records the new
//! pairing.  Whoever owns the streams carries that out.

use vstd::prelude::*;
use crate::device::{capturing, Device, DeviceError, Host, StreamConfig};
use crate::ring::{RingBridge, MAX_RING_CAPACITY};

verus! {

/// The end-to-end latency that a bridge is sized for, in milliseconds.
pub const LATENCY_MS: u64 = 150;

/// The number of samples that pass in [`LATENCY_MS`] at the given rate and
/// channel count: whole frames first, then the channels of each.
pub open spec fn latency_samples(sample_rate: u32, channels: u16) -> nat {
    ((sample_rate as nat * LATENCY_MS as nat) / 1000) * channels as nat
}

/// The capacity of the bridge behind a producer of the given format: twice
/// the latency, as a margin.
pub open spec fn bridge_capacity(config: StreamConfig) -> nat {
    2 * latency_samples(config.sample_rate, config.channels)
}

/// The capacity of the bridge behind a producer of the given format.
pub fn ring_capacity(config: &StreamConfig) -> (capacity: u64)
    ensures
        capacity == bridge_capacity(*config),
{
    let frames: u64 = (config.sample_rate as u64 * LATENCY_MS) / 1000;
    let channels: u64 = config.channels as u64;
    assert(frames * channels <= 644_245_094 * 65_535) by (nonlinear_arith)
        requires
            frames <= 644_245_094,
            channels <= 65_535,
    ;
    let samples: u64 = frames * channels;
    samples * 2
}

/// One side of a bridge: the format its stream runs with.
#[derive(Clone, Copy, Debug, PartialEq, Eq, Structural)]
pub struct Connection {
    pub config: StreamConfig,
}

/// A device on the switchboard, with its connection while it is bridged.
#[derive(Debug)]
pub struct DeviceSwitch {
    pub device: Device,
    pub connection: Option<Connection>,
}

/// The device that a switch is made for.
pub struct DeviceSwitchOpts {
    pub device: Device,
}

impl DeviceSwitch {
    /// A switch for a device that is not connected.
    pub fn new_from(opts: DeviceSwitchOpts) -> (switch: DeviceSwitch)
        ensures
            switch.device == opts.device,
            switch.connection is None,
    {
        DeviceSwitch { device: opts.device, connection: None }
    }

    /// A switch for a device that is not connected.
    pub fn from(device: Device) -> (switch: DeviceSwitch)
        ensures
            switch.device == device,
            switch.connection is None,
    {
        DeviceSwitch::new_from(DeviceSwitchOpts { device })
    }
}

/// A bridge that was built and waits to be run, or runs: the two devices,
/// the formats of their streams, and the ring between them.
pub struct DeviceForwarder {
    pub source: Device,
    pub dest: Device,
    pub config: StreamConfig,
    pub output_config: StreamConfig,
    pub bridge: RingBridge,
    pub playing: bool,
}

impl DeviceForwarder {
    /// Builds the bridge between two devices whose streams both run with
    /// `config`.  It is refused when its ring would be larger than
    /// [`MAX_RING_CAPACITY`].
    pub fn new(source: Device, dest: Device, config: StreamConfig) -> (r: Result<
        DeviceForwarder,
        DeviceError,
    >)
        ensures
            match r {
                Ok(forwarder) => {
                    &&& bridge_capacity(config) <= MAX_RING_CAPACITY
                    &&& forwarder.fresh(source, dest, config, config)
                },
                Err(e) => bridge_capacity(config) > MAX_RING_CAPACITY && e
                    == DeviceError::BridgeTooLarge,
            },
    {
        DeviceForwarder::build(source, dest, config, config)
    }

    /// The forwarder is as it was built: between the two devices, with the
    /// two formats, its ring empty and sized for the producer, not yet running.
    pub open spec fn fresh(
        &self,
        source: Device,
        dest: Device,
        config: StreamConfig,
        output_config: StreamConfig,
    ) -> bool {
        &&& self.source == source
        &&& self.dest == dest
        &&& self.config == config
        &&& self.output_config == output_config
        &&& self.bridge@ == Seq::<u32>::empty()
        &&& self.bridge.limit() == bridge_capacity(config)
        &&& !self.playing
    }

    /// The forwarder is as it was built between its two devices, each
    /// stream with the default format of its device.
    pub open spec fn established(&self) -> bool {
        match (self.source.spec_input(), self.dest.spec_output()) {
            (Some(input), Some(output)) => self.fresh(
                self.source,
                self.dest,
                input.spec_config(),
                output.spec_config(),
            ),
            _ => false,
        }
    }

    fn build(source: Device, dest: Device, config: StreamConfig, output_config: StreamConfig) -> (r:
        Result<DeviceForwarder, DeviceError>)
        ensures
            match r {
                Ok(forwarder) => {
                    &&& bridge_capacity(config) <= MAX_RING_CAPACITY
                    &&& forwarder.fresh(source, dest, config, output_config)
                },
                Err(e) => bridge_capacity(config) > MAX_RING_CAPACITY && e
                    == DeviceError::BridgeTooLarge,
            },
    {
        let capacity: u64 = ring_capacity(&config);
        if capacity > MAX_RING_CAPACITY as u64 {
            return Err(DeviceError::BridgeTooLarge);
        }
        let bridge = RingBridge::new(capacity as usize);
        Ok(DeviceForwarder { source, dest, config, output_config, bridge, playing: false })
    }

    /// Marks the bridge as running.
    pub fn play(&mut self)
        ensures
            final(self).playing,
            final(self).source == old(self).source,
            final(self).dest == old(self).dest,
            final(self).config == old(self).config,
            final(self).output_config == old(self).output_config,
            final(self).bridge == old(self).bridge,
    {
        self.playing = true;
    }

    /// Ends the bridge and gives back its two devices.
    pub fn stop(self) -> (ends: (Device, Device))
        ensures
            ends == (self.source, self.dest),
    {
        (self.source, self.dest)
    }
}

/// One producer on the switchboard, and the consumer it feeds while bridged.
#[derive(Debug)]
pub struct LocalConnection {
    pub producer: DeviceSwitch,
    pub consumer: Option<DeviceSwitch>,
}

impl LocalConnection {
    /// The key of the producer.
    pub open spec fn key(&self) -> Seq<char> {
        self.producer.device.spec_key()
    }

    /// The device that the producer feeds, if it is bridged.
    pub open spec fn feeds(&self) -> Option<Device> {
        match self.consumer {
            Some(consumer) => Some(consumer.device),
            None => None,
        }
    }

    /// Both sides carry a connection while the producer is bridged, and
    /// the producer carries none while it is not.
    pub open spec fn consistent(&self) -> bool {
        match self.consumer {
            Some(consumer) => self.producer.connection is Some && consumer.connection is Some,
            None => self.producer.connection is None,
        }
    }
}

/// The entry of a producer that feeds nothing.
pub open spec fn idle(producer: Device) -> LocalConnection {
    LocalConnection { producer: DeviceSwitch { device: producer, connection: None }, consumer: None }
}

/// The entry of a producer that feeds a consumer over a live bridge, each
/// side with the default format of its device.
pub open spec fn bridged(producer: Device, consumer: Device) -> LocalConnection
    recommends
        producer.spec_input() is Some,
        consumer.spec_output() is Some,
{
    LocalConnection {
        producer: DeviceSwitch {
            device: producer,
            connection: Some(Connection { config: producer.spec_input().unwrap().spec_config() }),
        },
        consumer: Some(
            DeviceSwitch {
                device: consumer,
                connection: Some(
                    Connection { config: consumer.spec_output().unwrap().spec_config() },
                ),
            },
        ),
    }
}

/// No producer stands in two entries.
pub open spec fn distinct_producers(table: Seq<LocalConnection>) -> bool {
    forall|i: int, j: int|
        0 <= i < table.len() && 0 <= j < table.len() && i != j ==> table[i].key() != table[j].key()
}

/// The place of the first entry of the producer `key`; the number of
/// entries when there is none.
pub open spec fn place(table: Seq<LocalConnection>, key: Seq<char>) -> int
    decreases table.len(),
{
    if table.len() == 0 {
        0
    } else if table[0].key() == key {
        0
    } else {
        1 + place(table.drop_first(), key)
    }
}

/// The consumer that the producer `key` feeds, if it is bridged.
pub open spec fn bridged_to(table: Seq<LocalConnection>, key: Seq<char>) -> Option<Device> {
    if place(table, key) < table.len() {
        table[place(table, key)].feeds()
    } else {
        None
    }
}

/// The table after `entry` took the place of the entry of its producer, or
/// was added when the producer had none.
pub open spec fn rewired(table: Seq<LocalConnection>, entry: LocalConnection) -> Seq<
    LocalConnection,
> {
    if place(table, entry.key()) < table.len() {
        table.update(place(table, entry.key()), entry)
    } else {
        table.push(entry)
    }
}

/// The table after the producer `key` lost its bridge: it stays, and feeds
/// nothing.  A producer that has no entry gets none.
pub open spec fn released(table: Seq<LocalConnection>, key: Seq<char>) -> Seq<LocalConnection> {
    if place(table, key) < table.len() {
        table.update(place(table, key), idle(table[place(table, key)].producer.device))
    } else {
        table
    }
}

/// Exactly one entry has the producer, and it is a live bridge to the consumer.
pub open spec fn sole_bridge(table: Seq<LocalConnection>, producer: Seq<char>, consumer: Seq<char>) -> bool {
    exists|i: int|
        {
            &&& 0 <= i < table.len()
            &&& (#[trigger] table[i]).key() == producer
            &&& table[i].feeds() matches Some(device) && device.spec_key() == consumer
            &&& forall|j: int| 0 <= j < table.len() && table[j].key() == producer ==> j == i
        }
}

/// The devices of `devices` whose key no earlier device has, in order.
pub open spec fn first_of_each_key(devices: Seq<Device>) -> Seq<Device>
    decreases devices.len(),
{
    if devices.len() == 0 {
        Seq::empty()
    } else if keyed(devices.drop_last(), devices.last().spec_key()) {
        first_of_each_key(devices.drop_last())
    } else {
        first_of_each_key(devices.drop_last()).push(devices.last())
    }
}

/// Some device of `devices` goes by `key`.
pub open spec fn keyed(devices: Seq<Device>, key: Seq<char>) -> bool {
    exists|i: int| 0 <= i < devices.len() && (#[trigger] devices[i]).spec_key() == key
}

/// `place` is the first place at which the producer stands.
pub proof fn lemma_place(table: Seq<LocalConnection>, key: Seq<char>)
    ensures
        0 <= place(table, key) <= table.len(),
        place(table, key) < table.len() ==> table[place(table, key)].key() == key,
        forall|j: int| 0 <= j < place(table, key) ==> table[j].key() != key,
    decreases table.len(),
{
    if table.len() > 0 && table[0].key() != key {
        let rest = table.drop_first();
        lemma_place(rest, key);
        assert forall|j: int| 0 <= j < place(table, key) implies table[j].key() != key by {
            if j > 0 {
                assert(rest[j - 1] == table[j]);
            }
        }
    }
}

/// A place before which the producer does not stand, and at which it
/// stands unless it is the end, is `place`.
pub proof fn lemma_place_is(table: Seq<LocalConnection>, key: Seq<char>, i: int)
    requires
        0 <= i <= table.len(),
        i < table.len() ==> table[i].key() == key,
        forall|j: int| 0 <= j < i ==> table[j].key() != key,
    ensures
        place(table, key) == i,
{
    lemma_place(table, key);
    let p = place(table, key);
    if p < i {
        assert(table[p].key() != key);
    } else if p > i {
        assert(table[i].key() != key);
    }
}

/// Rewiring keeps every producer in one entry, and touches no entry of
/// another producer.
pub proof fn lemma_rewired(table: Seq<LocalConnection>, entry: LocalConnection)
    requires
        distinct_producers(table),
    ensures
        distinct_producers(rewired(table, entry)),
        place(rewired(table, entry), entry.key()) == place(table, entry.key()),
        bridged_to(rewired(table, entry), entry.key()) == entry.feeds(),
        forall|key: Seq<char>|
            key != entry.key() ==> #[trigger] bridged_to(rewired(table, entry), key) == bridged_to(
                table,
                key,
            ),
{
    let after = rewired(table, entry);
    let p = place(table, entry.key());
    lemma_place(table, entry.key());
    lemma_place_is(after, entry.key(), p);
    assert forall|key: Seq<char>| key != entry.key() implies #[trigger] bridged_to(after, key)
        == bridged_to(table, key) by {
        lemma_place(table, key);
        let q = place(table, key);
        if q < table.len() {
            lemma_place_is(after, key, q);
        } else {
            lemma_place_is(after, key, after.len() as int);
        }
    }
}

/// After a producer was connected to a consumer, the switchboard pairs the
/// two, and that pairing is the one live bridge of the producer.
pub proof fn lemma_connect_one_bridge(
    table: Seq<LocalConnection>,
    producer: Device,
    consumer: Device,
)
    requires
        distinct_producers(table),
    ensures
        distinct_producers(rewired(table, bridged(producer, consumer))),
        sole_bridge(
            rewired(table, bridged(producer, consumer)),
            producer.spec_key(),
            consumer.spec_key(),
        ),
        bridged_to(rewired(table, bridged(producer, consumer)), producer.spec_key()) == Some(
            consumer,
        ),
{
    let entry = bridged(producer, consumer);
    let after = rewired(table, entry);
    lemma_rewired(table, entry);
    lemma_place(after, producer.spec_key());
    let p = place(after, producer.spec_key());
    assert(after[p] == entry);
    assert forall|j: int| 0 <= j < after.len() && after[j].key() == producer.spec_key() implies j
        == p by {
        if j != p {
            assert(after[j].key() != after[p].key());
        }
    }
}

/// After a producer was connected to one consumer and then to another, no
/// live bridge from the producer to the first consumer is left, and the
/// second connection was told to stop the bridge to the first.
pub proof fn lemma_reconnect_replaces(
    table: Seq<LocalConnection>,
    producer: Device,
    first: Device,
    second: Device,
)
    requires
        distinct_producers(table),
        first.spec_key() != second.spec_key(),
    ensures
        ({
            let once = rewired(table, bridged(producer, first));
            let twice = rewired(once, bridged(producer, second));
            &&& bridged_to(once, producer.spec_key()) == Some(first)
            &&& sole_bridge(twice, producer.spec_key(), second.spec_key())
            &&& forall|i: int|
                0 <= i < twice.len() && (#[trigger] twice[i]).key() == producer.spec_key()
                    ==> twice[i].feeds() != Some(first)
        }),
{
    let once = rewired(table, bridged(producer, first));
    let twice = rewired(once, bridged(producer, second));
    lemma_connect_one_bridge(table, producer, first);
    lemma_connect_one_bridge(once, producer, second);
    let at = choose|i: int|
        {
            &&& 0 <= i < twice.len()
            &&& (#[trigger] twice[i]).key() == producer.spec_key()
            &&& twice[i].feeds() matches Some(device) && device.spec_key() == second.spec_key()
            &&& forall|j: int| 0 <= j < twice.len() && twice[j].key() == producer.spec_key() ==> j == i
        };
    assert forall|i: int|
        0 <= i < twice.len() && (#[trigger] twice[i]).key() == producer.spec_key() implies twice[i].feeds()
        != Some(first) by {
        assert(i == at);
    }
}

/// Why a producer cannot be connected to a consumer, if it cannot.
pub open spec fn connect_failure(producer: Device, consumer: Device) -> Option<DeviceError> {
    match (producer.spec_input(), consumer.spec_output()) {
        (None, _) => Some(DeviceError::NoInputConfig),
        (Some(_), None) => Some(DeviceError::NoOutputConfig),
        (Some(input), Some(_)) => if bridge_capacity(input.spec_config()) > MAX_RING_CAPACITY {
            Some(DeviceError::BridgeTooLarge)
        } else {
            None
        },
    }
}

/// What is to be done for a connection that the switchboard has recorded:
/// stop the bridge that the producer fed so far, if there was one, then run
/// the new bridge.
pub struct BridgePlan {
    /// The consumer of the bridge to stop first.
    pub replaced: Option<Device>,
    /// The bridge to run.
    pub forwarder: DeviceForwarder,
}

/// The switchboard: every producer it knows, each with the consumer it feeds.
pub struct SwitchBoard {
    device_map: Vec<LocalConnection>,
}

/// The registry whose capturing devices a switchboard starts with.
pub struct SwitchBoardOpts {
    pub host: Host,
}

/// The place of the producer `key` in a table, or the length of the table.
fn find_producer(table: &Vec<LocalConnection>, key: &str) -> (i: usize)
    ensures
        i == place(table@, key@),
        i <= table@.len(),
{
    let mut i: usize = 0;
    while i < table.len()
        invariant
            i <= table@.len(),
            forall|j: int| 0 <= j < i ==> table@[j].key() != key@,
        decreases table@.len() - i,
    {
        if table[i].producer.device.has_key(key) {
            proof {
                lemma_place_is(table@, key@, i as int);
            }
            return i;
        }
        i = i + 1;
    }
    proof {
        lemma_place_is(table@, key@, i as int);
    }
    i
}

/// A table in which every producer stands once and every entry is consistent.
pub open spec fn table_ok(table: Seq<LocalConnection>) -> bool {
    &&& distinct_producers(table)
    &&& forall|i: int| 0 <= i < table.len() ==> (#[trigger] table[i]).consistent()
}

impl SwitchBoard {
    #[verifier::type_invariant]
    spec fn well_formed(&self) -> bool {
        table_ok(self.device_map@)
    }

    /// The entries of the switchboard.
    pub closed spec fn view(&self) -> Seq<LocalConnection> {
        self.device_map@
    }

    /// The entries of the switchboard.
    pub fn device_map(&self) -> (table: &Vec<LocalConnection>)
        ensures
            table@ == self@,
            table_ok(self@),
    {
        proof {
            use_type_invariant(self);
        }
        &self.device_map
    }

    /// A switchboard with every capturing device of the registry as a
    /// producer, none of them connected.  Of several devices with one key
    /// the first is taken.
    pub fn new_from(opts: SwitchBoardOpts) -> (board: SwitchBoard)
        ensures
            distinct_producers(board@),
            board@ == first_of_each_key(capturing(opts.host@)).map_values(|d: Device| idle(d)),
    {
        let inputs: Vec<Device> = opts.host.input_devices();
        let mut table: Vec<LocalConnection> = Vec::new();
        let mut i: usize = 0;
        while i < inputs.len()
            invariant
                i <= inputs@.len(),
                inputs@ == capturing(opts.host@),
                table_ok(table@),
                table@ == first_of_each_key(inputs@.take(i as int)).map_values(|d: Device| idle(d)),
                forall|key: Seq<char>|
                    (#[trigger] place(table@, key) < table@.len()) <==> keyed(
                        inputs@.take(i as int),
                        key,
                    ),
            decreases inputs@.len() - i,
        {
            let device: Device = inputs[i].clone();
            let at: usize = find_producer(&table, device.key());
            let ghost before = table@;
            let ghost seen = inputs@.take(i as int);
            let ghost now = inputs@.take(i + 1);
            if at == table.len() {
                table.push(DeviceSwitch::from(device).into_unconnected());
            }
            proof {
                let entry = idle(inputs@[i as int]);
                assert(now.drop_last() =~= seen);
                assert(now.last() == inputs@[i as int]);
                lemma_place(before, entry.key());
                if at == before.len() {
                    lemma_rewired(before, entry);
                }
                assert forall|key: Seq<char>|
                    (#[trigger] place(table@, key) < table@.len()) <==> keyed(now, key) by {
                    lemma_place(table@, key);
                    lemma_place(before, key);
                    if at == before.len() {
                        let q = place(before, key);
                        if key == entry.key() {
                            lemma_place_is(table@, key, at as int);
                        } else if q < before.len() {
                            lemma_place_is(table@, key, q);
                        } else {
                            lemma_place_is(table@, key, table@.len() as int);
                        }
                    }
                }
            }
            i = i + 1;
        }
        assert(inputs@.take(i as int) =~= inputs@);
        SwitchBoard { device_map: table }
    }

    /// Builds the bridge between a producer and a consumer, each stream
    /// with the default format of its device.  Nothing is recorded.
    pub fn establish_connection(producer: &Device, consumer: &Device) -> (r: Result<
        DeviceForwarder,
        DeviceError,
    >)
        ensures
            match r {
                Ok(forwarder) => {
                    &&& connect_failure(*producer, *consumer) is None
                    &&& forwarder.established()
                    &&& forwarder.source == *producer
                    &&& forwarder.dest == *consumer
                },
                Err(e) => connect_failure(*producer, *consumer) == Some(e),
            },
    {
        let input = match producer.default_input_config() {
            Ok(input) => input,
            Err(e) => {
                return Err(e);
            },
        };
        let output = match consumer.default_output_config() {
            Ok(output) => output,
            Err(e) => {
                return Err(e);
            },
        };
        DeviceForwarder::build(producer.clone(), consumer.clone(), input.config(), output.config())
    }

    /// Connects a producer to a consumer.
    ///
    /// The bridge is built first; when that fails nothing changes.  Then the
    /// entry of the producer is replaced, or added when the producer was
    /// not on the switchboard, and the plan names the consumer whose bridge
    /// the producer fed until now.
    pub fn connect(&mut self, mapping: (Device, Device)) -> (r: Result<BridgePlan, DeviceError>)
        ensures
            distinct_producers(final(self)@),
            match r {
                Ok(plan) => {
                    &&& connect_failure(mapping.0, mapping.1) is None
                    &&& final(self)@ == rewired(old(self)@, bridged(mapping.0, mapping.1))
                    &&& plan.replaced == bridged_to(old(self)@, mapping.0.spec_key())
                    &&& plan.forwarder.established()
                    &&& plan.forwarder.source == mapping.0
                    &&& plan.forwarder.dest == mapping.1
                },
                Err(e) => {
                    &&& connect_failure(mapping.0, mapping.1) == Some(e)
                    &&& final(self)@ == old(self)@
                },
            },
    {
        proof {
            use_type_invariant(&*self);
        }
        let (from, to) = mapping;
        let forwarder = match SwitchBoard::establish_connection(&from, &to) {
            Ok(forwarder) => forwarder,
            Err(e) => {
                return Err(e);
            },
        };
        let at: usize = find_producer(&self.device_map, from.key());
        let replaced: Option<Device> = if at < self.device_map.len() {
            match &self.device_map[at].consumer {
                Some(consumer) => Some(consumer.device.clone()),
                None => None,
            }
        } else {
            None
        };
        let entry = LocalConnection {
            producer: DeviceSwitch {
                device: from,
                connection: Some(Connection { config: forwarder.config }),
            },
            consumer: Some(
                DeviceSwitch {
                    device: to,
                    connection: Some(Connection { config: forwarder.output_config }),
                },
            ),
        };
        let ghost before = self.device_map@;
        let mut table: Vec<LocalConnection> = Vec::new();
        core::mem::swap(&mut self.device_map, &mut table);
        if at < table.len() {
            table[at] = entry;
        } else {
            table.push(entry);
        }
        proof {
            lemma_rewired(before, entry);
        }
        core::mem::swap(&mut self.device_map, &mut table);
        Ok(BridgePlan { replaced, forwarder })
    }

    /// Takes the bridge of a producer off the switchboard, and names the
    /// consumer it fed.  The producer stays on the switchboard, not
    /// connected.  This is for a bridge that could not be run, or is no
    /// longer wanted.
    pub fn disconnect(&mut self, producer: &Device) -> (consumer: Option<Device>)
        ensures
            distinct_producers(final(self)@),
            final(self)@ == released(old(self)@, producer.spec_key()),
            consumer == bridged_to(old(self)@, producer.spec_key()),
    {
        proof {
            use_type_invariant(&*self);
        }
        let at: usize = find_producer(&self.device_map, producer.key());
        if at == self.device_map.len() {
            return None;
        }
        let consumer: Option<Device> = match &self.device_map[at].consumer {
            Some(consumer) => Some(consumer.device.clone()),
            None => None,
        };
        let entry = DeviceSwitch::from(self.device_map[at].producer.device.clone()).into_unconnected();
        let ghost before = self.device_map@;
        proof {
            lemma_place(before, producer.spec_key());
        }
        let mut table: Vec<LocalConnection> = Vec::new();
        core::mem::swap(&mut self.device_map, &mut table);
        table[at] = entry;
        proof {
            lemma_rewired(before, entry);
        }
        core::mem::swap(&mut self.device_map, &mut table);
        consumer
    }

    /// The consumer that a producer feeds, if the producer is bridged.
    pub fn consumer_of(&self, producer: &Device) -> (consumer: Option<Device>)
        ensures
            consumer == bridged_to(self@, producer.spec_key()),
    {
        let at: usize = find_producer(&self.device_map, producer.key());
        if at < self.device_map.len() {
            match &self.device_map[at].consumer {
                Some(consumer) => Some(consumer.device.clone()),
                None => None,
            }
        } else {
            None
        }
    }
}

impl DeviceSwitch {
    /// The entry of a producer that feeds nothing.
    pub fn into_unconnected(self) -> (entry: LocalConnection)
        ensures
            entry == idle(self.device),
    {
        LocalConnection {
            producer: DeviceSwitch { device: self.device, connection: None },
            consumer: None,
        }
    }
}

} // verus!
