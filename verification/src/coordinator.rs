//! The coordinator: a registry of devices together with a switchboard, and
//! the reconciliation of the switchboard with a topology that is wanted.
//!
//! Reconciliation only adds and replaces.  A producer that the wanted
//! topology does not name keeps what it has.  The first assignment that
//! cannot be carried out ends the reconciliation; what was done before it
//! stays done.

use vstd::prelude::*;
use crate::device::{Device, DeviceError, Host, capturing, last_keyed, lowercase};
use crate::switchboard::{
    BridgePlan,
    LocalConnection,
    SwitchBoard,
    SwitchBoardOpts,
    bridged,
    bridged_to,
    connect_failure,
    distinct_producers,
    first_of_each_key,
    idle,
    lemma_rewired,
    rewired,
};

verus! {

/// A registry of devices and the switchboard over them.
pub struct DeviceCoordinator {
    pub host: Host,
    /// Which producer feeds which consumer.
    pub switch_board: SwitchBoard,
}

/// The parts that a coordinator is made from.
pub struct DeviceCoordinatorOpts {
    pub host: Host,
    pub switch_board: SwitchBoard,
}

/// The live bridges of a switchboard, producer first.
pub struct DeviceCoordinatorState {
    pub mapping: Vec<(Device, Device)>,
}

/// The live bridges of a table, producer first, in the order of the table.
pub open spec fn live(table: Seq<LocalConnection>) -> Seq<(Device, Device)>
    decreases table.len(),
{
    if table.len() == 0 {
        Seq::empty()
    } else {
        match table.last().feeds() {
            Some(consumer) => live(table.drop_last()).push(
                (table.last().producer.device, consumer),
            ),
            None => live(table.drop_last()),
        }
    }
}

/// The names of a wanted topology.
pub open spec fn names(target: Seq<(String, String)>) -> Seq<(Seq<char>, Seq<char>)> {
    target.map_values(|p: (String, String)| (p.0@, p.1@))
}

/// What one assignment asks of a switchboard.
pub enum Step {
    /// The producer already feeds the consumer.
    Keep,
    /// The producer is to be connected to the consumer.
    Connect(Device, Device),
    /// The assignment cannot be carried out.
    Fail(DeviceError),
}

/// What the assignment of the device named `to` to the device named `from`
/// asks of a switchboard with the entries `table`.  A name stands for the
/// last device of the registry that goes by it.
pub open spec fn step_of(
    table: Seq<LocalConnection>,
    host: Seq<Device>,
    from: Seq<char>,
    to: Seq<char>,
) -> Step {
    match (last_keyed(host, lowercase(from)), last_keyed(host, lowercase(to))) {
        (Some(producer), Some(consumer)) => {
            if bridged_to(table, producer.spec_key()) matches Some(current) && current.spec_key()
                == consumer.spec_key() {
                Step::Keep
            } else {
                match connect_failure(producer, consumer) {
                    Some(e) => Step::Fail(e),
                    None => Step::Connect(producer, consumer),
                }
            }
        },
        _ => Step::Fail(DeviceError::NotFound),
    }
}

/// A connection that a reconciliation made.
pub struct Made {
    pub producer: Device,
    pub consumer: Device,
    /// The consumer that the producer fed before.
    pub replaced: Option<Device>,
}

/// The outcome of a reconciliation.
pub struct Outcome {
    /// The entries of the switchboard after it.
    pub table: Seq<LocalConnection>,
    /// The connections it made, in order.
    pub connected: Seq<Made>,
    /// The failure that ended it, if one did.
    pub failure: Option<DeviceError>,
}

/// The outcome of carrying out the assignments of `target` in order, up to
/// the first that fails.
pub open spec fn reconciled(
    table: Seq<LocalConnection>,
    host: Seq<Device>,
    target: Seq<(Seq<char>, Seq<char>)>,
) -> Outcome
    decreases target.len(),
{
    if target.len() == 0 {
        Outcome { table, connected: Seq::empty(), failure: None }
    } else {
        let before = reconciled(table, host, target.drop_last());
        if before.failure is Some {
            before
        } else {
            match step_of(before.table, host, target.last().0, target.last().1) {
                Step::Keep => before,
                Step::Connect(producer, consumer) => Outcome {
                    table: rewired(before.table, bridged(producer, consumer)),
                    connected: before.connected.push(
                        Made {
                            producer,
                            consumer,
                            replaced: bridged_to(before.table, producer.spec_key()),
                        },
                    ),
                    failure: None,
                },
                Step::Fail(e) => Outcome { failure: Some(e), ..before },
            }
        }
    }
}

/// What a reconciliation leaves to be done, and how it ended.
pub struct Reconciliation {
    /// One plan for each connection that was recorded, in order.
    pub plans: Vec<BridgePlan>,
    /// The failure that ended the reconciliation early, if one did.
    pub failure: Option<DeviceError>,
}

/// The connections that a list of plans was made for.
pub open spec fn planned(plans: Seq<BridgePlan>) -> Seq<Made> {
    plans.map_values(
        |p: BridgePlan|
            Made { producer: p.forwarder.source, consumer: p.forwarder.dest, replaced: p.replaced },
    )
}

impl DeviceCoordinator {
    /// A coordinator for a registry, with every capturing device on its
    /// switchboard and none connected.
    pub fn new(host: Host) -> (c: DeviceCoordinator)
        ensures
            c.host == host,
            distinct_producers(c.switch_board@),
            c.switch_board@ == first_of_each_key(capturing(host@)).map_values(|d: Device| idle(d)),
    {
        let switch_board = SwitchBoard::new_from(SwitchBoardOpts { host: host.clone() });
        DeviceCoordinator { host, switch_board }
    }

    /// A coordinator made from its parts.
    pub fn new_from(options: DeviceCoordinatorOpts) -> (c: DeviceCoordinator)
        ensures
            c.host == options.host,
            c.switch_board == options.switch_board,
    {
        DeviceCoordinator { host: options.host, switch_board: options.switch_board }
    }

    /// Connects a producer to a consumer on the switchboard.
    pub fn connect(&mut self, mapping: (Device, Device)) -> (r: Result<BridgePlan, DeviceError>)
        ensures
            final(self).host == old(self).host,
            distinct_producers(final(self).switch_board@),
            match r {
                Ok(plan) => {
                    &&& connect_failure(mapping.0, mapping.1) is None
                    &&& final(self).switch_board@ == rewired(
                        old(self).switch_board@,
                        bridged(mapping.0, mapping.1),
                    )
                    &&& plan.replaced == bridged_to(old(self).switch_board@, mapping.0.spec_key())
                    &&& plan.forwarder.established()
                    &&& plan.forwarder.source == mapping.0
                    &&& plan.forwarder.dest == mapping.1
                },
                Err(e) => {
                    &&& connect_failure(mapping.0, mapping.1) == Some(e)
                    &&& final(self).switch_board@ == old(self).switch_board@
                },
            },
    {
        self.switch_board.connect(mapping)
    }

    /// The devices of the registry.
    pub fn devices(&self) -> (devices: &Vec<Device>)
        ensures
            devices@ == self.host@,
    {
        self.host.devices()
    }

    /// The live bridges of the switchboard.
    pub fn state(&self) -> (state: DeviceCoordinatorState)
        ensures
            state.mapping@ == live(self.switch_board@),
    {
        let table = self.switch_board.device_map();
        let mut mapping: Vec<(Device, Device)> = Vec::new();
        let mut i: usize = 0;
        while i < table.len()
            invariant
                i <= table@.len(),
                table@ == self.switch_board@,
                mapping@ == live(table@.take(i as int)),
            decreases table@.len() - i,
        {
            match &table[i].consumer {
                Some(consumer) => {
                    mapping.push((table[i].producer.device.clone(), consumer.device.clone()));
                },
                None => {},
            }
            proof {
                assert(table@.take(i + 1).drop_last() =~= table@.take(i as int));
            }
            i = i + 1;
        }
        assert(table@.take(i as int) =~= table@);
        DeviceCoordinatorState { mapping }
    }

    /// Brings the switchboard towards the wanted topology `target`, a list
    /// of assignments from the name of a producer to the name of a consumer.
    ///
    /// The assignments are taken in order.  One whose producer already
    /// feeds its consumer asks for nothing.  Any other is connected.  The
    /// first that names no device, or that cannot be connected, ends the
    /// reconciliation and is reported.
    pub fn correct_state(&mut self, target: Vec<(String, String)>) -> (done: Reconciliation)
        ensures
            final(self).host == old(self).host,
            distinct_producers(final(self).switch_board@),
            final(self).switch_board@ == reconciled(
                old(self).switch_board@,
                old(self).host@,
                names(target@),
            ).table,
            planned(done.plans@) == reconciled(
                old(self).switch_board@,
                old(self).host@,
                names(target@),
            ).connected,
            done.failure == reconciled(
                old(self).switch_board@,
                old(self).host@,
                names(target@),
            ).failure,
            forall|i: int|
                0 <= i < done.plans@.len() ==> (#[trigger] done.plans@[i]).forwarder.established(),
    {
        let mut plans: Vec<BridgePlan> = Vec::new();
        let _ = self.switch_board.device_map();
        let ghost start = self.switch_board@;
        let ghost host = self.host@;
        let ghost wanted = names(target@);
        let mut i: usize = 0;
        assert(planned(plans@) =~= Seq::<Made>::empty());
        while i < target.len()
            invariant
                i <= target@.len(),
                self.host == old(self).host,
                host == self.host@,
                wanted == names(target@),
                start == old(self).switch_board@,
                distinct_producers(self.switch_board@),
                reconciled(start, host, wanted.take(i as int)) == (Outcome {
                    table: self.switch_board@,
                    connected: planned(plans@),
                    failure: None,
                }),
                forall|k: int|
                    0 <= k < plans@.len() ==> (#[trigger] plans@[k]).forwarder.established(),
            decreases target@.len() - i,
        {
            proof {
                assert(wanted.take(i + 1).drop_last() =~= wanted.take(i as int));
            }
            let step = self.step(target[i].0.as_str(), target[i].1.as_str());
            let ghost planned_before = planned(plans@);
            match step {
                Ok(None) => {},
                Ok(Some(plan)) => {
                    plans.push(plan);
                    assert(planned(plans@) =~= planned_before.push(
                        Made {
                            producer: plan.forwarder.source,
                            consumer: plan.forwarder.dest,
                            replaced: plan.replaced,
                        },
                    ));
                },
                Err(e) => {
                    proof {
                        let rest = wanted.subrange(i + 1, wanted.len() as int);
                        assert(wanted =~= wanted.take(i + 1) + rest);
                        lemma_failure_ends(start, host, wanted.take(i + 1), rest);
                    }
                    return Reconciliation { plans, failure: Some(e) };
                },
            }
            i = i + 1;
        }
        assert(wanted.take(i as int) =~= wanted);
        Reconciliation { plans, failure: None }
    }

    /// Carries out one assignment.
    fn step(&mut self, from: &str, to: &str) -> (r: Result<Option<BridgePlan>, DeviceError>)
        ensures
            final(self).host == old(self).host,
            distinct_producers(final(self).switch_board@),
            match step_of(old(self).switch_board@, old(self).host@, from@, to@) {
                Step::Keep => r == Ok::<Option<BridgePlan>, DeviceError>(None)
                    && final(self).switch_board@ == old(self).switch_board@,
                Step::Connect(producer, consumer) => {
                    &&& r matches Ok(Some(plan))
                    &&& final(self).switch_board@ == rewired(
                        old(self).switch_board@,
                        bridged(producer, consumer),
                    )
                    &&& plan.forwarder.source == producer
                    &&& plan.forwarder.dest == consumer
                    &&& plan.replaced == bridged_to(old(self).switch_board@, producer.spec_key())
                    &&& plan.forwarder.established()
                },
                Step::Fail(e) => r == Err::<Option<BridgePlan>, DeviceError>(e)
                    && final(self).switch_board@ == old(self).switch_board@,
            },
    {
        let _ = self.switch_board.device_map();
        let producer = match self.host.find(from) {
            Ok(device) => device,
            Err(e) => {
                return Err(e);
            },
        };
        let consumer = match self.host.find(to) {
            Ok(device) => device,
            Err(e) => {
                return Err(e);
            },
        };
        let settled: bool = match self.switch_board.consumer_of(&producer) {
            Some(current) => current.has_key(consumer.key()),
            None => false,
        };
        if settled {
            return Ok(None);
        }
        match self.switch_board.connect((producer, consumer)) {
            Ok(plan) => Ok(Some(plan)),
            Err(e) => Err(e),
        }
    }
}

/// Once an assignment has failed, the assignments after it change nothing.
pub proof fn lemma_failure_ends(
    table: Seq<LocalConnection>,
    host: Seq<Device>,
    done: Seq<(Seq<char>, Seq<char>)>,
    rest: Seq<(Seq<char>, Seq<char>)>,
)
    requires
        reconciled(table, host, done).failure is Some,
    ensures
        reconciled(table, host, done + rest) == reconciled(table, host, done),
    decreases rest.len(),
{
    if rest.len() > 0 {
        lemma_failure_ends(table, host, done, rest.drop_last());
        assert((done + rest).drop_last() =~= done + rest.drop_last());
    }
}

/// Reconciliation is an overlay: it keeps every producer in one entry, and
/// a producer that it did not connect feeds what it fed before.
pub proof fn lemma_reconciled_overlay(
    table: Seq<LocalConnection>,
    host: Seq<Device>,
    target: Seq<(Seq<char>, Seq<char>)>,
)
    requires
        distinct_producers(table),
    ensures
        distinct_producers(reconciled(table, host, target).table),
        forall|key: Seq<char>|
            (forall|i: int|
                0 <= i < reconciled(table, host, target).connected.len() ==> reconciled(
                    table,
                    host,
                    target,
                ).connected[i].producer.spec_key() != key) ==> #[trigger] bridged_to(
                reconciled(table, host, target).table,
                key,
            ) == bridged_to(table, key),
    decreases target.len(),
{
    if target.len() > 0 {
        let before = reconciled(table, host, target.drop_last());
        let after = reconciled(table, host, target);
        lemma_reconciled_overlay(table, host, target.drop_last());
        if before.failure is None {
            match step_of(before.table, host, target.last().0, target.last().1) {
                Step::Connect(producer, consumer) => {
                    lemma_rewired(before.table, bridged(producer, consumer));
                    assert forall|key: Seq<char>|
                        (forall|i: int|
                            0 <= i < after.connected.len() ==> after.connected[i].producer.spec_key()
                                != key) implies #[trigger] bridged_to(after.table, key)
                        == bridged_to(table, key) by {
                        assert(after.connected[after.connected.len() - 1].producer.spec_key()
                            != key);
                        assert forall|i: int|
                            0 <= i < before.connected.len() implies before.connected[i].producer.spec_key()
                            != key by {
                            assert(after.connected[i] == before.connected[i]);
                        }
                    }
                },
                _ => {},
            }
        }
    }
}

} // verus!
