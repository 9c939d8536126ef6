//! The ring bridge: a fixed-capacity queue of samples between the callback
//! that captures and the callback that plays.
//!
//! The queue never blocks and never grows.  A sample pushed onto a full queue
//! is dropped, and a pop from an empty queue yields silence; either way the
//! caller is told that one side fell behind the other.

use vstd::prelude::*;

verus! {

/// The writing end of a `ringbuf` ring buffer.
#[verifier::external_type_specification]
#[verifier::external_body]
#[verifier::reject_recursive_types(T)]
pub struct ExProducer<T>(ringbuf::Producer<T>);

/// The reading end of a `ringbuf` ring buffer.
#[verifier::external_type_specification]
#[verifier::external_body]
#[verifier::reject_recursive_types(T)]
pub struct ExConsumer<T>(ringbuf::Consumer<T>);

/// The samples that wait in the ring this end writes to, oldest first.
/// Using either end changes the ring, so this speaks of the ring only
/// while both ends are held together and used through the functions below.
pub uninterp spec fn ring_items(producer: ringbuf::Producer<u32>) -> Seq<u32>;

/// The capacity that the ring this end writes to was made with.
pub uninterp spec fn ring_limit(producer: ringbuf::Producer<u32>) -> nat;

/// The two values are the two ends of one ring.
pub uninterp spec fn ring_ends(
    producer: ringbuf::Producer<u32>,
    consumer: ringbuf::Consumer<u32>,
) -> bool;

/// The largest capacity a bridge is made with: 2^28 samples, a gibibyte.
pub const MAX_RING_CAPACITY: usize = 0x1000_0000;

/// `ringbuf::RingBuffer::new` and `split`: an empty ring of the given
/// capacity, as its two ends.  The ring allocates one slot more than its
/// capacity, which the bound keeps within what a vector can hold.
#[verifier::external_body]
fn ring_open(capacity: usize) -> (ends: (ringbuf::Producer<u32>, ringbuf::Consumer<u32>))
    requires
        capacity <= MAX_RING_CAPACITY,
    ensures
        ring_ends(ends.0, ends.1),
        ring_items(ends.0) == Seq::<u32>::empty(),
        ring_limit(ends.0) == capacity,
{
    ringbuf::RingBuffer::<u32>::new(capacity).split()
}

/// `ringbuf::Producer::push`: appends the sample unless the ring is full, in
/// which case the ring is unchanged and the sample comes back as the error.
/// Both ends are taken, so that nothing else reads the ring meanwhile.
#[verifier::external_body]
fn ring_push(
    producer: &mut ringbuf::Producer<u32>,
    consumer: &mut ringbuf::Consumer<u32>,
    sample: u32,
) -> (r: Result<(), u32>)
    requires
        ring_ends(*old(producer), *old(consumer)),
        ring_items(*old(producer)).len() <= ring_limit(*old(producer)),
    ensures
        ring_ends(*final(producer), *final(consumer)),
        ring_limit(*final(producer)) == ring_limit(*old(producer)),
        r is Ok <==> ring_items(*old(producer)).len() < ring_limit(*old(producer)),
        r is Ok ==> ring_items(*final(producer)) == ring_items(*old(producer)).push(sample),
        r matches Err(back) ==> back == sample && ring_items(*final(producer)) == ring_items(
            *old(producer),
        ),
    no_unwind
{
    producer.push(sample)
}

/// `ringbuf::Consumer::pop`: removes and returns the oldest sample, or
/// returns nothing and leaves the ring unchanged when it is empty.  Both
/// ends are taken, so that nothing else writes to the ring meanwhile.
#[verifier::external_body]
fn ring_pop(producer: &mut ringbuf::Producer<u32>, consumer: &mut ringbuf::Consumer<u32>) -> (r:
    Option<u32>)
    requires
        ring_ends(*old(producer), *old(consumer)),
    ensures
        ring_ends(*final(producer), *final(consumer)),
        ring_limit(*final(producer)) == ring_limit(*old(producer)),
        r is Some <==> ring_items(*old(producer)).len() > 0,
        r matches Some(sample) ==> sample == ring_items(*old(producer))[0] && ring_items(
            *final(producer),
        ) == ring_items(*old(producer)).drop_first(),
        r is None ==> ring_items(*final(producer)) == ring_items(*old(producer)),
    no_unwind
{
    consumer.pop()
}

/// A ring buffer with both of its ends.
pub struct RingBridge {
    producer: ringbuf::Producer<u32>,
    consumer: ringbuf::Consumer<u32>,
}

impl RingBridge {
    #[verifier::type_invariant]
    spec fn joined(&self) -> bool {
        &&& ring_ends(self.producer, self.consumer)
        &&& ring_items(self.producer).len() <= ring_limit(self.producer)
    }

    /// The samples that wait, oldest first.
    pub closed spec fn view(&self) -> Seq<u32> {
        ring_items(self.producer)
    }

    /// The number of samples the bridge holds at most.
    pub closed spec fn limit(&self) -> nat {
        ring_limit(self.producer)
    }

    /// An empty bridge of the given capacity.
    pub fn new(capacity: usize) -> (bridge: RingBridge)
        requires
            capacity <= MAX_RING_CAPACITY,
        ensures
            bridge@ == Seq::<u32>::empty(),
            bridge.limit() == capacity,
    {
        let (producer, consumer) = ring_open(capacity);
        RingBridge { producer, consumer }
    }

    /// Appends a sample, or drops it when the bridge is full.  The result
    /// says whether the sample was taken.
    pub fn push(&mut self, sample: u32) -> (taken: bool)
        ensures
            final(self).limit() == old(self).limit(),
            final(self)@.len() <= final(self).limit(),
            taken == (old(self)@.len() < old(self).limit()),
            taken ==> final(self)@ == old(self)@.push(sample),
            !taken ==> final(self)@ == old(self)@,
    {
        proof {
            use_type_invariant(&*self);
        }
        let r = ring_push(&mut self.producer, &mut self.consumer, sample);
        r.is_ok()
    }

    /// Removes the oldest sample, if there is one.
    pub fn pop(&mut self) -> (sample: Option<u32>)
        ensures
            final(self).limit() == old(self).limit(),
            final(self)@.len() <= final(self).limit(),
            old(self)@.len() > 0 ==> sample == Some(old(self)@[0]) && final(self)@ == old(
                self,
            )@.drop_first(),
            old(self)@.len() == 0 ==> sample is None && final(self)@ == old(self)@,
    {
        proof {
            use_type_invariant(&*self);
        }
        ring_pop(&mut self.producer, &mut self.consumer)
    }

    /// The capture callback: pushes the samples of `data` in order.  Samples
    /// that find the bridge full are dropped.  The result says whether any
    /// was dropped, that is, whether the playing side fell behind.
    pub fn listen_input(&mut self, data: &[u32]) -> (fell_behind: bool)
        ensures
            final(self).limit() == old(self).limit(),
            final(self)@ == after_input(old(self)@, old(self).limit(), data@),
            fell_behind == (old(self)@.len() + data@.len() > old(self).limit()),
    {
        proof {
            use_type_invariant(&*self);
        }
        let mut fell_behind: bool = false;
        let mut i: usize = 0;
        while i < data.len()
            invariant
                i <= data@.len(),
                self.limit() == old(self).limit(),
                self@.len() <= self.limit(),
                self@ == after_input(old(self)@, old(self).limit(), data@.take(i as int)),
                fell_behind == (old(self)@.len() + i > old(self).limit()),
            decreases data@.len() - i,
        {
            let taken: bool = self.push(data[i]);
            if !taken {
                fell_behind = true;
            }
            i = i + 1;
        }
        fell_behind
    }

    /// The playback callback: fills `data` with the oldest samples, and with
    /// silence once the bridge is empty.  The result says whether silence
    /// was needed, that is, whether the capturing side fell behind.
    pub fn play_output(&mut self, data: &mut [u32]) -> (fell_behind: bool)
        ensures
            final(self).limit() == old(self).limit(),
            final(data)@ == output_of(old(self)@, old(data)@.len()),
            final(self)@ == after_output(old(self)@, old(data)@.len()),
            fell_behind == (old(data)@.len() > old(self)@.len()),
    {
        let mut fell_behind: bool = false;
        let count: usize = data.len();
        let mut i: usize = 0;
        while i < count
            invariant
                i <= count,
                count == data@.len(),
                count == old(data)@.len(),
                self.limit() == old(self).limit(),
                self@ == after_output(old(self)@, i as nat),
                data@.take(i as int) == output_of(old(self)@, i as nat),
                fell_behind == (i > old(self)@.len()),
            decreases count - i,
        {
            let ghost filled = data@;
            let sample: u32 = match self.pop() {
                Some(sample) => sample,
                None => {
                    fell_behind = true;
                    SILENCE
                },
            };
            data[i] = sample;
            proof {
                assert(data@.take(i as int) =~= filled.take(i as int));
            }
            i = i + 1;
        }
        fell_behind
    }
}

/// The bit pattern of the sample 0.0, which is what silence is made of.
pub const SILENCE: u32 = 0;

/// The queue after `data` was pushed, sample by sample, onto a queue that
/// holds `items` and at most `limit` samples: what fits is appended, the
/// rest is dropped.
pub open spec fn after_input(items: Seq<u32>, limit: nat, data: Seq<u32>) -> Seq<u32> {
    if items.len() + data.len() <= limit {
        items + data
    } else {
        items + data.take(limit - items.len())
    }
}

/// What `count` pops in a row yield from a queue that holds `items`: the
/// oldest samples first, then silence.
pub open spec fn output_of(items: Seq<u32>, count: nat) -> Seq<u32> {
    Seq::new(
        count,
        |i: int|
            if i < items.len() {
                items[i]
            } else {
                SILENCE
            },
    )
}

/// The queue after `count` pops in a row from a queue that holds `items`.
pub open spec fn after_output(items: Seq<u32>, count: nat) -> Seq<u32> {
    if count >= items.len() {
        Seq::<u32>::empty()
    } else {
        items.skip(count as int)
    }
}

/// First in, first out: samples pushed onto an empty bridge that has room for
/// all of them come out unchanged and in order, and leave the bridge empty.
pub proof fn lemma_first_in_first_out(limit: nat, data: Seq<u32>)
    requires
        data.len() <= limit,
    ensures
        after_input(Seq::<u32>::empty(), limit, data) == data,
        output_of(after_input(Seq::<u32>::empty(), limit, data), data.len()) == data,
        after_output(after_input(Seq::<u32>::empty(), limit, data), data.len()) == Seq::<u32>::empty(),
{
}

/// An empty bridge plays silence, and stays empty.
pub proof fn lemma_empty_plays_silence(count: nat)
    ensures
        output_of(Seq::<u32>::empty(), count) == Seq::new(count, |i: int| SILENCE),
        after_output(Seq::<u32>::empty(), count) == Seq::<u32>::empty(),
{
}

} // verus!
