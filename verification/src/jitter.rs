//! The jitter buffer: a bounded queue of samples in arrival order.
//!
//! Appending past the capacity drops the oldest samples, so the buffer always
//! holds the most recent window.  A playback tick takes one batch of fixed
//! size from the front, or nothing when less than a batch is waiting.

use vstd::prelude::*;
use crate::ring::{output_of, SILENCE};

verus! {

/// The last `limit` elements of `s`, or all of `s` when it is no longer than that.
pub open spec fn recent_window<T>(s: Seq<T>, limit: nat) -> Seq<T> {
    if s.len() <= limit {
        s
    } else {
        s.subrange(s.len() - limit, s.len() as int)
    }
}

/// The window is never longer than the limit, and it is the end of what
/// was appended: the most recent samples, in the order in which they came.
pub proof fn lemma_recent_window<T>(s: Seq<T>, limit: nat)
    ensures
        recent_window(s, limit).len() == if s.len() <= limit {
            s.len()
        } else {
            limit
        },
        forall|i: int|
            0 <= i < recent_window(s, limit).len() ==> #[trigger] recent_window(s, limit)[i] == s[s.len()
                - recent_window(s, limit).len() + i],
{
}

/// When no more samples arrive than the limit holds, all of them are kept:
/// they are the end of the window.
pub proof fn lemma_window_keeps_arrivals<T>(held: Seq<T>, arriving: Seq<T>, limit: nat)
    requires
        arriving.len() <= limit,
    ensures
        recent_window(held + arriving, limit).len() >= arriving.len(),
        recent_window(held + arriving, limit).skip(
            recent_window(held + arriving, limit).len() - arriving.len(),
        ) == arriving,
{
    lemma_recent_window(held + arriving, limit);
}

/// A bounded first-in first-out queue that is emptied one batch at a time.
#[derive(Debug)]
pub struct BatchBuffer<T> {
    batch_size: usize,
    capacity: usize,
    buffer: Vec<T>,
}

impl<T> BatchBuffer<T> {
    #[verifier::type_invariant]
    spec fn within_limit(&self) -> bool {
        self.buffer@.len() <= self.capacity
    }
}

impl<T: Copy> BatchBuffer<T> {
    /// The samples that wait, oldest first.
    pub closed spec fn view(&self) -> Seq<T> {
        self.buffer@
    }

    /// The number of samples that one tick takes.
    pub closed spec fn batch_len(&self) -> nat {
        self.batch_size as nat
    }

    /// The largest number of samples that the buffer keeps.
    pub closed spec fn limit(&self) -> nat {
        self.capacity as nat
    }

    /// An empty buffer that keeps at most one batch.
    pub fn new(batch_size: usize) -> (b: BatchBuffer<T>)
        ensures
            b@ == Seq::<T>::empty(),
            b.batch_len() == batch_size,
            b.limit() == batch_size,
    {
        BatchBuffer { batch_size, capacity: batch_size, buffer: Vec::new() }
    }

    /// An empty buffer that keeps at most `capacity` samples.
    pub fn with_capacity(batch_size: usize, capacity: usize) -> (b: BatchBuffer<T>)
        ensures
            b@ == Seq::<T>::empty(),
            b.batch_len() == batch_size,
            b.limit() == capacity,
    {
        BatchBuffer { batch_size, capacity, buffer: Vec::new() }
    }

    /// The number of samples that one tick takes.
    pub fn batch_size(&self) -> (n: usize)
        ensures
            n == self.batch_len(),
    {
        self.batch_size
    }

    /// The largest number of samples that the buffer keeps.
    pub fn capacity(&self) -> (n: usize)
        ensures
            n == self.limit(),
    {
        self.capacity
    }

    /// The number of samples that wait.
    pub fn len(&self) -> (n: usize)
        ensures
            n == self@.len(),
            n <= self.limit(),
    {
        proof {
            use_type_invariant(self);
        }
        self.buffer.len()
    }

    /// Takes one batch from the front.  Nothing is taken, and nothing
    /// changes, while less than a batch is waiting or the batch size is zero.
    pub fn next(&mut self) -> (batch: Option<Vec<T>>)
        ensures
            final(self).batch_len() == old(self).batch_len(),
            final(self).limit() == old(self).limit(),
            old(self).batch_len() > 0 && old(self)@.len() >= old(self).batch_len() ==> {
                &&& batch matches Some(b)
                &&& b@ == old(self)@.take(old(self).batch_len() as int)
                &&& final(self)@ == old(self)@.skip(old(self).batch_len() as int)
            },
            old(self).batch_len() == 0 || old(self)@.len() < old(self).batch_len() ==> {
                &&& batch is None
                &&& final(self)@ == old(self)@
            },
    {
        proof {
            use_type_invariant(&*self);
        }
        if self.batch_size == 0 || self.buffer.len() < self.batch_size {
            return None;
        }
        let mut batch: Vec<T> = Vec::new();
        core::mem::swap(&mut self.buffer, &mut batch);
        let mut rest: Vec<T> = batch.split_off(self.batch_size);
        core::mem::swap(&mut self.buffer, &mut rest);
        Some(batch)
    }

    /// Appends `items` in order, then drops the oldest samples beyond the capacity.
    pub fn extend(&mut self, items: &[T])
        ensures
            final(self).batch_len() == old(self).batch_len(),
            final(self).limit() == old(self).limit(),
            final(self)@ == recent_window(old(self)@ + items@, old(self).limit()),
    {
        proof {
            use_type_invariant(&*self);
        }
        let mut all: Vec<T> = Vec::new();
        core::mem::swap(&mut self.buffer, &mut all);
        let mut i: usize = 0;
        while i < items.len()
            invariant
                i <= items@.len(),
                all@ == old(self)@ + items@.take(i as int),
                self.buffer@.len() == 0,
                self.batch_size == old(self).batch_size,
                self.capacity == old(self).capacity,
            decreases items@.len() - i,
        {
            all.push(items[i]);
            assert(items@.take(i + 1) =~= items@.take(i as int).push(items@[i as int]));
            i = i + 1;
        }
        assert(items@.take(i as int) =~= items@);
        let excess: usize = if all.len() > self.capacity {
            all.len() - self.capacity
        } else {
            0
        };
        let mut kept: Vec<T> = all.split_off(excess);
        core::mem::swap(&mut self.buffer, &mut kept);
    }

    /// Appends one sample, then drops the oldest one if the capacity is exceeded.
    pub fn push(&mut self, to_push: T)
        ensures
            final(self).batch_len() == old(self).batch_len(),
            final(self).limit() == old(self).limit(),
            final(self)@ == recent_window(old(self)@.push(to_push), old(self).limit()),
    {
        let one: [T; 1] = [to_push];
        self.extend(&one);
    }

    /// The samples that wait, oldest first.
    pub fn as_slice(&self) -> (samples: &[T])
        ensures
            samples@ == self@,
            samples@.len() <= self.limit(),
    {
        proof {
            use_type_invariant(self);
        }
        self.buffer.as_slice()
    }

    /// Takes everything that waits.  Nothing is taken from an empty buffer.
    pub fn take_all(&mut self) -> (batch: Option<Vec<T>>)
        ensures
            final(self).batch_len() == old(self).batch_len(),
            final(self).limit() == old(self).limit(),
            final(self)@ == Seq::<T>::empty(),
            batch is Some <==> old(self)@.len() > 0,
            batch matches Some(b) ==> b@ == old(self)@,
    {
        if self.buffer.len() == 0 {
            return None;
        }
        let mut batch: Vec<T> = Vec::new();
        core::mem::swap(&mut self.buffer, &mut batch);
        Some(batch)
    }
}

impl BatchBuffer<u32> {
    /// A playback tick: takes one batch and writes it to `data`, as far as
    /// `data` has room, with silence after it.  While less than a batch is
    /// waiting, nothing is taken and `data` is all silence; the result says so.
    pub fn play(&mut self, data: &mut [u32]) -> (underrun: bool)
        ensures
            final(self).batch_len() == old(self).batch_len(),
            final(self).limit() == old(self).limit(),
            underrun == (old(self).batch_len() == 0 || old(self)@.len() < old(self).batch_len()),
            !underrun ==> {
                &&& final(self)@ == old(self)@.skip(old(self).batch_len() as int)
                &&& final(data)@ == output_of(
                    old(self)@.take(old(self).batch_len() as int),
                    old(data)@.len(),
                )
            },
            underrun ==> {
                &&& final(self)@ == old(self)@
                &&& final(data)@ == output_of(Seq::<u32>::empty(), old(data)@.len())
            },
    {
        let batch: Option<Vec<u32>> = self.next();
        let underrun: bool = batch.is_none();
        let samples: Vec<u32> = match batch {
            Some(samples) => samples,
            None => Vec::new(),
        };
        let count: usize = data.len();
        let mut i: usize = 0;
        while i < count
            invariant
                i <= count,
                count == data@.len(),
                data@.take(i as int) == output_of(samples@, i as nat),
            decreases count - i,
        {
            let ghost filled = data@;
            let sample: u32 = if i < samples.len() {
                samples[i]
            } else {
                SILENCE
            };
            data[i] = sample;
            proof {
                assert(data@.take(i as int) =~= filled.take(i as int));
            }
            i = i + 1;
        }
        underrun
    }
}

} // verus!
