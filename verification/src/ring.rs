//! The lock-free single-producer single-consumer ring buffer of the
//! `ringbuf` crate, which carries samples from a sender to a listener: its
//! trusted declarations, and the library's handles on its two halves, which
//! remember which buffer they belong to and how much it holds.

use vstd::prelude::*;
use ringbuf::{Consumer, Producer, RingBuffer};

verus! {

#[verifier::external_type_specification]
#[verifier::external_body]
#[verifier::reject_recursive_types(T)]
pub struct ExRingBuffer<T>(RingBuffer<T>);

#[verifier::external_type_specification]
#[verifier::external_body]
#[verifier::reject_recursive_types(T)]
pub struct ExProducer<T>(Producer<T>);

#[verifier::external_type_specification]
#[verifier::external_body]
#[verifier::reject_recursive_types(T)]
pub struct ExConsumer<T>(Consumer<T>);

/// A ring buffer, with the number of elements it was made to hold.
#[verifier::reject_recursive_types(T)]
pub struct Ring<T> {
    rb: RingBuffer<T>,
    capacity: Ghost<nat>,
}

/// The producing half of a ring buffer, the only one of that buffer.
#[verifier::reject_recursive_types(T)]
pub struct RingProducer<T> {
    tx: Producer<T>,
    ring: Ghost<int>,
    capacity: Ghost<nat>,
    pushed: Ghost<nat>,
}

/// The consuming half of a ring buffer, the only one of that buffer.
#[verifier::reject_recursive_types(T)]
pub struct RingConsumer<T> {
    rx: Consumer<T>,
    ring: Ghost<int>,
    capacity: Ghost<nat>,
    taken: Ghost<Seq<T>>,
}

/// Calls `ringbuf::RingBuffer::new`, which allocates `capacity + 1` slots and
/// therefore overflows on `usize::MAX`. Nothing is claimed of the buffer
/// itself; `Ring::new` records the capacity it was asked for.
#[verifier::external_body]
fn ring_buffer_new<T>(capacity: usize) -> (rb: RingBuffer<T>)
    requires
        capacity < usize::MAX,
{
    RingBuffer::new(capacity)
}

/// Calls `ringbuf::RingBuffer::split`, which hands out the producing and the
/// consuming half of one and the same buffer (both hold an `Arc` of it). The
/// two halves get one ghost identity, the same for both, so that contracts
/// can say which halves belong together, and the capacity of the buffer;
/// nothing is claimed of the identity beyond that the halves share it. The
/// records of what went through each half start empty.
#[verifier::external_body]
fn ring_buffer_split<T>(ring: Ring<T>) -> (r: (RingProducer<T>, RingConsumer<T>))
    ensures
        r.0.ring() == r.1.ring(),
        r.0.capacity() == ring.capacity(),
        r.1.capacity() == ring.capacity(),
        r.0.pushed() == 0,
        r.1.taken() == Seq::<T>::empty(),
{
    let (tx, rx) = ring.rb.split();
    let id: Ghost<int> = Ghost(vstd::pervasive::arbitrary());
    (
        RingProducer { tx, ring: id, capacity: ring.capacity, pushed: Ghost(0) },
        RingConsumer { rx, ring: id, capacity: ring.capacity, taken: Ghost(Seq::empty()) },
    )
}

/// Calls `ringbuf::Producer::push_slice` on the producing half of `tx`,
/// which copies the longest prefix of `elems` that fits into the buffer's
/// free space and returns its length; the ghost part of the result is that
/// prefix. The free space is the capacity less what the buffer holds, and it
/// holds at most what was ever pushed through its only producing half
/// (`pushed`, which `RingProducer::push_slice` keeps), since the consuming
/// half only removes elements. So all of `elems` is taken, or at least
/// `capacity - pushed` elements are. How much more the consumer half
/// (possibly on another thread) has freed is left open. The ghost fields of
/// `tx` are not touched.
#[verifier::external_body]
fn producer_push_slice<T: Copy>(tx: &mut RingProducer<T>, elems: &[T]) -> (r: (usize, Ghost<Seq<T>>))
    ensures
        r.0 <= elems@.len(),
        r.1@ == elems@.subrange(0, r.0 as int),
        r.0 == elems@.len() || old(tx).pushed() + r.0 >= old(tx).capacity(),
        final(tx).ring() == old(tx).ring(),
        final(tx).capacity() == old(tx).capacity(),
        final(tx).pushed() == old(tx).pushed(),
{
    let n = tx.tx.push_slice(elems);
    (n, Ghost(elems@.subrange(0, n as int)))
}

/// Calls `ringbuf::Consumer::pop_slice`: moves the oldest elements of the
/// buffer into the front of `elems` and returns how many it moved, at most
/// `elems.len()`; the rest of `elems` is left as it was. Which values are
/// written depends on what the producer half pushed, so they are left open.
#[verifier::external_body]
fn consumer_pop_slice<T: Copy>(rx: &mut Consumer<T>, elems: &mut [T]) -> (n: usize)
    ensures
        n <= old(elems)@.len(),
        final(elems)@.len() == old(elems)@.len(),
        final(elems)@.subrange(n as int, final(elems)@.len() as int)
            == old(elems)@.subrange(n as int, old(elems)@.len() as int),
{
    rx.pop_slice(elems)
}

impl<T> Ring<T> {
    /// How many elements the buffer was made to hold.
    pub closed spec fn capacity(&self) -> nat {
        self.capacity@
    }

    /// An empty buffer for `capacity` elements.
    pub fn new(capacity: usize) -> (r: Self)
        requires
            capacity < usize::MAX,
        ensures
            r.capacity() == capacity,
    {
        Ring { rb: ring_buffer_new(capacity), capacity: Ghost(capacity as nat) }
    }

    /// The producing and the consuming half of this buffer.
    pub fn split(self) -> (r: (RingProducer<T>, RingConsumer<T>))
        ensures
            r.0.ring() == r.1.ring(),
            r.0.capacity() == self.capacity(),
            r.1.capacity() == self.capacity(),
            r.0.pushed() == 0,
            r.1.taken() == Seq::<T>::empty(),
    {
        ring_buffer_split(self)
    }
}

impl<T> RingProducer<T> {
    /// The buffer this half belongs to.
    pub closed spec fn ring(&self) -> int {
        self.ring@
    }

    /// How many elements that buffer holds.
    pub closed spec fn capacity(&self) -> nat {
        self.capacity@
    }

    /// How many elements were pushed through this half since the buffer was
    /// made.
    pub closed spec fn pushed(&self) -> nat {
        self.pushed@
    }
}

impl<T: Copy> RingProducer<T> {
    /// Pushes the longest prefix of `elems` that fits into the buffer; returns
    /// its length and, as a ghost, the prefix itself. All of `elems` goes in
    /// unless the buffer fills up.
    pub fn push_slice(&mut self, elems: &[T]) -> (r: (usize, Ghost<Seq<T>>))
        ensures
            r.0 <= elems@.len(),
            r.1@ == elems@.subrange(0, r.0 as int),
            r.0 == elems@.len() || old(self).pushed() + r.0 >= old(self).capacity(),
            final(self).pushed() == old(self).pushed() + r.0,
            final(self).ring() == old(self).ring(),
            final(self).capacity() == old(self).capacity(),
    {
        let r = producer_push_slice(self, elems);
        self.pushed = Ghost((self.pushed@ + r.0) as nat);
        r
    }
}

impl<T> RingConsumer<T> {
    /// The buffer this half belongs to.
    pub closed spec fn ring(&self) -> int {
        self.ring@
    }

    /// How many elements that buffer holds.
    pub closed spec fn capacity(&self) -> nat {
        self.capacity@
    }

    /// Every element taken out through this half, oldest first.
    pub closed spec fn taken(&self) -> Seq<T> {
        self.taken@
    }

    /// Gives up the handle for the bare consuming half.
    pub fn into_consumer(self) -> Consumer<T> {
        self.rx
    }
}

impl<T: Copy> RingConsumer<T> {
    /// Moves the oldest elements of the buffer into the front of `elems` and
    /// returns how many it moved; the rest of `elems` keeps its values.
    pub fn pop_slice(&mut self, elems: &mut [T]) -> (n: usize)
        ensures
            n <= old(elems)@.len(),
            final(elems)@.len() == old(elems)@.len(),
            final(elems)@.subrange(n as int, final(elems)@.len() as int)
                == old(elems)@.subrange(n as int, old(elems)@.len() as int),
            final(self).taken() == old(self).taken() + final(elems)@.subrange(0, n as int),
            final(self).ring() == old(self).ring(),
            final(self).capacity() == old(self).capacity(),
    {
        let n = consumer_pop_slice(&mut self.rx, elems);
        self.taken = Ghost(self.taken@ + elems@.subrange(0, n as int));
        n
    }
}

} // verus!
