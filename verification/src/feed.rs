//! The producing half of a ring buffer, together with a record of every
//! element the buffer has accepted through it.

use vstd::prelude::*;
use crate::ring::RingProducer;

verus! {

/// A producing half and, in order, every element pushed through it that the
/// buffer took.
#[verifier::reject_recursive_types(T)]
pub struct Feed<T> {
    tx: RingProducer<T>,
    accepted: Ghost<Seq<T>>,
}

impl<T> Feed<T> {
    /// The producing half itself.
    pub closed spec fn producer(&self) -> RingProducer<T> {
        self.tx
    }

    /// Every element the buffer has taken through this feed, oldest first.
    pub closed spec fn accepted(&self) -> Seq<T> {
        self.accepted@
    }

    /// A feed for `tx` that has pushed nothing yet.
    pub fn new(tx: RingProducer<T>) -> (f: Self)
        ensures
            f.producer() == tx,
            f.accepted() == Seq::<T>::empty(),
    {
        Feed { tx, accepted: Ghost(Seq::empty()) }
    }

    /// Gives the producing half back.
    pub fn into_producer(self) -> (tx: RingProducer<T>)
        ensures
            tx == self.producer(),
    {
        self.tx
    }
}

impl<T: Copy> Feed<T> {
    /// Pushes the longest prefix of `elems` that fits into the buffer and
    /// returns its length: all of `elems` unless the buffer fills up.
    pub fn push(&mut self, elems: &[T]) -> (n: usize)
        ensures
            n <= elems@.len(),
            final(self).accepted() == old(self).accepted() + elems@.subrange(0, n as int),
            n == elems@.len() || old(self).producer().pushed() + n >= old(self).producer().capacity(),
            final(self).producer().pushed() == old(self).producer().pushed() + n,
            final(self).producer().ring() == old(self).producer().ring(),
            final(self).producer().capacity() == old(self).producer().capacity(),
    {
        let (n, Ghost(taken)) = self.tx.push_slice(elems);
        self.accepted = Ghost(self.accepted@ + taken);
        n
    }
}

} // verus!
