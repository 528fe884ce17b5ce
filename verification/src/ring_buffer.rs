//! Fixed-capacity history buffer used for one-directional "navigate back"
//! semantics: pushing past capacity silently discards the oldest unread
//! entry, and popping returns the most recently pushed unread entry.

use vstd::prelude::*;

verus! {

/// A lossy, fixed-capacity buffer of prior values, oldest first.
///
/// The view is the sequence of unread entries, oldest at index 0 and the
/// most recently pushed entry last; its length never exceeds the capacity
/// chosen at construction.
#[derive(Clone)]
pub struct RingBuffer<T> where T: Clone {
    buffer: Vec<T>,
    size: usize,
}

impl<T: Clone> View for RingBuffer<T> {
    type V = Seq<T>;

    closed spec fn view(&self) -> Seq<T> {
        self.buffer@
    }
}

impl<T: Clone> RingBuffer<T> {
    /// Capacity fixed at construction: the largest number of unread
    /// entries the buffer retains.
    pub closed spec fn capacity(&self) -> nat {
        self.size as nat
    }

    /// The number of unread entries never exceeds the capacity.
    pub closed spec fn well_formed(&self) -> bool {
        self@.len() <= self.capacity() && self.capacity() >= 1
    }

    /// Creates an empty buffer that retains at most `size` entries.
    pub fn new(size: usize) -> (r: Self)
        requires
            size >= 1,
        ensures
            r.well_formed(),
            r.capacity() == size,
            r@ == Seq::<T>::empty(),
    {
        RingBuffer { buffer: Vec::new(), size }
    }

    /// Records a value. Always succeeds; when the buffer is full the
    /// oldest unread entry is evicted to make room.
    pub fn push(&mut self, item: T)
        requires
            old(self).well_formed(),
        ensures
            final(self).well_formed(),
            final(self).capacity() == old(self).capacity(),
            final(self)@ == if old(self)@.len() == old(self).capacity() {
                old(self)@.subrange(1, old(self)@.len() as int).push(item)
            } else {
                old(self)@.push(item)
            },
    {
        if self.buffer.len() == self.size {
            self.buffer.remove(0);
        }
        self.buffer.push(item);
    }

    /// Takes back the most recently pushed unread entry, or `None` when
    /// everything has been read.
    pub fn pop(&mut self) -> (r: Option<T>)
        requires
            old(self).well_formed(),
        ensures
            final(self).well_formed(),
            final(self).capacity() == old(self).capacity(),
            old(self)@.len() == 0 ==> r is None && final(self)@ == old(self)@,
            old(self)@.len() > 0 ==> r == Some(old(self)@.last())
                && final(self)@ == old(self)@.drop_last(),
    {
        self.buffer.pop()
    }

    /// True when no unread entry is left to pop.
    pub fn all_read(&self) -> (r: bool)
        ensures
            r == (self@.len() == 0),
    {
        self.buffer.len() == 0
    }
}

impl Default for RingBuffer<String> {
    /// The recommended default history depth.
    fn default() -> (r: Self)
        ensures
            r.well_formed(),
            r.capacity() == 10,
            r@ == Seq::<String>::empty(),
    {
        RingBuffer::new(10)
    }
}

} // verus!
