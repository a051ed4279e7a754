//! A queue that holds a bounded number of items.
use vstd::prelude::*;
use std::collections::VecDeque;

verus! {

/// A queue of at most `capacity()` items. Items enter at the front; once the
/// queue is full, each one that enters pushes the one at the back out.
pub struct RingBuffer<T> {
    buffer: VecDeque<T>,
    max_size: usize,
}

impl<T> View for RingBuffer<T> {
    type V = Seq<T>;

    /// The items, from the one that entered last to the one that entered
    /// first.
    closed spec fn view(&self) -> Seq<T> {
        self.buffer@
    }
}

impl<T> RingBuffer<T> {
    /// The number of items that the queue holds at most.
    pub closed spec fn capacity(&self) -> usize {
        self.max_size
    }

    /// The invariant of the queue: it has room for an item, and holds no
    /// more items than it has room for.
    pub open spec fn wf(&self) -> bool {
        0 < self.capacity() && self@.len() <= self.capacity()
    }

    /// An empty queue with room for `max_size` items.
    pub fn new(max_size: usize) -> (r: Self)
        requires
            max_size > 0,
        ensures
            r.wf(),
            r.capacity() == max_size,
            r@.len() == 0,
    {
        RingBuffer { buffer: VecDeque::with_capacity(max_size), max_size }
    }

    /// Puts `value` at the front. Where the queue was full, the item at the
    /// back leaves first and is returned.
    pub fn push_front(&mut self, value: T) -> (removed: Option<T>)
        requires
            old(self).wf(),
        ensures
            final(self).wf(),
            final(self).capacity() == old(self).capacity(),
            old(self)@.len() < old(self).capacity() ==> removed is None && final(self)@ == seq![
                value,
            ] + old(self)@,
            old(self)@.len() == old(self).capacity() ==> removed == Some(old(self)@.last())
                && final(self)@ == seq![value] + old(self)@.drop_last(),
    {
        let removed = if self.is_full() {
            self.pop_back()
        } else {
            None
        };
        self.buffer.push_front(value);
        removed
    }

    /// Takes the item at the back out, if there is one.
    pub fn pop_back(&mut self) -> (removed: Option<T>)
        ensures
            final(self).capacity() == old(self).capacity(),
            old(self)@.len() == 0 ==> removed is None && final(self)@ == old(self)@,
            old(self)@.len() > 0 ==> removed == Some(old(self)@.last()) && final(self)@ == old(
                self,
            )@.drop_last(),
    {
        self.buffer.pop_back()
    }

    /// Whether the queue holds as many items as it has room for.
    pub fn is_full(&self) -> (r: bool)
        ensures
            r == (self@.len() >= self.capacity()),
    {
        self.len() >= self.max_size
    }

    /// The number of items held.
    pub fn len(&self) -> (r: usize)
        ensures
            r == self@.len(),
    {
        self.buffer.len()
    }
}

} // verus!
