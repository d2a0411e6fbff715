//! A bounded ring buffer over a fixed block of slots.

use vstd::prelude::*;

verus! {

/// The slot that holds the `i`-th item of a ring that starts at `start`.
pub(crate) open spec fn slot_index(start: int, i: int, capacity: int) -> int {
    if start + i < capacity {
        start + i
    } else {
        start + i - capacity
    }
}

/// A queue of at most `capacity` items, oldest first, that never
/// reallocates: items live in a fixed block of slots and the queue wraps
/// around its end.
pub(crate) struct Ring<T> {
    slots: Vec<T>,
    start: usize,
    len: usize,
}

impl<T> View for Ring<T> {
    type V = Seq<T>;

    closed spec fn view(&self) -> Seq<T> {
        Seq::new(
            self.len as nat,
            |i: int| self.slots@[slot_index(self.start as int, i, self.slots@.len() as int)],
        )
    }
}

impl<T: Copy> Ring<T> {
    /// The ring's indices are within its block of slots.
    pub(crate) closed spec fn wf(&self) -> bool {
        &&& 1 <= self.slots@.len() <= usize::MAX
        &&& self.start < self.slots@.len()
        &&& self.len <= self.slots@.len()
    }

    /// How many items the ring can hold.
    pub(crate) closed spec fn spec_capacity(&self) -> nat {
        self.slots@.len()
    }

    /// A well-formed ring holds no more than its capacity.
    pub(crate) proof fn lemma_bounded(&self)
        requires
            self.wf(),
        ensures
            self@.len() <= self.spec_capacity(),
            self.spec_capacity() >= 1,
            self.spec_capacity() <= usize::MAX,
    {
    }

    /// An empty ring of the given capacity. `fill` only occupies the slots
    /// until items are pushed.
    pub(crate) fn new(capacity: usize, fill: T) -> (r: Self)
        requires
            capacity >= 1,
        ensures
            r.wf(),
            r@ == Seq::<T>::empty(),
            r.spec_capacity() == capacity,
    {
        let mut slots: Vec<T> = Vec::new();
        while slots.len() < capacity
            invariant
                slots@.len() <= capacity,
            decreases capacity - slots@.len(),
        {
            slots.push(fill);
        }
        let r = Ring { slots, start: 0, len: 0 };
        assert(r@ =~= Seq::<T>::empty());
        r
    }

    /// How many items the ring can hold.
    pub(crate) fn capacity(&self) -> (r: usize)
        requires
            self.wf(),
        ensures
            r == self.spec_capacity(),
    {
        self.slots.len()
    }

    /// How many items the ring holds.
    pub(crate) fn len(&self) -> (r: usize)
        requires
            self.wf(),
        ensures
            r == self@.len(),
    {
        self.len
    }

    fn slot(&self, i: usize) -> (r: usize)
        requires
            self.wf(),
            i < self.slots@.len(),
        ensures
            r == slot_index(self.start as int, i as int, self.slots@.len() as int),
            r < self.slots@.len(),
    {
        let room: usize = self.slots.len() - self.start;
        if i < room {
            self.start + i
        } else {
            i - room
        }
    }

    /// The `i`-th item, counted from the oldest.
    pub(crate) fn get(&self, i: usize) -> (r: T)
        requires
            self.wf(),
            i < self@.len(),
        ensures
            r == self@[i as int],
    {
        let at: usize = self.slot(i);
        self.slots[at]
    }

    /// Replaces the `i`-th item, counted from the oldest.
    pub(crate) fn set(&mut self, i: usize, value: T)
        requires
            old(self).wf(),
            i < old(self)@.len(),
        ensures
            final(self).wf(),
            final(self).spec_capacity() == old(self).spec_capacity(),
            final(self)@ == old(self)@.update(i as int, value),
    {
        let at: usize = self.slot(i);
        self.slots[at] = value;
        assert(self@ =~= old(self)@.update(i as int, value));
    }

    /// Appends an item as the newest.
    pub(crate) fn push_back(&mut self, value: T)
        requires
            old(self).wf(),
            old(self)@.len() < old(self).spec_capacity(),
        ensures
            final(self).wf(),
            final(self).spec_capacity() == old(self).spec_capacity(),
            final(self)@ == old(self)@.push(value),
    {
        let at: usize = self.slot(self.len);
        self.slots[at] = value;
        self.len = self.len + 1;
        assert(self@ =~= old(self)@.push(value));
    }

    /// Removes the oldest item and returns it.
    pub(crate) fn pop_front(&mut self) -> (r: T)
        requires
            old(self).wf(),
            old(self)@.len() > 0,
        ensures
            final(self).wf(),
            final(self).spec_capacity() == old(self).spec_capacity(),
            r == old(self)@[0],
            final(self)@ == old(self)@.drop_first(),
    {
        let value = self.slots[self.start];
        if self.start + 1 == self.slots.len() {
            self.start = 0;
        } else {
            self.start = self.start + 1;
        }
        self.len = self.len - 1;
        assert(self@ =~= old(self)@.drop_first());
        value
    }

    /// Keeps the `n` oldest items and discards the rest.
    pub(crate) fn truncate(&mut self, n: usize)
        requires
            old(self).wf(),
            n <= old(self)@.len(),
        ensures
            final(self).wf(),
            final(self).spec_capacity() == old(self).spec_capacity(),
            final(self)@ == old(self)@.take(n as int),
    {
        self.len = n;
        assert(self@ =~= old(self)@.take(n as int));
    }
}

} // verus!
