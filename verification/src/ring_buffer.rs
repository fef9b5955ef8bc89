use std::collections::VecDeque;
use vstd::prelude::*;

verus! {

/// The last `capacity` items of `items` (all of them when there are fewer).
pub open spec fn keep_newest<T>(items: Seq<T>, capacity: nat) -> Seq<T> {
    if items.len() <= capacity {
        items
    } else {
        items.subrange(items.len() - capacity, items.len() as int)
    }
}

/// What a buffer of `capacity` that holds `contents` holds after `items` are
/// pushed one after the other.
pub open spec fn after_pushes<T>(contents: Seq<T>, items: Seq<T>, capacity: nat) -> Seq<T>
    decreases items.len(),
{
    if items.len() == 0 {
        contents
    } else {
        keep_newest(after_pushes(contents, items.drop_last(), capacity).push(items.last()), capacity)
    }
}

/// A buffer that starts empty holds, after any sequence of pushes, exactly the
/// newest `capacity` items pushed, oldest first; it never holds more than
/// `capacity` items, and with capacity 0 it stays empty.
pub proof fn lemma_keeps_newest<T>(items: Seq<T>, capacity: nat)
    ensures
        after_pushes(Seq::empty(), items, capacity) == keep_newest(items, capacity),
        after_pushes(Seq::empty(), items, capacity).len() <= capacity,
        capacity == 0 ==> after_pushes(Seq::empty(), items, capacity).len() == 0,
    decreases items.len(),
{
    if items.len() > 0 {
        lemma_keeps_newest(items.drop_last(), capacity);
        let prev = keep_newest(items.drop_last(), capacity);
        assert(keep_newest(prev.push(items.last()), capacity) =~= keep_newest(items, capacity));
    }
}

/// A buffer that holds at most `capacity` items and drops the oldest one
/// to make room for a new one.
#[derive(Debug)]
pub struct RingBuffer<T> {
    capacity: usize,
    values: VecDeque<T>,
}

impl<T> View for RingBuffer<T> {
    type V = Seq<T>;

    closed spec fn view(&self) -> Seq<T> {
        self.values@
    }
}

impl<T> RingBuffer<T> {
    /// The most items the buffer holds.
    pub closed spec fn capacity(&self) -> nat {
        self.capacity as nat
    }

    #[verifier::type_invariant]
    closed spec fn bounded(&self) -> bool {
        self.values@.len() <= self.capacity
    }
}

impl<T: Clone> Clone for RingBuffer<T> {
    fn clone(&self) -> (copy: Self)
        ensures
            copy.capacity() == self.capacity(),
            copy@.len() == self@.len(),
            forall|i: int| 0 <= i < self@.len() ==> cloned::<T>(self@[i], #[trigger] copy@[i]),
    {
        proof { use_type_invariant(self); }
        RingBuffer { capacity: self.capacity, values: self.values.clone() }
    }
}

impl<T: Clone> RingBuffer<T> {
    pub fn new(capacity: usize) -> (buffer: Self)
        ensures
            buffer@ == Seq::<T>::empty(),
            buffer.capacity() == capacity,
    {
        Self { capacity, values: VecDeque::with_capacity(capacity) }
    }

    pub fn push(&mut self, value: T)
        ensures
            final(self).capacity() == old(self).capacity(),
            final(self)@ == keep_newest(old(self)@.push(value), old(self).capacity()),
    {
        proof { use_type_invariant(&*self); }
        if self.capacity == 0 {
            return;
        }
        let mut values: VecDeque<T> = VecDeque::new();
        std::mem::swap(&mut values, &mut self.values);
        while values.len() >= self.capacity
            invariant
                self.capacity > 0,
                values@.len() <= self.capacity,
                keep_newest(values@.push(value), self.capacity as nat)
                    == keep_newest(old(self)@.push(value), self.capacity as nat),
                self.capacity == old(self).capacity,
            decreases values@.len(),
        {
            let ghost before = values@;
            values.pop_front();
            assert(keep_newest(values@.push(value), self.capacity as nat)
                =~= keep_newest(before.push(value), self.capacity as nat));
        }
        values.push_back(value);
        self.values = values;
    }

    pub fn to_vec(&self) -> (items: Vec<T>)
        ensures
            items@.len() == self@.len(),
            items@.len() <= self.capacity(),
            forall|i: int| 0 <= i < items@.len() ==> cloned::<T>(self@[i], #[trigger] items@[i]),
    {
        proof { use_type_invariant(self); }
        let mut items: Vec<T> = Vec::new();
        let mut i: usize = 0;
        while i < self.values.len()
            invariant
                i <= self.values@.len(),
                items@.len() == i,
                forall|j: int| 0 <= j < i ==> cloned::<T>(self.values@[j], #[trigger] items@[j]),
            decreases self.values@.len() - i,
        {
            let item = self.values[i].clone();
            items.push(item);
            i = i + 1;
        }
        items
    }
}

} // verus!
