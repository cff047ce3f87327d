//! Bounded FIFO containers used as one-way channels between the emulation
//! core and its collaborators.
//!
//! A `Ringbuffer` holds at most `capacity` elements (a capacity of zero acts
//! as a capacity of one); pushing onto a full buffer evicts the oldest
//! element, so a slow reader never blocks a writer.

use std::collections::VecDeque;
use vstd::prelude::*;

use crate::clock::Instant;

verus! {

/// A bounded FIFO that drops its oldest element on overflow.
pub struct Ringbuffer<T> {
    items: VecDeque<T>,
    capacity: usize,
}

/// A ringbuffer whose elements are tagged with the virtual clock at which
/// they were produced.
pub type ClockedRingbuffer<T> = Ringbuffer<(Instant, T)>;

impl<T> Ringbuffer<T> {
    /// The elements currently held, oldest first.
    pub closed spec fn view(&self) -> Seq<T> {
        self.items@
    }

    /// The bound this buffer was created with.
    pub closed spec fn spec_capacity(&self) -> usize {
        self.capacity
    }

    /// An empty buffer that will hold at most `capacity` elements.
    pub fn new(capacity: usize) -> (r: Ringbuffer<T>)
        ensures
            r.view() == Seq::<T>::empty(),
            r.spec_capacity() == capacity,
    {
        Ringbuffer { items: VecDeque::with_capacity(capacity), capacity }
    }

    /// Appends `value`, evicting the oldest element first when the buffer
    /// is full.
    pub fn push_back(&mut self, value: T)
        ensures
            old(self).view().len() < old(self).spec_capacity() ==> final(self).view() == old(self).view().push(value),
            old(self).view().len() >= old(self).spec_capacity() && old(self).view().len() > 0
                ==> final(self).view() == old(self).view().subrange(
                1,
                old(self).view().len() as int,
            ).push(value),
            old(self).view().len() == 0 ==> final(self).view() =~= seq![value],
            final(self).spec_capacity() == old(self).spec_capacity(),
    {
        if self.items.len() >= self.capacity {
            let _ = self.items.pop_front();
        }
        self.items.push_back(value);
        proof {
            if old(self).view().len() == 0 {
                assert(self.items@ =~= seq![value]);
            }
        }
    }

    /// Removes and returns the oldest element, or `None` when empty.
    pub fn pop_front(&mut self) -> (r: Option<T>)
        ensures
            final(self).spec_capacity() == old(self).spec_capacity(),
            match r {
                Some(v) => old(self).view().len() > 0 && v == old(self).view()[0]
                    && final(self).view() == old(self).view().subrange(
                    1,
                    old(self).view().len() as int,
                ),
                None => old(self).view().len() == 0 && final(self).view() == old(self).view(),
            },
    {
        self.items.pop_front()
    }

    /// Removes every element and returns the newest, or `None` when empty.
    pub fn drain_and_pop_latest(&mut self) -> (r: Option<T>)
        ensures
            final(self).view() == Seq::<T>::empty(),
            final(self).spec_capacity() == old(self).spec_capacity(),
            match r {
                Some(v) => old(self).view().len() > 0 && v == old(self).view()[old(self).view().len() - 1],
                None => old(self).view().len() == 0,
            },
    {
        let last = self.items.pop_back();
        self.items.clear();
        last
    }

    /// Removes and returns the elements with indices in `start..end`,
    /// oldest first; everything outside the range stays, in order.
    pub fn drain_and_pop_range(&mut self, start: usize, end: usize) -> (r: Vec<T>)
        requires
            start <= end <= old(self).view().len(),
        ensures
            r@ == old(self).view().subrange(start as int, end as int),
            final(self).view() == old(self).view().subrange(0, start as int) + old(self).view().subrange(
                end as int,
                old(self).view().len() as int,
            ),
            final(self).spec_capacity() == old(self).spec_capacity(),
    {
        let ghost orig: Seq<T> = self.view();
        let mut prefix: Vec<T> = Vec::new();
        while prefix.len() < start
            invariant
                start <= end <= orig.len(),
                prefix.len() <= start,
                prefix@ == orig.subrange(0, prefix.len() as int),
                self.view() == orig.subrange(prefix.len() as int, orig.len() as int),
                self.spec_capacity() == old(self).spec_capacity(),
            decreases start - prefix.len(),
        {
            let item = self.items.pop_front();
            match item {
                Some(v) => {
                    prefix.push(v);
                },
                None => {
                    proof {
                        assert(false);
                    }
                },
            }
            proof {
                assert(prefix@ =~= orig.subrange(0, prefix.len() as int));
                assert(self.items@ =~= orig.subrange(prefix.len() as int, orig.len() as int));
            }
        }
        let mut taken: Vec<T> = Vec::new();
        while taken.len() < end - start
            invariant
                start <= end <= orig.len(),
                taken.len() <= end - start,
                taken@ == orig.subrange(start as int, start as int + taken.len() as int),
                self.view() == orig.subrange(
                    start as int + taken.len() as int,
                    orig.len() as int,
                ),
                self.spec_capacity() == old(self).spec_capacity(),
            decreases end - start - taken.len(),
        {
            let item = self.items.pop_front();
            match item {
                Some(v) => {
                    taken.push(v);
                },
                None => {
                    proof {
                        assert(false);
                    }
                },
            }
            proof {
                assert(taken@ =~= orig.subrange(start as int, start as int + taken.len() as int));
                assert(self.items@ =~= orig.subrange(
                    start as int + taken.len() as int,
                    orig.len() as int,
                ));
            }
        }
        let mut back: usize = prefix.len();
        while back > 0
            invariant
                back == prefix.len(),
                back <= start,
                start <= end <= orig.len(),
                prefix@ == orig.subrange(0, back as int),
                self.view() == orig.subrange(back as int, start as int) + orig.subrange(
                    end as int,
                    orig.len() as int,
                ),
                self.spec_capacity() == old(self).spec_capacity(),
            decreases back,
        {
            back = back - 1;
            let item = prefix.pop();
            match item {
                Some(v) => {
                    self.items.push_front(v);
                },
                None => {
                    proof {
                        assert(false);
                    }
                },
            }
            proof {
                assert(prefix@ =~= orig.subrange(0, back as int));
                assert(self.items@ =~= orig.subrange(back as int, start as int) + orig.subrange(
                    end as int,
                    orig.len() as int,
                ));
            }
        }
        proof {
            assert(taken@ =~= old(self).view().subrange(start as int, end as int));
            assert(self.items@ =~= old(self).view().subrange(0, start as int) + old(self).view().subrange(
                end as int,
                old(self).view().len() as int,
            ));
        }
        taken
    }

    /// Whether the buffer holds no elements.
    pub fn is_empty(&self) -> (r: bool)
        ensures
            r == (self.view().len() == 0),
    {
        self.items.len() == 0
    }

    /// The number of elements currently held.
    pub fn len(&self) -> (r: usize)
        ensures
            r == self.view().len(),
    {
        self.items.len()
    }

    /// The bound this buffer was created with.
    pub fn capacity(&self) -> (r: usize)
        ensures
            r == self.spec_capacity(),
    {
        self.capacity
    }
}

impl<T: Copy> Ringbuffer<T> {
    /// Copies out the elements with indices in `start..end` without
    /// changing the buffer.
    pub fn peek_range(&self, start: usize, end: usize) -> (r: Vec<T>)
        requires
            start <= end <= self.view().len(),
        ensures
            r@ == self.view().subrange(start as int, end as int),
    {
        let mut taken: Vec<T> = Vec::new();
        let mut idx: usize = start;
        while idx < end
            invariant
                start <= idx <= end <= self.view().len(),
                taken@ == self.view().subrange(start as int, idx as int),
            decreases end - idx,
        {
            taken.push(self.items[idx]);
            idx = idx + 1;
            proof {
                assert(taken@ =~= self.view().subrange(start as int, idx as int));
            }
        }
        taken
    }
}

} // verus!
