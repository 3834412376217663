//! A fixed-capacity window of scalars, kept as a circular array.
use vstd::prelude::*;

verus! {

/// The most recent samples of a stream, oldest first, at most `capacity` of
/// them. The storage is allocated once; a push never reallocates.
#[derive(Clone, Debug)]
pub struct Window {
    slots: Vec<i64>,
    head: usize,
    len: usize,
}

impl View for Window {
    type V = Seq<int>;

    /// The samples held, oldest first.
    closed spec fn view(&self) -> Seq<int> {
        Seq::new(self.len as nat, |i: int| self.slots@[self.slot_of(i)] as int)
    }
}

impl Window {
    /// Index into the storage of the `i`-th oldest sample.
    spec fn slot_of(&self, i: int) -> int {
        if self.head + i < self.slots@.len() {
            self.head + i
        } else {
            self.head + i - self.slots@.len()
        }
    }

    /// The storage is in place and the indices lie inside it.
    pub closed spec fn wf(&self) -> bool {
        &&& self.slots@.len() > 0
        &&& self.head < self.slots@.len()
        &&& self.len <= self.slots@.len()
    }

    /// The number of samples the window can hold.
    pub closed spec fn spec_capacity(&self) -> nat {
        self.slots@.len()
    }

    /// An empty window for `capacity` samples.
    pub fn new(capacity: usize) -> (w: Window)
        requires
            capacity > 0,
        ensures
            w.wf(),
            w.spec_capacity() == capacity,
            w@ == Seq::<int>::empty(),
    {
        let slots: Vec<i64> = vec![0i64; capacity];
        let w = Window { slots, head: 0, len: 0 };
        assert(w@ =~= Seq::<int>::empty());
        w
    }

    /// The number of samples the window can hold.
    pub fn capacity(&self) -> (c: usize)
        requires
            self.wf(),
        ensures
            c == self.spec_capacity(),
    {
        self.slots.len()
    }

    /// The number of samples held.
    pub fn len(&self) -> (n: usize)
        requires
            self.wf(),
        ensures
            n == self@.len(),
            n <= self.spec_capacity(),
    {
        self.len
    }

    /// No sample is held.
    pub fn is_empty(&self) -> (b: bool)
        requires
            self.wf(),
        ensures
            b == (self@.len() == 0),
    {
        self.len == 0
    }

    /// As many samples are held as the window can hold.
    pub fn is_full(&self) -> (b: bool)
        requires
            self.wf(),
        ensures
            b == (self@.len() == self.spec_capacity()),
    {
        self.len == self.slots.len()
    }

    /// The `i`-th oldest sample.
    pub fn get(&self, i: usize) -> (x: i64)
        requires
            self.wf(),
            i < self@.len(),
        ensures
            x == self@[i as int],
    {
        let cap: usize = self.slots.len();
        let idx: usize = if i < cap - self.head {
            self.head + i
        } else {
            i - (cap - self.head)
        };
        self.slots[idx]
    }

    /// The oldest sample.
    pub fn front(&self) -> (x: Option<i64>)
        requires
            self.wf(),
        ensures
            self@.len() == 0 ==> x.is_none(),
            self@.len() > 0 ==> x.is_some() && x.unwrap() == self@.first(),
    {
        if self.len == 0 {
            None
        } else {
            Some(self.get(0))
        }
    }

    /// The newest sample.
    pub fn back(&self) -> (x: Option<i64>)
        requires
            self.wf(),
        ensures
            self@.len() == 0 ==> x.is_none(),
            self@.len() > 0 ==> x.is_some() && x.unwrap() == self@.last(),
    {
        if self.len == 0 {
            None
        } else {
            Some(self.get(self.len - 1))
        }
    }

    /// Appends `x` as the newest sample.
    pub fn push_back(&mut self, x: i64)
        requires
            old(self).wf(),
            old(self)@.len() < old(self).spec_capacity(),
        ensures
            final(self).wf(),
            final(self).spec_capacity() == old(self).spec_capacity(),
            final(self)@ == old(self)@.push(x as int),
    {
        let cap: usize = self.slots.len();
        let idx: usize = if self.len < cap - self.head {
            self.head + self.len
        } else {
            self.len - (cap - self.head)
        };
        self.slots.set(idx, x);
        self.len = self.len + 1;
        assert(self@ =~= old(self)@.push(x as int));
    }

    /// Removes and returns the oldest sample.
    pub fn pop_front(&mut self) -> (x: Option<i64>)
        requires
            old(self).wf(),
        ensures
            final(self).wf(),
            final(self).spec_capacity() == old(self).spec_capacity(),
            old(self)@.len() == 0 ==> x.is_none() && final(self)@ == old(self)@,
            old(self)@.len() > 0 ==> x.is_some() && x.unwrap() == old(self)@.first() && final(self)@
                == old(self)@.skip(1),
    {
        if self.len == 0 {
            return None;
        }
        let cap: usize = self.slots.len();
        let x: i64 = self.slots[self.head];
        self.head = if self.head + 1 == cap {
            0
        } else {
            self.head + 1
        };
        self.len = self.len - 1;
        assert(self@ =~= old(self)@.skip(1));
        Some(x)
    }

    /// Removes and returns the newest sample.
    pub fn pop_back(&mut self) -> (x: Option<i64>)
        requires
            old(self).wf(),
        ensures
            final(self).wf(),
            final(self).spec_capacity() == old(self).spec_capacity(),
            old(self)@.len() == 0 ==> x.is_none() && final(self)@ == old(self)@,
            old(self)@.len() > 0 ==> x.is_some() && x.unwrap() == old(self)@.last() && final(self)@
                == old(self)@.drop_last(),
    {
        if self.len == 0 {
            return None;
        }
        let x: i64 = self.get(self.len - 1);
        self.len = self.len - 1;
        assert(self@ =~= old(self)@.drop_last());
        Some(x)
    }

    /// Drops every sample; the capacity stays.
    pub fn clear(&mut self)
        requires
            old(self).wf(),
        ensures
            final(self).wf(),
            final(self).spec_capacity() == old(self).spec_capacity(),
            final(self)@ == Seq::<int>::empty(),
    {
        self.head = 0;
        self.len = 0;
        assert(self@ =~= Seq::<int>::empty());
    }
}

} // verus!
