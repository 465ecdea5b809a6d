//! A buffer that keeps the last few items pushed into it.
use vstd::prelude::*;

verus! {

/// A first-in, first-out buffer of bounded size: pushing into a full buffer drops the oldest
/// item.
#[derive(Debug, Clone)]
pub struct RingBuffer<T> {
    inner: Vec<T>,
    capacity: usize,
}

impl<T> RingBuffer<T> {
    /// The items, oldest first.
    pub closed spec fn items(&self) -> Seq<T> {
        self.inner@
    }

    /// The most items the buffer keeps.
    pub closed spec fn cap(&self) -> nat {
        self.capacity as nat
    }

    /// Whether the buffer holds no more items than it keeps, and keeps at least one.
    pub closed spec fn wf(&self) -> bool {
        0 < self.capacity && self.inner.len() <= self.capacity
    }

    /// A buffer holds no more items than it keeps.
    pub proof fn lemma_bounded(&self)
        requires
            self.wf(),
        ensures
            self.items().len() <= self.cap(),
            self.cap() > 0,
    {
    }

    /// An empty buffer that keeps the last `capacity` items.
    pub fn new(capacity: usize) -> (r: RingBuffer<T>)
        requires
            capacity > 0,
        ensures
            r.wf(),
            r.items() == Seq::<T>::empty(),
            r.cap() == capacity,
    {
        RingBuffer { inner: Vec::with_capacity(capacity), capacity }
    }

    /// Adds `item` as the newest, dropping the oldest when the buffer is full.
    pub fn push(&mut self, item: T)
        requires
            old(self).wf(),
        ensures
            final(self).wf(),
            final(self).cap() == old(self).cap(),
            final(self).items() == (if old(self).items().len() == old(self).cap() {
                old(self).items().drop_first().push(item)
            } else {
                old(self).items().push(item)
            }),
    {
        if self.inner.len() == self.capacity {
            self.inner.remove(0);
            self.inner.push(item);
        } else {
            self.inner.push(item);
        }
    }

    /// Takes out the oldest item, if there is any.
    pub fn pop(&mut self) -> (r: Option<T>)
        requires
            old(self).wf(),
        ensures
            final(self).wf(),
            final(self).cap() == old(self).cap(),
            old(self).items().len() == 0 ==> r is None && final(self).items() == old(self).items(),
            old(self).items().len() > 0 ==> r == Some(old(self).items()[0]) && final(self).items()
                == old(self).items().drop_first(),
    {
        if self.inner.len() == 0 {
            None
        } else {
            Some(self.inner.remove(0))
        }
    }

    /// The number of items held.
    pub fn len(&self) -> (r: usize)
        ensures
            r == self.items().len(),
    {
        self.inner.len()
    }

    /// The item at `i`, counting from the oldest.
    pub fn get(&self, i: usize) -> (r: &T)
        requires
            i < self.items().len(),
        ensures
            *r == self.items()[i as int],
    {
        &self.inner[i]
    }
}

} // verus!
