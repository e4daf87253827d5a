//! A circular buffer whose operations report their outcome as one result type.

use vstd::prelude::*;
use crate::prim;

verus! {

/// Result of some transaction with a [RingBuffer].
pub enum RingBufferResult<E> {
    /// Successfully pushed entry into the buffer at some index.
    Pushed(usize),
    /// Successfully popped entry from buffer at some index.
    Popped(E, usize),
    /// Failed to pop entry from the buffer (the buffer is empty).
    Empty,
    /// Failed to push entry into the buffer (the buffer is full).
    Full,
}

/// A circular buffer.
pub struct RingBuffer<E: Copy> {
    inner: prim::RingBuffer<E>,
}

impl<E: Copy> RingBuffer<E> {
    pub closed spec fn wf(&self) -> bool {
        self.inner.wf()
    }

    /// The stored elements in order, oldest first.
    pub closed spec fn view(&self) -> Seq<E> {
        self.inner.view()
    }

    pub closed spec fn capacity(&self) -> nat {
        self.inner.capacity()
    }

    /// The slot that the next pushed element takes.
    pub closed spec fn tail_index(&self) -> int {
        self.inner.tail_index()
    }

    /// The slot of the oldest element.
    pub closed spec fn head_index(&self) -> int {
        self.inner.head_index()
    }

    pub fn new(size: usize) -> (r: Self)
        requires
            size > 0,
        ensures
            r.wf(),
            r.capacity() == size,
            r.view() == Seq::<E>::empty(),
            r.head_index() == 0,
            r.tail_index() == 0,
    {
        Self { inner: prim::RingBuffer::new(size) }
    }

    pub fn push(&mut self, e: E) -> (r: RingBufferResult<E>)
        requires
            old(self).wf(),
        ensures
            final(self).wf(),
            final(self).capacity() == old(self).capacity(),
            old(self).view().len() == old(self).capacity() ==> r is Full && final(self).view()
                == old(self).view(),
            old(self).view().len() < old(self).capacity() ==> {
                &&& r == RingBufferResult::<E>::Pushed(old(self).tail_index() as usize)
                &&& final(self).view() == old(self).view().push(e)
                &&& final(self).head_index() == old(self).head_index()
                &&& final(self).tail_index() == prim::ring_index(
                    old(self).tail_index(),
                    1,
                    old(self).capacity() as int,
                )
            },
    {
        match self.inner.push(e) {
            Some(idx) => RingBufferResult::Pushed(idx),
            None => RingBufferResult::Full,
        }
    }

    pub fn pop(&mut self) -> (r: RingBufferResult<E>)
        requires
            old(self).wf(),
        ensures
            final(self).wf(),
            final(self).capacity() == old(self).capacity(),
            old(self).view().len() == 0 ==> r is Empty && final(self).view() == old(self).view(),
            old(self).view().len() > 0 ==> {
                &&& r == RingBufferResult::Popped(
                    old(self).view()[0],
                    old(self).head_index() as usize,
                )
                &&& final(self).view() == old(self).view().drop_first()
                &&& final(self).tail_index() == old(self).tail_index()
                &&& final(self).head_index() == prim::ring_index(
                    old(self).head_index(),
                    1,
                    old(self).capacity() as int,
                )
            },
    {
        match self.inner.pop() {
            Some((e, idx)) => RingBufferResult::Popped(e, idx),
            None => RingBufferResult::Empty,
        }
    }
}

} // verus!
