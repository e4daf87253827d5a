//! Primitive building blocks: architectural register names and a
//! fixed-capacity circular buffer.

use vstd::prelude::*;

verus! {

/// A name/index for an architectural register.
#[derive(Debug, Clone, Copy, PartialEq, Eq, Structural)]
pub struct ArchReg(pub usize);

/// A fixed-capacity circular buffer of optional cells with independent head
/// and tail indices.
///
/// The buffer is empty when the head cell is empty, and full when the head
/// and tail indices meet on an occupied cell.
#[derive(Debug)]
pub struct RingBuffer<E: Copy> {
    data: Vec<Option<E>>,
    head: usize,
    tail: usize,
    size: usize,
}

/// The index `k` places after `start` in a circle of `n` cells.
pub open spec fn ring_index(start: int, k: int, n: int) -> int {
    if start + k < n {
        start + k
    } else {
        start + k - n
    }
}

impl<E: Copy> RingBuffer<E> {
    /// The raw cells of the buffer, indexed by slot.
    pub closed spec fn cells(&self) -> Seq<Option<E>> {
        self.data@
    }

    /// The slot of the oldest element.
    pub closed spec fn head_index(&self) -> int {
        self.head as int
    }

    /// The slot that the next pushed element takes.
    pub closed spec fn tail_index(&self) -> int {
        self.tail as int
    }

    /// The number of cells.
    pub closed spec fn capacity(&self) -> nat {
        self.size as nat
    }

    /// The number of occupied cells, as read from the head and tail indices.
    pub closed spec fn len(&self) -> nat {
        if self.head == self.tail {
            if self.data@[self.head as int] is Some {
                self.size as nat
            } else {
                0
            }
        } else if self.head < self.tail {
            (self.tail - self.head) as nat
        } else {
            (self.tail + self.size - self.head) as nat
        }
    }

    /// The slot that holds the element at position `k`, counted from the head.
    pub closed spec fn slot(&self, k: int) -> int {
        ring_index(self.head as int, k, self.size as int)
    }

    /// How far slot `i` lies after the head.
    pub closed spec fn offset(&self, i: int) -> int {
        if i >= self.head {
            i - self.head
        } else {
            i + self.size - self.head
        }
    }

    /// The stored elements in order, oldest first.
    pub closed spec fn view(&self) -> Seq<E> {
        Seq::new(self.len(), |k: int| self.data@[self.slot(k)]->Some_0)
    }

    /// The cells in `[head, head + len)` (circularly) are occupied, the others
    /// are empty, and the tail is the first slot after the occupied run.
    pub closed spec fn wf(&self) -> bool {
        &&& self.size > 0
        &&& self.data@.len() == self.size
        &&& self.head < self.size
        &&& self.tail < self.size
        &&& self.tail == ring_index(self.head as int, self.len() as int, self.size as int)
            || (self.len() == self.size && self.tail == self.head)
        &&& forall|i: int|
            0 <= i < self.size ==> (#[trigger] self.data@[i] is Some <==> self.offset(i)
                < self.len())
    }

    /// Facts that relate the element order to the slots.
    pub proof fn lemma_slots(&self)
        requires
            self.wf(),
        ensures
            self.view().len() <= self.capacity(),
            self.capacity() <= usize::MAX,
            self.cells().len() == self.capacity(),
            0 <= self.head_index() < self.capacity(),
            0 <= self.tail_index() < self.capacity(),
            self.view().len() < self.capacity() ==> self.cells()[self.tail_index()] is None,
            forall|k: int|
                0 <= k < self.view().len() ==> 0 <= #[trigger] self.slot(k) < self.capacity()
                    && self.cells()[self.slot(k)] == Some(self.view()[k]),
            forall|k: int, j: int|
                0 <= k < self.view().len() && 0 <= j < self.view().len() && k != j ==> #[trigger] self.slot(k)
                    != #[trigger] self.slot(j),
            self.view().len() > 0 ==> self.slot(0) == self.head_index(),
            self.view().len() < self.capacity() ==> self.slot(self.view().len() as int)
                == self.tail_index(),
            forall|i: int|
                0 <= i < self.capacity() ==> (#[trigger] self.cells()[i] is Some <==> exists|k: int|
                    0 <= k < self.view().len() && self.slot(k) == i),
            (self.view().len() == 0) == (self.cells()[self.head_index()] is None),
            self.view().len() == 0 ==> forall|i: int|
                0 <= i < self.capacity() ==> #[trigger] self.cells()[i] is None,
            self.view().len() == self.capacity() ==> forall|i: int|
                0 <= i < self.capacity() ==> #[trigger] self.cells()[i] is Some,
    {
        assert forall|k: int| 0 <= k < self.len() implies 0 <= #[trigger] self.slot(k)
            < self.capacity() && self.cells()[self.slot(k)] == Some(self.view()[k]) by {
            let i = self.slot(k);
            assert(self.offset(i) == k);
            assert(self.data@[i] is Some);
        }
        if self.len() < self.capacity() {
            assert(self.offset(self.tail as int) == self.len());
        }
        assert forall|i: int| 0 <= i < self.capacity() implies (#[trigger] self.cells()[i] is Some
            <==> exists|k: int| 0 <= k < self.view().len() && self.slot(k) == i) by {
            if self.data@[i] is Some {
                assert(self.slot(self.offset(i)) == i);
            }
            if exists|k: int| 0 <= k < self.view().len() && self.slot(k) == i {
                let k = choose|k: int| 0 <= k < self.view().len() && self.slot(k) == i;
                assert(self.offset(self.slot(k)) == k);
            }
        }
        assert(self.offset(self.head as int) == 0);
    }

    pub fn new(size: usize) -> (r: Self)
        requires
            size > 0,
        ensures
            r.wf(),
            r.capacity() == size,
            r.view() == Seq::<E>::empty(),
            r.cells() == Seq::new(size as nat, |i: int| None::<E>),
            r.head_index() == 0,
            r.tail_index() == 0,
    {
        let mut data: Vec<Option<E>> = Vec::new();
        let mut i: usize = 0;
        while i < size
            invariant
                i <= size,
                data@ == Seq::new(i as nat, |j: int| None::<E>),
            decreases size - i,
        {
            data.push(None);
            i = i + 1;
        }
        let r = Self { size, head: 0, tail: 0, data };
        assert(r.len() == 0);
        assert(r.view() =~= Seq::<E>::empty());
        r
    }

    pub fn is_full(&self) -> (r: bool)
        requires
            self.wf(),
        ensures
            r == (self.view().len() == self.capacity()),
    {
        (self.head == self.tail) && self.data[self.head].is_some()
    }

    pub fn is_empty(&self) -> (r: bool)
        requires
            self.wf(),
        ensures
            r == (self.view().len() == 0),
    {
        proof {
            if self.data@[self.head as int] is None {
                assert(self.offset(self.head as int) == 0);
            }
        }
        self.data[self.head].is_none()
    }

    /// Appends `e` at the tail, returning the slot it took, or `None` when the
    /// buffer is full.
    pub fn push(&mut self, e: E) -> (r: Option<usize>)
        requires
            old(self).wf(),
        ensures
            final(self).wf(),
            final(self).capacity() == old(self).capacity(),
            old(self).view().len() == old(self).capacity() ==> r is None && *final(self)
                == *old(self),
            old(self).view().len() < old(self).capacity() ==> {
                &&& r == Some(old(self).tail_index() as usize)
                &&& final(self).view() == old(self).view().push(e)
                &&& final(self).cells() == old(self).cells().update(
                    old(self).tail_index(),
                    Some(e),
                )
                &&& final(self).head_index() == old(self).head_index()
                &&& forall|k: int| #[trigger] final(self).slot(k) == old(self).slot(k)
                &&& final(self).tail_index() == ring_index(
                    old(self).tail_index(),
                    1,
                    old(self).capacity() as int,
                )
            },
    {
        if (self.head == self.tail) && self.data[self.head].is_some() {
            None
        } else {
            proof {
                self.lemma_slots();
            }
            let ghost pre = *self;
            let tail = self.tail;
            self.data.set(tail, Some(e));
            self.tail = if tail + 1 == self.size {
                0
            } else {
                tail + 1
            };
            proof {
                assert(pre.len() < pre.size);
                assert(pre.offset(tail as int) == pre.len());
                assert(self.len() == pre.len() + 1);
                assert forall|i: int| 0 <= i < self.size implies (#[trigger] self.data@[i] is Some
                    <==> self.offset(i) < self.len()) by {
                    if i != tail {
                        assert(pre.data@[i] == self.data@[i]);
                    }
                }
                assert forall|k: int| 0 <= k < self.len() implies #[trigger] self.view()[k]
                    == pre.view().push(e)[k] by {
                    if k < pre.len() {
                        assert(pre.slot(k) != tail) by {
                            assert(pre.offset(pre.slot(k)) == k);
                        }
                    }
                }
                assert(self.view() =~= pre.view().push(e));
            }
            Some(tail)
        }
    }

    /// Removes the oldest element, returning it with the slot it held, or
    /// `None` when the buffer is empty.
    pub fn pop(&mut self) -> (r: Option<(E, usize)>)
        requires
            old(self).wf(),
        ensures
            final(self).wf(),
            final(self).capacity() == old(self).capacity(),
            old(self).view().len() == 0 ==> r is None && *final(self) == *old(self),
            old(self).view().len() > 0 ==> {
                &&& r == Some((old(self).view()[0], old(self).head_index() as usize))
                &&& final(self).view() == old(self).view().drop_first()
                &&& final(self).cells() == old(self).cells().update(
                    old(self).head_index(),
                    None,
                )
                &&& final(self).tail_index() == old(self).tail_index()
                &&& forall|k: int|
                    0 <= k && k + 1 < old(self).capacity() ==> #[trigger] final(self).slot(k)
                        == old(self).slot(k + 1)
                &&& final(self).head_index() == ring_index(
                    old(self).head_index(),
                    1,
                    old(self).capacity() as int,
                )
            },
    {
        proof {
            self.lemma_slots();
            if self.data@[self.head as int] is None {
                assert(self.offset(self.head as int) == 0);
            }
        }
        if self.data[self.head].is_none() {
            None
        } else {
            let ghost pre = *self;
            let head = self.head;
            let res = self.data[head].unwrap();
            self.data.set(head, None);
            self.head = if head + 1 == self.size {
                0
            } else {
                head + 1
            };
            proof {
                assert(pre.len() > 0);
                assert(res == pre.view()[0]);
                assert(self.len() == pre.len() - 1);
                assert forall|i: int| 0 <= i < self.size implies (#[trigger] self.data@[i] is Some
                    <==> self.offset(i) < self.len()) by {
                    if i != head {
                        assert(pre.data@[i] == self.data@[i]);
                    }
                }
                assert forall|k: int| 0 <= k < self.len() implies #[trigger] self.view()[k]
                    == pre.view().drop_first()[k] by {
                    assert(self.slot(k) == pre.slot(k + 1));
                }
                assert(self.view() =~= pre.view().drop_first());
            }
            Some((res, head))
        }
    }

    /// The number of cells.
    pub fn size(&self) -> (r: usize)
        requires
            self.wf(),
        ensures
            r == self.capacity(),
    {
        self.size
    }

    /// The slot of the oldest element.
    pub fn head(&self) -> (r: usize)
        requires
            self.wf(),
        ensures
            r == self.head_index(),
    {
        self.head
    }

    /// The slot that the next pushed element takes.
    pub fn tail(&self) -> (r: usize)
        requires
            self.wf(),
        ensures
            r == self.tail_index(),
    {
        self.tail
    }

    pub fn get(&self, idx: usize) -> (r: &Option<E>)
        requires
            self.wf(),
            idx < self.capacity(),
        ensures
            *r == self.cells()[idx as int],
    {
        &self.data[idx]
    }

    /// A mutable handle on the cell at `idx`. What is written through it
    /// lands in that cell; keeping the buffer well formed is the caller's
    /// concern.
    pub fn get_mut(&mut self, idx: usize) -> (r: &mut Option<E>)
        requires
            old(self).wf(),
            idx < old(self).capacity(),
        ensures
            *r == old(self).cells()[idx as int],
            final(self).cells() == old(self).cells().update(idx as int, *final(r)),
            final(self).capacity() == old(self).capacity(),
            final(self).head_index() == old(self).head_index(),
            final(self).tail_index() == old(self).tail_index(),
    {
        &mut self.data[idx]
    }

    /// Replaces an occupied cell's element, keeping every slot's occupancy.
    pub fn replace(&mut self, idx: usize, e: E)
        requires
            old(self).wf(),
            idx < old(self).capacity(),
            old(self).cells()[idx as int] is Some,
        ensures
            final(self).wf(),
            final(self).cells() == old(self).cells().update(idx as int, Some(e)),
            final(self).capacity() == old(self).capacity(),
            final(self).head_index() == old(self).head_index(),
            final(self).tail_index() == old(self).tail_index(),
            final(self).view().len() == old(self).view().len(),
            forall|k: int|
                0 <= k < old(self).view().len() ==> #[trigger] final(self).view()[k] == if old(
                    self,
                ).slot(k) == idx {
                    e
                } else {
                    old(self).view()[k]
                },
            forall|k: int| #[trigger] final(self).slot(k) == old(self).slot(k),
    {
        let ghost pre = *self;
        self.data.set(idx, Some(e));
        proof {
            assert(self.len() == pre.len());
            assert forall|i: int| 0 <= i < self.size implies (#[trigger] self.data@[i] is Some
                <==> self.offset(i) < self.len()) by {
                if i != idx {
                    assert(pre.data@[i] == self.data@[i]);
                }
            }
        }
    }
}

} // verus!
