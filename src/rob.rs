//! The reorder buffer: in-flight instructions kept in program order until
//! they retire.

use vstd::prelude::*;
use crate::prim::{ring_index, ArchReg, RingBuffer};
use crate::sched::DispatchedOp;

verus! {

/// Token for a storage location, indicating where some result data will be
/// committed after an instruction has retired.
#[derive(Debug, Clone, Copy, PartialEq, Eq, Structural)]
pub enum StorageLoc {
    /// The name (index) of an architectural register.
    Reg(ArchReg),
    /// The name (address) of a memory location.
    Mem(u32),
    /// A sink with no writeback.
    Nowhere,
}

/// An in-flight instruction, stored in a [ReorderBuffer].
#[derive(Debug, Clone, Copy, PartialEq, Eq, Structural)]
pub struct InFlightOp {
    pub pc: u32,
    pub dst: StorageLoc,
    pub result: Option<u32>,
}

impl InFlightOp {
    pub fn new(pc: u32, dst: StorageLoc) -> (r: Self)
        ensures
            r == (InFlightOp { pc, dst, result: None }),
    {
        Self { pc, dst, result: None }
    }

    /// An entry is complete exactly when its result has been written.
    pub fn is_complete(&self) -> (r: bool)
        ensures
            r == self.result is Some,
    {
        self.result.is_some()
    }
}

/// Error code for transactions with a [ReorderBuffer].
#[derive(Debug, Clone, Copy, PartialEq, Eq, Structural)]
pub enum ROBError {
    /// The reorder buffer is full.
    Full,
    /// The reorder buffer is empty (or the addressed slot is).
    Empty,
    /// An entry could not be removed from the reorder buffer.
    Incomplete,
}

/// A ring buffer of in-flight instructions; the slot an instruction is
/// allocated in is its rename token.
#[derive(Debug)]
pub struct ReorderBuffer {
    data: RingBuffer<InFlightOp>,
}

impl ReorderBuffer {
    pub closed spec fn wf(&self) -> bool {
        self.data.wf()
    }

    /// The in-flight instructions, oldest first.
    pub closed spec fn view(&self) -> Seq<InFlightOp> {
        self.data.view()
    }

    /// The raw slots.
    pub closed spec fn cells(&self) -> Seq<Option<InFlightOp>> {
        self.data.cells()
    }

    pub closed spec fn capacity(&self) -> nat {
        self.data.capacity()
    }

    /// The slot of the oldest instruction (the retire pointer).
    pub closed spec fn head_index(&self) -> int {
        self.data.head_index()
    }

    /// The slot the next allocation takes (the issue pointer).
    pub closed spec fn tail_index(&self) -> int {
        self.data.tail_index()
    }

    /// The slot of the instruction at position `k`, oldest first.
    pub closed spec fn slot(&self, k: int) -> int {
        self.data.slot(k)
    }

    /// Facts that relate the program order to the slots.
    pub proof fn lemma_slots(&self)
        requires
            self.wf(),
        ensures
            self.view().len() <= self.capacity(),
            self.capacity() <= usize::MAX,
            self.cells().len() == self.capacity(),
            0 <= self.head_index() < self.capacity(),
            0 <= self.tail_index() < self.capacity(),
            self.view().len() < self.capacity() ==> self.cells()[self.tail_index()] is None,
            forall|k: int|
                0 <= k < self.view().len() ==> 0 <= #[trigger] self.slot(k) < self.capacity()
                    && self.cells()[self.slot(k)] == Some(self.view()[k]),
            forall|k: int, j: int|
                0 <= k < self.view().len() && 0 <= j < self.view().len() && k != j
                    ==> #[trigger] self.slot(k) != #[trigger] self.slot(j),
            self.view().len() > 0 ==> self.slot(0) == self.head_index(),
            self.view().len() < self.capacity() ==> self.slot(self.view().len() as int)
                == self.tail_index(),
            forall|i: int|
                0 <= i < self.capacity() ==> (#[trigger] self.cells()[i] is Some <==> exists|k: int|
                    0 <= k < self.view().len() && self.slot(k) == i),
            (self.view().len() == 0) == (self.cells()[self.head_index()] is None),
            self.view().len() == 0 ==> forall|i: int|
                0 <= i < self.capacity() ==> #[trigger] self.cells()[i] is None,
            self.view().len() == self.capacity() ==> forall|i: int|
                0 <= i < self.capacity() ==> #[trigger] self.cells()[i] is Some,
    {
        self.data.lemma_slots();
        assert forall|i: int| 0 <= i < self.capacity() implies (#[trigger] self.cells()[i] is Some
            <==> exists|k: int| 0 <= k < self.view().len() && self.slot(k) == i) by {
            if self.cells()[i] is Some {
                let k = choose|k: int| 0 <= k < self.data.view().len() && self.data.slot(k) == i;
                assert(self.slot(k) == i);
            }
        }
    }

    pub fn new(size: usize) -> (r: Self)
        requires
            size > 0,
        ensures
            r.wf(),
            r.capacity() == size,
            r.view() == Seq::<InFlightOp>::empty(),
            r.cells() == Seq::new(size as nat, |i: int| None::<InFlightOp>),
            r.head_index() == 0,
            r.tail_index() == 0,
    {
        Self { data: RingBuffer::new(size) }
    }

    /// The number of slots.
    pub fn size(&self) -> (r: usize)
        requires
            self.wf(),
        ensures
            r == self.capacity(),
    {
        self.data.size()
    }

    /// The slot of the oldest instruction (the retire pointer).
    pub fn head_slot(&self) -> (r: usize)
        requires
            self.wf(),
        ensures
            r == self.head_index(),
    {
        self.data.head()
    }

    /// The slot the next allocation takes (the issue pointer).
    pub fn tail_slot(&self) -> (r: usize)
        requires
            self.wf(),
        ensures
            r == self.tail_index(),
    {
        self.data.tail()
    }

    pub fn is_full(&self) -> (r: bool)
        requires
            self.wf(),
        ensures
            r == (self.view().len() == self.capacity()),
    {
        self.data.is_full()
    }

    pub fn is_empty(&self) -> (r: bool)
        requires
            self.wf(),
        ensures
            r == (self.view().len() == 0),
    {
        self.data.is_empty()
    }

    /// Allocates a slot for `e` at the tail; the slot is the rename token.
    pub fn push(&mut self, e: InFlightOp) -> (r: Result<usize, ROBError>)
        requires
            old(self).wf(),
        ensures
            final(self).wf(),
            final(self).capacity() == old(self).capacity(),
            old(self).view().len() == old(self).capacity() ==> r == Err::<usize, ROBError>(
                ROBError::Full,
            ) && *final(self) == *old(self),
            old(self).view().len() < old(self).capacity() ==> {
                &&& r == Ok::<usize, ROBError>(old(self).tail_index() as usize)
                &&& final(self).view() == old(self).view().push(e)
                &&& final(self).cells() == old(self).cells().update(
                    old(self).tail_index(),
                    Some(e),
                )
                &&& final(self).head_index() == old(self).head_index()
                &&& final(self).tail_index() == ring_index(
                    old(self).tail_index(),
                    1,
                    old(self).capacity() as int,
                )
                &&& forall|k: int| #[trigger] final(self).slot(k) == old(self).slot(k)
            },
    {
        match self.data.push(e) {
            Some(idx) => Ok(idx),
            None => Err(ROBError::Full),
        }
    }

    /// Removes the oldest instruction if it is complete.
    pub fn pop(&mut self) -> (r: Result<InFlightOp, ROBError>)
        requires
            old(self).wf(),
        ensures
            final(self).wf(),
            final(self).capacity() == old(self).capacity(),
            (old(self).view().len() == 0) == (old(self).cells()[old(self).head_index()] is None),
            old(self).view().len() == 0 ==> r == Err::<InFlightOp, ROBError>(ROBError::Empty),
            old(self).view().len() > 0 && old(self).view()[0].result is None ==> r == Err::<
                InFlightOp,
                ROBError,
            >(ROBError::Incomplete),
            r is Err ==> *final(self) == *old(self),
            old(self).view().len() > 0 && old(self).view()[0].result is Some ==> {
                &&& r == Ok::<InFlightOp, ROBError>(old(self).view()[0])
                &&& final(self).view() == old(self).view().drop_first()
                &&& final(self).cells() == old(self).cells().update(
                    old(self).head_index(),
                    None,
                )
                &&& final(self).tail_index() == old(self).tail_index()
                &&& final(self).head_index() == ring_index(
                    old(self).head_index(),
                    1,
                    old(self).capacity() as int,
                )
                &&& forall|k: int|
                    0 <= k && k + 1 < old(self).capacity() ==> #[trigger] final(self).slot(k)
                        == old(self).slot(k + 1)
            },
    {
        proof {
            self.data.lemma_slots();
        }
        if self.data.is_empty() {
            return Err(ROBError::Empty);
        }
        let head = self.data.get(self.data.head());
        let complete = match head {
            Some(e) => e.is_complete(),
            None => false,
        };
        if complete {
            match self.data.pop() {
                Some((e, _slot)) => Ok(e),
                None => Err(ROBError::Empty),
            }
        } else {
            Err(ROBError::Incomplete)
        }
    }

    /// The slot at `idx`.
    pub fn get(&self, idx: usize) -> (r: &Option<InFlightOp>)
        requires
            self.wf(),
            idx < self.capacity(),
        ensures
            *r == self.cells()[idx as int],
    {
        self.data.get(idx)
    }

    /// A mutable handle on the slot at `idx`. What is written through it lands
    /// in that slot; keeping the buffer well formed is the caller's concern.
    pub fn get_mut(&mut self, idx: usize) -> (r: &mut Option<InFlightOp>)
        requires
            old(self).wf(),
            idx < old(self).capacity(),
        ensures
            *r == old(self).cells()[idx as int],
            final(self).cells() == old(self).cells().update(idx as int, *final(r)),
            final(self).capacity() == old(self).capacity(),
            final(self).head_index() == old(self).head_index(),
            final(self).tail_index() == old(self).tail_index(),
    {
        self.data.get_mut(idx)
    }

    /// Retire the oldest instruction if it is complete, handing it back so
    /// that its result can be committed.
    pub fn retire(&mut self) -> (r: Option<InFlightOp>)
        requires
            old(self).wf(),
        ensures
            final(self).wf(),
            final(self).capacity() == old(self).capacity(),
            (old(self).view().len() == 0) == (old(self).cells()[old(self).head_index()] is None),
            old(self).view().len() == 0 || old(self).view()[0].result is None ==> r is None
                && *final(self) == *old(self),
            old(self).view().len() > 0 && old(self).view()[0].result is Some ==> {
                &&& r == Some(old(self).view()[0])
                &&& final(self).view() == old(self).view().drop_first()
                &&& final(self).cells() == old(self).cells().update(
                    old(self).head_index(),
                    None,
                )
                &&& final(self).tail_index() == old(self).tail_index()
                &&& final(self).head_index() == ring_index(
                    old(self).head_index(),
                    1,
                    old(self).capacity() as int,
                )
                &&& forall|k: int|
                    0 <= k && k + 1 < old(self).capacity() ==> #[trigger] final(self).slot(k)
                        == old(self).slot(k + 1)
            },
    {
        match self.pop() {
            Ok(e) => Some(e),
            Err(_e) => None,
        }
    }

    /// Writes `v` as the result of the instruction in slot `slot`, marking it
    /// complete. Fails with `Empty` when that slot holds no instruction.
    pub fn writeback(&mut self, slot: usize, v: u32) -> (r: Result<(), ROBError>)
        requires
            old(self).wf(),
        ensures
            final(self).wf(),
            final(self).capacity() == old(self).capacity(),
            final(self).head_index() == old(self).head_index(),
            final(self).tail_index() == old(self).tail_index(),
            forall|k: int| #[trigger] final(self).slot(k) == old(self).slot(k),
            final(self).view().len() == old(self).view().len(),
            (r is Ok) == (slot < old(self).capacity() && old(self).cells()[slot as int] is Some),
            r is Err ==> r == Err::<(), ROBError>(ROBError::Empty) && *final(self) == *old(self),
            r is Ok ==> final(self).cells() == old(self).cells().update(
                slot as int,
                Some(InFlightOp { result: Some(v), ..old(self).cells()[slot as int]->Some_0 }),
            ),
            r is Ok ==> forall|k: int|
                0 <= k < old(self).view().len() ==> #[trigger] final(self).view()[k] == if old(
                    self,
                ).slot(k) == slot {
                    InFlightOp { result: Some(v), ..old(self).view()[k] }
                } else {
                    old(self).view()[k]
                },
    {
        if slot >= self.data.size() {
            return Err(ROBError::Empty);
        }
        let cell = *self.data.get(slot);
        match cell {
            None => Err(ROBError::Empty),
            Some(e) => {
                proof {
                    self.data.lemma_slots();
                }
                let ghost pre = self.data;
                self.data.replace(slot, InFlightOp { result: Some(v), ..e });
                proof {
                    assert forall|k: int|
                        0 <= k < pre.view().len() implies #[trigger] self.data.view()[k] == if pre.slot(
                        k,
                    ) == slot {
                        InFlightOp { result: Some(v), ..pre.view()[k] }
                    } else {
                        pre.view()[k]
                    } by {
                        if pre.slot(k) == slot {
                            assert(pre.cells()[slot as int] == Some(pre.view()[k]));
                        }
                    }
                }
                Ok(())
            },
        }
    }

    /// Complete some instruction, writing the result carried by `op` to the
    /// corresponding entry. Fails with `Incomplete` when `op` carries no
    /// result, and with `Empty` when its slot holds no instruction.
    pub fn complete(&mut self, op: DispatchedOp) -> (r: Result<(), ROBError>)
        requires
            old(self).wf(),
        ensures
            op.res is None ==> r == Err::<(), ROBError>(ROBError::Incomplete) && *final(self)
                == *old(self),
            op.res is Some ==> ({
                let slot = op.rob_idx;
                let v = op.res->Some_0;
                &&& final(self).wf()
                &&& final(self).capacity() == old(self).capacity()
                &&& final(self).head_index() == old(self).head_index()
                &&& final(self).tail_index() == old(self).tail_index()
                &&& final(self).view().len() == old(self).view().len()
                &&& forall|k: int| #[trigger] final(self).slot(k) == old(self).slot(k)
                &&& (r is Ok) == (slot < old(self).capacity() && old(self).cells()[slot as int] is Some)
                &&& r is Err ==> r == Err::<(), ROBError>(ROBError::Empty) && *final(self) == *old(self)
                &&& r is Ok ==> final(self).cells() == old(self).cells().update(
                    slot as int,
                    Some(InFlightOp { result: Some(v), ..old(self).cells()[slot as int]->Some_0 }),
                )
            }),
    {
        match op.res {
            None => Err(ROBError::Incomplete),
            Some(v) => self.writeback(op.rob_idx, v),
        }
    }
}

} // verus!
