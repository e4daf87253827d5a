//! Reservation stations: issued instructions wait here until both operands
//! have resolved, then leave as dispatched operations.

use vstd::prelude::*;
use crate::prim::ArchReg;
use crate::rat::{resolve_tag, ArchRegValue, RegisterAliasTable};
use crate::rob::{ReorderBuffer, StorageLoc};
use crate::unit::{unit_class, FunctionalUnitOp, UnitClass};

verus! {

/// Token for an operand.
#[derive(Debug, Copy, Clone, PartialEq, Eq, Structural)]
pub enum Operand {
    /// An architectural register.
    Reg(ArchReg),
    /// A signed immediate value.
    Imm(i32),
    /// A value captured when the instruction was issued.
    Value(u32),
    /// The result of the instruction in a slot of the reorder buffer, not
    /// yet produced when this instruction was issued.
    Slot(usize),
}

/// A register operand names one of `rat`'s registers.
pub open spec fn operand_in_range(op: Operand, rat: &RegisterAliasTable) -> bool {
    match op {
        Operand::Reg(r) => r.0 < rat@.len(),
        _ => true,
    }
}

/// What an operand reads as: an immediate as its two's-complement word, a
/// register as its table entry resolves.
pub open spec fn operand_value(op: Operand, rat: &RegisterAliasTable, rob: &ReorderBuffer) -> Option<
    u32,
> {
    match op {
        Operand::Imm(data) => Some(data as u32),
        Operand::Reg(r) => rat.resolves_to(r, rob),
        Operand::Value(v) => Some(v),
        Operand::Slot(idx) => resolve_tag(ArchRegValue::Name(idx), rob.cells()),
    }
}

impl Operand {
    pub fn resolve(&self, rat: &RegisterAliasTable, rob: &ReorderBuffer) -> (r: Option<u32>)
        requires
            rat.wf(),
            rob.wf(),
            operand_in_range(*self, rat),
        ensures
            r == operand_value(*self, rat, rob),
    {
        match self {
            Self::Imm(data) => Some(*data as u32),
            Self::Reg(reg) => rat.resolve(*reg, rob),
            Self::Value(v) => Some(*v),
            Self::Slot(idx) => {
                proof {
                    rob.lemma_slots();
                }
                if *idx >= rob.size() {
                    return None;
                }
                match rob.get(*idx) {
                    None => None,
                    Some(rob_entry) => rob_entry.result,
                }
            },
        }
    }
}

/// An issued instruction waiting for its operands.
#[derive(Debug, Copy, Clone, PartialEq, Eq, Structural)]
pub struct ReservationEntry {
    pub uop: FunctionalUnitOp,
    pub dst: StorageLoc,
    pub rob_idx: usize,
    pub op1: Operand,
    pub op2: Operand,
    /// Cycles spent waiting.
    pub stalled: usize,
}

/// Both operands of `e` name registers of `rat`.
pub open spec fn entry_in_range(e: ReservationEntry, rat: &RegisterAliasTable) -> bool {
    operand_in_range(e.op1, rat) && operand_in_range(e.op2, rat)
}

/// The operation `e` becomes once both of its operands resolve.
pub open spec fn ready_op(e: ReservationEntry, rat: &RegisterAliasTable, rob: &ReorderBuffer) -> Option<
    DispatchedOp,
> {
    match (operand_value(e.op1, rat, rob), operand_value(e.op2, rat, rob)) {
        (Some(x), Some(y)) => Some(
            DispatchedOp { uop: e.uop, dst: e.dst, res: None, rob_idx: e.rob_idx, x, y },
        ),
        _ => None,
    }
}

impl ReservationEntry {
    pub fn resolve(&self, rat: &RegisterAliasTable, rob: &ReorderBuffer) -> (r: Option<DispatchedOp>)
        requires
            rat.wf(),
            rob.wf(),
            entry_in_range(*self, rat),
        ensures
            r == ready_op(*self, rat, rob),
    {
        let data_x = self.op1.resolve(rat, rob);
        let data_y = self.op2.resolve(rat, rob);
        match (data_x, data_y) {
            (Some(x), Some(y)) => Some(
                DispatchedOp {
                    uop: self.uop,
                    dst: self.dst,
                    res: None,
                    rob_idx: self.rob_idx,
                    x,
                    y,
                },
            ),
            _ => None,
        }
    }
}

/// An operation sent to a functional unit, with its operand values captured.
#[derive(Debug, Copy, Clone, PartialEq, Eq, Structural)]
pub struct DispatchedOp {
    pub uop: FunctionalUnitOp,
    pub dst: StorageLoc,
    pub res: Option<u32>,
    pub rob_idx: usize,
    pub x: u32,
    pub y: u32,
}

/// Slot `i` of `slots` holds an entry for unit `class` whose operands
/// resolve.
pub open spec fn dispatchable(
    slots: Seq<Option<ReservationEntry>>,
    i: int,
    class: UnitClass,
    rat: &RegisterAliasTable,
    rob: &ReorderBuffer,
) -> bool {
    &&& slots[i] is Some
    &&& unit_class(slots[i]->Some_0.uop) == class
    &&& ready_op(slots[i]->Some_0, rat, rob) is Some
}

/// `op` once slot `slot` has produced `v`.
pub open spec fn forward_operand(op: Operand, slot: usize, v: u32) -> Operand {
    if op == Operand::Slot(slot) {
        Operand::Value(v)
    } else {
        op
    }
}

/// `e` once slot `slot` has produced `v`.
pub open spec fn forwarded(e: ReservationEntry, slot: usize, v: u32) -> ReservationEntry {
    ReservationEntry {
        op1: forward_operand(e.op1, slot, v),
        op2: forward_operand(e.op2, slot, v),
        ..e
    }
}

/// Slot `i` holds the lowest-index waiting entry for unit `class` whose
/// operands resolve.
pub open spec fn first_ready(
    slots: Seq<Option<ReservationEntry>>,
    i: int,
    class: UnitClass,
    rat: &RegisterAliasTable,
    rob: &ReorderBuffer,
) -> bool {
    &&& 0 <= i < slots.len()
    &&& dispatchable(slots, i, class, rat, rob)
    &&& forall|j: int| 0 <= j < i ==> !#[trigger] dispatchable(slots, j, class, rat, rob)
}

/// Which functional units are occupied, one flag per kind of unit.
#[derive(Debug, Copy, Clone, PartialEq, Eq, Structural)]
pub struct UnitBusy {
    pub add_sub: bool,
    pub logical: bool,
    pub compare: bool,
}

impl UnitBusy {
    /// Whether the unit of kind `class` is occupied.
    pub open spec fn busy_for(self, class: UnitClass) -> bool {
        match class {
            UnitClass::AddSub => self.add_sub,
            UnitClass::Logical => self.logical,
            UnitClass::Compare => self.compare,
        }
    }

    pub fn is_busy_for(&self, class: UnitClass) -> (r: bool)
        ensures
            r == self.busy_for(class),
    {
        match class {
            UnitClass::AddSub => self.add_sub,
            UnitClass::Logical => self.logical,
            UnitClass::Compare => self.compare,
        }
    }
}

/// Whether dispatch sends the entry in slot `i`: its unit is free and it is
/// the first ready entry of its kind.
pub open spec fn sent(
    slots: Seq<Option<ReservationEntry>>,
    i: int,
    rat: &RegisterAliasTable,
    rob: &ReorderBuffer,
    busy: UnitBusy,
) -> bool {
    &&& 0 <= i < slots.len()
    &&& slots[i] is Some
    &&& !busy.busy_for(unit_class(slots[i]->Some_0.uop))
    &&& first_ready(slots, i, unit_class(slots[i]->Some_0.uop), rat, rob)
}

/// The operations dispatch sends from the first `n` slots, in slot order.
pub open spec fn sent_ops(
    slots: Seq<Option<ReservationEntry>>,
    n: int,
    rat: &RegisterAliasTable,
    rob: &ReorderBuffer,
    busy: UnitBusy,
) -> Seq<DispatchedOp>
    decreases n,
{
    if n <= 0 {
        Seq::empty()
    } else {
        let pre = sent_ops(slots, n - 1, rat, rob, busy);
        if sent(slots, n - 1, rat, rob, busy) {
            pre.push(ready_op(slots[n - 1]->Some_0, rat, rob)->Some_0)
        } else {
            pre
        }
    }
}

/// An entry that waits one more cycle.
pub open spec fn aged(e: ReservationEntry) -> ReservationEntry {
    ReservationEntry {
        stalled: if e.stalled < usize::MAX {
            (e.stalled + 1) as usize
        } else {
            e.stalled
        },
        ..e
    }
}

/// A fixed number of reservation slots, any of which can hold any operation.
pub struct Scheduler {
    pub slots: Vec<Option<ReservationEntry>>,
}

impl Scheduler {
    /// Every waiting entry's operands name registers of `rat`.
    pub open spec fn entries_in_range(&self, rat: &RegisterAliasTable) -> bool {
        forall|i: int|
            0 <= i < self.slots@.len() && #[trigger] self.slots@[i] is Some ==> entry_in_range(
                self.slots@[i]->Some_0,
                rat,
            )
    }

    /// The number of free slots.
    pub open spec fn free_count(slots: Seq<Option<ReservationEntry>>) -> nat
        decreases slots.len(),
    {
        if slots.len() == 0 {
            0
        } else {
            Self::free_count(slots.drop_last()) + if slots.last() is None {
                1nat
            } else {
                0nat
            }
        }
    }

    /// Four empty reservation slots.
    pub fn new() -> (r: Self)
        ensures
            r.slots@ == Seq::new(4, |i: int| None::<ReservationEntry>),
    {
        Self::with_slots(4)
    }

    /// `count` empty reservation slots.
    pub fn with_slots(count: usize) -> (r: Self)
        ensures
            r.slots@ == Seq::new(count as nat, |i: int| None::<ReservationEntry>),
    {
        let mut slots: Vec<Option<ReservationEntry>> = Vec::new();
        let mut i: usize = 0;
        while i < count
            invariant
                i <= count,
                slots@ == Seq::new(i as nat, |j: int| None::<ReservationEntry>),
            decreases count - i,
        {
            slots.push(None);
            i = i + 1;
        }
        Self { slots }
    }

    pub fn is_full(&self) -> (r: bool)
        ensures
            r == forall|i: int| 0 <= i < self.slots@.len() ==> #[trigger] self.slots@[i] is Some,
    {
        let mut i: usize = 0;
        while i < self.slots.len()
            invariant
                i <= self.slots@.len(),
                forall|j: int| 0 <= j < i ==> #[trigger] self.slots@[j] is Some,
            decreases self.slots@.len() - i,
        {
            if self.slots[i].is_none() {
                return false;
            }
            i = i + 1;
        }
        true
    }

    pub fn free_slots(&self) -> (r: usize)
        ensures
            r == Self::free_count(self.slots@),
    {
        let mut count: usize = 0;
        let mut i: usize = 0;
        while i < self.slots.len()
            invariant
                i <= self.slots@.len(),
                count == Self::free_count(self.slots@.take(i as int)),
                count <= i,
            decreases self.slots@.len() - i,
        {
            proof {
                assert(self.slots@.take(i + 1).drop_last() =~= self.slots@.take(i as int));
            }
            if self.slots[i].is_none() {
                count = count + 1;
            }
            i = i + 1;
        }
        proof {
            assert(self.slots@.take(i as int) =~= self.slots@);
        }
        count
    }

    /// Places `e` in the lowest-index free slot and returns that index, or
    /// fails when every slot is occupied.
    pub fn reserve(&mut self, e: ReservationEntry) -> (r: Result<usize, ()>)
        ensures
            r is Err <==> forall|i: int|
                0 <= i < old(self).slots@.len() ==> #[trigger] old(self).slots@[i] is Some,
            r is Err ==> final(self).slots@ == old(self).slots@,
            r is Ok ==> {
                let idx = r->Ok_0 as int;
                &&& 0 <= idx < old(self).slots@.len()
                &&& old(self).slots@[idx] is None
                &&& forall|j: int| 0 <= j < idx ==> #[trigger] old(self).slots@[j] is Some
                &&& final(self).slots@ == old(self).slots@.update(idx, Some(e))
            },
    {
        let mut i: usize = 0;
        while i < self.slots.len()
            invariant
                i <= self.slots@.len(),
                self.slots@ == old(self).slots@,
                forall|j: int| 0 <= j < i ==> #[trigger] self.slots@[j] is Some,
            decreases self.slots@.len() - i,
        {
            if self.slots[i].is_none() {
                self.slots.set(i, Some(e));
                return Ok(i);
            }
            i = i + 1;
        }
        Err(())
    }

    /// Scans the slots in index order and sends, for each kind of unit that
    /// is free in `busy`, the first entry of that kind whose operands
    /// resolve; its slot is freed. Every other entry keeps its slot and ages
    /// by one cycle, so an entry whose unit is taken waits for a later cycle.
    pub fn dispatch(
        &mut self,
        rat: &RegisterAliasTable,
        rob: &ReorderBuffer,
        busy: UnitBusy,
    ) -> (r: Vec<DispatchedOp>)
        requires
            rat.wf(),
            rob.wf(),
            old(self).entries_in_range(rat),
        ensures
            r@ == sent_ops(old(self).slots@, old(self).slots@.len() as int, rat, rob, busy),
            final(self).slots@.len() == old(self).slots@.len(),
            forall|i: int|
                0 <= i < old(self).slots@.len() ==> #[trigger] final(self).slots@[i] == if sent(
                    old(self).slots@,
                    i,
                    rat,
                    rob,
                    busy,
                ) {
                    None
                } else {
                    match old(self).slots@[i] {
                        Some(e) => Some(aged(e)),
                        None => None,
                    }
                },
    {
        let ghost slots0 = self.slots@;
        let mut res: Vec<DispatchedOp> = Vec::new();
        let mut seen_add_sub = false;
        let mut seen_logical = false;
        let mut seen_compare = false;
        let mut i: usize = 0;
        while i < self.slots.len()
            invariant
                i <= self.slots@.len(),
                self.slots@.len() == slots0.len(),
                rat.wf(),
                rob.wf(),
                forall|j: int|
                    0 <= j < slots0.len() && #[trigger] slots0[j] is Some ==> entry_in_range(
                        slots0[j]->Some_0,
                        rat,
                    ),
                seen_add_sub == exists|j: int|
                    0 <= j < i && #[trigger] dispatchable(slots0, j, UnitClass::AddSub, rat, rob),
                seen_logical == exists|j: int|
                    0 <= j < i && #[trigger] dispatchable(slots0, j, UnitClass::Logical, rat, rob),
                seen_compare == exists|j: int|
                    0 <= j < i && #[trigger] dispatchable(slots0, j, UnitClass::Compare, rat, rob),
                res@ == sent_ops(slots0, i as int, rat, rob, busy),
                forall|j: int| i <= j < slots0.len() ==> #[trigger] self.slots@[j] == slots0[j],
                forall|j: int|
                    0 <= j < i ==> #[trigger] self.slots@[j] == if sent(slots0, j, rat, rob, busy) {
                        None
                    } else {
                        match slots0[j] {
                            Some(e) => Some(aged(e)),
                            None => None,
                        }
                    },
            decreases self.slots@.len() - i,
        {
            let ghost idx = i as int;
            match self.slots[i] {
                Some(e) => {
                    let class = e.uop.class();
                    let ready = e.resolve(rat, rob);
                    let seen = match class {
                        UnitClass::AddSub => seen_add_sub,
                        UnitClass::Logical => seen_logical,
                        UnitClass::Compare => seen_compare,
                    };
                    proof {
                        assert(seen == exists|j: int|
                            0 <= j < idx && #[trigger] dispatchable(slots0, j, class, rat, rob));
                        if ready is Some && !seen {
                            assert(first_ready(slots0, idx, class, rat, rob));
                        }
                        if seen {
                            assert(!first_ready(slots0, idx, class, rat, rob));
                        }
                    }
                    match ready {
                        Some(op) => {
                            match class {
                                UnitClass::AddSub => seen_add_sub = true,
                                UnitClass::Logical => seen_logical = true,
                                UnitClass::Compare => seen_compare = true,
                            }
                            if !seen && !busy.is_busy_for(class) {
                                res.push(op);
                                self.slots.set(i, None);
                            } else {
                                self.slots.set(i, Some(age_entry(e)));
                            }
                        },
                        None => {
                            self.slots.set(i, Some(age_entry(e)));
                        },
                    }
                    proof {
                        assert(dispatchable(slots0, idx, class, rat, rob) == (ready is Some));
                    }
                },
                None => {},
            }
            i = i + 1;
            proof {
                assert(seen_add_sub == exists|j: int|
                    0 <= j < i && #[trigger] dispatchable(slots0, j, UnitClass::AddSub, rat, rob)) by {
                    if seen_add_sub { } else { assert(!dispatchable(slots0, idx, UnitClass::AddSub, rat, rob)); }
                }
                assert(seen_logical == exists|j: int|
                    0 <= j < i && #[trigger] dispatchable(slots0, j, UnitClass::Logical, rat, rob)) by {
                    if seen_logical { } else { assert(!dispatchable(slots0, idx, UnitClass::Logical, rat, rob)); }
                }
                assert(seen_compare == exists|j: int|
                    0 <= j < i && #[trigger] dispatchable(slots0, j, UnitClass::Compare, rat, rob)) by {
                    if seen_compare { } else { assert(!dispatchable(slots0, idx, UnitClass::Compare, rat, rob)); }
                }
            }
        }
        res
    }

    /// Takes out the lowest-index entry for unit `class` whose operands
    /// resolve, returning its slot and the operation it becomes; `None`, with
    /// nothing changed, when there is no such entry.
    pub fn take_ready(&mut self, class: UnitClass, rat: &RegisterAliasTable, rob: &ReorderBuffer) -> (r:
        Option<(usize, DispatchedOp)>)
        requires
            rat.wf(),
            rob.wf(),
            old(self).entries_in_range(rat),
        ensures
            r is None ==> final(self).slots@ == old(self).slots@ && forall|i: int|
                0 <= i < old(self).slots@.len() ==> !#[trigger] dispatchable(old(self).slots@, i, class, rat, rob),
            r is Some ==> {
                let (idx, op) = r->Some_0;
                &&& 0 <= idx < old(self).slots@.len()
                &&& dispatchable(old(self).slots@, idx as int, class, rat, rob)
                &&& Some(op) == ready_op(old(self).slots@[idx as int]->Some_0, rat, rob)
                &&& forall|j: int| 0 <= j < idx ==> !#[trigger] dispatchable(old(self).slots@, j, class, rat, rob)
                &&& final(self).slots@ == old(self).slots@.update(idx as int, None)
            },
    {
        let mut i: usize = 0;
        while i < self.slots.len()
            invariant
                i <= self.slots@.len(),
                self.slots@ == old(self).slots@,
                rat.wf(),
                rob.wf(),
                self.entries_in_range(rat),
                forall|j: int| 0 <= j < i ==> !#[trigger] dispatchable(self.slots@, j, class, rat, rob),
            decreases self.slots@.len() - i,
        {
            match self.slots[i] {
                Some(e) => {
                    if e.uop.class() == class {
                        match e.resolve(rat, rob) {
                            Some(op) => {
                                self.slots.set(i, None);
                                return Some((i, op));
                            },
                            None => {},
                        }
                    }
                },
                None => {},
            }
            i = i + 1;
        }
        None
    }

    /// Hands `v`, just produced by slot `slot`, to every entry waiting on it.
    pub fn forward(&mut self, slot: usize, v: u32)
        ensures
            final(self).slots@.len() == old(self).slots@.len(),
            forall|i: int|
                0 <= i < old(self).slots@.len() ==> #[trigger] final(self).slots@[i] == match old(
                    self,
                ).slots@[i] {
                    Some(e) => Some(forwarded(e, slot, v)),
                    None => None,
                },
    {
        let mut i: usize = 0;
        while i < self.slots.len()
            invariant
                i <= self.slots@.len(),
                self.slots@.len() == old(self).slots@.len(),
                forall|j: int| i <= j < self.slots@.len() ==> #[trigger] self.slots@[j] == old(self).slots@[j],
                forall|j: int|
                    0 <= j < i ==> #[trigger] self.slots@[j] == match old(self).slots@[j] {
                        Some(e) => Some(forwarded(e, slot, v)),
                        None => None,
                    },
            decreases self.slots@.len() - i,
        {
            match self.slots[i] {
                Some(e) => {
                    let op1 = if e.op1 == Operand::Slot(slot) {
                        Operand::Value(v)
                    } else {
                        e.op1
                    };
                    let op2 = if e.op2 == Operand::Slot(slot) {
                        Operand::Value(v)
                    } else {
                        e.op2
                    };
                    self.slots.set(i, Some(ReservationEntry { op1, op2, ..e }));
                },
                None => {},
            }
            i = i + 1;
        }
    }

    /// Every waiting entry ages by one cycle.
    pub fn age_waiting(&mut self)
        ensures
            final(self).slots@.len() == old(self).slots@.len(),
            forall|i: int|
                0 <= i < old(self).slots@.len() ==> #[trigger] final(self).slots@[i] == match old(
                    self,
                ).slots@[i] {
                    Some(e) => Some(aged(e)),
                    None => None,
                },
    {
        let mut i: usize = 0;
        while i < self.slots.len()
            invariant
                i <= self.slots@.len(),
                self.slots@.len() == old(self).slots@.len(),
                forall|j: int| i <= j < self.slots@.len() ==> #[trigger] self.slots@[j] == old(self).slots@[j],
                forall|j: int|
                    0 <= j < i ==> #[trigger] self.slots@[j] == match old(self).slots@[j] {
                        Some(e) => Some(aged(e)),
                        None => None,
                    },
            decreases self.slots@.len() - i,
        {
            match self.slots[i] {
                Some(e) => {
                    self.slots.set(i, Some(age_entry(e)));
                },
                None => {},
            }
            i = i + 1;
        }
    }
}

/// `e`, having waited one more cycle.
fn age_entry(e: ReservationEntry) -> (r: ReservationEntry)
    ensures
        r == aged(e),
{
    let stalled = if e.stalled < usize::MAX {
        e.stalled + 1
    } else {
        e.stalled
    };
    ReservationEntry { stalled, ..e }
}

/// Dispatches from `sch` to the units that are free in `busy`: for each such
/// kind, the lowest-index entry whose operands resolve leaves its slot; every
/// other entry stays and ages by one cycle.
pub fn dispatch(
    sch: &mut Scheduler,
    rat: &RegisterAliasTable,
    rob: &ReorderBuffer,
    busy: UnitBusy,
) -> (r: Vec<DispatchedOp>)
    requires
        rat.wf(),
        rob.wf(),
        old(sch).entries_in_range(rat),
    ensures
        r@ == sent_ops(old(sch).slots@, old(sch).slots@.len() as int, rat, rob, busy),
        final(sch).slots@.len() == old(sch).slots@.len(),
        forall|i: int|
            0 <= i < old(sch).slots@.len() ==> #[trigger] final(sch).slots@[i] == if sent(
                old(sch).slots@,
                i,
                rat,
                rob,
                busy,
            ) {
                None
            } else {
                match old(sch).slots@[i] {
                    Some(e) => Some(aged(e)),
                    None => None,
                }
            },
{
    sch.dispatch(rat, rob, busy)
}

} // verus!
