//! The register alias table: for each architectural register, either its
//! committed value or the reorder-buffer slot that will produce it.

use vstd::prelude::*;
use crate::prim::ArchReg;
use crate::rob::{InFlightOp, ReorderBuffer};

verus! {

/// Token representing the value of an architectural register.
#[derive(Debug, Clone, Copy, PartialEq, Eq, Structural)]
pub enum ArchRegValue {
    /// This register has a concrete value.
    Valid(u32),
    /// This register is mapped to some microarchitectural register, i.e. a
    /// slot of a [ReorderBuffer].
    Name(usize),
}

/// What a register tag reads as, given the reorder buffer's slots: a value
/// reads as itself; a slot reads as its result once that slot holds a
/// completed instruction.
pub open spec fn resolve_tag(v: ArchRegValue, cells: Seq<Option<InFlightOp>>) -> Option<u32> {
    match v {
        ArchRegValue::Valid(data) => Some(data),
        ArchRegValue::Name(idx) => if idx < cells.len() && cells[idx as int] is Some {
            cells[idx as int]->Some_0.result
        } else {
            None
        },
    }
}

/// A register alias table (RAT).
///
/// This table maps names of architectural registers to either (a) a concrete
/// value, or (b) the name of some microarchitectural register - i.e. an entry
/// in a [ReorderBuffer].
#[derive(Debug)]
pub struct RegisterAliasTable {
    size: usize,
    table: Vec<ArchRegValue>,
}

impl RegisterAliasTable {
    pub closed spec fn wf(&self) -> bool {
        self.table@.len() == self.size
    }

    /// The tag of each architectural register, by index.
    pub closed spec fn view(&self) -> Seq<ArchRegValue> {
        self.table@
    }

    /// The number of registers fits a machine word.
    pub proof fn lemma_len(&self)
        requires
            self.wf(),
        ensures
            self@.len() <= usize::MAX,
    {
    }

    /// What register `r` currently reads as.
    pub open spec fn resolves_to(&self, r: ArchReg, rob: &ReorderBuffer) -> Option<u32> {
        resolve_tag(self@[r.0 as int], rob.cells())
    }

    /// A table of `size` registers, holding `initial_state` if one is given
    /// and `Valid(0)` in every register otherwise.
    pub fn new(size: usize, initial_state: Option<&[ArchRegValue]>) -> (r: Self)
        requires
            initial_state is Some ==> initial_state->Some_0@.len() == size,
        ensures
            r.wf(),
            r@.len() == size,
            initial_state is Some ==> r@ == initial_state->Some_0@,
            initial_state is None ==> r@ == Seq::new(size as nat, |i: int| ArchRegValue::Valid(0)),
    {
        let mut table: Vec<ArchRegValue> = Vec::new();
        let mut i: usize = 0;
        while i < size
            invariant
                i <= size,
                initial_state is Some ==> initial_state->Some_0@.len() == size,
                initial_state is Some ==> table@ == initial_state->Some_0@.take(i as int),
                initial_state is None ==> table@ == Seq::new(
                    i as nat,
                    |j: int| ArchRegValue::Valid(0),
                ),
            decreases size - i,
        {
            let v = match initial_state {
                Some(init) => init[i],
                None => ArchRegValue::Valid(0x0000_0000),
            };
            table.push(v);
            i = i + 1;
            proof {
                if initial_state is Some {
                    assert(table@ =~= initial_state->Some_0@.take(i as int));
                } else {
                    assert(table@ =~= Seq::new(i as nat, |j: int| ArchRegValue::Valid(0)));
                }
            }
        }
        proof {
            if initial_state is Some {
                assert(initial_state->Some_0@.take(size as int) =~= initial_state->Some_0@);
            }
        }
        Self { size, table }
    }

    /// The number of architectural registers.
    pub fn size(&self) -> (r: usize)
        requires
            self.wf(),
        ensures
            r == self@.len(),
    {
        self.size
    }

    /// The current tag of register `r`.
    pub fn read(&self, r: ArchReg) -> (v: ArchRegValue)
        requires
            self.wf(),
            r.0 < self@.len(),
        ensures
            v == self@[r.0 as int],
    {
        self.table[r.0]
    }

    /// Renames register `r` to the reorder-buffer slot `slot`.
    pub fn write_rename(&mut self, r: ArchReg, slot: usize)
        requires
            old(self).wf(),
            r.0 < old(self)@.len(),
        ensures
            final(self).wf(),
            final(self)@ == old(self)@.update(r.0 as int, ArchRegValue::Name(slot)),
    {
        self.table.set(r.0, ArchRegValue::Name(slot));
    }

    /// Commits `v`, produced by slot `slot`, to register `r`, but only if `r`
    /// is still renamed to that slot: a later rename supersedes the commit.
    pub fn commit(&mut self, r: ArchReg, slot: usize, v: u32)
        requires
            old(self).wf(),
            r.0 < old(self)@.len(),
        ensures
            final(self).wf(),
            old(self)@[r.0 as int] == ArchRegValue::Name(slot) ==> final(self)@ == old(self)@.update(
                r.0 as int,
                ArchRegValue::Valid(v),
            ),
            old(self)@[r.0 as int] != ArchRegValue::Name(slot) ==> final(self)@ == old(self)@,
    {
        match self.table[r.0] {
            ArchRegValue::Name(s) => {
                if s == slot {
                    self.table.set(r.0, ArchRegValue::Valid(v));
                }
            },
            ArchRegValue::Valid(_) => {},
        }
    }

    /// Try to resolve the data associated with an [ArchReg]: a value is
    /// returned as is; a renamed register yields its slot's result once that
    /// slot has completed, and `None` before.
    pub fn resolve(&self, r: ArchReg, rob: &ReorderBuffer) -> (v: Option<u32>)
        requires
            self.wf(),
            rob.wf(),
            r.0 < self@.len(),
        ensures
            v == self.resolves_to(r, rob),
    {
        match self.table[r.0] {
            ArchRegValue::Valid(data) => Some(data),
            ArchRegValue::Name(rob_idx) => {
                proof {
                    rob.lemma_slots();
                }
                if rob_idx >= rob.size() {
                    return None;
                }
                match rob.get(rob_idx) {
                    None => None,
                    Some(rob_entry) => rob_entry.result,
                }
            },
        }
    }
}

} // verus!
