//! The pipeline driver: owns the alias table, the reorder buffer, the
//! reservation stations and the functional units, and advances them one
//! cycle at a time.

use vstd::prelude::*;
use crate::isa::{alu_uop, ALUOp, Opcode};
use crate::prim::ArchReg;
use crate::rat::{ArchRegValue, RegisterAliasTable};
use crate::rob::{InFlightOp, ReorderBuffer, StorageLoc};
use crate::sched::{
    aged, dispatchable, entry_in_range, first_ready, forwarded, ready_op, DispatchedOp, Operand,
    ReservationEntry, Scheduler,
};
use crate::unit::unit_class;
use crate::unit::{executed, AddSubUnit, ComparatorUnit, ExecutionUnit, LogicalOpUnit, UnitClass};

verus! {

/// Decodes `inst` for a core with `nregs` registers.
pub fn decode_inst(inst: Opcode, nregs: usize) -> (r: Option<(ArchReg, Operand, Operand, ALUOp)>)
    ensures
        r == decode(inst, nregs as nat),
{
    match inst {
        Opcode::Op(rd, rs1, rs2, op) => if rd.0 < nregs && rs1.0 < nregs && rs2.0 < nregs {
            Some((rd, Operand::Reg(rs1), Operand::Reg(rs2), op))
        } else {
            None
        },
        Opcode::OpImm(rd, rs1, imm, op) => if op != ALUOp::Sub && rd.0 < nregs && rs1.0 < nregs {
            Some((rd, Operand::Reg(rs1), Operand::Imm(imm), op))
        } else {
            None
        },
        _ => None,
    }
}

/// A fatal condition that stops the simulation.
#[derive(Debug, Clone, Copy, PartialEq, Eq, Structural)]
pub enum CoreError {
    /// The instruction is outside the supported subset (or names a register
    /// the core does not have).
    UnsupportedInstruction,
}

/// What the issue stage did with the offered instruction.
#[derive(Debug, Clone, Copy, PartialEq, Eq, Structural)]
pub enum IssueOutcome {
    /// Nothing was offered.
    NoInstruction,
    /// Admitted: the instruction holds reorder-buffer slot `rob_slot` and
    /// reservation slot `station`.
    Issued { rob_slot: usize, station: usize },
    /// Stalled: the reorder buffer is full.
    RobFull,
    /// Stalled: every reservation slot is occupied.
    StationsFull,
}

/// What an instruction asks of the core: its destination, its two source
/// operands and its operation; `None` for what the core does not support.
/// The sources are still register names here.
pub open spec fn decode(inst: Opcode, nregs: nat) -> Option<(ArchReg, Operand, Operand, ALUOp)> {
    match inst {
        Opcode::Op(rd, rs1, rs2, op) => if rd.0 < nregs && rs1.0 < nregs && rs2.0 < nregs {
            Some((rd, Operand::Reg(rs1), Operand::Reg(rs2), op))
        } else {
            None
        },
        Opcode::OpImm(rd, rs1, imm, op) => if op != ALUOp::Sub && rd.0 < nregs && rs1.0 < nregs {
            Some((rd, Operand::Reg(rs1), Operand::Imm(imm), op))
        } else {
            None
        },
        _ => None,
    }
}

/// A source operand as captured at issue: a register whose tag resolves
/// becomes its value, one still waiting becomes the slot it waits on;
/// immediates stay as they are.
pub open spec fn captured(op: Operand, rat: &RegisterAliasTable, rob: &ReorderBuffer) -> Operand {
    match op {
        Operand::Reg(r) => match rat.resolves_to(r, rob) {
            Some(v) => Operand::Value(v),
            None => match rat@[r.0 as int] {
                ArchRegValue::Name(s) => Operand::Slot(s),
                ArchRegValue::Valid(v) => Operand::Value(v),
            },
        },
        _ => op,
    }
}

/// The reorder-buffer slot an optional reservation refers to.
pub open spec fn entry_token(e: Option<ReservationEntry>) -> Option<usize> {
    match e {
        Some(e) => Some(e.rob_idx),
        None => None,
    }
}

/// The reorder-buffer slot an optional unit operation refers to.
pub open spec fn op_token(o: Option<DispatchedOp>) -> Option<usize> {
    match o {
        Some(o) => Some(o.rob_idx),
        None => None,
    }
}

/// Slot `s` holds an instruction that has not completed.
pub open spec fn live(rob: &ReorderBuffer, s: usize) -> bool {
    &&& s < rob.capacity()
    &&& rob.cells()[s as int] is Some
    &&& rob.cells()[s as int]->Some_0.result is None
}

/// A unit's operation that has its result and is ready to be written back.
pub open spec fn finished(o: Option<DispatchedOp>) -> bool {
    o is Some && o->Some_0.res is Some
}

/// `cell` with the result of `o` written into it if `o` finished for slot `s`.
pub open spec fn written(cell: Option<InFlightOp>, s: int, o: Option<DispatchedOp>) -> Option<
    InFlightOp,
> {
    if finished(o) && o->Some_0.rob_idx == s && cell is Some {
        Some(InFlightOp { result: o->Some_0.res, ..cell->Some_0 })
    } else {
        cell
    }
}

/// `e` after the result of `o`, if it finished, was handed to waiting entries.
pub open spec fn forwarded_by(e: ReservationEntry, o: Option<DispatchedOp>) -> ReservationEntry {
    if finished(o) {
        forwarded(e, o->Some_0.rob_idx, o->Some_0.res->Some_0)
    } else {
        e
    }
}

/// What a unit holds after the writeback stage: nothing if its operation
/// finished, else what it held.
pub open spec fn after_writeback(o: Option<DispatchedOp>) -> Option<DispatchedOp> {
    if finished(o) {
        None
    } else {
        o
    }
}

/// What a unit holds after the execute stage.
pub open spec fn after_execute(o: Option<DispatchedOp>) -> Option<DispatchedOp> {
    match o {
        Some(op) => Some(executed(op)),
        None => None,
    }
}

/// What the writeback stage does, taking the core from `pre` to `post`.
pub open spec fn writeback_step(pre: Core, post: Core) -> bool {
    &&& post.rat@ == pre.rat@
    &&& post.pc == pre.pc
    &&& post.asu.pending() == after_writeback(pre.asu.pending())
    &&& post.lou.pending() == after_writeback(pre.lou.pending())
    &&& post.cru.pending() == after_writeback(pre.cru.pending())
    &&& post.rob.capacity() == pre.rob.capacity()
    &&& post.rob.view().len() == pre.rob.view().len()
    &&& post.rob.cells().len() == pre.rob.cells().len()
    &&& forall|s: int|
        0 <= s < pre.rob.cells().len() ==> #[trigger] post.rob.cells()[s]
            == written(
            written(
                written(pre.rob.cells()[s], s, pre.asu.pending()),
                s,
                pre.lou.pending(),
            ),
            s,
            pre.cru.pending(),
        )
    &&& post.sched.slots@.len() == pre.sched.slots@.len()
    &&& forall|i: int|
        0 <= i < pre.sched.slots@.len() ==> #[trigger] post.sched.slots@[i]
            == match pre.sched.slots@[i] {
            Some(e) => Some(
                forwarded_by(
                    forwarded_by(
                        forwarded_by(e, pre.asu.pending()),
                        pre.lou.pending(),
                    ),
                    pre.cru.pending(),
                ),
            ),
            None => None,
        }
}

/// What the retire stage does, taking the core from `pre` to `post`.
pub open spec fn retire_step(pre: Core, post: Core, r: Option<InFlightOp>) -> bool {
    &&& post.sched.slots@ == pre.sched.slots@
    &&& post.asu.pending() == pre.asu.pending()
    &&& post.lou.pending() == pre.lou.pending()
    &&& post.cru.pending() == pre.cru.pending()
    &&& post.pc == pre.pc
    &&& post.rob.capacity() == pre.rob.capacity()
    &&& pre.rob.view().len() == 0 || pre.rob.view()[0].result is None ==> {
        &&& r is None
        &&& post.rob.view() == pre.rob.view()
        &&& post.rob.cells() == pre.rob.cells()
        &&& post.rat@ == pre.rat@
    }
    &&& pre.rob.view().len() > 0 && pre.rob.view()[0].result is Some ==> {
        let e = pre.rob.view()[0];
        let rd = e.dst->Reg_0.0 as int;
        &&& r == Some(e)
        &&& post.rob.view() == pre.rob.view().drop_first()
        &&& post.rob.cells() == pre.rob.cells().update(
            pre.rob.head_index(),
            None,
        )
        &&& post.rat@ == if pre.rat@[rd] == ArchRegValue::Name(
            pre.rob.head_index() as usize,
        ) {
            pre.rat@.update(rd, ArchRegValue::Valid(e.result->Some_0))
        } else {
            pre.rat@
        }
    }
}

/// What the execute stage does, taking the core from `pre` to `post`.
pub open spec fn execute_step(pre: Core, post: Core) -> bool {
    &&& post.rat@ == pre.rat@
    &&& post.rob == pre.rob
    &&& post.sched.slots@ == pre.sched.slots@
    &&& post.pc == pre.pc
    &&& post.asu.pending() == after_execute(pre.asu.pending())
    &&& post.lou.pending() == after_execute(pre.lou.pending())
    &&& post.cru.pending() == after_execute(pre.cru.pending())
}

/// What the dispatch stage does, taking the core from `pre` to `post`.
pub open spec fn dispatch_step(pre: Core, post: Core) -> bool {
    &&& post.rat@ == pre.rat@
    &&& post.rob == pre.rob
    &&& post.pc == pre.pc
    &&& forall|c: UnitClass|
        pre.unit_pending(c) is Some ==> #[trigger] post.unit_pending(c)
            == pre.unit_pending(c)
    &&& forall|c: UnitClass, i: int|
        pre.unit_pending(c) is None && #[trigger] first_ready(
            pre.sched.slots@,
            i,
            c,
            &pre.rat,
            &pre.rob,
        ) ==> post.unit_pending(c) == ready_op(
            pre.sched.slots@[i]->Some_0,
            &pre.rat,
            &pre.rob,
        )
    &&& forall|c: UnitClass|
        (forall|i: int|
            0 <= i < pre.sched.slots@.len() ==> !#[trigger] dispatchable(
                pre.sched.slots@,
                i,
                c,
                &pre.rat,
                &pre.rob,
            )) ==> #[trigger] post.unit_pending(c) == pre.unit_pending(c)
    &&& post.sched.slots@.len() == pre.sched.slots@.len()
    &&& forall|i: int|
        0 <= i < pre.sched.slots@.len() ==> #[trigger] post.sched.slots@[i]
            == if pre.sends(i) {
            None
        } else {
            match pre.sched.slots@[i] {
                Some(e) => Some(aged(e)),
                None => None,
            }
        }
}

/// What the issue stage does, taking the core from `pre` to `post`.
pub open spec fn issue_step(
    pre: Core,
    post: Core,
    inst: Option<Opcode>,
    r: Result<IssueOutcome, CoreError>,
) -> bool {
    &&& post.asu == pre.asu
    &&& post.lou == pre.lou
    &&& post.cru == pre.cru
    &&& inst is None ==> r == Ok::<IssueOutcome, CoreError>(IssueOutcome::NoInstruction)
    &&& inst is Some && decode(inst->Some_0, pre.rat@.len()) is None ==> r == Err::<
        IssueOutcome,
        CoreError,
    >(CoreError::UnsupportedInstruction)
    &&& !(r matches Ok(IssueOutcome::Issued { .. })) ==> {
        &&& post.rat@ == pre.rat@
        &&& post.rob == pre.rob
        &&& post.sched.slots@ == pre.sched.slots@
        &&& post.pc == pre.pc
    }
    &&& inst is Some && decode(inst->Some_0, pre.rat@.len()) is Some ==> ({
        let (rd, op1, op2, aop) = decode(inst->Some_0, pre.rat@.len())->Some_0;
        let tail = pre.rob.tail_index();
        let rob_full = pre.rob.view().len() == pre.rob.capacity();
        let stations_full = forall|i: int|
            0 <= i < pre.sched.slots@.len() ==> #[trigger] pre.sched.slots@[i] is Some;
        &&& rob_full ==> r == Ok::<IssueOutcome, CoreError>(IssueOutcome::RobFull)
        &&& !rob_full && stations_full ==> r == Ok::<IssueOutcome, CoreError>(
            IssueOutcome::StationsFull,
        )
        &&& !rob_full && !stations_full ==> (r matches Ok(IssueOutcome::Issued { rob_slot, station }) && {
            let entry = ReservationEntry {
                uop: alu_uop(aop),
                dst: StorageLoc::Reg(rd),
                rob_idx: rob_slot,
                op1: captured(op1, &pre.rat, &pre.rob),
                op2: captured(op2, &pre.rat, &pre.rob),
                stalled: 0,
            };
            &&& rob_slot == tail
            &&& 0 <= station < pre.sched.slots@.len()
            &&& pre.sched.slots@[station as int] is None
            &&& forall|j: int| 0 <= j < station ==> #[trigger] pre.sched.slots@[j] is Some
            &&& post.sched.slots@ == pre.sched.slots@.update(station as int, Some(entry))
            &&& post.rob.view() == pre.rob.view().push(
                InFlightOp { pc: pre.pc, dst: StorageLoc::Reg(rd), result: None },
            )
            &&& post.rat@ == pre.rat@.update(rd.0 as int, ArchRegValue::Name(rob_slot))
            &&& post.pc == (if pre.pc <= u32::MAX - 4 {
                pre.pc + 4
            } else {
                pre.pc + 4 - 0x1_0000_0000
            }) as u32
        })
    })
}

/// The alias table `rat` agrees with the reorder buffer `rob`: a register
/// holds a value exactly when no in-flight instruction writes it, and
/// otherwise names the slot of the youngest one that does.
pub open spec fn rename_agrees(rat: Seq<ArchRegValue>, rob: ReorderBuffer) -> bool {
    let view = rob.view();
    &&& forall|k: int|
        0 <= k < view.len() ==> (#[trigger] view[k]).dst is Reg && view[k].dst->Reg_0.0
            < rat.len()
    &&& forall|r: int|
        0 <= r < rat.len() ==> (#[trigger] rat[r] is Valid <==> forall|k: int|
            0 <= k < view.len() ==> view[k].dst != StorageLoc::Reg(ArchReg(r as usize)))
    &&& forall|r: int|
        0 <= r < rat.len() && #[trigger] rat[r] is Name ==> exists|k: int|
            0 <= k < view.len() && rob.slot(k) == rat[r]->Name_0 && view[k].dst
                == StorageLoc::Reg(ArchReg(r as usize)) && forall|j: int|
                k < j < view.len() ==> view[j].dst != StorageLoc::Reg(ArchReg(r as usize))
}

/// The core: every structure of the out-of-order engine, owned in one place.
pub struct Core {
    pub rat: RegisterAliasTable,
    pub rob: ReorderBuffer,
    pub sched: Scheduler,
    pub asu: AddSubUnit,
    pub lou: LogicalOpUnit,
    pub cru: ComparatorUnit,
    /// The program counter given to the next issued instruction.
    pub pc: u32,
}

impl Core {
    /// What the unit of kind `class` holds.
    pub open spec fn unit_pending(&self, class: UnitClass) -> Option<DispatchedOp> {
        match class {
            UnitClass::AddSub => self.asu.pending(),
            UnitClass::Logical => self.lou.pending(),
            UnitClass::Compare => self.cru.pending(),
        }
    }

    /// Whether the dispatch stage sends the entry in slot `i`: its unit is
    /// idle and it is the first ready entry of its kind.
    pub open spec fn sends(&self, i: int) -> bool {
        &&& 0 <= i < self.sched.slots@.len()
        &&& self.sched.slots@[i] is Some
        &&& self.unit_pending(unit_class(self.sched.slots@[i]->Some_0.uop)) is None
        &&& first_ready(
            self.sched.slots@,
            i,
            unit_class(self.sched.slots@[i]->Some_0.uop),
            &self.rat,
            &self.rob,
        )
    }

    /// The slot each reservation slot and then each unit (add/sub, logical,
    /// compare) refers to, if it holds anything.
    pub open spec fn tokens(&self) -> Seq<Option<usize>> {
        let n = self.sched.slots@.len();
        Seq::new(
            n + 3,
            |k: int|
                if k < n {
                    entry_token(self.sched.slots@[k])
                } else if k == n {
                    op_token(self.asu.pending())
                } else if k == n + 1 {
                    op_token(self.lou.pending())
                } else {
                    op_token(self.cru.pending())
                },
        )
    }

    /// Every waiting or executing instruction refers to its own slot, which
    /// holds it uncompleted: nothing is both waiting and completed.
    pub open spec fn tokens_ok(&self) -> bool {
        &&& forall|k: int|
            0 <= k < self.tokens().len() && #[trigger] self.tokens()[k] is Some ==> live(
                &self.rob,
                self.tokens()[k]->Some_0,
            )
        &&& forall|k: int, l: int|
            0 <= k < self.tokens().len() && 0 <= l < self.tokens().len() && k != l
                && #[trigger] self.tokens()[k] is Some && #[trigger] self.tokens()[l] is Some
                ==> self.tokens()[k] != self.tokens()[l]
    }

    /// The alias table agrees with the reorder buffer: a register holds a
    /// value exactly when no in-flight instruction writes it, and otherwise
    /// names the slot of the youngest one that does.
    pub open spec fn rename_ok(&self) -> bool {
        rename_agrees(self.rat@, self.rob)
    }

    /// The invariant that every stage keeps: the structures are well formed,
    /// and the token and rename agreements above hold in every cycle.
    pub open spec fn wf(&self) -> bool {
        &&& self.rat.wf()
        &&& self.rob.wf()
        &&& self.asu.inv()
        &&& self.lou.inv()
        &&& self.cru.inv()
        &&& self.sched.entries_in_range(&self.rat)
        &&& self.tokens_ok()
        &&& self.rename_ok()
    }

    /// A core whose registers hold `initial`, with a reorder buffer of
    /// `rob_size` slots and `stations` reservation slots, all empty.
    pub fn new(initial: &[u32], rob_size: usize, stations: usize) -> (r: Self)
        requires
            rob_size > 0,
        ensures
            r.wf(),
            r.rat@ == initial@.map_values(|v: u32| ArchRegValue::Valid(v)),
            r.rob.capacity() == rob_size,
            r.rob.view().len() == 0,
            r.sched.slots@ == Seq::new(stations as nat, |i: int| None::<ReservationEntry>),
            r.asu.pending() is None,
            r.lou.pending() is None,
            r.cru.pending() is None,
            r.pc == 0,
    {
        let mut init: Vec<ArchRegValue> = Vec::new();
        let mut i: usize = 0;
        while i < initial.len()
            invariant
                i <= initial@.len(),
                init@ == initial@.take(i as int).map_values(|v: u32| ArchRegValue::Valid(v)),
            decreases initial@.len() - i,
        {
            init.push(ArchRegValue::Valid(initial[i]));
            i = i + 1;
            proof {
                assert(init@ =~= initial@.take(i as int).map_values(
                    |v: u32| ArchRegValue::Valid(v),
                ));
            }
        }
        proof {
            assert(initial@.take(i as int) =~= initial@);
        }
        let rat = RegisterAliasTable::new(initial.len(), Some(init.as_slice()));
        let rob = ReorderBuffer::new(rob_size);
        let sched = Scheduler::with_slots(stations);
        let r = Core {
            rat,
            rob,
            sched,
            asu: AddSubUnit::new(),
            lou: LogicalOpUnit::new(),
            cru: ComparatorUnit::new(),
            pc: 0,
        };
        proof {
            assert forall|k: int|
                0 <= k < r.tokens().len() && #[trigger] r.tokens()[k] is Some implies live(
                &r.rob,
                r.tokens()[k]->Some_0,
            ) by {
                if k < stations {
                    assert(r.sched.slots@[k] is None);
                }
            }
            assert forall|k: int, l: int|
                0 <= k < r.tokens().len() && 0 <= l < r.tokens().len() && k != l
                    && #[trigger] r.tokens()[k] is Some && #[trigger] r.tokens()[l] is Some
                    implies r.tokens()[k] != r.tokens()[l] by {
                if k < stations {
                    assert(r.sched.slots@[k] is None);
                }
            }
        }
        r
    }

    /// Writes `done`'s result, if it has one, into its slot and hands it to
    /// the entries waiting on that slot.
    fn deliver(&mut self, done: Option<DispatchedOp>)
        requires
            old(self).wf(),
            done is Some ==> finished(done),
            finished(done) ==> live(&old(self).rob, done->Some_0.rob_idx),
            finished(done) ==> forall|k: int|
                0 <= k < old(self).tokens().len() ==> #[trigger] old(self).tokens()[k] != Some(
                    done->Some_0.rob_idx,
                ),
        ensures
            final(self).wf(),
            final(self).rat@ == old(self).rat@,
            final(self).asu.pending() == old(self).asu.pending(),
            final(self).lou.pending() == old(self).lou.pending(),
            final(self).cru.pending() == old(self).cru.pending(),
            final(self).pc == old(self).pc,
            final(self).rob.capacity() == old(self).rob.capacity(),
            final(self).rob.view().len() == old(self).rob.view().len(),
            final(self).rob.cells().len() == old(self).rob.cells().len(),
            forall|s: int|
                0 <= s < old(self).rob.cells().len() ==> #[trigger] final(self).rob.cells()[s]
                    == written(old(self).rob.cells()[s], s, done),
            final(self).sched.slots@.len() == old(self).sched.slots@.len(),
            forall|i: int|
                0 <= i < old(self).sched.slots@.len() ==> #[trigger] final(self).sched.slots@[i]
                    == match old(self).sched.slots@[i] {
                    Some(e) => Some(forwarded_by(e, done)),
                    None => None,
                },
    {
        match done {
            Some(op) => match op.res {
                Some(v) => {
                    let ghost pre = *self;
                    proof {
                        self.rob.lemma_slots();
                    }
                    let w = self.rob.writeback(op.rob_idx, v);
                    self.sched.forward(op.rob_idx, v);
                    proof {
                        assert(w is Ok);
                        assert(self.tokens() =~= pre.tokens()) by {
                            assert forall|k: int| 0 <= k < self.sched.slots@.len() implies
                                #[trigger] entry_token(self.sched.slots@[k])
                                == entry_token(pre.sched.slots@[k]) by {}
                        }
                        assert forall|s: int|
                            0 <= s < pre.rob.cells().len() implies #[trigger] self.rob.cells()[s]
                            == written(pre.rob.cells()[s], s, done) by {}
                        assert forall|k: int|
                            0 <= k < self.tokens().len() && #[trigger] self.tokens()[k] is Some
                            implies live(&self.rob, self.tokens()[k]->Some_0) by {
                            assert(pre.tokens()[k] != Some(op.rob_idx));
                        }
                        assert forall|k: int|
                            0 <= k < self.rob.view().len() implies (#[trigger] self.rob.view()[k]).dst
                            == pre.rob.view()[k].dst by {}
                        assert forall|i: int|
                            0 <= i < self.sched.slots@.len() && #[trigger] self.sched.slots@[i] is Some
                            implies entry_in_range(self.sched.slots@[i]->Some_0, &self.rat) by {
                            assert(pre.sched.slots@[i] is Some);
                        }
                        assert(self.rename_ok()) by {
                            let view = self.rob.view();
                            let pview = pre.rob.view();
                            assert forall|r: int|
                                0 <= r < self.rat@.len() && #[trigger] self.rat@[r] is Name implies exists|k: int|
                                0 <= k < view.len() && self.rob.slot(k) == self.rat@[r]->Name_0
                                    && view[k].dst == StorageLoc::Reg(ArchReg(r as usize))
                                    && forall|j: int|
                                    k < j < view.len() ==> view[j].dst != StorageLoc::Reg(
                                        ArchReg(r as usize),
                                    ) by {
                                let k = choose|k: int|
                                    0 <= k < pview.len() && pre.rob.slot(k) == pre.rat@[r]->Name_0
                                        && pview[k].dst == StorageLoc::Reg(ArchReg(r as usize))
                                        && forall|j: int|
                                        k < j < pview.len() ==> pview[j].dst != StorageLoc::Reg(
                                            ArchReg(r as usize),
                                        );
                                assert(view[k].dst == pview[k].dst);
                                assert(self.rob.slot(k) == pre.rob.slot(k));
                                assert forall|j: int| k < j < view.len() implies view[j].dst
                                    != StorageLoc::Reg(ArchReg(r as usize)) by {
                                    assert(view[j].dst == pview[j].dst);
                                }
                            }
                            assert forall|r: int| 0 <= r < self.rat@.len() implies (#[trigger] self.rat@[r] is Valid
                                <==> forall|k: int|
                                0 <= k < view.len() ==> view[k].dst != StorageLoc::Reg(
                                    ArchReg(r as usize),
                                )) by {
                                if self.rat@[r] is Valid {
                                    assert forall|k: int| 0 <= k < view.len() implies view[k].dst
                                        != StorageLoc::Reg(ArchReg(r as usize)) by {
                                        assert(view[k].dst == pview[k].dst);
                                    }
                                } else {
                                    let k = choose|k: int|
                                        0 <= k < pview.len() && pre.rob.slot(k) == pre.rat@[r]->Name_0
                                            && pview[k].dst == StorageLoc::Reg(ArchReg(r as usize))
                                            && forall|j: int|
                                            k < j < pview.len() ==> pview[j].dst != StorageLoc::Reg(
                                                ArchReg(r as usize),
                                            );
                                    assert(view[k].dst == pview[k].dst);
                                }
                            }
                        }
                    }
                },
                None => {},
            },
            None => {},
        }
    }

    /// Writeback: each unit (add/sub, logical, compare, in that order) whose
    /// operation has its result hands it over; the result is written into
    /// the operation's slot, marking it complete, and forwarded to the
    /// entries waiting on that slot.
    pub fn writeback_stage(&mut self)
        requires
            old(self).wf(),
        ensures
            final(self).wf(),
            writeback_step(*old(self), *final(self)),
    {
        let ghost s0 = *self;
        let n = Ghost(self.sched.slots@.len() as int);
        let a = self.asu.complete();
        proof {
            assert(self.tokens() =~= s0.tokens().update(n@, op_token(self.asu.pending())));
            if a is Some {
                assert(s0.tokens()[n@] == Some(a->Some_0.rob_idx));
            }
        }
        self.deliver(a);
        let ghost s1 = *self;
        let l = self.lou.complete();
        proof {
            assert(self.tokens() =~= s1.tokens().update(n@ + 1, op_token(self.lou.pending())));
            if l is Some {
                assert(s1.tokens()[n@ + 1] == Some(l->Some_0.rob_idx));
            }
        }
        self.deliver(l);
        let ghost s2 = *self;
        let c = self.cru.complete();
        proof {
            assert(self.tokens() =~= s2.tokens().update(n@ + 2, op_token(self.cru.pending())));
            if c is Some {
                assert(s2.tokens()[n@ + 2] == Some(c->Some_0.rob_idx));
            }
        }
        self.deliver(c);
    }

    /// Retire: if the oldest instruction is complete it leaves the reorder
    /// buffer and its result is committed to its register, unless a later
    /// rename has superseded it.
    pub fn retire_stage(&mut self) -> (r: Option<InFlightOp>)
        requires
            old(self).wf(),
        ensures
            final(self).wf(),
            retire_step(*old(self), *final(self), r),
    {
        let ghost s0 = *self;
        proof {
            self.rob.lemma_slots();
        }
        let head = self.rob.head_slot();
        let r = self.rob.retire();
        match r {
            Some(e) => {
                match e.dst {
                    StorageLoc::Reg(rd) => {
                        if rd.0 < self.rat.size() {
                            match e.result {
                                Some(v) => self.rat.commit(rd, head, v),
                                None => {},
                            }
                        }
                    },
                    _ => {},
                }
                proof {
                    lemma_retire_keeps_wf(s0, *self);
                }
            },
            None => {},
        }
        r
    }

    /// Execute: every unit that holds an operation computes its result.
    pub fn execute_stage(&mut self)
        requires
            old(self).wf(),
        ensures
            final(self).wf(),
            execute_step(*old(self), *final(self)),
    {
        let ghost s0 = *self;
        self.asu.execute();
        self.lou.execute();
        self.cru.execute();
        proof {
            assert(self.tokens() =~= s0.tokens());
        }
    }

    /// Dispatch: each idle unit takes the lowest-index waiting entry of its
    /// kind whose operands resolve; an entry whose unit is busy keeps its
    /// slot. Entries still waiting afterwards age by one cycle.
    pub fn dispatch_stage(&mut self)
        requires
            old(self).wf(),
        ensures
            final(self).wf(),
            dispatch_step(*old(self), *final(self)),
    {
        let ghost s0 = *self;
        self.dispatch_to(UnitClass::AddSub);
        let ghost s1 = *self;
        proof {
            lemma_take_keeps_other_classes(s0, s1, UnitClass::AddSub);
        }
        self.dispatch_to(UnitClass::Logical);
        let ghost s2 = *self;
        proof {
            lemma_take_keeps_other_classes(s1, s2, UnitClass::Logical);
        }
        self.dispatch_to(UnitClass::Compare);
        let ghost s3 = *self;
        proof {
            lemma_take_keeps_other_classes(s2, s3, UnitClass::Compare);
            let n = s0.sched.slots@.len() as int;
            // A slot is taken only in the step for its own kind, and each step
            // sees the kind's readiness and unit as they were at the start.
            assert forall|i: int| 0 <= i < n implies (#[trigger] s3.sched.slots@[i] is None) == (
            s0.sched.slots@[i] is None || s0.sends(i)) by {
                assert(s1.sched.slots@[i] is None == (s0.sched.slots@[i] is None || (s0.unit_pending(UnitClass::AddSub) is None && first_ready(s0.sched.slots@, i, UnitClass::AddSub, &s0.rat, &s0.rob))));
                assert(s2.sched.slots@[i] is None == (s1.sched.slots@[i] is None || (s1.unit_pending(UnitClass::Logical) is None && first_ready(s1.sched.slots@, i, UnitClass::Logical, &s1.rat, &s1.rob))));
                assert(s3.sched.slots@[i] is None == (s2.sched.slots@[i] is None || (s2.unit_pending(UnitClass::Compare) is None && first_ready(s2.sched.slots@, i, UnitClass::Compare, &s2.rat, &s2.rob))));
                assert(first_ready(s1.sched.slots@, i, UnitClass::Logical, &s1.rat, &s1.rob) == first_ready(s0.sched.slots@, i, UnitClass::Logical, &s0.rat, &s0.rob));
                assert(first_ready(s2.sched.slots@, i, UnitClass::Compare, &s2.rat, &s2.rob) == first_ready(s1.sched.slots@, i, UnitClass::Compare, &s1.rat, &s1.rob));
                assert(first_ready(s1.sched.slots@, i, UnitClass::Compare, &s1.rat, &s1.rob) == first_ready(s0.sched.slots@, i, UnitClass::Compare, &s0.rat, &s0.rob));
                assert(s1.unit_pending(UnitClass::Logical) == s0.unit_pending(UnitClass::Logical));
                assert(s1.unit_pending(UnitClass::Compare) == s0.unit_pending(UnitClass::Compare));
                assert(s2.unit_pending(UnitClass::Compare) == s1.unit_pending(UnitClass::Compare));
                if s0.sched.slots@[i] is Some {
                    let c = unit_class(s0.sched.slots@[i]->Some_0.uop);
                    lemma_class_cases(c);
                }
            }
            assert forall|i: int| 0 <= i < n && s3.sched.slots@[i] is Some implies #[trigger] s3.sched.slots@[i]
                == s0.sched.slots@[i] by {}
        }
        self.sched.age_waiting();
        proof {
            assert(self.tokens() =~= s3.tokens()) by {
                assert forall|k: int| 0 <= k < self.sched.slots@.len() implies
                    #[trigger] entry_token(self.sched.slots@[k]) == entry_token(s3.sched.slots@[k]) by {}
            }
            assert forall|i: int|
                0 <= i < self.sched.slots@.len() && #[trigger] self.sched.slots@[i] is Some implies entry_in_range(
                self.sched.slots@[i]->Some_0,
                &self.rat,
            ) by {
                assert(s3.sched.slots@[i] is Some);
            }
            assert forall|c: UnitClass| s0.unit_pending(c) is Some implies #[trigger] self.unit_pending(c)
                == s0.unit_pending(c) by {
                lemma_class_cases(c);
                assert(s1.unit_pending(c) == s0.unit_pending(c));
                assert(s2.unit_pending(c) == s1.unit_pending(c));
                assert(s3.unit_pending(c) == s2.unit_pending(c));
            }
            assert forall|c: UnitClass, i: int|
                s0.unit_pending(c) is None && #[trigger] first_ready(
                    s0.sched.slots@,
                    i,
                    c,
                    &s0.rat,
                    &s0.rob,
                ) implies self.unit_pending(c) == ready_op(
                    s0.sched.slots@[i]->Some_0,
                    &s0.rat,
                    &s0.rob,
                ) by {
                lemma_class_cases(c);
                lemma_resolution_depends_on_views(s0, s1);
                lemma_resolution_depends_on_views(s0, s2);
                if c == UnitClass::AddSub {
                    assert(s1.unit_pending(c) == ready_op(s0.sched.slots@[i]->Some_0, &s0.rat, &s0.rob));
                    assert(s2.unit_pending(c) == s1.unit_pending(c));
                    assert(s3.unit_pending(c) == s2.unit_pending(c));
                } else if c == UnitClass::Logical {
                    assert(first_ready(s1.sched.slots@, i, c, &s1.rat, &s1.rob));
                    assert(s1.unit_pending(c) == s0.unit_pending(c));
                    assert(s1.sched.slots@[i] == s0.sched.slots@[i]);
                    assert(s2.unit_pending(c) == ready_op(s1.sched.slots@[i]->Some_0, &s1.rat, &s1.rob));
                    assert(s3.unit_pending(c) == s2.unit_pending(c));
                } else {
                    assert(first_ready(s1.sched.slots@, i, c, &s1.rat, &s1.rob));
                    assert(first_ready(s2.sched.slots@, i, c, &s2.rat, &s2.rob));
                    assert(s1.unit_pending(c) == s0.unit_pending(c));
                    assert(s2.unit_pending(c) == s1.unit_pending(c));
                    assert(s1.sched.slots@[i] == s0.sched.slots@[i]);
                    assert(s2.sched.slots@[i] == s1.sched.slots@[i]);
                    assert(s3.unit_pending(c) == ready_op(s2.sched.slots@[i]->Some_0, &s2.rat, &s2.rob));
                }
            }
            assert forall|c: UnitClass|
                (forall|i: int|
                    0 <= i < s0.sched.slots@.len() ==> !#[trigger] dispatchable(
                        s0.sched.slots@,
                        i,
                        c,
                        &s0.rat,
                        &s0.rob,
                    )) implies #[trigger] self.unit_pending(c) == s0.unit_pending(c) by {
                lemma_class_cases(c);
                let n = s0.sched.slots@.len();
                if c != UnitClass::AddSub {
                    assert(s1.unit_pending(c) == s0.unit_pending(c));
                } else {
                    assert(s2.unit_pending(c) == s1.unit_pending(c));
                    assert(s3.unit_pending(c) == s2.unit_pending(c));
                }
                if c == UnitClass::Logical {
                    assert forall|i: int| 0 <= i < n implies !#[trigger] dispatchable(
                        s1.sched.slots@,
                        i,
                        c,
                        &s1.rat,
                        &s1.rob,
                    ) by {
                        assert(!dispatchable(s0.sched.slots@, i, c, &s0.rat, &s0.rob));
                    }
                    assert(s3.unit_pending(c) == s2.unit_pending(c));
                }
                if c == UnitClass::Compare {
                    assert(s2.unit_pending(c) == s1.unit_pending(c));
                    assert forall|i: int| 0 <= i < n implies !#[trigger] dispatchable(
                        s2.sched.slots@,
                        i,
                        c,
                        &s2.rat,
                        &s2.rob,
                    ) by {
                        assert(!dispatchable(s0.sched.slots@, i, c, &s0.rat, &s0.rob));
                        assert(dispatchable(s1.sched.slots@, i, c, &s1.rat, &s1.rob) == dispatchable(
                            s0.sched.slots@,
                            i,
                            c,
                            &s0.rat,
                            &s0.rob,
                        ));
                    }
                }
            }
        }
    }

    /// Hands the unit of kind `class`, if idle, the lowest-index waiting entry
    /// of that kind whose operands resolve.
    fn dispatch_to(&mut self, class: UnitClass)
        requires
            old(self).wf(),
        ensures
            final(self).wf(),
            final(self).rat@ == old(self).rat@,
            final(self).rob == old(self).rob,
            final(self).pc == old(self).pc,
            forall|c: UnitClass| c != class ==> #[trigger] final(self).unit_pending(c) == old(self).unit_pending(c),
            final(self).sched.slots@.len() == old(self).sched.slots@.len(),
            forall|i: int|
                old(self).unit_pending(class) is None && first_ready(
                    old(self).sched.slots@,
                    i,
                    class,
                    &old(self).rat,
                    &old(self).rob,
                ) ==> {
                    &&& final(self).unit_pending(class) == ready_op(
                        old(self).sched.slots@[i]->Some_0,
                        &old(self).rat,
                        &old(self).rob,
                    )
                    &&& final(self).sched.slots@ == old(self).sched.slots@.update(i, None)
                },
            final(self).sched.slots@ == old(self).sched.slots@ || (old(self).unit_pending(class)
                is None && exists|i: int|
                first_ready(old(self).sched.slots@, i, class, &old(self).rat, &old(self).rob)
                    && final(self).sched.slots@ == old(self).sched.slots@.update(i, None)),
            (old(self).unit_pending(class) is Some || (forall|i: int|
                0 <= i < old(self).sched.slots@.len() ==> !#[trigger] dispatchable(
                    old(self).sched.slots@,
                    i,
                    class,
                    &old(self).rat,
                    &old(self).rob,
                ))) ==> {
                    &&& final(self).unit_pending(class) == old(self).unit_pending(class)
                    &&& final(self).sched.slots@ == old(self).sched.slots@
                },
    {
        let ghost s0 = *self;
        let n = Ghost(self.sched.slots@.len() as int);
        let busy = match class {
            UnitClass::AddSub => self.asu.is_busy(),
            UnitClass::Logical => self.lou.is_busy(),
            UnitClass::Compare => self.cru.is_busy(),
        };
        if busy {
            return;
        }
        match self.sched.take_ready(class, &self.rat, &self.rob) {
            Some((i, op)) => {
                let ghost e = s0.sched.slots@[i as int]->Some_0;
                let ghost p = match class {
                    UnitClass::AddSub => n@,
                    UnitClass::Logical => n@ + 1,
                    UnitClass::Compare => n@ + 2,
                };
                match class {
                    UnitClass::AddSub => self.asu.prepare(&op),
                    UnitClass::Logical => self.lou.prepare(&op),
                    UnitClass::Compare => self.cru.prepare(&op),
                }
                proof {
                    assert(op.rob_idx == e.rob_idx);
                    assert(s0.tokens()[p] is None);
                    assert(self.tokens() =~= s0.tokens().update(i as int, None).update(
                        p,
                        s0.tokens()[i as int],
                    ));
                    assert forall|k: int|
                        0 <= k < self.tokens().len() && #[trigger] self.tokens()[k] is Some implies live(
                        &self.rob,
                        self.tokens()[k]->Some_0,
                    ) by {
                        if k == p {
                            assert(live(&s0.rob, s0.tokens()[i as int]->Some_0));
                        } else {
                            assert(live(&s0.rob, s0.tokens()[k]->Some_0));
                        }
                    }
                    assert forall|k: int, l: int|
                        0 <= k < self.tokens().len() && 0 <= l < self.tokens().len() && k != l
                            && #[trigger] self.tokens()[k] is Some && #[trigger] self.tokens()[l] is Some
                            implies self.tokens()[k] != self.tokens()[l] by {
                        let k0 = if k == p { i as int } else { k };
                        let l0 = if l == p { i as int } else { l };
                        assert(self.tokens()[k] == s0.tokens()[k0]);
                        assert(self.tokens()[l] == s0.tokens()[l0]);
                    }
                    assert forall|j: int|
                        0 <= j < self.sched.slots@.len() && #[trigger] self.sched.slots@[j] is Some implies entry_in_range(
                        self.sched.slots@[j]->Some_0,
                        &self.rat,
                    ) by {
                        assert(s0.sched.slots@[j] is Some);
                    }
                }
            },
            None => {},
        }
    }

    /// Reads source operand `op` as it is captured at issue.
    fn capture(&self, op: Operand) -> (r: Operand)
        requires
            self.wf(),
            op is Reg ==> op->Reg_0.0 < self.rat@.len(),
        ensures
            r == captured(op, &self.rat, &self.rob),
            !(r is Reg),
    {
        match op {
            Operand::Reg(reg) => match self.rat.resolve(reg, &self.rob) {
                Some(v) => Operand::Value(v),
                None => match self.rat.read(reg) {
                    ArchRegValue::Name(s) => Operand::Slot(s),
                    ArchRegValue::Valid(v) => Operand::Value(v),
                },
            },
            _ => op,
        }
    }

    /// Issue/rename: admits `inst` only if both a reorder-buffer slot and a
    /// reservation slot are free, checking both before taking either. The
    /// sources are captured first, then the destination is renamed to the
    /// new slot. A stalled instruction leaves every structure untouched.
    pub fn issue_stage(&mut self, inst: Option<Opcode>) -> (r: Result<IssueOutcome, CoreError>)
        requires
            old(self).wf(),
        ensures
            final(self).wf(),
            issue_step(*old(self), *final(self), inst, r),
    {
        let inst = match inst {
            None => return Ok(IssueOutcome::NoInstruction),
            Some(i) => i,
        };
        let (rd, op1, op2, aop) = match decode_inst(inst, self.rat.size()) {
            None => return Err(CoreError::UnsupportedInstruction),
            Some(d) => d,
        };
        if self.rob.is_full() {
            return Ok(IssueOutcome::RobFull);
        }
        if self.sched.is_full() {
            return Ok(IssueOutcome::StationsFull);
        }
        let ghost s0 = *self;
        proof {
            self.rob.lemma_slots();
            self.rat.lemma_len();
        }
        let a1 = self.capture(op1);
        let a2 = self.capture(op2);
        let pc = self.pc;
        let slot = match self.rob.push(InFlightOp::new(pc, StorageLoc::Reg(rd))) {
            Ok(s) => s,
            Err(_) => return Ok(IssueOutcome::RobFull),
        };
        self.rat.write_rename(rd, slot);
        let entry = ReservationEntry {
            uop: aop.to_uop(),
            dst: StorageLoc::Reg(rd),
            rob_idx: slot,
            op1: a1,
            op2: a2,
            stalled: 0,
        };
        let station = match self.sched.reserve(entry) {
            Ok(i) => i,
            Err(_) => return Ok(IssueOutcome::StationsFull),
        };
        self.pc = pc.wrapping_add(4);
        proof {
            lemma_issue_keeps_wf(s0, *self, rd, station as int);
        }
        Ok(IssueOutcome::Issued { rob_slot: slot, station })
    }

    /// One cycle: writeback, retire, execute, dispatch, then issue of `inst`
    /// (`None` when nothing is fetched). A stalled instruction is reported
    /// as such; the caller offers it again in a later cycle.
    pub fn cycle(&mut self, inst: Option<Opcode>) -> (r: Result<IssueOutcome, CoreError>)
        requires
            old(self).wf(),
        ensures
            final(self).wf(),
            exists|s1: Core, s2: Core, retired: Option<InFlightOp>, s3: Core, s4: Core|
                writeback_step(*old(self), s1) && retire_step(s1, s2, retired) && execute_step(
                    s2,
                    s3,
                ) && dispatch_step(s3, s4) && issue_step(s4, *final(self), inst, r),
            final(self).rat@.len() == old(self).rat@.len(),
            inst is None ==> r == Ok::<IssueOutcome, CoreError>(IssueOutcome::NoInstruction),
            inst is Some && decode(inst->Some_0, old(self).rat@.len()) is None ==> r == Err::<
                IssueOutcome,
                CoreError,
            >(CoreError::UnsupportedInstruction),
            !(r matches Ok(IssueOutcome::Issued { .. })) ==> final(self).pc == old(self).pc,
            r matches Ok(IssueOutcome::Issued { rob_slot, station }) ==> ({
                let (rd, _op1, _op2, aop) = decode(inst->Some_0, old(self).rat@.len())->Some_0;
                &&& inst is Some
                &&& decode(inst->Some_0, old(self).rat@.len()) is Some
                &&& final(self).rat@[rd.0 as int] == ArchRegValue::Name(rob_slot)
                &&& rob_slot < final(self).rob.capacity()
                &&& final(self).rob.cells()[rob_slot as int] == Some(
                    InFlightOp { pc: old(self).pc, dst: StorageLoc::Reg(rd), result: None },
                )
                &&& station < final(self).sched.slots@.len()
                &&& final(self).sched.slots@[station as int] matches Some(e) && e.rob_idx == rob_slot
                    && e.uop == alu_uop(aop) && e.stalled == 0
            }),
    {
        let ghost start = *self;
        self.writeback_stage();
        let ghost s1 = *self;
        let retired = self.retire_stage();
        let ghost s2 = *self;
        self.execute_stage();
        let ghost s3 = *self;
        self.dispatch_stage();
        let ghost s0 = *self;
        proof {
            s0.rob.lemma_slots();
        }
        let r = self.issue_stage(inst);
        proof {
            assert(writeback_step(start, s1) && retire_step(s1, s2, retired) && execute_step(s2, s3)
                && dispatch_step(s3, s0) && issue_step(s0, *self, inst, r));
            if r matches Ok(IssueOutcome::Issued { rob_slot, station }) {
                self.rob.lemma_slots();
                assert(self.rob.view().last() == self.rob.view()[s0.rob.view().len() as int]);
            }
        }
        r
    }
}

/// Admitting an instruction into a free reorder-buffer slot and a free
/// reservation slot keeps the core's invariant.
proof fn lemma_issue_keeps_wf(pre: Core, post: Core, rd: ArchReg, station: int)
    requires
        pre.wf(),
        rd.0 < pre.rat@.len(),
        pre.rob.view().len() < pre.rob.capacity(),
        post.rat.wf(),
        post.rob.wf(),
        post.asu == pre.asu,
        post.lou == pre.lou,
        post.cru == pre.cru,
        post.rob.capacity() == pre.rob.capacity(),
        post.rob.view() == pre.rob.view().push(
            InFlightOp { pc: pre.pc, dst: StorageLoc::Reg(rd), result: None },
        ),
        post.rob.cells() == pre.rob.cells().update(
            pre.rob.tail_index(),
            Some(InFlightOp { pc: pre.pc, dst: StorageLoc::Reg(rd), result: None }),
        ),
        forall|k: int| #[trigger] post.rob.slot(k) == pre.rob.slot(k),
        post.rat@ == pre.rat@.update(rd.0 as int, ArchRegValue::Name(pre.rob.tail_index() as usize)),
        0 <= station < pre.sched.slots@.len(),
        pre.sched.slots@[station] is None,
        post.sched.slots@.len() == pre.sched.slots@.len(),
        post.sched.slots@[station] is Some,
        post.sched.slots@[station]->Some_0.rob_idx == pre.rob.tail_index(),
        !(post.sched.slots@[station]->Some_0.op1 is Reg),
        !(post.sched.slots@[station]->Some_0.op2 is Reg),
        forall|j: int|
            0 <= j < pre.sched.slots@.len() && j != station ==> #[trigger] post.sched.slots@[j]
                == pre.sched.slots@[j],
    ensures
        post.wf(),
{
    pre.rob.lemma_slots();
    pre.rat.lemma_len();
    let t = pre.rob.tail_index();
    assert(post.tokens() =~= pre.tokens().update(station, Some(t as usize)));
    assert forall|k: int| 0 <= k < pre.tokens().len() && #[trigger] pre.tokens()[k] is Some implies pre.tokens()[k]
        != Some(t as usize) by {
        assert(live(&pre.rob, pre.tokens()[k]->Some_0));
    }
    assert forall|k: int|
        0 <= k < post.tokens().len() && #[trigger] post.tokens()[k] is Some implies live(
        &post.rob,
        post.tokens()[k]->Some_0,
    ) by {
        if k != station {
            assert(live(&pre.rob, pre.tokens()[k]->Some_0));
        }
    }
    assert forall|k: int, l: int|
        0 <= k < post.tokens().len() && 0 <= l < post.tokens().len() && k != l
            && #[trigger] post.tokens()[k] is Some && #[trigger] post.tokens()[l] is Some
            implies post.tokens()[k] != post.tokens()[l] by {
        if k != station && l != station {
            assert(pre.tokens()[k] != pre.tokens()[l]);
        } else if k == station {
            assert(pre.tokens()[l] is Some);
        } else {
            assert(pre.tokens()[k] is Some);
        }
    }
    assert forall|j: int|
        0 <= j < post.sched.slots@.len() && #[trigger] post.sched.slots@[j] is Some implies entry_in_range(
        post.sched.slots@[j]->Some_0,
        &post.rat,
    ) by {
        if j != station {
            assert(entry_in_range(pre.sched.slots@[j]->Some_0, &pre.rat));
        }
    }
    lemma_rename_after_allocate(pre.rat@, post.rat@, pre.rob, post.rob, rd, pre.pc);
}

/// Every unit kind is one of the three.
proof fn lemma_class_cases(c: UnitClass)
    ensures
        c == UnitClass::AddSub || c == UnitClass::Logical || c == UnitClass::Compare,
{
}

/// Taking out at most the first ready entry of kind `class` leaves which
/// entries are ready for the other kinds as it was, and changes no slot but
/// that one.
proof fn lemma_take_keeps_other_classes(pre: Core, post: Core, class: UnitClass)
    requires
        post.rat@ == pre.rat@,
        post.rob == pre.rob,
        post.sched.slots@.len() == pre.sched.slots@.len(),
        forall|c: UnitClass| c != class ==> #[trigger] post.unit_pending(c) == pre.unit_pending(c),
        post.sched.slots@ == pre.sched.slots@ || (pre.unit_pending(class) is None && exists|i: int|
            first_ready(pre.sched.slots@, i, class, &pre.rat, &pre.rob)
                && post.sched.slots@ == pre.sched.slots@.update(i, None)),
        forall|i: int|
            pre.unit_pending(class) is None && first_ready(
                pre.sched.slots@,
                i,
                class,
                &pre.rat,
                &pre.rob,
            ) ==> post.sched.slots@ == pre.sched.slots@.update(i, None),
    ensures
        forall|c: UnitClass, j: int|
            c != class && 0 <= j < pre.sched.slots@.len() ==> (#[trigger] dispatchable(
                post.sched.slots@,
                j,
                c,
                &post.rat,
                &post.rob,
            ) == dispatchable(pre.sched.slots@, j, c, &pre.rat, &pre.rob)),
        forall|c: UnitClass, j: int|
            c != class ==> (#[trigger] first_ready(post.sched.slots@, j, c, &post.rat, &post.rob)
                == first_ready(pre.sched.slots@, j, c, &pre.rat, &pre.rob)),
        forall|j: int|
            0 <= j < pre.sched.slots@.len() ==> ((#[trigger] post.sched.slots@[j] is None) == (
            pre.sched.slots@[j] is None || (pre.unit_pending(class) is None && first_ready(
                pre.sched.slots@,
                j,
                class,
                &pre.rat,
                &pre.rob,
            )))),
        forall|j: int|
            0 <= j < pre.sched.slots@.len() && #[trigger] post.sched.slots@[j] is Some
                ==> post.sched.slots@[j] == pre.sched.slots@[j],
        forall|c: UnitClass| c != class ==> #[trigger] post.unit_pending(c) == pre.unit_pending(c),
{
    lemma_resolution_depends_on_views(pre, post);
    assert forall|c: UnitClass, j: int| c != class && 0 <= j < pre.sched.slots@.len() implies (#[trigger] dispatchable(
        post.sched.slots@,
        j,
        c,
        &post.rat,
        &post.rob,
    ) == dispatchable(pre.sched.slots@, j, c, &pre.rat, &pre.rob)) by {
        if post.sched.slots@ != pre.sched.slots@ {
            let i = choose|i: int|
                first_ready(pre.sched.slots@, i, class, &pre.rat, &pre.rob)
                    && post.sched.slots@ == pre.sched.slots@.update(i, None);
            if j == i {
                assert(unit_class(pre.sched.slots@[i]->Some_0.uop) == class);
            } else {
                assert(post.sched.slots@[j] == pre.sched.slots@[j]);
            }
        }
    }
    assert forall|c: UnitClass, j: int| c != class implies (#[trigger] first_ready(
        post.sched.slots@,
        j,
        c,
        &post.rat,
        &post.rob,
    ) == first_ready(pre.sched.slots@, j, c, &pre.rat, &pre.rob)) by {
        if 0 <= j < pre.sched.slots@.len() {
            assert(dispatchable(post.sched.slots@, j, c, &post.rat, &post.rob) == dispatchable(
                pre.sched.slots@,
                j,
                c,
                &pre.rat,
                &pre.rob,
            ));
            if first_ready(pre.sched.slots@, j, c, &pre.rat, &pre.rob) {
                assert forall|k: int| 0 <= k < j implies !#[trigger] dispatchable(
                    post.sched.slots@,
                    k,
                    c,
                    &post.rat,
                    &post.rob,
                ) by {
                    assert(!dispatchable(pre.sched.slots@, k, c, &pre.rat, &pre.rob));
                }
            }
            if first_ready(post.sched.slots@, j, c, &post.rat, &post.rob) {
                assert forall|k: int| 0 <= k < j implies !#[trigger] dispatchable(
                    pre.sched.slots@,
                    k,
                    c,
                    &pre.rat,
                    &pre.rob,
                ) by {
                    assert(!dispatchable(post.sched.slots@, k, c, &post.rat, &post.rob));
                }
            }
        }
    }
    assert forall|j: int| 0 <= j < pre.sched.slots@.len() implies ((#[trigger] post.sched.slots@[j] is None) == (
    pre.sched.slots@[j] is None || (pre.unit_pending(class) is None && first_ready(
        pre.sched.slots@,
        j,
        class,
        &pre.rat,
        &pre.rob,
    )))) && (post.sched.slots@[j] is Some ==> post.sched.slots@[j] == pre.sched.slots@[j]) by {
        if post.sched.slots@ != pre.sched.slots@ {
            let i = choose|i: int|
                first_ready(pre.sched.slots@, i, class, &pre.rat, &pre.rob)
                    && post.sched.slots@ == pre.sched.slots@.update(i, None);
            if j != i && first_ready(pre.sched.slots@, j, class, &pre.rat, &pre.rob) {
                if j < i {
                    assert(!dispatchable(pre.sched.slots@, j, class, &pre.rat, &pre.rob));
                } else {
                    assert(!dispatchable(pre.sched.slots@, i, class, &pre.rat, &pre.rob));
                }
            }
        } else if pre.unit_pending(class) is None && first_ready(pre.sched.slots@, j, class, &pre.rat, &pre.rob) {
            assert(post.sched.slots@ == pre.sched.slots@.update(j, None));
            assert(post.sched.slots@[j] is None);
        }
    }
}

/// Readiness reads the alias table and the reorder buffer through their
/// views alone.
proof fn lemma_resolution_depends_on_views(pre: Core, post: Core)
    requires
        post.rat@ == pre.rat@,
        post.rob == pre.rob,
    ensures
        forall|e: ReservationEntry| #[trigger] ready_op(e, &post.rat, &post.rob) == ready_op(e, &pre.rat, &pre.rob),
{
}

/// Retiring the oldest, completed instruction and committing it keeps the
/// core's invariant.
proof fn lemma_retire_keeps_wf(pre: Core, post: Core)
    requires
        pre.wf(),
        pre.rob.view().len() > 0,
        pre.rob.view()[0].result is Some,
        post.rat.wf(),
        post.rob.wf(),
        post.sched.slots@ == pre.sched.slots@,
        post.asu == pre.asu,
        post.lou == pre.lou,
        post.cru == pre.cru,
        post.rob.capacity() == pre.rob.capacity(),
        post.rob.view() == pre.rob.view().drop_first(),
        post.rob.cells() == pre.rob.cells().update(pre.rob.head_index(), None),
        forall|k: int|
            0 <= k && k + 1 < pre.rob.capacity() ==> #[trigger] post.rob.slot(k) == pre.rob.slot(
                k + 1,
            ),
        ({
            let rd = pre.rob.view()[0].dst->Reg_0.0 as int;
            post.rat@ == if pre.rat@[rd] == ArchRegValue::Name(pre.rob.head_index() as usize) {
                pre.rat@.update(rd, ArchRegValue::Valid(pre.rob.view()[0].result->Some_0))
            } else {
                pre.rat@
            }
        }),
    ensures
        post.wf(),
{
    pre.rob.lemma_slots();
    pre.rat.lemma_len();
    let h = pre.rob.head_index();
    assert(post.tokens() =~= pre.tokens());
    assert forall|k: int|
        0 <= k < post.tokens().len() && #[trigger] post.tokens()[k] is Some implies live(
        &post.rob,
        post.tokens()[k]->Some_0,
    ) by {
        assert(live(&pre.rob, pre.tokens()[k]->Some_0));
        assert(pre.tokens()[k]->Some_0 != h);
    }
    assert forall|i: int|
        0 <= i < post.sched.slots@.len() && #[trigger] post.sched.slots@[i] is Some implies entry_in_range(
        post.sched.slots@[i]->Some_0,
        &post.rat,
    ) by {
        assert(entry_in_range(pre.sched.slots@[i]->Some_0, &pre.rat));
    }
    lemma_rename_after_retire(pre.rat@, post.rat@, pre.rob, post.rob);
}

/// Allocating an instruction that writes `rd` and renaming `rd` to its
/// slot keeps the alias table in agreement with the reorder buffer: `rd`
/// names the new, youngest writer, and no other register changes.
pub proof fn lemma_rename_after_allocate(
    rat0: Seq<ArchRegValue>,
    rat1: Seq<ArchRegValue>,
    rob0: ReorderBuffer,
    rob1: ReorderBuffer,
    rd: ArchReg,
    pc: u32,
)
    requires
        rob0.wf(),
        rob1.wf(),
        rename_agrees(rat0, rob0),
        rat0.len() <= usize::MAX,
        rd.0 < rat0.len(),
        rob0.view().len() < rob0.capacity(),
        rob1.capacity() == rob0.capacity(),
        rob1.view() == rob0.view().push(InFlightOp { pc, dst: StorageLoc::Reg(rd), result: None }),
        forall|k: int| #[trigger] rob1.slot(k) == rob0.slot(k),
        rat1 == rat0.update(rd.0 as int, ArchRegValue::Name(rob0.tail_index() as usize)),
    ensures
        rename_agrees(rat1, rob1),
{
    rob0.lemma_slots();
    let t = rob0.tail_index();
    let v0 = rob0.view();
    let v1 = rob1.view();
    assert forall|k: int| 0 <= k < v1.len() implies (#[trigger] v1[k]).dst is Reg && v1[k].dst->Reg_0.0
        < rat1.len() by {
        if k < v0.len() {
            assert(v1[k] == v0[k]);
        }
    }
    assert(rob0.slot(v0.len() as int) == t);
    assert forall|r: int| 0 <= r < rat1.len() implies (#[trigger] rat1[r] is Valid
        <==> forall|k: int|
        0 <= k < v1.len() ==> v1[k].dst != StorageLoc::Reg(ArchReg(r as usize))) by {
        let reg = StorageLoc::Reg(ArchReg(r as usize));
        if r == rd.0 {
            assert(v1[v0.len() as int].dst == reg);
        } else {
            assert(v1[v0.len() as int].dst != reg);
            if rat0[r] is Valid {
                assert forall|k: int| 0 <= k < v1.len() implies v1[k].dst != reg by {
                    if k < v0.len() {
                        assert(v1[k] == v0[k]);
                    }
                }
            } else {
                let k0 = choose|k: int|
                    0 <= k < v0.len() && rob0.slot(k) == rat0[r]->Name_0 && v0[k].dst == reg
                        && forall|j: int| k < j < v0.len() ==> v0[j].dst != reg;
                assert(v1[k0] == v0[k0]);
            }
        }
    }
    assert forall|r: int|
        0 <= r < rat1.len() && #[trigger] rat1[r] is Name implies exists|k: int|
        0 <= k < v1.len() && rob1.slot(k) == rat1[r]->Name_0 && v1[k].dst == StorageLoc::Reg(
            ArchReg(r as usize),
        ) && forall|j: int| k < j < v1.len() ==> v1[j].dst != StorageLoc::Reg(ArchReg(r as usize)) by {
        let reg = StorageLoc::Reg(ArchReg(r as usize));
        if r == rd.0 {
            let k = v0.len() as int;
            assert(rob1.slot(k) == t);
            assert(v1[k].dst == reg);
        } else {
            let k0 = choose|k: int|
                0 <= k < v0.len() && rob0.slot(k) == rat0[r]->Name_0 && v0[k].dst == reg
                    && forall|j: int| k < j < v0.len() ==> v0[j].dst != reg;
            assert(v1[k0] == v0[k0]);
            assert(rob1.slot(k0) == rob0.slot(k0));
            assert forall|j: int| k0 < j < v1.len() implies v1[j].dst != reg by {
                if j < v0.len() {
                    assert(v1[j] == v0[j]);
                }
            }
        }
    }}

/// Retiring the oldest, completed instruction and committing its result to
/// its register, unless a younger rename has superseded it, keeps the alias
/// table in agreement with the reorder buffer.
pub proof fn lemma_rename_after_retire(
    rat0: Seq<ArchRegValue>,
    rat1: Seq<ArchRegValue>,
    rob0: ReorderBuffer,
    rob1: ReorderBuffer,
)
    requires
        rob0.wf(),
        rob1.wf(),
        rename_agrees(rat0, rob0),
        rat0.len() <= usize::MAX,
        rob0.view().len() > 0,
        rob0.view()[0].result is Some,
        rob1.capacity() == rob0.capacity(),
        rob1.view() == rob0.view().drop_first(),
        forall|k: int|
            0 <= k && k + 1 < rob0.capacity() ==> #[trigger] rob1.slot(k) == rob0.slot(k + 1),
        ({
            let rd = rob0.view()[0].dst->Reg_0.0 as int;
            rat1 == if rat0[rd] == ArchRegValue::Name(rob0.head_index() as usize) {
                rat0.update(rd, ArchRegValue::Valid(rob0.view()[0].result->Some_0))
            } else {
                rat0
            }
        }),
    ensures
        rename_agrees(rat1, rob1),
{
    rob0.lemma_slots();
    let v0 = rob0.view();
    let v1 = rob1.view();
    let h = rob0.head_index();
    let rd = v0[0].dst->Reg_0.0 as int;
    assert forall|k: int| 0 <= k < v1.len() implies (#[trigger] v1[k]).dst is Reg && v1[k].dst->Reg_0.0
        < rat1.len() by {
        assert(v1[k] == v0[k + 1]);
    }
    assert forall|r: int| 0 <= r < rat1.len() implies (#[trigger] rat1[r] is Valid
        <==> forall|k: int|
        0 <= k < v1.len() ==> v1[k].dst != StorageLoc::Reg(ArchReg(r as usize))) by {
        let reg = StorageLoc::Reg(ArchReg(r as usize));
        if r == rd && rat0[r] == ArchRegValue::Name(h as usize) {
            let k0 = choose|k: int|
                0 <= k < v0.len() && rob0.slot(k) == rat0[r]->Name_0 && v0[k].dst == reg
                    && forall|j: int| k < j < v0.len() ==> v0[j].dst != reg;
            assert(rob0.slot(0) == h);
            assert(k0 == 0);
            assert forall|k: int| 0 <= k < v1.len() implies v1[k].dst != reg by {
                assert(v1[k] == v0[k + 1]);
            }
        } else if rat0[r] is Valid {
            assert forall|k: int| 0 <= k < v1.len() implies v1[k].dst != reg by {
                assert(v1[k] == v0[k + 1]);
            }
        } else {
            let k0 = choose|k: int|
                0 <= k < v0.len() && rob0.slot(k) == rat0[r]->Name_0 && v0[k].dst == reg
                    && forall|j: int| k < j < v0.len() ==> v0[j].dst != reg;
            if k0 == 0 {
            assert(v0[0].dst->Reg_0.0 == r as usize);
            assert(rd == r);
        }
        assert(k0 != 0);
            assert(v1[k0 - 1] == v0[k0]);
        }
    }
    assert forall|r: int|
        0 <= r < rat1.len() && #[trigger] rat1[r] is Name implies exists|k: int|
        0 <= k < v1.len() && rob1.slot(k) == rat1[r]->Name_0 && v1[k].dst == StorageLoc::Reg(
            ArchReg(r as usize),
        ) && forall|j: int| k < j < v1.len() ==> v1[j].dst != StorageLoc::Reg(ArchReg(r as usize)) by {
        let reg = StorageLoc::Reg(ArchReg(r as usize));
        assert(rat1[r] == rat0[r]);
        let k0 = choose|k: int|
            0 <= k < v0.len() && rob0.slot(k) == rat0[r]->Name_0 && v0[k].dst == reg
                && forall|j: int| k < j < v0.len() ==> v0[j].dst != reg;
        if k0 == 0 {
            assert(v0[0].dst->Reg_0.0 == r as usize);
            assert(rd == r);
        }
        assert(k0 != 0);
        assert(v1[k0 - 1] == v0[k0]);
        assert(rob1.slot(k0 - 1) == rob0.slot(k0));
        assert forall|j: int| k0 - 1 < j < v1.len() implies v1[j].dst != reg by {
            assert(v1[j] == v0[j + 1]);
        }
    }}

} // verus!
