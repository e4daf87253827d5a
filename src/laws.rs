//! Laws of the model that relate several operations: the order in which the
//! reorder buffer hands entries back, and the algebra of the functional
//! units' operations.

use vstd::prelude::*;
use crate::isa::{alu_uop, ALUOp};
use crate::pipeline::captured;
use crate::prim::ArchReg;
use crate::rat::{ArchRegValue, RegisterAliasTable};
use crate::rob::{InFlightOp, ReorderBuffer, StorageLoc};
use crate::sched::{operand_value, Operand};
use crate::unit::{op_result, shift_amount, sra, AddSubOp, FunctionalUnitOp, LogicalOp};

verus! {

/// The entries that `n` successive retirements hand out from a buffer whose
/// in-flight entries are `view`, each retirement taking the oldest.
pub open spec fn retired(view: Seq<InFlightOp>, n: nat) -> Seq<InFlightOp>
    decreases n,
{
    if n == 0 || view.len() == 0 {
        Seq::empty()
    } else {
        seq![view[0]].add(retired(view.drop_first(), (n - 1) as nat))
    }
}

/// Retire order equals allocate order: once `allocated` has been allocated,
/// in order, behind the entries `view` already in flight, retiring every
/// entry hands out `view` and then `allocated`, in the order of allocation.
pub proof fn lemma_retire_order(view: Seq<InFlightOp>, allocated: Seq<InFlightOp>)
    ensures
        retired(view + allocated, view.len() + allocated.len()) == view + allocated,
    decreases view.len() + allocated.len(),
{
    let all = view + allocated;
    if all.len() > 0 {
        if view.len() > 0 {
            assert((view + allocated).drop_first() =~= view.drop_first() + allocated);
            lemma_retire_order(view.drop_first(), allocated);
        } else {
            assert(view + allocated =~= Seq::<InFlightOp>::empty() + allocated);
            assert(allocated.drop_first() =~= Seq::<InFlightOp>::empty() + allocated.drop_first());
            lemma_retire_order(Seq::<InFlightOp>::empty(), allocated.drop_first());
        }
        assert(seq![all[0]].add(all.drop_first()) =~= all);
    } else {
        assert(all =~= Seq::<InFlightOp>::empty());
    }
}

/// Adding an immediate 0 to a register with no pending rename: the
/// instruction captures the register's value `v` as its first operand and 0
/// as its second, and its operation yields `v` again.
pub proof fn lemma_add_zero_keeps_value(
    rat: &RegisterAliasTable,
    rob: &ReorderBuffer,
    r: ArchReg,
    v: u32,
)
    requires
        r.0 < rat@.len(),
        rat@[r.0 as int] == ArchRegValue::Valid(v),
    ensures
        captured(Operand::Reg(r), rat, rob) == Operand::Value(v),
        operand_value(Operand::Value(v), rat, rob) == Some(v),
        operand_value(Operand::Imm(0), rat, rob) == Some(0u32),
        op_result(alu_uop(ALUOp::Add), v, 0) == v,
{
}

/// A word xor'ed with itself is 0.
pub proof fn lemma_xor_self_is_zero(x: u32)
    ensures
        op_result(alu_uop(ALUOp::Xor), x, x) == 0,
{
    assert(x ^ x == 0) by (bit_vector);
}

/// A word minus itself is 0.
pub proof fn lemma_sub_self_is_zero(x: u32)
    ensures
        op_result(FunctionalUnitOp::AddSub(AddSubOp::Sub), x, x) == 0,
{
}

/// A shift by 32 or more shifts by the amount's low five bits: shifting by
/// `y` and by `y - 32` give the same result.
pub proof fn lemma_shift_amount_wraps(x: u32, y: u32)
    requires
        y >= 32,
    ensures
        op_result(FunctionalUnitOp::Logical(LogicalOp::Sll), x, y) == op_result(
            FunctionalUnitOp::Logical(LogicalOp::Sll),
            x,
            (y - 32) as u32,
        ),
        op_result(FunctionalUnitOp::Logical(LogicalOp::Srl), x, y) == op_result(
            FunctionalUnitOp::Logical(LogicalOp::Srl),
            x,
            (y - 32) as u32,
        ),
        op_result(FunctionalUnitOp::Logical(LogicalOp::Sra), x, y) == op_result(
            FunctionalUnitOp::Logical(LogicalOp::Sra),
            x,
            (y - 32) as u32,
        ),
{
    let z = (y - 32) as u32;
    assert(y & 31 == z & 31) by (bit_vector)
        requires
            y >= 32,
            z == y - 32,
    ;
}

/// An arithmetic right shift of a negative word by an amount whose low five
/// bits are all set fills the word with its sign: the result is
/// 0xFFFF_FFFF.
pub proof fn lemma_sra_negative_fills_sign(x: u32, y: u32)
    requires
        x >= 0x8000_0000,
        y & 31 == 31,
    ensures
        op_result(FunctionalUnitOp::Logical(LogicalOp::Sra), x, y) == 0xFFFF_FFFFu32,
{
    assert(shift_amount(y) == 31);
    assert(x & 0x8000_0000 != 0) by (bit_vector)
        requires
            x >= 0x8000_0000,
    ;
    assert(!((!x) >> 31u32) == 0xFFFF_FFFFu32) by (bit_vector)
        requires
            x >= 0x8000_0000,
    ;
    assert(sra(x, 31) == 0xFFFF_FFFFu32);
}

/// What identifies an in-flight entry apart from its result: its pc and its
/// destination.
pub open spec fn ident(e: InFlightOp) -> (u32, StorageLoc) {
    (e.pc, e.dst)
}

/// The identities of `s`, in order.
pub open spec fn idents(s: Seq<InFlightOp>) -> Seq<(u32, StorageLoc)> {
    s.map_values(|e: InFlightOp| ident(e))
}

/// The entries that occur in `s`, in order.
pub open spec fn present(s: Seq<Option<InFlightOp>>) -> Seq<InFlightOp>
    decreases s.len(),
{
    if s.len() == 0 {
        Seq::empty()
    } else {
        let pre = present(s.drop_last());
        match s.last() {
            Some(e) => pre.push(e),
            None => pre,
        }
    }
}

/// One call on a reorder buffer whose in-flight entries go from `before` to
/// `after`, as the contracts of its operations describe them: a `push` of
/// `e` appends it; a `retire` that returns `e` hands out the oldest entry and
/// drops it; a `writeback` (or a call that changes nothing) keeps every
/// entry's pc and destination.
pub open spec fn rob_call(
    before: Seq<InFlightOp>,
    after: Seq<InFlightOp>,
    pushed: Option<InFlightOp>,
    retired: Option<InFlightOp>,
) -> bool {
    ||| pushed is Some && retired is None && after == before.push(pushed->Some_0)
    ||| pushed is None && before.len() > 0 && retired == Some(before[0]) && after
        == before.drop_first()
    ||| pushed is None && retired is None && idents(after) == idents(before)
}

/// Retire order equals allocate order over any run of calls on a buffer
/// that starts empty: the entries retired so far, followed by those still
/// in flight, are exactly the entries pushed, in the order of their pushes.
/// So retired entries form a prefix of the pushed ones, none skipped,
/// repeated or reordered.
pub proof fn lemma_retire_order_over_run(
    views: Seq<Seq<InFlightOp>>,
    pushed: Seq<Option<InFlightOp>>,
    retired: Seq<Option<InFlightOp>>,
)
    requires
        views.len() == pushed.len() + 1,
        retired.len() == pushed.len(),
        views[0].len() == 0,
        forall|t: int|
            0 <= t < pushed.len() ==> rob_call(
                #[trigger] views[t],
                views[t + 1],
                pushed[t],
                retired[t],
            ),
    ensures
        idents(present(retired)) + idents(views.last()) == idents(present(pushed)),
    decreases pushed.len(),
{
    let n = pushed.len() as int;
    if n == 0 {
        assert(present(retired) =~= Seq::<InFlightOp>::empty());
        assert(present(pushed) =~= Seq::<InFlightOp>::empty());
        assert(idents(views.last()) =~= Seq::<(u32, StorageLoc)>::empty());
        assert(idents(Seq::<InFlightOp>::empty()) =~= Seq::<(u32, StorageLoc)>::empty());
    } else {
        let t = n - 1;
        lemma_retire_order_over_run(views.drop_last(), pushed.drop_last(), retired.drop_last());
        assert(views.drop_last().last() == views[t]);
        let r0 = present(retired.drop_last());
        let p0 = present(pushed.drop_last());
        let v = views[t];
        let w = views[n];
        assert(rob_call(views[t], views[t + 1], pushed[t], retired[t]));
        assert(idents(r0) + idents(v) == idents(p0));
        if pushed[t] is Some && retired[t] is None {
            let e = pushed[t]->Some_0;
            assert(present(pushed) == p0.push(e));
            assert(present(retired) == r0);
            assert(idents(w) =~= idents(v).push(ident(e)));
            assert(idents(p0.push(e)) =~= idents(p0).push(ident(e)));
            assert(idents(r0) + idents(w) =~= (idents(r0) + idents(v)).push(ident(e)));
        } else if pushed[t] is None && retired[t] is Some {
            let e = retired[t]->Some_0;
            assert(e == v[0]);
            assert(present(pushed) == p0);
            assert(present(retired) == r0.push(e));
            assert(idents(r0.push(e)) =~= idents(r0).push(ident(e)));
            assert(idents(r0.push(e)) + idents(w) =~= idents(r0) + idents(v));
        } else {
            assert(present(pushed) == p0);
            assert(present(retired) == r0);
        }
    }
}

} // verus!
