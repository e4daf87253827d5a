//! Functional units: the operations each one performs and the units
//! themselves, each holding at most one operation at a time.

use vstd::prelude::*;
use crate::sched::DispatchedOp;

verus! {

/// Operations for an [AddSubUnit].
#[derive(Debug, Copy, Clone, PartialEq, Eq, Structural)]
pub enum AddSubOp {
    Add,
    Sub,
}

/// Operations for a [LogicalOpUnit].
#[derive(Debug, Copy, Clone, PartialEq, Eq, Structural)]
pub enum LogicalOp {
    And,
    Or,
    Xor,
    Sll,
    Srl,
    Sra,
}

/// Operations for a [ComparatorUnit].
#[derive(Debug, Copy, Clone, PartialEq, Eq, Structural)]
pub enum CompareOp {
    LtSigned,
    LtUnsigned,
}

/// Operations corresponding to different functional units.
#[derive(Debug, Copy, Clone, PartialEq, Eq, Structural)]
pub enum FunctionalUnitOp {
    AddSub(AddSubOp),
    Logical(LogicalOp),
    Compare(CompareOp),
}

/// The three kinds of functional unit.
#[derive(Debug, Copy, Clone, PartialEq, Eq, Structural)]
pub enum UnitClass {
    AddSub,
    Logical,
    Compare,
}

/// The unit that performs `uop`.
pub open spec fn unit_class(uop: FunctionalUnitOp) -> UnitClass {
    match uop {
        FunctionalUnitOp::AddSub(_) => UnitClass::AddSub,
        FunctionalUnitOp::Logical(_) => UnitClass::Logical,
        FunctionalUnitOp::Compare(_) => UnitClass::Compare,
    }
}

impl FunctionalUnitOp {
    /// The unit that performs this operation.
    pub fn class(&self) -> (r: UnitClass)
        ensures
            r == unit_class(*self),
    {
        match self {
            FunctionalUnitOp::AddSub(_) => UnitClass::AddSub,
            FunctionalUnitOp::Logical(_) => UnitClass::Logical,
            FunctionalUnitOp::Compare(_) => UnitClass::Compare,
        }
    }
}

/// A result delivered to a slot of the reorder buffer.
#[derive(Debug, Copy, Clone, PartialEq, Eq, Structural)]
pub struct CompletedOp {
    pub rob_idx: usize,
    pub res: u32,
}

/// 2^32.
pub open spec fn word_modulus() -> int {
    0x1_0000_0000
}

/// A 32-bit word read as a two's-complement signed integer.
pub open spec fn signed(x: u32) -> int {
    if x < 0x8000_0000 {
        x as int
    } else {
        x - word_modulus()
    }
}

/// The shift amount taken from `y`: its low five bits.
pub open spec fn shift_amount(y: u32) -> u32 {
    y & 31
}

/// Arithmetic right shift: the vacated high bits copy the sign bit.
pub open spec fn sra(x: u32, s: u32) -> u32 {
    if x & 0x8000_0000 == 0 {
        x >> s
    } else {
        !((!x) >> s)
    }
}

/// What each operation computes from its operands `x` and `y`.
pub open spec fn op_result(uop: FunctionalUnitOp, x: u32, y: u32) -> u32 {
    match uop {
        FunctionalUnitOp::AddSub(AddSubOp::Add) => ((x + y) % word_modulus()) as u32,
        FunctionalUnitOp::AddSub(AddSubOp::Sub) => ((x - y) % word_modulus()) as u32,
        FunctionalUnitOp::Logical(LogicalOp::And) => x & y,
        FunctionalUnitOp::Logical(LogicalOp::Or) => x | y,
        FunctionalUnitOp::Logical(LogicalOp::Xor) => x ^ y,
        FunctionalUnitOp::Logical(LogicalOp::Sll) => x << shift_amount(y),
        FunctionalUnitOp::Logical(LogicalOp::Srl) => x >> shift_amount(y),
        FunctionalUnitOp::Logical(LogicalOp::Sra) => sra(x, shift_amount(y)),
        FunctionalUnitOp::Compare(CompareOp::LtSigned) => if signed(x) < signed(y) {
            1
        } else {
            0
        },
        FunctionalUnitOp::Compare(CompareOp::LtUnsigned) => if x < y {
            1
        } else {
            0
        },
    }
}

/// The operation `op` with its result computed.
pub open spec fn executed(op: DispatchedOp) -> DispatchedOp {
    DispatchedOp { res: Some(op_result(op.uop, op.x, op.y)), ..op }
}

/// Common interface for an execution unit (EU).
pub trait ExecutionUnit: Sized {
    /// The operation the unit holds, if any.
    spec fn pending(&self) -> Option<DispatchedOp>;

    /// The operations this unit performs.
    spec fn accepts(uop: FunctionalUnitOp) -> bool;

    /// A held operation is one this unit performs.
    spec fn inv(&self) -> bool;

    fn new() -> (r: Self)
        ensures
            r.inv(),
            r.pending() is None,
    ;

    fn is_busy(&self) -> (r: bool)
        ensures
            r == self.pending() is Some,
    ;

    /// The operation the unit holds, for inspection.
    fn pending_op(&self) -> (r: Option<DispatchedOp>)
        ensures
            r == self.pending(),
    ;

    /// Send some operation to this unit.
    fn prepare(&mut self, op: &DispatchedOp)
        requires
            old(self).pending() is None,
            Self::accepts(op.uop),
        ensures
            final(self).inv(),
            final(self).pending() == Some(*op),
    ;

    /// Perform the current operation, producing a result.
    fn execute(&mut self)
        requires
            old(self).inv(),
        ensures
            final(self).inv(),
            old(self).pending() is None ==> final(self).pending() is None,
            old(self).pending() is Some ==> final(self).pending() == Some(
                executed(old(self).pending()->Some_0),
            ),
    ;

    /// Return the operation and result data, clearing the unit's state.
    fn complete(&mut self) -> (r: Option<DispatchedOp>)
        requires
            old(self).inv(),
        ensures
            final(self).inv(),
            old(self).pending() is Some && old(self).pending()->Some_0.res is Some ==> {
                &&& r == old(self).pending()
                &&& final(self).pending() is None
            },
            !(old(self).pending() is Some && old(self).pending()->Some_0.res is Some) ==> {
                &&& r is None
                &&& final(self).pending() == old(self).pending()
            },
    ;
}

/// Execution unit for add/subtract operations.
pub struct AddSubUnit {
    pending: Option<DispatchedOp>,
}

impl ExecutionUnit for AddSubUnit {
    closed spec fn pending(&self) -> Option<DispatchedOp> {
        self.pending
    }

    open spec fn accepts(uop: FunctionalUnitOp) -> bool {
        uop is AddSub
    }

    closed spec fn inv(&self) -> bool {
        self.pending is Some ==> Self::accepts(self.pending->Some_0.uop)
    }

    fn new() -> (r: Self) {
        Self { pending: None }
    }

    fn is_busy(&self) -> (r: bool) {
        self.pending.is_some()
    }

    fn pending_op(&self) -> (r: Option<DispatchedOp>) {
        self.pending
    }

    fn prepare(&mut self, op: &DispatchedOp) {
        *self = Self { pending: Some(*op) }
    }

    fn execute(&mut self) {
        if let Some(ifo) = self.pending {
            let res = match ifo.uop {
                FunctionalUnitOp::AddSub(AddSubOp::Add) => ifo.x.wrapping_add(ifo.y),
                FunctionalUnitOp::AddSub(AddSubOp::Sub) => ifo.x.wrapping_sub(ifo.y),
                _ => 0,
            };
            self.pending = Some(DispatchedOp { res: Some(res), ..ifo });
        }
    }

    fn complete(&mut self) -> (r: Option<DispatchedOp>) {
        match self.pending {
            Some(op) => {
                if op.res.is_some() {
                    self.pending = None;
                    Some(op)
                } else {
                    None
                }
            },
            None => None,
        }
    }
}

/// Execution unit for bitwise logical operations and shifts.
pub struct LogicalOpUnit {
    pending: Option<DispatchedOp>,
}

/// Arithmetic right shift of `x` by `s` (< 32) bits.
fn shift_right_arith(x: u32, s: u32) -> (r: u32)
    requires
        s < 32,
    ensures
        r == sra(x, s),
{
    if x & 0x8000_0000 == 0 {
        x >> s
    } else {
        !((!x) >> s)
    }
}

impl ExecutionUnit for LogicalOpUnit {
    closed spec fn pending(&self) -> Option<DispatchedOp> {
        self.pending
    }

    open spec fn accepts(uop: FunctionalUnitOp) -> bool {
        uop is Logical
    }

    closed spec fn inv(&self) -> bool {
        self.pending is Some ==> Self::accepts(self.pending->Some_0.uop)
    }

    fn new() -> (r: Self) {
        Self { pending: None }
    }

    fn is_busy(&self) -> (r: bool) {
        self.pending.is_some()
    }

    fn pending_op(&self) -> (r: Option<DispatchedOp>) {
        self.pending
    }

    fn prepare(&mut self, op: &DispatchedOp) {
        *self = Self { pending: Some(*op) }
    }

    fn execute(&mut self) {
        if let Some(ifo) = self.pending {
            let x = ifo.x;
            let y = ifo.y;
            let s = y & 31;
            proof {
                assert(s < 32) by (bit_vector)
                    requires
                        s == y & 31,
                ;
            }
            let res = match ifo.uop {
                FunctionalUnitOp::Logical(LogicalOp::Xor) => x ^ ifo.y,
                FunctionalUnitOp::Logical(LogicalOp::Or) => x | ifo.y,
                FunctionalUnitOp::Logical(LogicalOp::And) => x & ifo.y,
                FunctionalUnitOp::Logical(LogicalOp::Sll) => x << s,
                FunctionalUnitOp::Logical(LogicalOp::Srl) => x >> s,
                FunctionalUnitOp::Logical(LogicalOp::Sra) => shift_right_arith(x, s),
                _ => 0,
            };
            self.pending = Some(DispatchedOp { res: Some(res), ..ifo });
        }
    }

    fn complete(&mut self) -> (r: Option<DispatchedOp>) {
        match self.pending {
            Some(op) => {
                if op.res.is_some() {
                    self.pending = None;
                    Some(op)
                } else {
                    None
                }
            },
            None => None,
        }
    }
}

/// Execution unit for comparisons.
pub struct ComparatorUnit {
    pending: Option<DispatchedOp>,
}

/// Signed less-than on two words read as two's-complement integers.
fn less_signed(x: u32, y: u32) -> (r: bool)
    ensures
        r == (signed(x) < signed(y)),
{
    let x_neg = x >= 0x8000_0000;
    let y_neg = y >= 0x8000_0000;
    if x_neg != y_neg {
        x_neg
    } else {
        x < y
    }
}

impl ExecutionUnit for ComparatorUnit {
    closed spec fn pending(&self) -> Option<DispatchedOp> {
        self.pending
    }

    open spec fn accepts(uop: FunctionalUnitOp) -> bool {
        uop is Compare
    }

    closed spec fn inv(&self) -> bool {
        self.pending is Some ==> Self::accepts(self.pending->Some_0.uop)
    }

    fn new() -> (r: Self) {
        Self { pending: None }
    }

    fn is_busy(&self) -> (r: bool) {
        self.pending.is_some()
    }

    fn pending_op(&self) -> (r: Option<DispatchedOp>) {
        self.pending
    }

    fn prepare(&mut self, op: &DispatchedOp) {
        *self = Self { pending: Some(*op) }
    }

    fn execute(&mut self) {
        if let Some(ifo) = self.pending {
            let res: u32 = match ifo.uop {
                FunctionalUnitOp::Compare(CompareOp::LtSigned) => if less_signed(ifo.x, ifo.y) {
                    1
                } else {
                    0
                },
                FunctionalUnitOp::Compare(CompareOp::LtUnsigned) => if ifo.x < ifo.y {
                    1
                } else {
                    0
                },
                _ => 0,
            };
            self.pending = Some(DispatchedOp { res: Some(res), ..ifo });
        }
    }

    fn complete(&mut self) -> (r: Option<DispatchedOp>) {
        match self.pending {
            Some(op) => {
                if op.res.is_some() {
                    self.pending = None;
                    Some(op)
                } else {
                    None
                }
            },
            None => None,
        }
    }
}

} // verus!
