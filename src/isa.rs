//! The decoded instruction records of the 32-bit integer instruction set that
//! the core consumes.

use vstd::prelude::*;
use rand::rngs::StdRng;
use rand::Rng;
use crate::prim::ArchReg;
use crate::unit::{AddSubOp, CompareOp, FunctionalUnitOp, LogicalOp};

verus! {

#[verifier::external_type_specification]
#[verifier::external_body]
pub struct ExStdRng(StdRng);

/// Relies on rand's `Rng::gen_range` on a `StdRng`: the number it draws
/// from `lo..=hi` lies in that range; it panics only on an empty range.
#[verifier::external_body]
fn draw(rng: &mut StdRng, lo: i32, hi: i32) -> (r: i32)
    requires
        lo <= hi,
    ensures
        lo <= r <= hi,
{
    rng.gen_range(lo..=hi)
}

/// Width of a memory access.
#[derive(Debug, Clone, Copy, PartialEq, Eq, Structural)]
pub enum Width {
    Byte,
    Half,
    Word,
}

impl Width {
    /// The width numbered `n`: 0 is a byte, 1 a half word, anything else a
    /// word.
    pub fn from_index(n: u32) -> (r: Width)
        ensures
            r == (if n == 0 {
                Width::Byte
            } else if n == 1 {
                Width::Half
            } else {
                Width::Word
            }),
    {
        match n {
            0 => Width::Byte,
            1 => Width::Half,
            _ => Width::Word,
        }
    }
}

/// Register-register and register-immediate ALU operations.
#[derive(Debug, Clone, Copy, PartialEq, Eq, Structural)]
pub enum ALUOp {
    Add,
    Sub,
    Sll,
    Slt,
    Sltu,
    Xor,
    Srl,
    Sra,
    Or,
    And,
}

/// The functional-unit operation that carries out `op`.
pub open spec fn alu_uop(op: ALUOp) -> FunctionalUnitOp {
    match op {
        ALUOp::Add => FunctionalUnitOp::AddSub(AddSubOp::Add),
        ALUOp::Sub => FunctionalUnitOp::AddSub(AddSubOp::Sub),
        ALUOp::Slt => FunctionalUnitOp::Compare(CompareOp::LtSigned),
        ALUOp::Sltu => FunctionalUnitOp::Compare(CompareOp::LtUnsigned),
        ALUOp::Xor => FunctionalUnitOp::Logical(LogicalOp::Xor),
        ALUOp::And => FunctionalUnitOp::Logical(LogicalOp::And),
        ALUOp::Or => FunctionalUnitOp::Logical(LogicalOp::Or),
        ALUOp::Sll => FunctionalUnitOp::Logical(LogicalOp::Sll),
        ALUOp::Srl => FunctionalUnitOp::Logical(LogicalOp::Srl),
        ALUOp::Sra => FunctionalUnitOp::Logical(LogicalOp::Sra),
    }
}

/// The ALU operations in their numbering, `Add` first.
pub open spec fn alu_op_numbered(n: u32) -> ALUOp {
    if n == 0 {
        ALUOp::Add
    } else if n == 1 {
        ALUOp::Sub
    } else if n == 2 {
        ALUOp::Sll
    } else if n == 3 {
        ALUOp::Slt
    } else if n == 4 {
        ALUOp::Sltu
    } else if n == 5 {
        ALUOp::Xor
    } else if n == 6 {
        ALUOp::Srl
    } else if n == 7 {
        ALUOp::Sra
    } else if n == 8 {
        ALUOp::Or
    } else {
        ALUOp::And
    }
}

impl ALUOp {
    pub fn to_uop(&self) -> (r: FunctionalUnitOp)
        ensures
            r == alu_uop(*self),
    {
        match self {
            Self::Add => FunctionalUnitOp::AddSub(AddSubOp::Add),
            Self::Sub => FunctionalUnitOp::AddSub(AddSubOp::Sub),
            Self::Slt => FunctionalUnitOp::Compare(CompareOp::LtSigned),
            Self::Sltu => FunctionalUnitOp::Compare(CompareOp::LtUnsigned),
            Self::Xor => FunctionalUnitOp::Logical(LogicalOp::Xor),
            Self::And => FunctionalUnitOp::Logical(LogicalOp::And),
            Self::Or => FunctionalUnitOp::Logical(LogicalOp::Or),
            Self::Sll => FunctionalUnitOp::Logical(LogicalOp::Sll),
            Self::Srl => FunctionalUnitOp::Logical(LogicalOp::Srl),
            Self::Sra => FunctionalUnitOp::Logical(LogicalOp::Sra),
        }
    }

    /// The operation numbered `n`; every number from 9 up is `And`.
    pub fn from_index(n: u32) -> (r: ALUOp)
        ensures
            r == alu_op_numbered(n),
    {
        match n {
            0 => ALUOp::Add,
            1 => ALUOp::Sub,
            2 => ALUOp::Sll,
            3 => ALUOp::Slt,
            4 => ALUOp::Sltu,
            5 => ALUOp::Xor,
            6 => ALUOp::Srl,
            7 => ALUOp::Sra,
            8 => ALUOp::Or,
            _ => ALUOp::And,
        }
    }

    /// Whether this is a shift, whose immediate form takes a 5-bit amount.
    pub fn is_shift(&self) -> (r: bool)
        ensures
            r == (*self == ALUOp::Sll || *self == ALUOp::Srl || *self == ALUOp::Sra),
    {
        match self {
            Self::Sll | Self::Srl | Self::Sra => true,
            _ => false,
        }
    }
}

/// An immediate operand.
pub enum Immediate {
    U32(u32),
    S32(i32),
}

/// The source registers an instruction reads.
#[derive(Debug, Clone, Copy, PartialEq, Eq, Structural)]
pub struct OperandList {
    pub rs1: Option<ArchReg>,
    pub rs2: Option<ArchReg>,
}

/// A decoded instruction.
#[derive(Debug, Clone, Copy, PartialEq, Eq, Structural)]
pub enum Opcode {
    /// ALU operation
    Op(ArchReg, ArchReg, ArchReg, ALUOp),
    /// ALU operation with immediate
    OpImm(ArchReg, ArchReg, i32, ALUOp),
    /// Load upper immediate
    Lui(ArchReg, u32),
    /// Memory load
    Load(ArchReg, ArchReg, i32, Width),
    /// Memory store
    Store(ArchReg, ArchReg, i32, Width),
}

impl Opcode {
    pub fn reg_operands(&self) -> (r: OperandList)
        ensures
            r == match *self {
                Opcode::Op(_, rs1, rs2, _) => OperandList { rs1: Some(rs1), rs2: Some(rs2) },
                Opcode::OpImm(_, rs1, _, _) => OperandList { rs1: Some(rs1), rs2: None },
                Opcode::Lui(_, _) => OperandList { rs1: None, rs2: None },
                Opcode::Load(_, rs1, _, _) => OperandList { rs1: Some(rs1), rs2: None },
                Opcode::Store(rs1, rs2, _, _) => OperandList { rs1: Some(rs1), rs2: Some(rs2) },
            },
    {
        match *self {
            Self::Op(_, rs1, rs2, _) => OperandList { rs1: Some(rs1), rs2: Some(rs2) },
            Self::OpImm(_, rs1, _, _) => OperandList { rs1: Some(rs1), rs2: None },
            Self::Lui(_, _) => OperandList { rs1: None, rs2: None },
            Self::Load(_, rs1, _, _) => OperandList { rs1: Some(rs1), rs2: None },
            Self::Store(rs1, rs2, _, _) => OperandList { rs1: Some(rs1), rs2: Some(rs2) },
        }
    }

    pub fn is_store(&self) -> (r: bool)
        ensures
            r == (*self is Store),
    {
        match self {
            Self::Store(_, _, _, _) => true,
            _ => false,
        }
    }

    /// Builds an ALU instruction from drawn values: `rd`, `rs1` and `rs2`
    /// name the registers and `op` the operation. With `with_imm` the result
    /// is the immediate form, taking `shamt` as the immediate of a shift and
    /// `imm` otherwise; `Sub`, which has no immediate form, becomes `Add`
    /// there.
    pub fn from_draws(
        rd: usize,
        rs1: usize,
        rs2: usize,
        op: ALUOp,
        with_imm: bool,
        shamt: i32,
        imm: i32,
    ) -> (r: Opcode)
        ensures
            ({
                let op1 = op;
                if with_imm {
                    let op2 = if op1 == ALUOp::Sub {
                        ALUOp::Add
                    } else {
                        op1
                    };
                    let i = if op1 == ALUOp::Sll || op1 == ALUOp::Srl || op1 == ALUOp::Sra {
                        shamt
                    } else {
                        imm
                    };
                    r == Opcode::OpImm(ArchReg(rd), ArchReg(rs1), i, op2)
                } else {
                    r == Opcode::Op(ArchReg(rd), ArchReg(rs1), ArchReg(rs2), op1)
                }
            }),
    {
        let mut op = op;
        if with_imm {
            let i = if op.is_shift() {
                shamt
            } else {
                imm
            };
            if op == ALUOp::Sub {
                op = ALUOp::Add;
            }
            Opcode::OpImm(ArchReg(rd), ArchReg(rs1), i, op)
        } else {
            Opcode::Op(ArchReg(rd), ArchReg(rs1), ArchReg(rs2), op)
        }
    }
}

/// Draws a random ALU instruction: a destination among registers 1 to 7,
/// sources among registers 0 to 7, and either the register form or the
/// immediate form, with a 5-bit amount for shifts and a signed 12-bit
/// immediate (-2048 to 2047) otherwise. `Sub` has no immediate form and is
/// never drawn there.
pub fn random_opcode(rng: &mut StdRng) -> (r: Opcode)
    ensures
        r is Op || r is OpImm,
        r matches Opcode::Op(rd, rs1, rs2, op) ==> 1 <= rd.0 <= 7 && rs1.0 <= 7 && rs2.0 <= 7,
        r matches Opcode::OpImm(rd, rs1, imm, op) ==> {
            &&& 1 <= rd.0 <= 7
            &&& rs1.0 <= 7
            &&& op != ALUOp::Sub
            &&& (op == ALUOp::Sll || op == ALUOp::Srl || op == ALUOp::Sra) ==> 0 <= imm < 32
            &&& !(op == ALUOp::Sll || op == ALUOp::Srl || op == ALUOp::Sra) ==> -0x800 <= imm
                <= 0x7ff
        },
{
    let rd = draw(rng, 1, 7) as usize;
    let rs1 = draw(rng, 0, 7) as usize;
    let rs2 = draw(rng, 0, 7) as usize;
    let op = ALUOp::from_index(draw(rng, 0, 9) as u32);
    let with_imm = draw(rng, 0, 1) == 0;
    let shamt = draw(rng, 0, 31);
    let imm = draw(rng, -0x800, 0x7ff);
    Opcode::from_draws(rd, rs1, rs2, op, with_imm, shamt, imm)
}

} // verus!
