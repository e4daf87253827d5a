use ooo_model::isa::{ALUOp, Opcode, OperandList, Width};
use ooo_model::prim::{ArchReg, RingBuffer};
use ooo_model::rat::{ArchRegValue, RegisterAliasTable};
use ooo_model::rob::{InFlightOp, ROBError, ReorderBuffer, StorageLoc};
use ooo_model::sched::{dispatch, DispatchedOp, Operand, ReservationEntry, Scheduler, UnitBusy};
use ooo_model::unit::{
    AddSubOp, AddSubUnit, CompareOp, ComparatorUnit, ExecutionUnit, FunctionalUnitOp, LogicalOp,
    LogicalOpUnit, UnitClass,
};
use ooo_model::util::{self, RingBufferResult};

fn entry(pc: u32, r: usize) -> InFlightOp {
    InFlightOp::new(pc, StorageLoc::Reg(ArchReg(r)))
}

fn dispatched(uop: FunctionalUnitOp, x: u32, y: u32) -> DispatchedOp {
    DispatchedOp { uop, dst: StorageLoc::Reg(ArchReg(1)), res: None, rob_idx: 0, x, y }
}

fn execute_on<U: ExecutionUnit>(uop: FunctionalUnitOp, x: u32, y: u32) -> u32 {
    let mut u = U::new();
    u.prepare(&dispatched(uop, x, y));
    u.execute();
    u.complete().unwrap().res.unwrap()
}

fn logical(op: LogicalOp, x: u32, y: u32) -> u32 {
    execute_on::<LogicalOpUnit>(FunctionalUnitOp::Logical(op), x, y)
}

#[test]
fn ring_buffer_push_pop_in_order() {
    let mut rb: RingBuffer<u32> = RingBuffer::new(3);
    assert!(rb.is_empty());
    assert_eq!(rb.push(10), Some(0));
    assert_eq!(rb.push(11), Some(1));
    assert_eq!(rb.push(12), Some(2));
    assert!(rb.is_full());
    assert_eq!(rb.push(13), None);
    assert_eq!(rb.pop(), Some((10, 0)));
    assert_eq!(rb.push(13), Some(0));
    assert_eq!(*rb.get(0), Some(13));
    assert_eq!(rb.pop(), Some((11, 1)));
    assert_eq!(rb.pop(), Some((12, 2)));
    assert_eq!(rb.pop(), Some((13, 0)));
    assert_eq!(rb.pop(), None);
    assert!(rb.is_empty());
}

#[test]
fn ring_buffer_last_index_is_reachable() {
    let mut rb: RingBuffer<u32> = RingBuffer::new(2);
    rb.push(1);
    rb.push(2);
    assert_eq!(*rb.get(1), Some(2));
    *rb.get_mut(1) = Some(5);
    assert_eq!(rb.pop(), Some((1, 0)));
    assert_eq!(rb.pop(), Some((5, 1)));
}

#[test]
fn result_ring_buffer_reports_outcomes() {
    let mut rb: util::RingBuffer<u8> = util::RingBuffer::new(1);
    assert!(matches!(rb.pop(), RingBufferResult::Empty));
    assert!(matches!(rb.push(7), RingBufferResult::Pushed(0)));
    assert!(matches!(rb.push(8), RingBufferResult::Full));
    assert!(matches!(rb.pop(), RingBufferResult::Popped(7, 0)));
    assert!(matches!(rb.pop(), RingBufferResult::Empty));
}

#[test]
fn rob_retires_in_allocation_order() {
    let mut rob = ReorderBuffer::new(4);
    assert_eq!(rob.push(entry(0, 1)), Ok(0));
    assert_eq!(rob.push(entry(4, 2)), Ok(1));
    assert_eq!(rob.push(entry(8, 3)), Ok(2));
    assert_eq!(rob.writeback(2, 30), Ok(()));
    assert_eq!(rob.writeback(1, 20), Ok(()));
    assert_eq!(rob.pop(), Err(ROBError::Incomplete));
    assert_eq!(rob.writeback(0, 10), Ok(()));
    let order: Vec<u32> = (0..3).map(|_| rob.retire().unwrap().pc).collect();
    assert_eq!(order, vec![0, 4, 8]);
    assert_eq!(rob.retire(), None);
    assert_eq!(rob.pop(), Err(ROBError::Empty));
}

#[test]
fn rob_full_and_empty_errors() {
    let mut rob = ReorderBuffer::new(2);
    assert!(rob.is_empty());
    rob.push(entry(0, 1)).unwrap();
    rob.push(entry(4, 1)).unwrap();
    assert!(rob.is_full());
    assert_eq!(rob.push(entry(8, 1)), Err(ROBError::Full));
    assert_eq!(rob.writeback(5, 1), Err(ROBError::Empty));
    let mut empty = ReorderBuffer::new(2);
    assert_eq!(empty.writeback(0, 1), Err(ROBError::Empty));
}

#[test]
fn rob_entry_is_complete_exactly_when_result_written() {
    let mut rob = ReorderBuffer::new(4);
    rob.push(entry(0, 1)).unwrap();
    assert!(!rob.get(0).unwrap().is_complete());
    assert_eq!(rob.get(0).unwrap().result, None);
    let mut op = dispatched(FunctionalUnitOp::AddSub(AddSubOp::Add), 1, 2);
    assert_eq!(rob.complete(op), Err(ROBError::Incomplete));
    op.res = Some(3);
    assert_eq!(rob.complete(op), Ok(()));
    assert!(rob.get(0).unwrap().is_complete());
    assert_eq!(rob.get(0).unwrap().result, Some(3));
    *rob.get_mut(0) = Some(InFlightOp { result: Some(4), ..entry(0, 1) });
    assert_eq!(rob.retire().unwrap().result, Some(4));
}

#[test]
fn rat_commit_only_when_rename_still_owned() {
    let init = [ArchRegValue::Valid(1), ArchRegValue::Valid(2)];
    let mut rat = RegisterAliasTable::new(2, Some(&init));
    rat.write_rename(ArchReg(1), 0);
    rat.write_rename(ArchReg(1), 1);
    rat.commit(ArchReg(1), 0, 99);
    assert_eq!(rat.read(ArchReg(1)), ArchRegValue::Name(1));
    rat.commit(ArchReg(1), 1, 42);
    assert_eq!(rat.read(ArchReg(1)), ArchRegValue::Valid(42));
    let zeros = RegisterAliasTable::new(3, None);
    assert_eq!(zeros.read(ArchReg(2)), ArchRegValue::Valid(0));
    assert_eq!(zeros.size(), 3);
}

#[test]
fn rat_resolve_consults_the_rob() {
    let mut rat = RegisterAliasTable::new(2, None);
    let mut rob = ReorderBuffer::new(4);
    let slot = rob.push(entry(0, 1)).unwrap();
    rat.write_rename(ArchReg(1), slot);
    assert_eq!(rat.resolve(ArchReg(0), &rob), Some(0));
    assert_eq!(rat.resolve(ArchReg(1), &rob), None);
    rob.writeback(slot, 7).unwrap();
    assert_eq!(rat.resolve(ArchReg(1), &rob), Some(7));
    rat.write_rename(ArchReg(0), 3);
    assert_eq!(rat.resolve(ArchReg(0), &rob), None);
    rat.write_rename(ArchReg(0), 9);
    assert_eq!(rat.resolve(ArchReg(0), &rob), None);
}

#[test]
fn operands_resolve() {
    let rat = RegisterAliasTable::new(2, Some(&[ArchRegValue::Valid(5), ArchRegValue::Valid(6)]));
    let mut rob = ReorderBuffer::new(2);
    rob.push(entry(0, 0)).unwrap();
    assert_eq!(Operand::Imm(-1).resolve(&rat, &rob), Some(0xFFFF_FFFF));
    assert_eq!(Operand::Reg(ArchReg(1)).resolve(&rat, &rob), Some(6));
    assert_eq!(Operand::Value(9).resolve(&rat, &rob), Some(9));
    assert_eq!(Operand::Slot(0).resolve(&rat, &rob), None);
    rob.writeback(0, 12).unwrap();
    assert_eq!(Operand::Slot(0).resolve(&rat, &rob), Some(12));
}

fn reservation(uop: FunctionalUnitOp, rob_idx: usize, op1: Operand, op2: Operand) -> ReservationEntry {
    ReservationEntry { uop, dst: StorageLoc::Reg(ArchReg(0)), rob_idx, op1, op2, stalled: 0 }
}

#[test]
fn scheduler_reserves_lowest_free_slot() {
    let mut sch = Scheduler::new();
    assert_eq!(sch.free_slots(), 4);
    let e = reservation(FunctionalUnitOp::AddSub(AddSubOp::Add), 0, Operand::Imm(1), Operand::Imm(2));
    assert_eq!(sch.reserve(e), Ok(0));
    assert_eq!(sch.reserve(e), Ok(1));
    sch.slots[0] = None;
    assert_eq!(sch.reserve(e), Ok(0));
    assert_eq!(sch.reserve(e), Ok(2));
    assert_eq!(sch.reserve(e), Ok(3));
    assert!(sch.is_full());
    assert_eq!(sch.reserve(e), Err(()));
    assert_eq!(sch.free_slots(), 0);
}

const IDLE: UnitBusy = UnitBusy { add_sub: false, logical: false, compare: false };

#[test]
fn dispatch_sends_first_ready_entry_per_free_unit() {
    let rat = RegisterAliasTable::new(2, None);
    let mut rob = ReorderBuffer::new(4);
    rob.push(entry(0, 0)).unwrap();
    let add = FunctionalUnitOp::AddSub(AddSubOp::Add);
    let or = FunctionalUnitOp::Logical(LogicalOp::Or);
    let mut sch = Scheduler::with_slots(4);
    sch.reserve(reservation(add, 1, Operand::Slot(0), Operand::Imm(1))).unwrap();
    sch.reserve(reservation(add, 2, Operand::Imm(3), Operand::Reg(ArchReg(1)))).unwrap();
    sch.reserve(reservation(add, 3, Operand::Value(4), Operand::Imm(-2))).unwrap();
    sch.reserve(reservation(or, 4, Operand::Value(4), Operand::Imm(1))).unwrap();
    let out = dispatch(&mut sch, &rat, &rob, IDLE);
    assert_eq!(out.len(), 2);
    assert_eq!((out[0].rob_idx, out[0].x, out[0].y), (2, 3, 0));
    assert_eq!((out[1].rob_idx, out[1].x, out[1].y), (4, 4, 1));
    // Not ready: kept and aged.
    assert_eq!(sch.slots[0].unwrap().stalled, 1);
    assert!(sch.slots[1].is_none());
    // Ready, but the add/sub unit went to slot 1: kept and aged.
    assert_eq!(sch.slots[2].unwrap().rob_idx, 3);
    assert_eq!(sch.slots[2].unwrap().stalled, 1);
    assert!(sch.slots[3].is_none());
}

#[test]
fn dispatch_keeps_entries_for_busy_units() {
    let rat = RegisterAliasTable::new(1, None);
    let rob = ReorderBuffer::new(2);
    let add = FunctionalUnitOp::AddSub(AddSubOp::Sub);
    let mut sch = Scheduler::with_slots(2);
    sch.reserve(reservation(add, 0, Operand::Imm(5), Operand::Imm(2))).unwrap();
    let busy = UnitBusy { add_sub: true, ..IDLE };
    let out = dispatch(&mut sch, &rat, &rob, busy);
    assert!(out.is_empty());
    assert_eq!(sch.slots[0].unwrap().stalled, 1);
    let out = sch.dispatch(&rat, &rob, IDLE);
    assert_eq!((out[0].x, out[0].y), (5, 2));
    assert!(sch.slots[0].is_none());
}

#[test]
fn scheduler_dispatch_ages_waiting_entries() {
    let rat = RegisterAliasTable::new(1, None);
    let mut rob = ReorderBuffer::new(2);
    rob.push(entry(0, 0)).unwrap();
    let xor = FunctionalUnitOp::Logical(LogicalOp::Xor);
    let mut sch = Scheduler::with_slots(2);
    sch.reserve(reservation(xor, 1, Operand::Slot(0), Operand::Slot(0))).unwrap();
    sch.reserve(reservation(xor, 2, Operand::Imm(6), Operand::Imm(3))).unwrap();
    let out = sch.dispatch(&rat, &rob, IDLE);
    assert_eq!(out.len(), 1);
    assert_eq!(out[0].rob_idx, 2);
    assert_eq!(sch.slots[0].unwrap().stalled, 1);
    sch.forward(0, 0x33);
    assert_eq!(sch.slots[0].unwrap().op1, Operand::Value(0x33));
    let out = sch.dispatch(&rat, &rob, IDLE);
    assert_eq!((out[0].x, out[0].y), (0x33, 0x33));
    assert_eq!(sch.free_slots(), 2);
}

#[test]
fn rob_pushes_take_consecutive_slots() {
    let mut rob = ReorderBuffer::new(4);
    for (n, pc) in [0u32, 4, 8, 12].iter().enumerate() {
        assert_eq!(rob.push(entry(*pc, 1)), Ok(n));
    }
    assert_eq!(*rob.get(3), Some(entry(12, 1)));
    assert_eq!(rob.push(entry(16, 1)), Err(ROBError::Full));
    assert!(rob.is_full());
    assert_eq!(rob.head_slot(), 0);
    rob.writeback(0, 1).unwrap();
    rob.retire().unwrap();
    assert_eq!(rob.head_slot(), 1);
    assert_eq!(rob.push(entry(16, 1)), Ok(0));
    assert_eq!(rob.tail_slot(), 1);
}

#[test]
fn take_ready_picks_lowest_slot_of_the_class() {
    let rat = RegisterAliasTable::new(1, None);
    let rob = ReorderBuffer::new(2);
    let mut sch = Scheduler::with_slots(3);
    let or = FunctionalUnitOp::Logical(LogicalOp::Or);
    let slt = FunctionalUnitOp::Compare(CompareOp::LtSigned);
    sch.reserve(reservation(slt, 0, Operand::Imm(1), Operand::Imm(2))).unwrap();
    sch.reserve(reservation(or, 1, Operand::Imm(1), Operand::Imm(2))).unwrap();
    sch.reserve(reservation(or, 2, Operand::Imm(1), Operand::Imm(2))).unwrap();
    let (idx, op) = sch.take_ready(UnitClass::Logical, &rat, &rob).unwrap();
    assert_eq!((idx, op.rob_idx), (1, 1));
    assert!(sch.take_ready(UnitClass::AddSub, &rat, &rob).is_none());
    sch.age_waiting();
    assert_eq!(sch.slots[2].unwrap().stalled, 1);
}

#[test]
fn add_sub_unit_semantics() {
    let add = FunctionalUnitOp::AddSub(AddSubOp::Add);
    let sub = FunctionalUnitOp::AddSub(AddSubOp::Sub);
    assert_eq!(execute_on::<AddSubUnit>(add, 0x11, 0x22), 0x33);
    assert_eq!(execute_on::<AddSubUnit>(add, 0xFFFF_FFFF, 2), 1);
    assert_eq!(execute_on::<AddSubUnit>(sub, 1, 2), 0xFFFF_FFFF);
    assert_eq!(execute_on::<AddSubUnit>(sub, 0x1234, 0x1234), 0);
}

#[test]
fn logical_unit_semantics() {
    assert_eq!(logical(LogicalOp::And, 0b1100, 0b1010), 0b1000);
    assert_eq!(logical(LogicalOp::Or, 0b1100, 0b1010), 0b1110);
    assert_eq!(logical(LogicalOp::Xor, 0b1100, 0b1010), 0b0110);
    assert_eq!(logical(LogicalOp::Xor, 0xDEAD_BEEF, 0xDEAD_BEEF), 0);
    assert_eq!(logical(LogicalOp::Sll, 0x11, 33), 0x22);
    assert_eq!(logical(LogicalOp::Sll, 1, 31), 0x8000_0000);
    assert_eq!(logical(LogicalOp::Sll, 1, 32), 1);
    assert_eq!(logical(LogicalOp::Srl, 0x8000_0000, 31), 1);
    assert_eq!(logical(LogicalOp::Srl, 0x8000_0000, 32), 0x8000_0000);
    assert_eq!(logical(LogicalOp::Sra, 0x8000_0000, 31), 0xFFFF_FFFF);
    assert_eq!(logical(LogicalOp::Sra, 0x8000_0000, 63), 0xFFFF_FFFF);
    assert_eq!(logical(LogicalOp::Sra, 0x8000_0000, 32), 0x8000_0000);
    assert_eq!(logical(LogicalOp::Sra, 0x7FFF_FFFF, 31), 0);
}

#[test]
fn comparator_unit_semantics() {
    let lt = FunctionalUnitOp::Compare(CompareOp::LtSigned);
    let ltu = FunctionalUnitOp::Compare(CompareOp::LtUnsigned);
    assert_eq!(execute_on::<ComparatorUnit>(lt, 0xFFFF_FFFF, 1), 1);
    assert_eq!(execute_on::<ComparatorUnit>(lt, 1, 0xFFFF_FFFF), 0);
    assert_eq!(execute_on::<ComparatorUnit>(lt, 3, 3), 0);
    assert_eq!(execute_on::<ComparatorUnit>(ltu, 0xFFFF_FFFF, 1), 0);
    assert_eq!(execute_on::<ComparatorUnit>(ltu, 1, 2), 1);
}

#[test]
fn unit_busy_between_prepare_and_complete() {
    let mut u = AddSubUnit::new();
    assert!(!u.is_busy());
    assert_eq!(u.complete(), None);
    u.prepare(&dispatched(FunctionalUnitOp::AddSub(AddSubOp::Add), 2, 3));
    assert!(u.is_busy());
    assert_eq!(u.complete(), None);
    assert!(u.is_busy());
    u.execute();
    assert!(u.is_busy());
    let done = u.complete().unwrap();
    assert_eq!(done.res, Some(5));
    assert!(!u.is_busy());
    u.execute();
    assert_eq!(u.pending_op(), None);
}

#[test]
fn alu_ops_map_to_units() {
    assert_eq!(ALUOp::Add.to_uop(), FunctionalUnitOp::AddSub(AddSubOp::Add));
    assert_eq!(ALUOp::Sub.to_uop(), FunctionalUnitOp::AddSub(AddSubOp::Sub));
    assert_eq!(ALUOp::Slt.to_uop(), FunctionalUnitOp::Compare(CompareOp::LtSigned));
    assert_eq!(ALUOp::Sltu.to_uop(), FunctionalUnitOp::Compare(CompareOp::LtUnsigned));
    assert_eq!(ALUOp::Sra.to_uop(), FunctionalUnitOp::Logical(LogicalOp::Sra));
    assert_eq!(ALUOp::Sra.to_uop().class(), UnitClass::Logical);
    assert_eq!(ALUOp::from_index(0), ALUOp::Add);
    assert_eq!(ALUOp::from_index(7), ALUOp::Sra);
    assert_eq!(ALUOp::from_index(42), ALUOp::And);
    assert_eq!(Width::from_index(1), Width::Half);
    assert_eq!(Width::from_index(9), Width::Word);
}

#[test]
fn opcode_operands_and_kinds() {
    let r = |n| ArchReg(n);
    assert_eq!(
        Opcode::Op(r(1), r(2), r(3), ALUOp::Add).reg_operands(),
        OperandList { rs1: Some(r(2)), rs2: Some(r(3)) }
    );
    assert_eq!(
        Opcode::OpImm(r(1), r(2), 5, ALUOp::Add).reg_operands(),
        OperandList { rs1: Some(r(2)), rs2: None }
    );
    assert_eq!(Opcode::Lui(r(1), 5).reg_operands(), OperandList { rs1: None, rs2: None });
    assert_eq!(
        Opcode::Store(r(4), r(5), 0, Width::Byte).reg_operands(),
        OperandList { rs1: Some(r(4)), rs2: Some(r(5)) }
    );
    assert!(Opcode::Store(r(4), r(5), 0, Width::Byte).is_store());
    assert!(!Opcode::Load(r(4), r(5), 0, Width::Byte).is_store());
}

#[test]
fn opcodes_from_draws() {
    let r = |n| ArchReg(n);
    assert_eq!(
        Opcode::from_draws(1, 2, 3, ALUOp::Slt, false, 4, -5),
        Opcode::Op(r(1), r(2), r(3), ALUOp::Slt)
    );
    assert_eq!(
        Opcode::from_draws(1, 2, 3, ALUOp::Sub, true, 4, -5),
        Opcode::OpImm(r(1), r(2), -5, ALUOp::Add)
    );
    assert_eq!(
        Opcode::from_draws(1, 2, 3, ALUOp::Srl, true, 4, -5),
        Opcode::OpImm(r(1), r(2), 4, ALUOp::Srl)
    );
}
