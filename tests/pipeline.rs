use ooo_model::isa::{ALUOp, Opcode, Width};
use ooo_model::pipeline::{Core, CoreError, IssueOutcome};
use ooo_model::prim::ArchReg;
use ooo_model::rat::ArchRegValue;
use ooo_model::sched::Operand;
use ooo_model::unit::{AddSubOp, ExecutionUnit, FunctionalUnitOp, LogicalOp};

const INIT: [u32; 8] = [0x00, 0x11, 0x22, 0x33, 0x44, 0x55, 0x66, 0x77];

fn small_core() -> Core {
    Core::new(&INIT, 4, 2)
}

/// The scenarios that read r2 and r3 as 0x11 and 0x22.
fn scenario_core() -> Core {
    let mut init = INIT;
    init[2] = 0x11;
    init[3] = 0x22;
    Core::new(&init, 4, 2)
}

fn op(rd: usize, rs1: usize, rs2: usize, aop: ALUOp) -> Opcode {
    Opcode::Op(ArchReg(rd), ArchReg(rs1), ArchReg(rs2), aop)
}

fn op_imm(rd: usize, rs1: usize, imm: i32, aop: ALUOp) -> Opcode {
    Opcode::OpImm(ArchReg(rd), ArchReg(rs1), imm, aop)
}

/// Offers each instruction until it is admitted, then runs empty cycles
/// until the reorder buffer has drained.
fn run(core: &mut Core, program: &[Opcode]) {
    for inst in program {
        let mut tries = 0;
        loop {
            let r = core.cycle(Some(*inst)).unwrap();
            if let IssueOutcome::Issued { .. } = r {
                break;
            }
            tries += 1;
            assert!(tries < 100, "instruction never issued");
        }
    }
    let mut cycles = 0;
    while !core.rob.is_empty() {
        core.cycle(None).unwrap();
        cycles += 1;
        assert!(cycles < 100, "pipeline never drained");
    }
}

fn reg(core: &Core, r: usize) -> ArchRegValue {
    core.rat.read(ArchReg(r))
}

#[test]
fn simple_rename_and_retire() {
    let mut core = scenario_core();
    let r = core.cycle(Some(op(1, 2, 3, ALUOp::Add))).unwrap();
    assert_eq!(r, IssueOutcome::Issued { rob_slot: 0, station: 0 });
    assert_eq!(reg(&core, 1), ArchRegValue::Name(0));
    assert_eq!(core.rob.get(0).unwrap().pc, 0);

    core.cycle(None).unwrap();
    let held = core.asu.pending_op().unwrap();
    assert_eq!(held.uop, FunctionalUnitOp::AddSub(AddSubOp::Add));
    assert_eq!((held.x, held.y), (0x11, 0x22));
    assert!(core.sched.slots[0].is_none());

    core.cycle(None).unwrap();
    assert_eq!(core.asu.pending_op().unwrap().res, Some(0x33));
    assert_eq!(reg(&core, 1), ArchRegValue::Name(0));

    core.cycle(None).unwrap();
    assert_eq!(reg(&core, 1), ArchRegValue::Valid(0x33));
    assert!(core.rob.is_empty());
    assert!(!core.asu.is_busy());
}

#[test]
fn read_after_write_through_rename() {
    let mut core = scenario_core();
    core.cycle(Some(op(1, 2, 3, ALUOp::Add))).unwrap();
    let r = core.cycle(Some(op(4, 1, 1, ALUOp::Xor))).unwrap();
    assert_eq!(r, IssueOutcome::Issued { rob_slot: 1, station: 0 });
    let waiting = core.sched.slots[0].unwrap();
    assert_eq!(waiting.op1, Operand::Slot(0));
    assert_eq!(waiting.op2, Operand::Slot(0));

    // The add computes; the xor keeps waiting on slot 0.
    core.cycle(None).unwrap();
    assert!(core.sched.slots[0].is_some());
    assert!(!core.lou.is_busy());

    // Slot 0 is written back; both operands resolve to 0x33 and the xor leaves.
    core.cycle(None).unwrap();
    assert!(core.sched.slots[0].is_none());
    let held = core.lou.pending_op().unwrap();
    assert_eq!((held.x, held.y), (0x33, 0x33));

    run(&mut core, &[]);
    assert_eq!(reg(&core, 1), ArchRegValue::Valid(0x33));
    assert_eq!(reg(&core, 4), ArchRegValue::Valid(0));
}

#[test]
fn structural_stall_leaves_state_untouched() {
    let mut core = small_core();
    let mut issued = 0;
    let program = [
        op(1, 2, 3, ALUOp::Add),
        op(2, 3, 4, ALUOp::Xor),
        op(3, 4, 5, ALUOp::Add),
        op(4, 5, 6, ALUOp::Xor),
    ];
    // Issue and dispatch only: no unit ever executes or completes.
    for (n, inst) in program.iter().enumerate() {
        if n == 2 {
            core.dispatch_stage();
        }
        match core.issue_stage(Some(*inst)).unwrap() {
            IssueOutcome::Issued { .. } => issued += 1,
            other => panic!("unexpected stall {:?}", other),
        }
    }
    assert_eq!(issued, 4);
    assert!(core.rob.is_full());
    assert!(core.sched.is_full());
    let rat_before: Vec<ArchRegValue> = (0..8).map(|r| reg(&core, r)).collect();
    let slots_before = core.sched.slots.clone();
    let r = core.issue_stage(Some(op(5, 6, 7, ALUOp::Or))).unwrap();
    assert_eq!(r, IssueOutcome::RobFull);
    let rat_after: Vec<ArchRegValue> = (0..8).map(|r| reg(&core, r)).collect();
    assert_eq!(rat_before, rat_after);
    assert_eq!(reg(&core, 5), ArchRegValue::Valid(0x55));
    assert_eq!(slots_before, core.sched.slots);
    assert_eq!(core.pc, 16);
}

#[test]
fn stations_full_stalls_issue() {
    let mut core = small_core();
    assert!(matches!(
        core.issue_stage(Some(op(1, 2, 3, ALUOp::Add))).unwrap(),
        IssueOutcome::Issued { .. }
    ));
    assert!(matches!(
        core.issue_stage(Some(op(2, 2, 3, ALUOp::Add))).unwrap(),
        IssueOutcome::Issued { .. }
    ));
    let r = core.issue_stage(Some(op(3, 2, 3, ALUOp::Add))).unwrap();
    assert_eq!(r, IssueOutcome::StationsFull);
    assert_eq!(reg(&core, 3), ArchRegValue::Valid(0x33));
    assert!(!core.rob.is_full());
}

#[test]
fn write_after_write_keeps_the_younger_value() {
    let mut core = small_core();
    run(&mut core, &[op(1, 2, 3, ALUOp::Add), op(1, 4, 5, ALUOp::Or)]);
    assert_eq!(reg(&core, 1), ArchRegValue::Valid(0x55));
}

#[test]
fn shift_uses_low_five_bits_of_immediate() {
    let mut init = INIT;
    init[2] = 0x11;
    let mut core = Core::new(&init, 4, 2);
    run(&mut core, &[op_imm(1, 2, 33, ALUOp::Sll)]);
    assert_eq!(reg(&core, 1), ArchRegValue::Valid(0x22));
}

#[test]
fn shift_by_register_uses_low_five_bits() {
    let mut init = INIT;
    init[3] = 33;
    let mut core = Core::new(&init, 4, 2);
    run(&mut core, &[op(1, 2, 3, ALUOp::Sll), op(4, 2, 3, ALUOp::Srl)]);
    assert_eq!(reg(&core, 1), ArchRegValue::Valid(0x44));
    assert_eq!(reg(&core, 4), ArchRegValue::Valid(0x11));
}

#[test]
fn signed_compare_of_minus_one() {
    let mut init = INIT;
    init[2] = 0xFFFF_FFFF;
    init[3] = 1;
    let mut core = Core::new(&init, 4, 2);
    run(&mut core, &[op(1, 2, 3, ALUOp::Slt), op(4, 2, 3, ALUOp::Sltu)]);
    assert_eq!(reg(&core, 1), ArchRegValue::Valid(1));
    assert_eq!(reg(&core, 4), ArchRegValue::Valid(0));
}

#[test]
fn add_zero_to_itself_keeps_value() {
    let mut core = small_core();
    run(&mut core, &[op_imm(6, 6, 0, ALUOp::Add)]);
    assert_eq!(reg(&core, 6), ArchRegValue::Valid(0x66));
}

#[test]
fn xor_with_self_retires_zero() {
    let mut core = small_core();
    run(&mut core, &[op(3, 5, 5, ALUOp::Xor)]);
    assert_eq!(reg(&core, 3), ArchRegValue::Valid(0));
}

#[test]
fn xor_immediate_zero_is_identity() {
    let mut core = small_core();
    run(&mut core, &[op_imm(3, 5, 0, ALUOp::Xor)]);
    assert_eq!(reg(&core, 3), ArchRegValue::Valid(0x55));
}

#[test]
fn sub_self_retires_zero() {
    let mut core = small_core();
    run(&mut core, &[op(2, 7, 7, ALUOp::Sub)]);
    assert_eq!(reg(&core, 2), ArchRegValue::Valid(0));
}

#[test]
fn sub_wraps_around() {
    let mut core = small_core();
    run(&mut core, &[op(2, 1, 3, ALUOp::Sub)]);
    assert_eq!(reg(&core, 2), ArchRegValue::Valid(0xFFFF_FFDE));
}

#[test]
fn sra_negative_by_large_amount_fills_sign() {
    let mut init = INIT;
    init[2] = 0x8000_0000;
    init[3] = 63;
    let mut core = Core::new(&init, 4, 2);
    run(&mut core, &[op(1, 2, 3, ALUOp::Sra)]);
    assert_eq!(reg(&core, 1), ArchRegValue::Valid(0xFFFF_FFFF));
}

#[test]
fn sra_negative_keeps_sign() {
    let mut init = INIT;
    init[2] = 0x8000_0000;
    let mut core = Core::new(&init, 4, 2);
    run(&mut core, &[op_imm(1, 2, 4, ALUOp::Sra), op_imm(4, 2, 4, ALUOp::Srl)]);
    assert_eq!(reg(&core, 1), ArchRegValue::Valid(0xF800_0000));
    assert_eq!(reg(&core, 4), ArchRegValue::Valid(0x0800_0000));
}

#[test]
fn dependent_chain_computes_in_program_order() {
    let mut core = small_core();
    run(
        &mut core,
        &[
            op(1, 1, 1, ALUOp::Add),
            op(1, 1, 2, ALUOp::Add),
            op_imm(1, 1, -1, ALUOp::Add),
            op(5, 1, 1, ALUOp::And),
            op_imm(6, 1, 0x100, ALUOp::Or),
        ],
    );
    assert_eq!(reg(&core, 1), ArchRegValue::Valid(0x43));
    assert_eq!(reg(&core, 5), ArchRegValue::Valid(0x43));
    assert_eq!(reg(&core, 6), ArchRegValue::Valid(0x143));
}

#[test]
fn unsupported_instructions_are_refused() {
    let mut core = small_core();
    assert_eq!(core.cycle(Some(Opcode::Lui(ArchReg(1), 5))), Err(CoreError::UnsupportedInstruction));
    assert_eq!(
        core.cycle(Some(Opcode::Load(ArchReg(1), ArchReg(2), 0, Width::Word))),
        Err(CoreError::UnsupportedInstruction)
    );
    assert_eq!(
        core.cycle(Some(op_imm(1, 2, 3, ALUOp::Sub))),
        Err(CoreError::UnsupportedInstruction)
    );
    assert_eq!(core.cycle(Some(op(8, 2, 3, ALUOp::Add))), Err(CoreError::UnsupportedInstruction));
    assert_eq!(core.cycle(None), Ok(IssueOutcome::NoInstruction));
    assert!(core.rob.is_empty());
}

#[test]
fn busy_unit_keeps_entry_waiting() {
    let mut core = Core::new(&INIT, 8, 4);
    core.issue_stage(Some(op(1, 2, 3, ALUOp::Add))).unwrap();
    core.issue_stage(Some(op(4, 2, 3, ALUOp::Sub))).unwrap();
    core.dispatch_stage();
    // Both are ready; the lower slot wins the add/sub unit, the other waits.
    assert_eq!(core.asu.pending_op().unwrap().rob_idx, 0);
    let waiting = core.sched.slots[1].unwrap();
    assert_eq!(waiting.rob_idx, 1);
    assert_eq!(waiting.stalled, 1);
    assert!(core.sched.slots[0].is_none());
    run(&mut core, &[]);
    assert_eq!(reg(&core, 1), ArchRegValue::Valid(0x55));
    assert_eq!(reg(&core, 4), ArchRegValue::Valid(0xFFFF_FFEF));
}

#[test]
fn units_of_different_kinds_dispatch_together() {
    let mut core = Core::new(&INIT, 8, 4);
    core.issue_stage(Some(op(1, 2, 3, ALUOp::Add))).unwrap();
    core.issue_stage(Some(op(4, 2, 3, ALUOp::Or))).unwrap();
    core.issue_stage(Some(op(5, 2, 3, ALUOp::Sltu))).unwrap();
    core.dispatch_stage();
    assert!(core.asu.is_busy());
    assert!(core.lou.is_busy());
    assert!(core.cru.is_busy());
    assert_eq!(core.sched.free_slots(), 4);
    assert_eq!(core.lou.pending_op().unwrap().uop, FunctionalUnitOp::Logical(LogicalOp::Or));
}

#[test]
fn nothing_waits_for_a_completed_slot() {
    let mut core = small_core();
    core.cycle(Some(op(1, 2, 3, ALUOp::Add))).unwrap();
    core.cycle(Some(op(2, 1, 3, ALUOp::Add))).unwrap();
    for _ in 0..8 {
        core.cycle(None).unwrap();
        for s in core.sched.slots.iter().flatten() {
            let cell = core.rob.get(s.rob_idx).unwrap();
            assert!(!cell.is_complete());
        }
    }
    assert_eq!(reg(&core, 2), ArchRegValue::Valid(0x88));
}
