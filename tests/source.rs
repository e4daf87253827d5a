use ooo_model::isa::{random_opcode, ALUOp, Opcode};
use ooo_model::pipeline::{Core, IssueOutcome};
use rand::rngs::StdRng;
use rand::SeedableRng;

fn is_shift(op: ALUOp) -> bool {
    matches!(op, ALUOp::Sll | ALUOp::Srl | ALUOp::Sra)
}

#[test]
fn random_opcodes_stay_in_range() {
    let mut rng = StdRng::seed_from_u64(7);
    let mut forms = (0, 0);
    let mut dests = [false; 8];
    for _ in 0..500 {
        match random_opcode(&mut rng) {
            Opcode::Op(rd, rs1, rs2, op) => {
                forms.0 += 1;
                assert!((1..=7).contains(&rd.0) && rs1.0 <= 7 && rs2.0 <= 7);
                dests[rd.0] = true;
            }
            Opcode::OpImm(rd, rs1, imm, op) => {
                forms.1 += 1;
                assert!((1..=7).contains(&rd.0) && rs1.0 <= 7);
                assert_ne!(op, ALUOp::Sub);
                if is_shift(op) {
                    assert!((0..32).contains(&imm));
                } else {
                    assert!((-2048..=2047).contains(&imm));
                }
                dests[rd.0] = true;
            }
            other => panic!("unexpected instruction {:?}", other),
        }
    }
    assert!(forms.0 > 0 && forms.1 > 0);
    assert!(dests[1..].iter().all(|d| *d));
}

#[test]
fn random_program_runs_without_error() {
    let init = [0, 0x11111111, 0x22222222, 0x33333333, 0x44444444, 0x55555555, 0x66666666, 0x77777777];
    let mut core = Core::new(&init, 16, 4);
    let mut rng = StdRng::seed_from_u64(42);
    let mut pending = None;
    let mut issued = 0;
    for _ in 0..200 {
        let inst = pending.unwrap_or_else(|| random_opcode(&mut rng));
        match core.cycle(Some(inst)).unwrap() {
            IssueOutcome::Issued { .. } => {
                issued += 1;
                pending = None;
            }
            _ => pending = Some(inst),
        }
    }
    assert!(issued > 20);
    for _ in 0..100 {
        core.cycle(None).unwrap();
    }
    assert!(core.rob.is_empty());
}
