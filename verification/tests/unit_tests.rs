use scalar_frontend::AluUnit;
use scalar_frontend::BruUnit;
use scalar_frontend::Instruction;
use scalar_frontend::LsuUnit;
use scalar_frontend::RawInstruction;

fn add_x5() -> Instruction {
    // add x5, x1, x2
    Instruction::decode(RawInstruction { data: 0x002082B3 })
}

#[test]
fn alu_two_cycle_occupancy() {
    let mut alu = AluUnit::new();
    assert!(!alu.busy);
    alu.issue(add_x5());
    assert!(alu.busy);
    // Nothing on the first tick.
    assert!(alu.tick().is_none());
    // The issued instruction's destination on the second tick.
    let done = alu.tick().expect("the unit must complete on the second tick");
    assert_eq!(done.rd, 5);
    // After completion the unit reports free.
    assert!(!alu.busy);
    assert!(alu.current.is_none());
}

#[test]
fn bru_two_cycle_occupancy() {
    let mut bru = BruUnit::new();
    // beq x1, x2, +2048
    let b = Instruction::decode(RawInstruction { data: 0x002080E3 });
    bru.issue(b);
    assert!(bru.tick().is_none());
    let done = bru.tick().expect("the unit must complete on the second tick");
    assert_eq!(done.rs1, 1);
    assert_eq!(done.rs2, 2);
    assert!(!bru.busy);
}

#[test]
fn lsu_two_cycle_occupancy() {
    let mut lsu = LsuUnit::new();
    // lw x8, 0(x0)
    let l = Instruction::decode(RawInstruction { data: 0x00002403 });
    lsu.issue(l);
    assert!(lsu.tick().is_none());
    let done = lsu.tick().expect("the unit must complete on the second tick");
    assert_eq!(done.rd, 8);
    assert!(!lsu.busy);
}

#[test]
fn idle_unit_ticks_do_nothing() {
    let mut alu = AluUnit::new();
    assert!(alu.tick().is_none());
    assert!(alu.tick().is_none());
    assert!(!alu.busy);
}
