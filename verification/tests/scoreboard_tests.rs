use scalar_frontend::Instruction;
use scalar_frontend::RawInstruction;
use scalar_frontend::Scoreboard;

fn add_x5_x1_x2() -> Instruction {
    Instruction::decode(RawInstruction { data: 0x002082B3 })
}

fn add_x6_x5_x3() -> Instruction {
    Instruction::decode(RawInstruction { data: 0x00328333 })
}

#[test]
fn hazard_gate_blocks_readers_and_writers_of_busy_register() {
    let mut sb = Scoreboard::new(4, 4);
    let producer = add_x5_x1_x2();
    let consumer = add_x6_x5_x3();
    assert!(sb.can_issue(&producer));
    sb.mark_issue(&producer);
    // Read-after-write: the consumer reads x5, which is committed busy.
    assert!(!sb.can_issue(&consumer));
    // Write-after-write: another writer of x5 is blocked too.
    assert!(!sb.can_issue(&producer));
    sb.mark_complete(&producer);
    assert!(sb.can_issue(&consumer));
    assert!(sb.can_issue(&producer));
}

#[test]
fn predicted_busy_blocks_dependents_without_issue() {
    let mut sb = Scoreboard::new(4, 4);
    let producer = add_x5_x1_x2();
    let consumer = add_x6_x5_x3();
    sb.predict_issue(&producer);
    // The predicted write to x5 stalls the reader of x5.
    assert!(!sb.can_issue(&consumer));
    // A predicted write does not block an unrelated writer of x5 by WAW:
    // only committed busy does.
    assert!(sb.can_issue(&producer));
    // Issue clears the stale prediction.
    sb.mark_issue(&producer);
    assert!(!sb.pending_busy[5]);
    assert!(sb.reg_busy[5]);
}

#[test]
fn second_source_register_is_checked_too() {
    let mut sb = Scoreboard::new(4, 4);
    let producer = add_x5_x1_x2();
    sb.mark_issue(&producer);
    // add x6, x3, x5: reads x5 through its second source register.
    let consumer = Instruction::decode(RawInstruction { data: 0x00518333 });
    assert_eq!(consumer.rs2, 5);
    assert!(!sb.can_issue(&consumer));
    sb.mark_complete(&producer);
    assert!(sb.can_issue(&consumer));
}

#[test]
fn register_zero_is_never_tracked() {
    let mut sb = Scoreboard::new(4, 4);
    // addi x0, x0, 0 (canonical nop): writes the hard-wired zero register.
    let nop = Instruction::decode(RawInstruction { data: 0x00000013 });
    sb.mark_issue(&nop);
    sb.predict_issue(&nop);
    assert!(!sb.reg_busy[0]);
    assert!(!sb.pending_busy[0]);
    assert!(sb.can_issue(&nop));
}

#[test]
fn unit_allocation_fills_and_frees_slots() {
    let mut sb = Scoreboard::new(2, 1);
    let alu_instr = add_x5_x1_x2();
    assert_eq!(sb.find_free_alu(), Some(0));
    assert!(sb.allocate_unit(&alu_instr));
    assert_eq!(sb.find_free_alu(), Some(1));
    assert!(sb.allocate_unit(&alu_instr));
    assert_eq!(sb.find_free_alu(), None);
    // Both slots busy: the third allocation fails.
    assert!(!sb.allocate_unit(&alu_instr));
    sb.release_unit(&alu_instr);
    assert_eq!(sb.find_free_alu(), Some(0));
}

#[test]
fn load_store_unit_is_single() {
    let mut sb = Scoreboard::new(1, 1);
    // lw x8, 0(x0)
    let load = Instruction::decode(RawInstruction { data: 0x00002403 });
    // sw x7, 0(x0)
    let store = Instruction::decode(RawInstruction { data: 0x00702023 });
    assert!(sb.allocate_unit(&load));
    // Loads and stores share the single load/store path.
    assert!(!sb.allocate_unit(&store));
    sb.release_unit(&load);
    assert!(sb.allocate_unit(&store));
}

#[test]
fn unrecognized_opcode_gets_no_unit() {
    let mut sb = Scoreboard::new(4, 4);
    let unknown = Instruction::decode(RawInstruction { data: 0 });
    assert!(!sb.allocate_unit(&unknown));
}
