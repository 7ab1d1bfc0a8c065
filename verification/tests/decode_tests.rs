use scalar_frontend::Instruction;
use scalar_frontend::InstructionType;
use scalar_frontend::RawInstruction;
use scalar_frontend::UnitKind;
use scalar_frontend::instruction::sign_extend;
use scalar_frontend::instruction::unit_kind;

fn decode(word: u32) -> Instruction {
    Instruction::decode(RawInstruction { data: word })
}

#[test]
fn round_trip_register_register() {
    let i = decode(0x002082B3);
    assert_eq!(i.typ, InstructionType::R);
    assert_eq!(i.rd, 5);
    assert_eq!(i.rs1, 1);
    assert_eq!(i.rs2, 2);
    assert_eq!(i.opcode, 0b0110011);
    assert_eq!(i.funct3, 0);
    assert_eq!(i.funct7, 0);
    assert_eq!(i.imm, 0);
    assert_eq!(i.mnemonic(), "add");
}

#[test]
fn branch_imm_sign_extension() {
    // Branch with imm bit 11 (word bit 7) set and the top scattered bit
    // (word bit 31) set: negative immediate.
    let neg = decode(0x800000E3);
    assert_eq!(neg.typ, InstructionType::B);
    assert!(neg.imm < 0);
    assert_eq!(neg.imm, -4096 + 2048);
    // Same shape with the top bit clear: the non-negative magnitude.
    let pos = decode(0x000000E3);
    assert_eq!(pos.typ, InstructionType::B);
    assert!(pos.imm >= 0);
    assert_eq!(pos.imm, 2048);
}

#[test]
fn sign_extend_widths() {
    assert_eq!(sign_extend(0xFFF, 12), -1);
    assert_eq!(sign_extend(0x7FF, 12), 2047);
    assert_eq!(sign_extend(0x800, 12), -2048);
    assert_eq!(sign_extend(0, 12), 0);
    assert_eq!(sign_extend(0x1000, 13), -8192 + 4096);
    assert_eq!(sign_extend(0x100000, 21), -1048576);
}

#[test]
fn decode_register_immediate() {
    // addi x1, x0, 1
    let i = decode(0x00100093);
    assert_eq!(i.typ, InstructionType::I);
    assert_eq!(i.rd, 1);
    assert_eq!(i.rs1, 0);
    assert_eq!(i.imm, 1);
    assert_eq!(i.mnemonic(), "addi");
}

#[test]
fn decode_load_negative_immediate() {
    // lw x2, -4(x1)
    let i = decode(0xFFC0A103);
    assert_eq!(i.typ, InstructionType::I);
    assert_eq!(i.rd, 2);
    assert_eq!(i.rs1, 1);
    assert_eq!(i.imm, -4);
    assert_eq!(i.mnemonic(), "lw");
}

#[test]
fn decode_store() {
    // sw x7, 0(x0)
    let i = decode(0x00702023);
    assert_eq!(i.typ, InstructionType::S);
    assert_eq!(i.rs2, 7);
    assert_eq!(i.rs1, 0);
    assert_eq!(i.imm, 0);
    assert_eq!(i.mnemonic(), "sw");
}

#[test]
fn decode_upper_immediate() {
    // lui x1, 0x12345
    let i = decode(0x123450B7);
    assert_eq!(i.typ, InstructionType::U);
    assert_eq!(i.rd, 1);
    assert_eq!(i.imm, 0x12345000);
    assert_eq!(i.mnemonic(), "lui");
    // The top upper-immediate bit set makes the immediate negative.
    let n = decode(0x800000B7);
    assert_eq!(n.typ, InstructionType::U);
    assert_eq!(n.imm, i32::MIN);
}

#[test]
fn decode_jump() {
    // jal x1 with only the top scattered immediate bit set.
    let i = decode(0x800000EF);
    assert_eq!(i.typ, InstructionType::J);
    assert_eq!(i.rd, 1);
    assert_eq!(i.imm, -1048576);
    assert_eq!(i.mnemonic(), "jal");
}

#[test]
fn decode_unrecognized_is_total() {
    let i = decode(0x00000000);
    assert_eq!(i.typ, InstructionType::Unknown);
    assert_eq!(i.imm, 0);
    assert_eq!(i.mnemonic(), "unknown");
    // jalr is not in the decoder's format table.
    let j = decode(0x00008067);
    assert_eq!(j.typ, InstructionType::Unknown);
    assert_eq!(j.imm, 0);
}

#[test]
fn canonical_nop() {
    let i = decode(0x00000013);
    assert!(i.is_nop());
    assert_eq!(i.mnemonic(), "addi");
    let not_nop = decode(0x00100093);
    assert!(!not_nop.is_nop());
}

#[test]
fn unit_kind_by_opcode() {
    assert_eq!(unit_kind(0b0110011), UnitKind::Alu);
    assert_eq!(unit_kind(0b0010011), UnitKind::Alu);
    assert_eq!(unit_kind(0b0110111), UnitKind::Alu);
    assert_eq!(unit_kind(0b0010111), UnitKind::Alu);
    assert_eq!(unit_kind(0b1100011), UnitKind::Branch);
    assert_eq!(unit_kind(0b1101111), UnitKind::Branch);
    assert_eq!(unit_kind(0b0000011), UnitKind::LoadStore);
    assert_eq!(unit_kind(0b0100011), UnitKind::LoadStore);
    assert_eq!(unit_kind(0b1100111), UnitKind::Unrecognized);
}
