//! Instruction word formats: the raw 32-bit word, the decoded instruction
//! record, bit-level field extraction, immediate assembly with
//! sign-extension, and the bounded buffer of raw words between fetch and
//! decode.

use vstd::prelude::*;
use vstd::arithmetic::power2::pow2;
use vstd::arithmetic::power2::lemma2_to64;
use vstd::arithmetic::power2::lemma_pow2_strictly_increases;
use vstd::bits::lemma_u32_shl_is_mul;
use vstd::bits::lemma_u32_pow2_no_overflow;
use vstd::math::min;

verus! {

/// A raw RISC-V instruction: an opaque 32-bit word.
#[derive(Copy, Clone, PartialEq, Eq, Structural, Debug)]
pub struct RawInstruction {
    pub data: u32,
}

/// The format class of a decoded RISC-V instruction.
#[derive(Copy, Clone, PartialEq, Eq, Structural, Debug)]
pub enum InstructionType {
    R,
    I,
    S,
    B,
    U,
    J,
    Unknown,
}

/// A decoded RISC-V instruction.
#[derive(Copy, Clone, PartialEq, Eq, Structural, Debug)]
pub struct Instruction {
    pub opcode: u8,
    pub rd: u8,
    pub rs1: u8,
    pub rs2: u8,
    pub funct3: u8,
    pub funct7: u8,
    pub imm: i32,
    pub typ: InstructionType,
}

/// Sign extension of a `bits`-wide bit pattern, stated arithmetically: a
/// pattern with its top bit set denotes the negative value obtained by
/// subtracting `2^bits`.
pub open spec fn spec_sign_extend(value: int, bits: nat) -> int
    recommends
        bits >= 1,
        0 <= value < pow2(bits),
{
    if value >= pow2((bits - 1) as nat) {
        value - pow2(bits)
    } else {
        value
    }
}

/// Sign-extend the given `bits`-wide bit pattern to a 32-bit signed value.
pub fn sign_extend(value: i32, bits: u8) -> (r: i32)
    requires
        1 <= bits <= 31,
        0 <= value < pow2(bits as nat),
    ensures
        r as int == spec_sign_extend(value as int, bits as nat),
{
    proof {
        lemma_u32_pow2_no_overflow((bits - 1) as nat);
        lemma_u32_pow2_no_overflow(bits as nat);
        lemma_u32_shl_is_mul(1u32, (bits - 1) as u32);
        lemma_u32_shl_is_mul(1u32, bits as u32);
        lemma2_to64();
        if (bits as nat) < 31 {
            lemma_pow2_strictly_increases(bits as nat, 31);
        }
    }
    let half: u32 = 1u32 << ((bits - 1) as u32);
    let full: u32 = 1u32 << (bits as u32);
    if (value as u32) >= half {
        ((value as i64) - (full as i64)) as i32
    } else {
        value
    }
}

/// Opcode class of register-register arithmetic instructions.
pub const OPCODE_OP: u8 = 0x33;

/// Opcode class of register-immediate arithmetic instructions.
pub const OPCODE_OP_IMM: u8 = 0x13;

/// Opcode class of load instructions.
pub const OPCODE_LOAD: u8 = 0x03;

/// Opcode class of store instructions.
pub const OPCODE_STORE: u8 = 0x23;

/// Opcode class of conditional branch instructions.
pub const OPCODE_BRANCH: u8 = 0x63;

/// Opcode class of the load-upper-immediate instruction.
pub const OPCODE_LUI: u8 = 0x37;

/// Opcode class of the add-upper-immediate-to-pc instruction.
pub const OPCODE_AUIPC: u8 = 0x17;

/// Opcode class of the jump-and-link instruction.
pub const OPCODE_JAL: u8 = 0x6f;

/// Low 7 bits of the word: the opcode class.
pub open spec fn spec_opcode(d: u32) -> u8 {
    (d & 0x7f) as u8
}

/// Bits 7..=11 of the word: the destination register index.
pub open spec fn spec_rd(d: u32) -> u8 {
    ((d >> 7) & 0x1f) as u8
}

/// Bits 12..=14 of the word: the minor sub-opcode discriminator.
pub open spec fn spec_funct3(d: u32) -> u8 {
    ((d >> 12) & 0x07) as u8
}

/// Bits 15..=19 of the word: the first source register index.
pub open spec fn spec_rs1(d: u32) -> u8 {
    ((d >> 15) & 0x1f) as u8
}

/// Bits 20..=24 of the word: the second source register index.
pub open spec fn spec_rs2(d: u32) -> u8 {
    ((d >> 20) & 0x1f) as u8
}

/// Bits 25..=31 of the word: the major sub-opcode discriminator.
pub open spec fn spec_funct7(d: u32) -> u8 {
    ((d >> 25) & 0x7f) as u8
}

/// Format class selected by the opcode; total, so every word decodes.
pub open spec fn spec_instruction_type(opcode: u8) -> InstructionType {
    if opcode == OPCODE_OP {
        InstructionType::R
    } else if opcode == OPCODE_OP_IMM || opcode == OPCODE_LOAD {
        InstructionType::I
    } else if opcode == OPCODE_STORE {
        InstructionType::S
    } else if opcode == OPCODE_BRANCH {
        InstructionType::B
    } else if opcode == OPCODE_LUI || opcode == OPCODE_AUIPC {
        InstructionType::U
    } else if opcode == OPCODE_JAL {
        InstructionType::J
    } else {
        InstructionType::Unknown
    }
}

/// The 12-bit store immediate pattern, reassembled from its two word regions.
pub open spec fn spec_s_imm_pattern(d: u32) -> u32 {
    ((d >> 25) << 5) | ((d >> 7) & 0x1f)
}

/// The 13-bit branch immediate pattern (low bit implicitly zero),
/// reassembled from its four scattered word regions.
pub open spec fn spec_b_imm_pattern(d: u32) -> u32 {
    (((d >> 31) & 0x1) << 12) | (((d >> 7) & 0x1) << 11) | (((d >> 25) & 0x3f) << 5) | (((d >> 8)
        & 0xf) << 1)
}

/// The 21-bit jump immediate pattern (low bit implicitly zero), reassembled
/// from its four scattered word regions.
pub open spec fn spec_j_imm_pattern(d: u32) -> u32 {
    (((d >> 31) & 0x1) << 20) | (((d >> 12) & 0xff) << 12) | (((d >> 20) & 0x1) << 11) | (((d
        >> 21) & 0x3ff) << 1)
}

/// The sign-extended immediate of the word, per its format: the top 12 bits
/// for register-immediate and load forms, the reassembled patterns for
/// store, branch and jump forms, the upper 20 bits in natural placement for
/// upper-immediate forms, and zero for register-register and unrecognized
/// forms.
pub open spec fn spec_imm(d: u32) -> int {
    let opcode = spec_opcode(d);
    if opcode == OPCODE_OP_IMM || opcode == OPCODE_LOAD {
        spec_sign_extend((d >> 20) as int, 12)
    } else if opcode == OPCODE_STORE {
        spec_sign_extend(spec_s_imm_pattern(d) as int, 12)
    } else if opcode == OPCODE_BRANCH {
        spec_sign_extend(spec_b_imm_pattern(d) as int, 13)
    } else if opcode == OPCODE_LUI || opcode == OPCODE_AUIPC {
        spec_sign_extend((d & 0xfffff000) as int, 32)
    } else if opcode == OPCODE_JAL {
        spec_sign_extend(spec_j_imm_pattern(d) as int, 21)
    } else {
        0
    }
}

/// The decoded record for a raw word: fixed bit-sliced fields, the format
/// class of the opcode, and the format's sign-extended immediate.
pub open spec fn spec_decode(d: u32) -> Instruction {
    Instruction {
        opcode: spec_opcode(d),
        rd: spec_rd(d),
        rs1: spec_rs1(d),
        rs2: spec_rs2(d),
        funct3: spec_funct3(d),
        funct7: spec_funct7(d),
        imm: spec_imm(d) as i32,
        typ: spec_instruction_type(spec_opcode(d)),
    }
}

/// Decoding always produces a well-formed instruction: every bit-sliced
/// field is within its range and the format class matches the opcode.
pub proof fn lemma_spec_decode_wf(d: u32)
    ensures
        spec_decode(d).wf(),
{
    assert(d & 0x7f < 128) by (bit_vector);
    assert((d >> 7) & 0x1f < 32) by (bit_vector);
    assert((d >> 12) & 0x07 < 8) by (bit_vector);
    assert((d >> 15) & 0x1f < 32) by (bit_vector);
    assert((d >> 20) & 0x1f < 32) by (bit_vector);
    assert((d >> 25) & 0x7f < 128) by (bit_vector);
}

impl Instruction {
    /// Field ranges that decoding guarantees: register indices are 5 bits,
    /// the opcode and major discriminator 7 bits, the minor discriminator 3
    /// bits, and the format class matches the opcode.
    pub open spec fn wf(self) -> bool {
        &&& self.opcode < 128
        &&& self.rd < 32
        &&& self.rs1 < 32
        &&& self.rs2 < 32
        &&& self.funct3 < 8
        &&& self.funct7 < 128
        &&& self.typ == spec_instruction_type(self.opcode)
    }

    /// Decode a raw 32-bit word into a structured instruction. Total: an
    /// unrecognized opcode yields the `Unknown` format with a zero
    /// immediate rather than an error.
    pub fn decode(raw: RawInstruction) -> (r: Instruction)
        ensures
            r == spec_decode(raw.data),
            r.wf(),
    {
        let data: u32 = raw.data;
        proof {
            lemma2_to64();
            assert(data & 0x7f < 128) by (bit_vector);
            assert((data >> 7) & 0x1f < 32) by (bit_vector);
            assert((data >> 12) & 0x07 < 8) by (bit_vector);
            assert((data >> 15) & 0x1f < 32) by (bit_vector);
            assert((data >> 20) & 0x1f < 32) by (bit_vector);
            assert((data >> 25) & 0x7f < 128) by (bit_vector);
            assert(data >> 20 < 4096) by (bit_vector);
            assert(((data >> 25) << 5) | ((data >> 7) & 0x1f) < 4096) by (bit_vector);
            assert((((data >> 31) & 0x1) << 12) | (((data >> 7) & 0x1) << 11) | (((data >> 25)
                & 0x3f) << 5) | (((data >> 8) & 0xf) << 1) < 8192) by (bit_vector);
            assert((((data >> 31) & 0x1) << 20) | (((data >> 12) & 0xff) << 12) | (((data >> 20)
                & 0x1) << 11) | (((data >> 21) & 0x3ff) << 1) < 0x200000) by (bit_vector);
        }
        let opcode: u8 = (data & 0x7f) as u8;
        let rd: u8 = ((data >> 7) & 0x1f) as u8;
        let funct3: u8 = ((data >> 12) & 0x07) as u8;
        let rs1: u8 = ((data >> 15) & 0x1f) as u8;
        let rs2: u8 = ((data >> 20) & 0x1f) as u8;
        let funct7: u8 = ((data >> 25) & 0x7f) as u8;

        let (typ, imm): (InstructionType, i32) = match opcode {
            OPCODE_OP => (InstructionType::R, 0),
            OPCODE_OP_IMM | OPCODE_LOAD => (
                InstructionType::I,
                sign_extend((data >> 20) as i32, 12),
            ),
            OPCODE_STORE => {
                let pattern: u32 = ((data >> 25) << 5) | ((data >> 7) & 0x1f);
                (InstructionType::S, sign_extend(pattern as i32, 12))
            },
            OPCODE_BRANCH => {
                let pattern: u32 = (((data >> 31) & 0x1) << 12) | (((data >> 7) & 0x1) << 11) | ((
                (data >> 25) & 0x3f) << 5) | (((data >> 8) & 0xf) << 1);
                (InstructionType::B, sign_extend(pattern as i32, 13))
            },
            OPCODE_LUI | OPCODE_AUIPC => {
                let hi: u32 = data & 0xfffff000;
                let imm: i32 = if hi >= 0x80000000 {
                    ((hi as i64) - 0x100000000i64) as i32
                } else {
                    hi as i32
                };
                (InstructionType::U, imm)
            },
            OPCODE_JAL => {
                let pattern: u32 = (((data >> 31) & 0x1) << 20) | (((data >> 12) & 0xff) << 12) | (
                ((data >> 20) & 0x1) << 11) | (((data >> 21) & 0x3ff) << 1);
                (InstructionType::J, sign_extend(pattern as i32, 21))
            },
            _ => (InstructionType::Unknown, 0),
        };

        Instruction { opcode, rd, rs1, rs2, funct3, funct7, imm, typ }
    }
}

/// The functional-unit class an instruction executes on, computed from the
/// opcode once and shared by the scoreboard and the dispatch stage.
#[derive(Copy, Clone, PartialEq, Eq, Structural, Debug)]
pub enum UnitKind {
    /// Arithmetic unit: register-register, register-immediate and
    /// upper-immediate forms.
    Alu,
    /// Branch unit: conditional branch and jump forms.
    Branch,
    /// Load/store unit: load and store forms share this path.
    LoadStore,
    /// No unit: unrecognized opcodes are dropped at issue time.
    Unrecognized,
}

/// Unit class selected by an opcode: arithmetic for register-register,
/// register-immediate and upper-immediate forms, branch for branch and jump
/// forms, load/store for load and store forms.
pub open spec fn spec_unit_kind(opcode: u8) -> UnitKind {
    if opcode == OPCODE_OP || opcode == OPCODE_OP_IMM || opcode == OPCODE_LUI || opcode
        == OPCODE_AUIPC {
        UnitKind::Alu
    } else if opcode == OPCODE_BRANCH || opcode == OPCODE_JAL {
        UnitKind::Branch
    } else if opcode == OPCODE_LOAD || opcode == OPCODE_STORE {
        UnitKind::LoadStore
    } else {
        UnitKind::Unrecognized
    }
}

/// Map an opcode to the functional-unit class it issues to.
pub fn unit_kind(opcode: u8) -> (r: UnitKind)
    ensures
        r == spec_unit_kind(opcode),
{
    match opcode {
        OPCODE_OP | OPCODE_OP_IMM | OPCODE_LUI | OPCODE_AUIPC => UnitKind::Alu,
        OPCODE_BRANCH | OPCODE_JAL => UnitKind::Branch,
        OPCODE_LOAD | OPCODE_STORE => UnitKind::LoadStore,
        _ => UnitKind::Unrecognized,
    }
}

/// The mnemonic selected by an instruction's opcode and sub-opcode
/// discriminators.
pub open spec fn spec_mnemonic(i: Instruction) -> Seq<char> {
    if i.opcode == OPCODE_OP && i.funct3 == 0x0 && i.funct7 == 0x00 {
        "add"@
    } else if i.opcode == OPCODE_OP && i.funct3 == 0x0 && i.funct7 == 0x20 {
        "sub"@
    } else if i.opcode == OPCODE_OP && i.funct3 == 0x7 {
        "and"@
    } else if i.opcode == OPCODE_OP && i.funct3 == 0x6 {
        "or"@
    } else if i.opcode == OPCODE_OP && i.funct3 == 0x4 {
        "xor"@
    } else if i.opcode == OPCODE_OP && i.funct3 == 0x1 {
        "sll"@
    } else if i.opcode == OPCODE_OP && i.funct3 == 0x5 && i.funct7 == 0x00 {
        "srl"@
    } else if i.opcode == OPCODE_OP && i.funct3 == 0x5 && i.funct7 == 0x20 {
        "sra"@
    } else if i.opcode == OPCODE_OP_IMM && i.funct3 == 0x0 {
        "addi"@
    } else if i.opcode == OPCODE_OP_IMM && i.funct3 == 0x2 {
        "slti"@
    } else if i.opcode == OPCODE_OP_IMM && i.funct3 == 0x7 {
        "andi"@
    } else if i.opcode == OPCODE_OP_IMM && i.funct3 == 0x6 {
        "ori"@
    } else if i.opcode == OPCODE_LOAD && i.funct3 == 0x2 {
        "lw"@
    } else if i.opcode == OPCODE_STORE && i.funct3 == 0x2 {
        "sw"@
    } else if i.opcode == OPCODE_BRANCH && i.funct3 == 0x0 {
        "beq"@
    } else if i.opcode == OPCODE_BRANCH && i.funct3 == 0x1 {
        "bne"@
    } else if i.opcode == OPCODE_LUI {
        "lui"@
    } else if i.opcode == OPCODE_AUIPC {
        "auipc"@
    } else if i.opcode == OPCODE_JAL {
        "jal"@
    } else if i.opcode == 0x67 {
        "jalr"@
    } else {
        "unknown"@
    }
}

impl Instruction {
    /// Mnemonic of the instruction, looked up by opcode and sub-opcode
    /// discriminators.
    pub fn mnemonic(&self) -> (r: &'static str)
        ensures
            r@ == spec_mnemonic(*self),
    {
        if self.opcode == OPCODE_OP && self.funct3 == 0x0 && self.funct7 == 0x00 {
            "add"
        } else if self.opcode == OPCODE_OP && self.funct3 == 0x0 && self.funct7 == 0x20 {
            "sub"
        } else if self.opcode == OPCODE_OP && self.funct3 == 0x7 {
            "and"
        } else if self.opcode == OPCODE_OP && self.funct3 == 0x6 {
            "or"
        } else if self.opcode == OPCODE_OP && self.funct3 == 0x4 {
            "xor"
        } else if self.opcode == OPCODE_OP && self.funct3 == 0x1 {
            "sll"
        } else if self.opcode == OPCODE_OP && self.funct3 == 0x5 && self.funct7 == 0x00 {
            "srl"
        } else if self.opcode == OPCODE_OP && self.funct3 == 0x5 && self.funct7 == 0x20 {
            "sra"
        } else if self.opcode == OPCODE_OP_IMM && self.funct3 == 0x0 {
            "addi"
        } else if self.opcode == OPCODE_OP_IMM && self.funct3 == 0x2 {
            "slti"
        } else if self.opcode == OPCODE_OP_IMM && self.funct3 == 0x7 {
            "andi"
        } else if self.opcode == OPCODE_OP_IMM && self.funct3 == 0x6 {
            "ori"
        } else if self.opcode == OPCODE_LOAD && self.funct3 == 0x2 {
            "lw"
        } else if self.opcode == OPCODE_STORE && self.funct3 == 0x2 {
            "sw"
        } else if self.opcode == OPCODE_BRANCH && self.funct3 == 0x0 {
            "beq"
        } else if self.opcode == OPCODE_BRANCH && self.funct3 == 0x1 {
            "bne"
        } else if self.opcode == OPCODE_LUI {
            "lui"
        } else if self.opcode == OPCODE_AUIPC {
            "auipc"
        } else if self.opcode == OPCODE_JAL {
            "jal"
        } else if self.opcode == 0x67 {
            "jalr"
        } else {
            "unknown"
        }
    }

    /// Whether this is the canonical no-op encoding: add zero to the
    /// hard-wired zero register and discard the result.
    pub fn is_nop(&self) -> (r: bool)
        ensures
            r == (self.opcode == OPCODE_OP_IMM && self.funct3 == 0 && self.rd == 0 && self.rs1 == 0
                && self.imm == 0),
    {
        self.opcode == OPCODE_OP_IMM && self.funct3 == 0 && self.rd == 0 && self.rs1 == 0
            && self.imm == 0
    }
}

/// A bounded FIFO of raw instructions between fetch and decode; pushes
/// against a full buffer are dropped.
pub struct InstructionBuffer {
    pub queue: std::collections::VecDeque<RawInstruction>,
    pub capacity: usize,
}

impl InstructionBuffer {
    /// Length never exceeds capacity.
    pub open spec fn wf(self) -> bool {
        self.queue@.len() <= self.capacity
    }

    /// Create an empty instruction buffer with the given capacity.
    pub fn new(capacity: usize) -> (r: InstructionBuffer)
        ensures
            r.queue@ =~= Seq::<RawInstruction>::empty(),
            r.capacity == capacity,
            r.wf(),
    {
        InstructionBuffer { queue: std::collections::VecDeque::with_capacity(capacity), capacity }
    }

    /// Push a raw instruction at the back if there is space; a push against
    /// a full buffer has no effect.
    pub fn push(&mut self, instr: RawInstruction)
        ensures
            final(self).capacity == old(self).capacity,
            old(self).queue@.len() < old(self).capacity ==> final(self).queue@ == old(
                self,
            ).queue@.push(instr),
            old(self).queue@.len() >= old(self).capacity ==> final(self).queue@ == old(
                self,
            ).queue@,
            old(self).wf() ==> final(self).wf(),
    {
        if self.queue.len() < self.capacity {
            self.queue.push_back(instr);
        }
    }

    /// Pop up to `n` raw instructions from the front, in order.
    pub fn pop_batch(&mut self, n: usize) -> (out: Vec<RawInstruction>)
        ensures
            final(self).capacity == old(self).capacity,
            out@ == old(self).queue@.take(min(n as int, old(self).queue@.len() as int)),
            final(self).queue@ == old(self).queue@.skip(
                min(n as int, old(self).queue@.len() as int),
            ),
            old(self).wf() ==> final(self).wf(),
    {
        let ghost k: int = min(n as int, old(self).queue@.len() as int);
        let mut out: Vec<RawInstruction> = Vec::new();
        let mut i: usize = 0;
        while i < n && self.queue.len() > 0
            invariant
                i <= n,
                i <= k,
                out@ =~= old(self).queue@.take(i as int),
                self.queue@ =~= old(self).queue@.skip(i as int),
                self.capacity == old(self).capacity,
                k == min(n as int, old(self).queue@.len() as int),
            decreases n - i,
        {
            let instr: RawInstruction = self.queue.pop_front().unwrap();
            out.push(instr);
            i = i + 1;
        }
        proof {
            assert(i == k);
            assert(out@ =~= old(self).queue@.take(k));
            assert(self.queue@ =~= old(self).queue@.skip(k));
        }
        out
    }
}

} // verus!
