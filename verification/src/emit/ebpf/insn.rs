//! eBPF instructions for the native back end.
use vstd::prelude::*;
use crate::emit::bytes::{u16_le, u32_le};
use crate::ir::instruction::BinaryOp;
use crate::ir::semantics::ir_value;
use crate::emit::isa::{alu64_exec, alu64_uses_register, is_call, is_exit, is_ld_imm64, jmp_imm_taken, mem_access};
use crate::text::{concat2, decimal, u64_to_decimal};

verus! {

/// One eBPF instruction with separate register fields.
#[derive(Debug, Clone, Copy)]
pub struct Insn {
    pub code: u8,
    pub dst: u8,
    pub src: u8,
    pub off: i16,
    pub imm: i32,
}

/// The eight bytes of an instruction: opcode, the registers' low nibbles
/// (destination low, source high), offset and immediate.
pub open spec fn insn_le_bytes(i: Insn) -> Seq<u8> {
    seq![i.code, (i.dst & 0x0fu8) | ((i.src & 0x0fu8) << 4u8)] + u16_le(i.off as u16) + u32_le(i.imm as u32)
}

impl Insn {
    /// An instruction from its fields.
    pub fn new(code: u8, dst: u8, src: u8, off: i16, imm: i32) -> (r: Insn)
        ensures
            r == (Insn { code, dst, src, off, imm }),
    {
        Insn { code, dst, src, off, imm }
    }

    /// The instruction's eight bytes.
    pub fn to_le_bytes(&self) -> (r: [u8; 8])
        ensures
            r@ == insn_le_bytes(*self),
    {
        let o = self.off as u16;
        let m = self.imm as u32;
        let r = [
            self.code,
            (self.dst & 0x0f) | ((self.src & 0x0f) << 4u8),
            (o % 256) as u8,
            (o / 256) as u8,
            (m % 256) as u8,
            ((m / 0x100) % 256) as u8,
            ((m / 0x1_0000) % 256) as u8,
            (m / 0x100_0000) as u8,
        ];
        assert(r@ =~= insn_le_bytes(*self));
        r
    }
}

pub const R0: u8 = 0;
pub const R1: u8 = 1;
pub const R2: u8 = 2;
pub const R3: u8 = 3;
pub const R4: u8 = 4;
pub const R6: u8 = 6;
pub const R10: u8 = 10;

pub const BPF_LD_DW_IMM: u8 = 0x18;
pub const BPF_CALL: u8 = 0x85;
pub const BPF_EXIT: u8 = 0x95;
pub const BPF_JA: u8 = 0x05;
pub const BPF_JEQ_IMM: u8 = 0x15;
pub const BPF_JNE_IMM: u8 = 0x55;
pub const BPF_MOV64_IMM: u8 = 0xb7;
pub const BPF_MOV64_REG: u8 = 0xbf;

/// The opcode of a 64-bit arithmetic operation with an immediate operand.
pub open spec fn alu64_imm_code(op: BinaryOp) -> u8 {
    match op {
        BinaryOp::Add => 0x07,
        BinaryOp::Sub => 0x17,
        BinaryOp::Mul => 0x27,
        BinaryOp::Div => 0x37,
        BinaryOp::Shl => 0x67,
        BinaryOp::Shr => 0x77,
        BinaryOp::Mod => 0x97,
    }
}

/// The opcodes the native back end emits for an IR operator make the
/// machine compute that operator: run on any operands, the immediate form
/// and the register form give the IR operator's value.
pub proof fn lemma_alu64_code_meaning(op: BinaryOp)
    ensures
        !alu64_uses_register(alu64_imm_code(op)),
        alu64_uses_register((alu64_imm_code(op) + 8) as u8),
        forall|x: u64, y: u64| #[trigger] alu64_exec(alu64_imm_code(op), x, y) == Some(ir_value(op, x, y)),
        forall|x: u64, y: u64| #[trigger] alu64_exec((alu64_imm_code(op) + 8) as u8, x, y) == Some(ir_value(op, x, y)),
{
}

/// The opcode of a 64-bit arithmetic operation with an immediate operand.
pub fn alu64_imm(op: BinaryOp) -> (r: u8)
    ensures
        r == alu64_imm_code(op),
        !alu64_uses_register(r),
        forall|x: u64, y: u64| #[trigger] alu64_exec(r, x, y) == Some(ir_value(op, x, y)),
{
    match op {
        BinaryOp::Add => 0x07,
        BinaryOp::Sub => 0x17,
        BinaryOp::Mul => 0x27,
        BinaryOp::Div => 0x37,
        BinaryOp::Shl => 0x67,
        BinaryOp::Shr => 0x77,
        BinaryOp::Mod => 0x97,
    }
}

/// The opcode of a 64-bit arithmetic operation with a register operand: the
/// immediate form with the source bit set.
pub fn alu64_reg(op: BinaryOp) -> (r: u8)
    ensures
        r == alu64_imm_code(op) + 8,
        alu64_uses_register(r),
        forall|x: u64, y: u64| #[trigger] alu64_exec(r, x, y) == Some(ir_value(op, x, y)),
{
    proof { lemma_alu64_code_meaning(op); }
    let c = alu64_imm(op);
    assert(c & 0x08u8 == 0 ==> c | 0x08u8 == c + 8) by (bit_vector);
    assert(c == 0x07u8 || c == 0x17u8 || c == 0x27u8 || c == 0x37u8 || c == 0x67u8 || c == 0x77u8 || c == 0x97u8);
    assert((c == 0x07u8 || c == 0x17u8 || c == 0x27u8 || c == 0x37u8 || c == 0x67u8 || c == 0x77u8 || c == 0x97u8) ==> c & 0x08u8 == 0) by (bit_vector);
    c | 0x08
}

/// The other opcodes of the native back end do what the instruction set
/// says: the load and store opcodes move exactly `size` bytes, for every
/// size of 1, 2, 4 or 8; the two conditional jumps test equality and
/// difference; the moves copy their source; the call, exit and 64-bit
/// immediate load are what their names say.
pub proof fn lemma_native_opcodes_meaning()
    ensures
        forall|size: u8| #[trigger] ldx_code(size) matches Some(c) ==> mem_access(c) == Some((false, size as nat)),
        forall|size: u8| #[trigger] stx_code(size) matches Some(c) ==> mem_access(c) == Some((true, size as nat)),
        forall|size: u8| (size == 1 || size == 2 || size == 4 || size == 8) ==> #[trigger] ldx_code(size) is Some
            && stx_code(size) is Some,
        forall|x: u64, y: u64| #[trigger] jmp_imm_taken(BPF_JEQ_IMM, x, y) == Some(x == y),
        forall|x: u64, y: u64| #[trigger] jmp_imm_taken(BPF_JNE_IMM, x, y) == Some(x != y),
        forall|x: u64, y: u64| #[trigger] jmp_imm_taken(BPF_JA, x, y) == Some(true),
        forall|x: u64, y: u64| #[trigger] alu64_exec(BPF_MOV64_IMM, x, y) == Some(y),
        forall|x: u64, y: u64| #[trigger] alu64_exec(BPF_MOV64_REG, x, y) == Some(y),
        !alu64_uses_register(BPF_MOV64_IMM),
        alu64_uses_register(BPF_MOV64_REG),
        is_call(BPF_CALL),
        is_exit(BPF_EXIT),
        is_ld_imm64(BPF_LD_DW_IMM),
{
}

/// The memory-load opcode for an access of `size` bytes.
pub open spec fn ldx_code(size: u8) -> Option<u8> {
    if size == 1 { Some(0x71u8) } else if size == 2 { Some(0x69u8) } else if size == 4 { Some(0x61u8) } else if size == 8 { Some(0x79u8) } else { None }
}

/// The memory-store opcode for an access of `size` bytes.
pub open spec fn stx_code(size: u8) -> Option<u8> {
    if size == 1 { Some(0x73u8) } else if size == 2 { Some(0x6bu8) } else if size == 4 { Some(0x63u8) } else if size == 8 { Some(0x7bu8) } else { None }
}

/// The memory-load opcode for `size` bytes; other sizes are refused.
pub fn ldx_mem(size: u8) -> (r: Result<u8, String>)
    ensures
        match ldx_code(size) {
            Some(c) => r == Ok::<u8, String>(c),
            None => r matches Err(e) && e@ == "unsupported load size: "@ + decimal(size as nat),
        },
{
    match size {
        1 => Ok(0x71),
        2 => Ok(0x69),
        4 => Ok(0x61),
        8 => Ok(0x79),
        _ => {
            let n = u64_to_decimal(size as u64);
            Err(concat2("unsupported load size: ", n.as_str()))
        },
    }
}

/// The memory-store opcode for `size` bytes; other sizes are refused.
pub fn stx_mem(size: u8) -> (r: Result<u8, String>)
    ensures
        match stx_code(size) {
            Some(c) => r == Ok::<u8, String>(c),
            None => r matches Err(e) && e@ == "unsupported store size: "@ + decimal(size as nat),
        },
{
    match size {
        1 => Ok(0x73),
        2 => Ok(0x6b),
        4 => Ok(0x63),
        8 => Ok(0x7b),
        _ => {
            let n = u64_to_decimal(size as u64);
            Err(concat2("unsupported store size: ", n.as_str()))
        },
    }
}

} // verus!
