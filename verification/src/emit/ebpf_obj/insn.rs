//! eBPF instructions as the kernel encodes them, and their builders.
use vstd::prelude::*;
use crate::emit::isa::{alu64_exec, alu64_uses_register, is_call, is_exit, is_ld_imm64, jmp_imm_taken, mem_access};
use crate::emit::bytes::{u16_le, u32_le};

verus! {

/// One 8-byte eBPF instruction: opcode, registers (destination in the low
/// nibble, source in the high nibble), offset and immediate.
#[derive(Clone, Copy, Debug)]
pub struct BpfInsn {
    pub code: u8,
    pub regs: u8,
    pub off: i16,
    pub imm: i32,
}

/// The register byte of an instruction.
pub open spec fn regs_byte(dst: u8, src: u8) -> u8 {
    dst | (src << 4u8)
}

/// The instruction with these fields.
pub open spec fn insn_of(code: u8, dst: u8, src: u8, off: i16, imm: i32) -> BpfInsn {
    BpfInsn { code, regs: regs_byte(dst, src), off, imm }
}

/// The eight bytes of an instruction, as the kernel reads them.
pub open spec fn insn_bytes(i: BpfInsn) -> Seq<u8> {
    seq![i.code, i.regs] + u16_le(i.off as u16) + u32_le(i.imm as u32)
}

/// The bytes of a sequence of instructions, one after another.
pub open spec fn insns_bytes(s: Seq<BpfInsn>) -> Seq<u8>
    decreases s.len(),
{
    if s.len() == 0 {
        Seq::empty()
    } else {
        insns_bytes(s.drop_last()) + insn_bytes(s.last())
    }
}

/// Instruction `k` of `s` stands at byte `8 * k` of its encoding.
pub proof fn lemma_insns_bytes_len(s: Seq<BpfInsn>)
    ensures
        insns_bytes(s).len() == 8 * s.len(),
    decreases s.len(),
{
    if s.len() > 0 {
        lemma_insns_bytes_len(s.drop_last());
    }
}

impl BpfInsn {
    /// An instruction from its fields.
    pub fn new(code: u8, dst: u8, src: u8, off: i16, imm: i32) -> (r: BpfInsn)
        ensures
            r == insn_of(code, dst, src, off, imm),
    {
        BpfInsn { code, regs: dst | (src << 4u8), off, imm }
    }

    /// The instruction's eight bytes.
    pub fn to_bytes(self) -> (r: [u8; 8])
        ensures
            r@ == insn_bytes(self),
    {
        let o = self.off as u16;
        let m = self.imm as u32;
        let r = [
            self.code,
            self.regs,
            (o % 256) as u8,
            (o / 256) as u8,
            (m % 256) as u8,
            ((m / 0x100) % 256) as u8,
            ((m / 0x1_0000) % 256) as u8,
            (m / 0x100_0000) as u8,
        ];
        assert(r@ =~= insn_bytes(self));
        r
    }
}

/// The bytes of the instructions, in order.
pub fn serialize_insns(insns: &[BpfInsn]) -> (r: Vec<u8>)
    ensures
        r@ == insns_bytes(insns@),
{
    let mut out: Vec<u8> = Vec::new();
    let mut i: usize = 0;
    while i < insns.len()
        invariant
            i <= insns@.len(),
            out@ == insns_bytes(insns@.subrange(0, i as int)),
        decreases insns@.len() - i,
    {
        let b = insns[i].to_bytes();
        let ghost before = out@;
        let mut k: usize = 0;
        while k < 8
            invariant
                k <= 8,
                b@.len() == 8,
                out@ == before + b@.subrange(0, k as int),
            decreases 8 - k,
        {
            out.push(b[k]);
            k = k + 1;
            assert(out@ =~= before + b@.subrange(0, k as int));
        }
        assert(b@.subrange(0, 8) =~= b@);
        assert(insns@.subrange(0, i + 1).drop_last() =~= insns@.subrange(0, i as int));
        i = i + 1;
    }
    assert(insns@.subrange(0, insns@.len() as int) =~= insns@);
    out
}

pub const R0: u8 = 0;
pub const R1: u8 = 1;
pub const R2: u8 = 2;
pub const R3: u8 = 3;
pub const R4: u8 = 4;
pub const R5: u8 = 5;
pub const R6: u8 = 6;
pub const R7: u8 = 7;
pub const R8: u8 = 8;
pub const R9: u8 = 9;
pub const R10: u8 = 10;

// Instruction classes.
pub const BPF_LD: u8 = 0x00;
pub const BPF_LDX: u8 = 0x01;
pub const BPF_ST: u8 = 0x02;
pub const BPF_STX: u8 = 0x03;
pub const BPF_ALU: u8 = 0x04;
pub const BPF_JMP: u8 = 0x05;
pub const BPF_ALU64: u8 = 0x07;

// Access sizes and modes.
pub const BPF_W: u8 = 0x00;
pub const BPF_H: u8 = 0x08;
pub const BPF_B: u8 = 0x10;
pub const BPF_DW: u8 = 0x18;
pub const BPF_IMM: u8 = 0x00;
pub const BPF_MEM: u8 = 0x60;

// Operand sources.
pub const BPF_K: u8 = 0x00;
pub const BPF_X: u8 = 0x08;

// Arithmetic operations.
pub const BPF_ADD: u8 = 0x00;
pub const BPF_SUB: u8 = 0x10;
pub const BPF_MUL: u8 = 0x20;
pub const BPF_DIV: u8 = 0x30;
pub const BPF_MOD: u8 = 0x90;
pub const BPF_LSH: u8 = 0x60;
pub const BPF_RSH: u8 = 0x70;
pub const BPF_MOV: u8 = 0xb0;
pub const BPF_ARSH: u8 = 0xc0;

// Jump operations.
pub const BPF_JA: u8 = 0x00;
pub const BPF_JEQ: u8 = 0x10;
pub const BPF_JNE: u8 = 0x50;
pub const BPF_CALL: u8 = 0x80;
pub const BPF_EXIT: u8 = 0x90;

/// Width of a memory access.
#[derive(Clone, Copy, Debug, PartialEq, Eq, Structural)]
pub enum Size {
    B,
    H,
    W,
    Dw,
}

/// The size bits of an access width.
pub open spec fn size_code(s: Size) -> u8 {
    match s {
        Size::B => BPF_B,
        Size::H => BPF_H,
        Size::W => BPF_W,
        Size::Dw => BPF_DW,
    }
}

impl Size {
    /// The size bits of this width.
    pub fn code(self) -> (r: u8)
        ensures
            r == size_code(self),
    {
        match self {
            Size::B => BPF_B,
            Size::H => BPF_H,
            Size::W => BPF_W,
            Size::Dw => BPF_DW,
        }
    }
}

/// `dst = src` (64-bit).
pub fn mov64_reg(dst: u8, src: u8) -> (r: BpfInsn)
    ensures
        r == insn_of(BPF_ALU64 | BPF_MOV | BPF_X, dst, src, 0, 0),
{
    BpfInsn::new(BPF_ALU64 | BPF_MOV | BPF_X, dst, src, 0, 0)
}

/// `dst = imm` (64-bit, sign-extended).
pub fn mov64_imm(dst: u8, imm: i32) -> (r: BpfInsn)
    ensures
        r == insn_of(BPF_ALU64 | BPF_MOV | BPF_K, dst, 0, 0, imm),
{
    BpfInsn::new(BPF_ALU64 | BPF_MOV | BPF_K, dst, 0, 0, imm)
}

/// `dst = dst op src` (64-bit).
pub fn alu64_reg(op: u8, dst: u8, src: u8) -> (r: BpfInsn)
    ensures
        r == insn_of(BPF_ALU64 | op | BPF_X, dst, src, 0, 0),
{
    BpfInsn::new(BPF_ALU64 | op | BPF_X, dst, src, 0, 0)
}

/// `dst = dst op imm` (64-bit).
pub fn alu64_imm(op: u8, dst: u8, imm: i32) -> (r: BpfInsn)
    ensures
        r == insn_of(BPF_ALU64 | op | BPF_K, dst, 0, 0, imm),
{
    BpfInsn::new(BPF_ALU64 | op | BPF_K, dst, 0, 0, imm)
}

/// `dst = *(size *)(src + off)`.
pub fn ldx_mem(size: Size, dst: u8, src: u8, off: i16) -> (r: BpfInsn)
    ensures
        r == insn_of(BPF_LDX | size_code(size) | BPF_MEM, dst, src, off, 0),
{
    BpfInsn::new(BPF_LDX | size.code() | BPF_MEM, dst, src, off, 0)
}

/// `*(size *)(dst + off) = src`.
pub fn stx_mem(size: Size, dst: u8, off: i16, src: u8) -> (r: BpfInsn)
    ensures
        r == insn_of(BPF_STX | size_code(size) | BPF_MEM, dst, src, off, 0),
{
    BpfInsn::new(BPF_STX | size.code() | BPF_MEM, dst, src, off, 0)
}

/// `*(size *)(dst + off) = imm`.
pub fn st_mem(size: Size, dst: u8, off: i16, imm: i32) -> (r: BpfInsn)
    ensures
        r == insn_of(BPF_ST | size_code(size) | BPF_MEM, dst, 0, off, imm),
{
    BpfInsn::new(BPF_ST | size.code() | BPF_MEM, dst, 0, off, imm)
}

/// `if dst op imm goto pc + off + 1`.
pub fn jmp_imm(op: u8, dst: u8, imm: i32, off: i16) -> (r: BpfInsn)
    ensures
        r == insn_of(BPF_JMP | op | BPF_K, dst, 0, off, imm),
{
    BpfInsn::new(BPF_JMP | op | BPF_K, dst, 0, off, imm)
}

/// `goto pc + off + 1`.
pub fn ja(off: i16) -> (r: BpfInsn)
    ensures
        r == insn_of(BPF_JMP | BPF_JA, 0, 0, off, 0),
{
    BpfInsn::new(BPF_JMP | BPF_JA, 0, 0, off, 0)
}

/// Calls helper `helper_id`.
pub fn call(helper_id: i32) -> (r: BpfInsn)
    ensures
        r == insn_of(BPF_JMP | BPF_CALL, 0, 0, 0, helper_id),
{
    BpfInsn::new(BPF_JMP | BPF_CALL, 0, 0, 0, helper_id)
}

/// Returns from the program.
pub fn exit() -> (r: BpfInsn)
    ensures
        r == insn_of(BPF_JMP | BPF_EXIT, 0, 0, 0, 0),
{
    BpfInsn::new(BPF_JMP | BPF_EXIT, 0, 0, 0, 0)
}

/// `dst = imm` with a full 64-bit immediate: the low half in the first
/// instruction, the high half in the second.
pub fn ld_imm64(dst: u8, imm: i64) -> (r: [BpfInsn; 2])
    ensures
        r@ == seq![
            insn_of(BPF_LD | BPF_DW | BPF_IMM, dst, 0, 0, imm as i32),
            insn_of(0, 0, 0, 0, (imm >> 32u64) as i32),
        ],
{
    let lo = imm as i32;
    let hi = (imm >> 32u64) as i32;
    let r = [BpfInsn::new(BPF_LD | BPF_DW | BPF_IMM, dst, 0, 0, lo), BpfInsn::new(0, 0, 0, 0, hi)];
    assert(r@ =~= seq![
        insn_of(BPF_LD | BPF_DW | BPF_IMM, dst, 0, 0, imm as i32),
        insn_of(0, 0, 0, 0, (imm >> 32u64) as i32),
    ]);
    r
}

/// Whether `v` fits in a signed 32-bit immediate.
pub fn fits_i32(v: i64) -> (r: bool)
    ensures
        r == (i32::MIN <= v && v <= i32::MAX),
{
    v >= i32::MIN as i64 && v <= i32::MAX as i64
}

/// The opcodes the builders produce, as numbers.
pub proof fn lemma_opcode_values()
    by (bit_vector)
    ensures
        BPF_ALU64 | BPF_MOV | BPF_X == 0xbfu8,
        BPF_ALU64 | BPF_MOV | BPF_K == 0xb7u8,
        BPF_ALU64 | BPF_ADD | BPF_K == 0x07u8,
        BPF_ALU64 | BPF_SUB | BPF_K == 0x17u8,
        BPF_ALU64 | BPF_MUL | BPF_K == 0x27u8,
        BPF_ALU64 | BPF_DIV | BPF_K == 0x37u8,
        BPF_ALU64 | BPF_MOD | BPF_K == 0x97u8,
        BPF_ALU64 | BPF_LSH | BPF_K == 0x67u8,
        BPF_ALU64 | BPF_RSH | BPF_K == 0x77u8,
        BPF_ALU64 | BPF_ARSH | BPF_K == 0xc7u8,
        BPF_ALU64 | BPF_ADD | BPF_X == 0x0fu8,
        BPF_ALU64 | BPF_SUB | BPF_X == 0x1fu8,
        BPF_ALU64 | BPF_MUL | BPF_X == 0x2fu8,
        BPF_ALU64 | BPF_DIV | BPF_X == 0x3fu8,
        BPF_ALU64 | BPF_MOD | BPF_X == 0x9fu8,
        BPF_ALU64 | BPF_LSH | BPF_X == 0x6fu8,
        BPF_ALU64 | BPF_RSH | BPF_X == 0x7fu8,
        BPF_LDX | BPF_W | BPF_MEM == 0x61u8,
        BPF_LDX | BPF_H | BPF_MEM == 0x69u8,
        BPF_LDX | BPF_B | BPF_MEM == 0x71u8,
        BPF_LDX | BPF_DW | BPF_MEM == 0x79u8,
        BPF_STX | BPF_W | BPF_MEM == 0x63u8,
        BPF_STX | BPF_H | BPF_MEM == 0x6bu8,
        BPF_STX | BPF_B | BPF_MEM == 0x73u8,
        BPF_STX | BPF_DW | BPF_MEM == 0x7bu8,
        BPF_JMP | BPF_JEQ | BPF_K == 0x15u8,
        BPF_JMP | BPF_JNE | BPF_K == 0x55u8,
        BPF_JMP | BPF_JA == 0x05u8,
        BPF_JMP | BPF_CALL == 0x85u8,
        BPF_JMP | BPF_EXIT == 0x95u8,
        BPF_LD | BPF_DW | BPF_IMM == 0x18u8,
        R1 | (0u8 << 4u8) == 1u8,
{
}

/// The bytes a width names: a byte, a half word, a word, a double word.
pub open spec fn size_bytes(s: Size) -> nat {
    match s {
        Size::B => 1,
        Size::H => 2,
        Size::W => 4,
        Size::Dw => 8,
    }
}

/// The instructions this back end builds do what the instruction set
/// says: loads and stores of each width move that many bytes, the
/// conditional jumps test equality and difference, the moves copy their
/// source, and the call, exit and 64-bit immediate load are what their
/// names say.
pub proof fn lemma_obj_opcodes_meaning()
    ensures
        forall|s: Size| #[trigger] mem_access(BPF_LDX | size_code(s) | BPF_MEM) == Some((false, size_bytes(s))),
        forall|s: Size| #[trigger] mem_access(BPF_STX | size_code(s) | BPF_MEM) == Some((true, size_bytes(s))),
        forall|x: u64, y: u64| #[trigger] jmp_imm_taken(BPF_JMP | BPF_JEQ | BPF_K, x, y) == Some(x == y),
        forall|x: u64, y: u64| #[trigger] jmp_imm_taken(BPF_JMP | BPF_JNE | BPF_K, x, y) == Some(x != y),
        forall|x: u64, y: u64| #[trigger] jmp_imm_taken(BPF_JMP | BPF_JA, x, y) == Some(true),
        forall|x: u64, y: u64| #[trigger] alu64_exec(BPF_ALU64 | BPF_MOV | BPF_K, x, y) == Some(y),
        forall|x: u64, y: u64| #[trigger] alu64_exec(BPF_ALU64 | BPF_MOV | BPF_X, x, y) == Some(y),
        !alu64_uses_register(BPF_ALU64 | BPF_MOV | BPF_K),
        alu64_uses_register(BPF_ALU64 | BPF_MOV | BPF_X),
        is_call(BPF_JMP | BPF_CALL),
        is_exit(BPF_JMP | BPF_EXIT),
        is_ld_imm64(BPF_LD | BPF_DW | BPF_IMM),
{
    lemma_opcode_values();
    assert forall|s: Size| #[trigger] mem_access(BPF_LDX | size_code(s) | BPF_MEM) == Some((false, size_bytes(s))) by {
        match s { Size::B => {}, Size::H => {}, Size::W => {}, Size::Dw => {} }
    }
    assert forall|s: Size| #[trigger] mem_access(BPF_STX | size_code(s) | BPF_MEM) == Some((true, size_bytes(s))) by {
        match s { Size::B => {}, Size::H => {}, Size::W => {}, Size::Dw => {} }
    }
}

} // verus!
