//! Code generation for tracepoint units in the direct object back end:
//! each variable has a stack slot, two scratch slots hold immediates whose
//! address is needed, null pointers and zero divisors jump to a shared
//! block that returns 0.
use vstd::prelude::*;
use crate::emit::isa::{alu64_exec, alu64_uses_register, jmp_imm_taken};
use crate::ir::semantics::ir_value;
use crate::ast::map::Type;
use crate::emit::ebpf_obj::insn::{
    BPF_ALU64, BPF_CALL, BPF_DW, BPF_EXIT, BPF_IMM, BPF_JA, BPF_JMP, BPF_K, BPF_LD, BPF_LDX, BPF_MEM, BPF_MOV, BPF_STX, BPF_X,
    alu64_imm, alu64_reg, call, exit, fits_i32, insn_of, insns_bytes, ja, jmp_imm, ld_imm64, ldx_mem,
    lemma_opcode_values, mov64_imm, mov64_reg, regs_byte, serialize_insns, size_code, stx_mem, BpfInsn, Size,
    BPF_ADD, BPF_ARSH, BPF_DIV, BPF_JEQ, BPF_JNE, BPF_LSH, BPF_MOD, BPF_MUL, BPF_RSH, BPF_SUB, R0, R1, R10, R2,
    R3, R4, R6,
};
use crate::emit::ebpf_obj::maps::MapsSection;
use crate::emit::vars::{blocks_ids, collect_var_ids, contains_u32, index_of_u32, sorted_unique, strictly_sorted};
use crate::ir::instruction::{BinaryOp, Instruction, Opcode, Operand, VarId};
use crate::ir::unit::{BasicBlock, BlockId, Terminator, UnitIr};
use crate::text::{concat2, concat3, decimal, owned, push_decimal, push_decimal_u128};

verus! {

/// A map relocation: the byte offset of a 64-bit map-address load and the
/// map it names.
#[derive(Clone, Debug)]
pub struct RelocRequest {
    pub insn_byte_off: u64,
    pub map_name: String,
}

/// A compiled program section.
#[derive(Clone, Debug)]
pub struct ProgramSection {
    pub section_name: String,
    pub symbol_name: String,
    pub code: Vec<u8>,
    pub relocs: Vec<RelocRequest>,
}

#[derive(Clone, Copy, Debug)]
enum Label {
    Block(u32),
    NullFail,
}

/// The opcodes of the jumps this back end emits.
pub open spec fn is_jump(code: u8) -> bool {
    code == 0x05u8 || code == 0x15u8 || code == 0x55u8
}

/// The jump at `k` lands on an instruction of `s`.
pub open spec fn jump_lands(s: Seq<BpfInsn>, k: int) -> bool {
    0 <= k + s[k].off + 1 < s.len()
}

/// Every jump of `s` lands on an instruction of `s`.
pub open spec fn jumps_in_range(s: Seq<BpfInsn>) -> bool {
    forall|k: int| 0 <= k < s.len() && is_jump(#[trigger] s[k].code) ==> jump_lands(s, k)
}

/// `r` points at the first half of a map-address load into `r1`.
pub open spec fn reloc_at(s: Seq<BpfInsn>, r: RelocRequest) -> bool {
    &&& r.insn_byte_off % 8 == 0
    &&& r.insn_byte_off / 8 + 1 < s.len()
    &&& s[(r.insn_byte_off / 8) as int].code == 0x18u8
    &&& s[(r.insn_byte_off / 8) as int].regs == regs_byte(R1, 0)
}

/// The stack frame: one slot per distinct variable and two scratch slots,
/// rounded up to 16 bytes.
pub open spec fn frame_size(blocks: Seq<BasicBlock>) -> nat {
    let raw = 8 * (blocks_ids(blocks, true).to_set().len() + 3);
    (((raw + 15) / 16) * 16) as nat
}

/// The message for a unit whose frame is too large.
pub open spec fn frame_error(size: nat) -> Seq<char> {
    "stack frame too large: "@ + decimal(size) + " bytes (max 512)"@
}

/// `p` is the encoding of `s`: a program that starts by saving the context
/// pointer in `r6`, ends with `r0 = 0; exit`, whose jumps all land inside
/// it and whose relocations each point at a load of a map in `maps`.
pub open spec fn well_formed_section(p: ProgramSection, s: Seq<BpfInsn>, maps: MapsSection) -> bool {
    &&& p.code@ == insns_bytes(s)
    &&& s.len() >= 3
    &&& s[0] == insn_of(0xbfu8, R6, R1, 0, 0)
    &&& s[s.len() - 2] == insn_of(0xb7u8, R0, 0, 0, 0)
    &&& s[s.len() - 1] == insn_of(0x95u8, 0, 0, 0, 0)
    &&& jumps_in_range(s)
    &&& forall|j: int| 0 <= j < p.relocs@.len() ==> reloc_at(s, #[trigger] p.relocs@[j])
        && map_named(maps, p.relocs@[j].map_name@)
}

/// Some map of `maps` is named `name`.
pub open spec fn map_named(maps: MapsSection, name: Seq<char>) -> bool {
    exists|m: int| 0 <= m < maps.records@.len() && maps.records@[m].name@ == name
}

/// What code generation has produced so far, as a value: instructions,
/// relocations, and the jumps still to patch.
struct ObjState {
    insns: Seq<BpfInsn>,
    relocs: Seq<RelocRequest>,
    fixups: Seq<(usize, Label)>,
}

/// Generation so far, or the message of its failure.
type OGen = Result<ObjState, Seq<char>>;

spec fn opush(st: ObjState, i: BpfInsn) -> ObjState {
    ObjState { insns: st.insns.push(i), ..st }
}

/// The first position of `v` among the variables.
spec fn oslot_index(vars: Seq<u32>, v: u32) -> int {
    choose|i: int| 0 <= i < vars.len() && vars[i] == v
}

/// The stack offset of variable `v`.
spec fn oslot(vars: Seq<u32>, v: u32) -> Result<i16, Seq<char>> {
    if vars.contains(v) {
        Ok((-8 * (oslot_index(vars, v) + 1)) as i16)
    } else {
        Err("missing stack slot for v"@ + decimal(v as nat))
    }
}

spec fn st_dw(dst: u8, off: i16, src: u8) -> BpfInsn {
    insn_of(BPF_STX | size_code(Size::Dw) | BPF_MEM, dst, src, off, 0)
}

spec fn ld_dw(dst: u8, src: u8, off: i16) -> BpfInsn {
    insn_of(BPF_LDX | size_code(Size::Dw) | BPF_MEM, dst, src, off, 0)
}

spec fn movi(dst: u8, imm: i32) -> BpfInsn {
    insn_of(BPF_ALU64 | BPF_MOV | BPF_K, dst, 0, 0, imm)
}

spec fn alui(op: u8, dst: u8, imm: i32) -> BpfInsn {
    insn_of(BPF_ALU64 | op | BPF_K, dst, 0, 0, imm)
}

/// Stores `reg` in the slot of `v`.
spec fn ostore(st: ObjState, vars: Seq<u32>, reg: u8, v: u32) -> OGen {
    match oslot(vars, v) {
        Err(m) => Err(m),
        Ok(off) => Ok(opush(st, st_dw(R10, off, reg))),
    }
}

/// Loads the slot of `v` into `dst`.
spec fn oload_var(st: ObjState, vars: Seq<u32>, dst: u8, v: u32) -> OGen {
    match oslot(vars, v) {
        Err(m) => Err(m),
        Ok(off) => Ok(opush(st, ld_dw(dst, R10, off))),
    }
}

/// `dst = r10 + off`.
spec fn olea(st: ObjState, dst: u8, off: i16) -> ObjState {
    opush(opush(st, insn_of(BPF_ALU64 | BPF_MOV | BPF_X, dst, R10, 0, 0)), alui(BPF_ADD, dst, off as i32))
}

/// `dst = imm`, in one instruction when it fits 32 bits, else in two.
spec fn oimm(st: ObjState, dst: u8, imm: i64) -> ObjState {
    if i32::MIN <= imm <= i32::MAX {
        opush(st, movi(dst, imm as i32))
    } else {
        opush(opush(st, insn_of(BPF_LD | BPF_DW | BPF_IMM, dst, 0, 0, imm as i32)), insn_of(0, 0, 0, 0, (imm >> 32u64) as i32))
    }
}

/// Loads an operand into `dst`.
spec fn oload(st: ObjState, vars: Seq<u32>, dst: u8, op: Operand) -> OGen {
    match op {
        Operand::Var(VarId(id)) => oload_var(st, vars, dst, id),
        Operand::Immediate(v) => Ok(oimm(st, dst, v)),
    }
}

/// Puts the address of an operand in `dst`; an immediate goes through the
/// scratch slot `slot`.
spec fn oaddr(st: ObjState, vars: Seq<u32>, dst: u8, op: Operand, slot: i16) -> OGen {
    match op {
        Operand::Var(VarId(id)) => match oslot(vars, id) {
            Err(m) => Err(m),
            Ok(off) => Ok(olea(st, dst, off)),
        },
        Operand::Immediate(v) => Ok(olea(opush(oimm(st, R0, v), st_dw(R10, slot, R0)), dst, slot)),
    }
}

/// A jump to the null-fail block when `reg` is zero.
spec fn oguard(st: ObjState, reg: u8) -> ObjState {
    ObjState {
        insns: st.insns.push(insn_of(BPF_JMP | BPF_JEQ | BPF_K, reg, 0, 0, 0)),
        fixups: st.fixups.push((st.insns.len() as usize, Label::NullFail)),
        ..st
    }
}

/// Some map of `maps` is named `name`.
spec fn known_map(maps: MapsSection, name: Seq<char>) -> bool {
    exists|m: int| 0 <= m < maps.records@.len() && maps.records@[m].name@ == name
}

/// Loads the address of map `name` into `r1`, with its relocation.
spec fn oldimm(st: ObjState, name: String) -> OGen {
    if st.insns.len() >= 0x1000_0000_0000_0000 {
        Err("program too large"@)
    } else {
        Ok(ObjState {
            insns: st.insns.push(insn_of(BPF_LD | BPF_DW | BPF_IMM, R1, 0, 0, 0)).push(insn_of(0, 0, 0, 0, 0)),
            relocs: st.relocs.push(RelocRequest { insn_byte_off: (st.insns.len() * 8) as u64, map_name: name }),
            ..st
        })
    }
}

/// The map checks and the address load every map call starts with.
spec fn omap_start(st: ObjState, maps: MapsSection, name: String) -> OGen {
    if !known_map(maps, name@) {
        Err("unknown map '"@ + name@ + "'"@)
    } else {
        oldimm(st, name)
    }
}

/// The access width of `n` bytes.
spec fn osize(n: int) -> Option<Size> {
    if n == 1 { Some(Size::B) } else if n == 2 { Some(Size::H) } else if n == 4 { Some(Size::W) } else if n == 8 { Some(Size::Dw) } else { None }
}

/// Sign-extends the low 32 bits of `r0`.
spec fn osext(st: ObjState) -> ObjState {
    opush(opush(st, alui(BPF_LSH, R0, 32)), alui(BPF_ARSH, R0, 32))
}

/// A context load of `size` bytes at `offset` into `dst`.
spec fn oload_ctx(st: ObjState, vars: Seq<u32>, dst: u32, rt: Type, offset: i16, size: usize) -> OGen {
    match osize(size as int) {
        None => Err("unsupported LoadCtx size "@ + decimal(size as nat)),
        Some(sz) => {
            let s1 = opush(st, insn_of(BPF_LDX | size_code(sz) | BPF_MEM, R0, R6, offset, 0));
            let s2 = if rt == Type::I32 && size == 4 { osext(s1) } else { s1 };
            ostore(s2, vars, R0, dst)
        },
    }
}

/// The operator bits of an IR operator.
pub open spec fn op_bits(op: BinaryOp) -> u8 {
    match op {
        BinaryOp::Add => BPF_ADD,
        BinaryOp::Sub => BPF_SUB,
        BinaryOp::Mul => BPF_MUL,
        BinaryOp::Div => BPF_DIV,
        BinaryOp::Mod => BPF_MOD,
        BinaryOp::Shl => BPF_LSH,
        BinaryOp::Shr => BPF_RSH,
    }
}

/// The instructions this back end emits for an IR operator make the machine
/// compute that operator: with the immediate or the register as source,
/// run on any operands, they give the IR operator's value.
pub proof fn lemma_obj_alu_meaning(op: BinaryOp)
    ensures
        !alu64_uses_register(BPF_ALU64 | op_bits(op) | BPF_K),
        alu64_uses_register(BPF_ALU64 | op_bits(op) | BPF_X),
        forall|x: u64, y: u64| #[trigger] alu64_exec(BPF_ALU64 | op_bits(op) | BPF_K, x, y) == Some(ir_value(op, x, y)),
        forall|x: u64, y: u64| #[trigger] alu64_exec(BPF_ALU64 | op_bits(op) | BPF_X, x, y) == Some(ir_value(op, x, y)),
{
    lemma_opcode_values();
}

/// `dst = ops[0] op ops[1]`; a divisor that is not a fitting immediate is
/// checked against zero at run time.
spec fn obinary(st: ObjState, vars: Seq<u32>, dst: u32, op: BinaryOp, ops: Seq<Operand>) -> OGen {
    if ops.len() < 2 {
        Err("Binary opcode needs 2 operands"@)
    } else {
        match oload(st, vars, R0, ops[0]) {
            Err(m) => Err(m),
            Ok(s1) => {
                let is_div = op == BinaryOp::Div || op == BinaryOp::Mod;
                let s2: OGen = match ops[1] {
                    Operand::Immediate(v) if i32::MIN <= v <= i32::MAX => if is_div && v == 0 {
                        Err("division/modulo by zero"@)
                    } else {
                        Ok(opush(s1, alui(op_bits(op), R0, v as i32)))
                    },
                    _ => match oload(s1, vars, R1, ops[1]) {
                        Err(m) => Err(m),
                        Ok(t) => {
                            let t2 = if is_div { oguard(t, R1) } else { t };
                            Ok(opush(t2, insn_of(BPF_ALU64 | op_bits(op) | BPF_X, R0, R1, 0, 0)))
                        },
                    },
                };
                match s2 {
                    Err(m) => Err(m),
                    Ok(s3) => ostore(s3, vars, R0, dst),
                }
            },
        }
    }
}

/// `dst = *ptr` with a null check.
spec fn oload_ptr(st: ObjState, vars: Seq<u32>, dst: u32, rt: Type, ptr: Operand) -> OGen {
    match oload(st, vars, R1, ptr) {
        Err(m) => Err(m),
        Ok(s1) => {
            let sz = if rt == Type::U32 || rt == Type::I32 { Size::W } else { Size::Dw };
            let s2 = opush(oguard(s1, R1), insn_of(BPF_LDX | size_code(sz) | BPF_MEM, R0, R1, 0, 0));
            let s3 = if rt == Type::I32 { osext(s2) } else { s2 };
            ostore(s3, vars, R0, dst)
        },
    }
}

/// `*ptr = value` with a null check.
spec fn ostore_ptr(st: ObjState, vars: Seq<u32>, size: usize, ptr: Operand, value: Operand) -> OGen {
    match oload(st, vars, R1, ptr) {
        Err(m) => Err(m),
        Ok(s1) => match oload(oguard(s1, R1), vars, R2, value) {
            Err(m) => Err(m),
            Ok(s2) => match osize(size as int) {
                None => Err("unsupported Store size "@ + decimal(size as nat)),
                Some(sz) => Ok(opush(s2, insn_of(BPF_STX | size_code(sz) | BPF_MEM, R1, R2, 0, 0))),
            },
        },
    }
}

/// Submits the ring-buffer record at `ptr`.
spec fn osubmit(st: ObjState, vars: Seq<u32>, ptr: Operand) -> OGen {
    match oload(st, vars, R1, ptr) {
        Err(m) => Err(m),
        Ok(s1) => Ok(opush(opush(oguard(s1, R1), movi(R2, 0)), insn_of(BPF_JMP | BPF_CALL, 0, 0, 0, 132))),
    }
}

/// `dst = (ptr != 0)`.
spec fn onullbool(st: ObjState, vars: Seq<u32>, dst: u32, ptr: Operand) -> OGen {
    match oload(st, vars, R1, ptr) {
        Err(m) => Err(m),
        Ok(s1) => match oslot(vars, dst) {
            Err(m) => Err(m),
            Ok(off) => Ok(opush(opush(opush(opush(opush(opush(s1,
                movi(R0, 0)),
                insn_of(BPF_JMP | BPF_JNE | BPF_K, R1, 0, 2, 0)),
                st_dw(R10, off, R0)),
                insn_of(BPF_JMP | BPF_JA, 0, 0, 2, 0)),
                movi(R0, 1)),
                st_dw(R10, off, R0))),
        },
    }
}

/// `dst = lookup(map, &key)`.
spec fn olookup(st: ObjState, vars: Seq<u32>, sa: i16, maps: MapsSection, dst: u32, name: String, key: Option<Operand>) -> OGen {
    match omap_start(st, maps, name) {
        Err(m) => Err(m),
        Ok(s1) => match key {
            None => Err("CallMap '"@ + name@ + "' missing key operand"@),
            Some(k) => match oaddr(s1, vars, R2, k, sa) {
                Err(m) => Err(m),
                Ok(s2) => ostore(opush(s2, insn_of(BPF_JMP | BPF_CALL, 0, 0, 0, 1)), vars, R0, dst),
            },
        },
    }
}

/// `update(map, &key, &value, 0)`, the status stored in `dst` when given.
spec fn oupdate(st: ObjState, vars: Seq<u32>, sa: i16, sb: i16, maps: MapsSection, dst: Option<u32>, name: String, key: Operand, value: Operand) -> OGen {
    match omap_start(st, maps, name) {
        Err(m) => Err(m),
        Ok(s1) => match oaddr(s1, vars, R2, key, sa) {
            Err(m) => Err(m),
            Ok(s2) => match oaddr(s2, vars, R3, value, sb) {
                Err(m) => Err(m),
                Ok(s3) => {
                    let s4 = opush(opush(s3, movi(R4, 0)), insn_of(BPF_JMP | BPF_CALL, 0, 0, 0, 2));
                    match dst {
                        Some(v) => ostore(s4, vars, R0, v),
                        None => Ok(s4),
                    }
                },
            },
        },
    }
}

/// `dst = ringbuf_reserve(map, size, 0)`.
spec fn oreserve(st: ObjState, vars: Seq<u32>, maps: MapsSection, dst: u32, name: String, size: i64) -> OGen {
    match omap_start(st, maps, name) {
        Err(m) => Err(m),
        Ok(s1) => ostore(opush(opush(oimm(s1, R2, size), movi(R3, 0)), insn_of(BPF_JMP | BPF_CALL, 0, 0, 0, 131)), vars, R0, dst),
    }
}

/// An unpatched jump to `label`.
spec fn ojump(st: ObjState, i: BpfInsn, label: Label) -> ObjState {
    ObjState { insns: st.insns.push(i), fixups: st.fixups.push((st.insns.len() as usize, label)), ..st }
}

/// The code of a terminator; jumps and branches must name known blocks.
spec fn oterm(st: ObjState, vars: Seq<u32>, block_ids: Seq<u32>, t: Terminator) -> OGen {
    match t {
        Terminator::Return(op) => match oload(st, vars, R0, op) {
            Err(m) => Err(m),
            Ok(s) => Ok(opush(s, insn_of(BPF_JMP | BPF_EXIT, 0, 0, 0, 0))),
        },
        Terminator::Jump(target) => if !block_ids.contains(target.0) {
            Err("invalid jump target "@ + decimal(target.0 as nat))
        } else {
            Ok(ojump(st, insn_of(BPF_JMP | BPF_JA, 0, 0, 0, 0), Label::Block(target.0)))
        },
        Terminator::Branch { condition, true_block, false_block } =>
            if !block_ids.contains(true_block.0) || !block_ids.contains(false_block.0) {
                Err("invalid branch targets"@)
            } else {
                match oload(st, vars, R1, condition) {
                    Err(m) => Err(m),
                    Ok(s) => Ok(ojump(ojump(s, insn_of(BPF_JMP | BPF_JEQ | BPF_K, R1, 0, 0, 0), Label::Block(false_block.0)),
                        insn_of(BPF_JMP | BPF_JA, 0, 0, 0, 0), Label::Block(true_block.0))),
                }
            },
    }
}

/// Where control goes after the two jumps that end a branch, at `k` and
/// `k + 1`, when the condition register holds `v`: the first jump's label
/// when the machine takes it, else the second's.
spec fn obranch_target(s: ObjState, k: int, v: u64) -> Option<Label> {
    let l1 = choose|l: Label| #[trigger] s.fixups.contains((k as usize, l));
    let l2 = choose|l: Label| #[trigger] s.fixups.contains(((k + 1) as usize, l));
    match jmp_imm_taken(s.insns[k].code, v, s.insns[k].imm as u64) {
        Some(true) => Some(l1),
        Some(false) => match jmp_imm_taken(s.insns[k + 1].code, v, s.insns[k + 1].imm as u64) {
            Some(true) => Some(l2),
            _ => None,
        },
        None => None,
    }
}

proof fn lemma_oload_keeps_fixups(st: ObjState, vars: Seq<u32>, dst: u8, op: Operand)
    requires
        oload(st, vars, dst, op) is Ok,
    ensures
        oload(st, vars, dst, op)->Ok_0.fixups == st.fixups,
        oload(st, vars, dst, op)->Ok_0.insns.len() >= st.insns.len(),
        oload(st, vars, dst, op)->Ok_0.insns.len() <= st.insns.len() + 2,
{
}

proof fn lemma_obj_last_two_fixups(old: Seq<(usize, Label)>, n: int, a: Label, b: Label)
    requires
        0 <= n,
        n + 2 <= usize::MAX,
        forall|i: int| 0 <= i < old.len() ==> (#[trigger] old[i]).0 < n,
    ensures
        ({
            let s2 = old.push((n as usize, a)).push(((n + 1) as usize, b));
            &&& s2.contains((n as usize, a))
            &&& s2.contains(((n + 1) as usize, b))
            &&& forall|x: Label| #[trigger] s2.contains((n as usize, x)) ==> x == a
            &&& forall|x: Label| #[trigger] s2.contains(((n + 1) as usize, x)) ==> x == b
        }),
{
    let s2 = old.push((n as usize, a)).push(((n + 1) as usize, b));
    assert(s2[s2.len() - 2] == (n as usize, a));
    assert(s2[s2.len() - 1] == ((n + 1) as usize, b));
    assert forall|x: Label| #[trigger] s2.contains((n as usize, x)) implies x == a by {
        let i = choose|i: int| 0 <= i < s2.len() && s2[i] == (n as usize, x);
        if i < old.len() {
            assert(s2[i] == old[i]);
        }
    }
    assert forall|x: Label| #[trigger] s2.contains(((n + 1) as usize, x)) implies x == b by {
        let i = choose|i: int| 0 <= i < s2.len() && s2[i] == ((n + 1) as usize, x);
        if i < old.len() {
            assert(s2[i] == old[i]);
        }
    }
}

/// A branch to known blocks loads its condition into `r1` and ends in two
/// jumps that take control to the true block exactly when the condition is
/// nonzero and to the false block otherwise.
proof fn lemma_obj_branch_goes_where_the_condition_says(st: ObjState, vars: Seq<u32>, block_ids: Seq<u32>, cond: Operand,
    t: BlockId, f: BlockId)
    requires
        block_ids.contains(t.0),
        block_ids.contains(f.0),
        oload(st, vars, R1, cond) is Ok,
        st.insns.len() + 4 <= usize::MAX,
        forall|i: int| 0 <= i < st.fixups.len() ==> (#[trigger] st.fixups[i]).0 < st.insns.len(),
    ensures
        ({
            let s = oload(st, vars, R1, cond)->Ok_0;
            let k = s.insns.len() as int;
            oterm(st, vars, block_ids, Terminator::Branch { condition: cond, true_block: t, false_block: f }) matches Ok(s2)
                && s2.insns.len() == k + 2
                && forall|v: u64| #[trigger] obranch_target(s2, k, v) == Some(Label::Block(if v != 0 { t.0 } else { f.0 }))
        }),
{
    lemma_opcode_values();
    let s = oload(st, vars, R1, cond)->Ok_0;
    lemma_oload_keeps_fixups(st, vars, R1, cond);
    let k = s.insns.len() as int;
    lemma_obj_last_two_fixups(s.fixups, k, Label::Block(f.0), Label::Block(t.0));
}

/// The instruction's first operand, if any.
spec fn first_op(inst: Instruction) -> Option<Operand> {
    if inst.operands@.len() > 0 { Some(inst.operands@[0]) } else { None }
}

/// The code of one instruction: nothing for an instruction without effect
/// whose result no instruction reads.
spec fn oinst(st: ObjState, vars: Seq<u32>, sa: i16, sb: i16, maps: MapsSection, inst: Instruction) -> OGen {
    let res = inst.result.0;
    let res_used = vars.contains(res);
    let side = inst.opcode is Store || inst.opcode is UpdateMap || inst.opcode is NullCheck || inst.opcode is RingBufSubmit;
    let ops = inst.operands@;
    if !res_used && !side {
        Ok(st)
    } else {
        match inst.opcode {
            Opcode::Binary { op } => obinary(st, vars, res, op, ops),
            Opcode::LoadCtx { offset, size } => oload_ctx(st, vars, res, inst.result_type, offset as i16, size as usize),
            Opcode::LoadPacket { offset, size } => oload_ctx(st, vars, res, inst.result_type, offset as i16, size as usize),
            Opcode::HelperCall { id } => ostore(opush(st, insn_of(BPF_JMP | BPF_CALL, 0, 0, 0, id as i32)), vars, R0, res),
            Opcode::CallMap { map_name } => olookup(st, vars, sa, maps, res, map_name, first_op(inst)),
            Opcode::UpdateMap { map_name } => if ops.len() < 2 {
                Err("UpdateMap requires key and value operands"@)
            } else {
                oupdate(st, vars, sa, sb, maps, if res_used { Some(res) } else { None }, map_name, ops[0], ops[1])
            },
            Opcode::NullCheck => match first_op(inst) {
                None => Err("NullCheck missing operand"@),
                Some(p) => onullbool(st, vars, res, p),
            },
            Opcode::LoadKey => match first_op(inst) {
                None => Err("LoadKey missing operand"@),
                Some(p) => oload_ptr(st, vars, res, inst.result_type, p),
            },
            Opcode::Store { size } => if ops.len() < 2 {
                Err("Store requires ptr and value"@)
            } else {
                ostore_ptr(st, vars, size as usize, ops[0], ops[1])
            },
            Opcode::RingBufReserve { map_name, size } => oreserve(st, vars, maps, res, map_name, size as i64),
            Opcode::RingBufSubmit { .. } => match first_op(inst) {
                None => Err("RingBufSubmit missing pointer operand"@),
                Some(p) => osubmit(st, vars, p),
            },
            Opcode::CopyCtxToMem { .. } => Err("CopyCtxToMem is not supported by the direct object backend"@),
        }
    }
}

/// The position last recorded for block `id`.
spec fn opos(pos: Seq<(u32, usize)>, id: u32) -> Option<usize>
    decreases pos.len(),
{
    if pos.len() == 0 {
        None
    } else if pos.last().0 == id {
        Some(pos.last().1)
    } else {
        opos(pos.drop_last(), id)
    }
}

/// The offset of a jump at `at` that lands on `target`, if it fits.
spec fn ojump_off(at: int, target: int) -> Option<i16> {
    if target > at {
        if target - at - 1 > 32767 { None } else { Some((target - at - 1) as i16) }
    } else {
        if at + 1 - target > 32768 { None } else { Some((target - at - 1) as i16) }
    }
}

/// The instructions with the pending jumps aimed, in the order recorded;
/// null checks land on `null_fail`.
spec fn opatch(insns: Seq<BpfInsn>, fixups: Seq<(usize, Label)>, pos: Seq<(u32, usize)>, null_fail: usize) -> Result<Seq<BpfInsn>, Seq<char>>
    decreases fixups.len(),
{
    if fixups.len() == 0 {
        Ok(insns)
    } else {
        match opatch(insns, fixups.drop_last(), pos, null_fail) {
            Err(m) => Err(m),
            Ok(s) => {
                let (at, label) = fixups.last();
                let target = match label {
                    Label::Block(id) => match opos(pos, id) {
                        Some(p) => Ok(p),
                        None => Err("missing block position for "@ + decimal(id as nat)),
                    },
                    Label::NullFail => Ok(null_fail),
                };
                match target {
                    Err(m) => Err(m),
                    Ok(t) => match ojump_off(at as int, t as int) {
                        None => Err("jump offset out of range"@),
                        Some(off) => Ok(s.update(at as int, BpfInsn { off, ..s[at as int] })),
                    },
                }
            },
        }
    }
}

/// A failure in a prefix of the pending jumps is the failure of all of them.
proof fn lemma_opatch_err_extends(insns: Seq<BpfInsn>, fixups: Seq<(usize, Label)>, k: int, pos: Seq<(u32, usize)>, null_fail: usize)
    requires
        0 <= k <= fixups.len(),
        opatch(insns, fixups.subrange(0, k), pos, null_fail) is Err,
    ensures
        opatch(insns, fixups, pos, null_fail) == opatch(insns, fixups.subrange(0, k), pos, null_fail),
    decreases fixups.len(),
{
    if k < fixups.len() {
        let init = fixups.drop_last();
        assert(init.subrange(0, k) == fixups.subrange(0, k));
        lemma_opatch_err_extends(insns, init, k, pos, null_fail);
    } else {
        assert(fixups.subrange(0, k) == fixups);
    }
}

/// The code of a run of instructions, in order.
spec fn oinsts(st: ObjState, vars: Seq<u32>, sa: i16, sb: i16, maps: MapsSection, insts: Seq<Instruction>) -> OGen
    decreases insts.len(),
{
    if insts.len() == 0 {
        Ok(st)
    } else {
        match oinsts(st, vars, sa, sb, maps, insts.drop_last()) {
            Err(m) => Err(m),
            Ok(s) => oinst(s, vars, sa, sb, maps, insts.last()),
        }
    }
}

/// The layout of a unit's frame: the variables in slot order, the two
/// scratch slots, and the block numbers jumps may name.
struct ObjFrame {
    vars: Seq<u32>,
    sa: i16,
    sb: i16,
    bids: Seq<u32>,
}

/// Code and block positions so far, or the message of the failure.
type OBlocks = Result<(ObjState, Seq<(u32, usize)>), Seq<char>>;

/// The code of one block: its position recorded, its instructions, its terminator.
spec fn oblock(st: ObjState, pos: Seq<(u32, usize)>, f: ObjFrame, maps: MapsSection, b: BasicBlock) -> OBlocks {
    match oinsts(st, f.vars, f.sa, f.sb, maps, b.instructions@) {
        Err(m) => Err(m),
        Ok(s) => match oterm(s, f.vars, f.bids, b.terminator) {
            Err(m) => Err(m),
            Ok(s2) => Ok((s2, pos.push((b.id.0, st.insns.len() as usize)))),
        },
    }
}

/// The code of the blocks, in order.
spec fn oblocks(st: ObjState, pos: Seq<(u32, usize)>, f: ObjFrame, maps: MapsSection, bs: Seq<BasicBlock>) -> OBlocks
    decreases bs.len(),
{
    if bs.len() == 0 {
        Ok((st, pos))
    } else {
        match oblocks(st, pos, f, maps, bs.drop_last()) {
            Err(m) => Err(m),
            Ok((s, p)) => oblock(s, p, f, maps, bs.last()),
        }
    }
}

/// The frame of a unit with these blocks.
spec fn obj_frame(bs: Seq<BasicBlock>) -> ObjFrame {
    let vars = crate::emit::ebpf::model::slot_ids(bs);
    ObjFrame {
        vars,
        sa: (-8 * (vars.len() + 1)) as i16,
        sb: (-8 * (vars.len() + 2)) as i16,
        bids: bs.map_values(|b: BasicBlock| b.id.0),
    }
}

/// The patched code and the relocations of a unit whose frame fits: the
/// context saved in `r6`, the blocks, and the shared block returning 0
/// that null checks and zero divisors jump to.
pub closed spec fn obj_code(bs: Seq<BasicBlock>, maps: MapsSection) -> Result<(Seq<BpfInsn>, Seq<RelocRequest>), Seq<char>> {
    let st0 = ObjState { insns: seq![insn_of(0xbfu8, R6, R1, 0, 0)], relocs: Seq::empty(), fixups: Seq::empty() };
    match oblocks(st0, Seq::empty(), obj_frame(bs), maps, bs) {
        Err(m) => Err(m),
        Ok((s, pos)) => {
            let w = s.insns.push(insn_of(0xb7u8, R0, 0, 0, 0)).push(insn_of(0x95u8, 0, 0, 0, 0));
            match opatch(w, s.fixups, pos, s.insns.len() as usize) {
                Err(m) => Err(m),
                Ok(p) => Ok((p, s.relocs)),
            }
        },
    }
}

/// A failure in a prefix of a run of instructions is the run's failure.
proof fn lemma_oinsts_err_extends(st: ObjState, vars: Seq<u32>, sa: i16, sb: i16, maps: MapsSection, insts: Seq<Instruction>, k: int)
    requires
        0 <= k <= insts.len(),
        oinsts(st, vars, sa, sb, maps, insts.subrange(0, k)) is Err,
    ensures
        oinsts(st, vars, sa, sb, maps, insts) == oinsts(st, vars, sa, sb, maps, insts.subrange(0, k)),
    decreases insts.len(),
{
    if k < insts.len() {
        let init = insts.drop_last();
        assert(init.subrange(0, k) == insts.subrange(0, k));
        lemma_oinsts_err_extends(st, vars, sa, sb, maps, init, k);
    } else {
        assert(insts.subrange(0, k) == insts);
    }
}

/// A failure in a prefix of the blocks is the failure of all of them.
proof fn lemma_oblocks_err_extends(st: ObjState, pos: Seq<(u32, usize)>, f: ObjFrame, maps: MapsSection, bs: Seq<BasicBlock>, k: int)
    requires
        0 <= k <= bs.len(),
        oblocks(st, pos, f, maps, bs.subrange(0, k)) is Err,
    ensures
        oblocks(st, pos, f, maps, bs) == oblocks(st, pos, f, maps, bs.subrange(0, k)),
    decreases bs.len(),
{
    if k < bs.len() {
        let init = bs.drop_last();
        assert(init.subrange(0, k) == bs.subrange(0, k));
        lemma_oblocks_err_extends(st, pos, f, maps, init, k);
    } else {
        assert(bs.subrange(0, k) == bs);
    }
}

/// `r` and the generator after it are what `g` says, a failure by its message.
spec fn oas(g: OGen, r: Result<(), String>, after: ObjState) -> bool {
    match g {
        Ok(st) => r is Ok && after == st,
        Err(m) => r matches Err(e) && e@ == m,
    }
}

struct Codegen {
    insns: Vec<BpfInsn>,
    relocs: Vec<RelocRequest>,
    /// Distinct variables in increasing order; `vars[i]` lives at
    /// `r10 - 8 * (i + 1)`.
    vars: Vec<u32>,
    scratch_a: i16,
    scratch_b: i16,
    block_pos: Vec<(u32, usize)>,
    fixups: Vec<(usize, Label)>,
    block_ids: Vec<u32>,
}

spec fn has_fixup(f: Seq<(usize, Label)>, k: int) -> bool {
    exists|j: int| 0 <= j < f.len() && (#[trigger] f[j]).0 == k
}

/// The jump at `k` lands on an instruction of `s` or just after its end.
spec fn lands_le(s: Seq<BpfInsn>, k: int) -> bool {
    0 <= k + s[k].off + 1 <= s.len()
}

spec fn plain_ext(a: Seq<BpfInsn>, b: Seq<BpfInsn>) -> bool {
    &&& a.len() <= b.len()
    &&& b.subrange(0, a.len() as int) == a
    &&& forall|k: int| a.len() <= k < b.len() ==> !is_jump(#[trigger] b[k].code)
}

spec fn ext_ok(a: Seq<BpfInsn>, b: Seq<BpfInsn>) -> bool {
    &&& a.len() <= b.len()
    &&& b.subrange(0, a.len() as int) == a
    &&& forall|k: int| a.len() <= k < b.len() && is_jump(#[trigger] b[k].code) ==> lands_le(b, k)
}

proof fn lemma_plain_trans(a: Seq<BpfInsn>, b: Seq<BpfInsn>, c: Seq<BpfInsn>)
    requires
        plain_ext(a, b),
        plain_ext(b, c),
    ensures
        plain_ext(a, c),
{
    assert(c.subrange(0, a.len() as int) =~= b.subrange(0, a.len() as int));
    assert forall|k: int| a.len() <= k < c.len() implies !is_jump(#[trigger] c[k].code) by {
        if k < b.len() {
            assert(c[k] == b[k]);
        }
    }
}

proof fn lemma_plain_push(a: Seq<BpfInsn>, i: BpfInsn)
    requires
        !is_jump(i.code),
    ensures
        plain_ext(a, a.push(i)),
{
    assert(a.push(i).subrange(0, a.len() as int) =~= a);
}

impl Codegen {
    spec fn frame(&self) -> ObjFrame {
        ObjFrame { vars: self.vars@, sa: self.scratch_a, sb: self.scratch_b, bids: self.block_ids@ }
    }

    spec fn ostate(&self) -> ObjState {
        ObjState { insns: self.insns@, relocs: self.relocs@, fixups: self.fixups@ }
    }

    spec fn frame_ok(&self) -> bool {
        &&& strictly_sorted(self.vars@)
        &&& self.vars@.len() <= 61
        &&& self.scratch_a == -8 * (self.vars@.len() + 1)
        &&& self.scratch_b == -8 * (self.vars@.len() + 2)
    }

    spec fn inv(&self) -> bool {
        &&& self.frame_ok()
        &&& forall|k: int| 0 <= k < self.insns@.len() && is_jump(#[trigger] self.insns@[k].code)
            ==> has_fixup(self.fixups@, k) || lands_le(self.insns@, k)
        &&& forall|j: int| 0 <= j < self.fixups@.len() ==> (#[trigger] self.fixups@[j]).0 < self.insns@.len()
            && is_jump(self.insns@[self.fixups@[j].0 as int].code)
        &&& forall|j: int| 0 <= j < self.relocs@.len() ==> reloc_at(self.insns@, #[trigger] self.relocs@[j])
    }

    /// Same tables: everything but the instructions.
    spec fn same_tables(&self, o: &Codegen) -> bool {
        &&& self.relocs@ == o.relocs@
        &&& self.vars@ == o.vars@
        &&& self.scratch_a == o.scratch_a
        &&& self.scratch_b == o.scratch_b
        &&& self.block_pos@ == o.block_pos@
        &&& self.fixups@ == o.fixups@
        &&& self.block_ids@ == o.block_ids@
    }

    fn emit(&mut self, insn: BpfInsn)
        requires
            !is_jump(insn.code),
        ensures
            final(self).insns@ == old(self).insns@.push(insn),
            final(self).same_tables(old(self)),
            plain_ext(old(self).insns@, final(self).insns@),
    {
        self.insns.push(insn);
        proof { lemma_plain_push(old(self).insns@, insn); }
    }

    fn slot_of(&self, var: u32) -> (r: Result<i16, String>)
        requires
            self.frame_ok(),
        ensures
            match oslot(self.vars@, var) {
                Ok(o) => r == Ok::<i16, String>(o),
                Err(m) => r matches Err(e) && e@ == m,
            },
    {
        match index_of_u32(&self.vars, var) {
            Some(idx) => {
                proof {
                    let i = oslot_index(self.vars@, var);
                    assert(self.vars@.contains(var));
                    assert(0 <= i < self.vars@.len() && self.vars@[i] == var);
                    if i < idx {
                        assert(self.vars@[i] < self.vars@[idx as int]);
                    } else if i > idx {
                        assert(self.vars@[idx as int] < self.vars@[i]);
                    }
                }
                Ok(-8 * (idx as i16 + 1))
            },
            None => {
                let mut s = owned("missing stack slot for v");
                push_decimal(&mut s, var as u64);
                assert(!self.vars@.contains(var));
                Err(s)
            },
        }
    }

    fn store_reg_to_var(&mut self, reg: u8, var: u32) -> (r: Result<(), String>)
        requires
            old(self).frame_ok(),
        ensures
            oas(ostore(old(self).ostate(), old(self).vars@, reg, var), r, final(self).ostate()),
            r is Ok ==> final(self).insns@.len() == old(self).insns@.len() + 1
                && plain_ext(old(self).insns@, final(self).insns@) && final(self).same_tables(old(self)),
    {
        let off = self.slot_of(var)?;
        proof { lemma_opcode_values(); }
        self.emit(stx_mem(Size::Dw, R10, off, reg));
        Ok(())
    }

    fn load_var(&mut self, dst: u8, var: u32) -> (r: Result<(), String>)
        requires
            old(self).frame_ok(),
        ensures
            oas(oload_var(old(self).ostate(), old(self).vars@, dst, var), r, final(self).ostate()),
            r is Ok ==> plain_ext(old(self).insns@, final(self).insns@) && final(self).same_tables(old(self)),
    {
        let off = self.slot_of(var)?;
        proof { lemma_opcode_values(); }
        self.emit(ldx_mem(Size::Dw, dst, R10, off));
        Ok(())
    }

    fn lea_stack(&mut self, dst: u8, off: i16)
        ensures
            final(self).ostate() == olea(old(self).ostate(), dst, off),
            plain_ext(old(self).insns@, final(self).insns@) && final(self).same_tables(old(self)),
    {
        proof { lemma_opcode_values(); }
        self.emit(mov64_reg(dst, R10));
        let ghost mid = self.insns@;
        self.emit(alu64_imm(BPF_ADD, dst, off as i32));
        proof { lemma_plain_trans(old(self).insns@, mid, self.insns@); }
    }

    fn load_imm64(&mut self, dst: u8, imm: i64)
        ensures
            final(self).ostate() == oimm(old(self).ostate(), dst, imm),
            plain_ext(old(self).insns@, final(self).insns@) && final(self).same_tables(old(self)),
    {
        proof { lemma_opcode_values(); }
        if fits_i32(imm) {
            self.emit(mov64_imm(dst, imm as i32));
        } else {
            let pair = ld_imm64(dst, imm);
            self.emit(pair[0]);
            let ghost mid = self.insns@;
            self.emit(pair[1]);
            proof { lemma_plain_trans(old(self).insns@, mid, self.insns@); }
        }
    }

    fn load_operand(&mut self, dst: u8, op: &Operand) -> (r: Result<(), String>)
        requires
            old(self).frame_ok(),
        ensures
            oas(oload(old(self).ostate(), old(self).vars@, dst, *op), r, final(self).ostate()),
            r is Ok ==> plain_ext(old(self).insns@, final(self).insns@) && final(self).same_tables(old(self)),
    {
        match op {
            Operand::Var(VarId(id)) => self.load_var(dst, *id),
            Operand::Immediate(v) => {
                self.load_imm64(dst, *v);
                Ok(())
            },
        }
    }

    fn operand_addr(&mut self, dst: u8, op: &Operand, scratch_slot: i16) -> (r: Result<(), String>)
        requires
            old(self).frame_ok(),
        ensures
            oas(oaddr(old(self).ostate(), old(self).vars@, dst, *op, scratch_slot), r, final(self).ostate()),
            r is Ok ==> plain_ext(old(self).insns@, final(self).insns@) && final(self).same_tables(old(self)),
    {
        match op {
            Operand::Var(VarId(id)) => {
                let off = self.slot_of(*id)?;
                self.lea_stack(dst, off);
                Ok(())
            },
            Operand::Immediate(v) => {
                self.load_imm64(R0, *v);
                let ghost s1 = self.insns@;
                proof { lemma_opcode_values(); }
                self.emit(stx_mem(Size::Dw, R10, scratch_slot, R0));
                let ghost s2 = self.insns@;
                self.lea_stack(dst, scratch_slot);
                proof {
                    lemma_plain_trans(old(self).insns@, s1, s2);
                    lemma_plain_trans(old(self).insns@, s2, self.insns@);
                }
                Ok(())
            },
        }
    }

    /// A jump to the null-fail block when `reg` is zero.
    fn emit_null_guard_reg(&mut self, reg: u8)
        ensures
            final(self).ostate() == oguard(old(self).ostate(), reg),
            final(self).insns@.len() == old(self).insns@.len() + 1,
            final(self).insns@.subrange(0, old(self).insns@.len() as int) == old(self).insns@,
            is_jump(final(self).insns@.last().code),
            final(self).fixups@ == old(self).fixups@.push((old(self).insns.len(), Label::NullFail)),
            final(self).relocs@ == old(self).relocs@,
            final(self).vars@ == old(self).vars@,
            final(self).scratch_a == old(self).scratch_a,
            final(self).scratch_b == old(self).scratch_b,
            final(self).block_pos@ == old(self).block_pos@,
            final(self).block_ids@ == old(self).block_ids@,
    {
        proof { lemma_opcode_values(); }
        let at = self.insns.len();
        self.insns.push(jmp_imm(BPF_JEQ, reg, 0, 0));
        self.fixups.push((at, Label::NullFail));
        assert(self.insns@.subrange(0, old(self).insns@.len() as int) =~= old(self).insns@);
    }

    fn require_map(&self, maps: &MapsSection, name: &String) -> (r: Result<(), String>)
        ensures
            r is Ok <==> exists|m: int| 0 <= m < maps.records@.len() && maps.records@[m].name@ == name@,
            r matches Err(e) ==> e@ == "unknown map '"@ + name@ + "'"@,
    {
        match maps.index_of(name.as_str()) {
            Some(_) => Ok(()),
            None => Err(concat3("unknown map '", name.as_str(), "'")),
        }
    }

    /// Loads the address of map `name` into `r1` through a relocation.
    fn emit_map_ldimm(&mut self, name: &String) -> (r: Result<(), String>)
        ensures
            oas(oldimm(old(self).ostate(), *name), r, final(self).ostate()),
            r is Ok ==> {
                &&& plain_ext(old(self).insns@, final(self).insns@)
                &&& old(self).insns@.len() < 0x1000_0000_0000_0000
                &&& final(self).insns@.len() == old(self).insns@.len() + 2
                &&& final(self).insns@[old(self).insns@.len() as int].code == 0x18u8
                &&& final(self).insns@[old(self).insns@.len() as int].regs == regs_byte(R1, 0)
                &&& final(self).relocs@ == old(self).relocs@.push(RelocRequest {
                    insn_byte_off: (old(self).insns@.len() * 8) as u64,
                    map_name: *name,
                })
                &&& final(self).vars@ == old(self).vars@
                &&& final(self).scratch_a == old(self).scratch_a
                &&& final(self).scratch_b == old(self).scratch_b
                &&& final(self).block_pos@ == old(self).block_pos@
                &&& final(self).fixups@ == old(self).fixups@
                &&& final(self).block_ids@ == old(self).block_ids@
            },
    {
        if self.insns.len() as u64 >= 0x1000_0000_0000_0000u64 {
            return Err(owned("program too large"));
        }
        proof { lemma_opcode_values(); }
        let insn_idx = self.insns.len();
        let pair = ld_imm64(R1, 0);
        assert((0i64 >> 32u64) == 0i64) by (bit_vector);
        self.emit(pair[0]);
        let ghost mid = self.insns@;
        self.emit(pair[1]);
        proof { lemma_plain_trans(old(self).insns@, mid, self.insns@); }
        self.relocs.push(RelocRequest { insn_byte_off: (insn_idx as u64) * 8, map_name: name.clone() });
        Ok(())
    }
}

proof fn lemma_inv_ext(a: &Codegen, b: &Codegen)
    requires
        a.inv(),
        b.frame_ok(),
        ext_ok(a.insns@, b.insns@),
        b.fixups@ == a.fixups@,
        forall|j: int| 0 <= j < b.relocs@.len() ==> reloc_at(b.insns@, #[trigger] b.relocs@[j]),
    ensures
        b.inv(),
{
    assert forall|k: int| 0 <= k < b.insns@.len() && is_jump(#[trigger] b.insns@[k].code)
        implies has_fixup(b.fixups@, k) || lands_le(b.insns@, k) by {
        if k < a.insns@.len() {
            assert(b.insns@[k] == a.insns@[k]);
        }
    }
    assert forall|j: int| 0 <= j < b.fixups@.len() implies (#[trigger] b.fixups@[j]).0 < b.insns@.len()
        && is_jump(b.insns@[b.fixups@[j].0 as int].code) by {
        assert(b.insns@[a.fixups@[j].0 as int] == a.insns@[a.fixups@[j].0 as int]);
    }
}

proof fn lemma_relocs_grow(a: Seq<BpfInsn>, b: Seq<BpfInsn>, r: Seq<RelocRequest>)
    requires
        forall|j: int| 0 <= j < r.len() ==> reloc_at(a, #[trigger] r[j]),
        a.len() <= b.len(),
        b.subrange(0, a.len() as int) == a,
    ensures
        forall|j: int| 0 <= j < r.len() ==> reloc_at(b, #[trigger] r[j]),
{
    assert forall|j: int| 0 <= j < r.len() implies reloc_at(b, #[trigger] r[j]) by {
        assert(reloc_at(a, r[j]));
        assert(b[(r[j].insn_byte_off / 8) as int] == b.subrange(0, a.len() as int)[(r[j].insn_byte_off / 8) as int]);
    }
}

proof fn lemma_plain_inv(a: &Codegen, b: &Codegen)
    requires
        a.inv(),
        plain_ext(a.insns@, b.insns@),
        b.same_tables(a),
    ensures
        b.inv(),
{
    lemma_relocs_grow(a.insns@, b.insns@, a.relocs@);
    lemma_inv_ext(a, b);
}

/// `b` extends `a`: more instructions, more pending jumps, the same frame,
/// blocks and relocations, and the invariant kept.
spec fn step(a: &Codegen, b: &Codegen) -> bool {
    &&& b.inv()
    &&& a.insns@.len() <= b.insns@.len()
    &&& b.insns@.subrange(0, a.insns@.len() as int) == a.insns@
    &&& b.vars@ == a.vars@
    &&& b.scratch_a == a.scratch_a
    &&& b.scratch_b == a.scratch_b
    &&& b.block_pos@ == a.block_pos@
    &&& b.block_ids@ == a.block_ids@
    &&& a.fixups@.len() <= b.fixups@.len()
    &&& b.fixups@.subrange(0, a.fixups@.len() as int) == a.fixups@
    &&& b.relocs@ == a.relocs@
}

/// Like `step`, with one new relocation, against the map `name`.
spec fn map_step(a: &Codegen, b: &Codegen, name: Seq<char>) -> bool {
    &&& b.inv()
    &&& a.insns@.len() <= b.insns@.len()
    &&& b.insns@.subrange(0, a.insns@.len() as int) == a.insns@
    &&& b.vars@ == a.vars@
    &&& b.scratch_a == a.scratch_a
    &&& b.scratch_b == a.scratch_b
    &&& b.block_pos@ == a.block_pos@
    &&& b.block_ids@ == a.block_ids@
    &&& a.fixups@.len() <= b.fixups@.len()
    &&& b.fixups@.subrange(0, a.fixups@.len() as int) == a.fixups@
    &&& b.relocs@.len() == a.relocs@.len() + 1
    &&& b.relocs@.subrange(0, a.relocs@.len() as int) == a.relocs@
    &&& b.relocs@.last().map_name@ == name
}

proof fn lemma_step_refl(a: &Codegen)
    requires
        a.inv(),
    ensures
        step(a, a),
{
    assert(a.insns@.subrange(0, a.insns@.len() as int) =~= a.insns@);
    assert(a.fixups@.subrange(0, a.fixups@.len() as int) =~= a.fixups@);
}

proof fn lemma_step_trans(a: &Codegen, b: &Codegen, c: &Codegen)
    requires
        step(a, b),
        step(b, c),
    ensures
        step(a, c),
{
    assert(c.insns@.subrange(0, a.insns@.len() as int) =~= b.insns@.subrange(0, a.insns@.len() as int));
    assert(c.fixups@.subrange(0, a.fixups@.len() as int) =~= b.fixups@.subrange(0, a.fixups@.len() as int));
}

proof fn lemma_plain_step(a: &Codegen, b: &Codegen)
    requires
        a.inv(),
        plain_ext(a.insns@, b.insns@),
        b.same_tables(a),
    ensures
        step(a, b),
{
    lemma_plain_inv(a, b);
    assert(b.fixups@.subrange(0, a.fixups@.len() as int) =~= a.fixups@);
}

proof fn lemma_guard_step(a: &Codegen, b: &Codegen)
    requires
        a.inv(),
        b.insns@.len() == a.insns@.len() + 1,
        b.insns@.subrange(0, a.insns@.len() as int) == a.insns@,
        is_jump(b.insns@.last().code),
        b.fixups@ == a.fixups@.push((a.insns.len(), Label::NullFail)),
        b.relocs@ == a.relocs@,
        b.vars@ == a.vars@,
        b.scratch_a == a.scratch_a,
        b.scratch_b == a.scratch_b,
        b.block_pos@ == a.block_pos@,
        b.block_ids@ == a.block_ids@,
    ensures
        step(a, b),
{
    let n = a.insns@.len() as int;
    assert(b.fixups@[a.fixups@.len() as int].0 == n);
    assert forall|k: int| 0 <= k < b.insns@.len() && is_jump(#[trigger] b.insns@[k].code)
        implies has_fixup(b.fixups@, k) || lands_le(b.insns@, k) by {
        if k < n {
            assert(b.insns@[k] == a.insns@[k]);
            if has_fixup(a.fixups@, k) {
                let j = choose|j: int| 0 <= j < a.fixups@.len() && (#[trigger] a.fixups@[j]).0 == k;
                assert(b.fixups@[j] == a.fixups@[j]);
            }
        }
    }
    assert forall|j: int| 0 <= j < b.fixups@.len() implies (#[trigger] b.fixups@[j]).0 < b.insns@.len()
        && is_jump(b.insns@[b.fixups@[j].0 as int].code) by {
        if j < a.fixups@.len() {
            assert(b.fixups@[j] == a.fixups@[j]);
            assert(b.insns@[a.fixups@[j].0 as int] == a.insns@[a.fixups@[j].0 as int]);
        }
    }
    lemma_relocs_grow(a.insns@, b.insns@, a.relocs@);
    assert(b.fixups@.subrange(0, a.fixups@.len() as int) =~= a.fixups@);
}

impl Codegen {
    fn emit_load_ctx(&mut self, dst_var: u32, result_type: Type, offset: i16, size: usize) -> (r: Result<(), String>)
        requires
            old(self).inv(),
        ensures
            oas(oload_ctx(old(self).ostate(), old(self).vars@, dst_var, result_type, offset, size), r, final(self).ostate()),
            r is Ok ==> step(old(self), final(self)),
    {
        let sz = if size == 1 {
            Size::B
        } else if size == 2 {
            Size::H
        } else if size == 4 {
            Size::W
        } else if size == 8 {
            Size::Dw
        } else {
            let mut s = owned("unsupported LoadCtx size ");
            push_decimal(&mut s, size as u64);
            return Err(s);
        };
        proof { lemma_opcode_values(); }
        self.emit(ldx_mem(sz, R0, R6, offset));
        let is_i32 = match result_type { Type::I32 => true, _ => false };
        if is_i32 && size == 4 {
            let ghost m = self.insns@;
            self.emit(alu64_imm(BPF_LSH, R0, 32));
            let ghost m2 = self.insns@;
            self.emit(alu64_imm(BPF_ARSH, R0, 32));
            proof {
                lemma_plain_trans(old(self).insns@, m, m2);
                lemma_plain_trans(old(self).insns@, m2, self.insns@);
            }
        }
        let ghost m3 = self.insns@;
        self.store_reg_to_var(R0, dst_var)?;
        proof {
            lemma_plain_trans(old(self).insns@, m3, self.insns@);
            lemma_plain_step(old(self), self);
        }
        Ok(())
    }

    fn emit_binary(&mut self, dst_var: u32, op: BinaryOp, operands: &Vec<Operand>) -> (r: Result<(), String>)
        requires
            old(self).inv(),
        ensures
            oas(obinary(old(self).ostate(), old(self).vars@, dst_var, op, operands@), r, final(self).ostate()),
            r is Ok ==> step(old(self), final(self)),
    {
        if operands.len() < 2 {
            return Err(owned("Binary opcode needs 2 operands"));
        }
        self.load_operand(R0, &operands[0])?;
        proof { lemma_plain_step(old(self), self); }
        let ghost c1 = *self;
        let op_bits = match op {
            BinaryOp::Add => BPF_ADD,
            BinaryOp::Sub => BPF_SUB,
            BinaryOp::Mul => BPF_MUL,
            BinaryOp::Div => BPF_DIV,
            BinaryOp::Mod => BPF_MOD,
            BinaryOp::Shl => BPF_LSH,
            BinaryOp::Shr => BPF_RSH,
        };
        let is_div = match op { BinaryOp::Div | BinaryOp::Mod => true, _ => false };
        proof { lemma_opcode_values(); }
        let imm_fits = match &operands[1] {
            Operand::Immediate(v) => fits_i32(*v),
            Operand::Var(_) => false,
        };
        if imm_fits {
            let v = match &operands[1] { Operand::Immediate(v) => *v, Operand::Var(_) => 0 };
            if is_div && v == 0 {
                return Err(owned("division/modulo by zero"));
            }
            self.emit(alu64_imm(op_bits, R0, v as i32));
            proof { lemma_plain_step(&c1, self); lemma_step_trans(old(self), &c1, self); }
        } else {
            self.load_operand(R1, &operands[1])?;
            proof { lemma_plain_step(&c1, self); lemma_step_trans(old(self), &c1, self); }
            if is_div {
                let ghost c2 = *self;
                self.emit_null_guard_reg(R1);
                proof { lemma_guard_step(&c2, self); lemma_step_trans(old(self), &c2, self); }
            }
            let ghost c3 = *self;
            self.emit(alu64_reg(op_bits, R0, R1));
            proof { lemma_plain_step(&c3, self); lemma_step_trans(old(self), &c3, self); }
        }
        let ghost c4 = *self;
        self.store_reg_to_var(R0, dst_var)?;
        proof { lemma_plain_step(&c4, self); lemma_step_trans(old(self), &c4, self); }
        Ok(())
    }

    fn emit_load_from_ptr(&mut self, dst_var: u32, result_type: Type, ptr: &Operand) -> (r: Result<(), String>)
        requires
            old(self).inv(),
        ensures
            oas(oload_ptr(old(self).ostate(), old(self).vars@, dst_var, result_type, *ptr), r, final(self).ostate()),
            r is Ok ==> step(old(self), final(self)),
    {
        self.load_operand(R1, ptr)?;
        proof { lemma_plain_step(old(self), self); }
        let ghost c1 = *self;
        self.emit_null_guard_reg(R1);
        proof { lemma_guard_step(&c1, self); lemma_step_trans(old(self), &c1, self); }
        let ghost c2 = *self;
        let size = match result_type {
            Type::U32 | Type::I32 => Size::W,
            Type::U64 | Type::I64 => Size::Dw,
        };
        proof { lemma_opcode_values(); }
        self.emit(ldx_mem(size, R0, R1, 0));
        let is_i32 = match result_type { Type::I32 => true, _ => false };
        if is_i32 {
            let ghost m = self.insns@;
            self.emit(alu64_imm(BPF_LSH, R0, 32));
            let ghost m2 = self.insns@;
            self.emit(alu64_imm(BPF_ARSH, R0, 32));
            proof {
                lemma_plain_trans(c2.insns@, m, m2);
                lemma_plain_trans(c2.insns@, m2, self.insns@);
            }
        }
        let ghost m3 = self.insns@;
        self.store_reg_to_var(R0, dst_var)?;
        proof {
            lemma_plain_trans(c2.insns@, m3, self.insns@);
            lemma_plain_step(&c2, self);
            lemma_step_trans(old(self), &c2, self);
        }
        Ok(())
    }

    fn emit_store_to_ptr(&mut self, size: usize, ptr: &Operand, value: &Operand) -> (r: Result<(), String>)
        requires
            old(self).inv(),
        ensures
            oas(ostore_ptr(old(self).ostate(), old(self).vars@, size, *ptr, *value), r, final(self).ostate()),
            r is Ok ==> step(old(self), final(self)),
    {
        self.load_operand(R1, ptr)?;
        proof { lemma_plain_step(old(self), self); }
        let ghost c1 = *self;
        self.emit_null_guard_reg(R1);
        proof { lemma_guard_step(&c1, self); lemma_step_trans(old(self), &c1, self); }
        let ghost c2 = *self;
        self.load_operand(R2, value)?;
        proof { lemma_plain_step(&c2, self); lemma_step_trans(old(self), &c2, self); }
        let sz = if size == 1 {
            Size::B
        } else if size == 2 {
            Size::H
        } else if size == 4 {
            Size::W
        } else if size == 8 {
            Size::Dw
        } else {
            let mut s = owned("unsupported Store size ");
            push_decimal(&mut s, size as u64);
            return Err(s);
        };
        let ghost c3 = *self;
        proof { lemma_opcode_values(); }
        self.emit(stx_mem(sz, R1, 0, R2));
        proof { lemma_plain_step(&c3, self); lemma_step_trans(old(self), &c3, self); }
        Ok(())
    }

    fn emit_ringbuf_submit(&mut self, ptr: &Operand) -> (r: Result<(), String>)
        requires
            old(self).inv(),
        ensures
            oas(osubmit(old(self).ostate(), old(self).vars@, *ptr), r, final(self).ostate()),
            r is Ok ==> step(old(self), final(self)),
    {
        self.load_operand(R1, ptr)?;
        proof { lemma_plain_step(old(self), self); }
        let ghost c1 = *self;
        self.emit_null_guard_reg(R1);
        proof { lemma_guard_step(&c1, self); lemma_step_trans(old(self), &c1, self); }
        let ghost c2 = *self;
        proof { lemma_opcode_values(); }
        self.emit(mov64_imm(R2, 0));
        let ghost m = self.insns@;
        self.emit(call(132));
        proof {
            lemma_plain_trans(c2.insns@, m, self.insns@);
            lemma_plain_step(&c2, self);
            lemma_step_trans(old(self), &c2, self);
        }
        Ok(())
    }

    /// `dst = (ptr != 0)`.
    fn emit_nullcheck_to_bool(&mut self, dst_var: u32, ptr: &Operand) -> (r: Result<(), String>)
        requires
            old(self).inv(),
        ensures
            oas(onullbool(old(self).ostate(), old(self).vars@, dst_var, *ptr), r, final(self).ostate()),
            r is Ok ==> step(old(self), final(self)),
    {
        self.load_operand(R1, ptr)?;
        proof { lemma_plain_step(old(self), self); }
        let ghost c1 = *self;
        proof { lemma_opcode_values(); }
        self.emit(mov64_imm(R0, 0));
        let jne_set1 = self.insns.len();
        self.insns.push(jmp_imm(BPF_JNE, R1, 0, 0));
        let ghost m1 = self.insns@;
        self.store_reg_to_var(R0, dst_var)?;
        let ghost m1b = self.insns@;
        let ja_done = self.insns.len();
        self.insns.push(ja(0));
        let set1_pos = self.insns.len();
        self.emit(mov64_imm(R0, 1));
        let ghost m2 = self.insns@;
        self.store_reg_to_var(R0, dst_var)?;
        let ghost pre_set = self.insns@;
        let done_pos = self.insns.len();
        assert(jne_set1 + 3 == set1_pos && set1_pos + 2 == done_pos && ja_done + 1 == set1_pos);
        let mut a = self.insns[jne_set1];
        a.off = (set1_pos - jne_set1 - 1) as i16;
        self.insns.set(jne_set1, a);
        let mut b = self.insns[ja_done];
        b.off = (done_pos - ja_done - 1) as i16;
        self.insns.set(ja_done, b);
        proof {
            let n1 = c1.insns@.len() as int;
            assert(m1.len() == n1 + 2);
            assert(m1b.len() == n1 + 3);
            assert(m2.len() == n1 + 5);
            assert(pre_set.len() == n1 + 6);
            assert(self.insns@ == pre_set.update(n1 + 1, a).update(n1 + 3, b));
            assert forall|j: int| 0 <= j < n1 implies #[trigger] self.insns@[j] == c1.insns@[j] by {
                assert(pre_set[j] == m2[j]);
                assert(m2[j] == m1b[j]);
                assert(m1b[j] == m1[j]);
            }
            assert(self.insns@.subrange(0, n1) =~= c1.insns@);
            assert forall|k: int| n1 <= k < self.insns@.len() && is_jump(#[trigger] self.insns@[k].code)
                implies lands_le(self.insns@, k) by {
                if k == n1 {
                    assert(self.insns@[k] == pre_set[k]);
                    assert(pre_set[k] == m2[k]);
                    assert(m2[k] == m1b[k]);
                    assert(m1b[k] == m1[k]);
                } else if k == n1 + 2 {
                    assert(self.insns@[k] == pre_set[k]);
                    assert(pre_set[k] == m2[k]);
                    assert(m2[k] == m1b[k]);
                } else if k == n1 + 4 {
                    assert(self.insns@[k] == pre_set[k]);
                    assert(pre_set[k] == m2[k]);
                } else if k == n1 + 5 {
                    assert(self.insns@[k] == pre_set[k]);
                }
            }
            assert(ext_ok(c1.insns@, self.insns@));
            lemma_relocs_grow(c1.insns@, self.insns@, self.relocs@);
            lemma_inv_ext(&c1, self);
            assert(self.fixups@.subrange(0, c1.fixups@.len() as int) =~= c1.fixups@);
            lemma_step_trans(old(self), &c1, self);
            let off = oslot(c1.vars@, dst_var)->Ok_0;
            let want = c1.insns@.push(movi(R0, 0)).push(insn_of(BPF_JMP | BPF_JNE | BPF_K, R1, 0, 2, 0))
                .push(st_dw(R10, off, R0)).push(insn_of(BPF_JMP | BPF_JA, 0, 0, 2, 0)).push(movi(R0, 1))
                .push(st_dw(R10, off, R0));
            assert forall|k: int| 0 <= k < want.len() implies #[trigger] self.insns@[k] == want[k] by {
                if k < n1 {
                } else if k == n1 {
                    assert(self.insns@[k] == pre_set[k]);
                    assert(pre_set[k] == m2[k]);
                    assert(m2[k] == m1b[k]);
                    assert(m1b[k] == m1[k]);
                } else if k == n1 + 1 {
                } else if k == n1 + 2 {
                    assert(self.insns@[k] == pre_set[k]);
                    assert(pre_set[k] == m2[k]);
                    assert(m2[k] == m1b[k]);
                } else if k == n1 + 3 {
                } else if k == n1 + 4 {
                    assert(self.insns@[k] == pre_set[k]);
                    assert(pre_set[k] == m2[k]);
                } else {
                    assert(self.insns@[k] == pre_set[k]);
                }
            }
            assert(self.insns@ =~= want);
        }
        Ok(())
    }

    fn emit_map_lookup(&mut self, maps: &MapsSection, dst_var: u32, map_name: &String, key: Option<&Operand>) -> (r: Result<(), String>)
        requires
            old(self).inv(),
        ensures
            oas(olookup(old(self).ostate(), old(self).vars@, old(self).scratch_a, *maps, dst_var, *map_name, match key { Some(k) => Some(*k), None => None }), r, final(self).ostate()),
            r is Ok ==> map_step(old(self), final(self), map_name@)
                && exists|m: int| 0 <= m < maps.records@.len() && maps.records@[m].name@ == map_name@,
    {
        self.require_map(maps, map_name)?;
        self.emit_map_ldimm(map_name)?;
        let ghost c1 = *self;
        let key_op = match key {
            Some(k) => k,
            None => return Err(concat3("CallMap '", map_name.as_str(), "' missing key operand")),
        };
        let sa = self.scratch_a;
        self.operand_addr(R2, key_op, sa)?;
        let ghost m1 = self.insns@;
        proof { lemma_opcode_values(); }
        self.emit(call(1));
        let ghost m2 = self.insns@;
        self.store_reg_to_var(R0, dst_var)?;
        proof {
            lemma_plain_trans(c1.insns@, m1, m2);
            lemma_plain_trans(c1.insns@, m2, self.insns@);
            lemma_plain_trans(old(self).insns@, c1.insns@, self.insns@);
            lemma_relocs_grow(old(self).insns@, self.insns@, old(self).relocs@);
            assert forall|j: int| 0 <= j < self.relocs@.len() implies reloc_at(self.insns@, #[trigger] self.relocs@[j]) by {
                if j < old(self).relocs@.len() {
                    assert(self.relocs@[j] == old(self).relocs@[j]);
                } else {
                    assert(self.insns@[old(self).insns@.len() as int] == c1.insns@[old(self).insns@.len() as int]);
                }
            }
            lemma_inv_ext(old(self), self);
            assert(self.insns@.subrange(0, old(self).insns@.len() as int) =~= old(self).insns@);
            assert(self.fixups@.subrange(0, old(self).fixups@.len() as int) =~= old(self).fixups@);
            assert(self.relocs@.subrange(0, old(self).relocs@.len() as int) =~= old(self).relocs@);
        }
        Ok(())
    }

    fn emit_map_update(&mut self, maps: &MapsSection, dst_var: Option<u32>, map_name: &String, key: &Operand, value: &Operand) -> (r: Result<(), String>)
        requires
            old(self).inv(),
        ensures
            oas(oupdate(old(self).ostate(), old(self).vars@, old(self).scratch_a, old(self).scratch_b, *maps, dst_var, *map_name, *key, *value), r, final(self).ostate()),
            r is Ok ==> map_step(old(self), final(self), map_name@)
                && exists|m: int| 0 <= m < maps.records@.len() && maps.records@[m].name@ == map_name@,
    {
        self.require_map(maps, map_name)?;
        self.emit_map_ldimm(map_name)?;
        let ghost c1 = *self;
        let sa = self.scratch_a;
        let sb = self.scratch_b;
        self.operand_addr(R2, key, sa)?;
        let ghost m1 = self.insns@;
        self.operand_addr(R3, value, sb)?;
        let ghost m2 = self.insns@;
        proof { lemma_opcode_values(); }
        self.emit(mov64_imm(R4, 0));
        let ghost m3 = self.insns@;
        self.emit(call(2));
        let ghost m4 = self.insns@;
        if let Some(v) = dst_var {
            self.store_reg_to_var(R0, v)?;
        }
        proof {
            lemma_plain_trans(c1.insns@, m1, m2);
            lemma_plain_trans(c1.insns@, m2, m3);
            lemma_plain_trans(c1.insns@, m3, m4);
            if dst_var is Some {
                lemma_plain_trans(c1.insns@, m4, self.insns@);
            } else {
                assert(self.insns@ == m4);
            }
            lemma_plain_trans(old(self).insns@, c1.insns@, self.insns@);
            lemma_relocs_grow(old(self).insns@, self.insns@, old(self).relocs@);
            assert forall|j: int| 0 <= j < self.relocs@.len() implies reloc_at(self.insns@, #[trigger] self.relocs@[j]) by {
                if j < old(self).relocs@.len() {
                    assert(self.relocs@[j] == old(self).relocs@[j]);
                } else {
                    assert(self.insns@[old(self).insns@.len() as int] == c1.insns@[old(self).insns@.len() as int]);
                }
            }
            lemma_inv_ext(old(self), self);
            assert(self.insns@.subrange(0, old(self).insns@.len() as int) =~= old(self).insns@);
            assert(self.fixups@.subrange(0, old(self).fixups@.len() as int) =~= old(self).fixups@);
            assert(self.relocs@.subrange(0, old(self).relocs@.len() as int) =~= old(self).relocs@);
        }
        Ok(())
    }

    fn emit_ringbuf_reserve(&mut self, maps: &MapsSection, dst_var: u32, map_name: &String, size: i64) -> (r: Result<(), String>)
        requires
            old(self).inv(),
        ensures
            oas(oreserve(old(self).ostate(), old(self).vars@, *maps, dst_var, *map_name, size), r, final(self).ostate()),
            r is Ok ==> map_step(old(self), final(self), map_name@)
                && exists|m: int| 0 <= m < maps.records@.len() && maps.records@[m].name@ == map_name@,
    {
        self.require_map(maps, map_name)?;
        self.emit_map_ldimm(map_name)?;
        let ghost c1 = *self;
        self.load_imm64(R2, size);
        let ghost m1 = self.insns@;
        proof { lemma_opcode_values(); }
        self.emit(mov64_imm(R3, 0));
        let ghost m2 = self.insns@;
        self.emit(call(131));
        let ghost m3 = self.insns@;
        self.store_reg_to_var(R0, dst_var)?;
        proof {
            lemma_plain_trans(c1.insns@, m1, m2);
            lemma_plain_trans(c1.insns@, m2, m3);
            lemma_plain_trans(c1.insns@, m3, self.insns@);
            lemma_plain_trans(old(self).insns@, c1.insns@, self.insns@);
            lemma_relocs_grow(old(self).insns@, self.insns@, old(self).relocs@);
            assert forall|j: int| 0 <= j < self.relocs@.len() implies reloc_at(self.insns@, #[trigger] self.relocs@[j]) by {
                if j < old(self).relocs@.len() {
                    assert(self.relocs@[j] == old(self).relocs@[j]);
                } else {
                    assert(self.insns@[old(self).insns@.len() as int] == c1.insns@[old(self).insns@.len() as int]);
                }
            }
            lemma_inv_ext(old(self), self);
            assert(self.insns@.subrange(0, old(self).insns@.len() as int) =~= old(self).insns@);
            assert(self.fixups@.subrange(0, old(self).fixups@.len() as int) =~= old(self).fixups@);
            assert(self.relocs@.subrange(0, old(self).relocs@.len() as int) =~= old(self).relocs@);
        }
        Ok(())
    }
}

/// A code generator for `unit` with its frame laid out, or the frame error.
fn build_codegen(unit: &UnitIr) -> (r: Result<Codegen, String>)
    ensures
        r is Err <==> frame_size(unit.blocks@) > 512,
        r matches Err(e) ==> e@ == frame_error(frame_size(unit.blocks@)),
        r matches Ok(c) ==> c.inv() && c.insns@.len() == 0 && c.relocs@.len() == 0 && c.fixups@.len() == 0
            && c.block_pos@.len() == 0 && c.frame() == obj_frame(unit.blocks@),
{
    let all = collect_var_ids(&unit.blocks, true);
    let vars = sorted_unique(&all);
    proof {
        let w = crate::emit::ebpf::model::slot_ids(unit.blocks@);
        assert(strictly_sorted(w) && w.to_set() == blocks_ids(unit.blocks@, true).to_set());
        crate::emit::vars::lemma_sorted_same_set(vars@, w);
    }
    let next: u128 = 8 * (vars.len() as u128 + 3);
    let frame: u128 = ((next + 15) / 16) * 16;
    if frame > 512 {
        let mut s = owned("stack frame too large: ");
        push_decimal_u128(&mut s, frame);
        s.append(" bytes (max 512)");
        return Err(s);
    }
    let n = vars.len() as i16;
    let mut block_ids: Vec<u32> = Vec::new();
    let mut b: usize = 0;
    while b < unit.blocks.len()
        invariant
            b <= unit.blocks@.len(),
            block_ids@ =~= unit.blocks@.subrange(0, b as int).map_values(|bl: BasicBlock| bl.id.0),
        decreases unit.blocks@.len() - b,
    {
        block_ids.push(unit.blocks[b].id.0);
        b = b + 1;
        assert(block_ids@ =~= unit.blocks@.subrange(0, b as int).map_values(|bl: BasicBlock| bl.id.0));
    }
    assert(unit.blocks@.subrange(0, unit.blocks@.len() as int) == unit.blocks@);
    Ok(Codegen {
        insns: Vec::new(),
        relocs: Vec::new(),
        vars,
        scratch_a: -8 * (n + 1),
        scratch_b: -8 * (n + 2),
        block_pos: Vec::new(),
        fixups: Vec::new(),
        block_ids,
    })
}

/// The position recorded last for block `id`, if any.
fn block_position(pos: &Vec<(u32, usize)>, id: u32) -> (r: Option<usize>)
    ensures
        r matches Some(p) ==> exists|j: int| 0 <= j < pos@.len() && (#[trigger] pos@[j]).0 == id && pos@[j].1 == p,
        r == opos(pos@, id),
{
    let mut k = pos.len();
    assert(pos@.subrange(0, k as int) == pos@);
    while k > 0
        invariant
            k <= pos@.len(),
            opos(pos@, id) == opos(pos@.subrange(0, k as int), id),
        decreases k,
    {
        let ghost pre = pos@.subrange(0, k as int);
        assert(pre.drop_last() == pos@.subrange(0, k - 1));
        assert(pre.last() == pos@[k - 1]);
        k = k - 1;
        if pos[k].0 == id {
            return Some(pos[k].1);
        }
    }
    None
}

impl Codegen {
    fn emit_terminator(&mut self, term: &Terminator) -> (r: Result<(), String>)
        requires
            old(self).inv(),
        ensures
            oas(oterm(old(self).ostate(), old(self).vars@, old(self).block_ids@, *term), r, final(self).ostate()),
            r is Ok ==> step(old(self), final(self)) && final(self).insns@.len() > old(self).insns@.len(),
    {
        match term {
            Terminator::Return(op) => {
                self.load_operand(R0, op)?;
                proof { lemma_plain_step(old(self), self); }
                let ghost c1 = *self;
                proof { lemma_opcode_values(); }
                self.emit(exit());
                proof { lemma_plain_step(&c1, self); lemma_step_trans(old(self), &c1, self); }
            },
            Terminator::Jump(target) => {
                if !contains_u32(&self.block_ids, target.0) {
                    let mut s = owned("invalid jump target ");
                    push_decimal(&mut s, target.0 as u64);
                    return Err(s);
                }
                proof { lemma_opcode_values(); }
                let at = self.insns.len();
                self.insns.push(ja(0));
                self.fixups.push((at, Label::Block(target.0)));
                proof {
                    assert(self.insns@.subrange(0, old(self).insns@.len() as int) =~= old(self).insns@);
                    assert(self.fixups@.subrange(0, old(self).fixups@.len() as int) =~= old(self).fixups@);
                    lemma_fixup_step(old(self), self);
                }
            },
            Terminator::Branch { condition, true_block, false_block } => {
                if !contains_u32(&self.block_ids, true_block.0) || !contains_u32(&self.block_ids, false_block.0) {
                    return Err(owned("invalid branch targets"));
                }
                self.load_operand(R1, condition)?;
                proof { lemma_plain_step(old(self), self); }
                let ghost c1 = *self;
                proof { lemma_opcode_values(); }
                let at_false = self.insns.len();
                self.insns.push(jmp_imm(BPF_JEQ, R1, 0, 0));
                self.fixups.push((at_false, Label::Block(false_block.0)));
                proof {
                    assert(self.insns@.subrange(0, c1.insns@.len() as int) =~= c1.insns@);
                    assert(self.fixups@.subrange(0, c1.fixups@.len() as int) =~= c1.fixups@);
                    lemma_fixup_step(&c1, self);
                    lemma_step_trans(old(self), &c1, self);
                }
                let ghost c2 = *self;
                let at_true = self.insns.len();
                self.insns.push(ja(0));
                self.fixups.push((at_true, Label::Block(true_block.0)));
                proof {
                    assert(self.insns@.subrange(0, c2.insns@.len() as int) =~= c2.insns@);
                    assert(self.fixups@.subrange(0, c2.fixups@.len() as int) =~= c2.fixups@);
                    lemma_fixup_step(&c2, self);
                    lemma_step_trans(old(self), &c2, self);
                }
            },
        }
        Ok(())
    }

    /// Sets the offset of every pending jump: to its block, or to the
    /// null-fail block.
    fn patch_fixups(&mut self, null_fail_pos: usize) -> (r: Result<(), String>)
        requires
            null_fail_pos < old(self).insns@.len(),
            forall|k: int| 0 <= k < old(self).insns@.len() && is_jump(#[trigger] old(self).insns@[k].code)
                ==> has_fixup(old(self).fixups@, k) || jump_lands(old(self).insns@, k),
            forall|j: int| 0 <= j < old(self).fixups@.len() ==> (#[trigger] old(self).fixups@[j]).0 < old(self).insns@.len()
                && is_jump(old(self).insns@[old(self).fixups@[j].0 as int].code),
            forall|j: int| 0 <= j < old(self).block_pos@.len() ==> (#[trigger] old(self).block_pos@[j]).1 < old(self).insns@.len(),
        ensures
            match opatch(old(self).insns@, old(self).fixups@, old(self).block_pos@, null_fail_pos) {
                Ok(p) => r is Ok && final(self).insns@ == p,
                Err(m) => r matches Err(e) && e@ == m,
            },
            r is Ok ==> {
                &&& final(self).insns@.len() == old(self).insns@.len()
                &&& jumps_in_range(final(self).insns@)
                &&& final(self).relocs@ == old(self).relocs@
                &&& forall|k: int| 0 <= k < old(self).insns@.len() ==> (#[trigger] final(self).insns@[k]).code == old(self).insns@[k].code
                    && final(self).insns@[k].regs == old(self).insns@[k].regs
                &&& forall|k: int| 0 <= k < old(self).insns@.len() && !is_jump(#[trigger] old(self).insns@[k].code)
                    ==> final(self).insns@[k] == old(self).insns@[k]
            },
    {
        let ghost s0 = self.insns@;
        let n = self.fixups.len();
        let mut i: usize = 0;
        while i < n
            invariant
                n == self.fixups@.len(),
                i <= n,
                null_fail_pos < s0.len(),
                self.fixups@ == old(self).fixups@,
                self.relocs@ == old(self).relocs@,
                self.block_pos@ == old(self).block_pos@,
                self.insns@.len() == s0.len(),
                s0 == old(self).insns@,
                forall|k: int| 0 <= k < s0.len() && is_jump(#[trigger] s0[k].code) ==> has_fixup(self.fixups@, k) || jump_lands(s0, k),
                forall|j: int| 0 <= j < self.fixups@.len() ==> (#[trigger] self.fixups@[j]).0 < s0.len()
                    && is_jump(s0[self.fixups@[j].0 as int].code),
                forall|j: int| 0 <= j < self.block_pos@.len() ==> (#[trigger] self.block_pos@[j]).1 < s0.len(),
                forall|k: int| 0 <= k < s0.len() ==> (#[trigger] self.insns@[k]).code == s0[k].code
                    && self.insns@[k].regs == s0[k].regs,
                forall|k: int| 0 <= k < s0.len() && !has_fixup(self.fixups@, k) ==> #[trigger] self.insns@[k] == s0[k],
                forall|j: int| 0 <= j < i ==> jump_lands(self.insns@, (#[trigger] self.fixups@[j]).0 as int),
                opatch(s0, self.fixups@.subrange(0, i as int), self.block_pos@, null_fail_pos) == Ok::<Seq<BpfInsn>, Seq<char>>(self.insns@),
            decreases n - i,
        {
            proof {
                let pre = self.fixups@.subrange(0, i + 1);
                assert(pre.drop_last() == self.fixups@.subrange(0, i as int));
                assert(pre.last() == self.fixups@[i as int]);
            }
            let (at, label) = self.fixups[i];
            assert(self.fixups@[i as int].0 < s0.len());
            let cur_len = self.insns.len();
            assert(at < cur_len);
            let target = match label {
                Label::Block(id) => match block_position(&self.block_pos, id) {
                    Some(p) => p,
                    None => {
                        let mut s = owned("missing block position for ");
                        push_decimal(&mut s, id as u64);
                        proof { lemma_opatch_err_extends(s0, self.fixups@, i + 1, self.block_pos@, null_fail_pos); }
                        return Err(s);
                    },
                },
                Label::NullFail => null_fail_pos,
            };
            let off: i16 = if target > at {
                let d = target - at - 1;
                if d > 32767 {
                    proof { lemma_opatch_err_extends(s0, self.fixups@, i + 1, self.block_pos@, null_fail_pos); }
                    return Err(owned("jump offset out of range"));
                }
                d as i16
            } else {
                let d = at + 1 - target;
                if d > 32768 {
                    proof { lemma_opatch_err_extends(s0, self.fixups@, i + 1, self.block_pos@, null_fail_pos); }
                    return Err(owned("jump offset out of range"));
                }
                (0 - (d as i32)) as i16
            };
            let mut insn = self.insns[at];
            insn.off = off;
            let ghost before = self.insns@;
            self.insns.set(at, insn);
            assert(jump_lands(self.insns@, at as int));
            assert forall|j: int| 0 <= j < i + 1 implies jump_lands(self.insns@, (#[trigger] self.fixups@[j]).0 as int) by {
                if j < i && self.fixups@[j].0 != at {
                    assert(self.insns@[self.fixups@[j].0 as int] == before[self.fixups@[j].0 as int]);
                }
            }
            assert forall|k: int| 0 <= k < s0.len() && !has_fixup(self.fixups@, k) implies #[trigger] self.insns@[k] == s0[k] by {
                if k == at {
                    assert(self.fixups@[i as int].0 == at);
                }
            }
            i = i + 1;
        }
        assert(self.fixups@.subrange(0, n as int) == self.fixups@);
        assert forall|k: int| 0 <= k < self.insns@.len() && is_jump(#[trigger] self.insns@[k].code)
            implies jump_lands(self.insns@, k) by {
            assert(is_jump(s0[k].code));
            if has_fixup(self.fixups@, k) {
                let j = choose|j: int| 0 <= j < self.fixups@.len() && (#[trigger] self.fixups@[j]).0 == k;
                assert(jump_lands(self.insns@, self.fixups@[j].0 as int));
            } else {
                assert(self.insns@[k] == s0[k]);
            }
        }
        assert forall|k: int| 0 <= k < s0.len() && !is_jump(#[trigger] s0[k].code) implies self.insns@[k] == s0[k] by {
            if has_fixup(self.fixups@, k) {
                let j = choose|j: int| 0 <= j < self.fixups@.len() && (#[trigger] self.fixups@[j]).0 == k;
                assert(is_jump(s0[self.fixups@[j].0 as int].code));
            }
        }
        Ok(())
    }
}

proof fn lemma_fixup_step(a: &Codegen, b: &Codegen)
    requires
        a.inv(),
        b.insns@.len() == a.insns@.len() + 1,
        b.insns@.subrange(0, a.insns@.len() as int) == a.insns@,
        is_jump(b.insns@.last().code),
        b.fixups@.len() == a.fixups@.len() + 1,
        b.fixups@.subrange(0, a.fixups@.len() as int) == a.fixups@,
        b.fixups@.last().0 == a.insns@.len(),
        b.relocs@ == a.relocs@,
        b.vars@ == a.vars@,
        b.scratch_a == a.scratch_a,
        b.scratch_b == a.scratch_b,
        b.block_pos@ == a.block_pos@,
        b.block_ids@ == a.block_ids@,
    ensures
        step(a, b),
{
    let n = a.insns@.len() as int;
    assert forall|k: int| 0 <= k < b.insns@.len() && is_jump(#[trigger] b.insns@[k].code)
        implies has_fixup(b.fixups@, k) || lands_le(b.insns@, k) by {
        if k < n {
            assert(b.insns@[k] == a.insns@[k]);
            if has_fixup(a.fixups@, k) {
                let j = choose|j: int| 0 <= j < a.fixups@.len() && (#[trigger] a.fixups@[j]).0 == k;
                assert(b.fixups@[j] == a.fixups@[j]);
            }
        } else {
            assert(b.fixups@[a.fixups@.len() as int].0 == k);
        }
    }
    assert forall|j: int| 0 <= j < b.fixups@.len() implies (#[trigger] b.fixups@[j]).0 < b.insns@.len()
        && is_jump(b.insns@[b.fixups@[j].0 as int].code) by {
        if j < a.fixups@.len() {
            assert(b.fixups@[j] == a.fixups@[j]);
            assert(b.insns@[a.fixups@[j].0 as int] == a.insns@[a.fixups@[j].0 as int]);
        }
    }
    lemma_relocs_grow(a.insns@, b.insns@, a.relocs@);
}

/// Every relocation of `c` names a map of `maps`.
spec fn relocs_known(relocs: Seq<RelocRequest>, maps: MapsSection) -> bool {
    forall|j: int| 0 <= j < relocs.len() ==> exists|m: int| 0 <= m < maps.records@.len()
        && maps.records@[m].name@ == (#[trigger] relocs[j]).map_name@
}

fn emit_inst(cg: &mut Codegen, maps: &MapsSection, inst: &Instruction) -> (r: Result<(), String>)
    requires
        old(cg).inv(),
        relocs_known(old(cg).relocs@, *maps),
    ensures
        oas(oinst(old(cg).ostate(), old(cg).vars@, old(cg).scratch_a, old(cg).scratch_b, *maps, *inst), r, final(cg).ostate()),
        r is Ok ==> {
            &&& final(cg).inv()
            &&& old(cg).insns@.len() <= final(cg).insns@.len()
            &&& final(cg).insns@.subrange(0, old(cg).insns@.len() as int) == old(cg).insns@
            &&& final(cg).vars@ == old(cg).vars@
            &&& final(cg).scratch_a == old(cg).scratch_a
            &&& final(cg).scratch_b == old(cg).scratch_b
            &&& final(cg).block_pos@ == old(cg).block_pos@
            &&& final(cg).block_ids@ == old(cg).block_ids@
            &&& relocs_known(final(cg).relocs@, *maps)
        },
{
    let res_used = contains_u32(&cg.vars, inst.result.0);
    let is_side_effect = match &inst.opcode {
        Opcode::Store { .. } | Opcode::UpdateMap { .. } | Opcode::NullCheck | Opcode::RingBufSubmit { .. } => true,
        _ => false,
    };
    if !res_used && !is_side_effect {
        proof { lemma_step_refl(old(cg)); }
        return Ok(());
    }
    let first: Option<&Operand> = if inst.operands.len() > 0 { Some(&inst.operands[0]) } else { None };
    match &inst.opcode {
        Opcode::Binary { op } => {
            cg.emit_binary(inst.result.0, *op, &inst.operands)?;
        },
        Opcode::LoadCtx { offset, size } | Opcode::LoadPacket { offset, size } => {
            let off: i16 = #[verifier::truncate] (*offset as i16);
            cg.emit_load_ctx(inst.result.0, inst.result_type, off, *size as usize)?;
        },
        Opcode::HelperCall { id } => {
            proof { lemma_opcode_values(); }
            cg.emit(call(*id as i32));
            let ghost c1 = *cg;
            cg.store_reg_to_var(R0, inst.result.0)?;
            proof {
                lemma_plain_trans(old(cg).insns@, c1.insns@, cg.insns@);
                lemma_plain_step(old(cg), cg);
            }
        },
        Opcode::CallMap { map_name } => {
            cg.emit_map_lookup(maps, inst.result.0, map_name, first)?;
        },
        Opcode::UpdateMap { map_name } => {
            if inst.operands.len() < 2 {
                return Err(owned("UpdateMap requires key and value operands"));
            }
            let dst = if res_used { Some(inst.result.0) } else { None };
            cg.emit_map_update(maps, dst, map_name, &inst.operands[0], &inst.operands[1])?;
        },
        Opcode::NullCheck => {
            let ptr = match first {
                Some(p) => p,
                None => return Err(owned("NullCheck missing operand")),
            };
            cg.emit_nullcheck_to_bool(inst.result.0, ptr)?;
        },
        Opcode::LoadKey => {
            let ptr = match first {
                Some(p) => p,
                None => return Err(owned("LoadKey missing operand")),
            };
            cg.emit_load_from_ptr(inst.result.0, inst.result_type, ptr)?;
        },
        Opcode::Store { size } => {
            if inst.operands.len() < 2 {
                return Err(owned("Store requires ptr and value"));
            }
            cg.emit_store_to_ptr(*size as usize, &inst.operands[0], &inst.operands[1])?;
        },
        Opcode::RingBufReserve { map_name, size } => {
            cg.emit_ringbuf_reserve(maps, inst.result.0, map_name, *size as i64)?;
        },
        Opcode::RingBufSubmit { .. } => {
            let ptr = match first {
                Some(p) => p,
                None => return Err(owned("RingBufSubmit missing pointer operand")),
            };
            cg.emit_ringbuf_submit(ptr)?;
        },
        Opcode::CopyCtxToMem { .. } => {
            return Err(owned("CopyCtxToMem is not supported by the direct object backend"));
        },
    }
    assert forall|j: int| 0 <= j < cg.relocs@.len() implies exists|m: int| 0 <= m < maps.records@.len()
        && maps.records@[m].name@ == (#[trigger] cg.relocs@[j]).map_name@ by {
        if j < old(cg).relocs@.len() {
            assert(cg.relocs@[j] == old(cg).relocs@[j]);
        }
    }
    Ok(())
}

/// The code of one block: its position recorded, its instructions, its
/// terminator.
#[verifier::spinoff_prover]
fn emit_obj_block(cg: &mut Codegen, maps: &MapsSection, block: &BasicBlock) -> (r: Result<(), String>)
    requires
        old(cg).inv(),
        relocs_known(old(cg).relocs@, *maps),
        forall|j: int| 0 <= j < old(cg).block_pos@.len() ==> (#[trigger] old(cg).block_pos@[j]).1 < old(cg).insns@.len(),
    ensures
        match oblock(old(cg).ostate(), old(cg).block_pos@, old(cg).frame(), *maps, *block) {
            Ok((st, pos)) => r is Ok && final(cg).ostate() == st && final(cg).block_pos@ == pos,
            Err(m) => r matches Err(e) && e@ == m,
        },
        r is Ok ==> {
            &&& final(cg).inv()
            &&& final(cg).frame() == old(cg).frame()
            &&& relocs_known(final(cg).relocs@, *maps)
            &&& old(cg).insns@.len() <= final(cg).insns@.len()
            &&& final(cg).insns@.subrange(0, old(cg).insns@.len() as int) == old(cg).insns@
            &&& forall|j: int| 0 <= j < final(cg).block_pos@.len() ==> (#[trigger] final(cg).block_pos@[j]).1 < final(cg).insns@.len()
        },
{
    let ghost c0 = *cg;
    let ghost f = cg.frame();
    let pos = cg.insns.len();
    cg.block_pos.push((block.id.0, pos));
    let ghost s0 = cg.ostate();
    let mut ii: usize = 0;
    assert(block.instructions@.subrange(0, 0) == Seq::<Instruction>::empty());
    assert(cg.insns@.subrange(0, c0.insns@.len() as int) =~= c0.insns@);
    while ii < block.instructions.len()
        invariant
            c0 == *old(cg),
            f == c0.frame(),
            f == cg.frame(),
            s0 == c0.ostate(),
            ii <= block.instructions@.len(),
            cg.inv(),
            relocs_known(cg.relocs@, *maps),
            c0.insns@.len() <= cg.insns@.len(),
            cg.insns@.subrange(0, c0.insns@.len() as int) == c0.insns@,
            cg.block_pos@ == c0.block_pos@.push((block.id.0, c0.insns@.len() as usize)),
            forall|j: int| 0 <= j < c0.block_pos@.len() ==> (#[trigger] c0.block_pos@[j]).1 < c0.insns@.len(),
            oinsts(s0, f.vars, f.sa, f.sb, *maps, block.instructions@.subrange(0, ii as int)) == Ok::<ObjState, Seq<char>>(cg.ostate()),
        decreases block.instructions@.len() - ii,
    {
        let ghost pb = *cg;
        proof {
            let pre = block.instructions@.subrange(0, ii + 1);
            assert(pre.drop_last() == block.instructions@.subrange(0, ii as int));
            assert(pre.last() == block.instructions@[ii as int]);
        }
        match emit_inst(cg, maps, &block.instructions[ii]) {
            Ok(()) => {},
            Err(e) => {
                proof { lemma_oinsts_err_extends(s0, f.vars, f.sa, f.sb, *maps, block.instructions@, ii + 1); }
                return Err(e);
            },
        }
        assert(cg.insns@.subrange(0, c0.insns@.len() as int) =~= c0.insns@) by {
            assert(cg.insns@.subrange(0, pb.insns@.len() as int) == pb.insns@);
        }
        ii = ii + 1;
    }
    assert(block.instructions@.subrange(0, block.instructions@.len() as int) == block.instructions@);
    let ghost pt = *cg;
    cg.emit_terminator(&block.terminator)?;
    proof {
        assert(cg.insns@.subrange(0, c0.insns@.len() as int) =~= c0.insns@) by {
            assert(cg.insns@.subrange(0, pt.insns@.len() as int) == pt.insns@);
        }
        assert forall|j: int| 0 <= j < cg.block_pos@.len() implies (#[trigger] cg.block_pos@[j]).1 < cg.insns@.len() by {
            if j < c0.block_pos@.len() {
                assert(cg.block_pos@[j] == c0.block_pos@[j]);
            }
        }
    }
    Ok(())
}

/// Compiles a tracepoint unit to a program section named `sec`. The code
/// starts by saving the context pointer in `r6` and ends with the shared
/// block that returns 0 (reached from null checks and zero divisors);
/// every jump lands inside it and every relocation points at a map-address
/// load of a map of `maps`. A frame over 512 bytes is refused.
pub fn emit_tracepoint(unit: &UnitIr, sec: &str, maps: &MapsSection) -> (r: Result<ProgramSection, String>)
    ensures
        frame_size(unit.blocks@) > 512 ==> (r matches Err(e) && e@ == frame_error(frame_size(unit.blocks@))),
        r matches Ok(p) ==> p.section_name@ == sec@ && p.symbol_name@ == unit.name@
            && exists|s: Seq<BpfInsn>| well_formed_section(p, s, *maps),
        frame_size(unit.blocks@) <= 512 ==> match obj_code(unit.blocks@, *maps) {
            Ok((w, rl)) => r matches Ok(p) && p.code@ == insns_bytes(w) && p.relocs@ == rl,
            Err(m) => r matches Err(e) && e@ == m,
        },
{
    let mut cg = build_codegen(unit)?;
    proof { lemma_opcode_values(); }
    let ghost c0 = cg;
    let ghost bs = unit.blocks@;
    let ghost f = cg.frame();
    cg.emit(mov64_reg(R6, R1));
    proof {
        lemma_plain_inv(&c0, &cg);
        assert(cg.insns@ =~= seq![insn_of(0xbfu8, R6, R1, 0, 0)]);
        assert(cg.relocs@ =~= Seq::<RelocRequest>::empty());
        assert(cg.fixups@ =~= Seq::<(usize, Label)>::empty());
        assert(cg.block_pos@ =~= Seq::<(u32, usize)>::empty());
        assert(bs.subrange(0, 0) == Seq::<BasicBlock>::empty());
    }
    let ghost st0 = cg.ostate();
    let mut bi: usize = 0;
    while bi < unit.blocks.len()
        invariant
            bi <= unit.blocks@.len(),
            bs == unit.blocks@,
            f == obj_frame(bs),
            f == cg.frame(),
            st0 == (ObjState { insns: seq![insn_of(0xbfu8, R6, R1, 0, 0)], relocs: Seq::empty(), fixups: Seq::empty() }),
            frame_size(unit.blocks@) <= 512,
            cg.inv(),
            cg.insns@.len() >= 1,
            cg.insns@[0] == insn_of(0xbfu8, R6, R1, 0, 0),
            forall|j: int| 0 <= j < cg.block_pos@.len() ==> (#[trigger] cg.block_pos@[j]).1 < cg.insns@.len(),
            relocs_known(cg.relocs@, *maps),
            oblocks(st0, Seq::empty(), f, *maps, bs.subrange(0, bi as int)) == Ok::<(ObjState, Seq<(u32, usize)>), Seq<char>>((cg.ostate(), cg.block_pos@)),
        decreases unit.blocks@.len() - bi,
    {
        let ghost ob = cg;
        proof {
            let pre = bs.subrange(0, bi + 1);
            assert(pre.drop_last() == bs.subrange(0, bi as int));
            assert(pre.last() == unit.blocks@[bi as int]);
        }
        match emit_obj_block(&mut cg, maps, &unit.blocks[bi]) {
            Ok(()) => {},
            Err(e) => {
                proof { lemma_oblocks_err_extends(st0, Seq::empty(), f, *maps, bs, bi + 1); }
                return Err(e);
            },
        }
        assert(cg.insns@[0] == cg.insns@.subrange(0, ob.insns@.len() as int)[0]);
        bi = bi + 1;
    }
    assert(bs.subrange(0, bs.len() as int) == bs);
    let null_fail_pos = cg.insns.len();
    let ghost c1 = cg;
    cg.emit(mov64_imm(R0, 0));
    cg.emit(exit());
    proof {
        let n = c1.insns@.len() as int;
        assert(cg.insns@.len() == n + 2);
        assert(cg.insns@.subrange(0, n) =~= c1.insns@);
        assert forall|k: int| 0 <= k < cg.insns@.len() && is_jump(#[trigger] cg.insns@[k].code)
            implies has_fixup(cg.fixups@, k) || jump_lands(cg.insns@, k) by {
            if k < n {
                assert(cg.insns@[k] == c1.insns@[k]);
            }
        }
        assert forall|j: int| 0 <= j < cg.fixups@.len() implies (#[trigger] cg.fixups@[j]).0 < cg.insns@.len()
            && is_jump(cg.insns@[cg.fixups@[j].0 as int].code) by {
            assert(cg.insns@[c1.fixups@[j].0 as int] == c1.insns@[c1.fixups@[j].0 as int]);
        }
        lemma_relocs_grow(c1.insns@, cg.insns@, cg.relocs@);
    }
    let ghost before_patch = cg.insns@;
    assert(before_patch =~= c1.insns@.push(insn_of(0xb7u8, R0, 0, 0, 0)).push(insn_of(0x95u8, 0, 0, 0, 0)));
    cg.patch_fixups(null_fail_pos)?;
    let code = serialize_insns(cg.insns.as_slice());
    let p = ProgramSection {
        section_name: owned(sec),
        symbol_name: unit.name.clone(),
        code,
        relocs: cg.relocs,
    };
    let ghost w = cg.insns@;
    proof {
        let m = before_patch.len() as int;
        assert(!is_jump(before_patch[0].code));
        assert(!is_jump(before_patch[m - 2].code));
        assert(!is_jump(before_patch[m - 1].code));
        assert forall|j: int| 0 <= j < p.relocs@.len() implies reloc_at(w, #[trigger] p.relocs@[j]) by {
            assert(reloc_at(before_patch, p.relocs@[j]));
        }
    }
    proof {
        let m = w.len() as int;
        assert(p.code@ == insns_bytes(w));
        assert(m >= 3);
        assert(w[0] == insn_of(0xbfu8, R6, R1, 0, 0));
        assert(w[m - 2] == before_patch[m - 2]);
        assert(w[m - 2] == insn_of(0xb7u8, R0, 0, 0, 0));
        assert(w[m - 1] == insn_of(0x95u8, 0, 0, 0, 0));
        assert(jumps_in_range(w));
        assert(relocs_known(cg.relocs@, *maps));
        assert forall|j: int| 0 <= j < p.relocs@.len() implies reloc_at(w, #[trigger] p.relocs@[j])
            && map_named(*maps, p.relocs@[j].map_name@) by {
            assert(p.relocs@[j] == cg.relocs@[j]);
        }
    }
    assert(p.code@ == insns_bytes(w));
    assert(w.len() >= 3);
    assert(w[0] == insn_of(0xbfu8, R6, R1, 0, 0));
    assert(w[w.len() - 2] == insn_of(0xb7u8, R0, 0, 0, 0));
    assert(w[w.len() - 1] == insn_of(0x95u8, 0, 0, 0, 0));
    assert(jumps_in_range(w));
    assert(forall|j: int| 0 <= j < p.relocs@.len() ==> reloc_at(w, #[trigger] p.relocs@[j])
        && map_named(*maps, p.relocs@[j].map_name@));
    assert(well_formed_section(p, w, *maps));
    let r: Result<ProgramSection, String> = Ok(p);
    assert(r matches Ok(q) && well_formed_section(q, w, *maps));
    r
}

} // verus!
