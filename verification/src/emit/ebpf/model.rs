//! Code generation for tracepoint units as a function on values: what each
//! IR instruction and terminator appends, and how pending jumps are patched.
use vstd::prelude::*;
use crate::emit::ebpf::elf::ProgramReloc;
use crate::emit::ebpf::insn::{
    alu64_imm_code, ldx_code, stx_code, Insn, BPF_CALL, BPF_EXIT, BPF_JA, BPF_JEQ_IMM, BPF_JNE_IMM, BPF_LD_DW_IMM,
    BPF_MOV64_IMM, BPF_MOV64_REG, R0, R1, R10, R2, R3, R4, R6,
};
use crate::emit::vars::{blocks_ids, strictly_sorted};
use crate::ir::instruction::{BinaryOp, Instruction, Opcode, Operand, VarId};
use crate::ir::unit::{BasicBlock, BlockId, Terminator};
use crate::emit::isa::jmp_imm_taken;
use crate::text::{decimal, signed_decimal};

verus! {

/// What code generation has produced so far: the instructions, the map
/// relocations, the jumps still to patch (position and target block), the
/// position of each block, and the next scratch slot.
pub struct GenState {
    pub insns: Seq<Insn>,
    pub relocs: Seq<ProgramReloc>,
    pub fixups: Seq<(usize, u32)>,
    pub offsets: Seq<(u32, usize)>,
    pub scratch: usize,
}

/// Generation so far, or the message of its failure.
pub type Gen = Result<GenState, Seq<char>>;

/// `st` with `i` appended.
pub open spec fn push_g(st: GenState, i: Insn) -> GenState {
    GenState { insns: st.insns.push(i), ..st }
}

/// The instruction with these fields.
pub open spec fn insn(code: u8, dst: u8, src: u8, off: i16, imm: i32) -> Insn {
    Insn { code, dst, src, off, imm }
}

/// The first position of `id` among the variables.
pub open spec fn slot_index(ids: Seq<u32>, id: u32) -> int {
    choose|i: int| 0 <= i < ids.len() && ids[i] == id && forall|j: int| 0 <= j < i ==> ids[j] != id
}

/// The stack offset of variable `id`: the slots lie below `r10`, eight
/// bytes each, in the order of `ids`.
pub open spec fn slot_g(ids: Seq<u32>, id: u32) -> Result<i16, Seq<char>> {
    if ids.contains(id) {
        Ok((-8 * (slot_index(ids, id) + 1)) as i16)
    } else {
        Err("missing stack slot for v"@ + decimal(id as nat))
    }
}

/// The message for an immediate outside the 32-bit range.
pub open spec fn imm_error(v: int) -> Seq<char> {
    "immediate "@ + signed_decimal(v) + " does not fit in eBPF imm32"@
}

/// `v` fits an instruction's 32-bit immediate.
pub open spec fn fits_imm(v: int) -> bool {
    i32::MIN <= v <= i32::MAX
}

/// Loads an operand into register `dst`.
pub open spec fn load_g(st: GenState, ids: Seq<u32>, dst: u8, op: Operand) -> Gen {
    match op {
        Operand::Immediate(v) => if fits_imm(v as int) {
            Ok(push_g(st, insn(BPF_MOV64_IMM, dst, 0, 0, v as i32)))
        } else {
            Err(imm_error(v as int))
        },
        Operand::Var(VarId(id)) => match slot_g(ids, id) {
            Err(m) => Err(m),
            Ok(off) => Ok(push_g(st, insn(0x79, dst, R10, off, 0))),
        },
    }
}

/// Stores register `src` into the slot of variable `v`.
pub open spec fn store_g(st: GenState, ids: Seq<u32>, v: VarId, src: u8) -> Gen {
    match slot_g(ids, v.0) {
        Err(m) => Err(m),
        Ok(off) => Ok(push_g(st, insn(0x7b, R10, src, off, 0))),
    }
}

/// Puts the address of an operand in `dst`: a variable's slot, or a
/// scratch slot that first receives the immediate.
pub open spec fn addr_g(st: GenState, ids: Seq<u32>, dst: u8, op: Operand) -> Gen {
    match op {
        Operand::Var(VarId(id)) => match slot_g(ids, id) {
            Err(m) => Err(m),
            Ok(off) => Ok(push_g(push_g(st, insn(BPF_MOV64_REG, dst, R10, 0, 0)), insn(0x07, dst, 0, 0, off as i32))),
        },
        Operand::Immediate(v) => {
            let slot = (-8 * (ids.len() + st.scratch + 1)) as i16;
            let s1 = GenState { scratch: ((st.scratch + 1) % 8) as usize, ..st };
            if !fits_imm(v as int) {
                Err(imm_error(v as int))
            } else {
                Ok(push_g(push_g(push_g(push_g(s1,
                    insn(BPF_MOV64_IMM, dst, 0, 0, v as i32)),
                    insn(0x7b, R10, dst, slot, 0)),
                    insn(BPF_MOV64_REG, dst, R10, 0, 0)),
                    insn(0x07, dst, 0, 0, slot as i32)))
            }
        },
    }
}

/// Loads the address of map `name` into `dst`, with its relocation.
pub open spec fn ldimm_g(st: GenState, dst: u8, name: String) -> GenState {
    GenState {
        insns: st.insns.push(insn(BPF_LD_DW_IMM, dst, 1, 0, 0)).push(insn(0, 0, 0, 0, 0)),
        relocs: st.relocs.push(ProgramReloc { offset: (st.insns.len() * 8) as u64, symbol: name }),
        ..st
    }
}

/// Chains a generation step after a successful one.
pub open spec fn then_store(g: Gen, ids: Seq<u32>, v: VarId) -> Gen {
    match g {
        Err(m) => Err(m),
        Ok(s) => store_g(s, ids, v, R0),
    }
}

/// `result = operands[0] op operands[1]`.
pub open spec fn binary_g(st: GenState, ids: Seq<u32>, result: VarId, op: BinaryOp, ops: Seq<Operand>) -> Gen {
    if ops.len() != 2 {
        Err("binary instruction expects two operands"@)
    } else {
        match load_g(st, ids, R0, ops[0]) {
            Err(m) => Err(m),
            Ok(s1) => {
                let s2 = match ops[1] {
                    Operand::Immediate(v) => if fits_imm(v as int) {
                        Ok(push_g(s1, insn(alu64_imm_code(op), R0, 0, 0, v as i32)))
                    } else {
                        Err(imm_error(v as int))
                    },
                    Operand::Var(_) => match load_g(s1, ids, R1, ops[1]) {
                        Err(m) => Err(m),
                        Ok(s) => Ok(push_g(s, insn((alu64_imm_code(op) + 8) as u8, R0, R1, 0, 0))),
                    },
                };
                then_store(s2, ids, result)
            },
        }
    }
}

/// A call of helper `id`, its result stored in `result`.
pub open spec fn helper_g(st: GenState, ids: Seq<u32>, result: VarId, id: u32, ops: Seq<Operand>) -> Gen {
    let args: Gen = if id == 5 || id == 14 || id == 15 || id == 35 {
        if ops.len() != 0 {
            Err("helper "@ + decimal(id as nat) + " expects no operands"@)
        } else {
            Ok(st)
        }
    } else if id == 16 {
        Err("ctx.get_current_comm requires a destination buffer; IR does not carry one yet"@)
    } else if id == 202 || id == 204 {
        if ops.len() != 3 {
            Err("helper "@ + decimal(id as nat) + " expects dest, size, src operands"@)
        } else {
            match load_g(st, ids, R1, ops[0]) {
                Err(m) => Err(m),
                Ok(s1) => match load_g(s1, ids, R2, ops[1]) {
                    Err(m) => Err(m),
                    Ok(s2) => load_g(s2, ids, R3, ops[2]),
                },
            }
        }
    } else {
        Err("unsupported helper id "@ + decimal(id as nat))
    };
    match args {
        Err(m) => Err(m),
        Ok(s) => store_g(push_g(s, insn(BPF_CALL, 0, 0, 0, id as i32)), ids, result, R0),
    }
}

/// Code positions must stay addressable in bytes.
pub open spec fn too_large(st: GenState) -> bool {
    st.insns.len() >= 0x1000_0000_0000_0000
}

/// `result = lookup(map, &key)`.
pub open spec fn call_map_g(st: GenState, ids: Seq<u32>, result: VarId, name: String, ops: Seq<Operand>) -> Gen {
    if ops.len() == 0 {
        Err("map lookup expects a key operand"@)
    } else if too_large(st) {
        Err("program too large"@)
    } else {
        match addr_g(ldimm_g(st, R1, name), ids, R2, ops[0]) {
            Err(m) => Err(m),
            Ok(s) => store_g(push_g(s, insn(BPF_CALL, 0, 0, 0, 1)), ids, result, R0),
        }
    }
}

/// `result = update(map, &key, &value, 0)`.
pub open spec fn update_map_g(st: GenState, ids: Seq<u32>, result: VarId, name: String, ops: Seq<Operand>) -> Gen {
    if ops.len() != 2 {
        Err("map update expects key and value operands"@)
    } else if too_large(st) {
        Err("program too large"@)
    } else {
        match addr_g(ldimm_g(st, R1, name), ids, R2, ops[0]) {
            Err(m) => Err(m),
            Ok(s1) => match addr_g(s1, ids, R3, ops[1]) {
                Err(m) => Err(m),
                Ok(s2) => store_g(push_g(push_g(s2, insn(BPF_MOV64_IMM, R4, 0, 0, 0)), insn(BPF_CALL, 0, 0, 0, 2)), ids, result, R0),
            },
        }
    }
}

/// `result = ringbuf_reserve(map, size, 0)`.
pub open spec fn reserve_g(st: GenState, ids: Seq<u32>, result: VarId, name: String, size: u32) -> Gen {
    if too_large(st) {
        Err("program too large"@)
    } else if !fits_imm(size as int) {
        Err(imm_error(size as int))
    } else {
        let s = ldimm_g(st, R1, name);
        store_g(push_g(push_g(push_g(s, insn(BPF_MOV64_IMM, R2, 0, 0, size as i32)), insn(BPF_MOV64_IMM, R3, 0, 0, 0)),
            insn(BPF_CALL, 0, 0, 0, 131)), ids, result, R0)
    }
}

/// The code of an instruction that neither addresses a map nor checks a pointer.
pub open spec fn plain_g(st: GenState, ids: Seq<u32>, inst: Instruction) -> Gen {
    let ops = inst.operands@;
    let res = inst.result;
    match inst.opcode {
        Opcode::Binary { op } => binary_g(st, ids, res, op, ops),
        Opcode::LoadKey => if ops.len() == 0 {
            Err("LoadKey expects one operand"@)
        } else {
            match load_g(st, ids, R1, ops[0]) {
                Err(m) => Err(m),
                Ok(s) => store_g(push_g(s, insn(0x79, R0, R1, 0, 0)), ids, res, R0),
            }
        },
        Opcode::Store { size } => if ops.len() != 2 {
            Err("Store expects pointer and value operands"@)
        } else {
            match load_g(st, ids, R1, ops[0]) {
                Err(m) => Err(m),
                Ok(s1) => match load_g(s1, ids, R2, ops[1]) {
                    Err(m) => Err(m),
                    Ok(s2) => match stx_code(size) {
                        None => Err("unsupported store size: "@ + decimal(size as nat)),
                        Some(c) => Ok(push_g(s2, insn(c, R1, R2, 0, 0))),
                    },
                },
            }
        },
        Opcode::LoadCtx { offset, size } => load_ctx_g(st, ids, res, offset, size),
        Opcode::LoadPacket { offset, size } => load_ctx_g(st, ids, res, offset, size),
        Opcode::HelperCall { id } => helper_g(st, ids, res, id, ops),
        Opcode::RingBufSubmit { .. } => if ops.len() == 0 {
            Err("ringbuf submit expects pointer operand"@)
        } else {
            match load_g(st, ids, R1, ops[0]) {
                Err(m) => Err(m),
                Ok(s) => store_g(push_g(push_g(push_g(s, insn(BPF_MOV64_IMM, R2, 0, 0, 0)), insn(BPF_CALL, 0, 0, 0, 132)),
                    insn(BPF_MOV64_IMM, R0, 0, 0, 0)), ids, res, R0),
            }
        },
        Opcode::CopyCtxToMem { offset, size } => if ops.len() == 0 {
            Err("CopyCtxToMem expects destination operand"@)
        } else {
            match load_g(st, ids, R1, ops[0]) {
                Err(m) => Err(m),
                Ok(s) => if !fits_imm(size as int) {
                    Err(imm_error(size as int))
                } else {
                    store_g(push_g(push_g(push_g(push_g(s, insn(BPF_MOV64_IMM, R2, 0, 0, size as i32)),
                        insn(BPF_MOV64_REG, R3, R6, 0, 0)), insn(0x07, R3, 0, 0, offset)), insn(BPF_CALL, 0, 0, 0, 113)),
                        ids, res, R0)
                },
            }
        },
        _ => Err(Seq::empty()),
    }
}

/// A load of `size` bytes at `offset` from the context into `res`.
pub open spec fn load_ctx_g(st: GenState, ids: Seq<u32>, res: VarId, offset: i32, size: u8) -> Gen {
    match ldx_code(size) {
        None => Err("unsupported load size: "@ + decimal(size as nat)),
        Some(c) => if !(i16::MIN <= offset <= i16::MAX) {
            Err("offset "@ + signed_decimal(offset as int) + " does not fit in eBPF off16"@)
        } else {
            store_g(push_g(st, insn(c, R0, R6, offset as i16, 0)), ids, res, R0)
        },
    }
}

/// A null check of `ops[0]` into `result`: as a branch condition it stores
/// 1 or 0; otherwise a null pointer ends the program with 0.
pub open spec fn null_g(st: GenState, ids: Seq<u32>, result: VarId, ops: Seq<Operand>, cond: bool) -> Gen {
    if ops.len() == 0 {
        Err("NullCheck expects pointer operand"@)
    } else {
        match load_g(st, ids, R0, ops[0]) {
            Err(m) => Err(m),
            Ok(s) => {
                let s2 = if cond {
                    push_g(push_g(push_g(push_g(s, insn(BPF_JEQ_IMM, R0, 0, 2, 0)), insn(BPF_MOV64_IMM, R0, 0, 0, 1)),
                        insn(BPF_JA, 0, 0, 1, 0)), insn(BPF_MOV64_IMM, R0, 0, 0, 0))
                } else {
                    push_g(push_g(push_g(push_g(push_g(s, insn(BPF_JEQ_IMM, R0, 0, 1, 0)), insn(BPF_JA, 0, 0, 2, 0)),
                        insn(BPF_MOV64_IMM, R0, 0, 0, 0)), insn(BPF_EXIT, 0, 0, 0, 0)), insn(BPF_MOV64_IMM, R0, 0, 0, 1))
                };
                store_g(s2, ids, result, R0)
            },
        }
    }
}

/// The code of one instruction; `bvars` are the branch conditions.
#[verifier::opaque]
pub open spec fn inst_g(st: GenState, ids: Seq<u32>, bvars: Seq<u32>, inst: Instruction) -> Gen {
    match inst.opcode {
        Opcode::CallMap { map_name } => call_map_g(st, ids, inst.result, map_name, inst.operands@),
        Opcode::UpdateMap { map_name } => update_map_g(st, ids, inst.result, map_name, inst.operands@),
        Opcode::RingBufReserve { map_name, size } => reserve_g(st, ids, inst.result, map_name, size),
        Opcode::NullCheck => null_g(st, ids, inst.result, inst.operands@, bvars.contains(inst.result.0)),
        _ => plain_g(st, ids, inst),
    }
}

/// An unpatched jump to block `target`.
pub open spec fn jump_g(st: GenState, target: u32) -> GenState {
    GenState {
        insns: st.insns.push(insn(BPF_JA, 0, 0, 0, 0)),
        fixups: st.fixups.push((st.insns.len() as usize, target)),
        ..st
    }
}

/// The code of a terminator: a return, a jump, or a branch to the true
/// block that falls back to a jump to the false block.
pub open spec fn term_g(st: GenState, ids: Seq<u32>, t: Terminator) -> Gen {
    match t {
        Terminator::Return(op) => match load_g(st, ids, R0, op) {
            Err(m) => Err(m),
            Ok(s) => Ok(push_g(s, insn(BPF_EXIT, 0, 0, 0, 0))),
        },
        Terminator::Jump(target) => Ok(jump_g(st, target.0)),
        Terminator::Branch { condition, true_block, false_block } => match load_g(st, ids, R0, condition) {
            Err(m) => Err(m),
            Ok(s) => {
                let s2 = jump_g(push_g(s, insn(BPF_JNE_IMM, R0, 0, 0, 0)), false_block.0);
                Ok(GenState { fixups: s2.fixups.push((s.insns.len() as usize, true_block.0)), ..s2 })
            },
        },
    }
}

proof fn lemma_load_g_keeps_fixups(st: GenState, ids: Seq<u32>, dst: u8, op: Operand)
    requires
        load_g(st, ids, dst, op) is Ok,
    ensures
        load_g(st, ids, dst, op)->Ok_0.fixups == st.fixups,
        load_g(st, ids, dst, op)->Ok_0.insns.len() == st.insns.len() + 1,
{
}

/// Where control goes after the two jumps that end a branch, at `k` and
/// `k + 1`, when the condition register holds `v`: the first jump's target
/// when the machine takes it, else the second's; the targets are the blocks
/// the pending jumps at those positions name.
pub open spec fn branch_target(s: GenState, k: int, v: u64) -> Option<u32> {
    let t1 = choose|t: u32| #[trigger] s.fixups.contains((k as usize, t));
    let t2 = choose|t: u32| #[trigger] s.fixups.contains(((k + 1) as usize, t));
    match jmp_imm_taken(s.insns[k].code, v, s.insns[k].imm as u64) {
        Some(true) => Some(t1),
        Some(false) => match jmp_imm_taken(s.insns[k + 1].code, v, s.insns[k + 1].imm as u64) {
            Some(true) => Some(t2),
            _ => None,
        },
        None => None,
    }
}

/// The two jumps pushed last are the only ones pending at their positions.
proof fn lemma_last_two_fixups(old: Seq<(usize, u32)>, n: int, a: u32, b: u32)
    requires
        0 <= n,
        n + 2 <= usize::MAX,
        forall|i: int| 0 <= i < old.len() ==> (#[trigger] old[i]).0 < n,
    ensures
        ({
            let s2 = old.push(((n + 1) as usize, b)).push((n as usize, a));
            &&& s2.contains((n as usize, a))
            &&& s2.contains(((n + 1) as usize, b))
            &&& forall|x: u32| #[trigger] s2.contains((n as usize, x)) ==> x == a
            &&& forall|x: u32| #[trigger] s2.contains(((n + 1) as usize, x)) ==> x == b
        }),
{
    let s2 = old.push(((n + 1) as usize, b)).push((n as usize, a));
    assert(s2[s2.len() - 1] == (n as usize, a));
    assert(s2[s2.len() - 2] == ((n + 1) as usize, b));
    assert forall|x: u32| #[trigger] s2.contains((n as usize, x)) implies x == a by {
        let i = choose|i: int| 0 <= i < s2.len() && s2[i] == (n as usize, x);
        if i < old.len() {
            assert(s2[i] == old[i]);
        }
    }
    assert forall|x: u32| #[trigger] s2.contains(((n + 1) as usize, x)) implies x == b by {
        let i = choose|i: int| 0 <= i < s2.len() && s2[i] == ((n + 1) as usize, x);
        if i < old.len() {
            assert(s2[i] == old[i]);
        }
    }
}

/// A branch loads its condition into `r0` and ends in two jumps that take
/// control to the true block exactly when the condition is nonzero and to
/// the false block otherwise; each jump is pending on exactly one block.
pub proof fn lemma_branch_goes_where_the_condition_says(st: GenState, ids: Seq<u32>, cond: Operand, t: BlockId, f: BlockId)
    requires
        load_g(st, ids, R0, cond) is Ok,
        st.insns.len() + 3 <= usize::MAX,
        forall|i: int| 0 <= i < st.fixups.len() ==> (#[trigger] st.fixups[i]).0 < st.insns.len(),
    ensures
        ({
            let s = load_g(st, ids, R0, cond)->Ok_0;
            let k = s.insns.len() as int;
            term_g(st, ids, Terminator::Branch { condition: cond, true_block: t, false_block: f }) matches Ok(s2)
                && s2.insns.len() == k + 2
                && s2.insns[k].dst == R0
                && forall|v: u64| #[trigger] branch_target(s2, k, v) == Some(if v != 0 { t.0 } else { f.0 })
        }),
{
    let s = load_g(st, ids, R0, cond)->Ok_0;
    lemma_load_g_keeps_fixups(st, ids, R0, cond);
    let k = s.insns.len() as int;
    let s2 = term_g(st, ids, Terminator::Branch { condition: cond, true_block: t, false_block: f })->Ok_0;
    assert(s2.fixups == s.fixups.push(((k + 1) as usize, f.0)).push((k as usize, t.0)));
    lemma_last_two_fixups(s.fixups, k, t.0, f.0);
}

/// The code of a run of instructions, in order.
pub open spec fn insts_g(st: GenState, ids: Seq<u32>, bvars: Seq<u32>, insts: Seq<Instruction>) -> Gen
    decreases insts.len(),
{
    if insts.len() == 0 {
        Ok(st)
    } else {
        match insts_g(st, ids, bvars, insts.drop_last()) {
            Err(m) => Err(m),
            Ok(s) => inst_g(s, ids, bvars, insts.last()),
        }
    }
}

/// The code of one block: its position recorded, its instructions, its terminator.
pub open spec fn block_g(st: GenState, ids: Seq<u32>, bvars: Seq<u32>, b: BasicBlock) -> Gen {
    let s0 = GenState { offsets: st.offsets.push((b.id.0, st.insns.len() as usize)), ..st };
    match insts_g(s0, ids, bvars, b.instructions@) {
        Err(m) => Err(m),
        Ok(s) => term_g(s, ids, b.terminator),
    }
}

/// The code of the blocks, in order.
pub open spec fn blocks_g(st: GenState, ids: Seq<u32>, bvars: Seq<u32>, bs: Seq<BasicBlock>) -> Gen
    decreases bs.len(),
{
    if bs.len() == 0 {
        Ok(st)
    } else {
        match blocks_g(st, ids, bvars, bs.drop_last()) {
            Err(m) => Err(m),
            Ok(s) => block_g(s, ids, bvars, bs.last()),
        }
    }
}

/// The position last recorded for block `id`.
pub open spec fn block_pos(offsets: Seq<(u32, usize)>, id: u32) -> Option<usize>
    decreases offsets.len(),
{
    if offsets.len() == 0 {
        None
    } else if offsets.last().0 == id {
        Some(offsets.last().1)
    } else {
        block_pos(offsets.drop_last(), id)
    }
}

/// The offset of a jump at `idx` that lands on `target`, if it fits.
pub open spec fn jump_off(idx: int, target: int) -> Option<i16> {
    if target > idx {
        if target - idx - 1 > 32767 { None } else { Some((target - idx - 1) as i16) }
    } else {
        if idx + 1 - target > 32768 { None } else { Some((target - idx - 1) as i16) }
    }
}

/// The instructions with the jumps of `fixups` aimed at their blocks, in
/// the order the jumps were recorded.
pub open spec fn patch_g(insns: Seq<Insn>, fixups: Seq<(usize, u32)>, offsets: Seq<(u32, usize)>) -> Result<Seq<Insn>, Seq<char>>
    decreases fixups.len(),
{
    if fixups.len() == 0 {
        Ok(insns)
    } else {
        match patch_g(insns, fixups.drop_last(), offsets) {
            Err(m) => Err(m),
            Ok(s) => {
                let (idx, id) = fixups.last();
                match block_pos(offsets, id) {
                    None => Err("invalid jump target block "@ + decimal(id as nat)),
                    Some(t) => match jump_off(idx as int, t as int) {
                        None => Err("jump to block "@ + decimal(id as nat) + " exceeds eBPF range"@),
                        Some(off) => Ok(s.update(idx as int, Insn { off, ..s[idx as int] })),
                    },
                }
            },
        }
    }
}

/// The variables of the blocks, each once, in increasing order: one stack
/// slot each.
pub open spec fn slot_ids(bs: Seq<BasicBlock>) -> Seq<u32> {
    choose|s: Seq<u32>| strictly_sorted(s) && s.to_set() == blocks_ids(bs, true).to_set()
}

/// The state code generation starts from: the context pointer saved in `r6`.
pub open spec fn gen_start() -> GenState {
    GenState {
        insns: seq![insn(BPF_MOV64_REG, R6, R1, 0, 0)],
        relocs: Seq::empty(),
        fixups: Seq::empty(),
        offsets: Seq::empty(),
        scratch: 0,
    }
}

/// The patched instructions and the relocations of the blocks' code, for a
/// unit whose frame fits.
pub open spec fn gen_code(bs: Seq<BasicBlock>, bvars: Seq<u32>) -> Result<(Seq<Insn>, Seq<ProgramReloc>), Seq<char>> {
    match blocks_g(gen_start(), slot_ids(bs), bvars, bs) {
        Err(m) => Err(m),
        Ok(s) => match patch_g(s.insns, s.fixups, s.offsets) {
            Err(m) => Err(m),
            Ok(p) => Ok((p, s.relocs)),
        },
    }
}


/// A failure in a prefix of a run of instructions is the run's failure.
pub proof fn lemma_insts_g_err_extends(st: GenState, ids: Seq<u32>, bvars: Seq<u32>, insts: Seq<Instruction>, k: int)
    requires
        0 <= k <= insts.len(),
        insts_g(st, ids, bvars, insts.subrange(0, k)) is Err,
    ensures
        insts_g(st, ids, bvars, insts) == insts_g(st, ids, bvars, insts.subrange(0, k)),
    decreases insts.len(),
{
    if k < insts.len() {
        let init = insts.drop_last();
        assert(init.subrange(0, k) == insts.subrange(0, k));
        lemma_insts_g_err_extends(st, ids, bvars, init, k);
    } else {
        assert(insts.subrange(0, k) == insts);
    }
}

/// A failure in a prefix of the blocks is the failure of all of them.
pub proof fn lemma_blocks_g_err_extends(st: GenState, ids: Seq<u32>, bvars: Seq<u32>, bs: Seq<BasicBlock>, k: int)
    requires
        0 <= k <= bs.len(),
        blocks_g(st, ids, bvars, bs.subrange(0, k)) is Err,
    ensures
        blocks_g(st, ids, bvars, bs) == blocks_g(st, ids, bvars, bs.subrange(0, k)),
    decreases bs.len(),
{
    if k < bs.len() {
        let init = bs.drop_last();
        assert(init.subrange(0, k) == bs.subrange(0, k));
        lemma_blocks_g_err_extends(st, ids, bvars, init, k);
    } else {
        assert(bs.subrange(0, k) == bs);
    }
}

} // verus!
