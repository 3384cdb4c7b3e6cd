//! Code generation for tracepoint units: every IR variable lives in its own
//! 8-byte stack slot, blocks are laid out in order and jumps are patched
//! once every block's position is known.
use vstd::prelude::*;
use crate::emit::ebpf::elf::ProgramReloc;
use crate::emit::ebpf::insn::{
    alu64_imm, alu64_imm_code, alu64_reg, insn_le_bytes, ldx_code, ldx_mem, stx_code, stx_mem, Insn,
    BPF_CALL, BPF_EXIT, BPF_JA, BPF_JEQ_IMM, BPF_JNE_IMM, BPF_LD_DW_IMM, BPF_MOV64_IMM, BPF_MOV64_REG, R0,
    R1, R10, R2, R3, R4, R6,
};
use crate::emit::vars::{blocks_ids, branch_ids, branch_condition_vars, collect_var_ids, contains_u32, index_of_u32, sorted_unique, strictly_sorted};
use crate::ir::instruction::{BinaryOp, Opcode, Operand, VarId};
use crate::ir::unit::{BasicBlock, Terminator, UnitIr};
use crate::emit::ebpf::model::{
    addr_g, binary_g, block_g, block_pos, blocks_g, call_map_g, gen_code, gen_start, helper_g, inst_g, insts_g, jump_g,
    jump_off, ldimm_g, load_ctx_g, load_g, null_g, patch_g, plain_g, push_g, reserve_g, slot_g, slot_ids, slot_index,
    store_g, term_g, update_map_g, imm_error, lemma_blocks_g_err_extends, lemma_insts_g_err_extends, Gen, GenState,
};
use crate::text::{concat2, concat3, decimal, owned, push_decimal, push_decimal_u128, push_signed_decimal, signed_decimal, u64_to_decimal};

verus! {

/// A compiled program: its instruction bytes and the map relocations it needs.
#[derive(Debug)]
pub struct CompiledProgram {
    pub code: Vec<u8>,
    pub relocs: Vec<ProgramReloc>,
}

/// The opcodes this back end emits as jumps.
pub open spec fn is_jump(code: u8) -> bool {
    code == BPF_JA || code == BPF_JEQ_IMM || code == BPF_JNE_IMM
}

/// The jump at `k` lands on an instruction of `s`.
pub open spec fn jump_lands(s: Seq<Insn>, k: int) -> bool {
    0 <= k + s[k].off + 1 < s.len()
}

/// Every jump of `s` lands on an instruction of `s`.
pub open spec fn jumps_in_range(s: Seq<Insn>) -> bool {
    forall|k: int| 0 <= k < s.len() && is_jump(#[trigger] s[k].code) ==> jump_lands(s, k)
}

/// `r` points at the first half of a 64-bit map-address load in `s`.
pub open spec fn reloc_at(s: Seq<Insn>, r: ProgramReloc) -> bool {
    &&& r.offset % 8 == 0
    &&& r.offset / 8 + 1 < s.len()
    &&& s[(r.offset / 8) as int].code == BPF_LD_DW_IMM
    &&& s[(r.offset / 8) as int].src == 1
}

/// The bytes of a sequence of instructions.
pub open spec fn insns_le(s: Seq<Insn>) -> Seq<u8>
    decreases s.len(),
{
    if s.len() == 0 { Seq::empty() } else { insns_le(s.drop_last()) + insn_le_bytes(s.last()) }
}

/// The map an instruction addresses through a relocation, if any.
pub open spec fn reloc_map(op: Opcode) -> Option<Seq<char>> {
    match op {
        Opcode::CallMap { map_name } => Some(map_name@),
        Opcode::UpdateMap { map_name } => Some(map_name@),
        Opcode::RingBufReserve { map_name, .. } => Some(map_name@),
        _ => None,
    }
}

/// Some instruction of the blocks addresses the map `name`.
pub open spec fn uses_map(blocks: Seq<BasicBlock>, name: Seq<char>) -> bool {
    exists|b: int, i: int|
        0 <= b < blocks.len() && 0 <= i < blocks[b].instructions@.len()
            && #[trigger] reloc_map(blocks[b].instructions@[i].opcode) == Some(name)
}

/// The stack the unit needs: one slot per distinct variable plus eight
/// scratch slots, eight bytes each.
pub open spec fn frame_bytes(blocks: Seq<BasicBlock>) -> nat {
    (blocks_ids(blocks, true).to_set().len() + 8) * 8
}

/// The first instruction saves the context pointer in `r6`.
pub open spec fn prologue() -> Insn {
    Insn { code: BPF_MOV64_REG, dst: R6, src: R1, off: 0, imm: 0 }
}

/// `p` is the encoding of `s`, a program that starts with the prologue,
/// whose jumps all land inside it and whose relocations each point at a
/// map-address load of a map that the unit uses.
pub open spec fn well_formed_code(p: CompiledProgram, s: Seq<Insn>, blocks: Seq<BasicBlock>) -> bool {
    &&& p.code@ == insns_le(s)
    &&& s.len() >= 1
    &&& s[0] == prologue()
    &&& jumps_in_range(s)
    &&& forall|j: int| 0 <= j < p.relocs@.len() ==> reloc_at(s, #[trigger] p.relocs@[j])
        && uses_map(blocks, p.relocs@[j].symbol@)
}

/// The stack slots of a unit: every variable of the unit has one, in
/// increasing order of id, and the frame fits in 512 bytes.
pub open spec fn slots_assigned(bs: Seq<BasicBlock>) -> bool {
    &&& strictly_sorted(slot_ids(bs))
    &&& slot_ids(bs).to_set() == blocks_ids(bs, true).to_set()
    &&& frame_bytes(bs) <= 512
}

/// Distinct variables of a unit whose slots are assigned get disjoint
/// eight-byte stack slots, all within the 512-byte frame below `r10`.
pub proof fn lemma_slots_disjoint(bs: Seq<BasicBlock>, a: u32, b: u32)
    requires
        slots_assigned(bs),
        blocks_ids(bs, true).contains(a),
        blocks_ids(bs, true).contains(b),
        a != b,
    ensures
        slot_g(slot_ids(bs), a) matches Ok(x) && slot_g(slot_ids(bs), b) matches Ok(y)
            && -512 <= x <= -8 && -512 <= y <= -8 && (x - y >= 8 || y - x >= 8),
{
    let ids = slot_ids(bs);
    assert(ids.to_set().contains(a) && ids.to_set().contains(b));
    assert(ids.no_duplicates()) by {
        assert forall|i: int, j: int| 0 <= i < ids.len() && 0 <= j < ids.len() && i != j implies ids[i] != ids[j] by {
            if i < j { assert(ids[i] < ids[j]); } else { assert(ids[j] < ids[i]); }
        }
    }
    ids.unique_seq_to_set();
    assert(blocks_ids(bs, true).to_set() == ids.to_set());
    assert(ids.len() <= 56);
    let ia = choose|i: int| 0 <= i < ids.len() && ids[i] == a;
    assert forall|j: int| 0 <= j < ia implies ids[j] != a by { assert(ids[j] < ids[ia]); }
    let ib = choose|i: int| 0 <= i < ids.len() && ids[i] == b;
    assert forall|j: int| 0 <= j < ib implies ids[j] != b by { assert(ids[j] < ids[ib]); }
    let sa = slot_index(ids, a);
    let sb = slot_index(ids, b);
    assert(0 <= sa < ids.len() && ids[sa] == a);
    assert(0 <= sb < ids.len() && ids[sb] == b);
    assert(sa != sb);
    assert(-8 * (sa + 1) >= -448 && -8 * (sb + 1) >= -448);
}

/// The message for a unit whose stack frame is too large.
pub open spec fn frame_error(name: Seq<char>, bytes: nat) -> Seq<char> {
    "tracepoint '"@ + name + "' needs "@ + decimal(bytes) + " bytes of eBPF stack, maximum is 512"@
}

struct Builder {
    insns: Vec<Insn>,
    relocs: Vec<ProgramReloc>,
    /// Distinct variables in increasing order; variable `ids[i]` lives at
    /// `r10 - 8 * (i + 1)`.
    ids: Vec<u32>,
    fixups: Vec<(usize, u32)>,
    block_offsets: Vec<(u32, usize)>,
    next_scratch: usize,
}

/// The builder's output so far, as a value.
spec fn gen_view(b: Builder) -> GenState {
    GenState { insns: b.insns@, relocs: b.relocs@, fixups: b.fixups@, offsets: b.block_offsets@, scratch: b.next_scratch }
}

/// `r` and the builder after it are what `g` says, a failure by its message.
spec fn gen_as(g: Gen, r: Result<(), String>, after: GenState) -> bool {
    match g {
        Ok(st) => r is Ok && after == st,
        Err(m) => r matches Err(e) && e@ == m,
    }
}

spec fn has_fixup(f: Seq<(usize, u32)>, k: int) -> bool {
    exists|j: int| 0 <= j < f.len() && (#[trigger] f[j]).0 == k
}

spec fn local_ok(s: Seq<Insn>, f: Seq<(usize, u32)>) -> bool {
    forall|k: int| 0 <= k < s.len() && is_jump(#[trigger] s[k].code) ==> has_fixup(f, k) || jump_lands(s, k)
}

spec fn fixups_ok(s: Seq<Insn>, f: Seq<(usize, u32)>) -> bool {
    forall|j: int| 0 <= j < f.len() ==> (#[trigger] f[j]).0 < s.len() && is_jump(s[f[j].0 as int].code)
}

spec fn relocs_ok(s: Seq<Insn>, r: Seq<ProgramReloc>) -> bool {
    forall|j: int| 0 <= j < r.len() ==> reloc_at(s, #[trigger] r[j])
}

spec fn plain_ext(a: Seq<Insn>, b: Seq<Insn>) -> bool {
    &&& a.len() <= b.len()
    &&& b.subrange(0, a.len() as int) == a
    &&& forall|k: int| a.len() <= k < b.len() ==> !is_jump(#[trigger] b[k].code)
}

impl Builder {
    spec fn frame_ok(&self) -> bool {
        &&& strictly_sorted(self.ids@)
        &&& self.ids@.len() <= 56
        &&& self.next_scratch < 8
    }

    spec fn tables_of(&self) -> (Seq<ProgramReloc>, Seq<u32>, Seq<(usize, u32)>, Seq<(u32, usize)>) {
        (self.relocs@, self.ids@, self.fixups@, self.block_offsets@)
    }

    spec fn inv(&self) -> bool {
        &&& self.frame_ok()
        &&& local_ok(self.insns@, self.fixups@)
        &&& fixups_ok(self.insns@, self.fixups@)
        &&& relocs_ok(self.insns@, self.relocs@)
    }

    fn push(&mut self, insn: Insn)
        requires
            !is_jump(insn.code),
        ensures
            final(self).insns@ == old(self).insns@.push(insn),
            final(self).tables_of() == old(self).tables_of(),
            final(self).next_scratch == old(self).next_scratch,
            plain_ext(old(self).insns@, final(self).insns@),
    {
        self.insns.push(insn);
        assert(self.insns@.subrange(0, old(self).insns@.len() as int) =~= old(self).insns@);
    }

    fn slot(&self, id: u32) -> (r: Result<i16, String>)
        requires
            self.frame_ok(),
        ensures
            match slot_g(self.ids@, id) {
                Ok(o) => r == Ok::<i16, String>(o),
                Err(m) => r matches Err(e) && e@ == m,
            },
    {
        match index_of_u32(&self.ids, id) {
            Some(idx) => {
                proof {
                    let i = slot_index(self.ids@, id);
                    assert(self.ids@.contains(id));
                    assert(0 <= i < self.ids@.len() && self.ids@[i] == id && forall|j: int| 0 <= j < i ==> self.ids@[j] != id);
                    if i < idx {
                        assert(self.ids@[i] < self.ids@[idx as int]);
                    } else if i > idx {
                        assert(self.ids@[idx as int] != id);
                    }
                }
                Ok(-8 * (idx as i16 + 1))
            },
            None => {
                let mut s = owned("missing stack slot for v");
                push_decimal(&mut s, id as u64);
                assert(!self.ids@.contains(id));
                Err(s)
            },
        }
    }

    fn emit_load_operand(&mut self, dst: u8, op: &Operand) -> (r: Result<(), String>)
        requires
            old(self).frame_ok(),
        ensures
            gen_as(load_g(gen_view(*old(self)), old(self).ids@, dst, *op), r, gen_view(*final(self))),
            final(self).ids@ == old(self).ids@,
            r is Ok ==> final(self).insns@.len() == old(self).insns@.len() + 1
                && plain_ext(old(self).insns@, final(self).insns@)
                && final(self).tables_of() == old(self).tables_of()
                && final(self).frame_ok(),
    {
        match op {
            Operand::Immediate(value) => {
                let imm = imm32(*value)?;
                self.push(Insn::new(BPF_MOV64_IMM, dst, 0, 0, imm));
            },
            Operand::Var(VarId(id)) => {
                let off = self.slot(*id)?;
                let code = ldx_mem(8)?;
                self.push(Insn::new(code, dst, R10, off, 0));
            },
        }
        Ok(())
    }

    fn emit_store_var(&mut self, id: VarId, src: u8) -> (r: Result<(), String>)
        requires
            old(self).frame_ok(),
        ensures
            gen_as(store_g(gen_view(*old(self)), old(self).ids@, id, src), r, gen_view(*final(self))),
            final(self).ids@ == old(self).ids@,
            r is Ok ==> final(self).insns@.len() == old(self).insns@.len() + 1
                && plain_ext(old(self).insns@, final(self).insns@)
                && final(self).tables_of() == old(self).tables_of()
                && final(self).frame_ok(),
    {
        let off = self.slot(id.0)?;
        let code = stx_mem(8)?;
        self.push(Insn::new(code, R10, src, off, 0));
        Ok(())
    }

    fn take_scratch(&mut self) -> (r: i16)
        requires
            old(self).frame_ok(),
        ensures
            r == (-8 * (old(self).ids@.len() + old(self).next_scratch + 1)) as i16,
            final(self).next_scratch == (old(self).next_scratch + 1) % 8,
            final(self).ids@ == old(self).ids@,
            final(self).relocs@ == old(self).relocs@,
            final(self).fixups@ == old(self).fixups@,
            final(self).block_offsets@ == old(self).block_offsets@,
            final(self).insns@ == old(self).insns@,
            final(self).frame_ok(),
            final(self).insns@ == old(self).insns@,
            final(self).tables_of() == old(self).tables_of(),
    {
        // Slot `i` of the eight scratch slots lies below every variable slot.
        let slot = -8 * (self.ids.len() as i16 + self.next_scratch as i16 + 1);
        self.next_scratch = (self.next_scratch + 1) % 8;
        slot
    }

    fn emit_operand_addr(&mut self, dst: u8, op: &Operand) -> (r: Result<(), String>)
        requires
            old(self).frame_ok(),
        ensures
            gen_as(addr_g(gen_view(*old(self)), old(self).ids@, dst, *op), r, gen_view(*final(self))),
            final(self).ids@ == old(self).ids@,
            r is Ok ==> plain_ext(old(self).insns@, final(self).insns@)
                && final(self).tables_of() == old(self).tables_of()
                && final(self).frame_ok(),
    {
        match op {
            Operand::Var(VarId(id)) => {
                let off = self.slot(*id)?;
                self.push(Insn::new(BPF_MOV64_REG, dst, R10, 0, 0));
                self.push(Insn::new(0x07, dst, 0, 0, off as i32));
            },
            Operand::Immediate(value) => {
                let slot = self.take_scratch();
                let imm = imm32(*value)?;
                let code = stx_mem(8)?;
                self.push(Insn::new(BPF_MOV64_IMM, dst, 0, 0, imm));
                self.push(Insn::new(code, R10, dst, slot, 0));
                self.push(Insn::new(BPF_MOV64_REG, dst, R10, 0, 0));
                self.push(Insn::new(0x07, dst, 0, 0, slot as i32));
            },
        }
        assert(self.insns@.subrange(0, old(self).insns@.len() as int) =~= old(self).insns@);
        Ok(())
    }

    fn emit_map_ldimm(&mut self, dst: u8, map_name: &String)
        requires
            old(self).frame_ok(),
            old(self).insns@.len() * 8 <= u64::MAX,
        ensures
            gen_view(*final(self)) == ldimm_g(gen_view(*old(self)), dst, *map_name),
            final(self).ids@ == old(self).ids@,
            final(self).frame_ok(),
            plain_ext(old(self).insns@, final(self).insns@),
            final(self).insns@.len() == old(self).insns@.len() + 2,
            final(self).insns@[old(self).insns@.len() as int].code == BPF_LD_DW_IMM,
            final(self).insns@[old(self).insns@.len() as int].src == 1,
            final(self).relocs@ == old(self).relocs@.push(ProgramReloc {
                offset: (old(self).insns@.len() * 8) as u64,
                symbol: *map_name,
            }),
            final(self).ids@ == old(self).ids@,
            final(self).fixups@ == old(self).fixups@,
            final(self).block_offsets@ == old(self).block_offsets@,
    {
        let offset = (self.insns.len() as u64) * 8;
        self.push(Insn::new(BPF_LD_DW_IMM, dst, 1, 0, 0));
        self.push(Insn::new(0, 0, 0, 0, 0));
        self.relocs.push(ProgramReloc { offset, symbol: map_name.clone() });
        assert(self.insns@.subrange(0, old(self).insns@.len() as int) =~= old(self).insns@);
    }

    fn emit_jump_to_block(&mut self, target: u32)
        ensures
            gen_view(*final(self)) == jump_g(gen_view(*old(self)), target),
            final(self).ids@ == old(self).ids@,
            final(self).insns@ == old(self).insns@.push(Insn { code: BPF_JA, dst: 0, src: 0, off: 0, imm: 0 }),
            final(self).fixups@ == old(self).fixups@.push((old(self).insns.len(), target)),
            final(self).relocs@ == old(self).relocs@,
            final(self).ids@ == old(self).ids@,
            final(self).block_offsets@ == old(self).block_offsets@,
            final(self).next_scratch == old(self).next_scratch,
    {
        let idx = self.insns.len();
        self.insns.push(Insn::new(BPF_JA, 0, 0, 0, 0));
        self.fixups.push((idx, target));
    }
}

proof fn lemma_plain_ext_trans(a: Seq<Insn>, b: Seq<Insn>, c: Seq<Insn>)
    requires
        plain_ext(a, b),
        plain_ext(b, c),
    ensures
        plain_ext(a, c),
{
    assert(c.subrange(0, a.len() as int) =~= b.subrange(0, a.len() as int));
    assert forall|k: int| a.len() <= k < c.len() implies !is_jump(#[trigger] c[k].code) by {
        if k < b.len() {
            assert(c[k] == b[k]);
        }
    }
}

proof fn lemma_plain_ext_inv(a: &Builder, b: &Builder)
    requires
        a.inv(),
        b.frame_ok(),
        plain_ext(a.insns@, b.insns@),
        b.relocs@ == a.relocs@,
        b.fixups@ == a.fixups@,
    ensures
        b.inv(),
{
    assert forall|k: int| 0 <= k < b.insns@.len() && is_jump(#[trigger] b.insns@[k].code)
        implies has_fixup(b.fixups@, k) || jump_lands(b.insns@, k) by {
        if k < a.insns@.len() {
            assert(b.insns@[k] == a.insns@[k]);
        }
    }
    assert forall|j: int| 0 <= j < b.relocs@.len() implies reloc_at(b.insns@, #[trigger] b.relocs@[j]) by {
        let r = b.relocs@[j];
        assert(reloc_at(a.insns@, a.relocs@[j]));
        assert(b.insns@[(r.offset / 8) as int] == a.insns@[(r.offset / 8) as int]);
    }
}

fn imm32(value: i64) -> (r: Result<i32, String>)
    ensures
        r matches Ok(v) ==> v == value,
        r is Ok <==> i32::MIN <= value <= i32::MAX,
        r matches Err(e) ==> e@ == imm_error(value as int),
{
    if value >= i32::MIN as i64 && value <= i32::MAX as i64 {
        Ok(value as i32)
    } else {
        let mut s = owned("immediate ");
        push_signed_decimal(&mut s, value);
        s.append(" does not fit in eBPF imm32");
        assert(s@ =~= imm_error(value as int));
        Err(s)
    }
}

fn checked_i16(value: i32) -> (r: Result<i16, String>)
    ensures
        r matches Ok(v) ==> v == value,
        r is Ok <==> i16::MIN <= value <= i16::MAX,
        r matches Err(e) ==> e@ == "offset "@ + signed_decimal(value as int) + " does not fit in eBPF off16"@,
{
    if value >= i16::MIN as i32 && value <= i16::MAX as i32 {
        Ok(value as i16)
    } else {
        let mut s = owned("offset ");
        push_signed_decimal(&mut s, value as i64);
        s.append(" does not fit in eBPF off16");
        assert(s@ =~= "offset "@ + signed_decimal(value as int) + " does not fit in eBPF off16"@);
        Err(s)
    }
}

fn emit_binary(b: &mut Builder, result: VarId, op: BinaryOp, operands: &Vec<Operand>) -> (r: Result<(), String>)
    requires
        old(b).frame_ok(),
    ensures
        gen_as(binary_g(gen_view(*old(b)), old(b).ids@, result, op, operands@), r, gen_view(*final(b))),
        final(b).ids@ == old(b).ids@,
        r is Ok ==> plain_ext(old(b).insns@, final(b).insns@) && final(b).tables_of() == old(b).tables_of()
            && final(b).frame_ok(),
{
    if operands.len() != 2 {
        return Err(owned("binary instruction expects two operands"));
    }
    b.emit_load_operand(R0, &operands[0])?;
    let ghost mid = b.insns@;
    match &operands[1] {
        Operand::Immediate(value) => {
            let imm = imm32(*value)?;
            b.push(Insn::new(alu64_imm(op), R0, 0, 0, imm));
        },
        Operand::Var(_) => {
            b.emit_load_operand(R1, &operands[1])?;
            b.push(Insn::new(alu64_reg(op), R0, R1, 0, 0));
        },
    }
    let ghost mid2 = b.insns@;
    b.emit_store_var(result, R0)?;
    assert(b.insns@.subrange(0, old(b).insns@.len() as int) =~= old(b).insns@);
    assert forall|k: int| old(b).insns@.len() <= k < b.insns@.len() implies !is_jump(#[trigger] b.insns@[k].code) by {
        if k < mid.len() {
            assert(b.insns@[k] == mid[k]);
        } else if k < mid2.len() {
            assert(b.insns@[k] == mid2[k]);
        }
    }
    Ok(())
}

fn emit_helper_call(b: &mut Builder, result: VarId, id: u32, operands: &Vec<Operand>) -> (r: Result<(), String>)
    requires
        old(b).frame_ok(),
    ensures
        gen_as(helper_g(gen_view(*old(b)), old(b).ids@, result, id, operands@), r, gen_view(*final(b))),
        final(b).ids@ == old(b).ids@,
        r is Ok ==> plain_ext(old(b).insns@, final(b).insns@) && final(b).tables_of() == old(b).tables_of()
            && final(b).frame_ok(),
{
    if id == 5 || id == 14 || id == 15 || id == 35 {
        if operands.len() != 0 {
            let mut s = owned("helper ");
            push_decimal(&mut s, id as u64);
            s.append(" expects no operands");
            return Err(s);
        }
    } else if id == 16 {
        return Err(owned("ctx.get_current_comm requires a destination buffer; IR does not carry one yet"));
    } else if id == 202 || id == 204 {
        if operands.len() != 3 {
            let mut s = owned("helper ");
            push_decimal(&mut s, id as u64);
            s.append(" expects dest, size, src operands");
            return Err(s);
        }
        let ghost s0 = b.insns@;
        b.emit_load_operand(R1, &operands[0])?;
        let ghost s1 = b.insns@;
        b.emit_load_operand(R2, &operands[1])?;
        let ghost s2 = b.insns@;
        b.emit_load_operand(R3, &operands[2])?;
        proof {
            lemma_plain_ext_trans(s0, s1, s2);
            lemma_plain_ext_trans(s0, s2, b.insns@);
        }
    } else {
        let n = u64_to_decimal(id as u64);
        return Err(concat2("unsupported helper id ", n.as_str()));
    }
    let ghost mid = b.insns@;
    assert(plain_ext(old(b).insns@, mid)) by {
        assert(mid.subrange(0, old(b).insns@.len() as int) =~= old(b).insns@);
    }
    b.push(Insn::new(BPF_CALL, 0, 0, 0, id as i32));
    let ghost mid2 = b.insns@;
    b.emit_store_var(result, R0)?;
    proof {
        lemma_plain_ext_trans(old(b).insns@, mid, mid2);
        lemma_plain_ext_trans(old(b).insns@, mid2, b.insns@);
    }
    Ok(())
}

spec fn ext_ok(a: Seq<Insn>, b: Seq<Insn>) -> bool {
    &&& a.len() <= b.len()
    &&& b.subrange(0, a.len() as int) == a
    &&& forall|k: int| a.len() <= k < b.len() && is_jump(#[trigger] b[k].code) ==> jump_lands(b, k)
}

proof fn lemma_plain_is_ext(a: Seq<Insn>, b: Seq<Insn>)
    requires
        plain_ext(a, b),
    ensures
        ext_ok(a, b),
{
}

proof fn lemma_ext_trans(a: Seq<Insn>, b: Seq<Insn>, c: Seq<Insn>)
    requires
        ext_ok(a, b),
        ext_ok(b, c),
    ensures
        ext_ok(a, c),
{
    assert(c.subrange(0, a.len() as int) =~= b.subrange(0, a.len() as int));
    assert forall|k: int| a.len() <= k < c.len() && is_jump(#[trigger] c[k].code) implies jump_lands(c, k) by {
        if k < b.len() {
            assert(c[k] == b[k]);
            assert(is_jump(b[k].code));
            assert(jump_lands(b, k));
        }
    }
}

proof fn lemma_relocs_grow(a: Seq<Insn>, b: Seq<Insn>, r: Seq<ProgramReloc>)
    requires
        relocs_ok(a, r),
        a.len() <= b.len(),
        b.subrange(0, a.len() as int) == a,
    ensures
        relocs_ok(b, r),
{
    assert forall|j: int| 0 <= j < r.len() implies reloc_at(b, #[trigger] r[j]) by {
        assert(reloc_at(a, r[j]));
        assert(b[(r[j].offset / 8) as int] == b.subrange(0, a.len() as int)[(r[j].offset / 8) as int]);
    }
}

/// The invariant survives an extension whose new jumps all land, as long as
/// the fixups stay and the relocations are sound.
proof fn lemma_ext_inv(a: &Builder, b: &Builder)
    requires
        a.inv(),
        b.frame_ok(),
        ext_ok(a.insns@, b.insns@),
        b.fixups@ == a.fixups@,
        relocs_ok(b.insns@, b.relocs@),
    ensures
        b.inv(),
{
    assert forall|k: int| 0 <= k < b.insns@.len() && is_jump(#[trigger] b.insns@[k].code)
        implies has_fixup(b.fixups@, k) || jump_lands(b.insns@, k) by {
        if k < a.insns@.len() {
            assert(b.insns@[k] == a.insns@[k]);
        }
    }
    assert forall|j: int| 0 <= j < b.fixups@.len() implies (#[trigger] b.fixups@[j]).0 < b.insns@.len()
        && is_jump(b.insns@[b.fixups@[j].0 as int].code) by {
        assert(a.fixups@[j].0 < a.insns@.len());
        assert(b.insns@[a.fixups@[j].0 as int] == a.insns@[a.fixups@[j].0 as int]);
    }
}

/// A map-address load followed by plain instructions: the load's
/// relocation is new, nothing else changes.
spec fn map_step(a: &Builder, b: &Builder, name: Seq<char>) -> bool {
    &&& plain_ext(a.insns@, b.insns@)
    &&& b.fixups@ == a.fixups@
    &&& b.ids@ == a.ids@
    &&& b.block_offsets@ == a.block_offsets@
    &&& b.frame_ok()
    &&& b.relocs@.len() == a.relocs@.len() + 1
    &&& b.relocs@.subrange(0, a.relocs@.len() as int) == a.relocs@
    &&& b.relocs@.last().offset == a.insns@.len() * 8
    &&& b.relocs@.last().symbol@ == name
    &&& a.insns@.len() + 1 < b.insns@.len()
    &&& b.insns@[a.insns@.len() as int].code == BPF_LD_DW_IMM
    &&& b.insns@[a.insns@.len() as int].src == 1
}

proof fn lemma_map_step_inv(a: &Builder, b: &Builder, name: Seq<char>)
    requires
        a.inv(),
        map_step(a, b, name),
    ensures
        b.inv(),
{
    lemma_relocs_grow(a.insns@, b.insns@, a.relocs@);
    assert forall|j: int| 0 <= j < b.relocs@.len() implies reloc_at(b.insns@, #[trigger] b.relocs@[j]) by {
        if j < a.relocs@.len() {
            assert(b.relocs@[j] == a.relocs@[j]);
        }
    }
    lemma_ext_inv(a, b);
}

fn program_too_large() -> (r: String)
    ensures
        r@ == "program too large"@,
{
    owned("program too large")
}

fn emit_call_map(b: &mut Builder, result: VarId, map_name: &String, operands: &Vec<Operand>) -> (r: Result<(), String>)
    requires
        old(b).frame_ok(),
    ensures
        gen_as(call_map_g(gen_view(*old(b)), old(b).ids@, result, *map_name, operands@), r, gen_view(*final(b))),
        final(b).ids@ == old(b).ids@,
        r is Ok ==> map_step(old(b), final(b), map_name@),
{
    if operands.len() == 0 {
        return Err(owned("map lookup expects a key operand"));
    }
    if b.insns.len() as u64 >= 0x1000_0000_0000_0000u64 {
        return Err(program_too_large());
    }
    let ghost s0 = b.insns@;
    b.emit_map_ldimm(R1, map_name);
    let ghost s1 = b.insns@;
    b.emit_operand_addr(R2, &operands[0])?;
    let ghost s2 = b.insns@;
    b.push(Insn::new(BPF_CALL, 0, 0, 0, 1));
    let ghost s3 = b.insns@;
    b.emit_store_var(result, R0)?;
    proof {
        lemma_plain_ext_trans(s0, s1, s2);
        lemma_plain_ext_trans(s0, s2, s3);
        lemma_plain_ext_trans(s0, s3, b.insns@);
        assert(b.insns@[s0.len() as int] == s1[s0.len() as int]);
        assert(b.relocs@.subrange(0, old(b).relocs@.len() as int) =~= old(b).relocs@);
    }
    Ok(())
}

fn emit_update_map(b: &mut Builder, result: VarId, map_name: &String, operands: &Vec<Operand>) -> (r: Result<(), String>)
    requires
        old(b).frame_ok(),
    ensures
        gen_as(update_map_g(gen_view(*old(b)), old(b).ids@, result, *map_name, operands@), r, gen_view(*final(b))),
        final(b).ids@ == old(b).ids@,
        r is Ok ==> map_step(old(b), final(b), map_name@),
{
    if operands.len() != 2 {
        return Err(owned("map update expects key and value operands"));
    }
    if b.insns.len() as u64 >= 0x1000_0000_0000_0000u64 {
        return Err(program_too_large());
    }
    let ghost s0 = b.insns@;
    b.emit_map_ldimm(R1, map_name);
    let ghost s1 = b.insns@;
    b.emit_operand_addr(R2, &operands[0])?;
    let ghost s2 = b.insns@;
    b.emit_operand_addr(R3, &operands[1])?;
    let ghost s3 = b.insns@;
    b.push(Insn::new(BPF_MOV64_IMM, R4, 0, 0, 0));
    let ghost s4 = b.insns@;
    b.push(Insn::new(BPF_CALL, 0, 0, 0, 2));
    let ghost s5 = b.insns@;
    b.emit_store_var(result, R0)?;
    proof {
        lemma_plain_ext_trans(s0, s1, s2);
        lemma_plain_ext_trans(s0, s2, s3);
        lemma_plain_ext_trans(s0, s3, s4);
        lemma_plain_ext_trans(s0, s4, s5);
        lemma_plain_ext_trans(s0, s5, b.insns@);
        assert(b.insns@[s0.len() as int] == s1[s0.len() as int]);
        assert(b.relocs@.subrange(0, old(b).relocs@.len() as int) =~= old(b).relocs@);
    }
    Ok(())
}

fn emit_ringbuf_reserve(b: &mut Builder, result: VarId, map_name: &String, size: u32) -> (r: Result<(), String>)
    requires
        old(b).frame_ok(),
    ensures
        gen_as(reserve_g(gen_view(*old(b)), old(b).ids@, result, *map_name, size), r, gen_view(*final(b))),
        final(b).ids@ == old(b).ids@,
        r is Ok ==> map_step(old(b), final(b), map_name@),
{
    if b.insns.len() as u64 >= 0x1000_0000_0000_0000u64 {
        return Err(program_too_large());
    }
    let ghost s0 = b.insns@;
    b.emit_map_ldimm(R1, map_name);
    let ghost s1 = b.insns@;
    let imm = imm32(size as i64)?;
    b.push(Insn::new(BPF_MOV64_IMM, R2, 0, 0, imm));
    b.push(Insn::new(BPF_MOV64_IMM, R3, 0, 0, 0));
    b.push(Insn::new(BPF_CALL, 0, 0, 0, 131));
    let ghost s2 = b.insns@;
    b.emit_store_var(result, R0)?;
    proof {
        assert(plain_ext(s1, s2)) by {
            assert(s2.subrange(0, s1.len() as int) =~= s1);
        }
        lemma_plain_ext_trans(s0, s1, s2);
        lemma_plain_ext_trans(s0, s2, b.insns@);
        assert(b.insns@[s0.len() as int] == s1[s0.len() as int]);
        assert(b.relocs@.subrange(0, old(b).relocs@.len() as int) =~= old(b).relocs@);
    }
    Ok(())
}

/// A plain step: only non-jump instructions are added.
spec fn plain_step(a: &Builder, b: &Builder) -> bool {
    plain_ext(a.insns@, b.insns@) && b.tables_of() == a.tables_of() && b.frame_ok()
}

fn emit_plain_inst(b: &mut Builder, inst: &crate::ir::instruction::Instruction) -> (r: Result<(), String>)
    requires
        old(b).frame_ok(),
        reloc_map(inst.opcode) is None,
        !(inst.opcode is NullCheck),
    ensures
        gen_as(plain_g(gen_view(*old(b)), old(b).ids@, *inst), r, gen_view(*final(b))),
        final(b).ids@ == old(b).ids@,
        r is Ok ==> plain_step(old(b), final(b)),
{
    let ghost s0 = b.insns@;
    match &inst.opcode {
        Opcode::Binary { op } => {
            emit_binary(b, inst.result, *op, &inst.operands)?;
        },
        Opcode::LoadKey => {
            if inst.operands.len() == 0 {
                return Err(owned("LoadKey expects one operand"));
            }
            b.emit_load_operand(R1, &inst.operands[0])?;
            let ghost s1 = b.insns@;
            let code = ldx_mem(8)?;
            b.push(Insn::new(code, R0, R1, 0, 0));
            let ghost s2 = b.insns@;
            b.emit_store_var(inst.result, R0)?;
            proof {
                lemma_plain_ext_trans(s0, s1, s2);
                lemma_plain_ext_trans(s0, s2, b.insns@);
            }
        },
        Opcode::Store { size } => {
            if inst.operands.len() != 2 {
                return Err(owned("Store expects pointer and value operands"));
            }
            b.emit_load_operand(R1, &inst.operands[0])?;
            let ghost s1 = b.insns@;
            b.emit_load_operand(R2, &inst.operands[1])?;
            let ghost s2 = b.insns@;
            let code = stx_mem(*size)?;
            b.push(Insn::new(code, R1, R2, 0, 0));
            proof {
                lemma_plain_ext_trans(s0, s1, s2);
                lemma_plain_ext_trans(s0, s2, b.insns@);
            }
        },
        Opcode::LoadCtx { offset, size } | Opcode::LoadPacket { offset, size } => {
            let code = ldx_mem(*size)?;
            let off = checked_i16(*offset)?;
            b.push(Insn::new(code, R0, R6, off, 0));
            let ghost s1 = b.insns@;
            b.emit_store_var(inst.result, R0)?;
            proof {
                lemma_plain_ext_trans(s0, s1, b.insns@);
            }
        },
        Opcode::HelperCall { id } => {
            emit_helper_call(b, inst.result, *id, &inst.operands)?;
        },
        Opcode::RingBufSubmit { .. } => {
            if inst.operands.len() == 0 {
                return Err(owned("ringbuf submit expects pointer operand"));
            }
            b.emit_load_operand(R1, &inst.operands[0])?;
            let ghost s1 = b.insns@;
            b.push(Insn::new(BPF_MOV64_IMM, R2, 0, 0, 0));
            b.push(Insn::new(BPF_CALL, 0, 0, 0, 132));
            b.push(Insn::new(BPF_MOV64_IMM, R0, 0, 0, 0));
            let ghost s2 = b.insns@;
            b.emit_store_var(inst.result, R0)?;
            proof {
                assert(plain_ext(s1, s2)) by {
                    assert(s2.subrange(0, s1.len() as int) =~= s1);
                }
                lemma_plain_ext_trans(s0, s1, s2);
                lemma_plain_ext_trans(s0, s2, b.insns@);
            }
        },
        Opcode::CopyCtxToMem { offset, size } => {
            if inst.operands.len() == 0 {
                return Err(owned("CopyCtxToMem expects destination operand"));
            }
            b.emit_load_operand(R1, &inst.operands[0])?;
            let ghost s1 = b.insns@;
            let imm = imm32(*size as i64)?;
            b.push(Insn::new(BPF_MOV64_IMM, R2, 0, 0, imm));
            b.push(Insn::new(BPF_MOV64_REG, R3, R6, 0, 0));
            b.push(Insn::new(0x07, R3, 0, 0, *offset));
            b.push(Insn::new(BPF_CALL, 0, 0, 0, 113));
            let ghost s2 = b.insns@;
            b.emit_store_var(inst.result, R0)?;
            proof {
                assert(plain_ext(s1, s2)) by {
                    assert(s2.subrange(0, s1.len() as int) =~= s1);
                }
                lemma_plain_ext_trans(s0, s1, s2);
                lemma_plain_ext_trans(s0, s2, b.insns@);
            }
        },
        _ => {
            assert(false);
            return Err(owned(""));
        },
    }
    Ok(())
}

/// A null check. As a branch condition it stores 1 or 0; otherwise a null
/// pointer ends the program with 0 and the variable is set to 1.
fn emit_null_check(b: &mut Builder, result: VarId, operands: &Vec<Operand>, branch_cond: bool) -> (r: Result<(), String>)
    requires
        old(b).frame_ok(),
    ensures
        gen_as(null_g(gen_view(*old(b)), old(b).ids@, result, operands@, branch_cond), r, gen_view(*final(b))),
        final(b).ids@ == old(b).ids@,
        r is Ok ==> ext_ok(old(b).insns@, final(b).insns@) && final(b).tables_of() == old(b).tables_of()
            && final(b).frame_ok(),
{
    if operands.len() == 0 {
        return Err(owned("NullCheck expects pointer operand"));
    }
    let ghost s0 = b.insns@;
    b.emit_load_operand(R0, &operands[0])?;
    let ghost sm = b.insns@;
    let k = b.insns.len();
    if branch_cond {
        b.insns.push(Insn::new(BPF_JEQ_IMM, R0, 0, 2, 0));
        b.insns.push(Insn::new(BPF_MOV64_IMM, R0, 0, 0, 1));
        b.insns.push(Insn::new(BPF_JA, 0, 0, 1, 0));
        b.insns.push(Insn::new(BPF_MOV64_IMM, R0, 0, 0, 0));
        let ghost s1 = b.insns@;
        assert(s1.subrange(0, k as int) =~= sm);
        b.emit_store_var(result, R0)?;
        proof {
            assert(b.insns@.len() == k + 5);
            assert(b.insns@.subrange(0, s1.len() as int) == s1);
            assert(b.insns@[k as int] == s1[k as int]);
            assert(b.insns@[k + 1] == s1[k + 1]);
            assert(b.insns@[k + 2] == s1[k + 2]);
            assert(b.insns@[k + 3] == s1[k + 3]);
            assert(b.insns@.subrange(0, s0.len() as int) =~= s0);
            assert forall|j: int| s0.len() <= j < b.insns@.len() && is_jump(#[trigger] b.insns@[j].code)
                implies jump_lands(b.insns@, j) by {
                if j < k {
                    assert(b.insns@[j] == s1[j]);
                    assert(s1[j] == sm[j]);
                    assert(sm[j] == sm.subrange(0, s0.len() as int + 1)[j] || j >= s0.len());
                }
            }
        }
    } else {
        b.insns.push(Insn::new(BPF_JEQ_IMM, R0, 0, 1, 0));
        b.insns.push(Insn::new(BPF_JA, 0, 0, 2, 0));
        b.insns.push(Insn::new(BPF_MOV64_IMM, R0, 0, 0, 0));
        b.insns.push(Insn::new(BPF_EXIT, 0, 0, 0, 0));
        b.insns.push(Insn::new(BPF_MOV64_IMM, R0, 0, 0, 1));
        let ghost s1 = b.insns@;
        assert(s1.subrange(0, k as int) =~= sm);
        b.emit_store_var(result, R0)?;
        proof {
            assert(b.insns@.len() == k + 6);
            assert(b.insns@.subrange(0, s1.len() as int) == s1);
            assert(b.insns@[k as int] == s1[k as int]);
            assert(b.insns@[k + 1] == s1[k + 1]);
            assert(b.insns@[k + 2] == s1[k + 2]);
            assert(b.insns@[k + 3] == s1[k + 3]);
            assert(b.insns@[k + 4] == s1[k + 4]);
            assert(b.insns@.subrange(0, s0.len() as int) =~= s0);
            assert forall|j: int| s0.len() <= j < b.insns@.len() && is_jump(#[trigger] b.insns@[j].code)
                implies jump_lands(b.insns@, j) by {
                if j < k {
                    assert(b.insns@[j] == s1[j]);
                    assert(s1[j] == sm[j]);
                    assert(sm[j] == sm.subrange(0, s0.len() as int + 1)[j] || j >= s0.len());
                }
            }
        }
    }
    Ok(())
}

/// A fresh builder for `unit`, or the frame error when the unit needs more
/// than 512 bytes of stack.
fn new_builder(unit: &UnitIr) -> (r: Result<Builder, String>)
    ensures
        r is Err <==> frame_bytes(unit.blocks@) > 512,
        r matches Err(e) ==> e@ == frame_error(unit.name@, frame_bytes(unit.blocks@)),
        r matches Ok(b) ==> b.inv() && b.insns@.len() == 0 && b.relocs@.len() == 0 && b.fixups@.len() == 0
            && b.block_offsets@.len() == 0 && b.next_scratch == 0 && b.ids@ == slot_ids(unit.blocks@),
        r is Ok ==> slots_assigned(unit.blocks@),
{
    let all = collect_var_ids(&unit.blocks, true);
    let ids = sorted_unique(&all);
    proof {
        let w = slot_ids(unit.blocks@);
        assert(strictly_sorted(w) && w.to_set() == blocks_ids(unit.blocks@, true).to_set());
        crate::emit::vars::lemma_sorted_same_set(ids@, w);
    }
    let frame: u128 = (ids.len() as u128 + 8) * 8;
    if frame > 512 {
        let mut s = concat3("tracepoint '", unit.name.as_str(), "' needs ");
        push_decimal_u128(&mut s, frame);
        s.append(" bytes of eBPF stack, maximum is 512");
        return Err(s);
    }
    Ok(Builder {
        insns: Vec::new(),
        relocs: Vec::new(),
        ids,
        fixups: Vec::new(),
        block_offsets: Vec::new(),
        next_scratch: 0,
    })
}

/// The position recorded for block `id`; a later record of the same block
/// replaces an earlier one.
fn block_position(offsets: &Vec<(u32, usize)>, id: u32) -> (r: Option<usize>)
    ensures
        r matches Some(p) ==> exists|j: int| 0 <= j < offsets@.len() && (#[trigger] offsets@[j]).0 == id
            && offsets@[j].1 == p,
        r == block_pos(offsets@, id),
{
    let mut k = offsets.len();
    assert(offsets@.subrange(0, k as int) == offsets@);
    while k > 0
        invariant
            k <= offsets@.len(),
            block_pos(offsets@, id) == block_pos(offsets@.subrange(0, k as int), id),
        decreases k,
    {
        let ghost pre = offsets@.subrange(0, k as int);
        assert(pre.drop_last() == offsets@.subrange(0, k - 1));
        assert(pre.last() == offsets@[k - 1]);
        k = k - 1;
        if offsets[k].0 == id {
            return Some(offsets[k].1);
        }
    }
    None
}

/// A failure in a prefix of the pending jumps is the failure of all of them.
proof fn lemma_patch_err_extends(insns: Seq<Insn>, fixups: Seq<(usize, u32)>, k: int, offsets: Seq<(u32, usize)>)
    requires
        0 <= k <= fixups.len(),
        patch_g(insns, fixups.subrange(0, k), offsets) is Err,
    ensures
        patch_g(insns, fixups, offsets) == patch_g(insns, fixups.subrange(0, k), offsets),
    decreases fixups.len(),
{
    if k < fixups.len() {
        let init = fixups.drop_last();
        assert(init.subrange(0, k) == fixups.subrange(0, k));
        lemma_patch_err_extends(insns, init, k, offsets);
    } else {
        assert(fixups.subrange(0, k) == fixups);
    }
}

impl Builder {
    /// Sets the offset of every pending jump to reach its block.
    fn patch_jumps(&mut self) -> (r: Result<(), String>)
        requires
            old(self).inv(),
            forall|j: int| 0 <= j < old(self).block_offsets@.len()
                ==> (#[trigger] old(self).block_offsets@[j]).1 < old(self).insns@.len(),
        ensures
            match patch_g(old(self).insns@, old(self).fixups@, old(self).block_offsets@) {
                Ok(p) => r is Ok && final(self).insns@ == p,
                Err(m) => r matches Err(e) && e@ == m,
            },
            final(self).relocs@ == old(self).relocs@,
            r is Ok ==> {
                &&& final(self).insns@.len() == old(self).insns@.len()
                &&& jumps_in_range(final(self).insns@)
                &&& relocs_ok(final(self).insns@, final(self).relocs@)
                &&& final(self).relocs@ == old(self).relocs@
                &&& forall|k: int| 0 <= k < old(self).insns@.len() && !is_jump(#[trigger] old(self).insns@[k].code)
                    ==> final(self).insns@[k] == old(self).insns@[k]
            },
    {
        let ghost s0 = self.insns@;
        let n = self.fixups.len();
        let mut i: usize = 0;
        while i < n
            invariant
                n == self.fixups@.len(),
                i <= n,
                self.fixups@ == old(self).fixups@,
                self.relocs@ == old(self).relocs@,
                self.block_offsets@ == old(self).block_offsets@,
                self.insns@.len() == s0.len(),
                s0 == old(self).insns@,
                local_ok(s0, self.fixups@),
                fixups_ok(s0, self.fixups@),
                relocs_ok(s0, self.relocs@),
                forall|j: int| 0 <= j < self.block_offsets@.len() ==> (#[trigger] self.block_offsets@[j]).1 < s0.len(),
                forall|k: int| 0 <= k < s0.len() ==> (#[trigger] self.insns@[k]).code == s0[k].code
                    && self.insns@[k].src == s0[k].src,
                forall|k: int| 0 <= k < s0.len() && !has_fixup(self.fixups@, k) ==> #[trigger] self.insns@[k] == s0[k],
                forall|j: int| 0 <= j < i ==> jump_lands(self.insns@, (#[trigger] self.fixups@[j]).0 as int),
                patch_g(s0, self.fixups@.subrange(0, i as int), self.block_offsets@) == Ok::<Seq<Insn>, Seq<char>>(self.insns@),
            decreases n - i,
        {
            proof {
                let pre = self.fixups@.subrange(0, i + 1);
                assert(pre.drop_last() == self.fixups@.subrange(0, i as int));
                assert(pre.last() == self.fixups@[i as int]);
            }
            let (idx, block_id) = self.fixups[i];
            assert(self.fixups@[i as int].0 < s0.len());
            let cur_len = self.insns.len();
            assert(idx < cur_len);
            let target = match block_position(&self.block_offsets, block_id) {
                Some(p) => p,
                None => {
                    let n = u64_to_decimal(block_id as u64);
                    proof { lemma_patch_err_extends(s0, self.fixups@, i + 1, self.block_offsets@); }
                    return Err(concat2("invalid jump target block ", n.as_str()));
                },
            };
            let off: i16 = if target > idx {
                let d = target - idx - 1;
                if d > 32767 {
                    let n = u64_to_decimal(block_id as u64);
                    proof { lemma_patch_err_extends(s0, self.fixups@, i + 1, self.block_offsets@); }
                    return Err(concat3("jump to block ", n.as_str(), " exceeds eBPF range"));
                }
                d as i16
            } else {
                let d = idx + 1 - target;
                if d > 32768 {
                    let n = u64_to_decimal(block_id as u64);
                    proof { lemma_patch_err_extends(s0, self.fixups@, i + 1, self.block_offsets@); }
                    return Err(concat3("jump to block ", n.as_str(), " exceeds eBPF range"));
                }
                (0 - (d as i32)) as i16
            };
            let mut insn = self.insns[idx];
            insn.off = off;
            let ghost before = self.insns@;
            self.insns.set(idx, insn);
            assert(jump_lands(self.insns@, idx as int));
            assert forall|j: int| 0 <= j < i + 1 implies jump_lands(self.insns@, (#[trigger] self.fixups@[j]).0 as int) by {
                if j < i && self.fixups@[j].0 != idx {
                    assert(self.insns@[self.fixups@[j].0 as int] == before[self.fixups@[j].0 as int]);
                }
            }
            assert forall|k: int| 0 <= k < s0.len() && !has_fixup(self.fixups@, k) implies #[trigger] self.insns@[k] == s0[k] by {
                if k == idx {
                    assert(self.fixups@[i as int].0 == idx);
                }
            }
            i = i + 1;
        }
        assert(self.fixups@.subrange(0, n as int) == self.fixups@);
        assert forall|k: int| 0 <= k < self.insns@.len() && is_jump(#[trigger] self.insns@[k].code)
            implies jump_lands(self.insns@, k) by {
            assert(is_jump(s0[k].code));
            if has_fixup(self.fixups@, k) {
                let j = choose|j: int| 0 <= j < self.fixups@.len() && (#[trigger] self.fixups@[j]).0 == k;
                assert(jump_lands(self.insns@, self.fixups@[j].0 as int));
            } else {
                assert(self.insns@[k] == s0[k]);
                assert(jump_lands(s0, k));
            }
        }
        assert forall|j: int| 0 <= j < self.relocs@.len() implies reloc_at(self.insns@, #[trigger] self.relocs@[j]) by {
            assert(reloc_at(s0, self.relocs@[j]));
        }
        assert forall|k: int| 0 <= k < s0.len() && !is_jump(#[trigger] s0[k].code) implies self.insns@[k] == s0[k] by {
            if has_fixup(self.fixups@, k) {
                let j = choose|j: int| 0 <= j < self.fixups@.len() && (#[trigger] self.fixups@[j]).0 == k;
                assert(fixups_ok(s0, self.fixups@));
                assert(is_jump(s0[self.fixups@[j].0 as int].code));
            }
        }
        Ok(())
    }
}

/// Emits the code of a terminator: a return, a jump, or a conditional
/// branch to the true block with a fall back to the false block.
fn emit_terminator(b: &mut Builder, term: &Terminator) -> (r: Result<(), String>)
    requires
        old(b).inv(),
    ensures
        gen_as(term_g(gen_view(*old(b)), old(b).ids@, *term), r, gen_view(*final(b))),
        final(b).ids@ == old(b).ids@,
        r is Ok ==> {
            &&& final(b).inv()
            &&& final(b).insns@.len() > old(b).insns@.len()
            &&& final(b).insns@.subrange(0, old(b).insns@.len() as int) == old(b).insns@
            &&& final(b).relocs@ == old(b).relocs@
            &&& final(b).ids@ == old(b).ids@
            &&& final(b).block_offsets@ == old(b).block_offsets@
        },
{
    let ghost s0 = b.insns@;
    match term {
        Terminator::Return(op) => {
            b.emit_load_operand(R0, op)?;
            let ghost s1 = b.insns@;
            b.push(Insn::new(BPF_EXIT, 0, 0, 0, 0));
            proof {
                lemma_plain_ext_trans(s0, s1, b.insns@);
                lemma_plain_ext_inv(old(b), b);
            }
        },
        Terminator::Jump(target) => {
            b.emit_jump_to_block(target.0);
            proof {
                assert(b.insns@.subrange(0, s0.len() as int) =~= s0);
                assert(b.fixups@[old(b).fixups@.len() as int].0 == s0.len());
                assert forall|k: int| 0 <= k < b.insns@.len() && is_jump(#[trigger] b.insns@[k].code)
                    implies has_fixup(b.fixups@, k) || jump_lands(b.insns@, k) by {
                    if k < s0.len() {
                        assert(b.insns@[k] == s0[k]);
                        if has_fixup(old(b).fixups@, k) {
                            let j = choose|j: int| 0 <= j < old(b).fixups@.len() && (#[trigger] old(b).fixups@[j]).0 == k;
                            assert(b.fixups@[j] == old(b).fixups@[j]);
                        }
                    } else {
                        assert(b.fixups@[old(b).fixups@.len() as int].0 == k);
                    }
                }
                assert forall|j: int| 0 <= j < b.fixups@.len() implies (#[trigger] b.fixups@[j]).0 < b.insns@.len()
                    && is_jump(b.insns@[b.fixups@[j].0 as int].code) by {
                    if j < old(b).fixups@.len() {
                        assert(b.fixups@[j] == old(b).fixups@[j]);
                        assert(b.insns@[old(b).fixups@[j].0 as int] == s0[old(b).fixups@[j].0 as int]);
                    }
                }
                lemma_relocs_grow(s0, b.insns@, b.relocs@);
            }
        },
        Terminator::Branch { condition, true_block, false_block } => {
            b.emit_load_operand(R0, condition)?;
            let ghost s1 = b.insns@;
            let ghost f0 = b.fixups@;
            let jne_idx = b.insns.len();
            b.insns.push(Insn::new(BPF_JNE_IMM, R0, 0, 0, 0));
            b.emit_jump_to_block(false_block.0);
            b.fixups.push((jne_idx, true_block.0));
            proof {
                assert(b.insns@.len() == s1.len() + 2);
                assert(b.insns@.subrange(0, s0.len() as int) =~= s0);
                assert(b.fixups@.len() == f0.len() + 2);
                assert(b.fixups@[f0.len() as int].0 == s1.len() + 1);
                assert(b.fixups@[f0.len() as int + 1].0 == s1.len());
                assert forall|k: int| 0 <= k < b.insns@.len() && is_jump(#[trigger] b.insns@[k].code)
                    implies has_fixup(b.fixups@, k) || jump_lands(b.insns@, k) by {
                    if k < s0.len() {
                        assert(b.insns@[k] == s0[k]);
                        if has_fixup(old(b).fixups@, k) {
                            let j = choose|j: int| 0 <= j < old(b).fixups@.len() && (#[trigger] old(b).fixups@[j]).0 == k;
                            assert(b.fixups@[j] == old(b).fixups@[j]);
                        }
                    } else if k < s1.len() {
                        assert(b.insns@[k] == s1[k]);
                    } else if k == s1.len() {
                        assert(b.fixups@[f0.len() as int + 1].0 == k);
                    } else {
                        assert(b.fixups@[f0.len() as int].0 == k);
                    }
                }
                assert forall|j: int| 0 <= j < b.fixups@.len() implies (#[trigger] b.fixups@[j]).0 < b.insns@.len()
                    && is_jump(b.insns@[b.fixups@[j].0 as int].code) by {
                    if j < old(b).fixups@.len() {
                        assert(b.fixups@[j] == old(b).fixups@[j]);
                        assert(b.insns@[old(b).fixups@[j].0 as int] == s0[old(b).fixups@[j].0 as int]);
                    }
                }
                lemma_relocs_grow(s0, b.insns@, b.relocs@);
            }
        },
    }
    Ok(())
}

fn serialize(insns: &Vec<Insn>) -> (r: Vec<u8>)
    ensures
        r@ == insns_le(insns@),
{
    let mut out: Vec<u8> = Vec::new();
    let mut i: usize = 0;
    while i < insns.len()
        invariant
            i <= insns@.len(),
            out@ == insns_le(insns@.subrange(0, i as int)),
        decreases insns@.len() - i,
    {
        let bytes = insns[i].to_le_bytes();
        let ghost before = out@;
        let mut k: usize = 0;
        while k < 8
            invariant
                k <= 8,
                bytes@.len() == 8,
                out@ == before + bytes@.subrange(0, k as int),
            decreases 8 - k,
        {
            out.push(bytes[k]);
            k = k + 1;
            assert(out@ =~= before + bytes@.subrange(0, k as int));
        }
        assert(bytes@.subrange(0, 8) =~= bytes@);
        assert(insns@.subrange(0, i + 1).drop_last() =~= insns@.subrange(0, i as int));
        i = i + 1;
    }
    assert(insns@.subrange(0, insns@.len() as int) =~= insns@);
    out
}

/// The code of one IR instruction; `branch_vars` are the variables that
/// are branch conditions.
fn emit_inst(b: &mut Builder, inst: &crate::ir::instruction::Instruction, branch_vars: &Vec<u32>) -> (r: Result<(), String>)
    requires
        old(b).inv(),
    ensures
        gen_as(inst_g(gen_view(*old(b)), old(b).ids@, branch_vars@, *inst), r, gen_view(*final(b))),
        final(b).ids@ == old(b).ids@,
        r is Ok ==> {
            &&& final(b).inv()
            &&& old(b).insns@.len() <= final(b).insns@.len()
            &&& final(b).insns@.subrange(0, old(b).insns@.len() as int) == old(b).insns@
            &&& final(b).block_offsets@ == old(b).block_offsets@
            &&& old(b).relocs@.len() <= final(b).relocs@.len()
            &&& forall|j: int| 0 <= j < final(b).relocs@.len() ==>
                (j < old(b).relocs@.len() ==> #[trigger] final(b).relocs@[j] == old(b).relocs@[j])
                && (j >= old(b).relocs@.len() ==> reloc_map(inst.opcode) == Some(final(b).relocs@[j].symbol@))
        },
{
    reveal(inst_g);
    let ghost ob = *b;
    match &inst.opcode {
        Opcode::CallMap { map_name } => {
            emit_call_map(b, inst.result, map_name, &inst.operands)?;
            proof { lemma_map_step_inv(&ob, b, map_name@); }
        },
        Opcode::UpdateMap { map_name } => {
            emit_update_map(b, inst.result, map_name, &inst.operands)?;
            proof { lemma_map_step_inv(&ob, b, map_name@); }
        },
        Opcode::RingBufReserve { map_name, size } => {
            emit_ringbuf_reserve(b, inst.result, map_name, *size)?;
            proof { lemma_map_step_inv(&ob, b, map_name@); }
        },
        Opcode::NullCheck => {
            let is_cond = contains_u32(branch_vars, inst.result.0);
            emit_null_check(b, inst.result, &inst.operands, is_cond)?;
            proof { lemma_relocs_grow(ob.insns@, b.insns@, b.relocs@); lemma_ext_inv(&ob, b); }
        },
        _ => {
            emit_plain_inst(b, inst)?;
            proof { lemma_plain_ext_inv(&ob, b); }
        },
    }
    proof {
        assert forall|j: int| 0 <= j < b.relocs@.len() implies
            (j < ob.relocs@.len() ==> #[trigger] b.relocs@[j] == ob.relocs@[j])
            && (j >= ob.relocs@.len() ==> reloc_map(inst.opcode) == Some(b.relocs@[j].symbol@)) by {
            if j < ob.relocs@.len() {
                assert(b.relocs@.subrange(0, ob.relocs@.len() as int)[j] == b.relocs@[j]);
            }
        }
    }
    Ok(())
}

/// `b` extends the relocations `a`, each new one for a map that one of
/// `insts` addresses.
#[verifier::opaque]
spec fn relocs_from(a: Seq<ProgramReloc>, b: Seq<ProgramReloc>, insts: Seq<crate::ir::instruction::Instruction>) -> bool {
    &&& a.len() <= b.len()
    &&& b.subrange(0, a.len() as int) == a
    &&& forall|j: int| #![trigger b[j]] a.len() <= j < b.len() ==> exists|i: int| #![trigger insts[i]] 0 <= i < insts.len()
        && reloc_map(insts[i].opcode) == Some(b[j].symbol@)
}

proof fn lemma_relocs_from_refl(a: Seq<ProgramReloc>, insts: Seq<crate::ir::instruction::Instruction>)
    ensures
        relocs_from(a, a, insts),
{
    reveal(relocs_from);
    assert(a.subrange(0, a.len() as int) == a);
}

proof fn lemma_relocs_from_step(
    a: Seq<ProgramReloc>, m: Seq<ProgramReloc>, b: Seq<ProgramReloc>, insts: Seq<crate::ir::instruction::Instruction>, k: int,
)
    requires
        relocs_from(a, m, insts),
        0 <= k < insts.len(),
        m.len() <= b.len(),
        forall|j: int| 0 <= j < b.len() ==> (j < m.len() ==> #[trigger] b[j] == m[j])
            && (j >= m.len() ==> reloc_map(insts[k].opcode) == Some(b[j].symbol@)),
    ensures
        relocs_from(a, b, insts),
{
    reveal(relocs_from);
    assert(b.subrange(0, a.len() as int) =~= a) by {
        assert forall|j: int| 0 <= j < a.len() implies b.subrange(0, a.len() as int)[j] == a[j] by {
            assert(b[j] == m[j]);
            assert(m.subrange(0, a.len() as int)[j] == m[j]);
        }
    }
    assert forall|j: int| #![trigger b[j]] a.len() <= j < b.len() implies exists|i: int| #![trigger insts[i]] 0 <= i < insts.len()
        && reloc_map(insts[i].opcode) == Some(b[j].symbol@) by {
        if j < m.len() {
            assert(b[j] == m[j]);
        } else {
            assert(reloc_map(insts[k].opcode) == Some(b[j].symbol@));
        }
    }
}

/// The code of one block: its position recorded, its instructions, its
/// terminator.
#[verifier::spinoff_prover]
#[verifier::rlimit(80)]
fn emit_block(b: &mut Builder, block: &BasicBlock, branch_vars: &Vec<u32>) -> (r: Result<(), String>)
    requires
        old(b).inv(),
        forall|j: int| 0 <= j < old(b).block_offsets@.len() ==> (#[trigger] old(b).block_offsets@[j]).1 < old(b).insns@.len(),
    ensures
        gen_as(block_g(gen_view(*old(b)), old(b).ids@, branch_vars@, *block), r, gen_view(*final(b))),
        final(b).ids@ == old(b).ids@,
        r is Ok ==> {
            &&& final(b).inv()
            &&& old(b).insns@.len() <= final(b).insns@.len()
            &&& final(b).insns@.subrange(0, old(b).insns@.len() as int) == old(b).insns@
            &&& forall|j: int| 0 <= j < final(b).block_offsets@.len() ==> (#[trigger] final(b).block_offsets@[j]).1 < final(b).insns@.len()
            &&& relocs_from(old(b).relocs@, final(b).relocs@, block.instructions@)
        },
{
    let ghost ob = *b;
    let ghost ids = b.ids@;
    let ghost bv = branch_vars@;
    let pos = b.insns.len();
    b.block_offsets.push((block.id.0, pos));
    let ghost s0b = gen_view(*b);
    assert(s0b == GenState { offsets: gen_view(ob).offsets.push((block.id.0, ob.insns@.len() as usize)), ..gen_view(ob) });
    let mut ii: usize = 0;
    assert(block.instructions@.subrange(0, 0) == Seq::<crate::ir::instruction::Instruction>::empty());
    assert(b.insns@.subrange(0, ob.insns@.len() as int) =~= ob.insns@);
    proof { lemma_relocs_from_refl(ob.relocs@, block.instructions@); }
    while ii < block.instructions.len()
        invariant
            ob == *old(b),
            ids == ob.ids@,
            ids == b.ids@,
            bv == branch_vars@,
            s0b == (GenState { offsets: gen_view(ob).offsets.push((block.id.0, ob.insns@.len() as usize)), ..gen_view(ob) }),
            ii <= block.instructions@.len(),
            b.inv(),
            ob.insns@.len() <= b.insns@.len(),
            b.insns@.subrange(0, ob.insns@.len() as int) == ob.insns@,
            b.block_offsets@ == ob.block_offsets@.push((block.id.0, ob.insns@.len() as usize)),
            forall|j: int| 0 <= j < ob.block_offsets@.len() ==> (#[trigger] ob.block_offsets@[j]).1 < ob.insns@.len(),
            relocs_from(ob.relocs@, b.relocs@, block.instructions@),
            insts_g(s0b, ids, bv, block.instructions@.subrange(0, ii as int)) == Ok::<GenState, Seq<char>>(gen_view(*b)),
        decreases block.instructions@.len() - ii,
    {
        let inst = &block.instructions[ii];
        let ghost pb = *b;
        proof {
            let pre = block.instructions@.subrange(0, ii + 1);
            assert(pre.drop_last() == block.instructions@.subrange(0, ii as int));
            assert(pre.last() == *inst);
        }
        match emit_inst(b, inst, branch_vars) {
            Ok(()) => {},
            Err(e) => {
                proof { lemma_insts_g_err_extends(s0b, ids, bv, block.instructions@, ii + 1); }
                return Err(e);
            },
        }
        proof {
            assert(b.insns@.subrange(0, ob.insns@.len() as int) =~= ob.insns@) by {
                assert(b.insns@.subrange(0, pb.insns@.len() as int) == pb.insns@);
            }
            lemma_relocs_from_step(ob.relocs@, pb.relocs@, b.relocs@, block.instructions@, ii as int);
        }
        ii = ii + 1;
    }
    assert(block.instructions@.subrange(0, block.instructions@.len() as int) == block.instructions@);
    let ghost pt = *b;
    emit_terminator(b, &block.terminator)?;
    proof {
        assert(b.insns@.subrange(0, ob.insns@.len() as int) =~= ob.insns@) by {
            assert(b.insns@.subrange(0, pt.insns@.len() as int) == pt.insns@);
        }
        assert forall|j: int| 0 <= j < b.block_offsets@.len() implies (#[trigger] b.block_offsets@[j]).1 < b.insns@.len() by {
            if j < ob.block_offsets@.len() {
                assert(b.block_offsets@[j] == ob.block_offsets@[j]);
            }
        }
    }
    Ok(())
}

/// Compiles a tracepoint unit to eBPF code. The program starts by saving
/// the context pointer in `r6`; every variable lives in its own stack slot;
/// every jump lands inside the program; every relocation points at a
/// map-address load of a map the unit uses. A unit that needs more than
/// 512 bytes of stack is refused.
#[verifier::spinoff_prover]
#[verifier::rlimit(80)]
pub fn compile_tracepoint(unit: &UnitIr) -> (r: Result<CompiledProgram, String>)
    ensures
        frame_bytes(unit.blocks@) > 512 ==> (r matches Err(e) && e@ == frame_error(unit.name@, frame_bytes(unit.blocks@))),
        frame_bytes(unit.blocks@) <= 512 ==> match gen_code(unit.blocks@, branch_ids(unit.blocks@)) {
            Ok((insns, relocs)) => r matches Ok(p) && p.code@ == insns_le(insns) && p.relocs@ == relocs,
            Err(m) => r matches Err(e) && e@ == m,
        },
        r matches Ok(p) ==> exists|s: Seq<Insn>| well_formed_code(p, s, unit.blocks@),
        r is Ok ==> slots_assigned(unit.blocks@),
{
    let mut b = new_builder(unit)?;
    let branch_vars = branch_condition_vars(&unit.blocks);
    let ghost bs = unit.blocks@;
    let ghost ids = b.ids@;
    let ghost bv = branch_vars@;
    let ghost b0 = b;
    b.push(Insn::new(BPF_MOV64_REG, R6, R1, 0, 0));
    proof {
        lemma_plain_ext_inv(&b0, &b);
        assert(b.insns@ =~= seq![Insn { code: BPF_MOV64_REG, dst: R6, src: R1, off: 0, imm: 0 }]);
        assert(b.relocs@ =~= Seq::<ProgramReloc>::empty());
        assert(b.fixups@ =~= Seq::<(usize, u32)>::empty());
        assert(b.block_offsets@ =~= Seq::<(u32, usize)>::empty());
        assert(gen_view(b) == gen_start());
        assert(bs.subrange(0, 0) == Seq::<BasicBlock>::empty());
    }
    let mut bi: usize = 0;
    while bi < unit.blocks.len()
        invariant
            bi <= unit.blocks@.len(),
            bs == unit.blocks@,
            ids == slot_ids(bs),
            ids == b.ids@,
            bv == branch_vars@,
            bv == branch_ids(bs),
            frame_bytes(unit.blocks@) <= 512,
            b.inv(),
            b.insns@.len() >= 1,
            b.insns@[0] == prologue(),
            forall|j: int| 0 <= j < b.block_offsets@.len() ==> (#[trigger] b.block_offsets@[j]).1 < b.insns@.len(),
            forall|j: int| 0 <= j < b.relocs@.len() ==> uses_map(unit.blocks@, (#[trigger] b.relocs@[j]).symbol@),
            blocks_g(gen_start(), ids, bv, bs.subrange(0, bi as int)) == Ok::<GenState, Seq<char>>(gen_view(b)),
        decreases unit.blocks@.len() - bi,
    {
        let block = &unit.blocks[bi];
        let ghost ob = b;
        proof {
            let pre = bs.subrange(0, bi + 1);
            assert(pre.drop_last() == bs.subrange(0, bi as int));
            assert(pre.last() == *block);
        }
        match emit_block(&mut b, block, &branch_vars) {
            Ok(()) => {},
            Err(e) => {
                proof { lemma_blocks_g_err_extends(gen_start(), ids, bv, bs, bi + 1); }
                return Err(e);
            },
        }
        assert(b.insns@[0] == ob.insns@[0]);
        assert forall|j: int| 0 <= j < b.relocs@.len() implies uses_map(unit.blocks@, (#[trigger] b.relocs@[j]).symbol@) by {
            reveal(relocs_from);
            if j < ob.relocs@.len() {
                assert(b.relocs@.subrange(0, ob.relocs@.len() as int)[j] == b.relocs@[j]);
                assert(b.relocs@[j] == ob.relocs@[j]);
            } else {
                let i = choose|i: int| #![trigger block.instructions@[i]] 0 <= i < block.instructions@.len()
                    && reloc_map(block.instructions@[i].opcode) == Some(b.relocs@[j].symbol@);
                assert(reloc_map(unit.blocks@[bi as int].instructions@[i].opcode) == Some(b.relocs@[j].symbol@));
            }
        }
        bi = bi + 1;
    }
    assert(bs.subrange(0, bs.len() as int) == bs);
    let ghost before_patch = b.insns@;
    b.patch_jumps()?;
    let code = serialize(&b.insns);
    let p = CompiledProgram { code, relocs: b.relocs };
    assert(well_formed_code(p, b.insns@, unit.blocks@)) by {
        assert(!is_jump(before_patch[0].code));
    }
    let ghost w = b.insns@;
    let r: Result<CompiledProgram, String> = Ok(p);
    assert(r matches Ok(q) && well_formed_code(q, w, unit.blocks@));
    r
}

} // verus!
