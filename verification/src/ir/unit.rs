//! Lowering of units to basic blocks of IR instructions.
use vstd::prelude::*;
use crate::ir::semantics::{compound_value, ir_value, source_value};
use crate::emit::isa::kernel_helper_name;
use vstd::set_lib::*;
use vstd::string::*;
use crate::ast::event::EventDecl;
use crate::ast::map::Type;
use crate::ast::unit::{
    Assignment, AssignmentOp, BinOp, CallExpr, Expr, ExprKind, HeapVarDecl, MethodCall, ProgramKind, Stmt, StmtKind, Unit,
    VarType,
};
use crate::ir::ctx::CtxMethod;
use crate::ir::instruction::{BinaryOp, Instruction, Opcode, Operand, VarId};
use crate::ir::LoweringError;
use crate::ir::model::{
    alloc_block_spec, block_model, continuation, decl_fields, declares, sizes_view, blocks_model, compound_op_spec, emit_in, expr_env, expr_part, field_slot_in,
    lemma_blocks_model_push, lemma_body_err_extends, lower_in, seal, spec_lower_assign, spec_lower_assignment, spec_lower_body,
    spec_lower_heap_decl, spec_lower_heap_init, spec_lower_stmt, spec_lower_unit_body, unit_start, BlockModel, StmtState,
    bin_op_spec, emit_var_spec, field_offset_in, instrs_model, lemma_instrs_model_push, op_model, spec_lower_builtin, spec_lower_ctx,
    spec_lower_expr, spec_lower_method, emit_spec, ExprState, InstrModel, LowerEnv, Lowered, OpModel,
};
use crate::ast::model::{expr_model, exprs_model, lemma_exprs_model_index, lemma_stmts_model_index, lemma_stmts_model_prefix, lemma_stmts_model_push, stmt_model, stmts_model, ExprModel};
use crate::sema::event::{compute_field_offset, compute_field_size, fields_valid};
use crate::text::{concat2, concat3, str_eq};

verus! {

/// The IR of one unit.
#[derive(Debug)]
pub struct UnitIr {
    pub name: String,
    pub sections: Vec<String>,
    pub license: String,
    pub blocks: Vec<BasicBlock>,
    pub next_var_id: u32,
    pub program_type: ProgramKind,
    pub next_block_id: u32,
}

/// A straight-line run of instructions ending in a terminator.
#[derive(Debug)]
pub struct BasicBlock {
    pub id: BlockId,
    pub instructions: Vec<Instruction>,
    pub terminator: Terminator,
}

/// A basic block's identity.
#[derive(Debug, Clone, Copy, PartialEq, Eq, Hash, Structural)]
pub struct BlockId(pub u32);

/// How control leaves a block.
#[derive(Debug, Clone, Copy, PartialEq, Eq, Structural)]
pub enum Terminator {
    Return(Operand),
    Jump(BlockId),
    Branch { condition: Operand, true_block: BlockId, false_block: BlockId },
}

/// Names in scope while lowering, latest binding last, and the variables
/// that hold map pointers.
struct LowerCtx {
    vars: Vec<(String, VarId)>,
    map_ptr_vars: Vec<VarId>,
}

// ---------------------------------------------------------------------
// The numbering discipline: every variable defined exactly once.
// ---------------------------------------------------------------------

/// The variables that the instructions of `s` define.
pub open spec fn id_set(s: Seq<Instruction>) -> Set<int> {
    Set::new(|v: int| exists|i: int| 0 <= i < s.len() && (#[trigger] s[i]).result.0 as int == v)
}

/// `s` defines the variables `lo..hi`, one instruction each.
pub open spec fn fresh(s: Seq<Instruction>, lo: int, hi: int) -> bool {
    &&& lo <= hi
    &&& s.len() == hi - lo
    &&& id_set(s) == set_int_range(lo, hi)
}

/// `new` extends `old` by instructions that define exactly `lo..hi`.
pub open spec fn grew(old: Seq<Instruction>, new: Seq<Instruction>, lo: int, hi: int) -> bool {
    &&& old.len() <= new.len()
    &&& new.subrange(0, old.len() as int) == old
    &&& fresh(new.subrange(old.len() as int, new.len() as int), lo, hi)
}

/// All instructions of a list of blocks, in block order.
pub open spec fn flat(blocks: Seq<BasicBlock>) -> Seq<Instruction>
    decreases blocks.len(),
{
    if blocks.len() == 0 {
        Seq::empty()
    } else {
        flat(blocks.drop_last()) + blocks.last().instructions@
    }
}

/// All instructions lowered so far: the finished blocks, then the open one.
pub open spec fn all_instrs(blocks: Seq<BasicBlock>, cur: BasicBlock) -> Seq<Instruction> {
    flat(blocks) + cur.instructions@
}

/// The block identities of a list of blocks, in order.
pub open spec fn block_ids(blocks: Seq<BasicBlock>) -> Seq<int> {
    blocks.map_values(|b: BasicBlock| b.id.0 as int)
}

/// The block identities of the finished blocks and the open one.
pub open spec fn all_block_ids(blocks: Seq<BasicBlock>, cur: BasicBlock) -> Seq<int> {
    block_ids(blocks).push(cur.id.0 as int)
}

/// Every jump or branch of a terminator targets a block below `n`.
pub open spec fn targets_below(t: Terminator, n: int) -> bool {
    match t {
        Terminator::Return(_) => true,
        Terminator::Jump(b) => b.0 < n,
        Terminator::Branch { true_block, false_block, .. } => true_block.0 < n && false_block.0 < n,
    }
}

/// Every block's terminator targets a block below `n`.
pub open spec fn all_targets_below(blocks: Seq<BasicBlock>, n: int) -> bool {
    forall|i: int| 0 <= i < blocks.len() ==> targets_below((#[trigger] blocks[i]).terminator, n)
}

/// The variables that a list of instructions defines, by their numbers.
pub open spec fn result_ids(s: Seq<Instruction>) -> Seq<int> {
    s.map_values(|i: Instruction| i.result.0 as int)
}

proof fn lemma_id_set_concat(a: Seq<Instruction>, b: Seq<Instruction>)
    ensures
        id_set(a + b) == id_set(a).union(id_set(b)),
{
    assert forall|v: int| id_set(a + b).contains(v) <==> id_set(a).union(id_set(b)).contains(v) by {
        if id_set(a + b).contains(v) {
            let i = choose|i: int| 0 <= i < (a + b).len() && (#[trigger] (a + b)[i]).result.0 as int == v;
            if i < a.len() {
                assert((a + b)[i] == a[i]);
            } else {
                assert((a + b)[i] == b[i - a.len()]);
            }
        }
        if id_set(a).contains(v) {
            let i = choose|i: int| 0 <= i < a.len() && (#[trigger] a[i]).result.0 as int == v;
            assert((a + b)[i] == a[i]);
        }
        if id_set(b).contains(v) {
            let i = choose|i: int| 0 <= i < b.len() && (#[trigger] b[i]).result.0 as int == v;
            assert((a + b)[i + a.len()] == b[i]);
        }
    }
    assert(id_set(a + b) =~= id_set(a).union(id_set(b)));
}

proof fn lemma_fresh_concat(a: Seq<Instruction>, b: Seq<Instruction>, lo: int, mid: int, hi: int)
    requires
        fresh(a, lo, mid),
        fresh(b, mid, hi),
    ensures
        fresh(a + b, lo, hi),
        fresh(b + a, lo, hi),
{
    lemma_id_set_concat(a, b);
    lemma_id_set_concat(b, a);
    assert(set_int_range(lo, mid).union(set_int_range(mid, hi)) =~= set_int_range(lo, hi));
    assert(set_int_range(mid, hi).union(set_int_range(lo, mid)) =~= set_int_range(lo, hi));
}

proof fn lemma_fresh_single(x: Instruction)
    ensures
        fresh(seq![x], x.result.0 as int, x.result.0 + 1),
{
    let s = seq![x];
    assert(s[0] == x);
    assert(id_set(s) =~= set_int_range(x.result.0 as int, x.result.0 + 1));
}

proof fn lemma_fresh_empty(lo: int)
    ensures
        fresh(Seq::<Instruction>::empty(), lo, lo),
{
    assert(id_set(Seq::<Instruction>::empty()) =~= set_int_range(lo, lo));
}

proof fn lemma_grew_refl(s: Seq<Instruction>, n: int)
    ensures
        grew(s, s, n, n),
{
    assert(s.subrange(0, s.len() as int) == s);
    assert(s.subrange(s.len() as int, s.len() as int) == Seq::<Instruction>::empty());
    lemma_fresh_empty(n);
}

proof fn lemma_grew_trans(a: Seq<Instruction>, b: Seq<Instruction>, c: Seq<Instruction>, n0: int, n1: int, n2: int)
    requires
        grew(a, b, n0, n1),
        grew(b, c, n1, n2),
    ensures
        grew(a, c, n0, n2),
{
    let x = b.subrange(a.len() as int, b.len() as int);
    let y = c.subrange(b.len() as int, c.len() as int);
    assert(c.subrange(a.len() as int, c.len() as int) == x + y);
    assert(c.subrange(0, a.len() as int) == b.subrange(0, a.len() as int));
    lemma_fresh_concat(x, y, n0, n1, n2);
}

proof fn lemma_grew_push(a: Seq<Instruction>, x: Instruction)
    ensures
        grew(a, a.push(x), x.result.0 as int, x.result.0 + 1),
{
    assert(a.push(x).subrange(0, a.len() as int) == a);
    assert(a.push(x).subrange(a.len() as int, a.len() + 1int) == seq![x]);
    lemma_fresh_single(x);
}

/// A definition of the first variable `lo` pushed after a run defining `lo+1..hi`.
proof fn lemma_grew_push_first(a: Seq<Instruction>, b: Seq<Instruction>, x: Instruction, lo: int, hi: int)
    requires
        grew(a, b, lo + 1, hi),
        x.result.0 == lo,
    ensures
        grew(a, b.push(x), lo, hi),
{
    let mid = b.subrange(a.len() as int, b.len() as int);
    assert(b.push(x).subrange(a.len() as int, b.len() + 1int) == mid + seq![x]);
    assert(b.push(x).subrange(0, a.len() as int) == a);
    lemma_fresh_single(x);
    lemma_fresh_concat(seq![x], mid, lo, lo + 1, hi);
}

proof fn lemma_flat_push(blocks: Seq<BasicBlock>, b: BasicBlock)
    ensures
        flat(blocks.push(b)) == flat(blocks) + b.instructions@,
{
    assert(blocks.push(b).drop_last() == blocks);
}

/// The numbering discipline of a lowered unit: the instructions define the
/// variables `0..next_var_id`, one each; the blocks carry the identities
/// `0..next_block_id`; every jump and branch targets one of them; and the
/// entry block (identity 0) comes first.
pub open spec fn numbering_ok(ir: &UnitIr) -> bool {
    &&& fresh(flat(ir.blocks@), 0, ir.next_var_id as int)
    &&& block_ids(ir.blocks@).to_set() == set_int_range(0, ir.next_block_id as int)
    &&& all_targets_below(ir.blocks@, ir.next_block_id as int)
    &&& ir.blocks@.len() > 0
    &&& ir.blocks@[0].id.0 == 0
}

/// Every variable of a lowered unit is defined by exactly one instruction,
/// and every jump or branch target names a block of the unit.
pub proof fn lemma_lowered_unit_defs_unique(ir: &UnitIr)
    requires
        numbering_ok(ir),
    ensures
        result_ids(flat(ir.blocks@)).no_duplicates(),
        forall|v: int| 0 <= v < ir.next_var_id ==> #[trigger] result_ids(flat(ir.blocks@)).contains(v),
        forall|i: int| #![trigger ir.blocks@[i]] 0 <= i < ir.blocks@.len() ==> (match ir.blocks@[i].terminator {
            Terminator::Return(_) => true,
            Terminator::Jump(b) => block_ids(ir.blocks@).contains(b.0 as int),
            Terminator::Branch { true_block, false_block, .. } =>
                block_ids(ir.blocks@).contains(true_block.0 as int) && block_ids(ir.blocks@).contains(false_block.0 as int),
        }),
{
    let s = flat(ir.blocks@);
    let r = result_ids(s);
    assert(r.to_set() =~= id_set(s)) by {
        assert forall|v: int| r.to_set().contains(v) <==> id_set(s).contains(v) by {
            if r.contains(v) {
                let k = choose|k: int| 0 <= k < r.len() && r[k] == v;
                assert(s[k].result.0 as int == v);
            }
            if id_set(s).contains(v) {
                let k = choose|k: int| 0 <= k < s.len() && (#[trigger] s[k]).result.0 as int == v;
                assert(r[k] == v);
            }
        }
    }
    lemma_int_range(0, ir.next_var_id as int);
    r.lemma_no_dup_set_cardinality();
    assert forall|v: int| 0 <= v < ir.next_var_id implies #[trigger] r.contains(v) by {
        assert(set_int_range(0, ir.next_var_id as int).contains(v));
        assert(r.to_set().contains(v));
    }
    assert forall|i: int| #![trigger ir.blocks@[i]] 0 <= i < ir.blocks@.len() implies (match ir.blocks@[i].terminator {
        Terminator::Return(_) => true,
        Terminator::Jump(b) => block_ids(ir.blocks@).contains(b.0 as int),
        Terminator::Branch { true_block, false_block, .. } =>
            block_ids(ir.blocks@).contains(true_block.0 as int) && block_ids(ir.blocks@).contains(false_block.0 as int),
    }) by {
        assert(targets_below(ir.blocks@[i].terminator, ir.next_block_id as int));
        match ir.blocks@[i].terminator {
            Terminator::Return(_) => {},
            Terminator::Jump(b) => {
                assert(set_int_range(0, ir.next_block_id as int).contains(b.0 as int));
            },
            Terminator::Branch { true_block, false_block, .. } => {
                assert(set_int_range(0, ir.next_block_id as int).contains(true_block.0 as int));
                assert(set_int_range(0, ir.next_block_id as int).contains(false_block.0 as int));
            },
        }
    }
}

// ---------------------------------------------------------------------
// Lowering state
// ---------------------------------------------------------------------

/// `b` is `a` with more variables allocated, and nothing else changed.
spec fn same_but_vars(a: UnitIr, b: UnitIr) -> bool {
    &&& b.name == a.name
    &&& b.sections == a.sections
    &&& b.license == a.license
    &&& b.blocks == a.blocks
    &&& b.program_type == a.program_type
    &&& b.next_block_id == a.next_block_id
    &&& a.next_var_id <= b.next_var_id
}

/// `b` is `a` with more variables and blocks allocated and more blocks
/// finished, its header unchanged.
spec fn same_header(a: UnitIr, b: UnitIr) -> bool {
    &&& b.name == a.name
    &&& b.sections == a.sections
    &&& b.license == a.license
    &&& b.program_type == a.program_type
    &&& a.next_var_id <= b.next_var_id
    &&& a.next_block_id <= b.next_block_id
}

/// The names in scope as character sequences, with their variables.
pub open spec fn names_view(vars: Seq<(String, VarId)>) -> Seq<(Seq<char>, VarId)> {
    vars.map_values(|p: (String, VarId)| (p.0@, p.1))
}

/// The latest binding of `name`.
pub open spec fn lookup_var(vars: Seq<(Seq<char>, VarId)>, name: Seq<char>) -> Option<VarId>
    decreases vars.len(),
{
    if vars.len() == 0 {
        None
    } else if vars.last().0 == name {
        Some(vars.last().1)
    } else {
        lookup_var(vars.drop_last(), name)
    }
}

/// Every name and map pointer in scope is an allocated variable.
spec fn ctx_inv(ctx: LowerCtx, next: u32) -> bool {
    &&& forall|i: int| 0 <= i < ctx.vars@.len() ==> (#[trigger] ctx.vars@[i]).1.0 < next
    &&& forall|i: int| 0 <= i < ctx.map_ptr_vars@.len() ==> (#[trigger] ctx.map_ptr_vars@[i]).0 < next
}

/// Every event declaration has a layout for each of its fields.
pub open spec fn decls_valid(decls: Seq<EventDecl>) -> bool {
    forall|i: int| 0 <= i < decls.len() ==> fields_valid((#[trigger] decls[i]).fields@)
}

impl LowerCtx {
    fn get_var(&self, name: &str) -> (r: Option<VarId>)
        ensures
            r == lookup_var(names_view(self.vars@), name@),
            r matches Some(v) ==> exists|i: int| 0 <= i < self.vars@.len() && (#[trigger] self.vars@[i]).1 == v,
    {
        let ghost nv = names_view(self.vars@);
        let mut i: usize = self.vars.len();
        assert(nv.subrange(0, i as int) == nv);
        while i > 0
            invariant
                i <= self.vars@.len(),
                nv == names_view(self.vars@),
                lookup_var(nv, name@) == lookup_var(nv.subrange(0, i as int), name@),
            decreases i,
        {
            let ghost pre = nv.subrange(0, i as int);
            assert(pre.drop_last() == nv.subrange(0, i - 1));
            if str_eq(self.vars[i - 1].0.as_str(), name) {
                assert(pre.last() == nv[i - 1]);
                return Some(self.vars[i - 1].1);
            }
            i = i - 1;
        }
        None
    }

    fn is_map_ptr(&self, v: VarId) -> (r: bool)
        ensures
            r == self.map_ptr_vars@.contains(v),
    {
        let mut i: usize = 0;
        while i < self.map_ptr_vars.len()
            invariant
                i <= self.map_ptr_vars@.len(),
                forall|j: int| 0 <= j < i ==> self.map_ptr_vars@[j] != v,
            decreases self.map_ptr_vars@.len() - i,
        {
            if self.map_ptr_vars[i] == v {
                assert(self.map_ptr_vars@[i as int] == v);
                return true;
            }
            i = i + 1;
        }
        false
    }
}

fn unit_err(msg: String) -> (r: LoweringError)
    ensures
        r == LoweringError::UnitLowering(msg),
{
    LoweringError::UnitLowering(msg)
}

fn out_of_vars() -> (r: LoweringError)
    ensures
        r matches LoweringError::UnitLowering(s) && s@ == "IR variable limit reached"@,
{
    LoweringError::UnitLowering(String::from_str("IR variable limit reached"))
}

impl UnitIr {
    fn alloc_var(&mut self, _var_type: Type) -> (r: Result<VarId, LoweringError>)
        ensures
            r matches Err(e) ==> e matches LoweringError::UnitLowering(s) && s@ == "IR variable limit reached"@,
            r matches Ok(v) ==> v.0 == old(self).next_var_id && final(self).next_var_id == old(self).next_var_id + 1,
            r is Ok ==> same_but_vars(*old(self), *final(self)),
            r is Ok <==> old(self).next_var_id < u32::MAX,
    {
        if self.next_var_id == u32::MAX {
            return Err(out_of_vars());
        }
        let id = VarId(self.next_var_id);
        self.next_var_id = self.next_var_id + 1;
        Ok(id)
    }

    fn alloc_block_id(&mut self) -> (r: Result<BlockId, LoweringError>)
        ensures
            r is Ok <==> old(self).next_block_id < u32::MAX,
            r matches Err(e) ==> e matches LoweringError::UnitLowering(s) && s@ == "IR block limit reached"@,
            r matches Ok(b) ==> b.0 == old(self).next_block_id && final(self).next_block_id == old(self).next_block_id + 1
                && final(self).next_var_id == old(self).next_var_id && final(self).blocks == old(self).blocks
                && same_header(*old(self), *final(self)),
    {
        if self.next_block_id == u32::MAX {
            return Err(LoweringError::UnitLowering(String::from_str("IR block limit reached")));
        }
        let id = BlockId(self.next_block_id);
        self.next_block_id = self.next_block_id + 1;
        Ok(id)
    }
}

/// Allocates a variable and appends the instruction that defines it.
fn emit(
    ir: &mut UnitIr,
    block: &mut BasicBlock,
    opcode: Opcode,
    operands: Vec<Operand>,
    ty: Type,
    Ghost(map_ptrs): Ghost<Seq<VarId>>,
) -> (r: Result<VarId, LoweringError>)
    ensures
        emitted_as(
            emit_spec(ExprState { map_ptrs, next: old(ir).next_var_id, instrs: instrs_model(old(block).instructions@) },
                op_model(opcode), operands@, ty),
            r,
            ExprState { map_ptrs, next: final(ir).next_var_id, instrs: instrs_model(final(block).instructions@) },
        ),
        r is Ok <==> old(ir).next_var_id < u32::MAX,
        r matches Ok(v) ==> {
            &&& v.0 == old(ir).next_var_id
            &&& final(ir).next_var_id == old(ir).next_var_id + 1
            &&& same_but_vars(*old(ir), *final(ir))
            &&& final(block).id == old(block).id
            &&& final(block).terminator == old(block).terminator
            &&& final(block).instructions@ == old(block).instructions@.push(Instruction { result: v, opcode, operands, result_type: ty })
            &&& grew(old(block).instructions@, final(block).instructions@, old(ir).next_var_id as int, final(ir).next_var_id as int)
            &&& instrs_model(final(block).instructions@) == instrs_model(old(block).instructions@).push(
                InstrModel { result: v, opcode: op_model(opcode), operands: operands@, result_type: ty })
        },
        r matches Err(e) ==> e == LoweringError::UnitLowering(e->UnitLowering_0) && e->UnitLowering_0@ == "IR variable limit reached"@,
{
    let result = ir.alloc_var(ty)?;
    let ghost before = block.instructions@;
    block.instructions.push(Instruction { result, opcode, operands, result_type: ty });
    proof {
        lemma_grew_push(before, block.instructions@.last());
        lemma_instrs_model_push(before, block.instructions@.last());
    }
    Ok(result)
}

/// What expression lowering reads from the lowering state.
spec fn lower_env(ctx: LowerCtx, kind: ProgramKind, events: Seq<(String, u32)>, decls: Seq<EventDecl>) -> LowerEnv {
    LowerEnv { vars: names_view(ctx.vars@), kind, events: sizes_view(events), decls: decl_fields(decls) }
}

/// `r` and the state after it are what `res` says, a failure by its message.
spec fn emitted_as(res: Lowered<VarId, ExprState>, r: Result<VarId, LoweringError>, after: ExprState) -> bool {
    match res {
        Ok((v, st)) => r == Ok::<VarId, LoweringError>(v) && after == st,
        Err(m) => r matches Err(LoweringError::UnitLowering(s)) && s@ == m,
    }
}

/// `r` and the state after it are what `res` says, a failure by its message.
spec fn lowered_as(res: Lowered<Operand, ExprState>, r: Result<Operand, LoweringError>, after: ExprState) -> bool {
    match res {
        Ok((op, st)) => r == Ok::<Operand, LoweringError>(op) && after == st,
        Err(m) => r matches Err(LoweringError::UnitLowering(s)) && s@ == m,
    }
}

/// What expression lowering changes in the lowering state.
spec fn expr_state(ctx: LowerCtx, ir: UnitIr, block: BasicBlock) -> ExprState {
    ExprState { map_ptrs: ctx.map_ptr_vars@, next: ir.next_var_id, instrs: instrs_model(block.instructions@) }
}

/// The facts every successful expression lowering keeps.
spec fn expr_post(
    ir0: UnitIr, ir1: UnitIr, b0: BasicBlock, b1: BasicBlock, ctx1: LowerCtx,
) -> bool {
    &&& same_but_vars(ir0, ir1)
    &&& b1.id == b0.id
    &&& b1.terminator == b0.terminator
    &&& grew(b0.instructions@, b1.instructions@, ir0.next_var_id as int, ir1.next_var_id as int)
    &&& ctx_inv(ctx1, ir1.next_var_id)
}

proof fn lemma_expr_post_trans(
    ir0: UnitIr, ir1: UnitIr, ir2: UnitIr, b0: BasicBlock, b1: BasicBlock, b2: BasicBlock, ctx2: LowerCtx,
)
    requires
        same_but_vars(ir0, ir1),
        b1.id == b0.id,
        b1.terminator == b0.terminator,
        grew(b0.instructions@, b1.instructions@, ir0.next_var_id as int, ir1.next_var_id as int),
        expr_post(ir1, ir2, b1, b2, ctx2),
    ensures
        expr_post(ir0, ir2, b0, b2, ctx2),
{
    lemma_grew_trans(b0.instructions@, b1.instructions@, b2.instructions@, ir0.next_var_id as int,
        ir1.next_var_id as int, ir2.next_var_id as int);
}

/// What statement lowering changes in the lowering state.
spec fn stmt_state(ctx: LowerCtx, ir: UnitIr, block: BasicBlock) -> StmtState {
    StmtState {
        vars: names_view(ctx.vars@),
        map_ptrs: ctx.map_ptr_vars@,
        next: ir.next_var_id,
        next_block: ir.next_block_id,
        done: blocks_model(ir.blocks@),
        cur: block_model(block),
    }
}

/// What statement lowering reads: the unit's program kind and its events.
spec fn unit_env(ir: UnitIr, events: Seq<(String, u32)>, decls: Seq<EventDecl>) -> LowerEnv {
    LowerEnv { vars: Seq::empty(), kind: ir.program_type, events: sizes_view(events), decls: decl_fields(decls) }
}

/// `r` and the state after it are what `res` says, a failure by its message.
spec fn stmt_as(res: Result<StmtState, Seq<char>>, r: Result<(), LoweringError>, after: StmtState) -> bool {
    match res {
        Ok(st) => r is Ok && after == st,
        Err(m) => r matches Err(LoweringError::UnitLowering(x)) && x@ == m,
    }
}

/// Binding a name appends it to the names in scope.
proof fn lemma_names_view_push(vars: Seq<(String, VarId)>, name: String, v: VarId)
    ensures
        names_view(vars.push((name, v))) == names_view(vars).push((name@, v)),
{
    assert(names_view(vars.push((name, v))) =~= names_view(vars).push((name@, v)));
}

/// An expression lowered into the open block, seen from the statement level.
proof fn lemma_lower_in(
    events: Seq<(String, u32)>, decls: Seq<EventDecl>, e: ExprModel,
    c0: LowerCtx, ir0: UnitIr, b0: BasicBlock, c1: LowerCtx, ir1: UnitIr, b1: BasicBlock,
    r: Result<Operand, LoweringError>,
)
    requires
        lowered_as(spec_lower_expr(lower_env(c0, ir0.program_type, events, decls), e, expr_state(c0, ir0, b0)), r, expr_state(c1, ir1, b1)),
        r is Ok ==> c1.vars == c0.vars && same_but_vars(ir0, ir1) && b1.id == b0.id && b1.terminator == b0.terminator,
    ensures
        match lower_in(unit_env(ir0, events, decls), stmt_state(c0, ir0, b0), e) {
            Ok((op, st)) => r == Ok::<Operand, LoweringError>(op) && st == stmt_state(c1, ir1, b1),
            Err(m) => r matches Err(LoweringError::UnitLowering(x)) && x@ == m,
        },
{
    assert(lower_env(c0, ir0.program_type, events, decls) == expr_env(unit_env(ir0, events, decls), stmt_state(c0, ir0, b0)));
    assert(expr_part(stmt_state(c0, ir0, b0)) == expr_state(c0, ir0, b0));
}

/// An instruction appended to the open block, seen from the statement level.
proof fn lemma_emit_in(
    c: LowerCtx, ir0: UnitIr, b0: BasicBlock, ir1: UnitIr, b1: BasicBlock, op: OpModel, operands: Seq<Operand>,
    r: Result<VarId, LoweringError>,
)
    requires
        emitted_as(emit_spec(expr_state(c, ir0, b0), op, operands, Type::U64), r, expr_state(c, ir1, b1)),
        r is Ok ==> same_but_vars(ir0, ir1) && b1.id == b0.id && b1.terminator == b0.terminator,
    ensures
        match emit_in(stmt_state(c, ir0, b0), op, operands) {
            Ok((v, st)) => r == Ok::<VarId, LoweringError>(v) && st == stmt_state(c, ir1, b1),
            Err(m) => r matches Err(LoweringError::UnitLowering(x)) && x@ == m,
        },
{
    assert(expr_part(stmt_state(c, ir0, b0)) == expr_state(c, ir0, b0));
}

proof fn lemma_ctx_grow(ctx: LowerCtx, a: u32, b: u32)
    requires
        ctx_inv(ctx, a),
        a <= b,
    ensures
        ctx_inv(ctx, b),
{
}

/// Lowers a call of a BPF helper that takes no arguments.
fn lower_ctx_helper(method: CtxMethod, ir: &mut UnitIr, block: &mut BasicBlock, Ghost(map_ptrs): Ghost<Seq<VarId>>) -> (r: Result<Operand, LoweringError>)
    ensures
        r matches Ok(op) ==> {
            &&& same_but_vars(*old(ir), *final(ir))
            &&& final(block).id == old(block).id
            &&& final(block).terminator == old(block).terminator
            &&& grew(old(block).instructions@, final(block).instructions@, old(ir).next_var_id as int, final(ir).next_var_id as int)
            &&& op matches Operand::Var(v) && v.0 < final(ir).next_var_id
        },
        r is Ok <==> (helper_id(method) is Some && old(ir).next_var_id < u32::MAX),
        r is Ok ==> final(block).instructions@.last().opcode == (Opcode::HelperCall { id: helper_id(method)->0 }),
        helper_id(method) is Some ==> lowered_as(
            emit_var_spec(ExprState { map_ptrs: map_ptrs, next: old(ir).next_var_id, instrs: instrs_model(old(block).instructions@) },
                OpModel::HelperCall(helper_id(method)->0), Seq::empty(), Type::U64),
            r,
            ExprState { map_ptrs: map_ptrs, next: final(ir).next_var_id, instrs: instrs_model(final(block).instructions@) },
        ),
{
    let helper: u32 = match method {
        CtxMethod::GetPidTgid => 14,
        CtxMethod::GetUidGid => 15,
        CtxMethod::GetCurrentComm => 16,
        CtxMethod::GetCurrentTask => 35,
        CtxMethod::GetKtimeNs => 5,
        _ => {
            let msg = concat3("Internal error: ", method.debug_name(), " is not a simple helper call");
            return Err(unit_err(msg));
        },
    };
    let result = emit(ir, block, Opcode::HelperCall { id: helper }, Vec::new(), Type::U64, Ghost(map_ptrs))?;
    Ok(Operand::Var(result))
}

/// The BPF helper number of a context method that is a plain helper call.
pub open spec fn helper_id(m: CtxMethod) -> Option<u32> {
    match m {
        CtxMethod::GetPidTgid => Some(14),
        CtxMethod::GetUidGid => Some(15),
        CtxMethod::GetCurrentComm => Some(16),
        CtxMethod::GetCurrentTask => Some(35),
        CtxMethod::GetKtimeNs => Some(5),
        _ => None,
    }
}

/// The kernel helper a context method reads through.
pub open spec fn ctx_method_helper(m: CtxMethod) -> Option<Seq<char>> {
    match m {
        CtxMethod::GetPidTgid => Some("bpf_get_current_pid_tgid"@),
        CtxMethod::GetUidGid => Some("bpf_get_current_uid_gid"@),
        CtxMethod::GetCurrentComm => Some("bpf_get_current_comm"@),
        CtxMethod::GetCurrentTask => Some("bpf_get_current_task"@),
        CtxMethod::GetKtimeNs => Some("bpf_ktime_get_ns"@),
        _ => None,
    }
}

/// A context method that reads through a helper lowers to a call of that
/// very helper: the number in the call is the kernel's number for it.
pub proof fn lemma_helper_ids_name_the_helper(m: CtxMethod)
    ensures
        helper_id(m) is Some <==> ctx_method_helper(m) is Some,
        helper_id(m) matches Some(id) ==> kernel_helper_name(id) == ctx_method_helper(m),
{
}

/// The size registered for an event name; later registrations win.
pub open spec fn event_size_named(events: Seq<(Seq<char>, u32)>, name: Seq<char>) -> Option<u32>
    decreases events.len(),
{
    if events.len() == 0 {
        None
    } else if events.last().0 == name {
        Some(events.last().1)
    } else {
        event_size_named(events.drop_last(), name)
    }
}

fn lookup_event_size(events: &Vec<(String, u32)>, name: &str) -> (r: Option<u32>)
    ensures
        r == event_size_named(sizes_view(events@), name@),
{
    let ghost v = sizes_view(events@);
    let mut i: usize = events.len();
    assert(v.subrange(0, i as int) =~= v);
    while i > 0
        invariant
            i <= events@.len(),
            v == sizes_view(events@),
            event_size_named(v, name@) == event_size_named(v.subrange(0, i as int), name@),
        decreases i,
    {
        let ghost pre = v.subrange(0, i as int);
        assert(pre.drop_last() =~= v.subrange(0, i - 1));
        if str_eq(events[i - 1].0.as_str(), name) {
            assert(pre.last() == v[i - 1]);
            return Some(events[i - 1].1);
        }
        i = i - 1;
    }
    None
}

/// Whether an event declared after declaration `i` has its name.
fn named_later(event_decls: &Vec<EventDecl>, i: usize) -> (r: bool)
    requires
        i < event_decls@.len(),
    ensures
        r == declares(decl_fields(event_decls@).subrange(i + 1, event_decls@.len() as int), event_decls@[i as int].name@),
{
    let ghost d = decl_fields(event_decls@);
    let ghost rest = d.subrange(i + 1, d.len() as int);
    let n = event_decls.len();
    let mut j: usize = i + 1;
    while j < n
        invariant
            n == event_decls@.len(),
            i < j <= event_decls@.len(),
            d == decl_fields(event_decls@),
            rest == d.subrange(i + 1, d.len() as int),
            forall|k: int| 0 <= k < j - i - 1 ==> (#[trigger] rest[k]).0 != event_decls@[i as int].name@,
        decreases event_decls@.len() - j,
    {
        assert(rest[j - i - 1] == d[j as int]);
        if str_eq(event_decls[j].name.as_str(), event_decls[i].name.as_str()) {
            assert(rest[j - i - 1].0 == event_decls@[i as int].name@);
            return true;
        }
        j = j + 1;
    }
    false
}

/// The offset of `field` in the first event (in declaration order) that
/// has it, passing over declarations a later one of the same name replaces.
fn find_field_offset(event_decls: &Vec<EventDecl>, field: &str) -> (r: Option<u32>)
    requires
        decls_valid(event_decls@),
    ensures
        r == field_offset_in(decl_fields(event_decls@), field@),
{
    let ghost d = decl_fields(event_decls@);
    let mut i: usize = 0;
    assert(d.subrange(0, d.len() as int) =~= d);
    while i < event_decls.len()
        invariant
            decls_valid(event_decls@),
            i <= event_decls@.len(),
            d == decl_fields(event_decls@),
            field_offset_in(d, field@) == field_offset_in(d.subrange(i as int, d.len() as int), field@),
        decreases event_decls@.len() - i,
    {
        assert(fields_valid(event_decls@[i as int].fields@));
        let ghost rest = d.subrange(i as int, d.len() as int);
        assert(rest[0] == (event_decls@[i as int].name@, event_decls@[i as int].fields@));
        assert(rest.drop_first() =~= d.subrange(i + 1, d.len() as int));
        if !named_later(event_decls, i) {
            match compute_field_offset(&event_decls[i], field) {
                Some(off) => return Some(off),
                None => {},
            }
        }
        i = i + 1;
    }
    None
}

/// Offset and size of `field` in the first event (in declaration order)
/// that has it, passing over replaced declarations.
fn find_field_offset_size(event_decls: &Vec<EventDecl>, field: &str) -> (r: (Option<u32>, Option<u32>))
    requires
        decls_valid(event_decls@),
    ensures
        r == (match field_slot_in(decl_fields(event_decls@), field@) {
            Some((o, sz)) => (Some(o), Some(sz)),
            None => (None, None),
        }),
{
    let ghost d = decl_fields(event_decls@);
    let mut i: usize = 0;
    assert(d.subrange(0, d.len() as int) =~= d);
    while i < event_decls.len()
        invariant
            decls_valid(event_decls@),
            i <= event_decls@.len(),
            d == decl_fields(event_decls@),
            field_slot_in(d, field@) == field_slot_in(d.subrange(i as int, d.len() as int), field@),
        decreases event_decls@.len() - i,
    {
        assert(fields_valid(event_decls@[i as int].fields@));
        let ghost rest = d.subrange(i as int, d.len() as int);
        assert(rest[0] == (event_decls@[i as int].name@, event_decls@[i as int].fields@));
        assert(rest.drop_first() =~= d.subrange(i + 1, d.len() as int));
        if !named_later(event_decls, i) {
            match compute_field_offset(&event_decls[i], field) {
                Some(off) => return (Some(off), compute_field_size(&event_decls[i], field)),
                None => {},
            }
        }
        i = i + 1;
    }
    (None, None)
}

fn bin_op_of(op: BinOp) -> (r: BinaryOp)
    ensures
        r == bin_op_spec(op),
        forall|x: u64, y: u64| #[trigger] ir_value(r, x, y) == source_value(op, x, y),
{
    match op {
        BinOp::Add => BinaryOp::Add,
        BinOp::Sub => BinaryOp::Sub,
        BinOp::Mul => BinaryOp::Mul,
        BinOp::Div => BinaryOp::Div,
        BinOp::Mod => BinaryOp::Mod,
        BinOp::Shl => BinaryOp::Shl,
        BinOp::Shr => BinaryOp::Shr,
    }
}

/// The error for a call given the wrong number of arguments: `prefix`
/// followed by the number given.
fn arity_err(prefix: &str, got: usize) -> (r: LoweringError)
    ensures
        r matches LoweringError::UnitLowering(s) && s@ == prefix@ + crate::text::decimal(got as nat),
{
    let mut msg = String::from_str(prefix);
    crate::text::push_decimal(&mut msg, got as u64);
    LoweringError::UnitLowering(msg)
}

/// Lowers an expression into instructions appended to `block`, returning the
/// operand that holds its value.
fn lower_expr(
    expr: &Expr,
    ctx: &mut LowerCtx,
    ir: &mut UnitIr,
    block: &mut BasicBlock,
    events: &Vec<(String, u32)>,
    event_decls: &Vec<EventDecl>,
) -> (r: Result<Operand, LoweringError>)
    requires
        ctx_inv(*old(ctx), old(ir).next_var_id),
        decls_valid(event_decls@),
    ensures
        r matches Ok(op) ==> expr_post(*old(ir), *final(ir), *old(block), *final(block), *final(ctx))
            && final(ctx).vars == old(ctx).vars
            && (op matches Operand::Var(v) ==> v.0 < final(ir).next_var_id),
        expr.kind matches ExprKind::Variable(name) ==> (match lookup_var(names_view(old(ctx).vars@), name@) {
            Some(v) => r == Ok::<Operand, LoweringError>(Operand::Var(v)),
            None => r is Err,
        }),
        expr.kind matches ExprKind::Number(n) ==> r == Ok::<Operand, LoweringError>(Operand::Immediate(n))
            && final(block).instructions@ == old(block).instructions@,
        lowered_as(spec_lower_expr(lower_env(*old(ctx), old(ir).program_type, events@, event_decls@), expr_model(*expr), expr_state(*old(ctx), *old(ir), *old(block))), r, expr_state(*final(ctx), *final(ir), *final(block))),
    decreases expr, 0nat,
{
    let ghost ir0 = *ir;
    let ghost b0 = *block;
    match &expr.kind {
        ExprKind::Variable(name) => {
            match ctx.get_var(name.as_str()) {
                Some(v) => {
                    proof { lemma_grew_refl(block.instructions@, ir.next_var_id as int); }
                    Ok(Operand::Var(v))
                },
                None => Err(unit_err(concat2("Undefined variable: ", name.as_str()))),
            }
        },
        ExprKind::Number(n) => {
            proof { lemma_grew_refl(block.instructions@, ir.next_var_id as int); }
            Ok(Operand::Immediate(*n))
        },
        ExprKind::HeapLookup(hl) => {
            let key = lower_expr(&hl.key_expr, ctx, ir, block, events, event_decls)?;
            let ghost ir1 = *ir;
            let ghost b1 = *block;
            let ops = vec![key];
            assert(ops@ == seq![key]);
            let result = emit(ir, block, Opcode::CallMap { map_name: hl.map_name.clone() }, ops, Type::U64, Ghost(ctx.map_ptr_vars@))?;
            ctx.map_ptr_vars.push(result);
            proof { lemma_expr_post_trans(ir0, ir1, *ir, b0, b1, *block, *ctx); }
            Ok(Operand::Var(result))
        },
        ExprKind::MethodCall(call) => {
            proof {
                let rm = expr_model(*call.receiver);
                assert(rm is Variable <==> call.receiver.kind is Variable);
            }
            let receiver_name = match &call.receiver.kind {
                ExprKind::Variable(name) => name.clone(),
                _ => {
                    return Err(unit_err(String::from_str("Method receiver must be identifier")));
                },
            };
            let r = lower_method(&receiver_name, call, ctx, ir, block, events, event_decls);
            r
        },
        ExprKind::Dereference(ptr_expr) => {
            let ptr = lower_expr(ptr_expr, ctx, ir, block, events, event_decls)?;
            let ghost ir1 = *ir;
            let ghost b1 = *block;
            let ops = vec![ptr];
            assert(ops@ == seq![ptr]);
            let result = emit(ir, block, Opcode::LoadKey, ops, Type::U64, Ghost(ctx.map_ptr_vars@))?;
            proof { lemma_expr_post_trans(ir0, ir1, *ir, b0, b1, *block, *ctx); }
            Ok(Operand::Var(result))
        },
        ExprKind::Binary(bin) => {
            let left = lower_expr(&bin.left, ctx, ir, block, events, event_decls)?;
            let ghost ir1 = *ir;
            let ghost b1 = *block;
            let right = lower_expr(&bin.right, ctx, ir, block, events, event_decls)?;
            proof { lemma_expr_post_trans(ir0, ir1, *ir, b0, b1, *block, *ctx); }
            let ghost ir2 = *ir;
            let ghost b2 = *block;
            let op = bin_op_of(bin.op);
            let ops = vec![left, right];
            assert(ops@ == seq![left, right]);
            let result = emit(ir, block, Opcode::Binary { op }, ops, Type::U64, Ghost(ctx.map_ptr_vars@))?;
            proof { lemma_expr_post_trans(ir0, ir2, *ir, b0, b2, *block, *ctx); }
            Ok(Operand::Var(result))
        },
        ExprKind::Call(call) => {
            let r = lower_builtin(call, ctx, ir, block, events, event_decls);
            r
        },
        ExprKind::FieldAccess { base, field } => {
            let base_operand = lower_expr(base, ctx, ir, block, events, event_decls)?;
            let base_var = match base_operand {
                Operand::Var(v) => v,
                _ => {
                    return Err(unit_err(String::from_str("Field access requires a pointer variable")));
                },
            };
            let offset = match find_field_offset(event_decls, field.as_str()) {
                Some(off) => off,
                None => {
                    return Err(unit_err(concat2("Unknown field: ", field.as_str())));
                },
            };
            if offset == 0 {
                Ok(Operand::Var(base_var))
            } else {
                let ghost ir1 = *ir;
                let ghost b1 = *block;
                let ops = vec![Operand::Var(base_var), Operand::Immediate(offset as i64)];
                assert(ops@ == seq![Operand::Var(base_var), Operand::Immediate(offset as i64)]);
                let result = emit(ir, block, Opcode::Binary { op: BinaryOp::Add }, ops, Type::U64, Ghost(ctx.map_ptr_vars@))?;
                proof { lemma_expr_post_trans(ir0, ir1, *ir, b0, b1, *block, *ctx); }
            Ok(Operand::Var(result))
            }
        },
    }
}

/// Lowers a call of a builtin function by name.
fn lower_builtin(
    call: &CallExpr,
    ctx: &LowerCtx,
    ir: &mut UnitIr,
    block: &mut BasicBlock,
    events: &Vec<(String, u32)>,
    event_decls: &Vec<EventDecl>,
) -> (r: Result<Operand, LoweringError>)
    requires
        ctx_inv(*ctx, old(ir).next_var_id),
    ensures
        r matches Ok(op) ==> expr_post(*old(ir), *final(ir), *old(block), *final(block), *ctx)
            && (op matches Operand::Var(v) ==> v.0 < final(ir).next_var_id),
        lowered_as(spec_lower_builtin(lower_env(*ctx, old(ir).program_type, events@, event_decls@), call.name@,
            exprs_model(call.args@), expr_state(*ctx, *old(ir), *old(block))), r, expr_state(*ctx, *final(ir), *final(block))),
{
    proof { lemma_exprs_model_index(call.args@); }
    let method = match CtxMethod::from_str(call.name.as_str()) {
        Some(m) => m,
        None => {
            return Err(unit_err(concat2("Unknown builtin function: ", call.name.as_str())));
        },
    };
    if !ir.program_type.allows_ctx_method(method) {
        let mut msg = concat3("ctx method ", method.debug_name(), " not allowed in ");
        msg.append(ir.program_type.debug_name());
        return Err(unit_err(msg));
    }
    if call.args.len() != 0 {
        let prefix = concat2(call.name.as_str(), " expects 0 arguments, got ");
        return Err(arity_err(prefix.as_str(), call.args.len()));
    }
    match method {
        CtxMethod::GetPidTgid | CtxMethod::GetUidGid | CtxMethod::GetCurrentComm
        | CtxMethod::GetCurrentTask | CtxMethod::GetKtimeNs => {
            let r = lower_ctx_helper(method, ir, block, Ghost(ctx.map_ptr_vars@));
            proof {
                if r is Ok {
                    assert(ctx_inv(*ctx, ir.next_var_id));
                }
            }
            r
        },
        _ => {
            let msg = concat3("Use ctx.", call.name.as_str(), "(offset) for context loads");
            Err(unit_err(msg))
        },
    }
}

/// Lowers `receiver.method(args)`: a context method when the receiver is
/// `ctx`, else a map operation.
fn lower_method(
    receiver_name: &String,
    call: &MethodCall,
    ctx: &mut LowerCtx,
    ir: &mut UnitIr,
    block: &mut BasicBlock,
    events: &Vec<(String, u32)>,
    event_decls: &Vec<EventDecl>,
) -> (r: Result<Operand, LoweringError>)
    requires
        ctx_inv(*old(ctx), old(ir).next_var_id),
        decls_valid(event_decls@),
    ensures
        r matches Ok(op) ==> expr_post(*old(ir), *final(ir), *old(block), *final(block), *final(ctx))
            && final(ctx).vars == old(ctx).vars
            && (op matches Operand::Var(v) ==> v.0 < final(ir).next_var_id),
        lowered_as(spec_lower_method(lower_env(*old(ctx), old(ir).program_type, events@, event_decls@), receiver_name@, call.method@, exprs_model(call.arg@), expr_state(*old(ctx), *old(ir), *old(block))),
            r, expr_state(*final(ctx), *final(ir), *final(block))),
    decreases call, 1nat,
{
    proof { lemma_exprs_model_index(call.arg@); }
    let ghost ir0 = *ir;
    let ghost b0 = *block;
    if str_eq(receiver_name.as_str(), "ctx") {
        lower_ctx(call, ctx, ir, block, events, event_decls)
    } else if str_eq(call.method.as_str(), "lookup") {
        if call.arg.len() != 1 {
            let prefix = concat2(receiver_name.as_str(), ".lookup expects 1 argument, got ");
            return Err(arity_err(prefix.as_str(), call.arg.len()));
        }
        let key = lower_expr(&call.arg[0], ctx, ir, block, events, event_decls)?;
        let ghost ir1 = *ir;
        let ghost b1 = *block;
        let ops = vec![key];
        assert(ops@ == seq![key]);
        let result = emit(ir, block, Opcode::CallMap { map_name: receiver_name.clone() }, ops, Type::U64, Ghost(ctx.map_ptr_vars@))?;
        ctx.map_ptr_vars.push(result);
        proof { lemma_expr_post_trans(ir0, ir1, *ir, b0, b1, *block, *ctx); }
        Ok(Operand::Var(result))
    } else if str_eq(call.method.as_str(), "update") {
        if call.arg.len() != 2 {
            let prefix = concat2(receiver_name.as_str(), ".update expects 2 arguments, got ");
            return Err(arity_err(prefix.as_str(), call.arg.len()));
        }
        let key = lower_expr(&call.arg[0], ctx, ir, block, events, event_decls)?;
        let ghost ir1 = *ir;
        let ghost b1 = *block;
        let value = lower_expr(&call.arg[1], ctx, ir, block, events, event_decls)?;
        proof { lemma_expr_post_trans(ir0, ir1, *ir, b0, b1, *block, *ctx); }
        let ghost ir2 = *ir;
        let ghost b2 = *block;
        let result = emit(ir, block, Opcode::UpdateMap { map_name: receiver_name.clone() }, vec![key, value], Type::U64, Ghost(ctx.map_ptr_vars@))?;
        proof { lemma_expr_post_trans(ir0, ir2, *ir, b0, b2, *block, *ctx); }
        Ok(Operand::Var(result))
    } else if str_eq(call.method.as_str(), "reserve") {
        if call.arg.len() != 1 {
            return Err(unit_err(concat2(receiver_name.as_str(), ".reserve expects 1 argument (event type)")));
        }
        proof {
            let am = expr_model(call.arg@[0]);
            assert(am is Variable <==> call.arg@[0].kind is Variable);
        }
        let event_name = match &call.arg[0].kind {
            ExprKind::Variable(name) => name.clone(),
            _ => {
                return Err(unit_err(String::from_str("reserve requires event type name")));
            },
        };
        let size = match lookup_event_size(events, event_name.as_str()) {
            Some(sz) => sz,
            None => {
                return Err(unit_err(concat2("Unknown event type: ", event_name.as_str())));
            },
        };
        let result = emit(ir, block, Opcode::RingBufReserve { map_name: receiver_name.clone(), size }, Vec::new(), Type::U64, Ghost(ctx.map_ptr_vars@))?;
        ctx.map_ptr_vars.push(result);
        Ok(Operand::Var(result))
    } else if str_eq(call.method.as_str(), "submit") {
        if call.arg.len() != 1 {
            return Err(unit_err(concat2(receiver_name.as_str(), ".submit expects 1 argument")));
        }
        let ptr = lower_expr(&call.arg[0], ctx, ir, block, events, event_decls)?;
        let ghost ir1 = *ir;
        let ghost b1 = *block;
        let ops = vec![ptr];
        assert(ops@ == seq![ptr]);
        let result = emit(ir, block, Opcode::RingBufSubmit { map_name: receiver_name.clone() }, ops, Type::U64, Ghost(ctx.map_ptr_vars@))?;
        proof { lemma_expr_post_trans(ir0, ir1, *ir, b0, b1, *block, *ctx); }
        Ok(Operand::Var(result))
    } else {
        let mut msg = concat3("Unknown method: ", receiver_name.as_str(), ".");
        msg.append(call.method.as_str());
        Err(unit_err(msg))
    }
}

/// Lowers `ctx.method(args)`.
#[verifier::spinoff_prover]
#[verifier::rlimit(40)]
fn lower_ctx(
    call: &MethodCall,
    ctx: &mut LowerCtx,
    ir: &mut UnitIr,
    block: &mut BasicBlock,
    events: &Vec<(String, u32)>,
    event_decls: &Vec<EventDecl>,
) -> (r: Result<Operand, LoweringError>)
    requires
        ctx_inv(*old(ctx), old(ir).next_var_id),
        decls_valid(event_decls@),
    ensures
        r matches Ok(op) ==> expr_post(*old(ir), *final(ir), *old(block), *final(block), *final(ctx))
            && final(ctx).vars == old(ctx).vars
            && (op matches Operand::Var(v) ==> v.0 < final(ir).next_var_id),
        lowered_as(spec_lower_ctx(lower_env(*old(ctx), old(ir).program_type, events@, event_decls@), call.method@, exprs_model(call.arg@), expr_state(*old(ctx), *old(ir), *old(block))),
            r, expr_state(*final(ctx), *final(ir), *final(block))),
    decreases call, 0nat,
{
    proof { lemma_exprs_model_index(call.arg@); }
    let ghost ir0 = *ir;
    let ghost b0 = *block;
    let method = match CtxMethod::from_str(call.method.as_str()) {
        Some(m) => m,
        None => {
            return Err(unit_err(concat2("Unknown ctx method: ", call.method.as_str())));
        },
    };
    if !ir.program_type.allows_ctx_method(method) {
        let mut msg = concat3("ctx method ", method.debug_name(), " not allowed in ");
        msg.append(ir.program_type.debug_name());
        return Err(unit_err(msg));
    }
    match method {
        CtxMethod::LoadU8 | CtxMethod::LoadU16 | CtxMethod::LoadU32 | CtxMethod::LoadU64
        | CtxMethod::LoadI8 | CtxMethod::LoadI16 | CtxMethod::LoadI32 | CtxMethod::LoadI64 => {
            if call.arg.len() != 1 {
                let prefix = concat3("ctx method ", call.method.as_str(), " expects 1 argument, got ");
                return Err(arity_err(prefix.as_str(), call.arg.len()));
            }
            let offset_expr = lower_expr(&call.arg[0], ctx, ir, block, events, event_decls)?;
            let ghost ir1 = *ir;
            let ghost b1 = *block;
            let offset: i32 = match offset_expr {
                Operand::Immediate(n) => n as i32,
                _ => {
                    return Err(unit_err(String::from_str("Context load offset must be immediate")));
                },
            };
            let (size, result_type): (u8, Type) = match method {
                CtxMethod::LoadU8 => (1, Type::U32),
                CtxMethod::LoadU16 => (2, Type::U32),
                CtxMethod::LoadU32 => (4, Type::U32),
                CtxMethod::LoadU64 => (8, Type::U64),
                CtxMethod::LoadI8 => (1, Type::I32),
                CtxMethod::LoadI16 => (2, Type::I32),
                CtxMethod::LoadI32 => (4, Type::I32),
                _ => (8, Type::I64),
            };
            let opcode = if offset >= 0 {
                Opcode::LoadPacket { offset, size }
            } else {
                Opcode::LoadCtx { offset, size }
            };
            let result = emit(ir, block, opcode, Vec::new(), result_type, Ghost(ctx.map_ptr_vars@))?;
            proof { lemma_expr_post_trans(ir0, ir1, *ir, b0, b1, *block, *ctx); }
            Ok(Operand::Var(result))
        },
        CtxMethod::ProbeReadUserStr | CtxMethod::ProbeReadKernelStr => {
            let (name, helper): (&str, u32) = match method {
                CtxMethod::ProbeReadUserStr => ("probe_read_user_str", 202),
                _ => ("probe_read_kernel_str", 204),
            };
            if call.arg.len() != 3 {
                let prefix = concat3("ctx.", name, " expects 3 arguments, got ");
                return Err(arity_err(prefix.as_str(), call.arg.len()));
            }
            let dest = lower_expr(&call.arg[0], ctx, ir, block, events, event_decls)?;
            let ghost ir1 = *ir;
            let ghost b1 = *block;
            let size_expr = lower_expr(&call.arg[1], ctx, ir, block, events, event_decls)?;
            proof { lemma_expr_post_trans(ir0, ir1, *ir, b0, b1, *block, *ctx); }
            let ghost ir2 = *ir;
            let ghost b2 = *block;
            let src = lower_expr(&call.arg[2], ctx, ir, block, events, event_decls)?;
            proof { lemma_expr_post_trans(ir0, ir2, *ir, b0, b2, *block, *ctx); }
            let ghost ir3 = *ir;
            let ghost b3 = *block;
            let size: u32 = match size_expr {
                Operand::Immediate(n) => n as u32,
                _ => {
                    return Err(unit_err(concat2(name, " size must be immediate")));
                },
            };
            let result = emit(
                ir,
                block,
                Opcode::HelperCall { id: helper },
                vec![dest, Operand::Immediate(size as i64), src],
                Type::U64,
                Ghost(ctx.map_ptr_vars@),
            )?;
            proof { lemma_expr_post_trans(ir0, ir3, *ir, b0, b3, *block, *ctx); }
            Ok(Operand::Var(result))
        },
        CtxMethod::LoadBytes => {
            if call.arg.len() != 3 {
                return Err(unit_err(String::from_str("ctx.load_bytes expects (offset, dest, size)")));
            }
            let offset_expr = lower_expr(&call.arg[0], ctx, ir, block, events, event_decls)?;
            let ghost ir1 = *ir;
            let ghost b1 = *block;
            let dest = lower_expr(&call.arg[1], ctx, ir, block, events, event_decls)?;
            proof { lemma_expr_post_trans(ir0, ir1, *ir, b0, b1, *block, *ctx); }
            let ghost ir2 = *ir;
            let ghost b2 = *block;
            let size_expr = lower_expr(&call.arg[2], ctx, ir, block, events, event_decls)?;
            proof { lemma_expr_post_trans(ir0, ir2, *ir, b0, b2, *block, *ctx); }
            let ghost ir3 = *ir;
            let ghost b3 = *block;
            let offset: i32 = match offset_expr {
                Operand::Immediate(n) => n as i32,
                _ => {
                    return Err(unit_err(String::from_str("offset must be immediate")));
                },
            };
            let size: u32 = match size_expr {
                Operand::Immediate(n) => n as u32,
                _ => {
                    return Err(unit_err(String::from_str("size must be immediate")));
                },
            };
            let _copied = emit(ir, block, Opcode::CopyCtxToMem { offset, size }, vec![dest], Type::U64, Ghost(ctx.map_ptr_vars@))?;
            proof { lemma_expr_post_trans(ir0, ir3, *ir, b0, b3, *block, *ctx); }
            Ok(dest)
        },
        _ => {
            if call.arg.len() != 0 {
                let prefix = concat3("ctx method ", call.method.as_str(), " expects 0 arguments, got ");
                return Err(arity_err(prefix.as_str(), call.arg.len()));
            }
            let r = lower_ctx_helper(method, ir, block, Ghost(ctx.map_ptr_vars@));
            proof {
                if r is Ok {
                    assert(ctx_inv(*ctx, ir.next_var_id));
                }
            }
            r
        },
    }
}
// ---------------------------------------------------------------------
// Statements
// ---------------------------------------------------------------------

/// `new` holds the identities of `old` and exactly the fresh ones `lo..hi` more.
pub open spec fn bgrew(old: Seq<int>, new: Seq<int>, lo: int, hi: int) -> bool {
    &&& lo <= hi
    &&& old.len() > 0
    &&& new.len() == old.len() + (hi - lo)
    &&& new.to_set() == old.to_set().union(set_int_range(lo, hi))
    &&& new[0] == old[0]
}

/// The facts every successful statement lowering keeps.
spec fn stmt_post(ir0: UnitIr, ir1: UnitIr, b0: BasicBlock, b1: BasicBlock, ctx1: LowerCtx) -> bool {
    &&& same_header(ir0, ir1)
    &&& ir0.blocks@.len() <= ir1.blocks@.len()
    &&& ir1.blocks@.subrange(0, ir0.blocks@.len() as int) == ir0.blocks@
    &&& grew(all_instrs(ir0.blocks@, b0), all_instrs(ir1.blocks@, b1), ir0.next_var_id as int, ir1.next_var_id as int)
    &&& bgrew(all_block_ids(ir0.blocks@, b0), all_block_ids(ir1.blocks@, b1), ir0.next_block_id as int, ir1.next_block_id as int)
    &&& all_targets_below(ir1.blocks@, ir1.next_block_id as int)
    &&& targets_below(b1.terminator, ir1.next_block_id as int)
    &&& ctx_inv(ctx1, ir1.next_var_id)
}

/// What a statement lowering may assume on entry.
spec fn stmt_pre(ir: UnitIr, b: BasicBlock, ctx: LowerCtx) -> bool {
    &&& all_targets_below(ir.blocks@, ir.next_block_id as int)
    &&& targets_below(b.terminator, ir.next_block_id as int)
    &&& ctx_inv(ctx, ir.next_var_id)
}

proof fn lemma_grew_prefix(p: Seq<Instruction>, a: Seq<Instruction>, b: Seq<Instruction>, lo: int, hi: int)
    requires
        grew(a, b, lo, hi),
    ensures
        grew(p + a, p + b, lo, hi),
{
    assert((p + b).subrange(0, (p + a).len() as int) == p + a) by {
        assert(b.subrange(0, a.len() as int) == a);
    }
    assert((p + b).subrange((p + a).len() as int, (p + b).len() as int) == b.subrange(a.len() as int, b.len() as int));
}

proof fn lemma_set_range_join(lo: int, mid: int, hi: int)
    requires
        lo <= mid <= hi,
    ensures
        set_int_range(lo, mid).union(set_int_range(mid, hi)) == set_int_range(lo, hi),
{
    assert(set_int_range(lo, mid).union(set_int_range(mid, hi)) =~= set_int_range(lo, hi));
}

proof fn lemma_stmt_post_trans(
    ir0: UnitIr, ir1: UnitIr, ir2: UnitIr, b0: BasicBlock, b1: BasicBlock, b2: BasicBlock, c1: LowerCtx, c2: LowerCtx,
)
    requires
        stmt_post(ir0, ir1, b0, b1, c1),
        stmt_post(ir1, ir2, b1, b2, c2),
    ensures
        stmt_post(ir0, ir2, b0, b2, c2),
{
    assert(ir2.blocks@.subrange(0, ir0.blocks@.len() as int) == ir1.blocks@.subrange(0, ir0.blocks@.len() as int));
    lemma_grew_trans(all_instrs(ir0.blocks@, b0), all_instrs(ir1.blocks@, b1), all_instrs(ir2.blocks@, b2),
        ir0.next_var_id as int, ir1.next_var_id as int, ir2.next_var_id as int);
    lemma_set_range_join(ir0.next_block_id as int, ir1.next_block_id as int, ir2.next_block_id as int);
    assert(all_block_ids(ir2.blocks@, b2).to_set() =~= all_block_ids(ir0.blocks@, b0).to_set().union(
        set_int_range(ir0.next_block_id as int, ir2.next_block_id as int)));
}

/// An expression lowered into the open block is a statement step.
proof fn lemma_expr_to_stmt(ir0: UnitIr, ir1: UnitIr, b0: BasicBlock, b1: BasicBlock, c1: LowerCtx)
    requires
        expr_post(ir0, ir1, b0, b1, c1),
        all_targets_below(ir0.blocks@, ir0.next_block_id as int),
        targets_below(b0.terminator, ir0.next_block_id as int),
    ensures
        stmt_post(ir0, ir1, b0, b1, c1),
{
    lemma_grew_prefix(flat(ir0.blocks@), b0.instructions@, b1.instructions@, ir0.next_var_id as int, ir1.next_var_id as int);
    assert(ir1.blocks@.subrange(0, ir0.blocks@.len() as int) == ir0.blocks@);
    let o = all_block_ids(ir0.blocks@, b0);
    let n = all_block_ids(ir1.blocks@, b1);
    assert(n == o);
    assert(o.to_set().union(set_int_range(ir0.next_block_id as int, ir0.next_block_id as int)) =~= o.to_set());
}

/// Nothing lowered at all.
proof fn lemma_stmt_refl(ir: UnitIr, b: BasicBlock, c: LowerCtx)
    requires
        stmt_pre(ir, b, c),
    ensures
        stmt_post(ir, ir, b, b, c),
{
    lemma_grew_refl(all_instrs(ir.blocks@, b), ir.next_var_id as int);
    assert(ir.blocks@.subrange(0, ir.blocks@.len() as int) == ir.blocks@);
    let o = all_block_ids(ir.blocks@, b);
    assert(o.to_set().union(set_int_range(ir.next_block_id as int, ir.next_block_id as int)) =~= o.to_set());
}

proof fn lemma_flat_concat(a: Seq<BasicBlock>, b: Seq<BasicBlock>)
    ensures
        flat(a + b) == flat(a) + flat(b),
    decreases b.len(),
{
    if b.len() == 0 {
        assert(a + b == a);
        assert(flat(b) == Seq::<Instruction>::empty());
        assert(flat(a) + flat(b) == flat(a));
    } else {
        lemma_flat_concat(a, b.drop_last());
        assert((a + b).drop_last() == a + b.drop_last());
        assert((a + b).last() == b.last());
    }
}

proof fn lemma_fresh_interleave(
    a: Seq<Instruction>, b: Seq<Instruction>, c: Seq<Instruction>, d: Seq<Instruction>, lo: int, mid: int, hi: int,
)
    requires
        fresh(a + b, lo, mid),
        fresh(c + d, mid, hi),
    ensures
        fresh(a + c + b + d, lo, hi),
{
    lemma_id_set_concat(a, b);
    lemma_id_set_concat(c, d);
    lemma_id_set_concat(a, c);
    lemma_id_set_concat(a + c, b);
    lemma_id_set_concat(a + c + b, d);
    lemma_set_range_join(lo, mid, hi);
    assert(id_set(a + c + b + d) =~= set_int_range(lo, hi));
}

/// The accounting of an `if guard`: the open block closes with a branch, the
/// two arms are lowered in fresh blocks, and a fresh merge block stays open.
#[verifier::spinoff_prover]
#[verifier::rlimit(40)]
proof fn lemma_if_guard_post(
    ir0: UnitIr, b0: BasicBlock, ir_a: UnitIr, b_a: BasicBlock, fin: BasicBlock,
    ir2: UnitIr, merge: BasicBlock, tb0: BasicBlock, ir3: UnitIr, tb_l: BasicBlock, tb_f: BasicBlock, c3: LowerCtx,
    eb0: BasicBlock, ir4: UnitIr, eb_l: BasicBlock, eb_f: BasicBlock, c4: LowerCtx, ir5: UnitIr,
)
    requires
        same_but_vars(ir0, ir_a),
        b_a.id == b0.id,
        grew(b0.instructions@, b_a.instructions@, ir0.next_var_id as int, ir_a.next_var_id as int),
        all_targets_below(ir0.blocks@, ir0.next_block_id as int),
        fin.id == b0.id,
        fin.instructions@ == b_a.instructions@,
        fin.terminator matches Terminator::Branch { true_block, false_block, .. }
            && true_block.0 == ir0.next_block_id && false_block.0 == ir0.next_block_id + 1,
        ir0.next_block_id + 3 <= u32::MAX,
        same_header(ir_a, ir2),
        ir2.next_var_id == ir_a.next_var_id,
        ir2.next_block_id == ir0.next_block_id + 3,
        ir2.blocks@ == ir0.blocks@.push(fin),
        merge.id.0 == ir0.next_block_id + 2,
        merge.instructions@.len() == 0,
        targets_below(merge.terminator, ir0.next_block_id as int),
        tb0.id.0 == ir0.next_block_id,
        tb0.instructions@.len() == 0,
        stmt_post(ir2, ir3, tb0, tb_l, c3),
        tb_f.id == tb_l.id,
        tb_f.instructions@ == tb_l.instructions@,
        targets_below(tb_f.terminator, ir3.next_block_id as int),
        eb0.id.0 == ir0.next_block_id + 1,
        eb0.instructions@.len() == 0,
        stmt_post(ir3, ir4, eb0, eb_l, c4),
        eb_f.id == eb_l.id,
        eb_f.instructions@ == eb_l.instructions@,
        targets_below(eb_f.terminator, ir4.next_block_id as int),
        same_header(ir4, ir5),
        ir5.next_var_id == ir4.next_var_id,
        ir5.next_block_id == ir4.next_block_id,
        ir5.blocks@ == ir4.blocks@.push(tb_f).push(eb_f),
    ensures
        stmt_post(ir0, ir5, b0, merge, c4),
{
    let big_b = ir0.blocks@;
    let f = flat(big_b);
    let nv0 = ir0.next_var_id as int;
    let nva = ir_a.next_var_id as int;
    let nv3 = ir3.next_var_id as int;
    let nv4 = ir4.next_var_id as int;
    let nb0 = ir0.next_block_id as int;
    let nb3 = ir3.next_block_id as int;
    let nb4 = ir4.next_block_id as int;
    let l2 = ir2.blocks@.len() as int;
    let l3 = ir3.blocks@.len() as int;
    let n1 = ir3.blocks@.subrange(l2, l3);
    let n2 = ir4.blocks@.subrange(l3, ir4.blocks@.len() as int);
    // the finished blocks
    assert(ir3.blocks@ == ir2.blocks@ + n1);
    assert(ir4.blocks@ == ir3.blocks@ + n2);
    lemma_flat_push(big_b, fin);
    lemma_flat_concat(ir2.blocks@, n1);
    lemma_flat_concat(ir3.blocks@, n2);
    lemma_flat_push(ir4.blocks@, tb_f);
    lemma_flat_push(ir4.blocks@.push(tb_f), eb_f);
    assert(ir5.blocks@.subrange(0, big_b.len() as int) == big_b);
    // instructions
    let x0 = b_a.instructions@.subrange(b0.instructions@.len() as int, b_a.instructions@.len() as int);
    assert(b_a.instructions@ == b0.instructions@ + x0);
    let t = tb_l.instructions@;
    let e = eb_l.instructions@;
    let f2 = flat(ir2.blocks@);
    let f3 = flat(ir3.blocks@);
    assert(all_instrs(ir2.blocks@, tb0) == f2);
    assert(all_instrs(ir3.blocks@, tb_l) == f2 + flat(n1) + t);
    assert((f2 + flat(n1) + t).subrange(f2.len() as int, (f2 + flat(n1) + t).len() as int) == flat(n1) + t);
    assert(all_instrs(ir3.blocks@, eb0) == f3);
    assert(all_instrs(ir4.blocks@, eb_l) == f3 + flat(n2) + e);
    assert((f3 + flat(n2) + e).subrange(f3.len() as int, (f3 + flat(n2) + e).len() as int) == flat(n2) + e);
    lemma_fresh_interleave(flat(n1), t, flat(n2), e, nva, nv3, nv4);
    lemma_fresh_concat(x0, flat(n1) + flat(n2) + t + e, nv0, nva, nv4);
    let old_all = all_instrs(big_b, b0);
    let new_all = all_instrs(ir5.blocks@, merge);
    assert(merge.instructions@ == Seq::<Instruction>::empty());
    assert(new_all == f + b0.instructions@ + (x0 + (flat(n1) + flat(n2) + t + e)));
    assert(new_all.subrange(0, old_all.len() as int) == old_all);
    assert(new_all.subrange(old_all.len() as int, new_all.len() as int) == x0 + (flat(n1) + flat(n2) + t + e));
    // block identities
    let ob = all_block_ids(big_b, b0);
    let ids_b = block_ids(big_b);
    assert(block_ids(ir2.blocks@) == ob);
    assert(block_ids(ir3.blocks@) == ob + block_ids(n1));
    assert(block_ids(ir4.blocks@) == ob + block_ids(n1) + block_ids(n2));
    let then_old = all_block_ids(ir2.blocks@, tb0);
    let then_new = all_block_ids(ir3.blocks@, tb_l);
    let else_old = all_block_ids(ir3.blocks@, eb0);
    let else_new = all_block_ids(ir4.blocks@, eb_l);
    let final_ids = all_block_ids(ir5.blocks@, merge);
    assert(then_old == ob.push(nb0));
    assert(then_new == (ob + block_ids(n1)).push(tb_l.id.0 as int));
    assert(else_old == (ob + block_ids(n1)).push(nb0 + 1));
    assert(else_new == (ob + block_ids(n1) + block_ids(n2)).push(eb_l.id.0 as int));
    assert(final_ids == (ob + block_ids(n1) + block_ids(n2)).push(tb_l.id.0 as int).push(eb_l.id.0 as int).push(nb0 + 2));
    assert forall|v: int| final_ids.to_set().contains(v) <==> ob.to_set().union(set_int_range(nb0, nb4)).contains(v) by {
        assert(final_ids.to_set().contains(v) <==> final_ids.contains(v));
        assert(ob.to_set().contains(v) <==> ob.contains(v));
        assert(then_new.to_set().contains(v) <==> then_new.contains(v));
        assert(then_old.to_set().contains(v) <==> then_old.contains(v));
        assert(else_new.to_set().contains(v) <==> else_new.contains(v));
        assert(else_old.to_set().contains(v) <==> else_old.contains(v));
        if final_ids.contains(v) {
            let k = choose|k: int| 0 <= k < final_ids.len() && final_ids[k] == v;
            if k < ob.len() {
                assert(ob[k] == v);
            } else if k < ob.len() + block_ids(n1).len() || k == final_ids.len() - 3 {
                if k < ob.len() + block_ids(n1).len() {
                    assert(then_new[k] == v);
                } else {
                    assert(then_new[then_new.len() - 1] == v);
                }
                lemma_then_side(ob, nb0, then_new, nb0 + 3, nb3, v);
            } else if k < ob.len() + block_ids(n1).len() + block_ids(n2).len() || k == final_ids.len() - 2 {
                if k < ob.len() + block_ids(n1).len() + block_ids(n2).len() {
                    assert(else_new[k] == v);
                } else {
                    assert(else_new[else_new.len() - 1] == v);
                }
                assert(else_new.to_set().contains(v));
                assert(else_old.to_set().contains(v) || set_int_range(nb3, nb4).contains(v));
                if else_old.to_set().contains(v) {
                    assert(else_old.contains(v));
                    let j = choose|j: int| 0 <= j < else_old.len() && else_old[j] == v;
                    if j < ob.len() {
                        assert(ob[j] == v);
                    } else if j < ob.len() + block_ids(n1).len() {
                        assert(then_new[j] == v);
                        lemma_then_side(ob, nb0, then_new, nb0 + 3, nb3, v);
                    }
                }
            }
        }
        if ob.contains(v) {
            let k = choose|k: int| 0 <= k < ob.len() && ob[k] == v;
            assert(final_ids[k] == v);
        }
        if nb0 <= v < nb4 {
            if v == nb0 + 2 {
                assert(final_ids[final_ids.len() - 1] == v);
            } else if v == nb0 || (nb0 + 3 <= v < nb3) {
                if v == nb0 {
                    assert(then_old[then_old.len() - 1] == v);
                    assert(then_old.to_set().contains(v));
                } else {
                    assert(set_int_range(nb0 + 3, nb3).contains(v));
                }
                assert(then_new.to_set().contains(v));
                assert(then_new.contains(v));
                let k = choose|k: int| 0 <= k < then_new.len() && then_new[k] == v;
                if k < ob.len() {
                    assert(final_ids[k] == v);
                } else if k < ob.len() + block_ids(n1).len() {
                    assert(final_ids[k] == v);
                } else {
                    assert(final_ids[final_ids.len() - 3] == v);
                }
            } else {
                if v == nb0 + 1 {
                    assert(else_old[else_old.len() - 1] == v);
                    assert(else_old.to_set().contains(v));
                } else {
                    assert(set_int_range(nb3, nb4).contains(v));
                }
                assert(else_new.to_set().contains(v));
                assert(else_new.contains(v));
                let k = choose|k: int| 0 <= k < else_new.len() && else_new[k] == v;
                if k < ob.len() + block_ids(n1).len() + block_ids(n2).len() {
                    assert(final_ids[k] == v);
                } else {
                    assert(final_ids[final_ids.len() - 2] == v);
                }
            }
        }
    }
    assert(final_ids.to_set() =~= ob.to_set().union(set_int_range(nb0, nb4)));
    assert(final_ids[0] == ob[0]) by {
        if ids_b.len() > 0 {
            assert(final_ids[0] == ids_b[0]);
        }
    }
    // targets
    assert forall|i: int| 0 <= i < ir5.blocks@.len() implies targets_below((#[trigger] ir5.blocks@[i]).terminator, nb4) by {
        if i < ir4.blocks@.len() {
            assert(ir5.blocks@[i] == ir4.blocks@[i]);
        }
    }
}

proof fn lemma_then_side(ob: Seq<int>, first: int, then_new: Seq<int>, lo: int, hi: int, v: int)
    requires
        then_new.to_set() == ob.push(first).to_set().union(set_int_range(lo, hi)),
        then_new.contains(v),
    ensures
        ob.contains(v) || v == first || lo <= v < hi,
{
    assert(then_new.to_set().contains(v));
    if ob.push(first).to_set().contains(v) {
        assert(ob.push(first).contains(v));
        let j = choose|j: int| 0 <= j < ob.push(first).len() && ob.push(first)[j] == v;
        if j < ob.len() {
            assert(ob[j] == v);
        }
    }
}

/// The license a unit compiles with: its own, or `"GPL"`.
pub open spec fn unit_license(l: Option<String>) -> Seq<char> {
    match l {
        Some(s) => s@,
        None => "GPL"@,
    }
}

fn clone_strings(v: &Vec<String>) -> (r: Vec<String>)
    ensures
        r@ == v@,
{
    let mut out: Vec<String> = Vec::new();
    let mut i: usize = 0;
    while i < v.len()
        invariant
            i <= v@.len(),
            out@ == v@.subrange(0, i as int),
        decreases v@.len() - i,
    {
        out.push(v[i].clone());
        i = i + 1;
    }
    assert(v@.subrange(0, v@.len() as int) == v@);
    out
}

impl UnitIr {
    /// Lowers a unit to IR. `events` gives each event's record size (later
    /// entries win); `event_decls` are searched in order for struct fields.
    pub fn lower(unit: &Unit, events: &Vec<(String, u32)>, event_decls: &Vec<EventDecl>) -> (r: Result<UnitIr, LoweringError>)
        requires
            decls_valid(event_decls@),
        ensures
            r matches Ok(ir) ==> {
                &&& ir.name == unit.name
                &&& ir.sections@ == unit.sections@
                &&& ir.license@ == unit_license(unit.license)
                &&& ir.program_type == unit.kind
                &&& numbering_ok(&ir)
            },
            match spec_lower_unit_body(unit.kind, sizes_view(events@), decl_fields(event_decls@), stmts_model(unit.body@)) {
                Ok(st) => r matches Ok(ir) && blocks_model(ir.blocks@) == st.done.push(st.cur)
                    && ir.next_var_id == st.next && ir.next_block_id == st.next_block,
                Err(m) => r matches Err(LoweringError::UnitLowering(x)) && x@ == m,
            },
    {
        let license = match &unit.license {
            Some(l) => l.clone(),
            None => {
                proof { reveal_strlit("GPL"); }
                String::from_str("GPL")
            },
        };
        let mut ir = UnitIr {
            name: unit.name.clone(),
            sections: clone_strings(&unit.sections),
            license,
            blocks: Vec::new(),
            next_var_id: 0,
            program_type: unit.kind,
            next_block_id: 0,
        };
        let mut ctx = LowerCtx { vars: Vec::new(), map_ptr_vars: Vec::new() };
        let entry_id = ir.alloc_block_id()?;
        let mut current_block = BasicBlock {
            id: entry_id,
            instructions: Vec::new(),
            terminator: Terminator::Return(Operand::Immediate(0)),
        };
        let ghost ir0 = ir;
        let ghost cb0 = current_block;
        proof {
            assert(names_view(ctx.vars@) == Seq::<(Seq<char>, VarId)>::empty());
            assert(blocks_model(ir.blocks@) == Seq::<BlockModel>::empty());
            assert(instrs_model(current_block.instructions@) == Seq::<InstrModel>::empty());
            assert(stmt_state(ctx, ir, current_block) == unit_start());
            assert(unit_env(ir, events@, event_decls@) == LowerEnv { vars: Seq::empty(), kind: unit.kind, events: sizes_view(events@), decls: decl_fields(event_decls@) });
        }
        lower_body(&unit.body, &mut ctx, &mut ir, &mut current_block, events, event_decls)?;
        let ghost ir1 = ir;
        ir.blocks.push(current_block);
        proof {
            lemma_blocks_model_push(ir1.blocks@, current_block);
            lemma_flat_push(ir1.blocks@, current_block);
            assert(all_instrs(ir0.blocks@, cb0) == Seq::<Instruction>::empty());
            assert(flat(ir.blocks@) == all_instrs(ir1.blocks@, current_block));
            assert(flat(ir.blocks@).subrange(0, 0) == Seq::<Instruction>::empty());
            assert(flat(ir.blocks@).subrange(0, flat(ir.blocks@).len() as int) == flat(ir.blocks@));
            assert(block_ids(ir.blocks@) == all_block_ids(ir1.blocks@, current_block));
            assert(all_block_ids(ir0.blocks@, cb0) == seq![0int]);
            assert(seq![0int].to_set().union(set_int_range(1, ir.next_block_id as int)) =~= set_int_range(0, ir.next_block_id as int)) by {
                assert forall|v: int| #![auto] seq![0int].to_set().contains(v) <==> v == 0 by {
                    if v == 0 {
                        assert(seq![0int][0] == v);
                    }
                }
            }
            assert forall|i: int| 0 <= i < ir.blocks@.len() implies targets_below((#[trigger] ir.blocks@[i]).terminator, ir.next_block_id as int) by {
                if i < ir1.blocks@.len() {
                    assert(ir.blocks@[i] == ir1.blocks@[i]);
                }
            }
            assert(ir.blocks@[0].id.0 == block_ids(ir.blocks@)[0]);
        }
        Ok(ir)
    }
}

fn vartype_to_type(vt: &VarType) -> (r: Result<Type, LoweringError>)
    ensures
        r == Ok::<Type, LoweringError>(Type::U64),
{
    match vt {
        VarType::Reg => Ok(Type::U64),
        VarType::Imm => Ok(Type::U64),
    }
}

fn compound_op(op: AssignmentOp) -> (r: BinaryOp)
    ensures
        r == compound_op_spec(op),
        op != AssignmentOp::Assign ==> forall|x: u64, y: u64| #[trigger] ir_value(r, x, y) == compound_value(op, x, y),
{
    match op {
        AssignmentOp::AddAssign => BinaryOp::Add,
        AssignmentOp::SubAssign => BinaryOp::Sub,
        AssignmentOp::MulAssign => BinaryOp::Mul,
        AssignmentOp::DivAssign => BinaryOp::Div,
        _ => BinaryOp::Mod,
    }
}

/// Lowers a sequence of statements into the open block, in order.
fn lower_body(
    stmts: &Vec<Stmt>,
    ctx: &mut LowerCtx,
    ir: &mut UnitIr,
    block: &mut BasicBlock,
    events: &Vec<(String, u32)>,
    event_decls: &Vec<EventDecl>,
) -> (r: Result<(), LoweringError>)
    requires
        stmt_pre(*old(ir), *old(block), *old(ctx)),
        decls_valid(event_decls@),
    ensures
        r is Ok ==> stmt_post(*old(ir), *final(ir), *old(block), *final(block), *final(ctx)),
        stmt_as(spec_lower_body(unit_env(*old(ir), events@, event_decls@), stmts_model(stmts@), stmt_state(*old(ctx), *old(ir), *old(block))),
            r, stmt_state(*final(ctx), *final(ir), *final(block))),
    decreases stmts,
{
    proof { lemma_stmt_refl(*ir, *block, *ctx); }
    let ghost ir0 = *ir;
    let ghost b0 = *block;
    let ghost env = unit_env(*ir, events@, event_decls@);
    let ghost st0 = stmt_state(*ctx, *ir, *block);
    let mut i: usize = 0;
    assert(stmts@.subrange(0, 0) == Seq::<Stmt>::empty());
    while i < stmts.len()
        invariant
            i <= stmts@.len(),
            decls_valid(event_decls@),
            stmt_post(ir0, *ir, b0, *block, *ctx),
            env == unit_env(*ir, events@, event_decls@),
            env == unit_env(*old(ir), events@, event_decls@),
            st0 == stmt_state(*old(ctx), *old(ir), *old(block)),
            spec_lower_body(env, stmts_model(stmts@.subrange(0, i as int)), st0) == Ok::<StmtState, Seq<char>>(stmt_state(*ctx, *ir, *block)),
        decreases stmts@.len() - i,
    {
        let ghost ir1 = *ir;
        let ghost b1 = *block;
        let ghost c1 = *ctx;
        proof {
            let pre = stmts@.subrange(0, i as int);
            assert(stmts@.subrange(0, i + 1) == pre.push(stmts@[i as int]));
            lemma_stmts_model_push(pre, stmts@[i as int]);
            let m = stmts_model(pre).push(stmt_model(stmts@[i as int]));
            assert(m.subrange(0, m.len() - 1) == stmts_model(pre));
            assert(m[m.len() - 1] == stmt_model(stmts@[i as int]));
        }
        assert(decreases_to!(stmts => stmts@[i as int]));
        let sr = lower_statement(&stmts[i], ctx, ir, block, events, event_decls);
        match sr {
            Err(e) => {
                proof {
                    lemma_stmts_model_index(stmts@);
                    lemma_stmts_model_prefix(stmts@, i as int);
                    lemma_stmts_model_prefix(stmts@, i + 1);
                    let full = stmts_model(stmts@);
                    let pre = full.subrange(0, i + 1);
                    assert(pre.subrange(0, pre.len() - 1) == full.subrange(0, i as int));
                    assert(pre[pre.len() - 1] == stmt_model(stmts@[i as int]));
                    assert(spec_lower_body(env, pre, st0) == spec_lower_stmt(env, stmt_model(stmts@[i as int]), stmt_state(c1, ir1, b1)));
                    lemma_body_err_extends(env, full, i + 1, st0);
                }
                return Err(e);
            },
            Ok(()) => {},
        }
        proof { lemma_stmt_post_trans(ir0, ir1, *ir, b0, b1, *block, c1, *ctx); }
        i = i + 1;
    }
    assert(stmts@.subrange(0, stmts@.len() as int) == stmts@);
    Ok(())
}

/// Lowers `heap name = map.lookup(key);` or `heap name = map.reserve(Event);`.
fn lower_heap_decl(
    heap_decl: &HeapVarDecl,
    ctx: &mut LowerCtx,
    ir: &mut UnitIr,
    block: &mut BasicBlock,
    events: &Vec<(String, u32)>,
    event_decls: &Vec<EventDecl>,
) -> (r: Result<(), LoweringError>)
    requires
        stmt_pre(*old(ir), *old(block), *old(ctx)),
        decls_valid(event_decls@),
    ensures
        r is Ok ==> stmt_post(*old(ir), *final(ir), *old(block), *final(block), *final(ctx)),
        stmt_as(spec_lower_heap_decl(unit_env(*old(ir), events@, event_decls@), heap_decl.name@, expr_model(heap_decl.init),
            stmt_state(*old(ctx), *old(ir), *old(block))), r, stmt_state(*final(ctx), *final(ir), *final(block))),
{
    let ghost ir0 = *ir;
    let ghost b0 = *block;
    let ghost c0 = *ctx;
    proof {
        let im = expr_model(heap_decl.init);
        assert(im is MethodCall <==> heap_decl.init.kind is MethodCall);
    }
    let call = match &heap_decl.init.kind {
        ExprKind::MethodCall(call) => call,
        _ => {
            return Err(unit_err(String::from_str("heap var must be initialized with map.lookup or map.reserve")));
        },
    };
    proof {
        lemma_exprs_model_index(call.arg@);
        let rm = expr_model(*call.receiver);
        assert(rm is Variable <==> call.receiver.kind is Variable);
    }
    let receiver_name = match &call.receiver.kind {
        ExprKind::Variable(name) => name.clone(),
        _ => {
            return Err(unit_err(String::from_str("heap initializer receiver must be identifier")));
        },
    };
    if str_eq(call.method.as_str(), "lookup") {
        if call.arg.len() != 1 {
            return Err(unit_err(concat2(receiver_name.as_str(), ".lookup expects 1 argument")));
        }
        let kr = lower_expr(&call.arg[0], ctx, ir, block, events, event_decls);
        proof { lemma_lower_in(events@, event_decls@, expr_model(call.arg@[0]), c0, ir0, b0, *ctx, *ir, *block, kr); }
        let key = kr?;
        let ghost ir1 = *ir;
        let ghost b1 = *block;
        let ghost c1 = *ctx;
        let ops = vec![key];
        assert(ops@ == seq![key]);
        let er = emit(ir, block, Opcode::CallMap { map_name: receiver_name.clone() }, ops, Type::U64, Ghost(ctx.map_ptr_vars@));
        proof { lemma_emit_in(c1, ir1, b1, *ir, *block, OpModel::CallMap(receiver_name@), seq![key], er); }
        let result = er?;
        ctx.vars.push((heap_decl.name.clone(), result));
        ctx.map_ptr_vars.push(result);
        proof {
            lemma_names_view_push(c1.vars@, heap_decl.name, result);
            lemma_expr_post_trans(ir0, ir1, *ir, b0, b1, *block, *ctx);
            lemma_expr_to_stmt(ir0, *ir, b0, *block, *ctx);
        }
        Ok(())
    } else if str_eq(call.method.as_str(), "reserve") {
        if call.arg.len() != 1 {
            return Err(unit_err(concat2(receiver_name.as_str(), ".reserve expects event type name")));
        }
        proof {
            let am = expr_model(call.arg@[0]);
            assert(am is Variable <==> call.arg@[0].kind is Variable);
        }
        let event_name = match &call.arg[0].kind {
            ExprKind::Variable(name) => name.clone(),
            _ => {
                return Err(unit_err(String::from_str("reserve requires event type name")));
            },
        };
        let size = match lookup_event_size(events, event_name.as_str()) {
            Some(sz) => sz,
            None => {
                return Err(unit_err(concat2("Unknown event type: ", event_name.as_str())));
            },
        };
        let er = emit(ir, block, Opcode::RingBufReserve { map_name: receiver_name.clone(), size }, Vec::new(), Type::U64, Ghost(ctx.map_ptr_vars@));
        proof { lemma_emit_in(c0, ir0, b0, *ir, *block, OpModel::RingBufReserve(receiver_name@, size), Seq::empty(), er); }
        let result = er?;
        ctx.vars.push((heap_decl.name.clone(), result));
        ctx.map_ptr_vars.push(result);
        proof {
            lemma_names_view_push(c0.vars@, heap_decl.name, result);
            lemma_expr_to_stmt(ir0, *ir, b0, *block, *ctx);
        }
        Ok(())
    } else {
        Err(unit_err(String::from_str("heap var must be initialized with map.lookup or map.reserve")))
    }
}

/// Lowers `target op value;`: a store through a pointer, a rebinding of a
/// name, or a store to an event field.
#[verifier::spinoff_prover]
#[verifier::rlimit(40)]
fn lower_assignment(
    assign: &Assignment,
    ctx: &mut LowerCtx,
    ir: &mut UnitIr,
    block: &mut BasicBlock,
    events: &Vec<(String, u32)>,
    event_decls: &Vec<EventDecl>,
) -> (r: Result<(), LoweringError>)
    requires
        stmt_pre(*old(ir), *old(block), *old(ctx)),
        decls_valid(event_decls@),
    ensures
        r is Ok ==> stmt_post(*old(ir), *final(ir), *old(block), *final(block), *final(ctx)),
        stmt_as(spec_lower_assignment(unit_env(*old(ir), events@, event_decls@), expr_model(*assign.target), assign.op,
            expr_model(*assign.value), stmt_state(*old(ctx), *old(ir), *old(block))), r, stmt_state(*final(ctx), *final(ir), *final(block))),
{
    let ghost ir0 = *ir;
    let ghost b0 = *block;
    let ghost c0 = *ctx;
    let vr = lower_expr(&assign.value, ctx, ir, block, events, event_decls);
    proof { lemma_lower_in(events@, event_decls@, expr_model(*assign.value), c0, ir0, b0, *ctx, *ir, *block, vr); }
    let value = vr?;
    let ghost ir1 = *ir;
    let ghost b1 = *block;
    let ghost c1 = *ctx;
    proof {
        let tm = expr_model(*assign.target);
        assert(tm is Dereference <==> assign.target.kind is Dereference);
        assert(tm is Variable <==> assign.target.kind is Variable);
        assert(tm is FieldAccess <==> assign.target.kind is FieldAccess);
    }
    match &assign.target.kind {
        ExprKind::Dereference(ptr_expr) => {
            let pr = lower_expr(ptr_expr, ctx, ir, block, events, event_decls);
            proof { lemma_lower_in(events@, event_decls@, expr_model(**ptr_expr), c1, ir1, b1, *ctx, *ir, *block, pr); }
            let ptr = pr?;
            proof { lemma_expr_post_trans(ir0, ir1, *ir, b0, b1, *block, *ctx); }
            let needs_null_check = match ptr {
                Operand::Var(v) => ctx.is_map_ptr(v),
                _ => false,
            };
            if needs_null_check {
                let ghost ir2 = *ir;
                let ghost b2 = *block;
                let ops = vec![ptr];
                assert(ops@ == seq![ptr]);
                let cr = emit(ir, block, Opcode::NullCheck, ops, Type::U64, Ghost(ctx.map_ptr_vars@));
                proof { lemma_emit_in(*ctx, ir2, b2, *ir, *block, OpModel::NullCheck, seq![ptr], cr); }
                let _check = cr?;
                proof { lemma_expr_post_trans(ir0, ir2, *ir, b0, b2, *block, *ctx); }
            }
            let ghost s2 = stmt_state(*ctx, *ir, *block);
            let final_value = match assign.op {
                AssignmentOp::Assign => value,
                _ => {
                    let ghost ir3 = *ir;
                    let ghost b3 = *block;
                    let ops = vec![ptr];
                    assert(ops@ == seq![ptr]);
                    let lr = emit(ir, block, Opcode::LoadKey, ops, Type::U64, Ghost(ctx.map_ptr_vars@));
                    proof { lemma_emit_in(*ctx, ir3, b3, *ir, *block, OpModel::LoadKey, seq![ptr], lr); }
                    let load_result = lr?;
                    proof { lemma_expr_post_trans(ir0, ir3, *ir, b0, b3, *block, *ctx); }
                    let ghost ir4 = *ir;
                    let ghost b4 = *block;
                    let op = compound_op(assign.op);
                    let ops2 = vec![Operand::Var(load_result), value];
                    assert(ops2@ == seq![Operand::Var(load_result), value]);
                    let kr = emit(ir, block, Opcode::Binary { op }, ops2, Type::U64, Ghost(ctx.map_ptr_vars@));
                    proof { lemma_emit_in(*ctx, ir4, b4, *ir, *block, OpModel::Binary(op), seq![Operand::Var(load_result), value], kr); }
                    let calc = kr?;
                    proof { lemma_expr_post_trans(ir0, ir4, *ir, b0, b4, *block, *ctx); }
                    Operand::Var(calc)
                },
            };
            let ghost ir5 = *ir;
            let ghost b5 = *block;
            let ops = vec![ptr, final_value];
            assert(ops@ == seq![ptr, final_value]);
            let sr = emit(ir, block, Opcode::Store { size: 8 }, ops, Type::U64, Ghost(ctx.map_ptr_vars@));
            proof { lemma_emit_in(*ctx, ir5, b5, *ir, *block, OpModel::Store(8), seq![ptr, final_value], sr); }
            let _store = sr?;
            proof {
                lemma_expr_post_trans(ir0, ir5, *ir, b0, b5, *block, *ctx);
                lemma_expr_to_stmt(ir0, *ir, b0, *block, *ctx);
            }
            Ok(())
        },
        ExprKind::Variable(var_name) => {
            let old_id = match ctx.get_var(var_name.as_str()) {
                Some(v) => v,
                None => {
                    return Err(unit_err(concat2("Undefined variable: ", var_name.as_str())));
                },
            };
            let nr = match assign.op {
                AssignmentOp::Assign => {
                    let ops = vec![value, Operand::Immediate(0)];
                    assert(ops@ == seq![value, Operand::Immediate(0)]);
                    let er = emit(ir, block, Opcode::Binary { op: BinaryOp::Add }, ops, Type::U64, Ghost(ctx.map_ptr_vars@));
                    proof { lemma_emit_in(c1, ir1, b1, *ir, *block, OpModel::Binary(BinaryOp::Add), seq![value, Operand::Immediate(0)], er); }
                    er
                },
                _ => {
                    let op = compound_op(assign.op);
                    let ops = vec![Operand::Var(old_id), value];
                    assert(ops@ == seq![Operand::Var(old_id), value]);
                    let er = emit(ir, block, Opcode::Binary { op }, ops, Type::U64, Ghost(ctx.map_ptr_vars@));
                    proof { lemma_emit_in(c1, ir1, b1, *ir, *block, OpModel::Binary(op), seq![Operand::Var(old_id), value], er); }
                    er
                },
            };
            let new_id = nr?;
            ctx.vars.push((var_name.clone(), new_id));
            proof {
                lemma_names_view_push(c1.vars@, *var_name, new_id);
                lemma_expr_post_trans(ir0, ir1, *ir, b0, b1, *block, *ctx);
                lemma_expr_to_stmt(ir0, *ir, b0, *block, *ctx);
            }
            Ok(())
        },
        ExprKind::FieldAccess { base, field } => {
            let br = lower_expr(base, ctx, ir, block, events, event_decls);
            proof { lemma_lower_in(events@, event_decls@, expr_model(**base), c1, ir1, b1, *ctx, *ir, *block, br); }
            let base_operand = br?;
            proof { lemma_expr_post_trans(ir0, ir1, *ir, b0, b1, *block, *ctx); }
            let base_var = match base_operand {
                Operand::Var(v) => v,
                _ => {
                    return Err(unit_err(String::from_str("Field access requires a pointer variable")));
                },
            };
            let (field_offset, field_size) = find_field_offset_size(event_decls, field.as_str());
            let offset = match field_offset {
                Some(off) => off,
                None => {
                    return Err(unit_err(concat2("Unknown field: ", field.as_str())));
                },
            };
            let size = match field_size {
                Some(sz) => sz,
                None => {
                    return Err(unit_err(concat2("Unknown field size: ", field.as_str())));
                },
            };
            let ghost ir2 = *ir;
            let ghost b2 = *block;
            let field_ptr_var = if offset == 0 {
                base_var
            } else {
                let ops = vec![Operand::Var(base_var), Operand::Immediate(offset as i64)];
                assert(ops@ == seq![Operand::Var(base_var), Operand::Immediate(offset as i64)]);
                let pr = emit(ir, block, Opcode::Binary { op: BinaryOp::Add }, ops, Type::U64, Ghost(ctx.map_ptr_vars@));
                proof { lemma_emit_in(*ctx, ir2, b2, *ir, *block, OpModel::Binary(BinaryOp::Add), seq![Operand::Var(base_var), Operand::Immediate(offset as i64)], pr); }
                let p = pr?;
                proof { lemma_expr_post_trans(ir0, ir2, *ir, b0, b2, *block, *ctx); }
                p
            };
            match assign.op {
                AssignmentOp::Assign => {},
                _ => {
                    return Err(unit_err(String::from_str("Compound assignment operators not supported on struct fields")));
                },
            }
            let ghost ir3 = *ir;
            let ghost b3 = *block;
            let width: u8 = #[verifier::truncate] (size as u8);
            let ops = vec![Operand::Var(field_ptr_var), value];
            assert(ops@ == seq![Operand::Var(field_ptr_var), value]);
            let sr = emit(ir, block, Opcode::Store { size: width }, ops, Type::U64, Ghost(ctx.map_ptr_vars@));
            proof { lemma_emit_in(*ctx, ir3, b3, *ir, *block, OpModel::Store(width), seq![Operand::Var(field_ptr_var), value], sr); }
            let _store = sr?;
            proof {
                lemma_expr_post_trans(ir0, ir3, *ir, b0, b3, *block, *ctx);
                lemma_expr_to_stmt(ir0, *ir, b0, *block, *ctx);
            }
            Ok(())
        },
        _ => Err(unit_err(String::from_str("Invalid assignment target"))),
    }
}

/// Lowers one statement; an `if guard` closes the open block and opens a new one.
fn lower_statement(
    stmt: &Stmt,
    ctx: &mut LowerCtx,
    ir: &mut UnitIr,
    block: &mut BasicBlock,
    events: &Vec<(String, u32)>,
    event_decls: &Vec<EventDecl>,
) -> (r: Result<(), LoweringError>)
    requires
        stmt_pre(*old(ir), *old(block), *old(ctx)),
        decls_valid(event_decls@),
    ensures
        r is Ok ==> stmt_post(*old(ir), *final(ir), *old(block), *final(block), *final(ctx)),
        stmt_as(spec_lower_stmt(unit_env(*old(ir), events@, event_decls@), stmt_model(*stmt), stmt_state(*old(ctx), *old(ir), *old(block))),
            r, stmt_state(*final(ctx), *final(ir), *final(block))),
    decreases stmt,
{
    let ghost ir0 = *ir;
    let ghost b0 = *block;
    let ghost c0 = *ctx;
    match &stmt.kind {
        StmtKind::VarDecl(var_decl) => {
            let ty = vartype_to_type(&var_decl.var_type)?;
            let var_id = ir.alloc_var(ty)?;
            let ghost ir1 = *ir;
            let ghost b1 = *block;
            proof { lemma_ctx_grow(*ctx, ir0.next_var_id, ir1.next_var_id); }
            let vr = lower_expr(&var_decl.value, ctx, ir, block, events, event_decls);
            proof { lemma_lower_in(events@, event_decls@, expr_model(*var_decl.value), c0, ir1, b1, *ctx, *ir, *block, vr); }
            let value = vr?;
            let ghost c2 = *ctx;
            ctx.vars.push((var_decl.name.clone(), var_id));
            let ghost before = block.instructions@;
            let ops = vec![value, Operand::Immediate(0)];
            assert(ops@ == seq![value, Operand::Immediate(0)]);
            block.instructions.push(Instruction {
                result: var_id,
                opcode: Opcode::Binary { op: BinaryOp::Add },
                operands: ops,
                result_type: ty,
            });
            proof {
                lemma_grew_push_first(b1.instructions@, before, block.instructions@.last(), ir0.next_var_id as int, ir.next_var_id as int);
                assert(block.instructions@ == before.push(block.instructions@.last()));
                lemma_instrs_model_push(before, block.instructions@.last());
                lemma_names_view_push(c2.vars@, var_decl.name, var_id);
                lemma_expr_to_stmt(ir0, *ir, b0, *block, *ctx);
            }
            Ok(())
        },
        StmtKind::Return(expr) => {
            let er = lower_expr(expr, ctx, ir, block, events, event_decls);
            proof { lemma_lower_in(events@, event_decls@, expr_model(**expr), c0, ir0, b0, *ctx, *ir, *block, er); }
            let ret_value = er?;
            proof { lemma_expr_to_stmt(ir0, *ir, b0, *block, *ctx); }
            let ghost b1 = *block;
            block.terminator = Terminator::Return(ret_value);
            proof {
                assert(all_instrs(ir.blocks@, *block) == all_instrs(ir.blocks@, b1));
                assert(all_block_ids(ir.blocks@, *block) == all_block_ids(ir.blocks@, b1));
            }
            Ok(())
        },
        StmtKind::ExprStmt(expr) => {
            let er = lower_expr(expr, ctx, ir, block, events, event_decls);
            proof { lemma_lower_in(events@, event_decls@, expr_model(**expr), c0, ir0, b0, *ctx, *ir, *block, er); }
            let _ = er?;
            proof { lemma_expr_to_stmt(ir0, *ir, b0, *block, *ctx); }
            Ok(())
        },
        StmtKind::HeapVarDecl(heap_decl) => lower_heap_decl(heap_decl, ctx, ir, block, events, event_decls),
        StmtKind::Assignment(assign) => lower_assignment(assign, ctx, ir, block, events, event_decls),
        StmtKind::IfGuard(if_guard) => {
            let ghost env = unit_env(ir0, events@, event_decls@);
            proof {
                let cm = expr_model(if_guard.condition);
                assert(cm is Variable <==> if_guard.condition.kind is Variable);
            }
            let guard_var = match &if_guard.condition.kind {
                ExprKind::Variable(name) => match ctx.get_var(name.as_str()) {
                    Some(v) => v,
                    None => {
                        return Err(unit_err(concat2("Undefined variable in guard: ", name.as_str())));
                    },
                },
                _ => {
                    return Err(unit_err(String::from_str("Guard must be a variable")));
                },
            };
            let ops = vec![Operand::Var(guard_var)];
            assert(ops@ == seq![Operand::Var(guard_var)]);
            let cr = emit(ir, block, Opcode::NullCheck, ops, Type::U64, Ghost(ctx.map_ptr_vars@));
            proof { lemma_emit_in(c0, ir0, b0, *ir, *block, OpModel::NullCheck, seq![Operand::Var(guard_var)], cr); }
            let cond = cr?;
            let ghost ir1 = *ir;
            let ghost b1 = *block;
            let ghost s1 = stmt_state(*ctx, *ir, *block);
            let then_id = ir.alloc_block_id()?;
            let ghost s2 = stmt_state(*ctx, *ir, *block);
            assert(alloc_block_spec(s1) == Ok::<(BlockId, StmtState), Seq<char>>((then_id, s2)));
            let else_id = ir.alloc_block_id()?;
            let ghost s3 = stmt_state(*ctx, *ir, *block);
            assert(alloc_block_spec(s2) == Ok::<(BlockId, StmtState), Seq<char>>((else_id, s3)));
            let merge_id = ir.alloc_block_id()?;
            let ghost s4 = stmt_state(*ctx, *ir, *block);
            assert(alloc_block_spec(s3) == Ok::<(BlockId, StmtState), Seq<char>>((merge_id, s4)));
            let ghost ir_a = *ir;
            let cont = match &block.terminator {
                Terminator::Jump(m) => Terminator::Jump(*m),
                _ => Terminator::Return(Operand::Immediate(0)),
            };
            assert(cont == continuation(b0.terminator));
            block.terminator = Terminator::Branch { condition: Operand::Var(cond), true_block: then_id, false_block: else_id };
            let mut finished = BasicBlock {
                id: merge_id,
                instructions: Vec::new(),
                terminator: cont,
            };
            std::mem::swap(block, &mut finished);
            let ghost fin = finished;
            ir.blocks.push(finished);
            let ghost ir2 = *ir;

            let mut tb = BasicBlock { id: then_id, instructions: Vec::new(), terminator: Terminator::Jump(merge_id) };
            let ghost tb0 = tb;
            let ghost s5 = StmtState {
                done: s4.done.push(BlockModel {
                    term: Terminator::Branch { condition: Operand::Var(cond), true_block: then_id, false_block: else_id },
                    ..s4.cur
                }),
                cur: BlockModel { id: then_id, instrs: Seq::empty(), term: Terminator::Jump(merge_id) },
                ..s4
            };
            proof {
                lemma_blocks_model_push(ir_a.blocks@, fin);
                assert(instrs_model(tb0.instructions@) == Seq::<InstrModel>::empty());
                assert(stmt_state(*ctx, *ir, tb0) == s5);
            }
            let tr = lower_body(&if_guard.then_body, ctx, ir, &mut tb, events, event_decls);
            match tr {
                Err(e) => {
                    return Err(e);
                },
                Ok(()) => {},
            }
            let ghost tb_l = tb;
            let ghost s6 = stmt_state(*ctx, *ir, tb);
            match tb.terminator {
                Terminator::Return(_) | Terminator::Branch { .. } => {},
                _ => {
                    tb.terminator = Terminator::Jump(merge_id);
                },
            }
            let ghost tb_f = tb;
            assert(block_model(tb_f) == seal(s6.cur, merge_id));
            let ghost ir3 = *ir;
            let ghost c3 = *ctx;

            let mut eb = BasicBlock { id: else_id, instructions: Vec::new(), terminator: Terminator::Jump(merge_id) };
            let ghost eb0 = eb;
            let ghost s7 = StmtState { cur: BlockModel { id: else_id, instrs: Seq::empty(), term: Terminator::Jump(merge_id) }, ..s6 };
            proof {
                assert(instrs_model(eb0.instructions@) == Seq::<InstrModel>::empty());
                assert(stmt_state(*ctx, *ir, eb0) == s7);
            }
            match &if_guard.else_body {
                Some(else_body) => {
                    let er = lower_body(else_body, ctx, ir, &mut eb, events, event_decls);
                    match er {
                        Err(e) => {
                            return Err(e);
                        },
                        Ok(()) => {},
                    }
                },
                None => {
                    proof { lemma_stmt_refl(*ir, eb, *ctx); }
                },
            }
            let ghost eb_l = eb;
            let ghost s8 = stmt_state(*ctx, *ir, eb);
            match eb.terminator {
                Terminator::Return(_) | Terminator::Branch { .. } => {},
                _ => {
                    eb.terminator = Terminator::Jump(merge_id);
                },
            }
            let ghost eb_f = eb;
            assert(block_model(eb_f) == seal(s8.cur, merge_id));
            let ghost ir4 = *ir;
            ir.blocks.push(tb);
            let ghost ir5 = *ir;
            ir.blocks.push(eb);
            proof {
                lemma_if_guard_post(ir0, b0, ir1, b1, fin, ir2, *block, tb0, ir3, tb_l, tb_f, c3, eb0, ir4, eb_l, eb_f, *ctx, *ir);
                lemma_blocks_model_push(ir4.blocks@, tb_f);
                lemma_blocks_model_push(ir5.blocks@, eb_f);
                assert(instrs_model(block.instructions@) == Seq::<InstrModel>::empty());
                assert(stmt_state(*ctx, *ir, *block) == StmtState {
                    done: s8.done.push(seal(s6.cur, merge_id)).push(seal(s8.cur, merge_id)),
                    cur: BlockModel { id: merge_id, instrs: Seq::empty(), term: continuation(b0.terminator) },
                    ..s8
                });
            }
            Ok(())
        },
    }
}

} // verus!
