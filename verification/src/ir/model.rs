//! Lowering as a function on values: instructions with names as character
//! sequences and operand lists as sequences, and the instructions each
//! expression form appends.
use vstd::prelude::*;
use crate::ir::semantics::{compound_value, ir_value, source_value};
use crate::ast::event::{EventDecl, EventField};
use crate::ast::map::Type;
use crate::ast::model::{ExprModel, StmtModel};
use crate::ast::unit::{allowed_methods, program_kind_debug_name, AssignmentOp, BinOp, ProgramKind};
use crate::ir::ctx::{ctx_method_debug_name, ctx_method_named, CtxMethod};
use crate::ir::instruction::{BinaryOp, Instruction, Opcode, Operand, VarId};
use crate::ir::unit::{event_size_named, helper_id, lookup_var, BasicBlock, BlockId, Terminator};
use crate::sema::event::{field_offset_at, field_size_align, first_field_named};
use crate::text::decimal;

verus! {

/// What an instruction does, with map names as character sequences.
pub enum OpModel {
    HelperCall(u32),
    LoadKey,
    Store(u8),
    LoadCtx(i32, u8),
    LoadPacket(i32, u8),
    CopyCtxToMem(i32, u32),
    NullCheck,
    Binary(BinaryOp),
    CallMap(Seq<char>),
    UpdateMap(Seq<char>),
    RingBufReserve(Seq<char>, u32),
    RingBufSubmit(Seq<char>),
}

/// An instruction as a value.
pub struct InstrModel {
    pub result: VarId,
    pub opcode: OpModel,
    pub operands: Seq<Operand>,
    pub result_type: Type,
}

/// The model of an opcode.
pub open spec fn op_model(o: Opcode) -> OpModel {
    match o {
        Opcode::HelperCall { id } => OpModel::HelperCall(id),
        Opcode::LoadKey => OpModel::LoadKey,
        Opcode::Store { size } => OpModel::Store(size),
        Opcode::LoadCtx { offset, size } => OpModel::LoadCtx(offset, size),
        Opcode::LoadPacket { offset, size } => OpModel::LoadPacket(offset, size),
        Opcode::CopyCtxToMem { offset, size } => OpModel::CopyCtxToMem(offset, size),
        Opcode::NullCheck => OpModel::NullCheck,
        Opcode::Binary { op } => OpModel::Binary(op),
        Opcode::CallMap { map_name } => OpModel::CallMap(map_name@),
        Opcode::UpdateMap { map_name } => OpModel::UpdateMap(map_name@),
        Opcode::RingBufReserve { map_name, size } => OpModel::RingBufReserve(map_name@, size),
        Opcode::RingBufSubmit { map_name } => OpModel::RingBufSubmit(map_name@),
    }
}

/// The model of an instruction.
pub open spec fn instr_model(i: Instruction) -> InstrModel {
    InstrModel { result: i.result, opcode: op_model(i.opcode), operands: i.operands@, result_type: i.result_type }
}

/// The models of a sequence of instructions.
pub open spec fn instrs_model(s: Seq<Instruction>) -> Seq<InstrModel> {
    s.map_values(|i: Instruction| instr_model(i))
}

/// Appending an instruction appends its model.
pub proof fn lemma_instrs_model_push(s: Seq<Instruction>, i: Instruction)
    ensures
        instrs_model(s.push(i)) == instrs_model(s).push(instr_model(i)),
{
    assert(instrs_model(s.push(i)) =~= instrs_model(s).push(instr_model(i)));
}

/// What expression lowering reads: the names in scope (latest binding
/// last), the unit's program kind, the event sizes and declarations.
pub struct LowerEnv {
    pub vars: Seq<(Seq<char>, VarId)>,
    pub kind: ProgramKind,
    pub events: Seq<(Seq<char>, u32)>,
    pub decls: Seq<(Seq<char>, Seq<EventField>)>,
}

/// Event sizes by name, the names taken as text.
pub open spec fn sizes_view(e: Seq<(String, u32)>) -> Seq<(Seq<char>, u32)> {
    e.map_values(|x: (String, u32)| (x.0@, x.1))
}

/// The name and fields of each event declaration.
pub open spec fn decl_fields(d: Seq<EventDecl>) -> Seq<(Seq<char>, Seq<EventField>)> {
    d.map_values(|x: EventDecl| (x.name@, x.fields@))
}

/// Some declaration of `decls` is named `name`.
pub open spec fn declares(decls: Seq<(Seq<char>, Seq<EventField>)>, name: Seq<char>) -> bool {
    exists|j: int| 0 <= j < decls.len() && (#[trigger] decls[j]).0 == name
}

/// What expression lowering changes: the variables known to hold map
/// pointers, the next variable number, and the open block's instructions.
pub struct ExprState {
    pub map_ptrs: Seq<VarId>,
    pub next: u32,
    pub instrs: Seq<InstrModel>,
}

/// What lowering something gives: a value and the new state, or the message
/// of the failure.
pub type Lowered<T, S> = Result<(T, S), Seq<char>>;

/// Allocating a variable and appending the instruction that defines it.
pub open spec fn emit_spec(st: ExprState, opcode: OpModel, operands: Seq<Operand>, ty: Type) -> Lowered<VarId, ExprState> {
    if st.next == u32::MAX {
        Err("IR variable limit reached"@)
    } else {
        let v = VarId(st.next);
        Ok((v, ExprState {
            next: (st.next + 1) as u32,
            instrs: st.instrs.push(InstrModel { result: v, opcode, operands, result_type: ty }),
            ..st
        }))
    }
}

/// As `emit_spec`, the variable also recorded as a map pointer.
pub open spec fn emit_ptr_spec(st: ExprState, opcode: OpModel, operands: Seq<Operand>) -> Lowered<Operand, ExprState> {
    match emit_spec(st, opcode, operands, Type::U64) {
        Ok((v, s)) => Ok((Operand::Var(v), ExprState { map_ptrs: s.map_ptrs.push(v), ..s })),
        Err(m) => Err(m),
    }
}

/// As `emit_spec`, giving the variable as an operand.
pub open spec fn emit_var_spec(st: ExprState, opcode: OpModel, operands: Seq<Operand>, ty: Type) -> Lowered<Operand, ExprState> {
    match emit_spec(st, opcode, operands, ty) {
        Ok((v, s)) => Ok((Operand::Var(v), s)),
        Err(m) => Err(m),
    }
}

/// The offset of `field` in the first event, in declaration order, that
/// has a field of that name. A declaration that a later one of the same
/// name replaces is not searched.
pub open spec fn field_offset_in(decls: Seq<(Seq<char>, Seq<EventField>)>, field: Seq<char>) -> Option<u32>
    decreases decls.len(),
{
    if decls.len() == 0 {
        None
    } else if declares(decls.drop_first(), decls[0].0) {
        field_offset_in(decls.drop_first(), field)
    } else {
        match first_field_named(decls[0].1, field) {
            Some(i) => Some(field_offset_at(decls[0].1, i)),
            None => field_offset_in(decls.drop_first(), field),
        }
    }
}

/// The offset and size of `field` in the first event, in declaration order,
/// that has a field of that name; as in `field_offset_in`, replaced
/// declarations are not searched.
pub open spec fn field_slot_in(decls: Seq<(Seq<char>, Seq<EventField>)>, field: Seq<char>) -> Option<(u32, u32)>
    decreases decls.len(),
{
    if decls.len() == 0 {
        None
    } else if declares(decls.drop_first(), decls[0].0) {
        field_slot_in(decls.drop_first(), field)
    } else {
        match first_field_named(decls[0].1, field) {
            Some(i) => Some((field_offset_at(decls[0].1, i), field_size_align(decls[0].1[i]).0)),
            None => field_slot_in(decls.drop_first(), field),
        }
    }
}

/// The IR operator of a source operator.
pub open spec fn bin_op_spec(op: BinOp) -> BinaryOp {
    match op {
        BinOp::Add => BinaryOp::Add,
        BinOp::Sub => BinaryOp::Sub,
        BinOp::Mul => BinaryOp::Mul,
        BinOp::Div => BinaryOp::Div,
        BinOp::Mod => BinaryOp::Mod,
        BinOp::Shl => BinaryOp::Shl,
        BinOp::Shr => BinaryOp::Shr,
    }
}

/// The access width and result type of a context load.
pub open spec fn load_shape(m: CtxMethod) -> (u8, Type) {
    match m {
        CtxMethod::LoadU8 => (1, Type::U32),
        CtxMethod::LoadU16 => (2, Type::U32),
        CtxMethod::LoadU32 => (4, Type::U32),
        CtxMethod::LoadU64 => (8, Type::U64),
        CtxMethod::LoadI8 => (1, Type::I32),
        CtxMethod::LoadI16 => (2, Type::I32),
        CtxMethod::LoadI32 => (4, Type::I32),
        _ => (8, Type::I64),
    }
}

/// A fixed-width context load reads the number of bits its source name
/// gives (`load_u<bits>` or `load_i<bits>`), into a signed value exactly
/// when the name says `i`, and into a 64-bit value exactly when it reads
/// 64 bits.
pub proof fn lemma_ctx_load_reads_its_width(name: Seq<char>)
    requires
        ctx_method_named(name) matches Some(m) && is_ctx_load(m),
    ensures
        ({
            let (bytes, ty) = load_shape(ctx_method_named(name)->0);
            &&& name.len() >= 7
            &&& name.subrange(0, 5) == "load_"@
            &&& name.subrange(6, name.len() as int) == decimal(bytes as nat * 8)
            &&& (ty == Type::I32 || ty == Type::I64) <==> name[5] == 'i'
            &&& (ty == Type::U64 || ty == Type::I64) <==> bytes == 8
        }),
{
    reveal_strlit("load_");
    reveal_strlit("load_u8");
    reveal_strlit("load_u16");
    reveal_strlit("load_u32");
    reveal_strlit("load_u64");
    reveal_strlit("load_i8");
    reveal_strlit("load_i16");
    reveal_strlit("load_i32");
    reveal_strlit("load_i64");
    reveal_strlit("load_bytes");
    reveal_strlit("get_pid_tgid");
    reveal_strlit("get_uid_gid");
    reveal_strlit("get_current_comm");
    reveal_strlit("get_current_task");
    reveal_strlit("get_ktime_ns");
    reveal_strlit("probe_read_user_str");
    reveal_strlit("probe_read_kernel_str");
    reveal_with_fuel(decimal, 3);
    let m = ctx_method_named(name)->0;
    assert(decimal(8) =~= seq!['8']);
    assert(decimal(16) =~= seq!['1', '6']);
    assert(decimal(32) =~= seq!['3', '2']);
    assert(decimal(64) =~= seq!['6', '4']);
    if name == "load_u8"@ {
        assert(name.subrange(6, name.len() as int) =~= seq!['8']);
        assert(name.subrange(0, 5) =~= "load_"@);
    } else if name == "load_u16"@ {
        assert(name.subrange(6, name.len() as int) =~= seq!['1', '6']);
        assert(name.subrange(0, 5) =~= "load_"@);
    } else if name == "load_u32"@ {
        assert(name.subrange(6, name.len() as int) =~= seq!['3', '2']);
        assert(name.subrange(0, 5) =~= "load_"@);
    } else if name == "load_u64"@ {
        assert(name.subrange(6, name.len() as int) =~= seq!['6', '4']);
        assert(name.subrange(0, 5) =~= "load_"@);
    } else if name == "load_i8"@ {
        assert(name.subrange(6, name.len() as int) =~= seq!['8']);
        assert(name.subrange(0, 5) =~= "load_"@);
    } else if name == "load_i16"@ {
        assert(name.subrange(6, name.len() as int) =~= seq!['1', '6']);
        assert(name.subrange(0, 5) =~= "load_"@);
    } else if name == "load_i32"@ {
        assert(name.subrange(6, name.len() as int) =~= seq!['3', '2']);
        assert(name.subrange(0, 5) =~= "load_"@);
    } else if name == "load_i64"@ {
        assert(name.subrange(6, name.len() as int) =~= seq!['6', '4']);
        assert(name.subrange(0, 5) =~= "load_"@);
    }
}

/// A fixed-width context load.
pub open spec fn is_ctx_load(m: CtxMethod) -> bool {
    m == CtxMethod::LoadU8 || m == CtxMethod::LoadU16 || m == CtxMethod::LoadU32 || m == CtxMethod::LoadU64
        || m == CtxMethod::LoadI8 || m == CtxMethod::LoadI16 || m == CtxMethod::LoadI32 || m == CtxMethod::LoadI64
}

/// The message for a method the program kind may not call.
pub open spec fn not_allowed(m: CtxMethod, k: ProgramKind) -> Seq<char> {
    "ctx method "@ + ctx_method_debug_name(m) + " not allowed in "@ + program_kind_debug_name(k)
}

/// Lowers a call of the context method named `method` with `args`.
pub open spec fn spec_lower_ctx(env: LowerEnv, method: Seq<char>, args: Seq<ExprModel>, st: ExprState) -> Lowered<Operand, ExprState>
    decreases args, 0nat,
{
    match ctx_method_named(method) {
        None => Err("Unknown ctx method: "@ + method),
        Some(m) => if !allowed_methods(env.kind).contains(m) {
            Err(not_allowed(m, env.kind))
        } else if is_ctx_load(m) {
            if args.len() != 1 {
                Err("ctx method "@ + method + " expects 1 argument, got "@ + decimal(args.len()))
            } else {
                match spec_lower_expr(env, args[0], st) {
                    Ok((Operand::Immediate(n), s1)) => {
                        let offset = n as i32;
                        let op = if offset >= 0 {
                            OpModel::LoadPacket(offset, load_shape(m).0)
                        } else {
                            OpModel::LoadCtx(offset, load_shape(m).0)
                        };
                        emit_var_spec(s1, op, Seq::empty(), load_shape(m).1)
                    },
                    Ok(_) => Err("Context load offset must be immediate"@),
                    Err(msg) => Err(msg),
                }
            }
        } else if m == CtxMethod::ProbeReadUserStr || m == CtxMethod::ProbeReadKernelStr {
            let hname = if m == CtxMethod::ProbeReadUserStr { "probe_read_user_str"@ } else { "probe_read_kernel_str"@ };
            let helper: u32 = if m == CtxMethod::ProbeReadUserStr { 202 } else { 204 };
            if args.len() != 3 {
                Err("ctx."@ + hname + " expects 3 arguments, got "@ + decimal(args.len()))
            } else {
                match spec_lower_expr(env, args[0], st) {
                    Err(msg) => Err(msg),
                    Ok((dest, s1)) => match spec_lower_expr(env, args[1], s1) {
                        Err(msg) => Err(msg),
                        Ok((size_op, s2)) => match spec_lower_expr(env, args[2], s2) {
                            Err(msg) => Err(msg),
                            Ok((src, s3)) => match size_op {
                                Operand::Immediate(n) => emit_var_spec(s3, OpModel::HelperCall(helper),
                                    seq![dest, Operand::Immediate((n as u32) as i64), src], Type::U64),
                                _ => Err(hname + " size must be immediate"@),
                            },
                        },
                    },
                }
            }
        } else if m == CtxMethod::LoadBytes {
            if args.len() != 3 {
                Err("ctx.load_bytes expects (offset, dest, size)"@)
            } else {
                match spec_lower_expr(env, args[0], st) {
                    Err(msg) => Err(msg),
                    Ok((off_op, s1)) => match spec_lower_expr(env, args[1], s1) {
                        Err(msg) => Err(msg),
                        Ok((dest, s2)) => match spec_lower_expr(env, args[2], s2) {
                            Err(msg) => Err(msg),
                            Ok((size_op, s3)) => match (off_op, size_op) {
                                (Operand::Immediate(o), Operand::Immediate(n)) =>
                                    match emit_spec(s3, OpModel::CopyCtxToMem(o as i32, n as u32), seq![dest], Type::U64) {
                                        Ok((_, s4)) => Ok((dest, s4)),
                                        Err(msg) => Err(msg),
                                    },
                                (Operand::Immediate(_), _) => Err("size must be immediate"@),
                                _ => Err("offset must be immediate"@),
                            },
                        },
                    },
                }
            }
        } else if args.len() != 0 {
            Err("ctx method "@ + method + " expects 0 arguments, got "@ + decimal(args.len()))
        } else {
            emit_var_spec(st, OpModel::HelperCall(helper_id(m)->0), Seq::empty(), Type::U64)
        },
    }
}

/// Lowers `rname.method(args)`: a context method when `rname` is `ctx`,
/// else a map operation.
pub open spec fn spec_lower_method(env: LowerEnv, rname: Seq<char>, method: Seq<char>, args: Seq<ExprModel>, st: ExprState) -> Lowered<Operand, ExprState>
    decreases args, 1nat,
{
    if rname == "ctx"@ {
        spec_lower_ctx(env, method, args, st)
    } else if method == "lookup"@ {
        if args.len() != 1 {
            Err(rname + ".lookup expects 1 argument, got "@ + decimal(args.len()))
        } else {
            match spec_lower_expr(env, args[0], st) {
                Ok((k, s1)) => emit_ptr_spec(s1, OpModel::CallMap(rname), seq![k]),
                Err(msg) => Err(msg),
            }
        }
    } else if method == "update"@ {
        if args.len() != 2 {
            Err(rname + ".update expects 2 arguments, got "@ + decimal(args.len()))
        } else {
            match spec_lower_expr(env, args[0], st) {
                Err(msg) => Err(msg),
                Ok((k, s1)) => match spec_lower_expr(env, args[1], s1) {
                    Err(msg) => Err(msg),
                    Ok((v, s2)) => emit_var_spec(s2, OpModel::UpdateMap(rname), seq![k, v], Type::U64),
                },
            }
        }
    } else if method == "reserve"@ {
        if args.len() != 1 {
            Err(rname + ".reserve expects 1 argument (event type)"@)
        } else {
            match args[0] {
                ExprModel::Variable(ename, _) => match event_size_named(env.events, ename) {
                    Some(size) => emit_ptr_spec(st, OpModel::RingBufReserve(rname, size), Seq::empty()),
                    None => Err("Unknown event type: "@ + ename),
                },
                _ => Err("reserve requires event type name"@),
            }
        }
    } else if method == "submit"@ {
        if args.len() != 1 {
            Err(rname + ".submit expects 1 argument"@)
        } else {
            match spec_lower_expr(env, args[0], st) {
                Ok((p, s1)) => emit_var_spec(s1, OpModel::RingBufSubmit(rname), seq![p], Type::U64),
                Err(msg) => Err(msg),
            }
        }
    } else {
        Err("Unknown method: "@ + rname + "."@ + method)
    }
}

/// Lowers a call of the builtin function `name` with `args`.
pub open spec fn spec_lower_builtin(env: LowerEnv, name: Seq<char>, args: Seq<ExprModel>, st: ExprState) -> Lowered<Operand, ExprState> {
    match ctx_method_named(name) {
        None => Err("Unknown builtin function: "@ + name),
        Some(m) => if !allowed_methods(env.kind).contains(m) {
            Err(not_allowed(m, env.kind))
        } else if args.len() != 0 {
            Err(name + " expects 0 arguments, got "@ + decimal(args.len()))
        } else if helper_id(m) is Some {
            emit_var_spec(st, OpModel::HelperCall(helper_id(m)->0), Seq::empty(), Type::U64)
        } else {
            Err("Use ctx."@ + name + "(offset) for context loads"@)
        },
    }
}

/// Lowers `e`: the operand holding its value and the new state.
pub open spec fn spec_lower_expr(env: LowerEnv, e: ExprModel, st: ExprState) -> Lowered<Operand, ExprState>
    decreases e, 0nat,
{
    match e {
        ExprModel::Variable(name, _) => match lookup_var(env.vars, name) {
            Some(v) => Ok((Operand::Var(v), st)),
            None => Err("Undefined variable: "@ + name),
        },
        ExprModel::Number(n, _) => Ok((Operand::Immediate(n), st)),
        ExprModel::HeapLookup(map_name, key, _) => match spec_lower_expr(env, *key, st) {
            Ok((k, s1)) => emit_ptr_spec(s1, OpModel::CallMap(map_name), seq![k]),
            Err(m) => Err(m),
        },
        ExprModel::MethodCall(recv, method, args, _) => match *recv {
            ExprModel::Variable(rname, _) => spec_lower_method(env, rname, method, args, st),
            _ => Err("Method receiver must be identifier"@),
        },
        ExprModel::Dereference(inner, _) => match spec_lower_expr(env, *inner, st) {
            Ok((p, s1)) => emit_var_spec(s1, OpModel::LoadKey, seq![p], Type::U64),
            Err(m) => Err(m),
        },
        ExprModel::Binary(op, l, r, _) => match spec_lower_expr(env, *l, st) {
            Err(m) => Err(m),
            Ok((lo, s1)) => match spec_lower_expr(env, *r, s1) {
                Err(m) => Err(m),
                Ok((ro, s2)) => emit_var_spec(s2, OpModel::Binary(bin_op_spec(op)), seq![lo, ro], Type::U64),
            },
        },
        ExprModel::Call(name, args, _) => spec_lower_builtin(env, name, args, st),
        ExprModel::FieldAccess(base, field, _) => match spec_lower_expr(env, *base, st) {
            Err(m) => Err(m),
            Ok((Operand::Var(b), s1)) => match field_offset_in(env.decls, field) {
                None => Err("Unknown field: "@ + field),
                Some(off) => if off == 0 {
                    Ok((Operand::Var(b), s1))
                } else {
                    emit_var_spec(s1, OpModel::Binary(BinaryOp::Add), seq![Operand::Var(b), Operand::Immediate(off as i64)], Type::U64)
                },
            },
            Ok(_) => Err("Field access requires a pointer variable"@),
        },
    }
}


/// A basic block as a value.
pub struct BlockModel {
    pub id: BlockId,
    pub instrs: Seq<InstrModel>,
    pub term: Terminator,
}

/// The model of a basic block.
pub open spec fn block_model(b: BasicBlock) -> BlockModel {
    BlockModel { id: b.id, instrs: instrs_model(b.instructions@), term: b.terminator }
}

/// The models of a sequence of basic blocks.
pub open spec fn blocks_model(s: Seq<BasicBlock>) -> Seq<BlockModel> {
    s.map_values(|b: BasicBlock| block_model(b))
}

/// Appending a block appends its model.
pub proof fn lemma_blocks_model_push(s: Seq<BasicBlock>, b: BasicBlock)
    ensures
        blocks_model(s.push(b)) == blocks_model(s).push(block_model(b)),
{
    assert(blocks_model(s.push(b)) =~= blocks_model(s).push(block_model(b)));
}

/// What statement lowering changes: the names in scope, the map pointers,
/// the next variable and block numbers, the closed blocks in the order they
/// were closed, and the open block.
pub struct StmtState {
    pub vars: Seq<(Seq<char>, VarId)>,
    pub map_ptrs: Seq<VarId>,
    pub next: u32,
    pub next_block: u32,
    pub done: Seq<BlockModel>,
    pub cur: BlockModel,
}

/// The environment an expression is lowered in: the names in scope now.
pub open spec fn expr_env(env: LowerEnv, st: StmtState) -> LowerEnv {
    LowerEnv { vars: st.vars, ..env }
}

/// The part of a statement state that expression lowering changes.
pub open spec fn expr_part(st: StmtState) -> ExprState {
    ExprState { map_ptrs: st.map_ptrs, next: st.next, instrs: st.cur.instrs }
}

/// `st` after expression lowering left `es`.
pub open spec fn with_expr(st: StmtState, es: ExprState) -> StmtState {
    StmtState { map_ptrs: es.map_ptrs, next: es.next, cur: BlockModel { instrs: es.instrs, ..st.cur }, ..st }
}

/// Lowers `e` into the open block.
pub open spec fn lower_in(env: LowerEnv, st: StmtState, e: ExprModel) -> Lowered<Operand, StmtState> {
    match spec_lower_expr(expr_env(env, st), e, expr_part(st)) {
        Ok((op, es)) => Ok((op, with_expr(st, es))),
        Err(m) => Err(m),
    }
}

/// Appends to the open block an instruction of type `u64` defining a new variable.
pub open spec fn emit_in(st: StmtState, opcode: OpModel, operands: Seq<Operand>) -> Lowered<VarId, StmtState> {
    match emit_spec(expr_part(st), opcode, operands, Type::U64) {
        Ok((v, es)) => Ok((v, with_expr(st, es))),
        Err(m) => Err(m),
    }
}

/// Takes the next block number.
pub open spec fn alloc_block_spec(st: StmtState) -> Lowered<BlockId, StmtState> {
    if st.next_block == u32::MAX {
        Err("IR block limit reached"@)
    } else {
        Ok((BlockId(st.next_block), StmtState { next_block: (st.next_block + 1) as u32, ..st }))
    }
}

/// `st` with `(name, v)` bound last.
pub open spec fn bind(st: StmtState, name: Seq<char>, v: VarId) -> StmtState {
    StmtState { vars: st.vars.push((name, v)), ..st }
}

/// `st` with `v` recorded as a map pointer.
pub open spec fn mark_ptr(st: StmtState, v: VarId) -> StmtState {
    StmtState { map_ptrs: st.map_ptrs.push(v), ..st }
}

/// The operator of a compound assignment.
pub open spec fn compound_op_spec(op: AssignmentOp) -> BinaryOp {
    match op {
        AssignmentOp::AddAssign => BinaryOp::Add,
        AssignmentOp::SubAssign => BinaryOp::Sub,
        AssignmentOp::MulAssign => BinaryOp::Mul,
        AssignmentOp::DivAssign => BinaryOp::Div,
        _ => BinaryOp::Mod,
    }
}

/// A source operator lowers to an IR operator that computes the same
/// value: for all operands, `x op y` in the program and the lowered `Binary`
/// instruction agree.
pub proof fn lemma_lowered_operator_meaning(op: BinOp, x: u64, y: u64)
    ensures
        ir_value(bin_op_spec(op), x, y) == source_value(op, x, y),
{
}

/// A compound assignment `x op= y` lowers to an IR operator whose value is
/// the one the assignment gives `x`.
pub proof fn lemma_compound_operator_meaning(op: AssignmentOp, x: u64, y: u64)
    requires
        op != AssignmentOp::Assign,
    ensures
        ir_value(compound_op_spec(op), x, y) == compound_value(op, x, y),
{
}

/// Where control goes after an `if guard` that stands in a block ending in
/// `term`: on to the same jump, or, at the top of a unit (or after a
/// `return`), to the end of the program.
pub open spec fn continuation(term: Terminator) -> Terminator {
    match term {
        Terminator::Jump(m) => Terminator::Jump(m),
        _ => Terminator::Return(Operand::Immediate(0)),
    }
}

/// A branch of an `if guard` as it is closed: a block that neither returns
/// nor branches jumps to the merge block.
pub open spec fn seal(b: BlockModel, merge: BlockId) -> BlockModel {
    match b.term {
        Terminator::Return(_) => b,
        Terminator::Branch { .. } => b,
        Terminator::Jump(_) => BlockModel { term: Terminator::Jump(merge), ..b },
    }
}

/// The heap-variable message for an initializer that is no map lookup or reserve.
pub open spec fn heap_init_msg() -> Seq<char> {
    "heap var must be initialized with map.lookup or map.reserve"@
}

/// Lowers `rname.method(args)` as the initializer of heap variable `name`.
pub open spec fn spec_lower_heap_init(env: LowerEnv, name: Seq<char>, rname: Seq<char>, method: Seq<char>, args: Seq<ExprModel>, st: StmtState) -> Result<StmtState, Seq<char>> {
    if method == "lookup"@ {
        if args.len() != 1 {
            Err(rname + ".lookup expects 1 argument"@)
        } else {
            match lower_in(env, st, args[0]) {
                Err(m) => Err(m),
                Ok((k, s1)) => match emit_in(s1, OpModel::CallMap(rname), seq![k]) {
                    Err(m) => Err(m),
                    Ok((v, s2)) => Ok(mark_ptr(bind(s2, name, v), v)),
                },
            }
        }
    } else if method == "reserve"@ {
        if args.len() != 1 {
            Err(rname + ".reserve expects event type name"@)
        } else {
            match args[0] {
                ExprModel::Variable(ename, _) => match event_size_named(env.events, ename) {
                    None => Err("Unknown event type: "@ + ename),
                    Some(size) => match emit_in(st, OpModel::RingBufReserve(rname, size), Seq::empty()) {
                        Err(m) => Err(m),
                        Ok((v, s1)) => Ok(mark_ptr(bind(s1, name, v), v)),
                    },
                },
                _ => Err("reserve requires event type name"@),
            }
        }
    } else {
        Err(heap_init_msg())
    }
}

/// Lowers an assignment of the already lowered `value` to `target`.
pub open spec fn spec_lower_assign(env: LowerEnv, target: ExprModel, op: AssignmentOp, value: Operand, st: StmtState) -> Result<StmtState, Seq<char>> {
    match target {
        ExprModel::Dereference(p, _) => match lower_in(env, st, *p) {
            Err(m) => Err(m),
            Ok((ptr, s1)) => {
                let checked = match ptr {
                    Operand::Var(v) => if s1.map_ptrs.contains(v) {
                        match emit_in(s1, OpModel::NullCheck, seq![ptr]) {
                            Ok((_, s)) => Ok(s),
                            Err(m) => Err(m),
                        }
                    } else {
                        Ok(s1)
                    },
                    _ => Ok(s1),
                };
                match checked {
                    Err(m) => Err(m),
                    Ok(s2) => {
                        let stored: Lowered<Operand, StmtState> = if op == AssignmentOp::Assign {
                            Ok((value, s2))
                        } else {
                            match emit_in(s2, OpModel::LoadKey, seq![ptr]) {
                                Err(m) => Err(m),
                                Ok((l, s3)) => match emit_in(s3, OpModel::Binary(compound_op_spec(op)), seq![Operand::Var(l), value]) {
                                    Err(m) => Err(m),
                                    Ok((c, s4)) => Ok((Operand::Var(c), s4)),
                                },
                            }
                        };
                        match stored {
                            Err(m) => Err(m),
                            Ok((fv, s5)) => match emit_in(s5, OpModel::Store(8), seq![ptr, fv]) {
                                Err(m) => Err(m),
                                Ok((_, s6)) => Ok(s6),
                            },
                        }
                    },
                }
            },
        },
        ExprModel::Variable(name, _) => match lookup_var(st.vars, name) {
            None => Err("Undefined variable: "@ + name),
            Some(old_id) => {
                let r = if op == AssignmentOp::Assign {
                    emit_in(st, OpModel::Binary(BinaryOp::Add), seq![value, Operand::Immediate(0)])
                } else {
                    emit_in(st, OpModel::Binary(compound_op_spec(op)), seq![Operand::Var(old_id), value])
                };
                match r {
                    Err(m) => Err(m),
                    Ok((v, s1)) => Ok(bind(s1, name, v)),
                }
            },
        },
        ExprModel::FieldAccess(base, field, _) => match lower_in(env, st, *base) {
            Err(m) => Err(m),
            Ok((Operand::Var(b), s1)) => match field_slot_in(env.decls, field) {
                None => Err("Unknown field: "@ + field),
                Some((offset, size)) => {
                    let placed: Lowered<VarId, StmtState> = if offset == 0 {
                        Ok((b, s1))
                    } else {
                        emit_in(s1, OpModel::Binary(BinaryOp::Add), seq![Operand::Var(b), Operand::Immediate(offset as i64)])
                    };
                    match placed {
                        Err(m) => Err(m),
                        Ok((fp, s2)) => if op != AssignmentOp::Assign {
                            Err("Compound assignment operators not supported on struct fields"@)
                        } else {
                            match emit_in(s2, OpModel::Store(size as u8), seq![Operand::Var(fp), value]) {
                                Err(m) => Err(m),
                                Ok((_, s3)) => Ok(s3),
                            }
                        },
                    }
                },
            },
            Ok(_) => Err("Field access requires a pointer variable"@),
        },
        _ => Err("Invalid assignment target"@),
    }
}

/// Lowers `heap name = init;`.
pub open spec fn spec_lower_heap_decl(env: LowerEnv, name: Seq<char>, init: ExprModel, st: StmtState) -> Result<StmtState, Seq<char>> {
    match init {
        ExprModel::MethodCall(recv, method, args, _) => match *recv {
            ExprModel::Variable(rname, _) => spec_lower_heap_init(env, name, rname, method, args, st),
            _ => Err("heap initializer receiver must be identifier"@),
        },
        _ => Err(heap_init_msg()),
    }
}

/// Lowers `target op value;`: the value first, then the store or rebinding.
pub open spec fn spec_lower_assignment(env: LowerEnv, target: ExprModel, op: AssignmentOp, value: ExprModel, st: StmtState) -> Result<StmtState, Seq<char>> {
    match lower_in(env, st, value) {
        Err(m) => Err(m),
        Ok((v, s1)) => spec_lower_assign(env, target, op, v, s1),
    }
}

/// Lowers statement `s`.
pub open spec fn spec_lower_stmt(env: LowerEnv, s: StmtModel, st: StmtState) -> Result<StmtState, Seq<char>>
    decreases s,
{
    match s {
        StmtModel::VarDecl(name, _, value, _) => if st.next == u32::MAX {
            Err("IR variable limit reached"@)
        } else {
            let v = VarId(st.next);
            let s1 = StmtState { next: (st.next + 1) as u32, ..st };
            match lower_in(env, s1, value) {
                Err(m) => Err(m),
                Ok((op, s2)) => Ok(StmtState {
                    vars: s2.vars.push((name, v)),
                    cur: BlockModel {
                        instrs: s2.cur.instrs.push(InstrModel {
                            result: v,
                            opcode: OpModel::Binary(BinaryOp::Add),
                            operands: seq![op, Operand::Immediate(0)],
                            result_type: Type::U64,
                        }),
                        ..s2.cur
                    },
                    ..s2
                }),
            }
        },
        StmtModel::Return(e, _) => match lower_in(env, st, e) {
            Err(m) => Err(m),
            Ok((op, s1)) => Ok(StmtState { cur: BlockModel { term: Terminator::Return(op), ..s1.cur }, ..s1 }),
        },
        StmtModel::ExprStmt(e, _) => match lower_in(env, st, e) {
            Err(m) => Err(m),
            Ok((_, s1)) => Ok(s1),
        },
        StmtModel::HeapVarDecl(name, init, _) => spec_lower_heap_decl(env, name, init, st),
        StmtModel::Assignment(target, op, value, _) => spec_lower_assignment(env, target, op, value, st),
        StmtModel::IfGuard(cond, then_body, else_body, _) => match cond {
            ExprModel::Variable(name, _) => match lookup_var(st.vars, name) {
                None => Err("Undefined variable in guard: "@ + name),
                Some(g) => match emit_in(st, OpModel::NullCheck, seq![Operand::Var(g)]) {
                    Err(m) => Err(m),
                    Ok((c, s1)) => match alloc_block_spec(s1) {
                        Err(m) => Err(m),
                        Ok((t, s2)) => match alloc_block_spec(s2) {
                            Err(m) => Err(m),
                            Ok((e, s3)) => match alloc_block_spec(s3) {
                                Err(m) => Err(m),
                                Ok((mg, s4)) => {
                                    let closed = BlockModel {
                                        term: Terminator::Branch { condition: Operand::Var(c), true_block: t, false_block: e },
                                        ..s4.cur
                                    };
                                    let s5 = StmtState {
                                        done: s4.done.push(closed),
                                        cur: BlockModel { id: t, instrs: Seq::empty(), term: Terminator::Jump(mg) },
                                        ..s4
                                    };
                                    match spec_lower_body(env, then_body, s5) {
                                        Err(m) => Err(m),
                                        Ok(s6) => {
                                            let s7 = StmtState {
                                                cur: BlockModel { id: e, instrs: Seq::empty(), term: Terminator::Jump(mg) },
                                                ..s6
                                            };
                                            let after_else = match else_body {
                                                Some(b) => spec_lower_body(env, b, s7),
                                                None => Ok(s7),
                                            };
                                            match after_else {
                                                Err(m) => Err(m),
                                                Ok(s8) => Ok(StmtState {
                                                    done: s8.done.push(seal(s6.cur, mg)).push(seal(s8.cur, mg)),
                                                    cur: BlockModel { id: mg, instrs: Seq::empty(), term: continuation(st.cur.term) },
                                                    ..s8
                                                }),
                                            }
                                        },
                                    }
                                },
                            },
                        },
                    },
                },
            },
            _ => Err("Guard must be a variable"@),
        },
    }
}

/// Lowers statements `stmts` in order.
pub open spec fn spec_lower_body(env: LowerEnv, stmts: Seq<StmtModel>, st: StmtState) -> Result<StmtState, Seq<char>>
    decreases stmts,
{
    if stmts.len() == 0 {
        Ok(st)
    } else {
        match spec_lower_body(env, stmts.subrange(0, stmts.len() - 1), st) {
            Err(m) => Err(m),
            Ok(s) => spec_lower_stmt(env, stmts[stmts.len() - 1], s),
        }
    }
}

/// The state a unit's body is lowered from: nothing in scope, and the open
/// entry block numbered 0.
pub open spec fn unit_start() -> StmtState {
    StmtState {
        vars: Seq::empty(),
        map_ptrs: Seq::empty(),
        next: 0,
        next_block: 1,
        done: Seq::empty(),
        cur: BlockModel { id: BlockId(0), instrs: Seq::empty(), term: Terminator::Return(Operand::Immediate(0)) },
    }
}

/// Lowers a unit's body: the state after its last statement.
pub open spec fn spec_lower_unit_body(kind: ProgramKind, events: Seq<(Seq<char>, u32)>, decls: Seq<(Seq<char>, Seq<EventField>)>, body: Seq<StmtModel>) -> Result<StmtState, Seq<char>> {
    spec_lower_body(LowerEnv { vars: Seq::empty(), kind, events, decls }, body, unit_start())
}


/// A failure in a prefix of a body is the failure of the whole body.
pub proof fn lemma_body_err_extends(env: LowerEnv, stmts: Seq<StmtModel>, k: int, st: StmtState)
    requires
        0 <= k <= stmts.len(),
        spec_lower_body(env, stmts.subrange(0, k), st) is Err,
    ensures
        spec_lower_body(env, stmts, st) == spec_lower_body(env, stmts.subrange(0, k), st),
    decreases stmts.len(),
{
    if k < stmts.len() {
        let init = stmts.subrange(0, stmts.len() - 1);
        assert(init.subrange(0, k) == stmts.subrange(0, k));
        lemma_body_err_extends(env, init, k, st);
    } else {
        assert(stmts.subrange(0, k) == stmts);
    }
}

} // verus!
