//! A C rendering of a tracepoint unit, for compilation with clang: one
//! local per used variable, one label per block, and a shared label that
//! returns 0 when a null check fails.
use vstd::prelude::*;
use crate::ir::semantics::{ir_value, shl64, shr64, wrap64};
use crate::emit::isa::kernel_helper_name;
use crate::ast::map::Type;
use crate::emit::vars::{branch_condition_vars, collect_var_ids, contains_u32, sorted_unique};
use crate::ir::instruction::{BinaryOp, Opcode, Operand, VarId};
use crate::ir::unit::{BasicBlock, Terminator, UnitIr};
use crate::ir::instruction::Instruction;
use crate::ir::unit::flat;
use crate::emit::vars::{blocks_ids, branch_ids, strictly_sorted};
use crate::text::{decimal, owned, push_decimal, push_signed_decimal, signed_decimal};

verus! {

/// The license line and the blank line after it.
pub open spec fn c_license(lic: Seq<char>) -> Seq<char> {
    "char LICENSE[] SEC(\"license\") = \""@ + lic + "\";\n\n"@
}

/// The section attribute, the function header and the context cast.
pub open spec fn c_header(sec: Seq<char>, name: Seq<char>) -> Seq<char> {
    "SEC(\""@ + sec + "\")\nint "@ + name + "(void *ctx) {\n    (void)ctx;\n\n"@
}

/// The shared null-check failure block and the end of the function.
pub open spec fn c_footer() -> Seq<char> {
    "__solnix_null_fail:\n    return 0;\n}\n"@
}

/// Every jump and branch of the blocks names a block of the unit.
pub open spec fn targets_known(blocks: Seq<BasicBlock>) -> bool {
    forall|b: int| 0 <= b < blocks.len() ==> match (#[trigger] blocks[b]).terminator {
        Terminator::Jump(t) => exists|c: int| 0 <= c < blocks.len() && blocks[c].id == t,
        Terminator::Branch { true_block, false_block, .. } =>
            (exists|c: int| 0 <= c < blocks.len() && blocks[c].id == true_block)
            && (exists|c: int| 0 <= c < blocks.len() && blocks[c].id == false_block),
        Terminator::Return(_) => true,
    }
}

/// How an operand is written: a variable by its local's name, an immediate
/// in decimal.
pub open spec fn operand_text(op: Operand) -> Seq<char> {
    match op {
        Operand::Var(v) => var_text(v.0),
        Operand::Immediate(x) => signed_decimal(x as int),
    }
}

/// The local that holds variable `id`.
pub open spec fn var_text(id: u32) -> Seq<char> {
    "v"@ + decimal(id as nat)
}

/// The label of block `id`.
pub open spec fn label_text(id: u32) -> Seq<char> {
    "__block_"@ + decimal(id as nat)
}

/// A temporary as the rendering uses it: the instruction it serves (by its
/// position, counted modulo 2^32), whether it holds the key, its name and
/// its initial value.
pub struct TempEntry {
    pub inst: u32,
    pub is_key: bool,
    pub name: Seq<char>,
    pub init: i64,
}

/// The name of the temporary numbered `n`.
pub open spec fn temp_name(n: u32) -> Seq<char> {
    "__tmp"@ + decimal(n as nat)
}

/// The position of an instruction as the rendering counts it.
pub open spec fn inst_number(p: int) -> u32 {
    (p % 0x1_0000_0000) as u32
}

/// The temporaries one instruction needs, numbered from `n`: one for an
/// immediate key of a lookup or update, one for an immediate value of an
/// update.
pub open spec fn inst_temps(inst: Instruction, idx: u32, n: int) -> Seq<TempEntry> {
    let ops = inst.operands@;
    match inst.opcode {
        Opcode::CallMap { .. } => if ops.len() > 0 {
            match ops[0] {
                Operand::Immediate(v) => seq![TempEntry { inst: idx, is_key: true, name: temp_name(inst_number(n)), init: v }],
                _ => Seq::empty(),
            }
        } else {
            Seq::empty()
        },
        Opcode::UpdateMap { .. } => if ops.len() >= 2 {
            let keys = match ops[0] {
                Operand::Immediate(v) => seq![TempEntry { inst: idx, is_key: true, name: temp_name(inst_number(n)), init: v }],
                _ => Seq::empty(),
            };
            keys + match ops[1] {
                Operand::Immediate(v) => seq![TempEntry { inst: idx, is_key: false, name: temp_name(inst_number(n + keys.len())), init: v }],
                _ => Seq::empty(),
            }
        } else {
            Seq::empty()
        },
        _ => Seq::empty(),
    }
}

/// The temporaries of a run of instructions, in order.
pub open spec fn temps_of(f: Seq<Instruction>) -> Seq<TempEntry>
    decreases f.len(),
{
    if f.len() == 0 {
        Seq::empty()
    } else {
        let pre = temps_of(f.drop_last());
        pre + inst_temps(f.last(), inst_number(f.len() - 1), pre.len() as int)
    }
}

/// The first temporary from position `k` on that serves `inst` in the given role.
pub open spec fn first_temp_from(ts: Seq<TempEntry>, k: int, inst: u32, is_key: bool) -> Option<int>
    decreases ts.len() - k,
{
    if k < 0 || k >= ts.len() {
        None
    } else if ts[k].inst == inst && ts[k].is_key == is_key {
        Some(k)
    } else {
        first_temp_from(ts, k + 1, inst, is_key)
    }
}

/// The address of an operand: a local's, or the temporary holding an immediate.
pub open spec fn addr_text(op: Operand, ts: Seq<TempEntry>, inst: u32, is_key: bool) -> Result<Seq<char>, Seq<char>> {
    match op {
        Operand::Var(v) => Ok("&"@ + var_text(v.0)),
        Operand::Immediate(_) => match first_temp_from(ts, 0, inst, is_key) {
            Some(k) => Ok("&"@ + ts[k].name),
            None => if is_key {
                Err("internal error: missing temp for immediate key"@)
            } else {
                Err("internal error: missing temp for immediate value"@)
            },
        },
    }
}

/// The C operator of an IR operator.
pub open spec fn op_text(op: BinaryOp) -> Seq<char> {
    match op {
        BinaryOp::Add => "+"@,
        BinaryOp::Sub => "-"@,
        BinaryOp::Mul => "*"@,
        BinaryOp::Div => "/"@,
        BinaryOp::Mod => "%"@,
        BinaryOp::Shl => "<<"@,
        BinaryOp::Shr => ">>"@,
    }
}

/// The value of the C expression `x OP y` on two `__u64` operands, for the
/// operator spelled `text`: unsigned arithmetic wraps around; a division or
/// remainder by zero and a shift by 64 or more are undefined in C (`None`),
/// as is any text that is not one of these operators.
pub open spec fn c_u64_binary(text: Seq<char>, x: u64, y: u64) -> Option<u64> {
    if text == "+"@ {
        Some(wrap64(x + y))
    } else if text == "-"@ {
        Some(wrap64(x - y))
    } else if text == "*"@ {
        Some(wrap64(x * y))
    } else if text == "/"@ {
        if y == 0 { None } else { Some(x / y) }
    } else if text == "%"@ {
        if y == 0 { None } else { Some(x % y) }
    } else if text == "<<"@ {
        if y >= 64 { None } else { Some(shl64(x, y as nat)) }
    } else if text == ">>"@ {
        if y >= 64 { None } else { Some(shr64(x, y as nat)) }
    } else {
        None
    }
}

/// The C operator rendered for an IR operator computes that operator: where
/// C defines the expression it has the IR operator's value, and C defines
/// it for every nonzero right operand below 64.
pub proof fn lemma_c_operator_meaning(op: BinaryOp, x: u64, y: u64)
    ensures
        c_u64_binary(op_text(op), x, y) matches Some(v) ==> v == ir_value(op, x, y),
        0 < y < 64 ==> c_u64_binary(op_text(op), x, y) is Some,
{
    reveal_strlit("+");
    reveal_strlit("-");
    reveal_strlit("*");
    reveal_strlit("/");
    reveal_strlit("%");
    reveal_strlit("<<");
    reveal_strlit(">>");
    let t = op_text(op);
    let plus = "+"@;
    let minus = "-"@;
    let star = "*"@;
    let slash = "/"@;
    let pct = "%"@;
    let shl = "<<"@;
    let shr = ">>"@;
    assert(plus[0] == '+' && minus[0] == '-' && star[0] == '*' && slash[0] == '/' && pct[0] == '%');
    assert(shl.len() == 2 && shr.len() == 2 && shl[0] == '<' && shr[0] == '>');
    assert(plus.len() == 1 && minus.len() == 1 && star.len() == 1 && slash.len() == 1 && pct.len() == 1);
    if t == minus { assert(t != plus); }
    if t == star { assert(t != plus && t != minus); }
    if t == slash { assert(t != plus && t != minus && t != star); }
    if t == pct { assert(t != plus && t != minus && t != star && t != slash); }
    if t == shl { assert(t != plus && t != minus && t != star && t != slash && t != pct); }
    if t == shr { assert(t != plus && t != minus && t != star && t != slash && t != pct && t != shl); }
    if 0 <= y < 64 { assert(y % 64 == y); }
}

/// The C call of a helper; helpers without one read as 0.
pub open spec fn helper_text(id: u32) -> Seq<char> {
    if id == 5 {
        "bpf_ktime_get_ns()"@
    } else if id == 14 {
        "bpf_get_current_pid_tgid()"@
    } else if id == 15 {
        "bpf_get_current_uid_gid()"@
    } else if id == 35 {
        "bpf_get_current_task()"@
    } else {
        "0"@
    }
}

/// The C call rendered for a helper number calls the kernel helper of that
/// number; numbers without a C rendering read as `0`.
pub proof fn lemma_c_helper_calls_the_helper(id: u32)
    ensures
        helper_text(id) != "0"@ ==> (kernel_helper_name(id) matches Some(name) && helper_text(id) == name + "()"@),
{
    reveal_strlit("0");
    reveal_strlit("()");
    reveal_strlit("bpf_ktime_get_ns()");
    reveal_strlit("bpf_ktime_get_ns");
    reveal_strlit("bpf_get_current_pid_tgid()");
    reveal_strlit("bpf_get_current_pid_tgid");
    reveal_strlit("bpf_get_current_uid_gid()");
    reveal_strlit("bpf_get_current_uid_gid");
    reveal_strlit("bpf_get_current_task()");
    reveal_strlit("bpf_get_current_task");
    if id == 5 {
        assert("bpf_ktime_get_ns()"@ =~= "bpf_ktime_get_ns"@ + "()"@);
    } else if id == 14 {
        assert("bpf_get_current_pid_tgid()"@ =~= "bpf_get_current_pid_tgid"@ + "()"@);
    } else if id == 15 {
        assert("bpf_get_current_uid_gid()"@ =~= "bpf_get_current_uid_gid"@ + "()"@);
    } else if id == 35 {
        assert("bpf_get_current_task()"@ =~= "bpf_get_current_task"@ + "()"@);
    }
}

/// The statements of one instruction, the `idx`-th of the unit; empty for an
/// instruction without effect whose result is unused, or without the
/// operands its form needs.
pub open spec fn inst_text(inst: Instruction, used: Seq<u32>, bvars: Seq<u32>, ts: Seq<TempEntry>, idx: u32) -> Result<Seq<char>, Seq<char>> {
    let res_used = used.contains(inst.result.0);
    let side = inst.opcode is Store || inst.opcode is UpdateMap || inst.opcode is NullCheck;
    let ops = inst.operands@;
    let var = var_text(inst.result.0);
    if !(side || res_used) {
        Ok(Seq::empty())
    } else {
        match inst.opcode {
            Opcode::Binary { op } => if ops.len() >= 2 {
                Ok("    "@ + var + " = "@ + operand_text(ops[0]) + " "@ + op_text(op) + " "@ + operand_text(ops[1]) + ";\n"@)
            } else {
                Ok(Seq::empty())
            },
            Opcode::LoadKey => if ops.len() > 0 {
                Ok("    "@ + var + " = *"@ + operand_text(ops[0]) + ";\n"@)
            } else {
                Ok(Seq::empty())
            },
            Opcode::Store { .. } => if ops.len() >= 2 {
                Ok("    *"@ + operand_text(ops[0]) + " = "@ + operand_text(ops[1]) + ";\n"@)
            } else {
                Ok(Seq::empty())
            },
            Opcode::LoadCtx { offset, size } => Ok(load_text(var, offset, size)),
            Opcode::LoadPacket { offset, size } => Ok(load_text(var, offset, size)),
            Opcode::HelperCall { id } => Ok("    "@ + var + " = "@ + helper_text(id) + ";\n"@),
            Opcode::CallMap { map_name } => if ops.len() > 0 {
                match addr_text(ops[0], ts, idx, true) {
                    Ok(k) => Ok("    "@ + var + " = bpf_map_lookup_elem(&"@ + map_name@ + ", "@ + k + ");\n"@),
                    Err(m) => Err(m),
                }
            } else {
                Ok(Seq::empty())
            },
            Opcode::UpdateMap { map_name } => if ops.len() >= 2 {
                match addr_text(ops[0], ts, idx, true) {
                    Err(m) => Err(m),
                    Ok(k) => match addr_text(ops[1], ts, idx, false) {
                        Err(m) => Err(m),
                        Ok(v) => Ok((if res_used { "    "@ + var + " = bpf_map_update_elem(&"@ } else { "    (void)bpf_map_update_elem(&"@ })
                            + map_name@ + ", "@ + k + ", "@ + v + ", 0);\n"@),
                    },
                }
            } else {
                Ok(Seq::empty())
            },
            Opcode::NullCheck => if ops.len() > 0 {
                if bvars.contains(inst.result.0) {
                    Ok("    "@ + var + " = ("@ + operand_text(ops[0]) + " != 0);\n"@)
                } else {
                    Ok("    if (!("@ + operand_text(ops[0]) + ")) goto __solnix_null_fail;\n"@
                        + (if res_used { "    "@ + var + " = 1;\n"@ } else { Seq::empty() }))
                }
            } else {
                Ok(Seq::empty())
            },
            _ => Err("the C backend does not support this instruction"@),
        }
    }
}

/// A load from the context at `offset` of `size` bytes into `var`.
pub open spec fn load_text(var: Seq<char>, offset: i32, size: u8) -> Seq<char> {
    "    "@ + var + " = *(__u"@ + decimal(size.wrapping_mul(8) as nat) + " *)((__u8 *)ctx + ("@
        + signed_decimal(offset as int) + "));\n"@
}

/// Some block of `blocks` is numbered `id`.
pub open spec fn block_named(blocks: Seq<BasicBlock>, id: u32) -> bool {
    exists|c: int| 0 <= c < blocks.len() && blocks[c].id.0 == id
}

/// The statement of a terminator and the blank line after it.
pub open spec fn term_text(blocks: Seq<BasicBlock>, t: Terminator) -> Result<Seq<char>, Seq<char>> {
    match t {
        Terminator::Return(op) => Ok("    return "@ + operand_text(op) + ";\n"@ + "\n"@),
        Terminator::Jump(target) => if block_named(blocks, target.0) {
            Ok("    goto "@ + label_text(target.0) + ";\n"@ + "\n"@)
        } else {
            Err("Invalid jump target: BlockId("@ + decimal(target.0 as nat) + ")"@)
        },
        Terminator::Branch { condition, true_block, false_block } =>
            if block_named(blocks, true_block.0) && block_named(blocks, false_block.0) {
                Ok("    if ("@ + operand_text(condition) + ") goto "@ + label_text(true_block.0) + "; else goto "@
                    + label_text(false_block.0) + ";\n"@ + "\n"@)
            } else {
                Err("Invalid branch targets"@)
            },
    }
}

/// The statements of a run of instructions, the first of which is the
/// `start`-th of the unit; the first failure stops it.
pub open spec fn insts_text(insts: Seq<Instruction>, start: int, used: Seq<u32>, bvars: Seq<u32>, ts: Seq<TempEntry>) -> Result<Seq<char>, Seq<char>>
    decreases insts.len(),
{
    if insts.len() == 0 {
        Ok(Seq::empty())
    } else {
        match insts_text(insts.drop_last(), start, used, bvars, ts) {
            Err(m) => Err(m),
            Ok(t) => match inst_text(insts.last(), used, bvars, ts, inst_number(start + insts.len() - 1)) {
                Err(m) => Err(m),
                Ok(u) => Ok(t + u),
            },
        }
    }
}

/// The labelled blocks `bs` of the unit whose blocks are `all`.
pub open spec fn blocks_text(all: Seq<BasicBlock>, bs: Seq<BasicBlock>, used: Seq<u32>, bvars: Seq<u32>, ts: Seq<TempEntry>) -> Result<Seq<char>, Seq<char>>
    decreases bs.len(),
{
    if bs.len() == 0 {
        Ok(Seq::empty())
    } else {
        match blocks_text(all, bs.drop_last(), used, bvars, ts) {
            Err(m) => Err(m),
            Ok(t) => match insts_text(bs.last().instructions@, flat(bs.drop_last()).len() as int, used, bvars, ts) {
                Err(m) => Err(m),
                Ok(u) => match term_text(all, bs.last().terminator) {
                    Err(m) => Err(m),
                    Ok(w) => Ok(t + label_text(bs.last().id.0) + ":\n"@ + u + w),
                },
            },
        }
    }
}

/// The type of the first instruction of `insts` defining `id`.
pub open spec fn type_in_insts(insts: Seq<Instruction>, id: u32) -> Option<Type>
    decreases insts.len(),
{
    if insts.len() == 0 {
        None
    } else if insts[0].result.0 == id {
        Some(insts[0].result_type)
    } else {
        type_in_insts(insts.drop_first(), id)
    }
}

/// The type of the first instruction of the blocks defining `id`.
pub open spec fn type_in_blocks(bs: Seq<BasicBlock>, id: u32) -> Option<Type>
    decreases bs.len(),
{
    if bs.len() == 0 {
        None
    } else {
        match type_in_insts(bs[0].instructions@, id) {
            Some(t) => Some(t),
            None => type_in_blocks(bs.drop_first(), id),
        }
    }
}

/// The C type of a local.
pub open spec fn c_type(t: Type) -> Seq<char> {
    match t {
        Type::U64 => "__u64"@,
        Type::U32 => "__u32"@,
        Type::I64 => "__s64"@,
        Type::I32 => "__s32"@,
    }
}


/// The C type of a local has the width the object back end gives the type,
/// and is signed exactly for the signed types: `__s<bits>` or `__u<bits>`.
pub proof fn lemma_c_type_width(t: Type)
    ensures
        c_type(t) == (if t == Type::I32 || t == Type::I64 { "__s"@ } else { "__u"@ })
            + decimal(8 * crate::emit::ebpf_obj::maps::type_bytes(t) as nat),
{
    reveal_strlit("__s");
    reveal_strlit("__u");
    reveal_strlit("__u64");
    reveal_strlit("__u32");
    reveal_strlit("__s64");
    reveal_strlit("__s32");
    reveal_with_fuel(decimal, 3);
    assert(decimal(32) =~= seq!['3', '2']);
    assert(decimal(64) =~= seq!['6', '4']);
    match t {
        Type::U64 => assert("__u64"@ =~= "__u"@ + seq!['6', '4']),
        Type::U32 => assert("__u32"@ =~= "__u"@ + seq!['3', '2']),
        Type::I64 => assert("__s64"@ =~= "__s"@ + seq!['6', '4']),
        Type::I32 => assert("__s32"@ =~= "__s"@ + seq!['3', '2']),
    }
}

/// Variable `id` is the result of a map lookup.
pub open spec fn lookup_result(bs: Seq<BasicBlock>, id: u32) -> bool {
    exists|b: int, i: int| 0 <= b < bs.len() && 0 <= i < bs[b].instructions@.len()
        && (#[trigger] bs[b].instructions@[i]).result.0 == id && bs[b].instructions@[i].opcode is CallMap
}

/// The declaration of the local of variable `id`, zero-initialised; a
/// lookup result is a pointer.
pub open spec fn var_decl_text(bs: Seq<BasicBlock>, id: u32) -> Seq<char> {
    let t = match type_in_blocks(bs, id) {
        Some(t) => t,
        None => Type::U64,
    };
    "    "@ + c_type(t) + (if lookup_result(bs, id) { " *"@ } else { " "@ }) + var_text(id) + " = 0;\n"@
}

/// The declarations of the locals of `ids`, in order.
pub open spec fn var_decls_text(bs: Seq<BasicBlock>, ids: Seq<u32>) -> Seq<char>
    decreases ids.len(),
{
    if ids.len() == 0 {
        Seq::empty()
    } else {
        var_decls_text(bs, ids.drop_last()) + var_decl_text(bs, ids.last())
    }
}

/// The declarations of the temporaries, in order.
pub open spec fn temp_decls_text(ts: Seq<TempEntry>) -> Seq<char>
    decreases ts.len(),
{
    if ts.len() == 0 {
        Seq::empty()
    } else {
        temp_decls_text(ts.drop_last()) + "    __u64 "@ + ts.last().name + " = "@ + signed_decimal(ts.last().init as int) + ";\n"@
    }
}

/// All declarations, and a blank line after them when there are any.
pub open spec fn decls_text(bs: Seq<BasicBlock>, used: Seq<u32>, ts: Seq<TempEntry>) -> Seq<char> {
    var_decls_text(bs, used) + temp_decls_text(ts) + (if used.len() > 0 || ts.len() > 0 { "\n"@ } else { Seq::empty() })
}

/// The variables the blocks read, each once, in increasing order.
pub open spec fn used_vars(bs: Seq<BasicBlock>) -> Seq<u32> {
    choose|s: Seq<u32>| strictly_sorted(s) && s.to_set() == blocks_ids(bs, false).to_set()
}

/// The body of the function between its header and the shared failure
/// block: the declarations, a jump to the first block, and the blocks.
pub open spec fn c_body(bs: Seq<BasicBlock>) -> Result<Seq<char>, Seq<char>> {
    let used = used_vars(bs);
    let ts = temps_of(flat(bs));
    match blocks_text(bs, bs, used, branch_ids(bs), ts) {
        Err(m) => Err(m),
        Ok(t) => Ok(decls_text(bs, used, ts) + "    goto "@ + label_text(bs[0].id.0) + ";\n\n"@ + t),
    }
}

/// `r` is the text `res` gives, or its failure.
pub open spec fn text_as(res: Result<Seq<char>, Seq<char>>, r: Result<String, String>) -> bool {
    match res {
        Ok(t) => r matches Ok(s) && s@ == t,
        Err(m) => r matches Err(e) && e@ == m,
    }
}

fn push_operand(out: &mut String, op: &Operand)
    ensures
        final(out)@ == old(out)@ + operand_text(*op),
{
    match op {
        Operand::Var(VarId(id)) => push_var(out, *id),
        Operand::Immediate(v) => push_signed_decimal(out, *v),
    }
}

fn push_var(out: &mut String, id: u32)
    ensures
        final(out)@ == old(out)@ + var_text(id),
{
    out.append("v");
    push_decimal(out, id as u64);
    assert(out@ =~= old(out)@ + var_text(id));
}

/// A temporary holding an immediate whose address a map call needs: the
/// instruction it serves, whether it is the key, and its name.
struct Temp {
    inst: u32,
    is_key: bool,
    name: String,
    init: i64,
}

/// The temporaries as the rendering reads them.
spec fn temp_entries(ts: Seq<Temp>) -> Seq<TempEntry> {
    ts.map_values(|t: Temp| TempEntry { inst: t.inst, is_key: t.is_key, name: t.name@, init: t.init })
}

fn find_temp(temps: &Vec<Temp>, inst: u32, is_key: bool) -> (r: Option<usize>)
    ensures
        r matches Some(k) ==> k < temps@.len(),
        match first_temp_from(temp_entries(temps@), 0, inst, is_key) {
            Some(k) => r matches Some(j) && j == k,
            None => r is None,
        },
{
    let ghost te = temp_entries(temps@);
    let mut k: usize = 0;
    while k < temps.len()
        invariant
            k <= temps@.len(),
            te == temp_entries(temps@),
            te.len() == temps@.len(),
            first_temp_from(te, 0, inst, is_key) == first_temp_from(te, k as int, inst, is_key),
        decreases temps@.len() - k,
    {
        if temps[k].inst == inst && temps[k].is_key == is_key {
            return Some(k);
        }
        k = k + 1;
    }
    None
}

fn new_temp(temps: &mut Vec<Temp>, counter: &mut u32, inst: u32, is_key: bool, init: i64)
    ensures
        temp_entries(final(temps)@) == temp_entries(old(temps)@).push(
            TempEntry { inst, is_key, name: temp_name(*old(counter)), init }),
        *final(counter) == old(counter).wrapping_add(1),
{
    let mut name = owned("__tmp");
    push_decimal(&mut name, *counter as u64);
    assert(name@ =~= temp_name(*counter));
    *counter = counter.wrapping_add(1);
    temps.push(Temp { inst, is_key, name, init });
    assert(temp_entries(temps@) =~= temp_entries(old(temps)@).push(TempEntry { inst, is_key, name: temp_name(*old(counter)), init }));
}

fn addr_string(op: &Operand, temps: &Vec<Temp>, inst: u32, is_key: bool) -> (r: Result<String, String>)
    ensures
        match addr_text(*op, temp_entries(temps@), inst, is_key) {
            Ok(t) => r matches Ok(s) && s@ == t,
            Err(m) => r matches Err(e) && e@ == m,
        },
{
    match op {
        Operand::Var(VarId(id)) => {
            let mut s = owned("&");
            push_var(&mut s, *id);
            assert(s@ == "&"@ + var_text(*id));
            Ok(s)
        },
        Operand::Immediate(_) => match find_temp(temps, inst, is_key) {
            Some(k) => {
                let mut s = owned("&");
                s.append(temps[k as usize].name.as_str());
                proof {
                    let te = temp_entries(temps@);
                    assert(te[k as int].name == temps@[k as int].name@);
                    assert(first_temp_from(te, 0, inst, is_key) == Some(k as int));
                }
                Ok(s)
            },
            None => if is_key {
                Err(owned("internal error: missing temp for immediate key"))
            } else {
                Err(owned("internal error: missing temp for immediate value"))
            },
        },
    }
}

fn type_in_block(insts: &Vec<Instruction>, id: u32) -> (r: Option<Type>)
    ensures
        r == type_in_insts(insts@, id),
{
    let mut i: usize = 0;
    assert(insts@.subrange(0, insts@.len() as int) == insts@);
    while i < insts.len()
        invariant
            i <= insts@.len(),
            type_in_insts(insts@, id) == type_in_insts(insts@.subrange(i as int, insts@.len() as int), id),
        decreases insts@.len() - i,
    {
        let ghost rest = insts@.subrange(i as int, insts@.len() as int);
        assert(rest[0] == insts@[i as int]);
        assert(rest.drop_first() == insts@.subrange(i + 1, insts@.len() as int));
        if insts[i].result.0 == id {
            return Some(insts[i].result_type);
        }
        i = i + 1;
    }
    None
}

fn type_of_var(blocks: &Vec<BasicBlock>, id: u32) -> (r: Type)
    ensures
        r == (match type_in_blocks(blocks@, id) {
            Some(t) => t,
            None => Type::U64,
        }),
{
    let mut b: usize = 0;
    assert(blocks@.subrange(0, blocks@.len() as int) == blocks@);
    while b < blocks.len()
        invariant
            b <= blocks@.len(),
            type_in_blocks(blocks@, id) == type_in_blocks(blocks@.subrange(b as int, blocks@.len() as int), id),
        decreases blocks@.len() - b,
    {
        let ghost rest = blocks@.subrange(b as int, blocks@.len() as int);
        assert(rest[0] == blocks@[b as int]);
        assert(rest.drop_first() == blocks@.subrange(b + 1, blocks@.len() as int));
        match type_in_block(&blocks[b].instructions, id) {
            Some(t) => return t,
            None => {},
        }
        b = b + 1;
    }
    Type::U64
}

fn has_block(blocks: &Vec<BasicBlock>, id: u32) -> (r: bool)
    ensures
        r == exists|c: int| 0 <= c < blocks@.len() && blocks@[c].id.0 == id,
        r == block_named(blocks@, id),
{
    let mut c: usize = 0;
    while c < blocks.len()
        invariant
            c <= blocks@.len(),
            forall|d: int| 0 <= d < c ==> blocks@[d].id.0 != id,
        decreases blocks@.len() - c,
    {
        if blocks[c].id.0 == id {
            return true;
        }
        c = c + 1;
    }
    false
}

fn push_block_label(out: &mut String, id: u32)
    ensures
        final(out)@ == old(out)@ + label_text(id),
{
    out.append("__block_");
    push_decimal(out, id as u64);
    assert(out@ =~= old(out)@ + label_text(id));
}

/// The C statements of one instruction (empty when it is skipped).
fn render_inst(inst: &Instruction, used: &Vec<u32>, branch_vars: &Vec<u32>, temps: &Vec<Temp>, inst_index: u32) -> (r: Result<String, String>)
    ensures
        text_as(inst_text(*inst, used@, branch_vars@, temp_entries(temps@), inst_index), r),
{
    let mut text = String::new();
    let res_used = contains_u32(used, inst.result.0);
    let is_side_effect = match &inst.opcode {
        Opcode::Store { .. } | Opcode::UpdateMap { .. } | Opcode::NullCheck => true,
        _ => false,
    };
    if is_side_effect || res_used {
        match &inst.opcode {
            Opcode::Binary { op } => {
                if inst.operands.len() >= 2 {
                    let op_str = match op {
                        BinaryOp::Add => "+",
                        BinaryOp::Sub => "-",
                        BinaryOp::Mul => "*",
                        BinaryOp::Div => "/",
                        BinaryOp::Mod => "%",
                        BinaryOp::Shl => "<<",
                        BinaryOp::Shr => ">>",
                    };
                    text.append("    ");
                    push_var(&mut text, inst.result.0);
                    text.append(" = ");
                    push_operand(&mut text, &inst.operands[0]);
                    text.append(" ");
                    text.append(op_str);
                    text.append(" ");
                    push_operand(&mut text, &inst.operands[1]);
                    text.append(";\n");
                }
            },
            Opcode::LoadKey => {
                if inst.operands.len() > 0 {
                    text.append("    ");
                    push_var(&mut text, inst.result.0);
                    text.append(" = *");
                    push_operand(&mut text, &inst.operands[0]);
                    text.append(";\n");
                }
            },
            Opcode::Store { .. } => {
                if inst.operands.len() >= 2 {
                    text.append("    *");
                    push_operand(&mut text, &inst.operands[0]);
                    text.append(" = ");
                    push_operand(&mut text, &inst.operands[1]);
                    text.append(";\n");
                }
            },
            Opcode::LoadCtx { offset, size } | Opcode::LoadPacket { offset, size } => {
                text.append("    ");
                push_var(&mut text, inst.result.0);
                text.append(" = *(__u");
                push_decimal(&mut text, size.wrapping_mul(8) as u64);
                text.append(" *)((__u8 *)ctx + (");
                push_signed_decimal(&mut text, *offset as i64);
                text.append("));\n");
            },
            Opcode::HelperCall { id } => {
                let call_expr = if *id == 5 {
                    "bpf_ktime_get_ns()"
                } else if *id == 14 {
                    "bpf_get_current_pid_tgid()"
                } else if *id == 15 {
                    "bpf_get_current_uid_gid()"
                } else if *id == 35 {
                    "bpf_get_current_task()"
                } else {
                    "0"
                };
                text.append("    ");
                push_var(&mut text, inst.result.0);
                text.append(" = ");
                text.append(call_expr);
                text.append(";\n");
            },
            Opcode::CallMap { map_name } => {
                if inst.operands.len() > 0 {
                    let key_addr = addr_string(&inst.operands[0], temps, inst_index, true)?;
                    text.append("    ");
                    push_var(&mut text, inst.result.0);
                    text.append(" = bpf_map_lookup_elem(&");
                    text.append(map_name.as_str());
                    text.append(", ");
                    text.append(key_addr.as_str());
                    text.append(");\n");
                }
            },
            Opcode::UpdateMap { map_name } => {
                if inst.operands.len() >= 2 {
                    let key_addr = addr_string(&inst.operands[0], temps, inst_index, true)?;
                    let val_addr = addr_string(&inst.operands[1], temps, inst_index, false)?;
                    if res_used {
                        text.append("    ");
                        push_var(&mut text, inst.result.0);
                        text.append(" = bpf_map_update_elem(&");
                    } else {
                        text.append("    (void)bpf_map_update_elem(&");
                    }
                    text.append(map_name.as_str());
                    text.append(", ");
                    text.append(key_addr.as_str());
                    text.append(", ");
                    text.append(val_addr.as_str());
                    text.append(", 0);\n");
                }
            },
            Opcode::NullCheck => {
                if inst.operands.len() > 0 {
                    if contains_u32(branch_vars, inst.result.0) {
                        text.append("    ");
                        push_var(&mut text, inst.result.0);
                        text.append(" = (");
                        push_operand(&mut text, &inst.operands[0]);
                        text.append(" != 0);\n");
                    } else {
                        text.append("    if (!(");
                        push_operand(&mut text, &inst.operands[0]);
                        text.append(")) goto __solnix_null_fail;\n");
                        if res_used {
                            text.append("    ");
                            push_var(&mut text, inst.result.0);
                            text.append(" = 1;\n");
                        }
                    }
                }
            },
            Opcode::CopyCtxToMem { .. } | Opcode::RingBufReserve { .. } | Opcode::RingBufSubmit { .. } => {
                return Err(owned("the C backend does not support this instruction"));
            },
        }
    }
    proof {
        let t = inst_text(*inst, used@, branch_vars@, temp_entries(temps@), inst_index);
        assert(t is Ok);
        assert(text@ =~= t->Ok_0);
    }
    Ok(text)
}

/// The C statement of a terminator; jumps and branches must name blocks of
/// the unit.
fn render_terminator(blocks: &Vec<BasicBlock>, term: &Terminator) -> (r: Result<String, String>)
    ensures
        text_as(term_text(blocks@, *term), r),
        r is Ok ==> match *term {
            Terminator::Jump(t) => exists|e: int| 0 <= e < blocks@.len() && blocks@[e].id == t,
            Terminator::Branch { true_block, false_block, .. } =>
                (exists|e: int| 0 <= e < blocks@.len() && blocks@[e].id == true_block)
                && (exists|e: int| 0 <= e < blocks@.len() && blocks@[e].id == false_block),
            Terminator::Return(_) => true,
        },
{
    let mut line = String::new();
    match term {
        Terminator::Return(op) => {
            line.append("    return ");
            push_operand(&mut line, op);
            line.append(";\n");
        },
        Terminator::Jump(target) => {
            if !has_block(blocks, target.0) {
                let mut m = owned("Invalid jump target: BlockId(");
                push_decimal(&mut m, target.0 as u64);
                m.append(")");
                assert(m@ =~= term_text(blocks@, *term)->Err_0);
                return Err(m);
            }
            line.append("    goto ");
            push_block_label(&mut line, target.0);
            line.append(";\n");
        },
        Terminator::Branch { condition, true_block, false_block } => {
            if !has_block(blocks, true_block.0) || !has_block(blocks, false_block.0) {
                return Err(owned("Invalid branch targets"));
            }
            line.append("    if (");
            push_operand(&mut line, condition);
            line.append(") goto ");
            push_block_label(&mut line, true_block.0);
            line.append("; else goto ");
            push_block_label(&mut line, false_block.0);
            line.append(";\n");
        },
    }
    line.append("\n");
    proof {
        let t = term_text(blocks@, *term);
        assert(t is Ok);
        assert(line@ =~= t->Ok_0);
    }
    Ok(line)
}

/// The declarations of the used variables and of the temporaries.
fn render_decls(blocks: &Vec<BasicBlock>, used: &Vec<u32>, temps: &Vec<Temp>) -> (r: String)
    ensures
        r@ == decls_text(blocks@, used@, temp_entries(temps@)),
{
    let mut out = String::new();
    let mut d: usize = 0;
    assert(used@.subrange(0, 0) == Seq::<u32>::empty());
    while d < used.len()
        invariant
            d <= used@.len(),
            out@ == var_decls_text(blocks@, used@.subrange(0, d as int)),
        decreases used@.len() - d,
    {
        let id = used[d];
        let ty = type_of_var(blocks, id);
        let c_ty = match ty {
            Type::U64 => "__u64",
            Type::U32 => "__u32",
            Type::I64 => "__s64",
            Type::I32 => "__s32",
        };
        let is_ptr = is_lookup_result(blocks, id);
        let ghost before = out@;
        out.append("    ");
        out.append(c_ty);
        if is_ptr {
            out.append(" *");
        } else {
            out.append(" ");
        }
        push_var(&mut out, id);
        out.append(" = 0;\n");
        proof {
            assert(out@ =~= before + var_decl_text(blocks@, id));
            assert(used@.subrange(0, d + 1).drop_last() == used@.subrange(0, d as int));
        }
        d = d + 1;
    }
    assert(used@.subrange(0, used@.len() as int) == used@);
    let ghost te = temp_entries(temps@);
    let ghost vars_part = out@;
    let mut t: usize = 0;
    assert(te.subrange(0, 0) == Seq::<TempEntry>::empty());
    while t < temps.len()
        invariant
            t <= temps@.len(),
            te == temp_entries(temps@),
            te.len() == temps@.len(),
            out@ == vars_part + temp_decls_text(te.subrange(0, t as int)),
        decreases temps@.len() - t,
    {
        let ghost before = out@;
        out.append("    __u64 ");
        out.append(temps[t].name.as_str());
        out.append(" = ");
        push_signed_decimal(&mut out, temps[t].init);
        out.append(";\n");
        proof {
            let pre = te.subrange(0, t + 1);
            assert(pre.drop_last() == te.subrange(0, t as int));
            assert(pre.last() == te[t as int]);
            assert(out@ =~= vars_part + temp_decls_text(pre));
        }
        t = t + 1;
    }
    assert(te.subrange(0, te.len() as int) == te);
    if used.len() > 0 || temps.len() > 0 {
        out.append("\n");
    }
    assert(out@ =~= decls_text(blocks@, used@, te));
    out
}

/// Whether variable `id` is the result of a map lookup.
fn is_lookup_result(blocks: &Vec<BasicBlock>, id: u32) -> (r: bool)
    ensures
        r == lookup_result(blocks@, id),
{
    let mut is_ptr = false;
    let mut pb: usize = 0;
    while pb < blocks.len()
        invariant
            pb <= blocks@.len(),
            is_ptr == exists|b: int, i: int| 0 <= b < pb && 0 <= i < blocks@[b].instructions@.len()
                && (#[trigger] blocks@[b].instructions@[i]).result.0 == id && blocks@[b].instructions@[i].opcode is CallMap,
        decreases blocks@.len() - pb,
    {
        let mut pi: usize = 0;
        while pi < blocks[pb].instructions.len()
            invariant
                pb < blocks@.len(),
                pi <= blocks@[pb as int].instructions@.len(),
                is_ptr == ((exists|b: int, i: int| 0 <= b < pb && 0 <= i < blocks@[b].instructions@.len()
                    && (#[trigger] blocks@[b].instructions@[i]).result.0 == id && blocks@[b].instructions@[i].opcode is CallMap)
                    || (exists|i: int| 0 <= i < pi && (#[trigger] blocks@[pb as int].instructions@[i]).result.0 == id
                    && blocks@[pb as int].instructions@[i].opcode is CallMap)),
            decreases blocks@[pb as int].instructions@.len() - pi,
        {
            let inst = &blocks[pb].instructions[pi];
            if inst.result.0 == id {
                if let Opcode::CallMap { .. } = &inst.opcode {
                    is_ptr = true;
                }
            }
            pi = pi + 1;
        }
        pb = pb + 1;
    }
    is_ptr
}

/// Adds the temporaries instruction `inst`, the `inst_index`-th, needs.
fn add_temps(temps: &mut Vec<Temp>, counter: &mut u32, inst: &Instruction, inst_index: u32)
    requires
        *old(counter) == inst_number(old(temps)@.len() as int),
    ensures
        temp_entries(final(temps)@) == temp_entries(old(temps)@) + inst_temps(*inst, inst_index, old(temps)@.len() as int),
        *final(counter) == inst_number(final(temps)@.len() as int),
{
    let ghost t0 = temp_entries(temps@);
    match &inst.opcode {
        Opcode::CallMap { .. } => {
            if inst.operands.len() > 0 {
                if let Operand::Immediate(v) = inst.operands[0] {
                    new_temp(temps, counter, inst_index, true, v);
                    proof { lemma_inst_number_next(t0.len() as int); }
                }
            }
        },
        Opcode::UpdateMap { .. } => {
            if inst.operands.len() >= 2 {
                if let Operand::Immediate(v) = inst.operands[0] {
                    new_temp(temps, counter, inst_index, true, v);
                    proof { lemma_inst_number_next(t0.len() as int); }
                }
                let ghost t1 = temp_entries(temps@);
                if let Operand::Immediate(v) = inst.operands[1] {
                    new_temp(temps, counter, inst_index, false, v);
                    proof { lemma_inst_number_next(t1.len() as int); }
                }
            }
        },
        _ => {},
    }
    assert(temp_entries(temps@) =~= t0 + inst_temps(*inst, inst_index, t0.len() as int));
}

proof fn lemma_inst_number_next(p: int)
    requires
        p >= 0,
    ensures
        inst_number(p + 1) == inst_number(p).wrapping_add(1),
{
    let m: int = 0x1_0000_0000;
    assert((p + 1) % m == (if p % m == m - 1 { 0 } else { p % m + 1 })) by (nonlinear_arith)
        requires
            p >= 0,
            m == 0x1_0000_0000,
    ;
}

/// A failure in a prefix of a run of instructions is the run's failure.
proof fn lemma_insts_err_extends(insts: Seq<Instruction>, k: int, start: int, used: Seq<u32>, bvars: Seq<u32>, ts: Seq<TempEntry>)
    requires
        0 <= k <= insts.len(),
        insts_text(insts.subrange(0, k), start, used, bvars, ts) is Err,
    ensures
        insts_text(insts, start, used, bvars, ts) == insts_text(insts.subrange(0, k), start, used, bvars, ts),
    decreases insts.len(),
{
    if k < insts.len() {
        let init = insts.drop_last();
        assert(init.subrange(0, k) == insts.subrange(0, k));
        lemma_insts_err_extends(init, k, start, used, bvars, ts);
    } else {
        assert(insts.subrange(0, k) == insts);
    }
}

/// Rendered blocks have terminators that name blocks of the unit.
proof fn lemma_targets_rendered(all: Seq<BasicBlock>, bs: Seq<BasicBlock>, used: Seq<u32>, bvars: Seq<u32>, ts: Seq<TempEntry>)
    requires
        blocks_text(all, bs, used, bvars, ts) is Ok,
    ensures
        forall|c: int| 0 <= c < bs.len() ==> term_text(all, (#[trigger] bs[c]).terminator) is Ok,
    decreases bs.len(),
{
    if bs.len() > 0 {
        lemma_targets_rendered(all, bs.drop_last(), used, bvars, ts);
        assert forall|c: int| 0 <= c < bs.len() implies term_text(all, (#[trigger] bs[c]).terminator) is Ok by {
            if c < bs.len() - 1 {
                assert(bs[c] == bs.drop_last()[c]);
            }
        }
    }
}

/// A failure in a prefix of the blocks is the failure of all of them.
proof fn lemma_blocks_err_extends(all: Seq<BasicBlock>, bs: Seq<BasicBlock>, k: int, used: Seq<u32>, bvars: Seq<u32>, ts: Seq<TempEntry>)
    requires
        0 <= k <= bs.len(),
        blocks_text(all, bs.subrange(0, k), used, bvars, ts) is Err,
    ensures
        blocks_text(all, bs, used, bvars, ts) == blocks_text(all, bs.subrange(0, k), used, bvars, ts),
    decreases bs.len(),
{
    if k < bs.len() {
        let init = bs.drop_last();
        assert(init.subrange(0, k) == bs.subrange(0, k));
        lemma_blocks_err_extends(all, init, k, used, bvars, ts);
    } else {
        assert(bs.subrange(0, k) == bs);
    }
}

/// The statements of a block's instructions, the first of which is the
/// `start`-th of the unit.
fn render_block_insts(
    insts: &Vec<Instruction>,
    Ghost(start): Ghost<int>,
    index: &mut u32,
    used: &Vec<u32>,
    branch_vars: &Vec<u32>,
    temps: &Vec<Temp>,
) -> (r: Result<String, String>)
    requires
        start >= 0,
        *old(index) == inst_number(start),
    ensures
        text_as(insts_text(insts@, start, used@, branch_vars@, temp_entries(temps@)), r),
        r is Ok ==> *final(index) == inst_number(start + insts@.len()),
{
    let ghost uv = used@;
    let ghost bv = branch_vars@;
    let ghost ts = temp_entries(temps@);
    let mut text = String::new();
    let mut inst_index = *index;
    let mut i: usize = 0;
    assert(insts@.subrange(0, 0) == Seq::<Instruction>::empty());
    assert(text@ =~= Seq::<char>::empty());
    while i < insts.len()
        invariant
            uv == used@,
            bv == branch_vars@,
            ts == temp_entries(temps@),
            i <= insts@.len(),
            start >= 0,
            inst_index == inst_number(start + i),
            insts_text(insts@.subrange(0, i as int), start, uv, bv, ts) is Ok,
            text@ == insts_text(insts@.subrange(0, i as int), start, uv, bv, ts)->Ok_0,
        decreases insts@.len() - i,
    {
        let ghost sub = insts@.subrange(0, i + 1);
        proof {
            assert(sub.drop_last() == insts@.subrange(0, i as int));
            assert(sub.last() == insts@[i as int]);
        }
        let line = match render_inst(&insts[i], used, branch_vars, temps, inst_index) {
            Ok(line) => line,
            Err(e) => {
                proof { lemma_insts_err_extends(insts@, i + 1, start, uv, bv, ts); }
                return Err(e);
            },
        };
        text.append(line.as_str());
        proof {
            assert(text@ =~= insts_text(sub, start, uv, bv, ts)->Ok_0);
            lemma_inst_number_next(start + i);
        }
        inst_index = inst_index.wrapping_add(1);
        i = i + 1;
    }
    assert(insts@.subrange(0, insts@.len() as int) == insts@);
    *index = inst_index;
    Ok(text)
}

/// Every labelled block of the unit, in order.
#[verifier::rlimit(30)]
fn render_blocks(blocks: &Vec<BasicBlock>, used: &Vec<u32>, branch_vars: &Vec<u32>, temps: &Vec<Temp>) -> (r: Result<String, String>)
    ensures
        text_as(blocks_text(blocks@, blocks@, used@, branch_vars@, temp_entries(temps@)), r),
{
    let ghost bs = blocks@;
    let ghost uv = used@;
    let ghost bv = branch_vars@;
    let ghost ts = temp_entries(temps@);
    let mut body = String::new();
    let mut first_index: u32 = 0;
    let mut bi: usize = 0;
    assert(bs.subrange(0, 0) == Seq::<BasicBlock>::empty());
    assert(body@ =~= Seq::<char>::empty());
    while bi < blocks.len()
        invariant
            bi <= bs.len(),
            bs == blocks@,
            uv == used@,
            bv == branch_vars@,
            ts == temp_entries(temps@),
            first_index == inst_number(flat(bs.subrange(0, bi as int)).len() as int),
            blocks_text(bs, bs.subrange(0, bi as int), uv, bv, ts) is Ok,
            body@ == blocks_text(bs, bs.subrange(0, bi as int), uv, bv, ts)->Ok_0,
        decreases bs.len() - bi,
    {
        let block = &blocks[bi];
        let ghost prefix = bs.subrange(0, bi as int);
        let ghost start_idx = flat(prefix).len() as int;
        proof {
            assert(bs.subrange(0, bi + 1).drop_last() == prefix);
            assert(bs.subrange(0, bi + 1).last() == *block);
        }
        let insts = match render_block_insts(&block.instructions, Ghost(start_idx), &mut first_index, used, branch_vars, temps) {
            Ok(t) => t,
            Err(e) => {
                proof { lemma_blocks_err_extends(bs, bs, bi + 1, uv, bv, ts); }
                return Err(e);
            },
        };
        let term = match render_terminator(blocks, &block.terminator) {
            Ok(t) => t,
            Err(e) => {
                proof { lemma_blocks_err_extends(bs, bs, bi + 1, uv, bv, ts); }
                return Err(e);
            },
        };
        push_block_label(&mut body, block.id.0);
        body.append(":\n");
        body.append(insts.as_str());
        body.append(term.as_str());
        proof {
            assert(body@ =~= blocks_text(bs, bs.subrange(0, bi + 1), uv, bv, ts)->Ok_0);
            assert(flat(bs.subrange(0, bi + 1)) == flat(prefix) + block.instructions@);
        }
        bi = bi + 1;
    }
    assert(bs.subrange(0, bs.len() as int) == bs);
    Ok(body)
}

/// Writes the C rendering of a tracepoint unit to `out`: the license line,
/// the `SEC` attribute and function header, declarations of the used
/// variables and of temporaries for immediates whose address is taken, one
/// labelled block per IR block, and the shared null-check failure block.
/// Every jump and branch must name a block of the unit.
pub fn emit_tracepoint(out: &mut String, unit: &UnitIr, sec: &str) -> (r: Result<(), String>)
    requires
        unit.blocks@.len() > 0,
    ensures
        r is Ok ==> targets_known(unit.blocks@),
        match c_body(unit.blocks@) {
            Ok(t) => r is Ok && final(out)@ == old(out)@ + c_license(unit.license@) + c_header(sec@, unit.name@) + t + c_footer(),
            Err(m) => r matches Err(e) && e@ == m
                && final(out)@ == old(out)@ + c_license(unit.license@) + c_header(sec@, unit.name@),
        },
{
    out.append("char LICENSE[] SEC(\"license\") = \"");
    out.append(unit.license.as_str());
    out.append("\";\n\n");
    out.append("SEC(\"");
    out.append(sec);
    out.append("\")\nint ");
    out.append(unit.name.as_str());
    out.append("(void *ctx) {\n    (void)ctx;\n\n");
    let ghost start = out@;
    assert(start =~= old(out)@ + c_license(unit.license@) + c_header(sec@, unit.name@));
    let ghost bs = unit.blocks@;

    let used_all = collect_var_ids(&unit.blocks, false);
    let used = sorted_unique(&used_all);
    proof {
        let w = used_vars(bs);
        assert(strictly_sorted(w) && w.to_set() == blocks_ids(bs, false).to_set());
        crate::emit::vars::lemma_sorted_same_set(used@, w);
    }
    let branch_vars = branch_condition_vars(&unit.blocks);

    // Temporaries for immediates whose address a map call takes.
    let mut temps: Vec<Temp> = Vec::new();
    let mut temp_counter: u32 = 0;
    let mut inst_index: u32 = 0;
    let mut b: usize = 0;
    assert(temp_entries(temps@) =~= Seq::<TempEntry>::empty());
    assert(bs.subrange(0, 0) == Seq::<BasicBlock>::empty());
    while b < unit.blocks.len()
        invariant
            b <= bs.len(),
            bs == unit.blocks@,
            temp_entries(temps@) == temps_of(flat(bs.subrange(0, b as int))),
            inst_index == inst_number(flat(bs.subrange(0, b as int)).len() as int),
            temp_counter == inst_number(temps@.len() as int),
        decreases bs.len() - b,
    {
        let block = &unit.blocks[b];
        let ghost pre = flat(bs.subrange(0, b as int));
        let mut i: usize = 0;
        assert(block.instructions@.subrange(0, 0) == Seq::<Instruction>::empty());
        assert(pre + block.instructions@.subrange(0, 0) == pre);
        while i < block.instructions.len()
            invariant
                b < bs.len(),
                bs == unit.blocks@,
                *block == bs[b as int],
                pre == flat(bs.subrange(0, b as int)),
                i <= block.instructions@.len(),
                temp_entries(temps@) == temps_of(pre + block.instructions@.subrange(0, i as int)),
                inst_index == inst_number(pre.len() + i),
                temp_counter == inst_number(temps@.len() as int),
            decreases block.instructions@.len() - i,
        {
            let inst = &block.instructions[i];
            let ghost f = pre + block.instructions@.subrange(0, i as int);
            let ghost t0 = temp_entries(temps@);
            proof {
                assert(f.len() == pre.len() + i);
                assert((pre + block.instructions@.subrange(0, i + 1)).drop_last() == f);
                assert((pre + block.instructions@.subrange(0, i + 1)).last() == *inst);
            }
            add_temps(&mut temps, &mut temp_counter, inst, inst_index);
            proof { lemma_inst_number_next(pre.len() + i); }
            inst_index = inst_index.wrapping_add(1);
            i = i + 1;
        }
        proof {
            assert(block.instructions@.subrange(0, block.instructions@.len() as int) == block.instructions@);
            assert(bs.subrange(0, b + 1).drop_last() == bs.subrange(0, b as int));
            assert(bs.subrange(0, b + 1).last() == bs[b as int]);
        }
        b = b + 1;
    }
    assert(bs.subrange(0, bs.len() as int) == bs);
    let ghost ts = temp_entries(temps@);
    let ghost uv = used@;
    let ghost bv = branch_vars@;

    let decls = render_decls(&unit.blocks, &used, &temps);
    let mut body = decls;
    body.append("    goto ");
    push_block_label(&mut body, unit.blocks[0].id.0);
    body.append(";\n\n");
    let ghost head = body@;
    assert(head =~= decls_text(bs, uv, ts) + "    goto "@ + label_text(bs[0].id.0) + ";\n\n"@);

    let rendered = match render_blocks(&unit.blocks, &used, &branch_vars, &temps) {
        Ok(t) => t,
        Err(e) => {
            return Err(e);
        },
    };
    body.append(rendered.as_str());
    out.append(body.as_str());
    out.append("__solnix_null_fail:\n    return 0;\n}\n");
    assert(out@ =~= old(out)@ + c_license(unit.license@) + c_header(sec@, unit.name@) + body@ + c_footer());
    assert(body@ =~= decls_text(bs, uv, ts) + "    goto "@ + label_text(bs[0].id.0) + ";\n\n"@ + blocks_text(bs, bs, uv, bv, ts)->Ok_0);
    proof {
        lemma_targets_rendered(bs, bs, uv, bv, ts);
        assert forall|c: int| 0 <= c < bs.len() implies match (#[trigger] bs[c]).terminator {
            Terminator::Jump(t) => exists|e: int| 0 <= e < bs.len() && bs[e].id == t,
            Terminator::Branch { true_block, false_block, .. } =>
                (exists|e: int| 0 <= e < bs.len() && bs[e].id == true_block)
                && (exists|e: int| 0 <= e < bs.len() && bs[e].id == false_block),
            Terminator::Return(_) => true,
        } by {
            assert(term_text(bs, bs[c].terminator) is Ok);
        }
    }
    Ok(())
}

} // verus!
