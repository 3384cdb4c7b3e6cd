//! The IR variables a unit mentions, as the back ends collect them to lay
//! out stack slots or declarations.
use vstd::prelude::*;
use crate::ir::instruction::{Instruction, Operand};
use crate::ir::unit::{BasicBlock, Terminator};

verus! {

/// The variables among `ops`, in order.
pub open spec fn operand_ids(ops: Seq<Operand>) -> Seq<u32>
    decreases ops.len(),
{
    if ops.len() == 0 {
        Seq::empty()
    } else {
        operand_ids(ops.drop_last()) + match ops.last() {
            Operand::Var(v) => seq![v.0],
            Operand::Immediate(_) => Seq::empty(),
        }
    }
}

/// The variables an instruction mentions: its result (when asked for) and
/// its variable operands.
pub open spec fn inst_ids(i: Instruction, with_results: bool) -> Seq<u32> {
    (if with_results { seq![i.result.0] } else { Seq::empty() }) + operand_ids(i.operands@)
}

/// The variables of a run of instructions, in order.
pub open spec fn insts_ids(s: Seq<Instruction>, with_results: bool) -> Seq<u32>
    decreases s.len(),
{
    if s.len() == 0 {
        Seq::empty()
    } else {
        insts_ids(s.drop_last(), with_results) + inst_ids(s.last(), with_results)
    }
}

/// The variable a terminator reads, if any.
pub open spec fn term_ids(t: Terminator) -> Seq<u32> {
    match t {
        Terminator::Return(Operand::Var(v)) => seq![v.0],
        Terminator::Branch { condition: Operand::Var(v), .. } => seq![v.0],
        _ => Seq::empty(),
    }
}

/// The variables of the blocks, block by block, terminators included.
pub open spec fn blocks_ids(blocks: Seq<BasicBlock>, with_results: bool) -> Seq<u32>
    decreases blocks.len(),
{
    if blocks.len() == 0 {
        Seq::empty()
    } else {
        blocks_ids(blocks.drop_last(), with_results) + insts_ids(blocks.last().instructions@, with_results)
            + term_ids(blocks.last().terminator)
    }
}

/// The variables that are branch conditions, block by block.
pub open spec fn branch_ids(blocks: Seq<BasicBlock>) -> Seq<u32>
    decreases blocks.len(),
{
    if blocks.len() == 0 {
        Seq::empty()
    } else {
        branch_ids(blocks.drop_last()) + match blocks.last().terminator {
            Terminator::Branch { condition: Operand::Var(v), .. } => seq![v.0],
            _ => Seq::empty(),
        }
    }
}

/// `s` is strictly increasing.
pub open spec fn strictly_sorted(s: Seq<u32>) -> bool {
    forall|i: int, j: int| 0 <= i < j < s.len() ==> s[i] < s[j]
}

fn push_operand_ids(out: &mut Vec<u32>, ops: &Vec<Operand>)
    ensures
        final(out)@ == old(out)@ + operand_ids(ops@),
{
    let ghost start = out@;
    let mut k: usize = 0;
    while k < ops.len()
        invariant
            k <= ops@.len(),
            out@ == start + operand_ids(ops@.subrange(0, k as int)),
        decreases ops@.len() - k,
    {
        assert(ops@.subrange(0, k + 1).drop_last() =~= ops@.subrange(0, k as int));
        match ops[k] {
            Operand::Var(v) => out.push(v.0),
            Operand::Immediate(_) => {},
        }
        k = k + 1;
        assert(out@ =~= start + operand_ids(ops@.subrange(0, k as int)));
    }
    assert(ops@.subrange(0, ops@.len() as int) =~= ops@);
}

/// Every variable the blocks mention, in order, with repeats; results are
/// included when `with_results` holds.
pub fn collect_var_ids(blocks: &Vec<BasicBlock>, with_results: bool) -> (r: Vec<u32>)
    ensures
        r@ == blocks_ids(blocks@, with_results),
{
    let mut out: Vec<u32> = Vec::new();
    let mut b: usize = 0;
    while b < blocks.len()
        invariant
            b <= blocks@.len(),
            out@ == blocks_ids(blocks@.subrange(0, b as int), with_results),
        decreases blocks@.len() - b,
    {
        let block = &blocks[b];
        let ghost base = out@;
        let mut i: usize = 0;
        while i < block.instructions.len()
            invariant
                i <= block.instructions@.len(),
                out@ == base + insts_ids(block.instructions@.subrange(0, i as int), with_results),
            decreases block.instructions@.len() - i,
        {
            let inst = &block.instructions[i];
            let ghost before = out@;
            if with_results {
                out.push(inst.result.0);
            }
            push_operand_ids(&mut out, &inst.operands);
            assert(out@ =~= before + inst_ids(*inst, with_results));
            assert(block.instructions@.subrange(0, i + 1).drop_last() =~= block.instructions@.subrange(0, i as int));
            i = i + 1;
        }
        assert(block.instructions@.subrange(0, block.instructions@.len() as int) =~= block.instructions@);
        match block.terminator {
            Terminator::Return(Operand::Var(v)) => out.push(v.0),
            Terminator::Branch { condition: Operand::Var(v), .. } => out.push(v.0),
            _ => {},
        }
        assert(blocks@.subrange(0, b + 1).drop_last() =~= blocks@.subrange(0, b as int));
        b = b + 1;
        assert(out@ =~= blocks_ids(blocks@.subrange(0, b as int), with_results));
    }
    assert(blocks@.subrange(0, blocks@.len() as int) =~= blocks@);
    out
}

/// The variables that are branch conditions, in block order.
pub fn branch_condition_vars(blocks: &Vec<BasicBlock>) -> (r: Vec<u32>)
    ensures
        r@ == branch_ids(blocks@),
{
    let mut out: Vec<u32> = Vec::new();
    let mut b: usize = 0;
    while b < blocks.len()
        invariant
            b <= blocks@.len(),
            out@ == branch_ids(blocks@.subrange(0, b as int)),
        decreases blocks@.len() - b,
    {
        match blocks[b].terminator {
            Terminator::Branch { condition: Operand::Var(v), .. } => out.push(v.0),
            _ => {},
        }
        assert(blocks@.subrange(0, b + 1).drop_last() =~= blocks@.subrange(0, b as int));
        b = b + 1;
        assert(out@ =~= branch_ids(blocks@.subrange(0, b as int)));
    }
    assert(blocks@.subrange(0, blocks@.len() as int) =~= blocks@);
    out
}

/// Whether `x` occurs in `v`.
pub fn contains_u32(v: &Vec<u32>, x: u32) -> (r: bool)
    ensures
        r == v@.contains(x),
{
    let mut k: usize = 0;
    while k < v.len()
        invariant
            k <= v@.len(),
            forall|j: int| 0 <= j < k ==> v@[j] != x,
        decreases v@.len() - k,
    {
        if v[k] == x {
            assert(v@[k as int] == x);
            return true;
        }
        k = k + 1;
    }
    false
}

/// The distinct values of `v` in increasing order.
pub fn sorted_unique(v: &Vec<u32>) -> (r: Vec<u32>)
    ensures
        r@.to_set() == v@.to_set(),
        strictly_sorted(r@),
        r@.len() == v@.to_set().len(),
{
    let mut out: Vec<u32> = Vec::new();
    let mut k: usize = 0;
    while k < v.len()
        invariant
            k <= v@.len(),
            strictly_sorted(out@),
            out@.to_set() == v@.subrange(0, k as int).to_set(),
        decreases v@.len() - k,
    {
        let x = v[k];
        // Find the first position holding a value not below `x`.
        let mut p: usize = 0;
        while p < out.len() && out[p] < x
            invariant
                p <= out@.len(),
                forall|j: int| 0 <= j < p ==> out@[j] < x,
            decreases out@.len() - p,
        {
            p = p + 1;
        }
        let ghost before = out@;
        assert(v@.subrange(0, k + 1) =~= v@.subrange(0, k as int).push(x));
        proof { v@.subrange(0, k as int).lemma_push_to_set_commute(x); }
        if p < out.len() && out[p] == x {
            assert(before.to_set().contains(x));
            assert(before.to_set().insert(x) =~= before.to_set());
        } else {
            out.insert(p, x);
            assert(out@ =~= before.subrange(0, p as int).push(x) + before.subrange(p as int, before.len() as int));
            assert forall|a: int, b: int| 0 <= a < b < out@.len() implies out@[a] < out@[b] by {
                if b < p {
                } else if b == p {
                } else if a < p {
                } else if a == p {
                    assert(out@[b] == before[b - 1]);
                    if b - 1 > p {
                        assert(before[p as int] < before[b - 1]);
                    }
                } else {
                    assert(out@[a] == before[a - 1] && out@[b] == before[b - 1]);
                }
            }
            assert(out@.to_set() =~= before.to_set().insert(x)) by {
                assert forall|y: u32| out@.to_set().contains(y) <==> before.to_set().insert(x).contains(y) by {
                    if out@.to_set().contains(y) {
                        let j = choose|j: int| 0 <= j < out@.len() && out@[j] == y;
                        if j < p { assert(before[j] == y); } else if j > p { assert(before[j - 1] == y); }
                    }
                    if before.to_set().contains(y) {
                        let j = choose|j: int| 0 <= j < before.len() && before[j] == y;
                        if j < p { assert(out@[j] == y); } else { assert(out@[j + 1] == y); }
                    }
                    if y == x {
                        assert(out@[p as int] == x);
                    }
                }
            }
        }
        k = k + 1;
    }
    assert(v@.subrange(0, v@.len() as int) =~= v@);
    proof {
        assert(out@.no_duplicates()) by {
            assert forall|i: int, j: int| 0 <= i < out@.len() && 0 <= j < out@.len() && i != j implies out@[i] != out@[j] by {
                if i < j { assert(out@[i] < out@[j]); } else { assert(out@[j] < out@[i]); }
            }
        }
        out@.unique_seq_to_set();
    }
    out
}

/// The position of `x` in a strictly increasing `v`, if it occurs.
pub fn index_of_u32(v: &Vec<u32>, x: u32) -> (r: Option<usize>)
    ensures
        r matches Some(k) ==> k < v@.len() && v@[k as int] == x,
        r is None ==> !v@.contains(x),
{
    let mut k: usize = 0;
    while k < v.len()
        invariant
            k <= v@.len(),
            forall|j: int| 0 <= j < k ==> v@[j] != x,
        decreases v@.len() - k,
    {
        if v[k] == x {
            return Some(k);
        }
        k = k + 1;
    }
    None
}


/// Two strictly increasing sequences with the same elements are equal.
pub proof fn lemma_sorted_same_set(a: Seq<u32>, b: Seq<u32>)
    requires
        strictly_sorted(a),
        strictly_sorted(b),
        a.to_set() == b.to_set(),
    ensures
        a == b,
    decreases a.len(),
{
    if a.len() == 0 {
        if b.len() > 0 {
            assert(b.contains(b[0]));
            assert(b.to_set().contains(b[0]));
        }
        assert(a =~= b);
    } else if b.len() == 0 {
        assert(a.contains(a[0]));
        assert(a.to_set().contains(a[0]));
    } else {
        assert(a.contains(a[0]));
        assert(b.to_set().contains(a[0]));
        let j = choose|j: int| 0 <= j < b.len() && b[j] == a[0];
        assert(b.contains(b[0]));
        assert(a.to_set().contains(b[0]));
        let i = choose|i: int| 0 <= i < a.len() && a[i] == b[0];
        assert(a[0] == b[0]);
        let a1 = a.drop_first();
        let b1 = b.drop_first();
        assert forall|x: u32| a1.to_set().contains(x) implies b1.to_set().contains(x) by {
            assert(a1.contains(x));
            let k = choose|k: int| 0 <= k < a1.len() && a1[k] == x;
            assert(a[k + 1] == x);
            assert(a.contains(x));
            assert(b.to_set().contains(x));
            let m = choose|m: int| 0 <= m < b.len() && b[m] == x;
            assert(m != 0);
            assert(b1[m - 1] == x);
            assert(b1.contains(x));
        }
        assert forall|x: u32| b1.to_set().contains(x) implies a1.to_set().contains(x) by {
            assert(b1.contains(x));
            let k = choose|k: int| 0 <= k < b1.len() && b1[k] == x;
            assert(b[k + 1] == x);
            assert(b.contains(x));
            assert(a.to_set().contains(x));
            let m = choose|m: int| 0 <= m < a.len() && a[m] == x;
            assert(m != 0);
            assert(a1[m - 1] == x);
            assert(a1.contains(x));
        }
        assert(a1.to_set() =~= b1.to_set());
        lemma_sorted_same_set(a1, b1);
        assert(a.len() == b.len());
        assert forall|k: int| 0 <= k < a.len() implies a[k] == b[k] by {
            if k > 0 {
                assert(a[k] == a1[k - 1]);
                assert(b[k] == b1[k - 1]);
            }
        }
        assert(a =~= b);
    }
}

} // verus!
