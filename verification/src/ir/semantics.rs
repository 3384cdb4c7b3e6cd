//! What the arithmetic operators mean on 64-bit values.
use vstd::prelude::*;
use vstd::arithmetic::power2::pow2;
use crate::ast::unit::{AssignmentOp, BinOp};
use crate::ir::instruction::BinaryOp;

verus! {

/// `v` reduced to 64 bits, as unsigned machine arithmetic wraps.
pub open spec fn wrap64(v: int) -> u64 {
    (v % 0x1_0000_0000_0000_0000int) as u64
}

/// `x` shifted left by `n` bits, keeping the low 64 bits.
pub open spec fn shl64(x: u64, n: nat) -> u64 {
    wrap64(x * pow2(n))
}

/// `x` shifted right by `n` bits.
pub open spec fn shr64(x: u64, n: nat) -> u64 {
    (x as int / pow2(n) as int) as u64
}

/// The value of `x op y` in a Solnix program: unsigned 64-bit arithmetic
/// that wraps around; a quotient by zero is zero and a remainder by zero
/// is the dividend; a shift amount counts modulo 64.
pub open spec fn source_value(op: BinOp, x: u64, y: u64) -> u64 {
    match op {
        BinOp::Add => wrap64(x + y),
        BinOp::Sub => wrap64(x - y),
        BinOp::Mul => wrap64(x * y),
        BinOp::Div => if y == 0 { 0 } else { x / y },
        BinOp::Mod => if y == 0 { x } else { x % y },
        BinOp::Shl => shl64(x, (y % 64) as nat),
        BinOp::Shr => shr64(x, (y % 64) as nat),
    }
}

/// The value `x` takes in `x op= y`.
pub open spec fn compound_value(op: AssignmentOp, x: u64, y: u64) -> u64 {
    match op {
        AssignmentOp::Assign => y,
        AssignmentOp::AddAssign => wrap64(x + y),
        AssignmentOp::SubAssign => wrap64(x - y),
        AssignmentOp::MulAssign => wrap64(x * y),
        AssignmentOp::DivAssign => if y == 0 { 0 } else { x / y },
        AssignmentOp::ModAssign => if y == 0 { x } else { x % y },
    }
}

/// The value an IR `Binary` instruction computes from its two operands, on
/// the 64-bit registers of the eBPF machine.
pub open spec fn ir_value(op: BinaryOp, x: u64, y: u64) -> u64 {
    match op {
        BinaryOp::Add => wrap64(x + y),
        BinaryOp::Sub => wrap64(x - y),
        BinaryOp::Mul => wrap64(x * y),
        BinaryOp::Div => if y == 0 { 0 } else { x / y },
        BinaryOp::Mod => if y == 0 { x } else { x % y },
        BinaryOp::Shl => shl64(x, (y % 64) as nat),
        BinaryOp::Shr => shr64(x, (y % 64) as nat),
    }
}

} // verus!
