//! IR instructions and operands.
use vstd::prelude::*;
use crate::ast::map::Type;

verus! {

/// An SSA-style instruction: `result = opcode(operands)`.
#[derive(Debug)]
pub struct Instruction {
    pub result: VarId,
    pub opcode: Opcode,
    pub operands: Vec<Operand>,
    pub result_type: Type,
}

/// An IR variable.
#[derive(Debug, Clone, Copy, PartialEq, Eq, Hash, Structural)]
pub struct VarId(pub u32);

/// What an instruction does.
#[derive(Debug)]
pub enum Opcode {
    HelperCall { id: u32 },
    LoadKey,
    Store { size: u8 },
    LoadCtx { offset: i32, size: u8 },
    LoadPacket { offset: i32, size: u8 },
    CopyCtxToMem { offset: i32, size: u32 },
    NullCheck,
    Binary { op: BinaryOp },
    /// map lookup; returns a pointer
    CallMap { map_name: String },
    /// map update(key, value); returns a status
    UpdateMap { map_name: String },
    RingBufReserve { map_name: String, size: u32 },
    RingBufSubmit { map_name: String },
}

/// Arithmetic operators of the IR.
#[derive(Debug, Clone, Copy, PartialEq, Eq, Structural)]
pub enum BinaryOp {
    Add,
    Sub,
    Mul,
    Div,
    Mod,
    Shl,
    Shr,
}

/// An instruction input: a variable or a 64-bit immediate.
#[derive(Debug, Clone, Copy, PartialEq, Eq, Structural)]
pub enum Operand {
    Var(VarId),
    Immediate(i64),
}

} // verus!
