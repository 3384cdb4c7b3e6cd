//! The eBPF machine's 64-bit arithmetic instructions, as the instruction
//! set defines them by opcode.
use vstd::prelude::*;
use crate::ir::semantics::{shl64, shr64, wrap64};
use crate::ast::map::MapType;

verus! {

/// The destination register's new value when the machine runs the ALU64
/// instruction with opcode `code` on destination value `dst` and source
/// value `src` (the register, or the immediate sign-extended to 64 bits).
/// The low three bits are the instruction class (7 for ALU64), bit 3
/// selects the source and the high four bits the operation: 0 add, 1
/// subtract, 2 multiply, 3 divide, 6 shift left, 7 shift right, 9 modulo,
/// 11 move. Division by zero gives zero and modulo by zero keeps the
/// destination; shift amounts are taken modulo 64. Other opcodes are not
/// modelled.
pub open spec fn alu64_exec(code: u8, dst: u64, src: u64) -> Option<u64> {
    let op = code / 16;
    if code % 8 != 7 {
        None
    } else if op == 0 {
        Some(wrap64(dst + src))
    } else if op == 1 {
        Some(wrap64(dst - src))
    } else if op == 2 {
        Some(wrap64(dst * src))
    } else if op == 3 {
        Some(if src == 0 { 0 } else { dst / src })
    } else if op == 6 {
        Some(shl64(dst, (src % 64) as nat))
    } else if op == 7 {
        Some(shr64(dst, (src % 64) as nat))
    } else if op == 9 {
        Some(if src == 0 { dst } else { dst % src })
    } else if op == 11 {
        Some(src)
    } else {
        None
    }
}

/// The opcode reads its source from the register (bit 3 set) rather than
/// the immediate.
pub open spec fn alu64_uses_register(code: u8) -> bool {
    (code / 8) % 2 == 1
}

/// The width in bytes that the size bits (3 and 4) of a load or store
/// select: 4, 2, 1 or 8.
pub open spec fn size_bits_width(code: u8) -> nat {
    let sz = (code / 8) % 4;
    if sz == 0 { 4 } else if sz == 1 { 2 } else if sz == 2 { 1 } else { 8 }
}

/// A memory instruction (mode bits 5 to 7 equal to 3): whether it stores
/// (class 3, from a register, or class 2, an immediate) rather than loads
/// (class 1), and how many bytes it moves.
pub open spec fn mem_access(code: u8) -> Option<(bool, nat)> {
    let class = code % 8;
    if code / 32 != 3 {
        None
    } else if class == 1 {
        Some((false, size_bits_width(code)))
    } else if class == 2 || class == 3 {
        Some((true, size_bits_width(code)))
    } else {
        None
    }
}

/// Whether the jump with opcode `code` (class 5, immediate source) is
/// taken for destination value `dst` and immediate `imm`: 0 always, 1 when
/// equal, 2 when greater, 3 when greater or equal, 5 when different. Calls
/// and exits are not jumps.
pub open spec fn jmp_imm_taken(code: u8, dst: u64, imm: u64) -> Option<bool> {
    let op = code / 16;
    if code % 8 != 5 || (code / 8) % 2 != 0 {
        None
    } else if op == 0 {
        Some(true)
    } else if op == 1 {
        Some(dst == imm)
    } else if op == 2 {
        Some(dst > imm)
    } else if op == 3 {
        Some(dst >= imm)
    } else if op == 5 {
        Some(dst != imm)
    } else {
        None
    }
}

/// A helper call: class 5, operation 8.
pub open spec fn is_call(code: u8) -> bool {
    code % 8 == 5 && code / 16 == 8
}

/// The program exit: class 5, operation 9.
pub open spec fn is_exit(code: u8) -> bool {
    code % 8 == 5 && code / 16 == 9
}

/// The first half of a 64-bit immediate load: class 0, size 8 bytes, mode 0.
pub open spec fn is_ld_imm64(code: u8) -> bool {
    code % 8 == 0 && size_bits_width(code) == 8 && code / 32 == 0
}

/// The kernel helper functions by the number a call instruction names, as
/// the kernel's helper list numbers them.
pub open spec fn kernel_helper_name(id: u32) -> Option<Seq<char>> {
    if id == 5 {
        Some("bpf_ktime_get_ns"@)
    } else if id == 14 {
        Some("bpf_get_current_pid_tgid"@)
    } else if id == 15 {
        Some("bpf_get_current_uid_gid"@)
    } else if id == 16 {
        Some("bpf_get_current_comm"@)
    } else if id == 35 {
        Some("bpf_get_current_task"@)
    } else {
        None
    }
}

/// The kernel's map types by number, as its list of map types numbers them.
pub open spec fn kernel_map_type_name(n: u32) -> Option<Seq<char>> {
    if n == 1 {
        Some("BPF_MAP_TYPE_HASH"@)
    } else if n == 2 {
        Some("BPF_MAP_TYPE_ARRAY"@)
    } else if n == 3 {
        Some("BPF_MAP_TYPE_PROG_ARRAY"@)
    } else if n == 9 {
        Some("BPF_MAP_TYPE_LRU_HASH"@)
    } else if n == 27 {
        Some("BPF_MAP_TYPE_RINGBUF"@)
    } else {
        None
    }
}

/// The kernel map type a declared map type stands for.
pub open spec fn map_type_kernel_name(t: MapType) -> Seq<char> {
    match t {
        MapType::Hash => "BPF_MAP_TYPE_HASH"@,
        MapType::Array => "BPF_MAP_TYPE_ARRAY"@,
        MapType::Ringbuf => "BPF_MAP_TYPE_RINGBUF"@,
        MapType::LruHash => "BPF_MAP_TYPE_LRU_HASH"@,
        MapType::ProgArray => "BPF_MAP_TYPE_PROG_ARRAY"@,
    }
}

} // verus!
