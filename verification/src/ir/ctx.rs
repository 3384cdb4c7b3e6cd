//! Methods callable on the program context (`ctx.method(...)`).
use vstd::prelude::*;
use crate::text::str_eq;

verus! {

/// A context access or a BPF helper reached through `ctx`.
#[derive(Debug, Clone, Copy, PartialEq, Eq, Hash, Structural)]
pub enum CtxMethod {
    LoadU8,
    LoadU16,
    LoadU32,
    LoadU64,
    LoadI8,
    LoadI16,
    LoadI32,
    LoadI64,
    LoadBytes,
    /// bpf_get_current_pid_tgid (helper 14)
    GetPidTgid,
    /// bpf_get_current_uid_gid
    GetUidGid,
    /// bpf_get_current_comm
    GetCurrentComm,
    /// bpf_get_current_task
    GetCurrentTask,
    /// bpf_ktime_get_ns
    GetKtimeNs,
    /// bpf_probe_read_user_str (helper 202)
    ProbeReadUserStr,
    /// bpf_probe_read_kernel_str (helper 204)
    ProbeReadKernelStr,
}

/// The method that a source-level name denotes, if any.
pub open spec fn ctx_method_named(name: Seq<char>) -> Option<CtxMethod> {
    if name == "load_u8"@ { Some(CtxMethod::LoadU8) }
    else if name == "load_u16"@ { Some(CtxMethod::LoadU16) }
    else if name == "load_u32"@ { Some(CtxMethod::LoadU32) }
    else if name == "load_u64"@ { Some(CtxMethod::LoadU64) }
    else if name == "load_i8"@ { Some(CtxMethod::LoadI8) }
    else if name == "load_i16"@ { Some(CtxMethod::LoadI16) }
    else if name == "load_i32"@ { Some(CtxMethod::LoadI32) }
    else if name == "load_i64"@ { Some(CtxMethod::LoadI64) }
    else if name == "load_bytes"@ { Some(CtxMethod::LoadBytes) }
    else if name == "get_pid_tgid"@ { Some(CtxMethod::GetPidTgid) }
    else if name == "get_uid_gid"@ { Some(CtxMethod::GetUidGid) }
    else if name == "get_current_comm"@ { Some(CtxMethod::GetCurrentComm) }
    else if name == "get_current_task"@ { Some(CtxMethod::GetCurrentTask) }
    else if name == "get_ktime_ns"@ { Some(CtxMethod::GetKtimeNs) }
    else if name == "probe_read_user_str"@ { Some(CtxMethod::ProbeReadUserStr) }
    else if name == "probe_read_kernel_str"@ { Some(CtxMethod::ProbeReadKernelStr) }
    else { None }
}

/// The variant's name, as diagnostics print it.
pub open spec fn ctx_method_debug_name(m: CtxMethod) -> Seq<char> {
    match m {
        CtxMethod::LoadU8 => "LoadU8"@,
        CtxMethod::LoadU16 => "LoadU16"@,
        CtxMethod::LoadU32 => "LoadU32"@,
        CtxMethod::LoadU64 => "LoadU64"@,
        CtxMethod::LoadI8 => "LoadI8"@,
        CtxMethod::LoadI16 => "LoadI16"@,
        CtxMethod::LoadI32 => "LoadI32"@,
        CtxMethod::LoadI64 => "LoadI64"@,
        CtxMethod::LoadBytes => "LoadBytes"@,
        CtxMethod::GetPidTgid => "GetPidTgid"@,
        CtxMethod::GetUidGid => "GetUidGid"@,
        CtxMethod::GetCurrentComm => "GetCurrentComm"@,
        CtxMethod::GetCurrentTask => "GetCurrentTask"@,
        CtxMethod::GetKtimeNs => "GetKtimeNs"@,
        CtxMethod::ProbeReadUserStr => "ProbeReadUserStr"@,
        CtxMethod::ProbeReadKernelStr => "ProbeReadKernelStr"@,
    }
}

impl CtxMethod {
    /// The variant's name, as diagnostics print it.
    pub fn debug_name(self) -> (r: &'static str)
        ensures
            r@ == ctx_method_debug_name(self),
    {
        match self {
            CtxMethod::LoadU8 => "LoadU8",
            CtxMethod::LoadU16 => "LoadU16",
            CtxMethod::LoadU32 => "LoadU32",
            CtxMethod::LoadU64 => "LoadU64",
            CtxMethod::LoadI8 => "LoadI8",
            CtxMethod::LoadI16 => "LoadI16",
            CtxMethod::LoadI32 => "LoadI32",
            CtxMethod::LoadI64 => "LoadI64",
            CtxMethod::LoadBytes => "LoadBytes",
            CtxMethod::GetPidTgid => "GetPidTgid",
            CtxMethod::GetUidGid => "GetUidGid",
            CtxMethod::GetCurrentComm => "GetCurrentComm",
            CtxMethod::GetCurrentTask => "GetCurrentTask",
            CtxMethod::GetKtimeNs => "GetKtimeNs",
            CtxMethod::ProbeReadUserStr => "ProbeReadUserStr",
            CtxMethod::ProbeReadKernelStr => "ProbeReadKernelStr",
        }
    }

    /// Resolves a method name such as `"load_u32"` or `"get_pid_tgid"`.
    pub fn from_str(name: &str) -> (r: Option<CtxMethod>)
        ensures
            r == ctx_method_named(name@),
    {
        if str_eq(name, "load_u8") { Some(CtxMethod::LoadU8) }
        else if str_eq(name, "load_u16") { Some(CtxMethod::LoadU16) }
        else if str_eq(name, "load_u32") { Some(CtxMethod::LoadU32) }
        else if str_eq(name, "load_u64") { Some(CtxMethod::LoadU64) }
        else if str_eq(name, "load_i8") { Some(CtxMethod::LoadI8) }
        else if str_eq(name, "load_i16") { Some(CtxMethod::LoadI16) }
        else if str_eq(name, "load_i32") { Some(CtxMethod::LoadI32) }
        else if str_eq(name, "load_i64") { Some(CtxMethod::LoadI64) }
        else if str_eq(name, "load_bytes") { Some(CtxMethod::LoadBytes) }
        else if str_eq(name, "get_pid_tgid") { Some(CtxMethod::GetPidTgid) }
        else if str_eq(name, "get_uid_gid") { Some(CtxMethod::GetUidGid) }
        else if str_eq(name, "get_current_comm") { Some(CtxMethod::GetCurrentComm) }
        else if str_eq(name, "get_current_task") { Some(CtxMethod::GetCurrentTask) }
        else if str_eq(name, "get_ktime_ns") { Some(CtxMethod::GetKtimeNs) }
        else if str_eq(name, "probe_read_user_str") { Some(CtxMethod::ProbeReadUserStr) }
        else if str_eq(name, "probe_read_kernel_str") { Some(CtxMethod::ProbeReadKernelStr) }
        else { None }
    }
}

} // verus!
