//! Program units (one eBPF program each), statements and expressions.
use vstd::prelude::*;
use crate::parser::token::SourceLoc;
use crate::ir::ctx::CtxMethod;
use crate::text::{is_prefix_of, starts_with, str_eq};

verus! {

/// `unit name { section: "..."; license: "..."; statements }`
#[derive(Debug)]
pub struct Unit {
    pub name: String,
    pub loc: SourceLoc,
    pub sections: Vec<String>,
    pub kind: ProgramKind,
    pub license: Option<String>,
    pub events: Vec<crate::ast::event::EventDecl>,
    pub body: Vec<Stmt>,
}

/// A statement with its location.
#[derive(Debug)]
pub struct Stmt {
    pub kind: StmtKind,
    pub loc: SourceLoc,
}

/// The statement forms of the unit language.
#[derive(Debug)]
pub enum StmtKind {
    Return(Box<Expr>),
    VarDecl(VarDecl),
    HeapVarDecl(HeapVarDecl),
    Assignment(Assignment),
    IfGuard(IfGuard),
    ExprStmt(Box<Expr>),
}

/// `target op value;`
#[derive(Debug)]
pub struct Assignment {
    pub target: Box<Expr>,
    pub op: AssignmentOp,
    pub value: Box<Expr>,
}

/// The eBPF program type, derived from a unit's first section name.
#[derive(Debug, Clone, Copy, PartialEq, Eq, Hash, Structural)]
pub enum ProgramKind {
    Xdp,
    Tc,
    Socket,
    Cgroup,
    Kprobe,
    Tracepoint,
    RawTracepoint,
    Fentry,
    Fexit,
    Lsm,
    Unknown,
}

/// Assignment operators.
#[derive(Debug, Clone, Copy, PartialEq, Eq, Hash, Structural)]
pub enum AssignmentOp {
    Assign,
    AddAssign,
    SubAssign,
    MulAssign,
    DivAssign,
    ModAssign,
}

/// `if guard(x) { ... } else { ... }`
#[derive(Debug)]
pub struct IfGuard {
    pub condition: Expr,
    pub then_body: Vec<Stmt>,
    pub else_body: Option<Vec<Stmt>>,
}

/// An expression with its location.
#[derive(Debug)]
pub struct Expr {
    pub kind: ExprKind,
    pub loc: SourceLoc,
}

/// Binary operators.
#[derive(Debug, Clone, Copy, PartialEq, Eq, Hash, Structural)]
pub enum BinOp {
    Add,
    Sub,
    Mul,
    Div,
    Mod,
    Shl,
    Shr,
}

/// `left op right`
#[derive(Debug)]
pub struct BinaryExpr {
    pub op: BinOp,
    pub left: Box<Expr>,
    pub right: Box<Expr>,
}

/// A call of a builtin function by name.
#[derive(Debug)]
pub struct CallExpr {
    pub name: String,
    pub args: Vec<Expr>,
}

/// The expression forms of the unit language.
#[derive(Debug)]
pub enum ExprKind {
    Variable(String),
    Number(i64),
    MethodCall(MethodCall),
    HeapLookup(HeapLookup),
    Dereference(Box<Expr>),
    Binary(BinaryExpr),
    Call(CallExpr),
    FieldAccess { base: Box<Expr>, field: String },
}

/// `reg x = e;` / `imm x = e;`
#[derive(Debug)]
pub struct VarDecl {
    pub name: String,
    pub var_type: VarType,
    pub value: Box<Expr>,
}

/// Storage class of a declared variable.
#[derive(Debug, Clone, Copy, PartialEq, Eq, Hash, Structural)]
pub enum VarType {
    Reg,
    Imm,
}

/// A map lookup written as an expression.
#[derive(Debug)]
pub struct HeapLookup {
    pub map_name: String,
    pub key_expr: Box<Expr>,
}

/// `receiver.method(args...)`
#[derive(Debug)]
pub struct MethodCall {
    pub receiver: Box<Expr>,
    pub method: String,
    pub arg: Vec<Expr>,
}

/// `heap x = init;`
#[derive(Debug)]
pub struct HeapVarDecl {
    pub name: String,
    pub init: Expr,
}

/// The program kind selected by a section name.
pub open spec fn section_kind(s: Seq<char>) -> ProgramKind {
    if s == "xdp"@ {
        ProgramKind::Xdp
    } else if s == "tc"@ || s == "classifier"@ || is_prefix_of("tc"@, s) {
        ProgramKind::Tc
    } else if is_prefix_of("sk_"@, s) {
        ProgramKind::Socket
    } else if is_prefix_of("cgroup/"@, s) {
        ProgramKind::Cgroup
    } else if is_prefix_of("kprobe/"@, s) || is_prefix_of("kretprobe/"@, s) {
        ProgramKind::Kprobe
    } else if is_prefix_of("tracepoint/"@, s) {
        ProgramKind::Tracepoint
    } else if is_prefix_of("raw_tracepoint/"@, s) {
        ProgramKind::RawTracepoint
    } else if is_prefix_of("fentry/"@, s) {
        ProgramKind::Fentry
    } else if is_prefix_of("fexit/"@, s) {
        ProgramKind::Fexit
    } else if is_prefix_of("lsm/"@, s) {
        ProgramKind::Lsm
    } else {
        ProgramKind::Unknown
    }
}

/// The context methods a program kind may call, in a fixed order. The
/// tracing kinds also get the announced task, time and string-probe helpers.
pub open spec fn allowed_methods(k: ProgramKind) -> Seq<CtxMethod> {
    match k {
        ProgramKind::Xdp => seq![
            CtxMethod::LoadU8, CtxMethod::LoadU16, CtxMethod::LoadU32, CtxMethod::LoadU64,
            CtxMethod::LoadI8, CtxMethod::LoadI16, CtxMethod::LoadI32, CtxMethod::LoadI64,
        ],
        ProgramKind::Tc => seq![CtxMethod::LoadU8, CtxMethod::LoadU16, CtxMethod::LoadU32, CtxMethod::LoadU64],
        ProgramKind::Socket => seq![CtxMethod::LoadU8, CtxMethod::LoadU16, CtxMethod::LoadU32],
        ProgramKind::Kprobe => seq![
            CtxMethod::LoadU64, CtxMethod::GetPidTgid, CtxMethod::GetUidGid, CtxMethod::GetCurrentComm, CtxMethod::GetCurrentTask, CtxMethod::GetKtimeNs,
            CtxMethod::ProbeReadUserStr, CtxMethod::ProbeReadKernelStr,
        ],
        ProgramKind::Tracepoint => seq![
            CtxMethod::LoadU64, CtxMethod::GetPidTgid, CtxMethod::GetCurrentComm, CtxMethod::GetCurrentTask, CtxMethod::GetKtimeNs,
            CtxMethod::ProbeReadUserStr, CtxMethod::ProbeReadKernelStr,
        ],
        ProgramKind::RawTracepoint => seq![CtxMethod::LoadU64],
        ProgramKind::Fentry => seq![CtxMethod::LoadU64],
        ProgramKind::Fexit => seq![CtxMethod::LoadU64],
        ProgramKind::Cgroup => seq![CtxMethod::LoadU32, CtxMethod::LoadU64],
        ProgramKind::Lsm => seq![CtxMethod::LoadU64],
        ProgramKind::Unknown => seq![],
    }
}

/// The variant's name, as diagnostics print it.
pub open spec fn program_kind_debug_name(k: ProgramKind) -> Seq<char> {
    match k {
        ProgramKind::Xdp => "Xdp"@,
        ProgramKind::Tc => "Tc"@,
        ProgramKind::Socket => "Socket"@,
        ProgramKind::Cgroup => "Cgroup"@,
        ProgramKind::Kprobe => "Kprobe"@,
        ProgramKind::Tracepoint => "Tracepoint"@,
        ProgramKind::RawTracepoint => "RawTracepoint"@,
        ProgramKind::Fentry => "Fentry"@,
        ProgramKind::Fexit => "Fexit"@,
        ProgramKind::Lsm => "Lsm"@,
        ProgramKind::Unknown => "Unknown"@,
    }
}

impl ProgramKind {
    /// The variant's name, as diagnostics print it.
    pub fn debug_name(self) -> (r: &'static str)
        ensures
            r@ == program_kind_debug_name(self),
    {
        match self {
            ProgramKind::Xdp => "Xdp",
            ProgramKind::Tc => "Tc",
            ProgramKind::Socket => "Socket",
            ProgramKind::Cgroup => "Cgroup",
            ProgramKind::Kprobe => "Kprobe",
            ProgramKind::Tracepoint => "Tracepoint",
            ProgramKind::RawTracepoint => "RawTracepoint",
            ProgramKind::Fentry => "Fentry",
            ProgramKind::Fexit => "Fexit",
            ProgramKind::Lsm => "Lsm",
            ProgramKind::Unknown => "Unknown",
        }
    }

    /// Classifies a section name such as `"tracepoint/syscalls/sys_enter_execve"`.
    pub fn from_section(section: &str) -> (k: ProgramKind)
        ensures
            k == section_kind(section@),
    {
        if str_eq(section, "xdp") {
            ProgramKind::Xdp
        } else if str_eq(section, "tc") || str_eq(section, "classifier") || starts_with(section, "tc") {
            ProgramKind::Tc
        } else if starts_with(section, "sk_") {
            ProgramKind::Socket
        } else if starts_with(section, "cgroup/") {
            ProgramKind::Cgroup
        } else if starts_with(section, "kprobe/") || starts_with(section, "kretprobe/") {
            ProgramKind::Kprobe
        } else if starts_with(section, "tracepoint/") {
            ProgramKind::Tracepoint
        } else if starts_with(section, "raw_tracepoint/") {
            ProgramKind::RawTracepoint
        } else if starts_with(section, "fentry/") {
            ProgramKind::Fentry
        } else if starts_with(section, "fexit/") {
            ProgramKind::Fexit
        } else if starts_with(section, "lsm/") {
            ProgramKind::Lsm
        } else {
            ProgramKind::Unknown
        }
    }

    /// Whether `method` is among the context methods this program kind may call.
    pub fn allows_ctx_method(self, method: CtxMethod) -> (r: bool)
        ensures
            r == allowed_methods(self).contains(method),
    {
        let allowed = self.allowed_ctx_methods();
        let mut i: usize = 0;
        while i < allowed.len()
            invariant
                allowed@ == allowed_methods(self),
                i <= allowed@.len(),
                forall|j: int| 0 <= j < i ==> allowed@[j] != method,
            decreases allowed@.len() - i,
        {
            if allowed[i] == method {
                assert(allowed@[i as int] == method);
                return true;
            }
            i = i + 1;
        }
        false
    }

    /// The context methods this program kind may call.
    pub fn allowed_ctx_methods(self) -> (r: Vec<CtxMethod>)
        ensures
            r@ == allowed_methods(self),
    {
        let r = match self {
            ProgramKind::Xdp => vec![
                CtxMethod::LoadU8, CtxMethod::LoadU16, CtxMethod::LoadU32, CtxMethod::LoadU64,
                CtxMethod::LoadI8, CtxMethod::LoadI16, CtxMethod::LoadI32, CtxMethod::LoadI64,
            ],
            ProgramKind::Tc => vec![CtxMethod::LoadU8, CtxMethod::LoadU16, CtxMethod::LoadU32, CtxMethod::LoadU64],
            ProgramKind::Socket => vec![CtxMethod::LoadU8, CtxMethod::LoadU16, CtxMethod::LoadU32],
            ProgramKind::Kprobe => vec![
                CtxMethod::LoadU64, CtxMethod::GetPidTgid, CtxMethod::GetUidGid, CtxMethod::GetCurrentComm, CtxMethod::GetCurrentTask, CtxMethod::GetKtimeNs,
                CtxMethod::ProbeReadUserStr, CtxMethod::ProbeReadKernelStr,
            ],
            ProgramKind::Tracepoint => vec![
                CtxMethod::LoadU64, CtxMethod::GetPidTgid, CtxMethod::GetCurrentComm, CtxMethod::GetCurrentTask, CtxMethod::GetKtimeNs,
                CtxMethod::ProbeReadUserStr, CtxMethod::ProbeReadKernelStr,
            ],
            ProgramKind::RawTracepoint => vec![CtxMethod::LoadU64],
            ProgramKind::Fentry | ProgramKind::Fexit => vec![CtxMethod::LoadU64],
            ProgramKind::Cgroup => vec![CtxMethod::LoadU32, CtxMethod::LoadU64],
            ProgramKind::Lsm => vec![CtxMethod::LoadU64],
            ProgramKind::Unknown => Vec::new(),
        };
        assert(r@ =~= allowed_methods(self));
        r
    }
}

} // verus!
