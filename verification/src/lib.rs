//! Solnix: a verifier-safe eBPF compiler core.
//!
//! The crate holds the compiler's own logic: the token-stream parser, the
//! abstract syntax tree, semantic validation, lowering to a block-structured
//! IR, and the encoders that turn that IR into eBPF instructions, ELF object
//! bytes and C source text.
pub mod ast;
pub mod ir;
pub mod parser;
pub mod text;
pub mod sema;
pub mod diagnostics;
pub mod compiler;
pub mod kernel_check;
pub mod emit;
