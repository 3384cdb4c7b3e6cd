//! Back ends: eBPF instruction encoding, ELF object writing, BTF and C
//! source text.
pub mod btf;
pub mod bytes;
pub mod ebpf;
pub mod ebpf_c;
pub mod elf;
pub mod isa;
pub mod vars;
pub mod ebpf_obj;
