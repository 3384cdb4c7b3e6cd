# solnix

A compiler for Solnix, a small language for eBPF tracing programs, written
in Verus. A Solnix source declares maps, events and units; the compiler
parses its tokens, validates the declarations, lowers each unit to an IR of
basic blocks and writes an eBPF ELF object with the programs, the maps, their
BTF description and the relocations between them.

## Layout

- `src/` — the verified library.
  - `parser/` — the grammar as spec functions over tokens, and the parser
    proved against it.
  - `sema/` — validation of maps, events and units; the first error of a
    program is the one reported.
  - `ir/` — lowering of unit bodies to basic blocks, with a model of the
    blocks, counters and errors each statement produces.
  - `emit/` — the back ends: native eBPF code and its ELF object
    (`emit/ebpf`), the direct object back end with its map definitions and
    ELF writer (`emit/ebpf_obj`), the C rendering for clang (`emit/ebpf_c`),
    and the ELF and BTF layouts they share.
  - `kernel_check.rs` — kernel version parsing and the CO-RE decision.
  - `diagnostics/` and `compiler.rs` — the code, category, message and
    location reported for each stage's failure, and the pipeline from tokens
    to object bytes.
- `tests/` — tests of the library on concrete programs.
- `app/` — the driver around the library: reading sources, probing the
  kernel and toolchain, writing objects and printing reports.

## What is proved

Every public function states its result over the spec models: the parser
returns the program the grammar describes, validation returns the first
error in declaration order, lowering returns the blocks the model gives or
the first failing unit's message, and the native back end returns the
object file of the object built from the license, the maps and each unit's
code, or the first error. Among the laws: the object file of a program is
unique and is produced exactly when it fits in memory; accepted events fit
in 512 bytes and their field offsets are aligned and disjoint; the variables
of a compiled unit get disjoint stack slots inside the 512-byte frame; every
jump of generated code lands inside the program.
