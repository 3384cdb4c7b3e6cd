use solnix::emit::ebpf;
use solnix::emit::ebpf::tracepoint::compile_tracepoint;
use solnix::emit::ebpf_c::tracepoint::emit_tracepoint as emit_c;
use solnix::emit::ebpf_obj;
use solnix::ir::program::{lower_program, ProgramIr};
use solnix::parser::parse_tokens;
use solnix::parser::token::{SourceLoc, Token, TokenKind};

use solnix::parser::token::TokenKind::{
    Eof, Identifier, Number, StringLiteral, KeywordUnit, KeywordSection, KeywordLicense, KeywordReg, KeywordReturn, LBrace, RBrace, LParen, RParen, Colon, Semicolon, Dot, Equals, Plus,
};

fn toks(spec: &[(TokenKind, &str)]) -> Vec<Token> {
    let mut out = Vec::new();
    for (i, (kind, lexeme)) in spec.iter().enumerate() {
        let int_value = if *kind == Number { lexeme.parse::<i64>().ok() } else { None };
        out.push(Token {
            kind: *kind,
            lexeme: lexeme.to_string(),
            loc: SourceLoc::new(1, (i + 1) as u32, i),
            int_value,
        });
    }
    let n = spec.len();
    out.push(Token { kind: Eof, lexeme: String::new(), loc: SourceLoc::new(1, (n + 1) as u32, n), int_value: None });
    out
}

fn counter_unit(section: &'static str) -> Vec<(TokenKind, &'static str)> {
    vec![
        (KeywordUnit, "unit"), (Identifier, "count_exec"), (LBrace, "{"),
        (KeywordSection, "section"), (Colon, ":"), (StringLiteral, section), (Semicolon, ";"),
        (KeywordLicense, "license"), (Colon, ":"), (StringLiteral, "\"GPL\""), (Semicolon, ";"),
        (KeywordReg, "reg"), (Identifier, "pid"), (Equals, "="), (Identifier, "ctx"), (Dot, "."),
        (Identifier, "get_pid_tgid"), (LParen, "("), (RParen, ")"), (Semicolon, ";"),
        (KeywordReg, "reg"), (Identifier, "x"), (Equals, "="), (Identifier, "pid"), (Plus, "+"),
        (Number, "1"), (Semicolon, ";"),
        (KeywordReturn, "return"), (Number, "0"), (Semicolon, ";"),
        (RBrace, "}"),
    ]
}

fn lowered(spec: &[(TokenKind, &str)]) -> ProgramIr {
    let program = parse_tokens(toks(spec)).unwrap();
    lower_program(&program).unwrap()
}

fn is_elf(b: &[u8]) -> bool {
    b.len() >= 64 && b[0..4] == [0x7f, b'E', b'L', b'F'] && b[4] == 2 && b[5] == 1 && b[18] == 247 && b[19] == 0
}

#[test]
fn lowering_keeps_unit_metadata() {
    let ir = lowered(&counter_unit("\"tracepoint/syscalls/sys_enter_execve\""));
    assert_eq!(ir.units.len(), 1);
    let u = &ir.units[0];
    assert_eq!(u.name, "count_exec");
    assert_eq!(u.license, "GPL");
    assert_eq!(u.sections, vec!["tracepoint/syscalls/sys_enter_execve".to_string()]);
    assert!(!u.blocks.is_empty());
}

#[test]
fn native_backend_writes_an_elf_object() {
    let ir = lowered(&counter_unit("\"tracepoint/syscalls/sys_enter_execve\""));
    let bytes = ebpf::emit_program(&ir).unwrap();
    assert!(is_elf(&bytes));
    let compiled = compile_tracepoint(&ir.units[0]).unwrap();
    assert!(!compiled.code.is_empty());
    assert_eq!(compiled.code.len() % 8, 0);
    assert!(compiled.relocs.is_empty());
}

#[test]
fn native_backend_refuses_other_sections() {
    let ir = lowered(&counter_unit("\"kprobe/do_sys_open\""));
    assert_eq!(
        ebpf::emit_program(&ir).unwrap_err(),
        "native Rust backend currently supports only tracepoint sections, got 'kprobe/do_sys_open'"
    );
}

#[test]
fn direct_backend_writes_an_elf_object() {
    let ir = lowered(&counter_unit("\"tracepoint/syscalls/sys_enter_execve\""));
    let bytes = ebpf_obj::emit_program(&ir).unwrap();
    assert!(is_elf(&bytes));
}

#[test]
fn direct_backend_needs_a_unit() {
    let ir = ProgramIr { maps: Vec::new(), units: Vec::new() };
    assert_eq!(ebpf_obj::emit_program(&ir).unwrap_err(), "no tracepoint units found");
}

#[test]
fn c_backend_frames_the_function() {
    let ir = lowered(&counter_unit("\"tracepoint/syscalls/sys_enter_execve\""));
    let mut out = String::from("// prelude\n");
    emit_c(&mut out, &ir.units[0], "tracepoint/syscalls/sys_enter_execve").unwrap();
    assert!(out.starts_with(
        "// prelude\nchar LICENSE[] SEC(\"license\") = \"GPL\";\n\nSEC(\"tracepoint/syscalls/sys_enter_execve\")\nint count_exec(void *ctx) {\n    (void)ctx;\n\n"
    ));
    assert!(out.ends_with("__solnix_null_fail:\n    return 0;\n}\n"));
}

#[test]
fn c_backend_renders_each_used_instruction() {
    let ir = lowered(&counter_unit("\"tracepoint/syscalls/sys_enter_execve\""));
    let mut out = String::new();
    emit_c(&mut out, &ir.units[0], "tracepoint/syscalls/sys_enter_execve").unwrap();
    let expected = [
        "char LICENSE[] SEC(\"license\") = \"GPL\";\n\n",
        "SEC(\"tracepoint/syscalls/sys_enter_execve\")\nint count_exec(void *ctx) {\n    (void)ctx;\n\n",
        "    __u64 v0 = 0;\n    __u64 v1 = 0;\n    __u64 v3 = 0;\n\n",
        "    goto __block_0;\n\n",
        "__block_0:\n",
        "    v1 = bpf_get_current_pid_tgid();\n",
        "    v0 = v1 + 0;\n",
        "    v3 = v0 + 1;\n",
        "    return 0;\n\n",
        "__solnix_null_fail:\n    return 0;\n}\n",
    ]
    .concat();
    assert_eq!(out, expected);
}

#[test]
fn native_backend_gives_each_variable_a_slot() {
    let ir = lowered(&counter_unit("\"tracepoint/syscalls/sys_enter_execve\""));
    let compiled = compile_tracepoint(&ir.units[0]).unwrap();
    // v0..v3 live at r10-8, r10-16, r10-24, r10-32.
    let expected: Vec<[u8; 8]> = vec![
        [0xbf, 0x16, 0x00, 0x00, 0, 0, 0, 0],     // r6 = r1
        [0x85, 0x00, 0x00, 0x00, 14, 0, 0, 0],    // call get_current_pid_tgid
        [0x7b, 0x0a, 0xf0, 0xff, 0, 0, 0, 0],     // *(r10 - 16) = r0   (v1)
        [0x79, 0xa0, 0xf0, 0xff, 0, 0, 0, 0],     // r0 = *(r10 - 16)
        [0x07, 0x00, 0x00, 0x00, 0, 0, 0, 0],     // r0 += 0
        [0x7b, 0x0a, 0xf8, 0xff, 0, 0, 0, 0],     // *(r10 - 8) = r0    (v0)
        [0x79, 0xa0, 0xf8, 0xff, 0, 0, 0, 0],     // r0 = *(r10 - 8)
        [0x07, 0x00, 0x00, 0x00, 1, 0, 0, 0],     // r0 += 1
        [0x7b, 0x0a, 0xe0, 0xff, 0, 0, 0, 0],     // *(r10 - 32) = r0   (v3)
        [0x79, 0xa0, 0xe0, 0xff, 0, 0, 0, 0],     // r0 = *(r10 - 32)
        [0x07, 0x00, 0x00, 0x00, 0, 0, 0, 0],     // r0 += 0
        [0x7b, 0x0a, 0xe8, 0xff, 0, 0, 0, 0],     // *(r10 - 24) = r0   (v2)
        [0xb7, 0x00, 0x00, 0x00, 0, 0, 0, 0],     // r0 = 0
        [0x95, 0x00, 0x00, 0x00, 0, 0, 0, 0],     // exit
    ];
    let flat: Vec<u8> = expected.iter().flat_map(|i| i.iter().copied()).collect();
    assert_eq!(compiled.code, flat);
}

fn one_program(map_name: &str) -> Vec<solnix::emit::ebpf_obj::tracepoint::ProgramSection> {
    vec![solnix::emit::ebpf_obj::tracepoint::ProgramSection {
        section_name: "tracepoint/a/b".to_string(),
        symbol_name: "p".to_string(),
        code: vec![0u8; 16],
        relocs: vec![solnix::emit::ebpf_obj::tracepoint::RelocRequest { insn_byte_off: 0, map_name: map_name.to_string() }],
    }]
}

fn one_map() -> solnix::emit::ebpf_obj::maps::MapsSection {
    solnix::emit::ebpf_obj::maps::MapsSection {
        bytes: vec![0u8; 20],
        records: vec![solnix::emit::ebpf_obj::maps::MapRecord { name: "m".to_string(), offset: 0, size: 20 }],
    }
}

#[test]
fn object_writer_counts_sections_and_symbols() {
    let b = solnix::emit::ebpf_obj::elf::build_object(&one_map(), &one_program("m"), "GPL").unwrap();
    let le16 = |i: usize| u16::from_le_bytes([b[i], b[i + 1]]) as usize;
    let le64 = |i: usize| u64::from_le_bytes(b[i..i + 8].try_into().unwrap()) as usize;
    assert_eq!(le16(60), 10);
    assert_eq!(le16(62), 9);
    let shoff = le64(40);
    assert_eq!(b.len(), shoff + 64 * 10);
    // .symtab is section 8: null, the program, the map.
    assert_eq!(le64(shoff + 8 * 64 + 32), 24 * 3);
}

#[test]
fn object_writer_names_an_unknown_map() {
    assert_eq!(
        solnix::emit::ebpf_obj::elf::build_object(&one_map(), &one_program("x"), "GPL").unwrap_err(),
        "missing relocation symbol for map 'x'"
    );
}
