use solnix::compiler::{compile_tokens, is_source_extension, CompileFailure, ErrorHandler};
use solnix::diagnostics::category::ErrorCategory;
use solnix::parser::parse_tokens;
use solnix::parser::token::{SourceLoc, Token, TokenKind};
use solnix::sema::check_program;

use solnix::parser::token::TokenKind::{
    Eof, Identifier, Number, StringLiteral, KeywordMap, KeywordUnit, KeywordEvent, KeywordType, KeywordMax, KeywordBytes, KeywordSection, KeywordLicense, KeywordReg, TypeU32, LBrace, RBrace, LBracket, RBracket, LParen, RParen, Colon, Comma, Semicolon, Dot, Equals, Shl,
};

/// Tokens at offsets 0, 10, 20, ... on line 1, followed by `Eof`.
fn toks(spec: &[(TokenKind, &str)]) -> Vec<Token> {
    let mut out = Vec::new();
    for (i, (kind, lexeme)) in spec.iter().enumerate() {
        let int_value = if *kind == Number { lexeme.parse::<i64>().ok() } else { None };
        out.push(Token {
            kind: *kind,
            lexeme: lexeme.to_string(),
            loc: SourceLoc::new(1, (i * 10 + 1) as u32, i * 10),
            int_value,
        });
    }
    let n = spec.len();
    out.push(Token { kind: Eof, lexeme: String::new(), loc: SourceLoc::new(1, (n * 10 + 1) as u32, n * 10), int_value: None });
    out
}

fn ringbuf_map(name: &'static str) -> Vec<(TokenKind, &'static str)> {
    vec![
        (KeywordMap, "map"), (Identifier, name), (LBrace, "{"),
        (KeywordType, "type"), (Colon, ":"), (Dot, "."), (Identifier, "ringbuf"), (Comma, ","),
        (KeywordMax, "max"), (Colon, ":"), (Number, "1"), (Shl, "<<"), (Number, "24"),
        (RBrace, "}"),
    ]
}

fn exec_event() -> Vec<(TokenKind, &'static str)> {
    vec![
        (KeywordEvent, "event"), (Identifier, "exec_event"), (LBrace, "{"),
        (Identifier, "pid"), (Colon, ":"), (TypeU32, "u32"), (Comma, ","),
        (Identifier, "filename"), (Colon, ":"), (KeywordBytes, "bytes"), (LBracket, "["), (Number, "256"),
        (RBracket, "]"),
        (RBrace, "}"),
    ]
}

fn trace_unit(with_license: bool) -> Vec<(TokenKind, &'static str)> {
    let mut v = vec![
        (KeywordUnit, "unit"), (Identifier, "trace_exec_filename"), (LBrace, "{"),
        (KeywordSection, "section"), (StringLiteral, "\"tracepoint/syscalls/sys_enter_execve\""),
    ];
    if with_license {
        v.extend([(KeywordLicense, "license"), (StringLiteral, "\"GPL\"")]);
    }
    v.extend([
        (KeywordReg, "reg"), (Identifier, "pid_tgid"), (Equals, "="), (Identifier, "ctx"), (Dot, "."),
        (Identifier, "get_pid_tgid"), (LParen, "("), (RParen, ")"),
        (KeywordReg, "reg"), (Identifier, "pid"), (Equals, "="), (Identifier, "pid_tgid"),
        (RBrace, "}"),
    ]);
    v
}

fn handler() -> (ErrorHandler, solnix::diagnostics::source_manager::FileId) {
    let mut h = ErrorHandler::new();
    let id = h.add_file("execve_monitor.snx".to_string(), "x".repeat(1000));
    (h, id)
}

#[test]
fn readme_example_compiles_to_an_elf_object() {
    let mut spec = ringbuf_map("events");
    spec.extend(exec_event());
    spec.extend(trace_unit(true));
    let (h, id) = handler();
    match compile_tokens(&h, id, toks(&spec)) {
        Ok(bytes) => {
            assert!(bytes.len() >= 64);
            assert_eq!(&bytes[0..4], &[0x7f, b'E', b'L', b'F']);
            assert_eq!(bytes[4], 2);
            assert_eq!(bytes[5], 1);
            assert_eq!(u16::from_le_bytes([bytes[18], bytes[19]]), 247);
            assert_eq!(u16::from_le_bytes([bytes[16], bytes[17]]), 1);
        }
        Err(CompileFailure::Diagnostic(d)) => panic!("diagnostic: {}", d.message),
        Err(CompileFailure::Message(m)) => panic!("failure: {}", m),
    }
}

#[test]
fn readme_example_parses_into_its_parts() {
    let mut spec = ringbuf_map("events");
    spec.extend(exec_event());
    spec.extend(trace_unit(true));
    let p = parse_tokens(toks(&spec)).unwrap();
    assert_eq!(p.maps.len(), 1);
    assert_eq!(p.maps[0].name, "events");
    assert_eq!(p.maps[0].max_entries, Some(1 << 24));
    assert_eq!(p.events.len(), 1);
    assert_eq!(p.events[0].fields.len(), 2);
    assert_eq!(p.units.len(), 1);
    assert_eq!(p.units[0].sections, vec!["tracepoint/syscalls/sys_enter_execve".to_string()]);
    assert_eq!(p.units[0].license.as_deref(), Some("GPL"));
    assert_eq!(p.units[0].body.len(), 2);
    assert!(check_program(&p).is_ok());
}

#[test]
fn empty_token_stream_is_a_parse_error_at_the_start() {
    let (h, id) = handler();
    match compile_tokens(&h, id, Vec::new()) {
        Err(CompileFailure::Diagnostic(d)) => {
            assert_eq!(d.category, ErrorCategory::Parse);
            assert_eq!(d.code, "E0201");
            assert_eq!(d.message, "Parser received an empty token stream");
            assert_eq!(d.span, (0, 1));
        }
        _ => panic!("expected a parse diagnostic"),
    }
}

#[test]
fn unknown_file_gives_a_bare_message() {
    let h = ErrorHandler::new();
    match compile_tokens(&h, solnix::diagnostics::source_manager::FileId(0), Vec::new()) {
        Err(CompileFailure::Message(m)) => assert_eq!(m, "Parser received an empty token stream"),
        _ => panic!("expected a bare message"),
    }
}

#[test]
fn duplicate_map_is_reported_at_the_second_name() {
    let mut spec = ringbuf_map("events");
    let second = spec.len() + 1;
    spec.extend(ringbuf_map("events"));
    spec.extend(trace_unit(true));
    let (h, id) = handler();
    match compile_tokens(&h, id, toks(&spec)) {
        Err(CompileFailure::Diagnostic(d)) => {
            assert_eq!(d.category, ErrorCategory::Semantic);
            assert_eq!(d.code, "E0302");
            assert_eq!(d.message, "Duplicate map name: 'events'");
            assert_eq!(d.span, (second * 10, 1));
        }
        _ => panic!("expected a semantic diagnostic"),
    }
}

#[test]
fn unit_without_license_is_refused() {
    let spec = trace_unit(false);
    let (h, id) = handler();
    match compile_tokens(&h, id, toks(&spec)) {
        Err(CompileFailure::Diagnostic(d)) => {
            assert_eq!(d.code, "E0306");
            assert_eq!(d.message, "License is required for eBPF programs");
        }
        _ => panic!("expected a semantic diagnostic"),
    }
}

#[test]
fn unknown_map_type_is_a_parse_error() {
    let spec = vec![
        (KeywordMap, "map"), (Identifier, "m"), (LBrace, "{"),
        (KeywordType, "type"), (Colon, ":"), (Dot, "."), (Identifier, "bogus"), (Semicolon, ";"),
        (RBrace, "}"),
    ];
    let (h, id) = handler();
    match compile_tokens(&h, id, toks(&spec)) {
        Err(CompileFailure::Diagnostic(d)) => {
            assert_eq!(d.category, ErrorCategory::Parse);
            assert_eq!(
                d.message,
                "Unknown map type: bogus (valid: hash, array, ringbuf, lru_hash, prog_array)"
            );
            assert_eq!(d.span, (70, 1));
        }
        _ => panic!("expected a parse diagnostic"),
    }
}

#[test]
fn accepted_programs_have_distinct_map_names() {
    let mut spec = ringbuf_map("a");
    spec.extend(ringbuf_map("b"));
    spec.extend(ringbuf_map("c"));
    let p = parse_tokens(toks(&spec)).unwrap();
    assert!(check_program(&p).is_ok());
    for i in 0..p.maps.len() {
        for j in (i + 1)..p.maps.len() {
            assert_ne!(p.maps[i].name, p.maps[j].name);
        }
    }
    let mut dup = ringbuf_map("a");
    dup.extend(ringbuf_map("b"));
    dup.extend(ringbuf_map("a"));
    assert!(check_program(&parse_tokens(toks(&dup)).unwrap()).is_err());
}

#[test]
fn stream_without_eof_is_refused() {
    let mut t = toks(&ringbuf_map("m"));
    t.pop();
    match parse_tokens(t) {
        Err((loc, msg)) => {
            assert_eq!(msg, "Token stream must end with EOF");
            assert_eq!(loc.offset, 130);
        }
        Ok(_) => panic!("expected an error"),
    }
}

#[test]
fn only_snx_files_are_sources() {
    assert!(is_source_extension(Some("snx")));
    assert!(!is_source_extension(Some("c")));
    assert!(!is_source_extension(None));
}

#[test]
fn lowering_failure_names_the_unit_error() {
    // unit with `return y` where y is not bound
    let spec = vec![
        (KeywordUnit, "unit"), (Identifier, "u"), (LBrace, "{"),
        (KeywordSection, "section"), (StringLiteral, "\"tracepoint/a/b\""),
        (KeywordLicense, "license"), (StringLiteral, "\"GPL\""),
        (solnix::parser::token::TokenKind::KeywordReturn, "return"), (Identifier, "y"),
        (RBrace, "}"),
    ];
    let (h, id) = handler();
    match compile_tokens(&h, id, toks(&spec)) {
        Err(CompileFailure::Message(m)) => assert_eq!(m, "Lowering failed: UnitLowering(\"Undefined variable: y\")"),
        Err(CompileFailure::Diagnostic(d)) => panic!("diagnostic: {}", d.message),
        Ok(_) => panic!("expected a lowering failure"),
    }
}

#[test]
fn duplicate_event_stops_compilation_at_the_second_name() {
    let mut spec = ringbuf_map("events");
    spec.extend(exec_event());
    let second = spec.len() + 1;
    spec.extend(exec_event());
    spec.extend(trace_unit(true));
    let p = parse_tokens(toks(&spec)).unwrap();
    match check_program(&p) {
        Err(solnix::sema::SemanticError::EventError(solnix::sema::event::EventValidationError::DuplicateEventName(n, l))) => {
            assert_eq!(n, "exec_event");
            assert_eq!(l.offset, second * 10);
        }
        _ => panic!("expected a duplicate event"),
    }
    let (h, id) = handler();
    match compile_tokens(&h, id, toks(&spec)) {
        Err(CompileFailure::Diagnostic(d)) => {
            assert_eq!(d.category, ErrorCategory::Semantic);
            assert_eq!(d.code, "E0302");
            assert_eq!(d.message, "Duplicate event name: 'exec_event'");
            assert_eq!(d.span, (second * 10, 1));
        }
        _ => panic!("expected a semantic diagnostic"),
    }
}

#[test]
fn compiling_gives_the_native_back_ends_object() {
    let mut spec = ringbuf_map("events");
    spec.extend(exec_event());
    spec.extend(trace_unit(true));
    let (h, id) = handler();
    let bytes = compile_tokens(&h, id, toks(&spec)).ok().unwrap();
    let p = parse_tokens(toks(&spec)).unwrap();
    let ir = solnix::ir::program::lower_program(&p).unwrap();
    let direct = solnix::emit::ebpf::emit_program(&ir).unwrap();
    assert_eq!(bytes, direct);
}
