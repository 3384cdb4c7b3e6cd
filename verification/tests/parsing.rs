use solnix::ast::event::EventType;
use solnix::ast::map::{MapType, Type};
use solnix::ast::unit::{BinOp, ExprKind, StmtKind, VarType};
use solnix::parser::parse_tokens;
use solnix::parser::token::TokenKind::{
    Colon, Comma, Dot, Eof, Equals, Identifier, KeywordElse, KeywordEvent, KeywordGuard, KeywordIf, KeywordImm,
    KeywordKey, KeywordLicense, KeywordMap, KeywordMax, KeywordReg, KeywordReturn, KeywordSection, KeywordType,
    KeywordUnit, LBrace, LBracket, LParen, Minus, Number, Plus, RBrace, RBracket, RParen, Semicolon, Shl, Star,
    StringLiteral, TypeU32, TypeU64,
};
use solnix::parser::token::{SourceLoc, Token, TokenKind};

/// Tokens at offsets 0, 1, 2, ... followed by `Eof`.
fn toks(spec: &[(TokenKind, &str)]) -> Vec<Token> {
    let mut out = Vec::new();
    for (i, (kind, lexeme)) in spec.iter().enumerate() {
        let int_value = if *kind == Number { lexeme.parse::<i64>().ok() } else { None };
        out.push(Token { kind: *kind, lexeme: lexeme.to_string(), loc: SourceLoc::new(1, (i + 1) as u32, i), int_value });
    }
    let n = spec.len();
    out.push(Token { kind: Eof, lexeme: String::new(), loc: SourceLoc::new(1, (n + 1) as u32, n), int_value: None });
    out
}

/// A unit around `body`.
fn unit(body: &[(TokenKind, &'static str)]) -> Vec<(TokenKind, &'static str)> {
    let mut v = vec![
        (KeywordUnit, "unit"), (Identifier, "u"), (LBrace, "{"),
        (KeywordSection, "section"), (Colon, ":"), (StringLiteral, "\"tracepoint/a/b\""), (Semicolon, ";"),
        (KeywordLicense, "license"), (Colon, ":"), (StringLiteral, "\"GPL\""), (Semicolon, ";"),
    ];
    v.extend_from_slice(body);
    v.push((RBrace, "}"));
    v
}

fn parse_err(spec: &[(TokenKind, &str)]) -> (usize, String) {
    match parse_tokens(toks(spec)) {
        Err((loc, msg)) => (loc.offset, msg),
        Ok(_) => panic!("expected a parse error"),
    }
}

#[test]
fn products_bind_tighter_than_sums() {
    // reg x = 1 + 2 * 3 - 4;
    let spec = unit(&[
        (KeywordReg, "reg"), (Identifier, "x"), (Equals, "="), (Number, "1"), (Plus, "+"), (Number, "2"),
        (Star, "*"), (Number, "3"), (Minus, "-"), (Number, "4"), (Semicolon, ";"),
    ]);
    let p = parse_tokens(toks(&spec)).unwrap();
    let s = &p.units[0].body[0];
    assert_eq!(s.loc.offset, 12);
    match &s.kind {
        StmtKind::VarDecl(d) => {
            assert_eq!(d.name, "x");
            assert_eq!(d.var_type, VarType::Reg);
            match &d.value.kind {
                ExprKind::Binary(sub) => {
                    assert_eq!(sub.op, BinOp::Sub);
                    assert!(matches!(sub.right.kind, ExprKind::Number(4)));
                    match &sub.left.kind {
                        ExprKind::Binary(add) => {
                            assert_eq!(add.op, BinOp::Add);
                            assert!(matches!(add.left.kind, ExprKind::Number(1)));
                            assert!(matches!(&add.right.kind, ExprKind::Binary(m) if m.op == BinOp::Mul));
                        }
                        _ => panic!("expected a sum"),
                    }
                }
                _ => panic!("expected a difference"),
            }
            assert_eq!(d.value.loc.offset, 14);
        }
        _ => panic!("expected a declaration"),
    }
}

#[test]
fn a_shift_after_a_sum_is_refused() {
    // imm x = 1 + 2 << 3;
    let spec = unit(&[
        (KeywordImm, "imm"), (Identifier, "x"), (Equals, "="), (Number, "1"), (Plus, "+"), (Number, "2"),
        (Shl, "<<"), (Number, "3"), (Semicolon, ";"),
    ]);
    // The declaration ends after `1 + 2`; `<<` cannot start a statement.
    assert_eq!(parse_err(&spec), (17, "Expected identifier, found '<<'".to_string()));
}

#[test]
fn method_calls_and_field_accesses() {
    // m.update(k, 1); return x.f;
    let spec = unit(&[
        (Identifier, "m"), (Dot, "."), (Identifier, "update"), (LParen, "("), (Identifier, "k"), (Comma, ","),
        (Number, "1"), (RParen, ")"), (Semicolon, ";"),
        (KeywordReturn, "return"), (Identifier, "x"), (Dot, "."), (Identifier, "f"), (Semicolon, ";"),
    ]);
    let p = parse_tokens(toks(&spec)).unwrap();
    let body = &p.units[0].body;
    assert_eq!(body.len(), 2);
    match &body[0].kind {
        StmtKind::ExprStmt(e) => match &e.kind {
            ExprKind::MethodCall(mc) => {
                assert_eq!(mc.method, "update");
                assert_eq!(mc.arg.len(), 2);
                assert!(matches!(&mc.receiver.kind, ExprKind::Variable(n) if n == "m"));
            }
            _ => panic!("expected a method call"),
        },
        _ => panic!("expected an expression statement"),
    }
    match &body[1].kind {
        StmtKind::Return(e) => {
            assert!(matches!(&e.kind, ExprKind::FieldAccess { field, .. } if field == "f"));
            assert_eq!(e.loc.offset, 23);
        }
        _ => panic!("expected a return"),
    }
    assert_eq!(body[1].loc.offset, 21);
}

#[test]
fn method_receiver_must_be_a_name() {
    // a.b.c();
    let spec = unit(&[
        (Identifier, "a"), (Dot, "."), (Identifier, "b"), (Dot, "."), (Identifier, "c"), (LParen, "("),
        (RParen, ")"), (Semicolon, ";"),
    ]);
    assert_eq!(parse_err(&spec), (18, "Unsupported method receiver".to_string()));
}

#[test]
fn guard_with_else() {
    // if guard(v) { return 1; } else { return 0; }
    let spec = unit(&[
        (KeywordIf, "if"), (KeywordGuard, "guard"), (LParen, "("), (Identifier, "v"), (RParen, ")"),
        (LBrace, "{"), (KeywordReturn, "return"), (Number, "1"), (Semicolon, ";"), (RBrace, "}"),
        (KeywordElse, "else"), (LBrace, "{"), (KeywordReturn, "return"), (Number, "0"), (Semicolon, ";"),
        (RBrace, "}"),
    ]);
    let p = parse_tokens(toks(&spec)).unwrap();
    let s = &p.units[0].body[0];
    assert_eq!(s.loc.offset, 12);
    match &s.kind {
        StmtKind::IfGuard(g) => {
            assert!(matches!(&g.condition.kind, ExprKind::Variable(n) if n == "v"));
            assert_eq!(g.then_body.len(), 1);
            assert_eq!(g.else_body.as_ref().map(|b| b.len()), Some(1));
        }
        _ => panic!("expected a guard"),
    }
}

#[test]
fn missing_token_is_named() {
    // map m { type: .hash key: u32 }
    let spec = [
        (KeywordMap, "map"), (Identifier, "m"), (LBrace, "{"),
        (KeywordType, "type"), (Colon, ":"), (Dot, "."), (Identifier, "hash"),
        (KeywordKey, "key"), (Colon, ":"), (TypeU32, "u32"), (RBrace, "}"),
    ];
    assert_eq!(parse_err(&spec), (7, "Expected ';', found 'key'".to_string()));
}

#[test]
fn statements_and_settings_need_no_separators() {
    // unit u { section "tracepoint/a/b" license "GPL" reg x = 1 reg y = x }
    let spec = [
        (KeywordUnit, "unit"), (Identifier, "u"), (LBrace, "{"),
        (KeywordSection, "section"), (StringLiteral, "\"tracepoint/a/b\""),
        (KeywordLicense, "license"), (StringLiteral, "\"GPL\""),
        (KeywordReg, "reg"), (Identifier, "x"), (Equals, "="), (Number, "1"),
        (KeywordReg, "reg"), (Identifier, "y"), (Equals, "="), (Identifier, "x"),
        (RBrace, "}"),
    ];
    let p = parse_tokens(toks(&spec)).unwrap();
    let u = &p.units[0];
    assert_eq!(u.sections, vec!["tracepoint/a/b".to_string()]);
    assert_eq!(u.license, Some("GPL".to_string()));
    assert_eq!(u.body.len(), 2);
    assert!(matches!(&u.body[1].kind, StmtKind::VarDecl(d) if d.name == "y"));
}

#[test]
fn fields_and_entries_may_end_with_commas() {
    // map events { type: .ringbuf, max: 1 << 24 } event exec_event { pid: u32, filename: bytes[256] }
    let spec = [
        (KeywordMap, "map"), (Identifier, "events"), (LBrace, "{"),
        (KeywordType, "type"), (Colon, ":"), (Dot, "."), (Identifier, "ringbuf"), (Comma, ","),
        (KeywordMax, "max"), (Colon, ":"), (Number, "1"), (Shl, "<<"), (Number, "24"),
        (RBrace, "}"),
        (KeywordEvent, "event"), (Identifier, "exec_event"), (LBrace, "{"),
        (Identifier, "pid"), (Colon, ":"), (TypeU32, "u32"), (Comma, ","),
        (Identifier, "filename"), (Colon, ":"), (solnix::parser::token::TokenKind::KeywordBytes, "bytes"),
        (LBracket, "["), (Number, "256"), (RBracket, "]"),
        (RBrace, "}"),
    ];
    let p = parse_tokens(toks(&spec)).unwrap();
    let m = &p.maps[0];
    assert_eq!((m.map_type, m.key_type, m.value_type, m.max_entries), (MapType::Ringbuf, None, None, Some(16777216)));
    let e = &p.events[0];
    assert_eq!(e.name, "exec_event");
    assert_eq!(e.fields.len(), 2);
    assert_eq!(e.fields[0].name, "pid");
    assert!(matches!(e.fields[0].ty, EventType::U32));
    assert!(matches!(e.fields[1].ty, EventType::Bytes(256)));
}

#[test]
fn stray_top_level_token_is_refused() {
    assert_eq!(parse_err(&[(Semicolon, ";")]), (0, "Expected 'map', 'unit', or 'event'".to_string()));
}

#[test]
fn map_entries_and_their_errors() {
    let ok = [
        (KeywordMap, "map"), (Identifier, "counts"), (LBrace, "{"),
        (KeywordType, "type"), (Colon, ":"), (Dot, "."), (Identifier, "hash"), (Semicolon, ";"),
        (KeywordKey, "key"), (Colon, ":"), (TypeU32, "u32"), (Semicolon, ";"),
        (solnix::parser::token::TokenKind::KeywordValue, "value"), (Colon, ":"), (TypeU64, "u64"), (Semicolon, ";"),
        (KeywordMax, "max"), (Colon, ":"), (Number, "1"), (Shl, "<<"), (Number, "10"), (Semicolon, ";"),
        (RBrace, "}"),
    ];
    let p = parse_tokens(toks(&ok)).unwrap();
    let m = &p.maps[0];
    assert_eq!((m.map_type, m.key_type, m.value_type, m.max_entries), (MapType::Hash, Some(Type::U32), Some(Type::U64), Some(1024)));
    assert_eq!(m.loc.offset, 1);

    let stray = [(KeywordMap, "map"), (Identifier, "m"), (LBrace, "{"), (Identifier, "foo"), (RBrace, "}")];
    assert_eq!(
        parse_err(&stray),
        (3, "Unexpected token inside map: identifier (expected one of: type, key, value, max)".to_string())
    );

    let no_key = [
        (KeywordMap, "map"), (Identifier, "m"), (LBrace, "{"),
        (KeywordType, "type"), (Colon, ":"), (Dot, "."), (Identifier, "hash"), (Semicolon, ";"),
        (RBrace, "}"),
    ];
    assert_eq!(parse_err(&no_key), (9, "Map missing required field: key".to_string()));

    let bad_type = [
        (KeywordMap, "map"), (Identifier, "m"), (LBrace, "{"), (KeywordKey, "key"), (Colon, ":"),
        (Identifier, "str"), (Semicolon, ";"), (RBrace, "}"),
    ];
    assert_eq!(parse_err(&bad_type), (6, "Expected type (u32, u64, i32, i64)".to_string()));

    let mut negative = toks(&[
        (KeywordMap, "map"), (Identifier, "m"), (LBrace, "{"), (KeywordMax, "max"), (Colon, ":"),
        (Number, "5"), (Semicolon, ";"), (RBrace, "}"),
    ]);
    negative[5].int_value = Some(-5);
    match parse_tokens(negative) {
        Err((loc, msg)) => assert_eq!((loc.offset, msg.as_str()), (6, "max_entries must be >= 0")),
        Ok(_) => panic!("expected an error"),
    }
}

#[test]
fn event_fields_and_their_errors() {
    let ok = [
        (KeywordEvent, "event"), (Identifier, "e"), (LBrace, "{"),
        (Identifier, "ids"), (Colon, ":"), (TypeU32, "u32"), (LBracket, "["), (Number, "4"), (RBracket, "]"),
        (Semicolon, ";"),
        (RBrace, "}"),
    ];
    let p = parse_tokens(toks(&ok)).unwrap();
    assert_eq!(p.events[0].name, "e");
    assert_eq!(p.events[0].loc.offset, 1);
    assert!(matches!(p.events[0].fields[0].ty, EventType::Array { len: 4, .. }));

    let bad = [
        (KeywordEvent, "event"), (Identifier, "e"), (LBrace, "{"), (Identifier, "x"), (Colon, ":"),
        (Identifier, "float"), (Semicolon, ";"), (RBrace, "}"),
    ];
    assert_eq!(parse_err(&bad), (5, "Invalid event field type".to_string()));
}
