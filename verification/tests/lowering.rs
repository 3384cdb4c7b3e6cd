use solnix::ast::event::{EventDecl, EventField, EventType};
use solnix::ir::instruction::{BinaryOp, Instruction, Opcode, Operand, VarId};
use solnix::ir::program::lower_program;
use solnix::ir::unit::{BlockId, Terminator};
use solnix::ir::LoweringError;
use solnix::parser::parse_tokens;
use solnix::parser::token::{SourceLoc, Token, TokenKind};

use solnix::parser::token::TokenKind::{
    Colon, Comma, Dot, Eof, Equals, Identifier, KeywordElse, KeywordGuard, KeywordHeap, KeywordIf, KeywordReg,
    KeywordReturn, KeywordSection, KeywordUnit, LBrace, LParen, Number, Plus, PlusEquals, RBrace, RParen, Semicolon,
    Star, StringLiteral,
};

fn toks(spec: &[(TokenKind, &str)]) -> Vec<Token> {
    let mut out = Vec::new();
    for (i, (kind, lexeme)) in spec.iter().enumerate() {
        let int_value = if *kind == Number { lexeme.parse::<i64>().ok() } else { None };
        out.push(Token {
            kind: *kind,
            lexeme: lexeme.to_string(),
            loc: SourceLoc::new(1, (i + 1) as u32, i),
            int_value,
        });
    }
    let n = spec.len();
    out.push(Token { kind: Eof, lexeme: String::new(), loc: SourceLoc::new(1, (n + 1) as u32, n), int_value: None });
    out
}

fn unit(body: &[(TokenKind, &'static str)]) -> Vec<(TokenKind, &'static str)> {
    let mut v = vec![
        (KeywordUnit, "unit"), (Identifier, "probe"), (LBrace, "{"),
        (KeywordSection, "section"), (Colon, ":"), (StringLiteral, "\"tracepoint/sched/sched_switch\""), (Semicolon, ";"),
    ];
    v.extend_from_slice(body);
    v.push((RBrace, "}"));
    v
}

fn is_instr(i: &Instruction, result: u32, operands: &[Operand]) -> bool {
    i.result == VarId(result) && i.operands == operands.to_vec()
}

fn add(i: &Instruction) -> bool {
    matches!(i.opcode, Opcode::Binary { op: BinaryOp::Add })
}

#[test]
fn declarations_lower_to_numbered_instructions() {
    // reg pid = ctx.get_pid_tgid(); reg x = pid + 1; return 0;
    let spec = unit(&[
        (KeywordReg, "reg"), (Identifier, "pid"), (Equals, "="), (Identifier, "ctx"), (Dot, "."),
        (Identifier, "get_pid_tgid"), (LParen, "("), (RParen, ")"), (Semicolon, ";"),
        (KeywordReg, "reg"), (Identifier, "x"), (Equals, "="), (Identifier, "pid"), (Plus, "+"),
        (Number, "1"), (Semicolon, ";"),
        (KeywordReturn, "return"), (Number, "0"), (Semicolon, ";"),
    ]);
    let ir = lower_program(&parse_tokens(toks(&spec)).unwrap()).unwrap();
    let u = &ir.units[0];
    assert_eq!(u.next_var_id, 4);
    assert_eq!(u.next_block_id, 1);
    assert_eq!(u.blocks.len(), 1);
    let b = &u.blocks[0];
    assert_eq!(b.id, BlockId(0));
    assert_eq!(b.terminator, Terminator::Return(Operand::Immediate(0)));
    let ins = &b.instructions;
    assert_eq!(ins.len(), 4);
    assert!(is_instr(&ins[0], 1, &[]) && matches!(ins[0].opcode, Opcode::HelperCall { id: 14 }));
    assert!(is_instr(&ins[1], 0, &[Operand::Var(VarId(1)), Operand::Immediate(0)]) && add(&ins[1]));
    assert!(is_instr(&ins[2], 3, &[Operand::Var(VarId(0)), Operand::Immediate(1)]) && add(&ins[2]));
    assert!(is_instr(&ins[3], 2, &[Operand::Var(VarId(3)), Operand::Immediate(0)]) && add(&ins[3]));
}

#[test]
fn a_guard_closes_the_block_and_opens_three() {
    // heap v = counts.lookup(1); if guard(v) { *v += 1; } else { return 1; } return 0;
    let spec = unit(&[
        (KeywordHeap, "heap"), (Identifier, "v"), (Equals, "="), (Identifier, "counts"), (Dot, "."),
        (Identifier, "lookup"), (LParen, "("), (Number, "1"), (RParen, ")"), (Semicolon, ";"),
        (KeywordIf, "if"), (KeywordGuard, "guard"), (LParen, "("), (Identifier, "v"), (RParen, ")"),
        (LBrace, "{"), (Star, "*"), (Identifier, "v"), (PlusEquals, "+="), (Number, "1"), (Semicolon, ";"), (RBrace, "}"),
        (KeywordElse, "else"), (LBrace, "{"), (KeywordReturn, "return"), (Number, "1"), (Semicolon, ";"), (RBrace, "}"),
        (KeywordReturn, "return"), (Number, "0"), (Semicolon, ";"),
    ]);
    let ir = lower_program(&parse_tokens(toks(&spec)).unwrap()).unwrap();
    let u = &ir.units[0];
    assert_eq!(u.next_var_id, 6);
    assert_eq!(u.next_block_id, 4);
    let ids: Vec<BlockId> = u.blocks.iter().map(|b| b.id).collect();
    assert_eq!(ids, vec![BlockId(0), BlockId(1), BlockId(2), BlockId(3)]);

    let entry = &u.blocks[0];
    assert_eq!(entry.instructions.len(), 2);
    assert!(is_instr(&entry.instructions[0], 0, &[Operand::Immediate(1)]));
    assert!(matches!(&entry.instructions[0].opcode, Opcode::CallMap { map_name } if map_name == "counts"));
    assert!(is_instr(&entry.instructions[1], 1, &[Operand::Var(VarId(0))]));
    assert!(matches!(entry.instructions[1].opcode, Opcode::NullCheck));
    assert_eq!(
        entry.terminator,
        Terminator::Branch { condition: Operand::Var(VarId(1)), true_block: BlockId(1), false_block: BlockId(2) }
    );

    let then = &u.blocks[1];
    assert_eq!(then.instructions.len(), 4);
    assert!(is_instr(&then.instructions[0], 2, &[Operand::Var(VarId(0))]));
    assert!(matches!(then.instructions[0].opcode, Opcode::NullCheck));
    assert!(is_instr(&then.instructions[1], 3, &[Operand::Var(VarId(0))]));
    assert!(matches!(then.instructions[1].opcode, Opcode::LoadKey));
    assert!(is_instr(&then.instructions[2], 4, &[Operand::Var(VarId(3)), Operand::Immediate(1)]) && add(&then.instructions[2]));
    assert!(is_instr(&then.instructions[3], 5, &[Operand::Var(VarId(0)), Operand::Var(VarId(4))]));
    assert!(matches!(then.instructions[3].opcode, Opcode::Store { size: 8 }));
    assert_eq!(then.terminator, Terminator::Jump(BlockId(3)));

    let other = &u.blocks[2];
    assert!(other.instructions.is_empty());
    assert_eq!(other.terminator, Terminator::Return(Operand::Immediate(1)));

    let merge = &u.blocks[3];
    assert!(merge.instructions.is_empty());
    assert_eq!(merge.terminator, Terminator::Return(Operand::Immediate(0)));
}

#[test]
fn an_unbound_guard_is_refused() {
    // if guard(w) { return 1; }
    let spec = unit(&[
        (KeywordIf, "if"), (KeywordGuard, "guard"), (LParen, "("), (Identifier, "w"), (RParen, ")"),
        (LBrace, "{"), (KeywordReturn, "return"), (Number, "1"), (Semicolon, ";"), (RBrace, "}"),
    ]);
    match lower_program(&parse_tokens(toks(&spec)).unwrap()) {
        Err(LoweringError::UnitLowering(m)) => assert_eq!(m, "Undefined variable in guard: w"),
        Ok(_) => panic!("expected a lowering error"),
    }
}

#[test]
fn an_unbound_name_is_refused() {
    // return y;
    let spec = unit(&[(KeywordReturn, "return"), (Identifier, "y"), (Semicolon, ";")]);
    match lower_program(&parse_tokens(toks(&spec)).unwrap()) {
        Err(LoweringError::UnitLowering(m)) => assert_eq!(m, "Undefined variable: y"),
        Ok(_) => panic!("expected a lowering error"),
    }
}

#[test]
fn a_method_the_program_kind_lacks_is_refused() {
    // return ctx.get_uid_gid();
    let spec = unit(&[
        (KeywordReturn, "return"), (Identifier, "ctx"), (Dot, "."), (Identifier, "get_uid_gid"), (LParen, "("),
        (RParen, ")"), (Semicolon, ";"),
    ]);
    match lower_program(&parse_tokens(toks(&spec)).unwrap()) {
        Err(LoweringError::UnitLowering(m)) => assert_eq!(m, "ctx method GetUidGid not allowed in Tracepoint"),
        Ok(_) => panic!("expected a lowering error"),
    }
}

#[test]
fn a_context_method_given_an_argument_is_refused() {
    // return ctx.get_pid_tgid(1);
    let spec = unit(&[
        (KeywordReturn, "return"), (Identifier, "ctx"), (Dot, "."), (Identifier, "get_pid_tgid"), (LParen, "("),
        (Number, "1"), (RParen, ")"), (Semicolon, ";"),
    ]);
    match lower_program(&parse_tokens(toks(&spec)).unwrap()) {
        Err(LoweringError::UnitLowering(m)) => assert_eq!(m, "ctx method get_pid_tgid expects 0 arguments, got 1"),
        Ok(_) => panic!("expected a lowering error"),
    }
}

#[test]
fn a_lookup_given_two_keys_is_refused() {
    // reg v = counts.lookup(1, 2); return 0;
    let spec = unit(&[
        (KeywordReg, "reg"), (Identifier, "v"), (Equals, "="), (Identifier, "counts"), (Dot, "."),
        (Identifier, "lookup"), (LParen, "("), (Number, "1"), (Comma, ","), (Number, "2"), (RParen, ")"),
        (Semicolon, ";"), (KeywordReturn, "return"), (Number, "0"), (Semicolon, ";"),
    ]);
    match lower_program(&parse_tokens(toks(&spec)).unwrap()) {
        Err(LoweringError::UnitLowering(m)) => assert_eq!(m, "counts.lookup expects 1 argument, got 2"),
        Ok(_) => panic!("expected a lowering error"),
    }
}

#[test]
fn announced_helpers_lower_in_a_tracepoint() {
    // reg t = ctx.get_ktime_ns(); reg k = ctx.get_current_task(); return 0;
    let spec = unit(&[
        (KeywordReg, "reg"), (Identifier, "t"), (Equals, "="), (Identifier, "ctx"), (Dot, "."),
        (Identifier, "get_ktime_ns"), (LParen, "("), (RParen, ")"), (Semicolon, ";"),
        (KeywordReg, "reg"), (Identifier, "k"), (Equals, "="), (Identifier, "ctx"), (Dot, "."),
        (Identifier, "get_current_task"), (LParen, "("), (RParen, ")"), (Semicolon, ";"),
        (KeywordReturn, "return"), (Number, "0"), (Semicolon, ";"),
    ]);
    let ir = lower_program(&parse_tokens(toks(&spec)).unwrap()).unwrap();
    let ins = &ir.units[0].blocks[0].instructions;
    assert!(ins.iter().any(|i| matches!(i.opcode, Opcode::HelperCall { id: 5 })));
    assert!(ins.iter().any(|i| matches!(i.opcode, Opcode::HelperCall { id: 35 })));
}

#[test]
fn a_guard_inside_a_guard_falls_through_to_the_outer_merge() {
    // heap v = counts.lookup(1); heap w = counts.lookup(2);
    // if guard(v) { if guard(w) { *w += 1; } *v += 1; } return 0;
    let spec = unit(&[
        (KeywordHeap, "heap"), (Identifier, "v"), (Equals, "="), (Identifier, "counts"), (Dot, "."),
        (Identifier, "lookup"), (LParen, "("), (Number, "1"), (RParen, ")"), (Semicolon, ";"),
        (KeywordHeap, "heap"), (Identifier, "w"), (Equals, "="), (Identifier, "counts"), (Dot, "."),
        (Identifier, "lookup"), (LParen, "("), (Number, "2"), (RParen, ")"), (Semicolon, ";"),
        (KeywordIf, "if"), (KeywordGuard, "guard"), (LParen, "("), (Identifier, "v"), (RParen, ")"), (LBrace, "{"),
        (KeywordIf, "if"), (KeywordGuard, "guard"), (LParen, "("), (Identifier, "w"), (RParen, ")"), (LBrace, "{"),
        (Star, "*"), (Identifier, "w"), (PlusEquals, "+="), (Number, "1"), (Semicolon, ";"), (RBrace, "}"),
        (Star, "*"), (Identifier, "v"), (PlusEquals, "+="), (Number, "1"), (Semicolon, ";"), (RBrace, "}"),
        (KeywordReturn, "return"), (Number, "0"), (Semicolon, ";"),
    ]);
    let ir = lower_program(&parse_tokens(toks(&spec)).unwrap()).unwrap();
    let u = &ir.units[0];
    let stores_to = |b: &solnix::ir::unit::BasicBlock, v: u32| {
        b.instructions.iter().any(|i| matches!(i.opcode, Opcode::Store { .. }) && i.operands[0] == Operand::Var(VarId(v)))
    };
    let outer = u.blocks.iter().find(|b| stores_to(b, 0)).unwrap();
    let inner = u.blocks.iter().find(|b| stores_to(b, 1)).unwrap();
    assert_ne!(outer.id, inner.id);
    let merge_of = |t: &Terminator| match t {
        Terminator::Jump(m) => *m,
        other => panic!("expected a jump, got {:?}", other),
    };
    // The inner guard's body falls through to the block that updates `v`.
    assert_eq!(merge_of(&inner.terminator), outer.id);
    // That block, still inside the outer guard, falls through to the outer merge.
    let m = merge_of(&outer.terminator);
    assert_ne!(m, outer.id);
    let merge = u.blocks.iter().find(|b| b.id == m).unwrap();
    assert_eq!(merge.terminator, Terminator::Return(Operand::Immediate(0)));
}

#[test]
fn a_field_is_looked_up_in_the_later_of_two_events_of_one_name() {
    // Two declarations of `e`: only the later one, where `b` sits at offset 8,
    // is searched.
    let spec = unit(&[
        (KeywordHeap, "heap"), (Identifier, "p"), (Equals, "="), (Identifier, "counts"), (Dot, "."),
        (Identifier, "lookup"), (LParen, "("), (Number, "1"), (RParen, ")"), (Semicolon, ";"),
        (KeywordReg, "reg"), (Identifier, "v"), (Equals, "="), (Identifier, "p"), (Dot, "."), (Identifier, "b"),
        (Semicolon, ";"),
        (KeywordReturn, "return"), (Number, "0"), (Semicolon, ";"),
    ]);
    let mut program = parse_tokens(toks(&spec)).unwrap();
    let loc = SourceLoc::new(1, 1, 0);
    let field = |name: &str, ty: EventType| EventField { name: name.to_string(), ty, loc };
    program.events.push(EventDecl { name: "e".to_string(), fields: vec![field("b", EventType::U32)], loc });
    program.events.push(EventDecl {
        name: "e".to_string(),
        fields: vec![field("a", EventType::U64), field("b", EventType::U32)],
        loc,
    });
    let ir = lower_program(&program).unwrap();
    let u = &ir.units[0];
    let adds_eight = u.blocks.iter().any(|b| {
        b.instructions.iter().any(|i| add(i) && i.operands.len() == 2 && i.operands[1] == Operand::Immediate(8))
    });
    assert!(adds_eight);
}
