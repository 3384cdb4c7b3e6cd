//! Parsing of units, statements and expressions.
use vstd::prelude::*;
use vstd::string::*;
use crate::ast::unit::{
    section_kind, Assignment, AssignmentOp, BinOp, BinaryExpr, Expr, ExprKind, HeapVarDecl, IfGuard,
    MethodCall, ProgramKind, Stmt, StmtKind, Unit, VarDecl, VarType,
};
use crate::ast::model::{
    expr_loc, expr_model, exprs_model, lemma_expr_loc, lemma_exprs_model_push, lemma_stmts_model_push, stmt_model,
    stmts_model, ExprModel, StmtModel,
};
use crate::parser::map::expect_token;
use crate::parser::syntax::{
    fails_with, gives,
    bin_model, mul_op, spec_add, spec_add_tail, spec_args, spec_expr, spec_mul, spec_mul_tail, spec_postfix,
    spec_primary, spec_shift, spec_shift_tail, spec_unary, spec_block, spec_decl, spec_expr_stmt, spec_heap_decl, spec_if_guard, spec_return, spec_stmt, spec_unit,
    spec_unit_items, UnitItems,
};
use crate::parser::parser::{ParseError, Parser};
use crate::parser::token::{SourceLoc, TokenKind};
use crate::text::{trim_quotes, trim_quotes_str};

verus! {

/// The program kind of a unit with these sections: that of the first, or unknown.
pub open spec fn kind_of_sections(sections: Seq<String>) -> ProgramKind {
    if sections.len() > 0 { section_kind(sections[0]@) } else { ProgramKind::Unknown }
}

/// Parsing moved forward over the same tokens and left the cursor valid.
pub open spec fn moved_on(before: Parser, after: Parser) -> bool {
    &&& after.wf()
    &&& after.toks() == before.toks()
    &&& before.pos() <= after.pos()
}

/// The models of the section names.
pub open spec fn section_texts(sections: Seq<String>) -> Seq<Seq<char>> {
    sections.map_values(|s: String| s@)
}

/// The model of a license.
pub open spec fn license_text(license: Option<String>) -> Option<Seq<char>> {
    match license {
        Some(l) => Some(l@),
        None => None,
    }
}

proof fn lemma_section_texts_push(sections: Seq<String>, s: String)
    ensures
        section_texts(sections.push(s)) == section_texts(sections).push(s@),
        section_texts(Seq::empty()) == Seq::<Seq<char>>::empty(),
{
    assert(section_texts(sections.push(s)) =~= section_texts(sections).push(s@));
    assert(section_texts(Seq::empty()) =~= Seq::<Seq<char>>::empty());
}

/// Parses `unit name { section "..." license "..." statements }`; a `:`
/// may follow `section` and `license`, and a `;` may end each item.
#[verifier::spinoff_prover]
pub fn parse_unit(parser: &mut Parser) -> (r: Result<Unit, ParseError>)
    requires
        old(parser).wf(),
    ensures
        moved_on(*old(parser), *final(parser)),
        r is Ok ==> old(parser).pos() < final(parser).pos(),
        r matches Err(e) ==> fails_with(spec_unit(old(parser).toks(), old(parser).pos()), e),
        r matches Ok(u) ==> {
            &&& gives(
                spec_unit(old(parser).toks(), old(parser).pos()),
                UnitItems { sections: section_texts(u.sections@), license: license_text(u.license), body: stmts_model(u.body@) },
                final(parser).pos(),
            )
            &&& u.name == old(parser).toks()[old(parser).pos() + 1].lexeme
            &&& u.loc == old(parser).cur().loc
            &&& u.kind == kind_of_sections(u.sections@)
            &&& u.events@.len() == 0
        },
{
    let ghost toks = parser.toks();
    let ghost p0 = parser.pos();
    let unit_loc = parser.current_loc();
    expect_token(parser, TokenKind::KeywordUnit)?;
    let name_tok = parser.expect(TokenKind::Identifier)?;
    expect_token(parser, TokenKind::LBrace)?;

    let mut sections: Vec<String> = Vec::new();
    let mut body: Vec<Stmt> = Vec::new();
    let mut license: Option<String> = None;
    proof {
        lemma_section_texts_push(sections@, name_tok.lexeme);
        assert(stmts_model(body@) =~= Seq::<StmtModel>::empty());
    }

    while !parser.check(TokenKind::RBrace)
        invariant
            parser.wf(),
            parser.toks() == toks,
            toks == old(parser).toks(),
            p0 == old(parser).pos(),
            p0 + 3 <= parser.pos(),
            spec_unit(toks, p0) == spec_unit_items(toks, parser.pos(),
                UnitItems { sections: section_texts(sections@), license: license_text(license), body: stmts_model(body@) }),
        decreases parser.remaining(),
    {
        if parser.match_token(TokenKind::KeywordSection) {
            let _ = parser.match_token(TokenKind::Colon);
            let s = parser.expect(TokenKind::StringLiteral)?;
            let txt = trim_quotes_str(s.lexeme.as_str());
            proof { lemma_section_texts_push(sections@, txt); }
            sections.push(txt);
            parser.skip_semicolon();
            continue;
        }
        if parser.match_token(TokenKind::KeywordLicense) {
            let _ = parser.match_token(TokenKind::Colon);
            let s = parser.expect(TokenKind::StringLiteral)?;
            let txt = trim_quotes_str(s.lexeme.as_str());
            license = Some(txt);
            parser.skip_semicolon();
            continue;
        }
        let ghost before = body@;
        parse_stmt(parser, &mut body)?;
        proof {
            assert(body@ == before.push(body@.last()));
            lemma_stmts_model_push(before, body@.last());
        }
    }
    expect_token(parser, TokenKind::RBrace)?;

    let kind = if sections.len() > 0 {
        ProgramKind::from_section(sections[0].as_str())
    } else {
        ProgramKind::Unknown
    };
    Ok(Unit {
        name: name_tok.lexeme,
        loc: unit_loc,
        sections,
        kind,
        license,
        events: Vec::new(),
        body,
    })
}

/// The statement forms that start with a declaration keyword.
fn parse_decl(parser: &mut Parser, var_type: VarType) -> (r: Result<Stmt, ParseError>)
    requires
        old(parser).wf(),
    ensures
        moved_on(*old(parser), *final(parser)),
        r is Ok ==> old(parser).pos() < final(parser).pos(),
        r matches Err(e) ==> fails_with(spec_decl(old(parser).toks(), old(parser).pos(), var_type), e),
        r matches Ok(s) ==> gives(spec_decl(old(parser).toks(), old(parser).pos(), var_type), stmt_model(s), final(parser).pos()),
{
    let var_loc = parser.current_loc();
    let var_name_tok = parser.expect(TokenKind::Identifier)?;
    expect_token(parser, TokenKind::Equals)?;
    let value_expr = parse_expr(parser)?;
    parser.skip_semicolon();
    Ok(Stmt {
        kind: StmtKind::VarDecl(VarDecl { name: var_name_tok.lexeme, var_type, value: Box::new(value_expr) }),
        loc: var_loc,
    })
}

/// Parses statements until a closing brace, which is consumed.
fn parse_block_body(parser: &mut Parser) -> (r: Result<Vec<Stmt>, ParseError>)
    requires
        old(parser).wf(),
    ensures
        moved_on(*old(parser), *final(parser)),
        r is Ok ==> old(parser).pos() < final(parser).pos(),
        r matches Err(e) ==> fails_with(spec_block(old(parser).toks(), old(parser).pos(), Seq::empty()), e),
        r matches Ok(v) ==> gives(spec_block(old(parser).toks(), old(parser).pos(), Seq::empty()), stmts_model(v@), final(parser).pos()),
    decreases old(parser).remaining(), 1nat,
{
    let ghost toks = parser.toks();
    let ghost p0 = parser.pos();
    let mut stmts: Vec<Stmt> = Vec::new();
    assert(stmts_model(stmts@) =~= Seq::<StmtModel>::empty());
    while !parser.match_token(TokenKind::RBrace)
        invariant
            parser.wf(),
            parser.toks() == toks,
            toks == old(parser).toks(),
            p0 == old(parser).pos(),
            p0 <= parser.pos(),
            spec_block(toks, p0, Seq::empty()) == spec_block(toks, parser.pos(), stmts_model(stmts@)),
        decreases parser.remaining(),
    {
        let ghost before = stmts@;
        parse_stmt(parser, &mut stmts)?;
        proof {
            assert(stmts@ == before.push(stmts@.last()));
            lemma_stmts_model_push(before, stmts@.last());
        }
    }
    Ok(stmts)
}

/// `name = expr` after `heap`, with an optional `;`.
fn parse_heap_decl(parser: &mut Parser) -> (r: Result<Stmt, ParseError>)
    requires
        old(parser).wf(),
    ensures
        moved_on(*old(parser), *final(parser)),
        r is Ok ==> old(parser).pos() < final(parser).pos(),
        r matches Err(e) ==> fails_with(spec_heap_decl(old(parser).toks(), old(parser).pos()), e),
        r matches Ok(s) ==> gives(spec_heap_decl(old(parser).toks(), old(parser).pos()), stmt_model(s), final(parser).pos()),
{
    let var_loc = parser.current_loc();
    let var_name_tok = parser.expect(TokenKind::Identifier)?;
    expect_token(parser, TokenKind::Equals)?;
    let init = parse_expr(parser)?;
    parser.skip_semicolon();
    Ok(Stmt { kind: StmtKind::HeapVarDecl(HeapVarDecl { name: var_name_tok.lexeme, init }), loc: var_loc })
}

/// `expr` after `return`, with an optional `;`.
fn parse_return(parser: &mut Parser) -> (r: Result<Stmt, ParseError>)
    requires
        old(parser).wf(),
    ensures
        moved_on(*old(parser), *final(parser)),
        r is Ok ==> old(parser).pos() < final(parser).pos(),
        r matches Err(e) ==> fails_with(spec_return(old(parser).toks(), old(parser).pos()), e),
        r matches Ok(s) ==> gives(spec_return(old(parser).toks(), old(parser).pos()), stmt_model(s), final(parser).pos()),
{
    let return_loc = parser.current_loc();
    let v = parse_expr(parser)?;
    parser.skip_semicolon();
    Ok(Stmt { kind: StmtKind::Return(Box::new(v)), loc: return_loc })
}

/// `guard(name) { ... } [else { ... }]` after `if`.
fn parse_if_guard(parser: &mut Parser) -> (r: Result<Stmt, ParseError>)
    requires
        old(parser).wf(),
    ensures
        moved_on(*old(parser), *final(parser)),
        r is Ok ==> old(parser).pos() < final(parser).pos(),
        r matches Err(e) ==> fails_with(spec_if_guard(old(parser).toks(), old(parser).pos()), e),
        r matches Ok(s) ==> gives(spec_if_guard(old(parser).toks(), old(parser).pos()), stmt_model(s), final(parser).pos()),
    decreases old(parser).remaining(), 2nat,
{
    let if_loc = parser.current_loc();
    expect_token(parser, TokenKind::KeywordGuard)?;
    expect_token(parser, TokenKind::LParen)?;
    let var_tok = parser.expect(TokenKind::Identifier)?;
    expect_token(parser, TokenKind::RParen)?;
    expect_token(parser, TokenKind::LBrace)?;
    let then_body = parse_block_body(parser)?;
    let else_body = if parser.match_token(TokenKind::KeywordElse) {
        expect_token(parser, TokenKind::LBrace)?;
        let eb = parse_block_body(parser)?;
        Some(eb)
    } else {
        None
    };
    let var_loc = var_tok.loc;
    Ok(Stmt {
        kind: StmtKind::IfGuard(IfGuard {
            condition: Expr { kind: ExprKind::Variable(var_tok.lexeme), loc: var_loc },
            then_body,
            else_body,
        }),
        loc: if_loc,
    })
}

/// An assignment or an expression statement.
fn parse_expr_stmt(parser: &mut Parser) -> (r: Result<Stmt, ParseError>)
    requires
        old(parser).wf(),
    ensures
        moved_on(*old(parser), *final(parser)),
        r is Ok ==> old(parser).pos() < final(parser).pos(),
        r matches Err(e) ==> fails_with(spec_expr_stmt(old(parser).toks(), old(parser).pos()), e),
        r matches Ok(s) ==> gives(spec_expr_stmt(old(parser).toks(), old(parser).pos()), stmt_model(s), final(parser).pos()),
{
    let target = parse_expr(parser)?;
    proof { lemma_expr_loc(target); }
    let target_loc = target.loc;
    if parser.match_token(TokenKind::Equals) {
        let value = parse_expr(parser)?;
        parser.skip_semicolon();
        return Ok(Stmt {
            kind: StmtKind::Assignment(Assignment { target: Box::new(target), op: AssignmentOp::Assign, value: Box::new(value) }),
            loc: target_loc,
        });
    }
    if parser.match_token(TokenKind::PlusEquals) {
        let value = parse_expr(parser)?;
        parser.skip_semicolon();
        return Ok(Stmt {
            kind: StmtKind::Assignment(Assignment { target: Box::new(target), op: AssignmentOp::AddAssign, value: Box::new(value) }),
            loc: target_loc,
        });
    }
    parser.skip_semicolon();
    Ok(Stmt { kind: StmtKind::ExprStmt(Box::new(target)), loc: target_loc })
}

/// Parses one statement and appends it to `body`.
fn parse_stmt(parser: &mut Parser, body: &mut Vec<Stmt>) -> (r: Result<(), ParseError>)
    requires
        old(parser).wf(),
    ensures
        moved_on(*old(parser), *final(parser)),
        r is Ok ==> old(parser).pos() < final(parser).pos() && final(body)@.len() == old(body)@.len() + 1
            && final(body)@.subrange(0, old(body)@.len() as int) == old(body)@,
        r is Err ==> final(body)@ == old(body)@,
        r matches Err(e) ==> fails_with(spec_stmt(old(parser).toks(), old(parser).pos()), e),
        r is Ok ==> gives(spec_stmt(old(parser).toks(), old(parser).pos()), stmt_model(final(body)@.last()), final(parser).pos()),
    decreases old(parser).remaining(), 0nat,
{
    let s = if parser.match_token(TokenKind::KeywordReg) {
        parse_decl(parser, VarType::Reg)?
    } else if parser.match_token(TokenKind::KeywordImm) {
        parse_decl(parser, VarType::Imm)?
    } else if parser.match_token(TokenKind::KeywordHeap) {
        parse_heap_decl(parser)?
    } else if parser.match_token(TokenKind::KeywordReturn) {
        parse_return(parser)?
    } else if parser.match_token(TokenKind::KeywordIf) {
        parse_if_guard(parser)?
    } else {
        parse_expr_stmt(parser)?
    };
    body.push(s);
    Ok(())
}

/// Parses an expression.
pub fn parse_expr(parser: &mut Parser) -> (r: Result<Expr, ParseError>)
    requires
        old(parser).wf(),
    ensures
        moved_on(*old(parser), *final(parser)),
        r is Ok ==> old(parser).pos() < final(parser).pos(),
        r matches Err(e) ==> fails_with(spec_expr(old(parser).toks(), old(parser).pos()), e),
        r matches Ok(e) ==> gives(spec_expr(old(parser).toks(), old(parser).pos()), expr_model(e), final(parser).pos()),
    decreases old(parser).remaining(), 6nat,
{
    parse_add(parser)
}

fn binary(op: BinOp, left: Expr, right: Expr) -> (r: Expr)
    ensures
        r.loc == left.loc,
        expr_model(r) == bin_model(op, expr_model(left), expr_model(right)),
{
    proof { lemma_expr_loc(left); }
    let loc = left.loc;
    Expr { kind: ExprKind::Binary(BinaryExpr { op, left: Box::new(left), right: Box::new(right) }), loc }
}

fn parse_add(parser: &mut Parser) -> (r: Result<Expr, ParseError>)
    requires
        old(parser).wf(),
    ensures
        moved_on(*old(parser), *final(parser)),
        r is Ok ==> old(parser).pos() < final(parser).pos(),
        r matches Err(e) ==> fails_with(spec_add(old(parser).toks(), old(parser).pos()), e),
        r matches Ok(e) ==> gives(spec_add(old(parser).toks(), old(parser).pos()), expr_model(e), final(parser).pos()),
    decreases old(parser).remaining(), 5nat,
{
    let ghost toks = parser.toks();
    let ghost p0 = parser.pos();
    let mut expr = parse_shift(parser)?;
    loop
        invariant_except_break
            parser.wf(),
            parser.toks() == toks,
            toks == old(parser).toks(),
            p0 == old(parser).pos(),
            p0 < parser.pos(),
            spec_add(toks, p0) == spec_add_tail(toks, parser.pos(), expr_model(expr)),
        ensures
            parser.wf(),
            parser.toks() == toks,
            p0 < parser.pos(),
            gives(spec_add(toks, p0), expr_model(expr), parser.pos()),
        decreases parser.remaining(),
    {
        let ghost p = parser.pos();
        if parser.match_token(TokenKind::Plus) {
            let rhs = parse_mul(parser)?;
            expr = binary(BinOp::Add, expr, rhs);
            continue;
        }
        if parser.match_token(TokenKind::Minus) {
            let rhs = parse_mul(parser)?;
            expr = binary(BinOp::Sub, expr, rhs);
            continue;
        }
        break;
    }
    Ok(expr)
}

fn parse_mul(parser: &mut Parser) -> (r: Result<Expr, ParseError>)
    requires
        old(parser).wf(),
    ensures
        moved_on(*old(parser), *final(parser)),
        r is Ok ==> old(parser).pos() < final(parser).pos(),
        r matches Err(e) ==> fails_with(spec_mul(old(parser).toks(), old(parser).pos()), e),
        r matches Ok(e) ==> gives(spec_mul(old(parser).toks(), old(parser).pos()), expr_model(e), final(parser).pos()),
    decreases old(parser).remaining(), 3nat,
{
    let ghost toks = parser.toks();
    let ghost p0 = parser.pos();
    let mut expr = parse_unary(parser)?;
    loop
        invariant_except_break
            parser.wf(),
            parser.toks() == toks,
            toks == old(parser).toks(),
            p0 == old(parser).pos(),
            p0 < parser.pos(),
            spec_mul(toks, p0) == spec_mul_tail(toks, parser.pos(), expr_model(expr)),
        ensures
            parser.wf(),
            parser.toks() == toks,
            p0 < parser.pos(),
            gives(spec_mul(toks, p0), expr_model(expr), parser.pos()),
        decreases parser.remaining(),
    {
        if parser.match_token(TokenKind::Star) {
            let rhs = parse_unary(parser)?;
            expr = binary(BinOp::Mul, expr, rhs);
            continue;
        }
        if parser.match_token(TokenKind::Slash) {
            let rhs = parse_unary(parser)?;
            expr = binary(BinOp::Div, expr, rhs);
            continue;
        }
        if parser.match_token(TokenKind::Percent) {
            let rhs = parse_unary(parser)?;
            expr = binary(BinOp::Mod, expr, rhs);
            continue;
        }
        break;
    }
    Ok(expr)
}

fn parse_unary(parser: &mut Parser) -> (r: Result<Expr, ParseError>)
    requires
        old(parser).wf(),
    ensures
        moved_on(*old(parser), *final(parser)),
        r is Ok ==> old(parser).pos() < final(parser).pos(),
        r matches Err(e) ==> fails_with(spec_unary(old(parser).toks(), old(parser).pos()), e),
        r matches Ok(e) ==> gives(spec_unary(old(parser).toks(), old(parser).pos()), expr_model(e), final(parser).pos()),
    decreases old(parser).remaining(), 2nat,
{
    if parser.match_token(TokenKind::Star) {
        let inner = parse_unary(parser)?;
        proof { lemma_expr_loc(inner); }
        let inner_loc = inner.loc;
        return Ok(Expr { kind: ExprKind::Dereference(Box::new(inner)), loc: inner_loc });
    }
    parse_primary(parser)
}

fn parse_primary(parser: &mut Parser) -> (r: Result<Expr, ParseError>)
    requires
        old(parser).wf(),
    ensures
        moved_on(*old(parser), *final(parser)),
        r is Ok ==> old(parser).pos() < final(parser).pos(),
        r matches Err(e) ==> fails_with(spec_primary(old(parser).toks(), old(parser).pos()), e),
        r matches Ok(e) ==> gives(spec_primary(old(parser).toks(), old(parser).pos()), expr_model(e), final(parser).pos()),
    decreases old(parser).remaining(), 1nat,
{
    let ghost toks = parser.toks();
    let ghost p0 = parser.pos();
    let mut expr: Expr;
    if parser.check(TokenKind::Number) {
        let num_tok = parser.expect(TokenKind::Number)?;
        let value = match num_tok.int_value {
            Some(v) => v,
            None => {
                return Err(parser.error(String::from_str("Invalid number literal")));
            },
        };
        expr = Expr { kind: ExprKind::Number(value), loc: num_tok.loc };
    } else if parser.match_token(TokenKind::LParen) {
        expr = parse_expr(parser)?;
        expect_token(parser, TokenKind::RParen)?;
    } else {
        let ident_tok = parser.expect(TokenKind::Identifier)?;
        expr = Expr { kind: ExprKind::Variable(ident_tok.lexeme), loc: ident_tok.loc };
    }
    assert(spec_primary(toks, p0) == spec_postfix(toks, parser.pos(), expr_model(expr)));

    loop
        invariant_except_break
            parser.wf(),
            parser.toks() == toks,
            toks == old(parser).toks(),
            p0 == old(parser).pos(),
            p0 < parser.pos(),
            spec_primary(toks, p0) == spec_postfix(toks, parser.pos(), expr_model(expr)),
        ensures
            parser.wf(),
            parser.toks() == toks,
            p0 < parser.pos(),
            gives(spec_primary(toks, p0), expr_model(expr), parser.pos()),
        decreases parser.remaining(),
    {
        let ghost it = parser.pos();
        if parser.match_token(TokenKind::Dot) {
            let field_tok = parser.expect(TokenKind::Identifier)?;
            if parser.match_token(TokenKind::LParen) {
                let ghost a0 = parser.pos();
                let mut args: Vec<Expr> = Vec::new();
                if !parser.check(TokenKind::RParen) {
                    assert(spec_args(toks, a0, Seq::empty()) matches Err(x) ==> spec_primary(toks, p0) matches Err(y) && y == x);
                    loop
                        invariant_except_break
                            parser.wf(),
                            parser.toks() == toks,
                            toks == old(parser).toks(),
                            p0 == old(parser).pos(),
                            p0 < it < a0 <= parser.pos(),
                            spec_args(toks, a0, Seq::empty()) matches Err(x) ==> spec_primary(toks, p0) matches Err(y) && y == x,
                            spec_args(toks, a0, Seq::empty()) == spec_args(toks, parser.pos(), exprs_model(args@)),
                        ensures
                            parser.wf(),
                            parser.toks() == toks,
                            p0 < it < a0 < parser.pos(),
                            gives(spec_args(toks, a0, Seq::empty()), exprs_model(args@), parser.pos()),
                        decreases parser.remaining(),
                    {
                        let arg = parse_expr(parser)?;
                        proof { lemma_exprs_model_push(args@, arg); }
                        args.push(arg);
                        if parser.match_token(TokenKind::Comma) {
                            continue;
                        }
                        break;
                    }
                } else {
                    assert(exprs_model(args@) =~= Seq::<ExprModel>::empty());
                }
                expect_token(parser, TokenKind::RParen)?;
                let receiver = match &expr.kind {
                    ExprKind::Variable(name) => Box::new(Expr { kind: ExprKind::Variable(name.clone()), loc: expr.loc }),
                    _ => {
                        return Err(parser.error(String::from_str("Unsupported method receiver")));
                    },
                };
                let loc = expr.loc;
                expr = Expr {
                    kind: ExprKind::MethodCall(MethodCall { receiver, method: field_tok.lexeme, arg: args }),
                    loc,
                };
            } else {
                let floc = field_tok.loc;
                expr = Expr {
                    kind: ExprKind::FieldAccess { base: Box::new(expr), field: field_tok.lexeme },
                    loc: floc,
                };
            }
            continue;
        }
        break;
    }
    Ok(expr)
}

fn parse_shift(parser: &mut Parser) -> (r: Result<Expr, ParseError>)
    requires
        old(parser).wf(),
    ensures
        moved_on(*old(parser), *final(parser)),
        r is Ok ==> old(parser).pos() < final(parser).pos(),
        r matches Err(e) ==> fails_with(spec_shift(old(parser).toks(), old(parser).pos()), e),
        r matches Ok(e) ==> gives(spec_shift(old(parser).toks(), old(parser).pos()), expr_model(e), final(parser).pos()),
    decreases old(parser).remaining(), 4nat,
{
    let ghost toks = parser.toks();
    let ghost p0 = parser.pos();
    let mut expr = parse_mul(parser)?;
    loop
        invariant_except_break
            parser.wf(),
            parser.toks() == toks,
            toks == old(parser).toks(),
            p0 == old(parser).pos(),
            p0 < parser.pos(),
            spec_shift(toks, p0) == spec_shift_tail(toks, parser.pos(), expr_model(expr)),
        ensures
            parser.wf(),
            parser.toks() == toks,
            p0 < parser.pos(),
            gives(spec_shift(toks, p0), expr_model(expr), parser.pos()),
        decreases parser.remaining(),
    {
        if parser.match_token(TokenKind::Shl) {
            let rhs = parse_mul(parser)?;
            expr = binary(BinOp::Shl, expr, rhs);
            continue;
        }
        if parser.match_token(TokenKind::Shr) {
            let rhs = parse_mul(parser)?;
            expr = binary(BinOp::Shr, expr, rhs);
            continue;
        }
        break;
    }
    Ok(expr)
}

} // verus!
