//! The grammar of expressions, statements and units as functions from a
//! token position to the tree read there and the position after it, or to
//! the failure (location and message) that parsing reports there.
use vstd::prelude::*;
use crate::ast::model::{expr_loc, ExprModel, StmtModel};
use crate::ast::unit::{AssignmentOp, BinOp, VarType};
use crate::parser::parser::{expected_message, ParseError};
use crate::parser::token::{SourceLoc, Token, TokenKind};
use crate::text::trim_quotes;

verus! {

/// A parse failure as a value: where it happened and the message.
pub type SpecError = (SourceLoc, Seq<char>);

/// What reading a `T` at some position gives: the value and the position
/// after it, or the failure.
pub type Parsed<T> = Result<(T, int), SpecError>;

/// `r` reads `v` and ends at `end`.
pub open spec fn gives<T>(r: Parsed<T>, v: T, end: int) -> bool {
    r == Ok::<(T, int), SpecError>((v, end))
}

/// `r` is the failure `e`, its message taken as characters.
pub open spec fn fails_with<T>(r: Parsed<T>, e: ParseError) -> bool {
    r matches Err(x) && x.0 == e.0 && x.1 == e.1@
}

/// The failure reported for a position outside the stream, which a parser
/// over a stream that ends with `Eof` never reaches.
pub open spec fn outside() -> SpecError {
    (SourceLoc { line: 0, column: 0, offset: 0 }, Seq::empty())
}

/// The token at `p` is not of kind `kind` (or there is none).
pub open spec fn fails(toks: Seq<Token>, p: int, kind: TokenKind) -> bool {
    !(0 <= p < toks.len() && toks[p].kind == kind)
}

/// The failure of expecting a token of kind `kind` at `p`.
pub open spec fn fail(toks: Seq<Token>, p: int, kind: TokenKind) -> SpecError {
    if 0 <= p < toks.len() { (toks[p].loc, expected_message(kind, toks[p].kind)) } else { outside() }
}

/// A failure with `message` at the token at `p`.
pub open spec fn error_at(toks: Seq<Token>, p: int, message: Seq<char>) -> SpecError {
    if 0 <= p < toks.len() { (toks[p].loc, message) } else { outside() }
}

/// The tree of `left op right`, placed where `left` is.
pub open spec fn bin_model(op: BinOp, left: ExprModel, right: ExprModel) -> ExprModel {
    ExprModel::Binary(op, Box::new(left), Box::new(right), expr_loc(left))
}

/// An expression: a sum.
pub open spec fn spec_expr(toks: Seq<Token>, p: int) -> Parsed<ExprModel>
    decreases toks.len() - p, 7nat,
{
    if !(0 <= p < toks.len()) {
        Err(outside())
    } else {
        spec_add(toks, p)
    }
}

/// A shift expression followed by any number of `+ product` or `- product`.
pub open spec fn spec_add(toks: Seq<Token>, p: int) -> Parsed<ExprModel>
    decreases toks.len() - p, 6nat,
{
    if !(0 <= p < toks.len()) {
        Err(outside())
    } else {
        match spec_shift(toks, p) {
            Ok((l, q)) => if p < q <= toks.len() { spec_add_tail(toks, q, l) } else { Err(outside()) },
            Err(e) => Err(e),
        }
    }
}

/// The `+`/`-` operations after `left`, folded to the left.
pub open spec fn spec_add_tail(toks: Seq<Token>, p: int, left: ExprModel) -> Parsed<ExprModel>
    decreases toks.len() - p, 0nat,
{
    if !(0 <= p < toks.len()) {
        Err(outside())
    } else if toks[p].kind == TokenKind::Plus || toks[p].kind == TokenKind::Minus {
        let op = if toks[p].kind == TokenKind::Plus { BinOp::Add } else { BinOp::Sub };
        match spec_mul(toks, p + 1) {
            Ok((r, q)) => if p < q <= toks.len() { spec_add_tail(toks, q, bin_model(op, left, r)) } else { Err(outside()) },
            Err(e) => Err(e),
        }
    } else {
        Ok((left, p))
    }
}

/// A product followed by any number of `<< product` or `>> product`.
pub open spec fn spec_shift(toks: Seq<Token>, p: int) -> Parsed<ExprModel>
    decreases toks.len() - p, 5nat,
{
    if !(0 <= p < toks.len()) {
        Err(outside())
    } else {
        match spec_mul(toks, p) {
            Ok((l, q)) => if p < q <= toks.len() { spec_shift_tail(toks, q, l) } else { Err(outside()) },
            Err(e) => Err(e),
        }
    }
}

/// The shifts after `left`, folded to the left.
pub open spec fn spec_shift_tail(toks: Seq<Token>, p: int, left: ExprModel) -> Parsed<ExprModel>
    decreases toks.len() - p, 0nat,
{
    if !(0 <= p < toks.len()) {
        Err(outside())
    } else if toks[p].kind == TokenKind::Shl || toks[p].kind == TokenKind::Shr {
        let op = if toks[p].kind == TokenKind::Shl { BinOp::Shl } else { BinOp::Shr };
        match spec_mul(toks, p + 1) {
            Ok((r, q)) => if p < q <= toks.len() { spec_shift_tail(toks, q, bin_model(op, left, r)) } else { Err(outside()) },
            Err(e) => Err(e),
        }
    } else {
        Ok((left, p))
    }
}

/// A unary expression followed by any number of `*`, `/` or `%` and a
/// unary expression.
pub open spec fn spec_mul(toks: Seq<Token>, p: int) -> Parsed<ExprModel>
    decreases toks.len() - p, 4nat,
{
    if !(0 <= p < toks.len()) {
        Err(outside())
    } else {
        match spec_unary(toks, p) {
            Ok((l, q)) => if p < q <= toks.len() { spec_mul_tail(toks, q, l) } else { Err(outside()) },
            Err(e) => Err(e),
        }
    }
}

/// The operator of a product step.
pub open spec fn mul_op(k: TokenKind) -> Option<BinOp> {
    if k == TokenKind::Star {
        Some(BinOp::Mul)
    } else if k == TokenKind::Slash {
        Some(BinOp::Div)
    } else if k == TokenKind::Percent {
        Some(BinOp::Mod)
    } else {
        None
    }
}

/// The products after `left`, folded to the left.
pub open spec fn spec_mul_tail(toks: Seq<Token>, p: int, left: ExprModel) -> Parsed<ExprModel>
    decreases toks.len() - p, 0nat,
{
    if !(0 <= p < toks.len()) {
        Err(outside())
    } else {
        match mul_op(toks[p].kind) {
            Some(op) => match spec_unary(toks, p + 1) {
                Ok((r, q)) => if p < q <= toks.len() { spec_mul_tail(toks, q, bin_model(op, left, r)) } else { Err(outside()) },
                Err(e) => Err(e),
            },
            None => Ok((left, p)),
        }
    }
}

/// Any number of `*` (dereference, placed where the operand is) before a
/// primary expression.
pub open spec fn spec_unary(toks: Seq<Token>, p: int) -> Parsed<ExprModel>
    decreases toks.len() - p, 3nat,
{
    if !(0 <= p < toks.len()) {
        Err(outside())
    } else if toks[p].kind == TokenKind::Star {
        match spec_unary(toks, p + 1) {
            Ok((inner, q)) => Ok((ExprModel::Dereference(Box::new(inner), expr_loc(inner)), q)),
            Err(e) => Err(e),
        }
    } else {
        spec_primary(toks, p)
    }
}

/// A number, a parenthesized expression or a name, then its field accesses
/// and method calls.
pub open spec fn spec_primary(toks: Seq<Token>, p: int) -> Parsed<ExprModel>
    decreases toks.len() - p, 2nat,
{
    if !(0 <= p < toks.len()) {
        Err(outside())
    } else {
        let base: Parsed<ExprModel> = if toks[p].kind == TokenKind::Number {
            match toks[p].int_value {
                Some(v) => Ok((ExprModel::Number(v, toks[p].loc), p + 1)),
                None => Err(error_at(toks, p + 1, "Invalid number literal"@)),
            }
        } else if toks[p].kind == TokenKind::LParen {
            match spec_expr(toks, p + 1) {
                Ok((e, q)) => if p < q <= toks.len() {
                    if fails(toks, q, TokenKind::RParen) { Err(fail(toks, q, TokenKind::RParen)) } else { Ok((e, q + 1)) }
                } else {
                    Err(outside())
                },
                Err(e) => Err(e),
            }
        } else if toks[p].kind == TokenKind::Identifier {
            Ok((ExprModel::Variable(toks[p].lexeme@, toks[p].loc), p + 1))
        } else {
            Err(fail(toks, p, TokenKind::Identifier))
        };
        match base {
            Ok((e, q)) => if p < q <= toks.len() { spec_postfix(toks, q, e) } else { Err(outside()) },
            Err(e) => Err(e),
        }
    }
}

/// Field accesses (`.name`, placed at the name) and method calls
/// (`.name(args)`, whose receiver must be a plain name) after `e`.
pub open spec fn spec_postfix(toks: Seq<Token>, p: int, e: ExprModel) -> Parsed<ExprModel>
    decreases toks.len() - p, 1nat,
{
    if !(0 <= p < toks.len()) {
        Err(outside())
    } else if toks[p].kind != TokenKind::Dot {
        Ok((e, p))
    } else if fails(toks, p + 1, TokenKind::Identifier) {
        Err(fail(toks, p + 1, TokenKind::Identifier))
    } else if !(p + 2 < toks.len()) {
        Err(outside())
    } else {
        let f = toks[p + 1];
        if toks[p + 2].kind == TokenKind::LParen {
            let args: Parsed<Seq<ExprModel>> = if p + 3 < toks.len() && toks[p + 3].kind == TokenKind::RParen {
                Ok((Seq::empty(), p + 3))
            } else {
                spec_args(toks, p + 3, Seq::empty())
            };
            match args {
                Ok((a, q)) => if p < q < toks.len() {
                    if toks[q].kind != TokenKind::RParen {
                        Err(fail(toks, q, TokenKind::RParen))
                    } else {
                        match e {
                            ExprModel::Variable(_, _) =>
                                spec_postfix(toks, q + 1, ExprModel::MethodCall(Box::new(e), f.lexeme@, a, expr_loc(e))),
                            _ => Err(error_at(toks, q + 1, "Unsupported method receiver"@)),
                        }
                    }
                } else {
                    Err(outside())
                },
                Err(x) => Err(x),
            }
        } else {
            spec_postfix(toks, p + 2, ExprModel::FieldAccess(Box::new(e), f.lexeme@, f.loc))
        }
    }
}

/// Comma-separated arguments, appended to `acc`; the position returned is
/// that of the token after the last argument.
pub open spec fn spec_args(toks: Seq<Token>, p: int, acc: Seq<ExprModel>) -> Parsed<Seq<ExprModel>>
    decreases toks.len() - p, 8nat,
{
    if !(0 <= p < toks.len()) {
        Err(outside())
    } else {
        match spec_expr(toks, p) {
            Ok((a, q)) => if p < q < toks.len() {
                if toks[q].kind == TokenKind::Comma {
                    spec_args(toks, q + 1, acc.push(a))
                } else {
                    Ok((acc.push(a), q))
                }
            } else {
                Err(outside())
            },
            Err(e) => Err(e),
        }
    }
}

/// The position after an optional `;` at `q`.
pub open spec fn skip_semi(toks: Seq<Token>, q: int) -> int {
    if 0 <= q < toks.len() && toks[q].kind == TokenKind::Semicolon { q + 1 } else { q }
}

/// Where a list item that ends at `q` is over: after a `;` or `,` there,
/// or at `q` itself when the list's closing token `close` follows directly.
/// Anything else is the failure of expecting a `;`.
pub open spec fn spec_item_end(toks: Seq<Token>, q: int, close: TokenKind) -> Result<int, SpecError> {
    if 0 <= q < toks.len() && (toks[q].kind == TokenKind::Semicolon || toks[q].kind == TokenKind::Comma) {
        Ok(q + 1)
    } else if 0 <= q < toks.len() && toks[q].kind == close {
        Ok(q)
    } else {
        Err(fail(toks, q, TokenKind::Semicolon))
    }
}

/// An expression with an optional `;` after it; the position returned is
/// after the `;` where there is one.
pub open spec fn spec_expr_opt_semi(toks: Seq<Token>, p: int) -> Parsed<ExprModel> {
    match spec_expr(toks, p) {
        Ok((e, q)) => if p < q <= toks.len() {
            Ok((e, skip_semi(toks, q)))
        } else {
            Err(outside())
        },
        Err(e) => Err(e),
    }
}

/// `name = expr`, with an optional `;`, after `reg` or `imm`, placed at the name.
pub open spec fn spec_decl(toks: Seq<Token>, p: int, var_type: VarType) -> Parsed<StmtModel> {
    if fails(toks, p, TokenKind::Identifier) {
        Err(fail(toks, p, TokenKind::Identifier))
    } else if fails(toks, p + 1, TokenKind::Equals) {
        Err(fail(toks, p + 1, TokenKind::Equals))
    } else {
        match spec_expr_opt_semi(toks, p + 2) {
            Ok((e, q)) => Ok((StmtModel::VarDecl(toks[p].lexeme@, var_type, e, toks[p].loc), q)),
            Err(e) => Err(e),
        }
    }
}

/// `name = expr`, with an optional `;`, after `heap`, placed at the name.
pub open spec fn spec_heap_decl(toks: Seq<Token>, p: int) -> Parsed<StmtModel> {
    if fails(toks, p, TokenKind::Identifier) {
        Err(fail(toks, p, TokenKind::Identifier))
    } else if fails(toks, p + 1, TokenKind::Equals) {
        Err(fail(toks, p + 1, TokenKind::Equals))
    } else {
        match spec_expr_opt_semi(toks, p + 2) {
            Ok((e, q)) => Ok((StmtModel::HeapVarDecl(toks[p].lexeme@, e, toks[p].loc), q)),
            Err(e) => Err(e),
        }
    }
}

/// `expr`, with an optional `;`, after `return`, placed where the expression starts.
pub open spec fn spec_return(toks: Seq<Token>, p: int) -> Parsed<StmtModel> {
    if !(0 <= p < toks.len()) {
        Err(outside())
    } else {
        match spec_expr_opt_semi(toks, p) {
            Ok((e, q)) => Ok((StmtModel::Return(e, toks[p].loc), q)),
            Err(e) => Err(e),
        }
    }
}

/// An expression, or an expression followed by `=` or `+=` and a value;
/// either may end with a `;`.
pub open spec fn spec_expr_stmt(toks: Seq<Token>, p: int) -> Parsed<StmtModel> {
    match spec_expr(toks, p) {
        Ok((target, q)) => if p < q < toks.len() {
            if toks[q].kind == TokenKind::Equals || toks[q].kind == TokenKind::PlusEquals {
                let op = if toks[q].kind == TokenKind::Equals { AssignmentOp::Assign } else { AssignmentOp::AddAssign };
                match spec_expr_opt_semi(toks, q + 1) {
                    Ok((v, r)) => Ok((StmtModel::Assignment(target, op, v, expr_loc(target)), r)),
                    Err(e) => Err(e),
                }
            } else {
                Ok((StmtModel::ExprStmt(target, expr_loc(target)), skip_semi(toks, q)))
            }
        } else {
            Err(outside())
        },
        Err(e) => Err(e),
    }
}

/// `guard(name) { ... }` with an optional `else { ... }` after `if`,
/// placed at `guard`.
pub open spec fn spec_if_guard(toks: Seq<Token>, p: int) -> Parsed<StmtModel>
    decreases toks.len() - p, 0nat,
{
    if fails(toks, p, TokenKind::KeywordGuard) {
        Err(fail(toks, p, TokenKind::KeywordGuard))
    } else if fails(toks, p + 1, TokenKind::LParen) {
        Err(fail(toks, p + 1, TokenKind::LParen))
    } else if fails(toks, p + 2, TokenKind::Identifier) {
        Err(fail(toks, p + 2, TokenKind::Identifier))
    } else if fails(toks, p + 3, TokenKind::RParen) {
        Err(fail(toks, p + 3, TokenKind::RParen))
    } else if fails(toks, p + 4, TokenKind::LBrace) {
        Err(fail(toks, p + 4, TokenKind::LBrace))
    } else {
        let cond = ExprModel::Variable(toks[p + 2].lexeme@, toks[p + 2].loc);
        match spec_block(toks, p + 5, Seq::empty()) {
            Ok((then_body, a)) => if p < a < toks.len() {
                if toks[a].kind == TokenKind::KeywordElse {
                    if fails(toks, a + 1, TokenKind::LBrace) {
                        Err(fail(toks, a + 1, TokenKind::LBrace))
                    } else {
                        match spec_block(toks, a + 2, Seq::empty()) {
                            Ok((else_body, b)) => Ok((StmtModel::IfGuard(cond, then_body, Some(else_body), toks[p].loc), b)),
                            Err(e) => Err(e),
                        }
                    }
                } else {
                    Ok((StmtModel::IfGuard(cond, then_body, None, toks[p].loc), a))
                }
            } else {
                Err(outside())
            },
            Err(e) => Err(e),
        }
    }
}

/// A statement: chosen by its first token.
pub open spec fn spec_stmt(toks: Seq<Token>, p: int) -> Parsed<StmtModel>
    decreases toks.len() - p, 1nat,
{
    if !(0 <= p < toks.len()) {
        Err(outside())
    } else if toks[p].kind == TokenKind::KeywordReg {
        spec_decl(toks, p + 1, VarType::Reg)
    } else if toks[p].kind == TokenKind::KeywordImm {
        spec_decl(toks, p + 1, VarType::Imm)
    } else if toks[p].kind == TokenKind::KeywordHeap {
        spec_heap_decl(toks, p + 1)
    } else if toks[p].kind == TokenKind::KeywordReturn {
        spec_return(toks, p + 1)
    } else if toks[p].kind == TokenKind::KeywordIf {
        spec_if_guard(toks, p + 1)
    } else {
        spec_expr_stmt(toks, p)
    }
}

/// Statements up to and including a closing brace, appended to `acc`.
pub open spec fn spec_block(toks: Seq<Token>, p: int, acc: Seq<StmtModel>) -> Parsed<Seq<StmtModel>>
    decreases toks.len() - p, 2nat,
{
    if !(0 <= p < toks.len()) {
        Err(outside())
    } else if toks[p].kind == TokenKind::RBrace {
        Ok((acc, p + 1))
    } else {
        match spec_stmt(toks, p) {
            Ok((s, q)) => if p < q <= toks.len() { spec_block(toks, q, acc.push(s)) } else { Err(outside()) },
            Err(e) => Err(e),
        }
    }
}

/// What a unit body declares: its sections, its license and its statements.
pub struct UnitItems {
    pub sections: Seq<Seq<char>>,
    pub license: Option<Seq<char>>,
    pub body: Seq<StmtModel>,
}

/// The position of the text after a `section` or `license` keyword at `p`:
/// past an optional `:`.
pub open spec fn setting_text_pos(toks: Seq<Token>, p: int) -> int {
    if 0 <= p + 1 < toks.len() && toks[p + 1].kind == TokenKind::Colon { p + 2 } else { p + 1 }
}

/// `"text"` after a `section` or `license` keyword at `p`, with an optional
/// `:` before it and an optional `;` after it: the text without its quotes,
/// and the position after it.
pub open spec fn spec_setting(toks: Seq<Token>, p: int) -> Parsed<Seq<char>> {
    let t = setting_text_pos(toks, p);
    if fails(toks, t, TokenKind::StringLiteral) {
        Err(fail(toks, t, TokenKind::StringLiteral))
    } else {
        Ok((trim_quotes(toks[t].lexeme@), skip_semi(toks, t + 1)))
    }
}

/// The items of a unit body up to and including its closing brace, added
/// to `st`: each `section` adds a section, each `license` replaces the
/// license, anything else is a statement.
pub open spec fn spec_unit_items(toks: Seq<Token>, p: int, st: UnitItems) -> Parsed<UnitItems>
    decreases toks.len() - p,
{
    if !(0 <= p < toks.len()) {
        Err(outside())
    } else if toks[p].kind == TokenKind::RBrace {
        Ok((st, p + 1))
    } else if toks[p].kind == TokenKind::KeywordSection {
        match spec_setting(toks, p) {
            Ok((s, q)) => if p < q <= toks.len() {
                spec_unit_items(toks, q, UnitItems { sections: st.sections.push(s), ..st })
            } else {
                Err(outside())
            },
            Err(e) => Err(e),
        }
    } else if toks[p].kind == TokenKind::KeywordLicense {
        match spec_setting(toks, p) {
            Ok((s, q)) => if p < q <= toks.len() {
                spec_unit_items(toks, q, UnitItems { license: Some(s), ..st })
            } else {
                Err(outside())
            },
            Err(e) => Err(e),
        }
    } else {
        match spec_stmt(toks, p) {
            Ok((s, q)) => if p < q <= toks.len() {
                spec_unit_items(toks, q, UnitItems { body: st.body.push(s), ..st })
            } else {
                Err(outside())
            },
            Err(e) => Err(e),
        }
    }
}

/// `unit name { items }`.
pub open spec fn spec_unit(toks: Seq<Token>, p: int) -> Parsed<UnitItems> {
    if fails(toks, p, TokenKind::KeywordUnit) {
        Err(fail(toks, p, TokenKind::KeywordUnit))
    } else if fails(toks, p + 1, TokenKind::Identifier) {
        Err(fail(toks, p + 1, TokenKind::Identifier))
    } else if fails(toks, p + 2, TokenKind::LBrace) {
        Err(fail(toks, p + 2, TokenKind::LBrace))
    } else {
        spec_unit_items(toks, p + 3, UnitItems { sections: Seq::empty(), license: None, body: Seq::empty() })
    }
}

} // verus!
