//! Expressions and statements as mathematical values, so that contracts can
//! say which tree a parse yields.
use vstd::prelude::*;
use crate::ast::unit::{AssignmentOp, BinOp, Expr, ExprKind, Stmt, StmtKind, VarType};
use crate::parser::token::SourceLoc;

verus! {

/// An expression with names as character sequences and argument lists as
/// sequences; the last field of each form is the expression's location.
pub enum ExprModel {
    Variable(Seq<char>, SourceLoc),
    Number(i64, SourceLoc),
    MethodCall(Box<ExprModel>, Seq<char>, Seq<ExprModel>, SourceLoc),
    HeapLookup(Seq<char>, Box<ExprModel>, SourceLoc),
    Dereference(Box<ExprModel>, SourceLoc),
    Binary(BinOp, Box<ExprModel>, Box<ExprModel>, SourceLoc),
    Call(Seq<char>, Seq<ExprModel>, SourceLoc),
    FieldAccess(Box<ExprModel>, Seq<char>, SourceLoc),
}

/// A statement with its location as the last field of each form.
pub enum StmtModel {
    Return(ExprModel, SourceLoc),
    VarDecl(Seq<char>, VarType, ExprModel, SourceLoc),
    HeapVarDecl(Seq<char>, ExprModel, SourceLoc),
    Assignment(ExprModel, AssignmentOp, ExprModel, SourceLoc),
    IfGuard(ExprModel, Seq<StmtModel>, Option<Seq<StmtModel>>, SourceLoc),
    ExprStmt(ExprModel, SourceLoc),
}

/// The location of an expression.
pub open spec fn expr_loc(m: ExprModel) -> SourceLoc {
    match m {
        ExprModel::Variable(_, l) => l,
        ExprModel::Number(_, l) => l,
        ExprModel::MethodCall(_, _, _, l) => l,
        ExprModel::HeapLookup(_, _, l) => l,
        ExprModel::Dereference(_, l) => l,
        ExprModel::Binary(_, _, _, l) => l,
        ExprModel::Call(_, _, l) => l,
        ExprModel::FieldAccess(_, _, l) => l,
    }
}

/// The model of an expression.
pub open spec fn expr_model(e: Expr) -> ExprModel
    decreases e,
{
    match e.kind {
        ExprKind::Variable(n) => ExprModel::Variable(n@, e.loc),
        ExprKind::Number(v) => ExprModel::Number(v, e.loc),
        ExprKind::MethodCall(mc) => ExprModel::MethodCall(
            Box::new(expr_model(*mc.receiver)),
            mc.method@,
            exprs_model(mc.arg@),
            e.loc,
        ),
        ExprKind::HeapLookup(h) => ExprModel::HeapLookup(h.map_name@, Box::new(expr_model(*h.key_expr)), e.loc),
        ExprKind::Dereference(inner) => ExprModel::Dereference(Box::new(expr_model(*inner)), e.loc),
        ExprKind::Binary(b) => ExprModel::Binary(b.op, Box::new(expr_model(*b.left)), Box::new(expr_model(*b.right)), e.loc),
        ExprKind::Call(c) => ExprModel::Call(c.name@, exprs_model(c.args@), e.loc),
        ExprKind::FieldAccess { base, field } => ExprModel::FieldAccess(Box::new(expr_model(*base)), field@, e.loc),
    }
}

/// The models of a sequence of expressions.
pub open spec fn exprs_model(s: Seq<Expr>) -> Seq<ExprModel>
    decreases s,
{
    if s.len() == 0 {
        Seq::empty()
    } else {
        exprs_model(s.subrange(0, s.len() - 1)).push(expr_model(s[s.len() - 1]))
    }
}

/// The model of a statement.
pub open spec fn stmt_model(s: Stmt) -> StmtModel
    decreases s,
{
    match s.kind {
        StmtKind::Return(e) => StmtModel::Return(expr_model(*e), s.loc),
        StmtKind::VarDecl(d) => StmtModel::VarDecl(d.name@, d.var_type, expr_model(*d.value), s.loc),
        StmtKind::HeapVarDecl(h) => StmtModel::HeapVarDecl(h.name@, expr_model(h.init), s.loc),
        StmtKind::Assignment(a) => StmtModel::Assignment(expr_model(*a.target), a.op, expr_model(*a.value), s.loc),
        StmtKind::IfGuard(g) => StmtModel::IfGuard(
            expr_model(g.condition),
            stmts_model(g.then_body@),
            match g.else_body {
                Some(b) => Some(stmts_model(b@)),
                None => None,
            },
            s.loc,
        ),
        StmtKind::ExprStmt(e) => StmtModel::ExprStmt(expr_model(*e), s.loc),
    }
}

/// The models of a sequence of statements.
pub open spec fn stmts_model(s: Seq<Stmt>) -> Seq<StmtModel>
    decreases s,
{
    if s.len() == 0 {
        Seq::empty()
    } else {
        stmts_model(s.subrange(0, s.len() - 1)).push(stmt_model(s[s.len() - 1]))
    }
}

/// The model of an expression is placed where the expression is.
pub proof fn lemma_expr_loc(e: Expr)
    ensures
        expr_loc(expr_model(e)) == e.loc,
{
}

/// The models of expressions, element by element.
pub proof fn lemma_exprs_model_index(s: Seq<Expr>)
    ensures
        exprs_model(s).len() == s.len(),
        forall|i: int| 0 <= i < s.len() ==> #[trigger] exprs_model(s)[i] == expr_model(s[i]),
    decreases s.len(),
{
    if s.len() > 0 {
        let init = s.subrange(0, s.len() - 1);
        lemma_exprs_model_index(init);
        assert forall|i: int| 0 <= i < s.len() implies #[trigger] exprs_model(s)[i] == expr_model(s[i]) by {
            if i < s.len() - 1 {
                assert(exprs_model(s)[i] == exprs_model(init)[i]);
                assert(init[i] == s[i]);
            }
        }
    }
}

/// Appending an expression appends its model.
pub proof fn lemma_exprs_model_push(s: Seq<Expr>, e: Expr)
    ensures
        exprs_model(s.push(e)) == exprs_model(s).push(expr_model(e)),
{
    assert(s.push(e).subrange(0, s.len() as int) == s);
}

/// Appending a statement appends its model.
pub proof fn lemma_stmts_model_push(s: Seq<Stmt>, t: Stmt)
    ensures
        stmts_model(s.push(t)) == stmts_model(s).push(stmt_model(t)),
{
    assert(s.push(t).subrange(0, s.len() as int) == s);
}


/// The models of statements, element by element.
pub proof fn lemma_stmts_model_index(s: Seq<Stmt>)
    ensures
        stmts_model(s).len() == s.len(),
        forall|i: int| 0 <= i < s.len() ==> #[trigger] stmts_model(s)[i] == stmt_model(s[i]),
    decreases s.len(),
{
    if s.len() > 0 {
        let init = s.subrange(0, s.len() - 1);
        lemma_stmts_model_index(init);
        assert forall|i: int| 0 <= i < s.len() implies #[trigger] stmts_model(s)[i] == stmt_model(s[i]) by {
            if i < s.len() - 1 {
                assert(stmts_model(s)[i] == stmts_model(init)[i]);
                assert(init[i] == s[i]);
            }
        }
    }
}

/// The model of a prefix is the prefix of the model.
pub proof fn lemma_stmts_model_prefix(s: Seq<Stmt>, k: int)
    requires
        0 <= k <= s.len(),
    ensures
        stmts_model(s.subrange(0, k)) == stmts_model(s).subrange(0, k),
{
    lemma_stmts_model_index(s);
    lemma_stmts_model_index(s.subrange(0, k));
    assert(stmts_model(s.subrange(0, k)) =~= stmts_model(s).subrange(0, k));
}

} // verus!
