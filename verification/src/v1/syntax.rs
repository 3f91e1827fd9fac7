//! The syntax tree as mathematical values: what an expression, a statement
//! or a definition is, apart from how it is stored.

use vstd::prelude::*;
use std::sync::Arc;
use crate::v1::expr::{Expr, Op};
use crate::v1::parser::{FnDef, VariableDeclaration};
use crate::v1::position::Position;
use crate::v1::stmt::{IfBranchStmt, Stmt};

verus! {

pub enum ExprView {
    StringConstant(Seq<char>, Position),
    IntConstant(int, Position),
    FloatConstant(Seq<char>, Position),
    FnClosure(FnDefView, Position),
    FnCall(Seq<char>, Seq<ExprView>, Position),
    Variable(Seq<char>, Position),
    BinaryExpr(Op, Box<ExprView>, Box<ExprView>, Position),
    Array(Seq<ExprView>, Position),
    MapLiteral(Seq<(ExprView, ExprView)>, Position),
    Index(Box<ExprView>, Box<ExprView>, Position),
    Struct(Seq<char>, Seq<(Seq<char>, ExprView)>, Position),
    MemberAccess(Box<ExprView>, Seq<char>, Position),
    Empty(Position),
}

pub enum StmtView {
    FnCall(Seq<char>, Seq<ExprView>, Position),
    Let(Seq<char>, ExprView, Position),
    Assign(ExprView, ExprView, Position),
    Return(ExprView, Position),
    If(Seq<(ExprView, Seq<StmtView>)>, Option<Seq<StmtView>>, Position),
    While(ExprView, Seq<StmtView>, Position),
    ForIn(Seq<char>, Option<Seq<char>>, ExprView, Seq<StmtView>, Position),
    IndexAssign(ExprView, ExprView, ExprView, Position),
    Break(Position),
    Continue(Position),
    Import(Seq<char>, Position),
    Noop,
}

pub struct FnDefView {
    pub name: Seq<char>,
    pub return_type: Seq<char>,
    /// The parameters: name and type.
    pub args: Seq<(Seq<char>, Seq<char>)>,
    pub body: Seq<StmtView>,
}

/// The views of declared names.
pub open spec fn declarations_view(ds: Seq<VariableDeclaration>) -> Seq<(Seq<char>, Seq<char>)> {
    Seq::new(ds.len(), |i: int| (ds[i].name@, ds[i].declaration_type@))
}

pub open spec fn exprs_view(items: Seq<Expr>) -> Seq<ExprView>
    decreases items,
{
    Seq::new(
        items.len(),
        |i: int|
            if 0 <= i < items.len() {
                expr_view(items[i])
            } else {
                ExprView::Empty(Position::none())
            },
    )
}

pub open spec fn pairs_view(entries: Seq<(Expr, Expr)>) -> Seq<(ExprView, ExprView)>
    decreases entries,
{
    Seq::new(
        entries.len(),
        |i: int|
            if 0 <= i < entries.len() {
                (expr_view(entries[i].0), expr_view(entries[i].1))
            } else {
                (ExprView::Empty(Position::none()), ExprView::Empty(Position::none()))
            },
    )
}

pub open spec fn fields_view(fields: Seq<(String, Expr)>) -> Seq<(Seq<char>, ExprView)>
    decreases fields,
{
    Seq::new(
        fields.len(),
        |i: int|
            if 0 <= i < fields.len() {
                (fields[i].0@, expr_view(fields[i].1))
            } else {
                (Seq::empty(), ExprView::Empty(Position::none()))
            },
    )
}

pub open spec fn stmts_view(stmts: Seq<Stmt>) -> Seq<StmtView>
    decreases stmts,
{
    Seq::new(
        stmts.len(),
        |i: int|
            if 0 <= i < stmts.len() {
                stmt_view(stmts[i])
            } else {
                StmtView::Noop
            },
    )
}

pub open spec fn branches_view(branches: Seq<IfBranchStmt>) -> Seq<(ExprView, Seq<StmtView>)>
    decreases branches,
{
    Seq::new(
        branches.len(),
        |i: int|
            if 0 <= i < branches.len() {
                (expr_view(branches[i].condition), stmts_view(branches[i].body@))
            } else {
                (ExprView::Empty(Position::none()), Seq::empty())
            },
    )
}

pub open spec fn fn_def_view(def: FnDef) -> FnDefView
    decreases def,
{
    FnDefView {
        name: def.name@,
        return_type: def.return_type@,
        args: declarations_view(def.args@),
        body: stmts_view(def.body@),
    }
}

pub open spec fn expr_view(e: Expr) -> ExprView
    decreases e,
{
    match e {
        Expr::StringConstant(s, p) => ExprView::StringConstant(s@, p),
        Expr::IntConstant(i, p) => ExprView::IntConstant(i as int, p),
        Expr::FloatConstant(s, p) => ExprView::FloatConstant(s@, p),
        Expr::FnClosure(c, p) => ExprView::FnClosure(fn_def_view(*c.def), p),
        Expr::FnCall(c, p) => ExprView::FnCall(c.name@, exprs_view(c.args@), p),
        Expr::Variable(s, p) => ExprView::Variable(s@, p),
        Expr::BinaryExpr(op, l, r, p) => ExprView::BinaryExpr(
            op,
            Box::new(expr_view(*l)),
            Box::new(expr_view(*r)),
            p,
        ),
        Expr::Array(items, p) => ExprView::Array(exprs_view(items@), p),
        Expr::MapLiteral(entries, p) => ExprView::MapLiteral(pairs_view(entries@), p),
        Expr::Index(b, i, p) => ExprView::Index(Box::new(expr_view(*b)), Box::new(expr_view(*i)), p),
        Expr::Struct(s, p) => ExprView::Struct(s.name@, fields_view(s.props@), p),
        Expr::MemberAccess(b, n, p) => ExprView::MemberAccess(Box::new(expr_view(*b)), n@, p),
        Expr::Empty(p) => ExprView::Empty(p),
    }
}

pub open spec fn stmt_view(s: Stmt) -> StmtView
    decreases s,
{
    match s {
        Stmt::FnCall(c, p) => StmtView::FnCall(c.name@, exprs_view(c.args@), p),
        Stmt::Let(l, p) => StmtView::Let(l.0@, expr_view(l.1), p),
        Stmt::Assign(pair, p) => StmtView::Assign(expr_view(pair.0), expr_view(pair.1), p),
        Stmt::Return(e, p) => StmtView::Return(expr_view(*e), p),
        Stmt::If(i, p) => StmtView::If(
            branches_view(i.branches@),
            match i.else_body {
                Some(body) => Some(stmts_view(body@)),
                None => None,
            },
            p,
        ),
        Stmt::While(c, body, p) => StmtView::While(expr_view(*c), stmts_view(body@), p),
        Stmt::ForIn(one, other, items, body, p) => StmtView::ForIn(
            one@,
            match other {
                Some(o) => Some(o@),
                None => None,
            },
            expr_view(*items),
            stmts_view(body@),
            p,
        ),
        Stmt::IndexAssign(b, i, v, p) => StmtView::IndexAssign(
            expr_view(*b),
            expr_view(*i),
            expr_view(*v),
            p,
        ),
        Stmt::Break(p) => StmtView::Break(p),
        Stmt::Continue(p) => StmtView::Continue(p),
        Stmt::Import(name, p) => StmtView::Import(name@, p),
        Stmt::Noop => StmtView::Noop,
    }
}

} // verus!
