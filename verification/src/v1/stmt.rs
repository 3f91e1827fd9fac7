//! Statements of the syntax tree.

use vstd::prelude::*;
use crate::v1::expr::{Expr, FnCallExpr};
use crate::v1::position::Position;

verus! {

#[derive(Debug)]
pub enum Stmt {
    FnCall(Box<FnCallExpr>, Position),
    /// `let name = value`
    Let(Box<(String, Expr)>, Position),
    /// `target = value`
    Assign(Box<(Expr, Expr)>, Position),
    Return(Box<Expr>, Position),
    If(Box<IfStmt>, Position),
    While(Box<Expr>, Box<Vec<Stmt>>, Position),
    /// `for one in items { .. }` or `for one, other in items { .. }`: with
    /// two names the first counts from zero and the second is the item.
    ForIn(String, Option<String>, Box<Expr>, Box<Vec<Stmt>>, Position),
    /// `base[index] = value`: the expression for the array or map, the one
    /// for the index, and the one for the value to store there.
    IndexAssign(Box<Expr>, Box<Expr>, Box<Expr>, Position),
    Break(Position),
    Continue(Position),
    Import(String, Position),
    Noop,
}

#[derive(Debug)]
pub struct IfStmt {
    pub branches: Vec<IfBranchStmt>,
    pub else_body: Option<Vec<Stmt>>,
}

impl IfStmt {
    pub open spec fn branches(&self) -> Seq<IfBranchStmt> {
        self.branches@
    }

    pub open spec fn else_body(&self) -> Option<Vec<Stmt>> {
        self.else_body
    }

    pub fn new(branches: Vec<IfBranchStmt>, else_body: Option<Vec<Stmt>>) -> (s: Self)
        ensures
            s.branches() == branches@,
            s.else_body() == else_body,
    {
        Self { branches, else_body }
    }

    pub fn get_branches(&self) -> (b: &Vec<IfBranchStmt>)
        ensures
            b@ == self.branches(),
    {
        &self.branches
    }

    pub fn get_else_body(&self) -> (e: Option<&Vec<Stmt>>)
        ensures
            match e {
                Some(body) => self.else_body() == Some(*body),
                None => self.else_body() is None,
            },
    {
        match &self.else_body {
            Some(body) => Some(body),
            None => None,
        }
    }
}

#[derive(Debug)]
pub struct IfBranchStmt {
    pub condition: Expr,
    pub body: Vec<Stmt>,
}

impl IfBranchStmt {
    pub open spec fn condition(&self) -> Expr {
        self.condition
    }

    pub open spec fn body(&self) -> Seq<Stmt> {
        self.body@
    }

    pub fn new(condition: Expr, body: Vec<Stmt>) -> (s: Self)
        ensures
            s.condition() == condition,
            s.body() == body@,
    {
        Self { condition, body }
    }

    pub fn get_condition(&self) -> (c: &Expr)
        ensures
            *c == self.condition(),
    {
        &self.condition
    }

    pub fn get_body(&self) -> (b: &Vec<Stmt>)
        ensures
            b@ == self.body(),
    {
        &self.body
    }
}

impl Stmt {
    pub fn is_noop(&self) -> (b: bool)
        ensures
            b == (self is Noop),
    {
        match self {
            Stmt::Noop => true,
            _ => false,
        }
    }

    /// The region of the source that the statement was read from; a
    /// statement that does nothing has the position without a place.
    pub open spec fn spec_position(&self) -> Position {
        match self {
            Stmt::Continue(pos) => *pos,
            Stmt::FnCall(_, pos) => *pos,
            Stmt::ForIn(_, _, _, _, pos) => *pos,
            Stmt::Let(_, pos) => *pos,
            Stmt::Assign(_, pos) => *pos,
            Stmt::Return(_, pos) => *pos,
            Stmt::If(_, pos) => *pos,
            Stmt::While(_, _, pos) => *pos,
            Stmt::IndexAssign(_, _, _, pos) => *pos,
            Stmt::Import(_, pos) => *pos,
            Stmt::Noop => Position::none(),
            Stmt::Break(pos) => *pos,
        }
    }

    #[verifier::when_used_as_spec(spec_position)]
    pub fn position(&self) -> (p: Position)
        ensures
            p == self.spec_position(),
    {
        match self {
            Stmt::Continue(pos) => *pos,
            Stmt::FnCall(_, pos) => *pos,
            Stmt::ForIn(_, _, _, _, pos) => *pos,
            Stmt::Let(_, pos) => *pos,
            Stmt::Assign(_, pos) => *pos,
            Stmt::Return(_, pos) => *pos,
            Stmt::If(_, pos) => *pos,
            Stmt::While(_, _, pos) => *pos,
            Stmt::IndexAssign(_, _, _, pos) => *pos,
            Stmt::Import(_, pos) => *pos,
            Stmt::Noop => Position::new(0, 0),
            Stmt::Break(pos) => *pos,
        }
    }
}

} // verus!
