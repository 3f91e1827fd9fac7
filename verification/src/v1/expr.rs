//! Expressions of the syntax tree.

use vstd::prelude::*;
use std::sync::Arc;
use crate::v1::parser::FnDef;
use crate::v1::position::Position;

verus! {

/// The binary operators.
#[derive(Debug, Clone, Copy, PartialEq, Eq, Structural)]
pub enum Op {
    Plus,
    Minus,
    Mul,
    Div,
    Mod,
    Greater,
    Less,
    Equal,
    NotEqual,
}

#[derive(Debug)]
pub enum Expr {
    StringConstant(String, Position),
    IntConstant(i64, Position),
    /// A decimal literal, kept as it was written.
    FloatConstant(String, Position),
    /// The block behind a call, `f(..) { .. }`.
    FnClosure(FnClosureExpr, Position),
    FnCall(FnCallExpr, Position),
    Variable(String, Position),
    BinaryExpr(Op, Box<Expr>, Box<Expr>, Position),
    Array(Vec<Expr>, Position),
    MapLiteral(Vec<(Expr, Expr)>, Position),
    Index(Box<Expr>, Box<Expr>, Position),
    Struct(StructExpr, Position),
    /// `base.field`
    MemberAccess(Box<Expr>, String, Position),
    Empty(Position),
}

/// A struct literal: the class name and the fields in the order written.
#[derive(Debug)]
pub struct StructExpr {
    pub name: String,
    pub props: Vec<(String, Expr)>,
}

impl StructExpr {
    pub open spec fn name(&self) -> Seq<char> {
        self.name@
    }

    pub open spec fn props(&self) -> Seq<(String, Expr)> {
        self.props@
    }

    pub fn new(name: String, props: Vec<(String, Expr)>) -> (s: Self)
        ensures
            s.name() == name@,
            s.props() == props@,
    {
        Self { name, props }
    }

    pub fn get_name(&self) -> (n: &str)
        ensures
            n@ == self.name(),
    {
        self.name.as_str()
    }

    pub fn get_props(&self) -> (p: &Vec<(String, Expr)>)
        ensures
            p@ == self.props(),
    {
        &self.props
    }
}

#[derive(Debug)]
pub struct FnCallExpr {
    pub name: String,
    pub args: Vec<Expr>,
}

#[derive(Debug)]
pub struct FnClosureExpr {
    pub def: Arc<FnDef>,
}

/// A name that stands for a variable.
pub struct Variable {
    pub name: String,
}

impl Expr {
    pub fn is_fn_call(&self) -> (b: bool)
        ensures
            b == (self is FnCall),
    {
        match self {
            Expr::FnCall(_, _) => true,
            _ => false,
        }
    }

    /// The name, where the expression is a variable.
    pub fn try_get_variable_name(&self) -> (r: Option<String>)
        ensures
            match r {
                Some(n) => self matches Expr::Variable(s, _) && n == s,
                None => !(self is Variable),
            },
    {
        match self {
            Expr::Variable(s, _) => Some(s.clone()),
            _ => None,
        }
    }

    /// Base and field name, where the expression is a member access.
    pub fn try_get_member_access(&self) -> (r: Option<(&Expr, &String)>)
        ensures
            match r {
                Some((b, n)) => self matches Expr::MemberAccess(base, name, _) && *b == **base && n
                    == name,
                None => !(self is MemberAccess),
            },
    {
        match self {
            Expr::MemberAccess(b, name, _) => Some((&**b, name)),
            _ => None,
        }
    }

    /// The region of the source that the expression was read from.
    pub open spec fn spec_position(&self) -> Position {
        match self {
            Expr::StringConstant(_, pos) => *pos,
            Expr::IntConstant(_, pos) => *pos,
            Expr::FloatConstant(_, pos) => *pos,
            Expr::Variable(_, pos) => *pos,
            Expr::FnClosure(_, pos) => *pos,
            Expr::FnCall(_, pos) => *pos,
            Expr::BinaryExpr(_, _, _, pos) => *pos,
            Expr::Array(_, pos) => *pos,
            Expr::Index(_, _, pos) => *pos,
            Expr::MapLiteral(_, pos) => *pos,
            Expr::Empty(pos) => *pos,
            Expr::Struct(_, pos) => *pos,
            Expr::MemberAccess(_, _, pos) => *pos,
        }
    }

    #[verifier::when_used_as_spec(spec_position)]
    pub fn position(&self) -> (p: Position)
        ensures
            p == self.spec_position(),
    {
        match self {
            Expr::StringConstant(_, pos) => *pos,
            Expr::IntConstant(_, pos) => *pos,
            Expr::FloatConstant(_, pos) => *pos,
            Expr::Variable(_, pos) => *pos,
            Expr::FnClosure(_, pos) => *pos,
            Expr::FnCall(_, pos) => *pos,
            Expr::BinaryExpr(_, _, _, pos) => *pos,
            Expr::Array(_, pos) => *pos,
            Expr::Index(_, _, pos) => *pos,
            Expr::MapLiteral(_, pos) => *pos,
            Expr::Empty(pos) => *pos,
            Expr::Struct(_, pos) => *pos,
            Expr::MemberAccess(_, _, pos) => *pos,
        }
    }
}

} // verus!
