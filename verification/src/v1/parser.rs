//! The parser: from tokens to the syntax tree.

use vstd::prelude::*;
use vstd::string::StringExecFns;
use std::sync::Arc;
use crate::error::PipelineError;
use crate::module::{give_method, given, Class, Function};
use crate::table::{put, table_map};
use crate::text::same_str;
use crate::v1::expr::{Expr, FnCallExpr, FnClosureExpr, Op, StructExpr};
use crate::v1::grammar::{
    ClassView, Input, are_exprs, are_stmts, at_keyword, class_view, classes_view, function_view,
    functions_view, g_args, g_args_rest, g_array, g_array_rest, g_block, g_chain, g_chain_rest,
    g_class, g_condition, g_declaration, g_declarations, g_declarations_rest, g_expr, g_expr_stmt,
    g_fields, g_fields_rest, g_fn_def, g_for, g_function, g_if, g_if_branch, g_if_rest, g_import,
    g_let, g_map, g_map_rest, g_math, g_math_rest, g_primary, g_program, g_return, g_stmt, g_stmts,
    g_stmts_rest, g_term, g_term_rest, g_while, head, identifier, is_definition, is_expr, is_flaw,
    is_stmt, items_of, keyword, kind, kind_at, lemma_items, methods_view, names_view, op_at,
    region, taken, token_views,
};
use crate::v1::lexer::{are_lexemes, lexemes, Lexer, TokenStream};
use crate::v1::position::Position;
use crate::v1::stmt::{IfBranchStmt, IfStmt, Stmt};
use crate::v1::syntax::{
    ExprView, FnDefView, branches_view, declarations_view, expr_view, exprs_view, fields_view,
    fn_def_view, pairs_view, stmt_view, stmts_view,
};
use crate::v1::token::Token;

verus! {

/// A declared name with the name of its type: a parameter of a function or a
/// field of a class. The type is kept and not enforced.
#[derive(Debug)]
pub struct VariableDeclaration {
    pub name: String,
    pub declaration_type: String,
}

impl VariableDeclaration {
    pub fn new(name: String, dec: String) -> (v: Self)
        ensures
            v.name == name,
            v.declaration_type == dec,
    {
        Self { name, declaration_type: dec }
    }
}

/// A function as the script defines it.
#[derive(Debug)]
pub struct FnDef {
    pub name: String,
    pub return_type: String,
    pub args: Vec<VariableDeclaration>,
    pub body: Vec<Stmt>,
}

impl FnDef {
    pub fn new(name: String, args: Vec<VariableDeclaration>, body: Vec<Stmt>, return_type: String) -> (f: Self)
        ensures
            f.name == name,
            f.args == args,
            f.body == body,
            f.return_type == return_type,
    {
        Self { name, args, body, return_type }
    }
}


/// A parsed program: its statements in order.
#[derive(Debug)]
pub struct AST {
    pub body: Vec<Stmt>,
}

/// The parser. Besides the statements it hands out, it collects the
/// functions and classes that the source defines and the names of the
/// modules that it imports.
pub struct PipelineParser {
    token_stream: TokenStream,
    fn_lib: Vec<Arc<FnDef>>,
    imports: Vec<String>,
    classes: Vec<(String, Class)>,
    /// Whether a `{` behind the arguments of a call starts a block that is
    /// handed to the call. Not so in the condition of `if`, `while` and
    /// `for`, where it starts the body.
    blocks_follow_calls: bool,
}

/// Whether the error is one that the parser gives.
pub open spec fn is_parse_error(e: PipelineError) -> bool {
    e is UnexpectedToken || e is UnusedKeyword
}

/// Giving a class a method enters the method in the view of the class and
/// leaves the views of the other classes as they were.
pub proof fn lemma_method_given(
    before: Map<Seq<char>, Class>,
    after: Map<Seq<char>, Class>,
    class: Seq<char>,
    name: Seq<char>,
    f: Function,
)
    requires
        before.contains_key(class),
        given(before, after, class, name, f),
    ensures
        classes_view(after) == classes_view(before).insert(
            class,
            ClassView {
                methods: classes_view(before)[class].methods.insert(name, function_view(f)),
                ..classes_view(before)[class]
            },
        ),
{
    let own = before[class].method_map();
    assert(methods_view(own.insert(name, f)) =~= methods_view(own).insert(name, function_view(f)));
    assert(classes_view(after) =~= classes_view(before).insert(
        class,
        ClassView {
            methods: classes_view(before)[class].methods.insert(name, function_view(f)),
            ..classes_view(before)[class]
        },
    ));
}

/// What every step of the parser keeps: it takes tokens from the front of
/// the stream and never puts one back, it fails with a parse error only, and
/// it forgets no function that it has collected.
pub open spec fn advances<T>(before: PipelineParser, after: PipelineParser, r: Result<T, PipelineError>) -> bool {
    &&& after.pending().len() <= before.pending().len()
    &&& after.collected().len() >= before.collected().len()
    &&& after.blocks_follow_calls() == before.blocks_follow_calls()
    &&& r matches Err(e) ==> is_parse_error(e)
}

/// As [`advances`], and a success has taken at least one token.
pub open spec fn consumes<T>(before: PipelineParser, after: PipelineParser, r: Result<T, PipelineError>) -> bool {
    &&& advances(before, after, r)
    &&& r is Ok ==> after.pending().len() < before.pending().len()
}

impl PipelineParser {
    /// The tokens that have not been taken yet.
    pub closed spec fn pending(&self) -> Seq<(Token, Position)> {
        self.token_stream.rest()
    }

    /// The offset behind the token that was taken last.
    pub closed spec fn taken_end(&self) -> usize {
        self.token_stream.taken_end()
    }

    /// The functions collected so far, in the order of their definitions.
    pub closed spec fn collected(&self) -> Seq<Arc<FnDef>> {
        self.fn_lib@
    }

    /// The classes that are known, by name.
    pub closed spec fn known(&self) -> Map<Seq<char>, Class> {
        table_map(self.classes@)
    }

    /// The names of the modules whose import has been read so far.
    pub closed spec fn imported(&self) -> Seq<String> {
        self.imports@
    }

    pub closed spec fn blocks_follow_calls(&self) -> bool {
        self.blocks_follow_calls
    }

    /// The token that comes next.
    pub open spec fn head(&self) -> (Token, Position) {
        if self.pending().len() > 0 {
            self.pending()[0]
        } else {
            crate::v1::lexer::end_of_input()
        }
    }

    /// What the parser still reads and what it has collected, as the
    /// grammar speaks of it.
    pub open spec fn input(&self) -> Input {
        Input {
            rest: token_views(self.pending()),
            end: self.taken_end(),
            blocks: self.blocks_follow_calls(),
            functions: functions_view(self.collected()),
            classes: classes_view(self.known()),
            imports: names_view(self.imported()),
        }
    }

    /// A parser without tokens.
    pub fn new() -> (p: Self)
        ensures
            p.pending().len() == 0,
            p.taken_end() == 0,
            p.collected().len() == 0,
            p.imported().len() == 0,
            p.known() == Map::<Seq<char>, Class>::empty(),
            p.blocks_follow_calls(),
    {
        let p = Self {
            token_stream: TokenStream::new(),
            fn_lib: Vec::new(),
            imports: Vec::new(),
            classes: Vec::new(),
            blocks_follow_calls: true,
        };
        assert(p.known() =~= Map::<Seq<char>, Class>::empty());
        p
    }

    /// A parser of the given tokens.
    pub fn from_token_stream(token_stream: TokenStream) -> (p: Self)
        ensures
            p.pending() == token_stream.rest(),
            p.taken_end() == token_stream.taken_end(),
            p.collected().len() == 0,
            p.imported().len() == 0,
            p.known() == Map::<Seq<char>, Class>::empty(),
            p.blocks_follow_calls(),
    {
        let p = Self {
            token_stream,
            fn_lib: Vec::new(),
            imports: Vec::new(),
            classes: Vec::new(),
            blocks_follow_calls: true,
        };
        assert(p.known() =~= Map::<Seq<char>, Class>::empty());
        p
    }

    /// Makes the tokens of `lexer` the input. A character that starts no
    /// token gives `UnexpectedChar`, and the input stays as it was.
    pub fn set_lexer(&mut self, lexer: Lexer) -> (r: Result<(), PipelineError>)
        ensures
            match lexemes(lexer.source(), lexer.offset()) {
                Ok(ls) => r is Ok && are_lexemes(final(self).pending(), ls) && final(self).input() == (
                    Input { rest: items_of(ls), end: 0, ..old(self).input() }
                ),
                Err((found, at)) => r matches Err(PipelineError::UnexpectedChar(c, p)) && c == found
                    && p.pos == at && p.span == 1 && final(self).pending() == old(self).pending()
                    && final(self).input() == old(self).input(),
            },
            final(self).collected() == old(self).collected(),
            final(self).imported() == old(self).imported(),
            final(self).known() == old(self).known(),
            final(self).blocks_follow_calls() == old(self).blocks_follow_calls(),
    {
        let r = self.token_stream.set_lexer(lexer);
        proof {
            if let Ok(ls) = lexemes(lexer.source(), lexer.offset()) {
                lemma_items(self.pending(), ls);
            }
        }
        r
    }

    /// Makes a class known before parsing, so that the source can define
    /// methods for it. A class of that name is replaced.
    pub fn register_predefined_class(&mut self, class: Class)
        ensures
            final(self).known() == old(self).known().insert(class.name@, class),
            final(self).input() == (Input {
                classes: old(self).input().classes.insert(class.name@, class_view(class)),
                ..old(self).input()
            }),
            final(self).pending() == old(self).pending(),
            final(self).taken_end() == old(self).taken_end(),
            final(self).collected() == old(self).collected(),
            final(self).imported() == old(self).imported(),
            final(self).blocks_follow_calls() == old(self).blocks_follow_calls(),
    {
        let name = class.get_name();
        put(&mut self.classes, name, class);
        proof {
            assert(classes_view(self.known()) =~= classes_view(old(self).known()).insert(
                class.name@,
                class_view(class),
            ));
        }
    }

    /// The classes that are known: those made known before parsing and those
    /// that the source has declared so far.
    pub fn get_classes(&self) -> (c: &Vec<(String, Class)>)
        ensures
            table_map(c@) == self.known(),
    {
        &self.classes
    }

    /// The functions collected so far.
    pub fn get_fn_lib(&self) -> (lib: &Vec<Arc<FnDef>>)
        ensures
            lib@ == self.collected(),
    {
        &self.fn_lib
    }

    /// The names of the modules whose import has been read so far.
    pub fn get_imports(&self) -> (names: &Vec<String>)
        ensures
            names@ == self.imported(),
    {
        &self.imports
    }

    /// Takes the next token, which must be of the kind of `rhs`. The token
    /// is taken also where it is of another kind.
    pub fn parse_special_token(&mut self, rhs: &Token) -> (r: Result<(Token, Position), PipelineError>)
        ensures
            advances(*old(self), *final(self), r),
            match r {
                Ok(item) => old(self).head().0@.id == rhs@.id && item == old(self).head(),
                Err(e) => old(self).head().0@.id != rhs@.id && e == PipelineError::UnexpectedToken(
                    old(self).head().0,
                ),
            },
            r is Ok && rhs@.id != 13 ==> final(self).pending().len() < old(self).pending().len(),
            final(self).input() == taken(old(self).input()),
    {
        let (token, pos) = self.take();
        if token.token_id() == rhs.token_id() {
            Ok((token, pos))
        } else {
            Err(PipelineError::UnexpectedToken(token))
        }
    }

    /// Takes the next token if it is of the kind of `target`, and says
    /// whether it did.
    pub fn try_parse_special_token(&mut self, target: &Token) -> (took: bool)
        ensures
            advances::<()>(*old(self), *final(self), Ok(())),
            took == (old(self).head().0@.id == target@.id),
            took && target@.id != 13 ==> final(self).pending().len() < old(self).pending().len(),
            final(self).input() == (if took {
                taken(old(self).input())
            } else {
                old(self).input()
            }),
    {
        if self.token_stream.peek_id() == target.token_id() {
            self.take();
            true
        } else {
            false
        }
    }

    /// Takes the next token, which must be the keyword `target`.
    fn parse_keyword(&mut self, target: &str) -> (r: Result<(String, Position), PipelineError>)
        ensures
            consumes(*old(self), *final(self), r),
            final(self).imported() == old(self).imported(),
            match keyword(old(self).input(), target@) {
                Ok((pos, i)) => r matches Ok(item) && item.0@ == target@ && item.1 == pos && final(self).input() == i,
                Err(f) => r matches Err(e) && is_flaw(e, f),
            },
    {
        let (next, pos) = self.take();
        match next {
            Token::Keyword(keyword) => {
                if same_str(keyword.as_str(), target) {
                    Ok((keyword, pos))
                } else {
                    Err(PipelineError::UnusedKeyword(keyword))
                }
            },
            other => Err(PipelineError::UnexpectedToken(other)),
        }
    }

    /// Takes the next token, which must be an identifier.
    fn parse_identifier(&mut self) -> (r: Result<(String, Position), PipelineError>)
        ensures
            consumes(*old(self), *final(self), r),
            final(self).imported() == old(self).imported(),
            r matches Ok(item) ==> old(self).head() == (Token::Identifier(item.0), item.1),
            match identifier(old(self).input()) {
                Ok(((name, pos), i)) => r matches Ok(item) && item.0@ == name && item.1 == pos
                    && final(self).input() == i,
                Err(f) => r matches Err(e) && is_flaw(e, f),
            },
    {
        let (next, pos) = self.take();
        match next {
            Token::Identifier(identifier) => Ok((identifier, pos)),
            other => Err(PipelineError::UnexpectedToken(other)),
        }
    }

    /// Takes the next token.
    fn take(&mut self) -> (r: (Token, Position))
        ensures
            r == old(self).head(),
            advances::<()>(*old(self), *final(self), Ok(())),
            old(self).pending().len() > 0 ==> final(self).pending().len() < old(self).pending().len(),
            final(self).input() == taken(old(self).input()),
            final(self).imported() == old(self).imported(),
    {
        let r = self.token_stream.next();
        proof {
            if old(self).pending().len() > 0 {
                assert(token_views(self.pending()) =~= token_views(old(self).pending()).drop_first());
            }
        }
        r
    }

    /// The kind of the next token.
    fn peek_kind(&self) -> (id: i8)
        ensures
            id == kind(self.input()),
            id != 13 ==> self.pending().len() > 0,
    {
        self.token_stream.peek_id()
    }

    /// The kind of the token `ahead` places behind the next one.
    fn peek_kind_at(&self, ahead: usize) -> (id: i8)
        ensures
            id == kind_at(self.input(), ahead as int),
    {
        self.token_stream.peek_id_at(ahead)
    }

    /// The offset at which the next token starts.
    fn peek_start(&self) -> (start: usize)
        ensures
            start == head(self.input()).1.pos,
    {
        self.token_stream.peek_position().pos
    }

    /// The region from `start` to the end of the token that was taken
    /// last.
    fn region_from(&self, start: usize) -> (p: Position)
        ensures
            p == region(self.input(), start),
    {
        self.token_stream.region_from(start)
    }

    /// The binary operator that a token of kind `id` writes, on the level of
    /// comparisons (`level` 0), sums (1) or products (2).
    fn operator_of(id: i8, level: u8) -> (r: Option<Op>)
        ensures
            r == op_at(id as int, level as int),
            r is Some ==> id != 13,
    {
        if level == 0 {
            if id == 18 {
                Some(Op::Greater)
            } else if id == 19 {
                Some(Op::Less)
            } else if id == 20 {
                Some(Op::Equal)
            } else if id == 25 {
                Some(Op::NotEqual)
            } else {
                None
            }
        } else if level == 1 {
            if id == 16 {
                Some(Op::Plus)
            } else if id == 21 {
                Some(Op::Minus)
            } else {
                None
            }
        } else {
            if id == 17 {
                Some(Op::Mul)
            } else if id == 22 {
                Some(Op::Div)
            } else if id == 23 {
                Some(Op::Mod)
            } else {
                None
            }
        }
    }

    /// An expression: a sum, or two sums with one of `>`, `<`, `==`, `!=`
    /// between them.
    #[verifier::spinoff_prover]
    pub fn parse_expr(&mut self) -> (r: Result<Expr, PipelineError>)
        ensures
            consumes(*old(self), *final(self), r),
            is_expr(g_expr(old(self).input()), r, final(self).input()),
        decreases old(self).pending().len(), 10nat,
    {
        let start = self.peek_start();
        let lhs = self.parse_math_expr()?;
        match Self::operator_of(self.peek_kind(), 0) {
            Some(op) => {
                self.take();
                let rhs = self.parse_math_expr()?;
                let pos = self.region_from(start);
                Ok(Expr::BinaryExpr(op, Box::new(lhs), Box::new(rhs), pos))
            },
            None => Ok(lhs),
        }
    }

    /// A sum: products with `+` and `-` between them, grouped from the
    /// left.
    #[verifier::spinoff_prover]
    fn parse_math_expr(&mut self) -> (r: Result<Expr, PipelineError>)
        ensures
            consumes(*old(self), *final(self), r),
            is_expr(g_math(old(self).input()), r, final(self).input()),
        decreases old(self).pending().len(), 9nat,
    {
        let start = self.peek_start();
        let mut lhs = self.parse_term()?;
        let mut next_op = Self::operator_of(self.peek_kind(), 1);
        while next_op.is_some()
            invariant
                advances::<()>(*old(self), *self, Ok(())),
                self.pending().len() < old(self).pending().len(),
                next_op == op_at(kind(self.input()), 1),
                g_math(old(self).input()) == g_math_rest(self.input(), start, expr_view(lhs)),
            decreases self.pending().len(),
        {
            self.take();
            let rhs = self.parse_term()?;
            let pos = self.region_from(start);
            lhs = Expr::BinaryExpr(next_op.unwrap(), Box::new(lhs), Box::new(rhs), pos);
            next_op = Self::operator_of(self.peek_kind(), 1);
        }
        Ok(lhs)
    }

    /// A product: operands with `*`, `/` and `%` between them, grouped from
    /// the left.
    #[verifier::spinoff_prover]
    fn parse_term(&mut self) -> (r: Result<Expr, PipelineError>)
        ensures
            consumes(*old(self), *final(self), r),
            is_expr(g_term(old(self).input()), r, final(self).input()),
        decreases old(self).pending().len(), 8nat,
    {
        let start = self.peek_start();
        let mut lhs = self.parse_expr_call_chain()?;
        let mut next_op = Self::operator_of(self.peek_kind(), 2);
        while next_op.is_some()
            invariant
                advances::<()>(*old(self), *self, Ok(())),
                self.pending().len() < old(self).pending().len(),
                next_op == op_at(kind(self.input()), 2),
                g_term(old(self).input()) == g_term_rest(self.input(), start, expr_view(lhs)),
            decreases self.pending().len(),
        {
            self.take();
            let rhs = self.parse_expr_call_chain()?;
            let pos = self.region_from(start);
            lhs = Expr::BinaryExpr(next_op.unwrap(), Box::new(lhs), Box::new(rhs), pos);
            next_op = Self::operator_of(self.peek_kind(), 2);
        }
        Ok(lhs)
    }

    /// An operand: a primary expression followed by any number of member
    /// accesses `.name`, calls `(..)` and indexings `[..]`. A call on
    /// `base.name` is the call of `name` with `base` as its first argument.
    #[verifier::spinoff_prover]
    fn parse_expr_call_chain(&mut self) -> (r: Result<Expr, PipelineError>)
        ensures
            consumes(*old(self), *final(self), r),
            is_expr(g_chain(old(self).input()), r, final(self).input()),
        decreases old(self).pending().len(), 7nat,
    {
        let start = self.peek_start();
        let mut lhs = self.parse_primary()?;
        let mut id = self.peek_kind();
        while id == 11 || id == 5 || id == 7
            invariant
                advances::<()>(*old(self), *self, Ok(())),
                self.pending().len() < old(self).pending().len(),
                id == kind(self.input()),
                g_chain(old(self).input()) == g_chain_rest(self.input(), start, expr_view(lhs)),
            decreases self.pending().len(),
        {
            if id == 11 {
                self.take();
                let (name, _) = self.parse_identifier()?;
                let pos = self.region_from(start);
                lhs = Expr::MemberAccess(Box::new(lhs), name, pos);
            } else if id == 5 {
                match lhs {
                    Expr::Variable(name, _) => {
                        let args = self.parse_fn_call_args()?;
                        let pos = self.region_from(start);
                        lhs = Expr::FnCall(FnCallExpr { name, args }, pos);
                    },
                    Expr::MemberAccess(base, name, _) => {
                        let mut args = self.parse_fn_call_args()?;
                        let ghost rest = args@;
                        args.insert(0, *base);
                        proof {
                            assert(exprs_view(args@) =~= seq![expr_view(*base)] + exprs_view(rest));
                        }
                        let pos = self.region_from(start);
                        lhs = Expr::FnCall(FnCallExpr { name, args }, pos);
                    },
                    _ => {
                        return Err(PipelineError::UnexpectedToken(Token::BraceLeft));
                    },
                }
            } else {
                self.take();
                let index = self.parse_math_expr()?;
                self.parse_special_token(&Token::SquareBracketRight)?;
                let pos = self.region_from(start);
                lhs = Expr::Index(Box::new(lhs), Box::new(index), pos);
            }
            id = self.peek_kind();
        }
        Ok(lhs)
    }

    /// A primary expression: a literal, a name, a call `Module::f(..)`, a
    /// struct literal `Name(field: value, ..)`, an array literal `[..]` or a
    /// map literal `(key: value, ..)`.
    #[verifier::spinoff_prover]
    fn parse_primary(&mut self) -> (r: Result<Expr, PipelineError>)
        ensures
            consumes(*old(self), *final(self), r),
            is_expr(g_primary(old(self).input()), r, final(self).input()),
        decreases old(self).pending().len(), 6nat,
    {
        let id = self.peek_kind();
        if id == 7 {
            return self.parse_array();
        }
        if id == 5 {
            return self.parse_map();
        }
        let (token, pos) = self.take();
        match token {
            Token::String(s) => Ok(Expr::StringConstant(s, pos)),
            Token::Int(i) => Ok(Expr::IntConstant(i, pos)),
            Token::Float(f) => Ok(Expr::FloatConstant(f, pos)),
            Token::Identifier(ident) => {
                let id = self.peek_kind();
                if id == 24 {
                    self.take();
                    let (function, _) = self.parse_identifier()?;
                    let args = self.parse_fn_call_args()?;
                    let name = ident.concat("::").concat(function.as_str());
                    let region = self.region_from(pos.pos);
                    Ok(Expr::FnCall(FnCallExpr { name, args }, region))
                } else if id == 5 && self.peek_kind_at(1) == 3 && self.peek_kind_at(2) == 14 {
                    let props = self.parse_struct_fields()?;
                    let region = self.region_from(pos.pos);
                    Ok(Expr::Struct(StructExpr::new(ident, props), region))
                } else {
                    Ok(Expr::Variable(ident, pos))
                }
            },
            other => Err(PipelineError::UnexpectedToken(other)),
        }
    }

    /// The fields of a struct literal, `(name: value, ..)`.
    #[verifier::spinoff_prover]
    fn parse_struct_fields(&mut self) -> (r: Result<Vec<(String, Expr)>, PipelineError>)
        ensures
            consumes(*old(self), *final(self), r),
            match g_fields(old(self).input()) {
                Ok((v, i)) => r matches Ok(props) && fields_view(props@) == v && final(self).input() == i,
                Err(f) => r matches Err(e) && is_flaw(e, f),
            },
        decreases old(self).pending().len(), 5nat,
    {
        self.parse_special_token(&Token::BraceLeft)?;
        let mut props: Vec<(String, Expr)> = Vec::new();
        assert(fields_view(props@) =~= Seq::empty());
        loop
            invariant
                advances::<()>(*old(self), *self, Ok(())),
                self.pending().len() < old(self).pending().len(),
                g_fields(old(self).input()) == g_fields_rest(self.input(), fields_view(props@)),
            decreases self.pending().len(),
        {
            let id = self.peek_kind();
            if id == 6 {
                self.take();
                return Ok(props);
            } else if id == 12 {
                self.take();
            } else {
                let (name, _) = self.parse_identifier()?;
                self.parse_special_token(&Token::Colon)?;
                let value = self.parse_expr()?;
                let ghost before = props@;
                props.push((name, value));
                proof {
                    assert(fields_view(props@) =~= fields_view(before).push((name@, expr_view(value))));
                }
            }
        }
    }

    /// An array literal, `[item, ..]`.
    #[verifier::spinoff_prover]
    fn parse_array(&mut self) -> (r: Result<Expr, PipelineError>)
        ensures
            consumes(*old(self), *final(self), r),
            is_expr(g_array(old(self).input()), r, final(self).input()),
        decreases old(self).pending().len(), 5nat,
    {
        let (_, start) = self.parse_special_token(&Token::SquareBracketLeft)?;
        let mut items: Vec<Expr> = Vec::new();
        assert(exprs_view(items@) =~= Seq::empty());
        loop
            invariant
                advances::<()>(*old(self), *self, Ok(())),
                self.pending().len() < old(self).pending().len(),
                g_array(old(self).input()) == g_array_rest(self.input(), start.pos, exprs_view(items@)),
            decreases self.pending().len(),
        {
            let id = self.peek_kind();
            if id == 8 {
                self.take();
                let pos = self.region_from(start.pos);
                return Ok(Expr::Array(items, pos));
            } else if id == 12 {
                self.take();
            } else {
                let item = self.parse_expr()?;
                let ghost before = items@;
                items.push(item);
                proof {
                    assert(exprs_view(items@) =~= exprs_view(before).push(expr_view(item)));
                }
            }
        }
    }

    /// A map literal, `(key: value, ..)`. A key that is written as a bare
    /// name is the string of that name.
    #[verifier::spinoff_prover]
    pub fn parse_map(&mut self) -> (r: Result<Expr, PipelineError>)
        ensures
            consumes(*old(self), *final(self), r),
            is_expr(g_map(old(self).input()), r, final(self).input()),
        decreases old(self).pending().len(), 5nat,
    {
        let (_, start) = self.parse_special_token(&Token::BraceLeft)?;
        let mut entries: Vec<(Expr, Expr)> = Vec::new();
        assert(pairs_view(entries@) =~= Seq::empty());
        loop
            invariant
                advances::<()>(*old(self), *self, Ok(())),
                self.pending().len() < old(self).pending().len(),
                g_map(old(self).input()) == g_map_rest(self.input(), start.pos, pairs_view(entries@)),
            decreases self.pending().len(),
        {
            let id = self.peek_kind();
            if id == 6 {
                self.take();
                let pos = self.region_from(start.pos);
                return Ok(Expr::MapLiteral(entries, pos));
            } else if id == 12 {
                self.take();
            } else {
                let key = if id == 3 && self.peek_kind_at(1) == 14 {
                    let (name, pos) = self.parse_identifier()?;
                    Expr::StringConstant(name, pos)
                } else {
                    self.parse_expr()?
                };
                self.parse_special_token(&Token::Colon)?;
                let value = self.parse_expr()?;
                let ghost before = entries@;
                entries.push((key, value));
                proof {
                    assert(pairs_view(entries@) =~= pairs_view(before).push(
                        (expr_view(key), expr_view(value)),
                    ));
                }
            }
        }
    }

    /// The arguments of a call up to the `)` that closes them.
    #[verifier::spinoff_prover]
    fn parse_plain_args(&mut self) -> (r: Result<Vec<Expr>, PipelineError>)
        ensures
            advances(*old(self), *final(self), r),
            are_exprs(g_args_rest(old(self).input(), Seq::empty()), r, final(self).input()),
        decreases old(self).pending().len(), 15nat,
    {
        let mut args: Vec<Expr> = Vec::new();
        assert(exprs_view(args@) =~= Seq::empty());
        loop
            invariant
                advances::<()>(*old(self), *self, Ok(())),
                self.pending().len() <= old(self).pending().len(),
                g_args_rest(old(self).input(), Seq::empty()) == g_args_rest(
                    self.input(),
                    exprs_view(args@),
                ),
            decreases self.pending().len(),
        {
            let id = self.peek_kind();
            if id == 6 {
                self.take();
                return Ok(args);
            } else if id == 12 {
                self.take();
            } else {
                let item = self.parse_expr()?;
                let ghost before = args@;
                args.push(item);
                proof {
                    assert(exprs_view(args@) =~= exprs_view(before).push(expr_view(item)));
                }
                let id = self.peek_kind();
                if id != 6 && id != 12 {
                    let (token, _) = self.take();
                    return Err(PipelineError::UnexpectedToken(token));
                }
            }
        }
    }

    /// The arguments of a call, `(argument, ..)`, and the block behind them
    /// where one follows: it becomes one more argument, a function without
    /// a name and without parameters that the callee may call.
    #[verifier::spinoff_prover]
    pub fn parse_fn_call_args(&mut self) -> (r: Result<Vec<Expr>, PipelineError>)
        ensures
            consumes(*old(self), *final(self), r),
            are_exprs(g_args(old(self).input()), r, final(self).input()),
        decreases old(self).pending().len(), 5nat,
    {
        self.parse_special_token(&Token::BraceLeft)?;
        let mut args = self.parse_plain_args()?;
        if self.blocks_follow_calls && self.peek_kind() == 9 {
            let start = self.peek_start();
            let body = self.parse_block()?;
            let def = FnDef::new(String::new(), Vec::new(), body, String::from_str("Any"));
            let pos = self.region_from(start);
            let ghost before = args@;
            let closure = Expr::FnClosure(FnClosureExpr { def: Arc::new(def) }, pos);
            args.push(closure);
            proof {
                assert(declarations_view(def.args@) =~= Seq::empty());
                assert(fn_def_view(def) == (FnDefView {
                    name: Seq::empty(),
                    return_type: "Any"@,
                    args: Seq::empty(),
                    body: stmts_view(body@),
                }));
                assert(expr_view(closure) == ExprView::FnClosure(fn_def_view(def), pos));
                assert(exprs_view(args@) =~= exprs_view(before).push(expr_view(closure)));
            }
        }
        Ok(args)
    }

    /// An expression in which a `{` behind a call starts no block for the
    /// call: the condition of `if` and `while`, the items of `for`.
    fn parse_condition(&mut self) -> (r: Result<Expr, PipelineError>)
        ensures
            consumes(*old(self), *final(self), r),
            is_expr(g_condition(old(self).input()), r, final(self).input()),
        decreases old(self).pending().len(), 11nat,
    {
        let before = self.blocks_follow_calls;
        self.blocks_follow_calls = false;
        let r = self.parse_expr();
        self.blocks_follow_calls = before;
        r
    }

    /// A block, `{ statement .. }`.
    fn parse_block(&mut self) -> (r: Result<Vec<Stmt>, PipelineError>)
        ensures
            consumes(*old(self), *final(self), r),
            are_stmts(g_block(old(self).input()), r, final(self).input()),
        decreases old(self).pending().len(), 4nat,
    {
        self.parse_special_token(&Token::ParenthesisLeft)?;
        let before = self.blocks_follow_calls;
        self.blocks_follow_calls = true;
        let body = self.parse_stmt_blocks();
        self.blocks_follow_calls = before;
        let body = body?;
        self.parse_special_token(&Token::ParenthesisRight)?;
        Ok(body)
    }

    /// Statements up to the end of the input or the `}` that closes the
    /// block they stand in. Definitions of functions and classes are
    /// collected and leave no statement.
    #[verifier::spinoff_prover]
    pub fn parse_stmt_blocks(&mut self) -> (r: Result<Vec<Stmt>, PipelineError>)
        ensures
            advances(*old(self), *final(self), r),
            r is Ok ==> final(self).head().0@.id == 13 || final(self).head().0@.id == 10,
            are_stmts(g_stmts(old(self).input()), r, final(self).input()),
        decreases old(self).pending().len(), 14nat,
    {
        let mut v: Vec<Stmt> = Vec::new();
        assert(stmts_view(v@) =~= Seq::empty());
        let mut id = self.peek_kind();
        while id != 13 && id != 10
            invariant
                advances::<()>(*old(self), *self, Ok(())),
                id == kind(self.input()),
                g_stmts(old(self).input()) == g_stmts_rest(self.input(), stmts_view(v@)),
            decreases self.pending().len(),
        {
            let stmt = self.parse_stmt()?;
            if !stmt.is_noop() {
                let ghost before = v@;
                v.push(stmt);
                proof {
                    assert(stmts_view(v@) =~= stmts_view(before).push(stmt_view(stmt)));
                }
            }
            id = self.peek_kind();
        }
        Ok(v)
    }

    /// One statement. At the end of the input, and at the `}` that closes a
    /// block, the statement that does nothing is given and no token is
    /// taken. A definition of a function or a class is collected, and the
    /// statement that does nothing is given for it.
    #[verifier::spinoff_prover]
    pub fn parse_stmt(&mut self) -> (r: Result<Stmt, PipelineError>)
        ensures
            advances(*old(self), *final(self), r),
            r is Ok && old(self).head().0@.id != 13 && old(self).head().0@.id != 10 ==> final(self).pending().len() < old(self).pending().len(),
            is_stmt(g_stmt(old(self).input()), r, final(self).input()),
        decreases old(self).pending().len(), 13nat,
    {
        let id = self.peek_kind();
        if id == 13 || id == 10 {
            return Ok(Stmt::Noop);
        }
        if id != 4 {
            return self.parse_expr_stmt();
        }
        let (token, pos) = self.token_stream.peek();
        let word = match token {
            Token::Keyword(k) => k,
            other => {
                return Err(PipelineError::UnexpectedToken(other));
            },
        };
        let k = word.as_str();
        if same_str(k, "let") || same_str(k, "var") || same_str(k, "val") {
            self.parse_let_stmt()
        } else if same_str(k, "fn") {
            let (def, _) = self.parse_fn_def()?;
            let ghost before = self.fn_lib@;
            let shared = Arc::new(def);
            self.fn_lib.push(shared);
            proof {
                assert(functions_view(self.fn_lib@) =~= functions_view(before).push(fn_def_view(def)));
            }
            Ok(Stmt::Noop)
        } else if same_str(k, "fun") {
            self.parse_function()?;
            Ok(Stmt::Noop)
        } else if same_str(k, "class") {
            self.parse_class()?;
            Ok(Stmt::Noop)
        } else if same_str(k, "return") {
            self.parse_return_stmt()
        } else if same_str(k, "if") {
            self.parse_if_stmt()
        } else if same_str(k, "while") {
            self.parse_while_stmt()
        } else if same_str(k, "for") {
            self.parse_for_loop()
        } else if same_str(k, "import") {
            self.parse_import_stmt()
        } else if same_str(k, "break") {
            self.take();
            Ok(Stmt::Break(pos))
        } else if same_str(k, "continue") {
            self.take();
            Ok(Stmt::Continue(pos))
        } else {
            self.take();
            Err(PipelineError::UnusedKeyword(word))
        }
    }

    /// `let name = value`; `var` and `val` stand for `let`.
    fn parse_let_stmt(&mut self) -> (r: Result<Stmt, PipelineError>)
        ensures
            consumes(*old(self), *final(self), r),
            is_stmt(g_let(old(self).input()), r, final(self).input()),
        decreases old(self).pending().len(), 1nat,
    {
        let (token, start) = self.take();
        match token {
            Token::Keyword(_) => {
                let (name, _) = self.parse_identifier()?;
                self.parse_special_token(&Token::Assign)?;
                let value = self.parse_expr()?;
                let pos = self.region_from(start.pos);
                Ok(Stmt::Let(Box::new((name, value)), pos))
            },
            other => Err(PipelineError::UnexpectedToken(other)),
        }
    }

    /// `return value`, or `return` alone in front of `}` or the end of the
    /// input.
    pub fn parse_return_stmt(&mut self) -> (r: Result<Stmt, PipelineError>)
        ensures
            consumes(*old(self), *final(self), r),
            is_stmt(g_return(old(self).input()), r, final(self).input()),
        decreases old(self).pending().len(), 1nat,
    {
        let (_, start) = self.parse_keyword("return")?;
        let id = self.peek_kind();
        if id == 13 || id == 10 {
            return Ok(Stmt::Return(Box::new(Expr::Empty(start)), start));
        }
        let value = self.parse_expr()?;
        let pos = self.region_from(start.pos);
        Ok(Stmt::Return(Box::new(value), pos))
    }

    /// `if condition { .. }`
    fn parse_if_branch(&mut self) -> (r: Result<(IfBranchStmt, Position), PipelineError>)
        ensures
            consumes(*old(self), *final(self), r),
            match g_if_branch(old(self).input()) {
                Ok((((condition, body), pos), i)) => r matches Ok(item) && expr_view(
                    item.0.condition,
                ) == condition && stmts_view(item.0.body@) == body && item.1 == pos && final(self).input() == i,
                Err(f) => r matches Err(e) && is_flaw(e, f),
            },
        decreases old(self).pending().len(), 0nat,
    {
        let (_, start) = self.parse_keyword("if")?;
        let condition = self.parse_condition()?;
        let body = self.parse_block()?;
        let pos = self.region_from(start.pos);
        Ok((IfBranchStmt::new(condition, body), pos))
    }

    /// The branches behind the first one: any number of
    /// `else if condition { .. }`, and at the end `else { .. }` or nothing.
    #[verifier::spinoff_prover]
    fn parse_else(&mut self, first: IfBranchStmt) -> (r: Result<IfStmt, PipelineError>)
        ensures
            advances(*old(self), *final(self), r),
            match g_if_rest(
                old(self).input(),
                seq![(expr_view(first.condition), stmts_view(first.body@))],
            ) {
                Ok(((branches, otherwise), i)) => r matches Ok(found) && branches_view(
                    found.branches@,
                ) == branches && otherwise == (match found.else_body {
                    Some(body) => Some(stmts_view(body@)),
                    None => None,
                }) && final(self).input() == i,
                Err(f) => r matches Err(e) && is_flaw(e, f),
            },
        decreases old(self).pending().len(), 1nat,
    {
        let mut branches: Vec<IfBranchStmt> = Vec::new();
        branches.push(first);
        assert(branches_view(branches@) =~= seq![(expr_view(first.condition), stmts_view(first.body@))]);
        while self.next_is_keyword("else")
            invariant
                advances::<()>(*old(self), *self, Ok(())),
                g_if_rest(
                    old(self).input(),
                    seq![(expr_view(first.condition), stmts_view(first.body@))],
                ) == g_if_rest(self.input(), branches_view(branches@)),
            decreases self.pending().len(),
        {
            self.take();
            if self.peek_kind() == 9 {
                let body = self.parse_block()?;
                return Ok(IfStmt::new(branches, Some(body)));
            }
            let (branch, _) = self.parse_if_branch()?;
            let ghost before = branches@;
            branches.push(branch);
            proof {
                assert(branches_view(branches@) =~= branches_view(before).push(
                    (expr_view(branch.condition), stmts_view(branch.body@)),
                ));
            }
        }
        Ok(IfStmt::new(branches, None))
    }

    /// `if condition { .. }`, any number of `else if condition { .. }`, and
    /// at the end `else { .. }` or nothing.
    pub fn parse_if_stmt(&mut self) -> (r: Result<Stmt, PipelineError>)
        ensures
            consumes(*old(self), *final(self), r),
            is_stmt(g_if(old(self).input()), r, final(self).input()),
        decreases old(self).pending().len(), 2nat,
    {
        let (first, start) = self.parse_if_branch()?;
        let found = self.parse_else(first)?;
        let pos = self.region_from(start.pos);
        Ok(Stmt::If(Box::new(found), pos))
    }

    /// Whether the next token is the keyword `word`.
    fn next_is_keyword(&self, word: &str) -> (b: bool)
        ensures
            b ==> self.pending().len() > 0,
            b == at_keyword(self.input(), word@),
    {
        if self.token_stream.peek_id() != 4 {
            return false;
        }
        match self.token_stream.peek().0 {
            Token::Keyword(k) => same_str(k.as_str(), word),
            _ => false,
        }
    }

    /// `while condition { .. }`
    pub fn parse_while_stmt(&mut self) -> (r: Result<Stmt, PipelineError>)
        ensures
            consumes(*old(self), *final(self), r),
            is_stmt(g_while(old(self).input()), r, final(self).input()),
        decreases old(self).pending().len(), 1nat,
    {
        let (_, start) = self.parse_keyword("while")?;
        let condition = self.parse_condition()?;
        let body = self.parse_block()?;
        let pos = self.region_from(start.pos);
        Ok(Stmt::While(Box::new(condition), Box::new(body), pos))
    }

    /// `for item in items { .. }` or `for index, item in items { .. }`.
    #[verifier::spinoff_prover]
    #[verifier::rlimit(60)]
    pub fn parse_for_loop(&mut self) -> (r: Result<Stmt, PipelineError>)
        ensures
            consumes(*old(self), *final(self), r),
            is_stmt(g_for(old(self).input()), r, final(self).input()),
        decreases old(self).pending().len(), 1nat,
    {
        let (_, start) = self.parse_keyword("for")?;
        let (one, _) = self.parse_identifier()?;
        let mut other: Option<String> = None;
        if self.peek_kind() == 12 {
            self.take();
            let (two, _) = self.parse_identifier()?;
            other = Some(two);
        }
        self.parse_keyword("in")?;
        let items = self.parse_condition()?;
        let body = self.parse_block()?;
        let pos = self.region_from(start.pos);
        Ok(Stmt::ForIn(one, other, Box::new(items), Box::new(body), pos))
    }

    /// `import name`. The name is entered in the list of imports.
    pub fn parse_import_stmt(&mut self) -> (r: Result<Stmt, PipelineError>)
        ensures
            consumes(*old(self), *final(self), r),
            r matches Ok(Stmt::Import(name, _)) ==> final(self).imported() == old(self).imported().push(
                name,
            ),
            is_stmt(g_import(old(self).input()), r, final(self).input()),
    {
        let (_, start) = self.parse_keyword("import")?;
        let (name, _) = self.parse_identifier()?;
        let ghost before = self.imports@;
        self.imports.push(name.clone());
        proof {
            assert(names_view(self.imports@) =~= names_view(before).push(name@));
        }
        let pos = self.region_from(start.pos);
        Ok(Stmt::Import(name, pos))
    }

    /// A declared name with its type, `name: Type`; without `: Type` the
    /// type is `Any`.
    pub fn parse_variable_declaration(&mut self) -> (r: Result<
        (VariableDeclaration, Position),
        PipelineError,
    >)
        ensures
            consumes(*old(self), *final(self), r),
            match g_declaration(old(self).input()) {
                Ok(((name, declared), i)) => r matches Ok(item) && item.0.name@ == name
                    && item.0.declaration_type@ == declared && final(self).input() == i,
                Err(f) => r matches Err(e) && is_flaw(e, f),
            },
    {
        let (name, start) = self.parse_identifier()?;
        let declared = if self.peek_kind() == 14 {
            self.take();
            self.parse_identifier()?.0
        } else {
            String::from_str("Any")
        };
        let pos = self.region_from(start.pos);
        Ok((VariableDeclaration::new(name, declared), pos))
    }

    /// The parameters of a function or the fields of a class,
    /// `(name: Type, ..)`.
    #[verifier::spinoff_prover]
    pub fn parse_fn_def_args(&mut self) -> (r: Result<(Vec<VariableDeclaration>, Position), PipelineError>)
        ensures
            consumes(*old(self), *final(self), r),
            match g_declarations(old(self).input()) {
                Ok((found, i)) => r matches Ok(item) && declarations_view(item.0@) == found && final(self).input() == i,
                Err(f) => r matches Err(e) && is_flaw(e, f),
            },
    {
        let (_, start) = self.parse_special_token(&Token::BraceLeft)?;
        let mut v: Vec<VariableDeclaration> = Vec::new();
        assert(declarations_view(v@) =~= Seq::empty());
        loop
            invariant
                advances::<()>(*old(self), *self, Ok(())),
                self.pending().len() < old(self).pending().len(),
                g_declarations(old(self).input()) == g_declarations_rest(
                    self.input(),
                    declarations_view(v@),
                ),
            decreases self.pending().len(),
        {
            let id = self.peek_kind();
            if id == 6 {
                self.take();
                let pos = self.region_from(start.pos);
                return Ok((v, pos));
            } else if id == 12 {
                self.take();
            } else {
                let (declaration, _) = self.parse_variable_declaration()?;
                let ghost before = v@;
                v.push(declaration);
                proof {
                    assert(declarations_view(v@) =~= declarations_view(before).push(
                        (declaration.name@, declaration.declaration_type@),
                    ));
                }
            }
        }
    }

    /// `fn name(parameters) { .. }`
    pub fn parse_fn_def(&mut self) -> (r: Result<(FnDef, Position), PipelineError>)
        ensures
            consumes(*old(self), *final(self), r),
            match g_fn_def(old(self).input()) {
                Ok((def, i)) => r matches Ok(item) && fn_def_view(item.0) == def && final(self).input()
                    == i,
                Err(f) => r matches Err(e) && is_flaw(e, f),
            },
        decreases old(self).pending().len(), 1nat,
    {
        let (_, start) = self.parse_keyword("fn")?;
        let (name, _) = self.parse_identifier()?;
        let (params, _) = self.parse_fn_def_args()?;
        let body = self.parse_block()?;
        let pos = self.region_from(start.pos);
        Ok((FnDef::new(name, params, body, String::from_str("Any")), pos))
    }

    /// `fun name(parameters): Type { .. }` defines a function.
    /// `fun Class.name(parameters): Type { .. }` defines a method of a class
    /// that has been declared before; for a class that has not, the name of
    /// the class is an unexpected token.
    #[verifier::spinoff_prover]
    pub fn parse_function(&mut self) -> (r: Result<(), PipelineError>)
        ensures
            consumes(*old(self), *final(self), r),
            is_definition(g_function(old(self).input()), r, final(self).input()),
        decreases old(self).pending().len(), 1nat,
    {
        self.parse_keyword("fun")?;
        let (one, _) = self.parse_identifier()?;
        let mut method: Option<String> = None;
        if self.peek_kind() == 11 {
            self.take();
            let (two, _) = self.parse_identifier()?;
            method = Some(two);
        }
        let (params, _) = self.parse_fn_def_args()?;
        let result_type = if self.peek_kind() == 14 {
            self.take();
            self.parse_identifier()?.0
        } else {
            String::from_str("Unit")
        };
        let body = self.parse_block()?;
        match method {
            Some(name) => {
                let def = FnDef::new(name.clone(), params, body, result_type);
                let ghost before = self.known();
                let ghost method = name@;
                let f = Function::Method(Arc::new(def));
                let ghost entered = f;
                if give_method(&mut self.classes, one.as_str(), name, f) {
                    proof {
                        lemma_method_given(before, self.known(), one@, method, entered);
                    }
                    Ok(())
                } else {
                    Err(PipelineError::UnexpectedToken(Token::Identifier(one)))
                }
            },
            None => {
                let def = FnDef::new(one, params, body, result_type);
                let ghost before = self.fn_lib@;
                self.fn_lib.push(Arc::new(def));
                proof {
                    assert(functions_view(self.fn_lib@) =~= functions_view(before).push(
                        fn_def_view(def),
                    ));
                }
                Ok(())
            },
        }
    }

    /// `class Name(field: Type, ..)` declares a class; a class of that name
    /// is replaced.
    pub fn parse_class(&mut self) -> (r: Result<(), PipelineError>)
        ensures
            consumes(*old(self), *final(self), r),
            is_definition(g_class(old(self).input()), r, final(self).input()),
    {
        self.parse_keyword("class")?;
        let (name, _) = self.parse_identifier()?;
        let (fields, _) = self.parse_fn_def_args()?;
        let class = Class::new(name.clone(), fields);
        let ghost before = self.known();
        put(&mut self.classes, name, class);
        proof {
            assert(methods_view(class.method_map()) =~= Map::empty());
            assert(classes_view(self.known()) =~= classes_view(before).insert(name@, class_view(class)));
        }
        Ok(())
    }

    /// A statement that starts with an expression: an assignment
    /// `target = value`, an assignment to an index `base[index] = value`,
    /// or a call. Any other expression is no statement, and the token
    /// behind it is unexpected.
    #[verifier::spinoff_prover]
    pub fn parse_expr_stmt(&mut self) -> (r: Result<Stmt, PipelineError>)
        ensures
            consumes(*old(self), *final(self), r),
            is_stmt(g_expr_stmt(old(self).input()), r, final(self).input()),
        decreases old(self).pending().len(), 12nat,
    {
        let start = self.peek_start();
        let lhs = self.parse_expr_call_chain()?;
        if self.peek_kind() == 15 {
            self.take();
            let value = self.parse_expr()?;
            let pos = self.region_from(start);
            match lhs {
                Expr::Index(target, index, _) => Ok(Stmt::IndexAssign(target, index, Box::new(value), pos)),
                Expr::Variable(_, _) | Expr::MemberAccess(_, _, _) => Ok(
                    Stmt::Assign(Box::new((lhs, value)), pos),
                ),
                _ => Err(PipelineError::UnexpectedToken(Token::Assign)),
            }
        } else {
            match lhs {
                Expr::FnCall(call, pos) => Ok(Stmt::FnCall(Box::new(call), pos)),
                _ => {
                    let (token, _) = self.take();
                    Err(PipelineError::UnexpectedToken(token))
                },
            }
        }
    }

    /// The whole input as a program. A token that no statement starts with
    /// is unexpected.
    pub fn compile_from_token_stream(&mut self) -> (r: Result<AST, PipelineError>)
        ensures
            advances(*old(self), *final(self), r),
            r is Ok ==> final(self).head().0@.id == 13,
            match g_program(old(self).input()) {
                Ok((stmts, i)) => r matches Ok(ast) && stmts_view(ast.body@) == stmts && final(self).input() == i,
                Err(f) => r matches Err(e) && is_flaw(e, f),
            },
    {
        let stmts = self.parse_stmt_blocks()?;
        if self.peek_kind() != 13 {
            let (token, _) = self.take();
            return Err(PipelineError::UnexpectedToken(token));
        }
        Ok(AST { body: stmts })
    }
}

} // verus!
