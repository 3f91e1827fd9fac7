//! The grammar: what the parser makes of a sequence of tokens.
//!
//! Every spec function of this module reads a construct from the front of
//! the input and gives the syntax tree of the construct with the input
//! behind it, or the error of the first token that does not fit. The parser
//! is proved to compute these functions.

use vstd::prelude::*;
use std::sync::Arc;
use crate::error::PipelineError;
use crate::module::{Builtin, Class, Function};
use crate::v1::expr::{Expr, Op};
use crate::v1::lexer::{are_lexemes, end_of_input, end_offset, lexemes, Lexeme};
use crate::v1::parser::FnDef;
use crate::v1::position::Position;
use crate::v1::stmt::Stmt;
use crate::v1::syntax::{
    declarations_view, expr_view, exprs_view, fn_def_view, stmt_view, stmts_view, ExprView, FnDefView,
    StmtView,
};
use crate::v1::token::{Token, TokenView};

verus! {

/// Something that can be called.
pub enum FunctionView {
    Native(Builtin),
    Script(FnDefView),
    Method(FnDefView),
}

pub open spec fn function_view(f: Function) -> FunctionView {
    match f {
        Function::Native(b) => FunctionView::Native(b),
        Function::Script(d) => FunctionView::Script(fn_def_view(*d)),
        Function::Method(d) => FunctionView::Method(fn_def_view(*d)),
    }
}

/// A class: its name, its declared fields, name and type, and its methods
/// by name.
pub struct ClassView {
    pub name: Seq<char>,
    pub fields: Seq<(Seq<char>, Seq<char>)>,
    pub methods: Map<Seq<char>, FunctionView>,
}

pub open spec fn methods_view(methods: Map<Seq<char>, Function>) -> Map<Seq<char>, FunctionView> {
    Map::new(|k: Seq<char>| methods.contains_key(k), |k: Seq<char>| function_view(methods[k]))
}

pub open spec fn class_view(c: Class) -> ClassView {
    ClassView { name: c.name@, fields: declarations_view(c.fields@), methods: methods_view(c.method_map()) }
}

/// The classes, each under the name that the table holds it by: the name of
/// a class in a table is the name by which it is found.
pub open spec fn renamed(classes: Map<Seq<char>, ClassView>) -> Map<Seq<char>, ClassView> {
    Map::new(
        |k: Seq<char>| classes.contains_key(k),
        |k: Seq<char>| ClassView { name: k, ..classes[k] },
    )
}

/// The views of the classes of a table, each under the name that the table
/// holds it by.
pub open spec fn keyed_view(classes: Map<Seq<char>, Class>) -> Map<Seq<char>, ClassView> {
    renamed(classes_view(classes))
}

pub open spec fn classes_view(classes: Map<Seq<char>, Class>) -> Map<Seq<char>, ClassView> {
    Map::new(|k: Seq<char>| classes.contains_key(k), |k: Seq<char>| class_view(classes[k]))
}

pub open spec fn functions_view(lib: Seq<Arc<FnDef>>) -> Seq<FnDefView> {
    Seq::new(lib.len(), |i: int| fn_def_view(*lib[i]))
}

pub open spec fn names_view(names: Seq<String>) -> Seq<Seq<char>> {
    Seq::new(names.len(), |i: int| names[i]@)
}

/// Why an input is no sentence of the grammar.
pub enum Flaw {
    /// The token stands where the grammar has no use for it.
    Unexpected(TokenView),
    /// The keyword is reserved and starts no statement, or stands where
    /// another keyword is due.
    Unused(Seq<char>),
}

/// Whether the error tells the flaw.
pub open spec fn is_flaw(e: PipelineError, f: Flaw) -> bool {
    match f {
        Flaw::Unexpected(t) => e matches PipelineError::UnexpectedToken(found) && found@ == t,
        Flaw::Unused(k) => e matches PipelineError::UnusedKeyword(word) && word@ == k,
    }
}

/// The tokens as the grammar reads them.
pub open spec fn token_views(tokens: Seq<(Token, Position)>) -> Seq<(TokenView, Position)> {
    Seq::new(tokens.len(), |k: int| (tokens[k].0@, tokens[k].1))
}

/// What the parser reads and what it has collected.
pub struct Input {
    /// The tokens that have not been taken yet, each with its region in
    /// the source.
    pub rest: Seq<(TokenView, Position)>,
    /// The offset behind the token that was taken last.
    pub end: usize,
    /// Whether a `{` behind the arguments of a call starts a block that is
    /// handed to the call.
    pub blocks: bool,
    /// The functions that were defined, in order.
    pub functions: Seq<FnDefView>,
    /// The classes that are known.
    pub classes: Map<Seq<char>, ClassView>,
    /// The names of the modules whose import was read, in order.
    pub imports: Seq<Seq<char>>,
}

/// The lexemes as the grammar reads them.
pub open spec fn items_of(ls: Seq<Lexeme>) -> Seq<(TokenView, Position)> {
    Seq::new(
        ls.len(),
        |k: int| (ls[k].token, Position { pos: ls[k].start as usize, span: (ls[k].end - ls[k].start) as usize }),
    )
}

/// Tokens that are the lexemes are read as the lexemes.
pub proof fn lemma_items(tokens: Seq<(Token, Position)>, ls: Seq<Lexeme>)
    requires
        are_lexemes(tokens, ls),
    ensures
        token_views(tokens) == items_of(ls),
{
    assert forall|k: int| 0 <= k < tokens.len() implies token_views(tokens)[k] == items_of(ls)[k] by {
        assert(crate::v1::lexer::is_lexeme(tokens[k], ls[k]));
    }
    assert(token_views(tokens) =~= items_of(ls));
}

/// The input at the start: all tokens are to be read, no function has been
/// defined, no import read, and the classes `classes` are known.
pub open spec fn opening(rest: Seq<(TokenView, Position)>, classes: Map<Seq<char>, ClassView>) -> Input {
    Input { rest, end: 0, blocks: true, functions: Seq::empty(), classes, imports: Seq::empty() }
}

/// The input that a source text is at the start, or the first character of
/// the text that starts no token, with its offset.
pub open spec fn source_input(src: Seq<char>, classes: Map<Seq<char>, ClassView>) -> Result<
    Input,
    (char, int),
> {
    match lexemes(src, 0) {
        Ok(ls) => Ok(opening(items_of(ls), classes)),
        Err(e) => Err(e),
    }
}

/// The functions `own` with the first `upto` of the definitions `defs`
/// entered, each under its name. A later definition replaces an earlier one
/// of the same name.
pub open spec fn adopted(own: Map<Seq<char>, FunctionView>, defs: Seq<FnDefView>, upto: int) -> Map<
    Seq<char>,
    FunctionView,
>
    decreases upto,
{
    if upto <= 0 || upto > defs.len() {
        own
    } else {
        adopted(own, defs, upto - 1).insert(defs[upto - 1].name, FunctionView::Script(defs[upto - 1]))
    }
}

/// The token that comes next: the first of the rest, or `EOF` behind the
/// last.
pub open spec fn head(i: Input) -> (TokenView, Position) {
    if i.rest.len() > 0 {
        i.rest[0]
    } else {
        (end_of_input().0@, end_of_input().1)
    }
}

/// The kind of the token that comes next.
pub open spec fn kind(i: Input) -> int {
    head(i).0.id
}

/// The kind of the token `k` places behind the next one.
pub open spec fn kind_at(i: Input, k: int) -> int {
    if 0 <= k < i.rest.len() {
        i.rest[k].0.id
    } else {
        13
    }
}

/// The input behind the token that comes next.
pub open spec fn taken(i: Input) -> Input {
    if i.rest.len() > 0 {
        Input { rest: i.rest.drop_first(), end: end_offset(i.rest[0].1), ..i }
    } else {
        i
    }
}

/// The region from `start` to the end of the token that was taken last.
pub open spec fn region(i: Input, start: usize) -> Position {
    Position {
        pos: start,
        span: if i.end >= start {
            (i.end - start) as usize
        } else {
            0
        },
    }
}

/// Whether the one input is no longer than the other.
pub open spec fn within(a: Input, b: Input) -> bool {
    a.rest.len() <= b.rest.len()
}

/// The binary operator that a token of kind `id` writes, on the level of
/// comparisons (0), sums (1) or products (2).
pub open spec fn op_at(id: int, level: int) -> Option<Op> {
    if level == 0 {
        if id == 18 {
            Some(Op::Greater)
        } else if id == 19 {
            Some(Op::Less)
        } else if id == 20 {
            Some(Op::Equal)
        } else if id == 25 {
            Some(Op::NotEqual)
        } else {
            None
        }
    } else if level == 1 {
        if id == 16 {
            Some(Op::Plus)
        } else if id == 21 {
            Some(Op::Minus)
        } else {
            None
        }
    } else {
        if id == 17 {
            Some(Op::Mul)
        } else if id == 22 {
            Some(Op::Div)
        } else if id == 23 {
            Some(Op::Mod)
        } else {
            None
        }
    }
}

/// The next token, which must be of the kind `id`.
pub open spec fn expect(i: Input, id: int) -> Result<(Position, Input), Flaw> {
    if kind(i) == id {
        Ok((head(i).1, taken(i)))
    } else {
        Err(Flaw::Unexpected(head(i).0))
    }
}

/// The next token, which must be an identifier.
pub open spec fn identifier(i: Input) -> Result<((Seq<char>, Position), Input), Flaw> {
    if kind(i) == 3 {
        Ok(((head(i).0.text, head(i).1), taken(i)))
    } else {
        Err(Flaw::Unexpected(head(i).0))
    }
}

/// The next token, which must be the keyword `word`.
pub open spec fn keyword(i: Input, word: Seq<char>) -> Result<(Position, Input), Flaw> {
    if kind(i) != 4 {
        Err(Flaw::Unexpected(head(i).0))
    } else if head(i).0.text == word {
        Ok((head(i).1, taken(i)))
    } else {
        Err(Flaw::Unused(head(i).0.text))
    }
}

/// Whether the next token is the keyword `word`.
pub open spec fn at_keyword(i: Input, word: Seq<char>) -> bool {
    kind(i) == 4 && head(i).0.text == word
}

/// The result for an input that has grown. No input does: the case only
/// serves to show that reading ends.
pub open spec fn grown<T>() -> Result<T, Flaw> {
    Err(Flaw::Unexpected(end_of_input().0@))
}

/// An expression: a sum, or two sums with a comparison between them.
pub open spec fn g_expr(i: Input) -> Result<(ExprView, Input), Flaw>
    decreases i.rest.len(), 20nat,
{
    let start = head(i).1.pos;
    match g_math(i) {
        Ok((lhs, i1)) => match op_at(kind(i1), 0) {
            Some(op) => if within(taken(i1), i) {
                match g_math(taken(i1)) {
                    Ok((rhs, i2)) => Ok(
                        (ExprView::BinaryExpr(op, Box::new(lhs), Box::new(rhs), region(i2, start)), i2),
                    ),
                    Err(e) => Err(e),
                }
            } else {
                grown()
            },
            None => Ok((lhs, i1)),
        },
        Err(e) => Err(e),
    }
}

/// A sum: products with `+` and `-` between them, grouped from the left.
pub open spec fn g_math(i: Input) -> Result<(ExprView, Input), Flaw>
    decreases i.rest.len(), 18nat,
{
    match g_term(i) {
        Ok((lhs, i1)) => if within(i1, i) {
            g_math_rest(i1, head(i).1.pos, lhs)
        } else {
            grown()
        },
        Err(e) => Err(e),
    }
}

pub open spec fn g_math_rest(i: Input, start: usize, lhs: ExprView) -> Result<
    (ExprView, Input),
    Flaw,
>
    decreases i.rest.len(), 17nat,
{
    match op_at(kind(i), 1) {
        Some(op) => match g_term(taken(i)) {
            Ok((rhs, i1)) => if i1.rest.len() < i.rest.len() {
                g_math_rest(
                    i1,
                    start,
                    ExprView::BinaryExpr(op, Box::new(lhs), Box::new(rhs), region(i1, start)),
                )
            } else {
                grown()
            },
            Err(e) => Err(e),
        },
        None => Ok((lhs, i)),
    }
}

/// A product: operands with `*`, `/` and `%` between them, grouped from
/// the left.
pub open spec fn g_term(i: Input) -> Result<(ExprView, Input), Flaw>
    decreases i.rest.len(), 16nat,
{
    match g_chain(i) {
        Ok((lhs, i1)) => if within(i1, i) {
            g_term_rest(i1, head(i).1.pos, lhs)
        } else {
            grown()
        },
        Err(e) => Err(e),
    }
}

pub open spec fn g_term_rest(i: Input, start: usize, lhs: ExprView) -> Result<
    (ExprView, Input),
    Flaw,
>
    decreases i.rest.len(), 15nat,
{
    match op_at(kind(i), 2) {
        Some(op) => match g_chain(taken(i)) {
            Ok((rhs, i1)) => if i1.rest.len() < i.rest.len() {
                g_term_rest(
                    i1,
                    start,
                    ExprView::BinaryExpr(op, Box::new(lhs), Box::new(rhs), region(i1, start)),
                )
            } else {
                grown()
            },
            Err(e) => Err(e),
        },
        None => Ok((lhs, i)),
    }
}

/// An operand: a primary expression followed by any number of member
/// accesses, calls and indexings.
pub open spec fn g_chain(i: Input) -> Result<(ExprView, Input), Flaw>
    decreases i.rest.len(), 14nat,
{
    match g_primary(i) {
        Ok((lhs, i1)) => if within(i1, i) {
            g_chain_rest(i1, head(i).1.pos, lhs)
        } else {
            grown()
        },
        Err(e) => Err(e),
    }
}

pub open spec fn g_chain_rest(i: Input, start: usize, lhs: ExprView) -> Result<
    (ExprView, Input),
    Flaw,
>
    decreases i.rest.len(), 13nat,
{
    if kind(i) == 11 {
        // .name
        match identifier(taken(i)) {
            Ok(((name, _), i1)) => if i1.rest.len() < i.rest.len() {
                g_chain_rest(
                    i1,
                    start,
                    ExprView::MemberAccess(Box::new(lhs), name, region(i1, start)),
                )
            } else {
                grown()
            },
            Err(e) => Err(e),
        }
    } else if kind(i) == 5 {
        // (arguments)
        match lhs {
            ExprView::Variable(name, _) => match g_args(i) {
                Ok((args, i1)) => if i1.rest.len() < i.rest.len() {
                    g_chain_rest(i1, start, ExprView::FnCall(name, args, region(i1, start)))
                } else {
                    grown()
                },
                Err(e) => Err(e),
            },
            ExprView::MemberAccess(base, name, _) => match g_args(i) {
                Ok((args, i1)) => if i1.rest.len() < i.rest.len() {
                    g_chain_rest(
                        i1,
                        start,
                        ExprView::FnCall(name, seq![*base] + args, region(i1, start)),
                    )
                } else {
                    grown()
                },
                Err(e) => Err(e),
            },
            _ => Err(Flaw::Unexpected(Token::BraceLeft@)),
        }
    } else if kind(i) == 7 {
        // [index]
        match g_math(taken(i)) {
            Ok((index, i1)) => match expect(i1, 8) {
                Ok((_, i2)) => if i2.rest.len() < i.rest.len() {
                    g_chain_rest(
                        i2,
                        start,
                        ExprView::Index(Box::new(lhs), Box::new(index), region(i2, start)),
                    )
                } else {
                    grown()
                },
                Err(e) => Err(e),
            },
            Err(e) => Err(e),
        }
    } else {
        Ok((lhs, i))
    }
}

/// A primary expression: a literal, a name, a call `Module::f(..)`, a
/// struct literal `Name(field: value, ..)`, an array literal or a map
/// literal.
pub open spec fn g_primary(i: Input) -> Result<(ExprView, Input), Flaw>
    decreases i.rest.len(), 12nat,
{
    if kind(i) == 7 {
        g_array(i)
    } else if kind(i) == 5 {
        g_map(i)
    } else {
        let token = head(i).0;
        let pos = head(i).1;
        let i1 = taken(i);
        if token.id == 0 {
            Ok((ExprView::StringConstant(token.text, pos), i1))
        } else if token.id == 1 {
            Ok((ExprView::IntConstant(token.number, pos), i1))
        } else if token.id == 2 {
            Ok((ExprView::FloatConstant(token.text, pos), i1))
        } else if token.id == 3 {
            if kind(i1) == 24 {
                match identifier(taken(i1)) {
                    Ok(((function, _), i2)) => if i2.rest.len() < i.rest.len() {
                        match g_args(i2) {
                            Ok((args, i3)) => Ok(
                                (
                                    ExprView::FnCall(
                                        token.text + "::"@ + function,
                                        args,
                                        region(i3, pos.pos),
                                    ),
                                    i3,
                                ),
                            ),
                            Err(e) => Err(e),
                        }
                    } else {
                        grown()
                    },
                    Err(e) => Err(e),
                }
            } else if kind(i1) == 5 && kind_at(i1, 1) == 3 && kind_at(i1, 2) == 14 {
                match g_fields(i1) {
                    Ok((props, i2)) => Ok((ExprView::Struct(token.text, props, region(i2, pos.pos)), i2)),
                    Err(e) => Err(e),
                }
            } else {
                Ok((ExprView::Variable(token.text, pos), i1))
            }
        } else {
            Err(Flaw::Unexpected(token))
        }
    }
}

/// The fields of a struct literal, `(name: value, ..)`.
pub open spec fn g_fields(i: Input) -> Result<(Seq<(Seq<char>, ExprView)>, Input), Flaw>
    decreases i.rest.len(), 10nat,
{
    match expect(i, 5) {
        Ok((_, i1)) => g_fields_rest(i1, Seq::empty()),
        Err(e) => Err(e),
    }
}

pub open spec fn g_fields_rest(i: Input, props: Seq<(Seq<char>, ExprView)>) -> Result<
    (Seq<(Seq<char>, ExprView)>, Input),
    Flaw,
>
    decreases i.rest.len(), 21nat,
{
    if kind(i) == 6 {
        Ok((props, taken(i)))
    } else if kind(i) == 12 {
        g_fields_rest(taken(i), props)
    } else {
        match identifier(i) {
            Ok(((name, _), i1)) => match expect(i1, 14) {
                Ok((_, i2)) => match g_expr(i2) {
                    Ok((value, i3)) => if i3.rest.len() < i.rest.len() {
                        g_fields_rest(i3, props.push((name, value)))
                    } else {
                        grown()
                    },
                    Err(e) => Err(e),
                },
                Err(e) => Err(e),
            },
            Err(e) => Err(e),
        }
    }
}

/// An array literal, `[item, ..]`.
pub open spec fn g_array(i: Input) -> Result<(ExprView, Input), Flaw>
    decreases i.rest.len(), 10nat,
{
    match expect(i, 7) {
        Ok((start, i1)) => g_array_rest(i1, start.pos, Seq::empty()),
        Err(e) => Err(e),
    }
}

pub open spec fn g_array_rest(i: Input, start: usize, items: Seq<ExprView>) -> Result<
    (ExprView, Input),
    Flaw,
>
    decreases i.rest.len(), 21nat,
{
    if kind(i) == 8 {
        Ok((ExprView::Array(items, region(taken(i), start)), taken(i)))
    } else if kind(i) == 12 {
        g_array_rest(taken(i), start, items)
    } else {
        match g_expr(i) {
            Ok((item, i1)) => if i1.rest.len() < i.rest.len() {
                g_array_rest(i1, start, items.push(item))
            } else {
                grown()
            },
            Err(e) => Err(e),
        }
    }
}

/// A map literal, `(key: value, ..)`. A key that is written as a bare name
/// is the string of that name.
pub open spec fn g_map(i: Input) -> Result<(ExprView, Input), Flaw>
    decreases i.rest.len(), 10nat,
{
    match expect(i, 5) {
        Ok((start, i1)) => g_map_rest(i1, start.pos, Seq::empty()),
        Err(e) => Err(e),
    }
}

pub open spec fn g_map_rest(i: Input, start: usize, entries: Seq<(ExprView, ExprView)>) -> Result<
    (ExprView, Input),
    Flaw,
>
    decreases i.rest.len(), 21nat,
{
    if kind(i) == 6 {
        Ok((ExprView::MapLiteral(entries, region(taken(i), start)), taken(i)))
    } else if kind(i) == 12 {
        g_map_rest(taken(i), start, entries)
    } else {
        let key = if kind(i) == 3 && kind_at(i, 1) == 14 {
            match identifier(i) {
                Ok(((name, pos), i1)) => Ok::<(ExprView, Input), Flaw>(
                    (ExprView::StringConstant(name, pos), i1),
                ),
                Err(e) => Err(e),
            }
        } else {
            g_expr(i)
        };
        match key {
            Ok((k, i1)) => match expect(i1, 14) {
                Ok((_, i2)) => if within(i2, i) {
                    match g_expr(i2) {
                        Ok((value, i3)) => if i3.rest.len() < i.rest.len() {
                            g_map_rest(i3, start, entries.push((k, value)))
                        } else {
                            grown()
                        },
                        Err(e) => Err(e),
                    }
                } else {
                    grown()
                },
                Err(e) => Err(e),
            },
            Err(e) => Err(e),
        }
    }
}

/// The arguments of a call, `(argument, ..)`, and the block behind them
/// where one follows and blocks follow calls: the block is one more
/// argument, a function without a name and without parameters.
pub open spec fn g_args(i: Input) -> Result<(Seq<ExprView>, Input), Flaw>
    decreases i.rest.len(), 10nat,
{
    match expect(i, 5) {
        Ok((_, i1)) => match g_args_rest(i1, Seq::empty()) {
            Ok((args, i2)) => if i2.blocks && kind(i2) == 9 {
                if i2.rest.len() < i.rest.len() {
                    match g_block(i2) {
                        Ok((body, i3)) => Ok(
                            (
                                args.push(
                                    ExprView::FnClosure(
                                        FnDefView {
                                            name: Seq::empty(),
                                            return_type: "Any"@,
                                            args: Seq::empty(),
                                            body,
                                        },
                                        region(i3, head(i2).1.pos),
                                    ),
                                ),
                                i3,
                            ),
                        ),
                        Err(e) => Err(e),
                    }
                } else {
                    grown()
                }
            } else {
                Ok((args, i2))
            },
            Err(e) => Err(e),
        },
        Err(e) => Err(e),
    }
}

pub open spec fn g_args_rest(i: Input, args: Seq<ExprView>) -> Result<(Seq<ExprView>, Input), Flaw>
    decreases i.rest.len(), 21nat,
{
    if kind(i) == 6 {
        Ok((args, taken(i)))
    } else if kind(i) == 12 {
        g_args_rest(taken(i), args)
    } else {
        match g_expr(i) {
            Ok((item, i1)) => if kind(i1) != 6 && kind(i1) != 12 {
                Err(Flaw::Unexpected(head(i1).0))
            } else if i1.rest.len() < i.rest.len() {
                g_args_rest(i1, args.push(item))
            } else {
                grown()
            },
            Err(e) => Err(e),
        }
    }
}

/// An expression in which a `{` behind a call starts no block for the
/// call.
pub open spec fn g_condition(i: Input) -> Result<(ExprView, Input), Flaw>
    decreases i.rest.len(), 22nat,
{
    match g_expr(Input { blocks: false, ..i }) {
        Ok((e, i1)) => Ok((e, Input { blocks: i.blocks, ..i1 })),
        Err(e) => Err(e),
    }
}

/// A block, `{ statement .. }`.
pub open spec fn g_block(i: Input) -> Result<(Seq<StmtView>, Input), Flaw>
    decreases i.rest.len(), 8nat,
{
    match expect(i, 9) {
        Ok((_, i1)) => match g_stmts(Input { blocks: true, ..i1 }) {
            Ok((body, i2)) => match expect(Input { blocks: i.blocks, ..i2 }, 10) {
                Ok((_, i3)) => Ok((body, i3)),
                Err(e) => Err(e),
            },
            Err(e) => Err(e),
        },
        Err(e) => Err(e),
    }
}

/// Statements up to the end of the input or the `}` that closes the block
/// they stand in.
pub open spec fn g_stmts(i: Input) -> Result<(Seq<StmtView>, Input), Flaw>
    decreases i.rest.len(), 28nat,
{
    g_stmts_rest(i, Seq::empty())
}

pub open spec fn g_stmts_rest(i: Input, found: Seq<StmtView>) -> Result<(Seq<StmtView>, Input), Flaw>
    decreases i.rest.len(), 27nat,
{
    if kind(i) == 13 || kind(i) == 10 {
        Ok((found, i))
    } else {
        match g_stmt(i) {
            Ok((s, i1)) => if i1.rest.len() < i.rest.len() {
                g_stmts_rest(
                    i1,
                    if s is Noop {
                        found
                    } else {
                        found.push(s)
                    },
                )
            } else {
                grown()
            },
            Err(e) => Err(e),
        }
    }
}

/// One statement. A definition of a function or a class is collected, and
/// the statement that does nothing stands for it.
pub open spec fn g_stmt(i: Input) -> Result<(StmtView, Input), Flaw>
    decreases i.rest.len(), 26nat,
{
    if kind(i) == 13 || kind(i) == 10 {
        Ok((StmtView::Noop, i))
    } else if kind(i) != 4 {
        g_expr_stmt(i)
    } else {
        let k = head(i).0.text;
        if k == "let"@ || k == "var"@ || k == "val"@ {
            g_let(i)
        } else if k == "fn"@ {
            match g_fn_def(i) {
                Ok((def, i1)) => Ok(
                    (StmtView::Noop, Input { functions: i1.functions.push(def), ..i1 }),
                ),
                Err(e) => Err(e),
            }
        } else if k == "fun"@ {
            match g_function(i) {
                Ok(i1) => Ok((StmtView::Noop, i1)),
                Err(e) => Err(e),
            }
        } else if k == "class"@ {
            match g_class(i) {
                Ok(i1) => Ok((StmtView::Noop, i1)),
                Err(e) => Err(e),
            }
        } else if k == "return"@ {
            g_return(i)
        } else if k == "if"@ {
            g_if(i)
        } else if k == "while"@ {
            g_while(i)
        } else if k == "for"@ {
            g_for(i)
        } else if k == "import"@ {
            g_import(i)
        } else if k == "break"@ {
            Ok((StmtView::Break(head(i).1), taken(i)))
        } else if k == "continue"@ {
            Ok((StmtView::Continue(head(i).1), taken(i)))
        } else {
            Err(Flaw::Unused(k))
        }
    }
}

/// `let name = value`; `var` and `val` stand for `let`.
pub open spec fn g_let(i: Input) -> Result<(StmtView, Input), Flaw>
    decreases i.rest.len(), 2nat,
{
    if kind(i) != 4 {
        Err(Flaw::Unexpected(head(i).0))
    } else {
        match identifier(taken(i)) {
            Ok(((name, _), i1)) => match expect(i1, 15) {
                Ok((_, i2)) => if i2.rest.len() < i.rest.len() {
                    match g_expr(i2) {
                        Ok((value, i3)) => Ok(
                            (StmtView::Let(name, value, region(i3, head(i).1.pos)), i3),
                        ),
                        Err(e) => Err(e),
                    }
                } else {
                    grown()
                },
                Err(e) => Err(e),
            },
            Err(e) => Err(e),
        }
    }
}

/// `return value`, or `return` alone in front of `}` or the end of the
/// input.
pub open spec fn g_return(i: Input) -> Result<(StmtView, Input), Flaw>
    decreases i.rest.len(), 2nat,
{
    match keyword(i, "return"@) {
        Ok((start, i1)) => if kind(i1) == 13 || kind(i1) == 10 {
            Ok((StmtView::Return(ExprView::Empty(start), start), i1))
        } else if i1.rest.len() < i.rest.len() {
            match g_expr(i1) {
                Ok((value, i2)) => Ok((StmtView::Return(value, region(i2, start.pos)), i2)),
                Err(e) => Err(e),
            }
        } else {
            grown()
        },
        Err(e) => Err(e),
    }
}

/// `if condition { .. }`
pub open spec fn g_if_branch(i: Input) -> Result<(((ExprView, Seq<StmtView>), Position), Input), Flaw>
    decreases i.rest.len(), 0nat,
{
    match keyword(i, "if"@) {
        Ok((start, i1)) => if i1.rest.len() < i.rest.len() {
            match g_condition(i1) {
                Ok((condition, i2)) => if i2.rest.len() < i.rest.len() {
                    match g_block(i2) {
                        Ok((body, i3)) => Ok((((condition, body), region(i3, start.pos)), i3)),
                        Err(e) => Err(e),
                    }
                } else {
                    grown()
                },
                Err(e) => Err(e),
            }
        } else {
            grown()
        },
        Err(e) => Err(e),
    }
}

/// `if condition { .. }`, any number of `else if condition { .. }`, and at
/// the end `else { .. }` or nothing.
pub open spec fn g_if(i: Input) -> Result<(StmtView, Input), Flaw>
    decreases i.rest.len(), 2nat,
{
    match g_if_branch(i) {
        Ok(((first, start), i1)) => if i1.rest.len() < i.rest.len() {
            match g_if_rest(i1, seq![first]) {
                Ok(((branches, otherwise), i2)) => Ok(
                    (StmtView::If(branches, otherwise, region(i2, start.pos)), i2),
                ),
                Err(e) => Err(e),
            }
        } else {
            grown()
        },
        Err(e) => Err(e),
    }
}

pub open spec fn g_if_rest(i: Input, branches: Seq<(ExprView, Seq<StmtView>)>) -> Result<
    ((Seq<(ExprView, Seq<StmtView>)>, Option<Seq<StmtView>>), Input),
    Flaw,
>
    decreases i.rest.len(), 1nat,
{
    if at_keyword(i, "else"@) {
        let i1 = taken(i);
        if kind(i1) == 9 {
            match g_block(i1) {
                Ok((body, i2)) => Ok(((branches, Some(body)), i2)),
                Err(e) => Err(e),
            }
        } else {
            match g_if_branch(i1) {
                Ok(((branch, _), i2)) => if i2.rest.len() < i.rest.len() {
                    g_if_rest(i2, branches.push(branch))
                } else {
                    grown()
                },
                Err(e) => Err(e),
            }
        }
    } else {
        Ok(((branches, None), i))
    }
}

/// `while condition { .. }`
pub open spec fn g_while(i: Input) -> Result<(StmtView, Input), Flaw>
    decreases i.rest.len(), 2nat,
{
    match keyword(i, "while"@) {
        Ok((start, i1)) => if i1.rest.len() < i.rest.len() {
            match g_condition(i1) {
                Ok((condition, i2)) => if i2.rest.len() < i.rest.len() {
                    match g_block(i2) {
                        Ok((body, i3)) => Ok(
                            (StmtView::While(condition, body, region(i3, start.pos)), i3),
                        ),
                        Err(e) => Err(e),
                    }
                } else {
                    grown()
                },
                Err(e) => Err(e),
            }
        } else {
            grown()
        },
        Err(e) => Err(e),
    }
}

/// `for item in items { .. }` or `for index, item in items { .. }`.
pub open spec fn g_for(i: Input) -> Result<(StmtView, Input), Flaw>
    decreases i.rest.len(), 2nat,
{
    match keyword(i, "for"@) {
        Ok((start, i1)) => match identifier(i1) {
            Ok(((one, _), i2)) => {
                let second = if kind(i2) == 12 {
                    match identifier(taken(i2)) {
                        Ok(((two, _), i3)) => Ok::<(Option<Seq<char>>, Input), Flaw>(
                            (Some(two), i3),
                        ),
                        Err(e) => Err(e),
                    }
                } else {
                    Ok((None, i2))
                };
                match second {
                    Ok((other, i3)) => match keyword(i3, "in"@) {
                        Ok((_, i4)) => if i4.rest.len() < i.rest.len() {
                            match g_condition(i4) {
                                Ok((items, i5)) => if i5.rest.len() < i.rest.len() {
                                    match g_block(i5) {
                                        Ok((body, i6)) => Ok(
                                            (
                                                StmtView::ForIn(
                                                    one,
                                                    other,
                                                    items,
                                                    body,
                                                    region(i6, start.pos),
                                                ),
                                                i6,
                                            ),
                                        ),
                                        Err(e) => Err(e),
                                    }
                                } else {
                                    grown()
                                },
                                Err(e) => Err(e),
                            }
                        } else {
                            grown()
                        },
                        Err(e) => Err(e),
                    },
                    Err(e) => Err(e),
                }
            },
            Err(e) => Err(e),
        },
        Err(e) => Err(e),
    }
}

/// `import name`. The name is entered in the list of imports.
pub open spec fn g_import(i: Input) -> Result<(StmtView, Input), Flaw> {
    match keyword(i, "import"@) {
        Ok((start, i1)) => match identifier(i1) {
            Ok(((name, _), i2)) => Ok(
                (
                    StmtView::Import(name, region(i2, start.pos)),
                    Input { imports: i2.imports.push(name), ..i2 },
                ),
            ),
            Err(e) => Err(e),
        },
        Err(e) => Err(e),
    }
}

/// A declared name with its type, `name: Type`; without `: Type` the type
/// is `Any`.
pub open spec fn g_declaration(i: Input) -> Result<((Seq<char>, Seq<char>), Input), Flaw> {
    match identifier(i) {
        Ok(((name, _), i1)) => if kind(i1) == 14 {
            match identifier(taken(i1)) {
                Ok(((declared, _), i2)) => Ok(((name, declared), i2)),
                Err(e) => Err(e),
            }
        } else {
            Ok(((name, "Any"@), i1))
        },
        Err(e) => Err(e),
    }
}

/// The parameters of a function or the fields of a class,
/// `(name: Type, ..)`.
pub open spec fn g_declarations(i: Input) -> Result<(Seq<(Seq<char>, Seq<char>)>, Input), Flaw> {
    match expect(i, 5) {
        Ok((_, i1)) => g_declarations_rest(i1, Seq::empty()),
        Err(e) => Err(e),
    }
}

pub open spec fn g_declarations_rest(i: Input, found: Seq<(Seq<char>, Seq<char>)>) -> Result<
    (Seq<(Seq<char>, Seq<char>)>, Input),
    Flaw,
>
    decreases i.rest.len(),
{
    if kind(i) == 6 {
        Ok((found, taken(i)))
    } else if kind(i) == 12 {
        g_declarations_rest(taken(i), found)
    } else {
        match g_declaration(i) {
            Ok((d, i1)) => if i1.rest.len() < i.rest.len() {
                g_declarations_rest(i1, found.push(d))
            } else {
                grown()
            },
            Err(e) => Err(e),
        }
    }
}

/// `fn name(parameters) { .. }`
pub open spec fn g_fn_def(i: Input) -> Result<(FnDefView, Input), Flaw>
    decreases i.rest.len(), 2nat,
{
    match keyword(i, "fn"@) {
        Ok((_, i1)) => match identifier(i1) {
            Ok(((name, _), i2)) => match g_declarations(i2) {
                Ok((params, i3)) => if i3.rest.len() < i.rest.len() {
                    match g_block(i3) {
                        Ok((body, i4)) => Ok(
                            (FnDefView { name, return_type: "Any"@, args: params, body }, i4),
                        ),
                        Err(e) => Err(e),
                    }
                } else {
                    grown()
                },
                Err(e) => Err(e),
            },
            Err(e) => Err(e),
        },
        Err(e) => Err(e),
    }
}

/// `fun name(parameters): Type { .. }` defines a function;
/// `fun Class.name(parameters): Type { .. }` defines a method of a class
/// that is known, and for a class that is not, the name of the class is an
/// unexpected token. Without `: Type` the type is `Unit`.
pub open spec fn g_function(i: Input) -> Result<Input, Flaw>
    decreases i.rest.len(), 2nat,
{
    match keyword(i, "fun"@) {
        Ok((_, i1)) => match identifier(i1) {
            Ok(((one, _), i2)) => {
                let method = if kind(i2) == 11 {
                    match identifier(taken(i2)) {
                        Ok(((two, _), i3)) => Ok::<(Option<Seq<char>>, Input), Flaw>(
                            (Some(two), i3),
                        ),
                        Err(e) => Err(e),
                    }
                } else {
                    Ok((None, i2))
                };
                match method {
                    Ok((two, i3)) => match g_declarations(i3) {
                        Ok((params, i4)) => {
                            let typed = if kind(i4) == 14 {
                                match identifier(taken(i4)) {
                                    Ok(((t, _), i5)) => Ok::<(Seq<char>, Input), Flaw>(
                                        (t, i5),
                                    ),
                                    Err(e) => Err(e),
                                }
                            } else {
                                Ok(("Unit"@, i4))
                            };
                            match typed {
                                Ok((result_type, i5)) => if i5.rest.len() < i.rest.len() {
                                    match g_block(i5) {
                                        Ok((body, i6)) => match two {
                                            Some(name) => if i6.classes.contains_key(one) {
                                                let def = FnDefView {
                                                    name,
                                                    return_type: result_type,
                                                    args: params,
                                                    body,
                                                };
                                                let class = i6.classes[one];
                                                Ok(
                                                    Input {
                                                        classes: i6.classes.insert(
                                                            one,
                                                            ClassView {
                                                                methods: class.methods.insert(
                                                                    name,
                                                                    FunctionView::Method(def),
                                                                ),
                                                                ..class
                                                            },
                                                        ),
                                                        ..i6
                                                    },
                                                )
                                            } else {
                                                Err(Flaw::Unexpected(head(i1).0))
                                            },
                                            None => Ok(
                                                Input {
                                                    functions: i6.functions.push(
                                                        FnDefView {
                                                            name: one,
                                                            return_type: result_type,
                                                            args: params,
                                                            body,
                                                        },
                                                    ),
                                                    ..i6
                                                },
                                            ),
                                        },
                                        Err(e) => Err(e),
                                    }
                                } else {
                                    grown()
                                },
                                Err(e) => Err(e),
                            }
                        },
                        Err(e) => Err(e),
                    },
                    Err(e) => Err(e),
                }
            },
            Err(e) => Err(e),
        },
        Err(e) => Err(e),
    }
}

/// `class Name(field: Type, ..)` declares a class; a class of that name is
/// replaced.
pub open spec fn g_class(i: Input) -> Result<Input, Flaw> {
    match keyword(i, "class"@) {
        Ok((_, i1)) => match identifier(i1) {
            Ok(((name, _), i2)) => match g_declarations(i2) {
                Ok((fields, i3)) => Ok(
                    Input {
                        classes: i3.classes.insert(name, ClassView { name, fields, methods: Map::empty() }),
                        ..i3
                    },
                ),
                Err(e) => Err(e),
            },
            Err(e) => Err(e),
        },
        Err(e) => Err(e),
    }
}

/// A statement that starts with an expression: an assignment, an
/// assignment to an index, or a call. Any other expression is no
/// statement, and the token behind it is unexpected.
pub open spec fn g_expr_stmt(i: Input) -> Result<(StmtView, Input), Flaw>
    decreases i.rest.len(), 24nat,
{
    let start = head(i).1.pos;
    match g_chain(i) {
        Ok((lhs, i1)) => if kind(i1) == 15 {
            if i1.rest.len() <= i.rest.len() {
                match g_expr(taken(i1)) {
                    Ok((value, i2)) => match lhs {
                        ExprView::Index(target, index, _) => Ok(
                            (StmtView::IndexAssign(*target, *index, value, region(i2, start)), i2),
                        ),
                        ExprView::Variable(_, _) | ExprView::MemberAccess(_, _, _) => Ok(
                            (StmtView::Assign(lhs, value, region(i2, start)), i2),
                        ),
                        _ => Err(Flaw::Unexpected(Token::Assign@)),
                    },
                    Err(e) => Err(e),
                }
            } else {
                grown()
            }
        } else {
            match lhs {
                ExprView::FnCall(name, args, pos) => Ok((StmtView::FnCall(name, args, pos), i1)),
                _ => Err(Flaw::Unexpected(head(i1).0)),
            }
        },
        Err(e) => Err(e),
    }
}

/// Whether the parser's result `r`, with the input `after` that it leaves,
/// is the expression `g` of the grammar.
pub open spec fn is_expr(g: Result<(ExprView, Input), Flaw>, r: Result<Expr, PipelineError>, after: Input) -> bool {
    match g {
        Ok((v, i)) => r matches Ok(e) && expr_view(e) == v && after == i,
        Err(f) => r matches Err(e) && is_flaw(e, f),
    }
}

/// As [`is_expr`], of a statement.
pub open spec fn is_stmt(g: Result<(StmtView, Input), Flaw>, r: Result<Stmt, PipelineError>, after: Input) -> bool {
    match g {
        Ok((v, i)) => r matches Ok(s) && stmt_view(s) == v && after == i,
        Err(f) => r matches Err(e) && is_flaw(e, f),
    }
}

/// As [`is_expr`], of a list of expressions.
pub open spec fn are_exprs(g: Result<(Seq<ExprView>, Input), Flaw>, r: Result<Vec<Expr>, PipelineError>, after: Input) -> bool {
    match g {
        Ok((v, i)) => r matches Ok(items) && exprs_view(items@) == v && after == i,
        Err(f) => r matches Err(e) && is_flaw(e, f),
    }
}

/// As [`is_expr`], of a list of statements.
pub open spec fn are_stmts(g: Result<(Seq<StmtView>, Input), Flaw>, r: Result<Vec<Stmt>, PipelineError>, after: Input) -> bool {
    match g {
        Ok((v, i)) => r matches Ok(items) && stmts_view(items@) == v && after == i,
        Err(f) => r matches Err(e) && is_flaw(e, f),
    }
}

/// As [`is_expr`], of a definition that leaves no value.
pub open spec fn is_definition(g: Result<Input, Flaw>, r: Result<(), PipelineError>, after: Input) -> bool {
    match g {
        Ok(i) => r is Ok && after == i,
        Err(f) => r matches Err(e) && is_flaw(e, f),
    }
}

/// The whole input as a program.
pub open spec fn g_program(i: Input) -> Result<(Seq<StmtView>, Input), Flaw> {
    match g_stmts(i) {
        Ok((stmts, i1)) => if kind(i1) != 13 {
            Err(Flaw::Unexpected(head(i1).0))
        } else {
            Ok((stmts, i1))
        },
        Err(e) => Err(e),
    }
}

} // verus!
