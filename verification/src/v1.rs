//! The scripting language: positions, tokens, lexer, syntax tree, parser,
//! values and the interpreter.

pub mod position;
pub mod token;
pub mod lexer;
pub mod expr;
pub mod stmt;
pub mod parser;
pub mod types;
pub mod operators;
pub mod access;
pub mod interpreter;
pub mod semantics;
pub mod syntax;
pub mod grammar;
