//! A scriptable pipeline runner: lexer, parser, value model, module registry,
//! tree-walking interpreter and pipeline scheduler of a small scripting
//! language, with machine-checked contracts.

pub mod text;
pub mod table;
pub mod error;
pub mod host;
pub mod v1;
pub mod context;
pub mod module;
pub mod logger;
pub mod operation;
pub mod builtin;
pub mod engine;
