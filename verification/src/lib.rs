//! A small tree-walking interpreter for a dynamically typed expression
//! language: a lexical scanner, a recursive-descent parser, an AST
//! pretty-printer, and an evaluator over a single global environment.

pub mod environment;
pub mod error;
pub mod expr;
pub mod interpreter;
pub mod num;
pub mod parser;
pub mod scanner;
pub mod stmt;
