//! A small language for describing network routes: lexer, parser,
//! printer, evaluator and route analysis.
pub mod ast;
pub mod error;
pub mod lexer;
pub mod grammar;
pub mod parse;
pub mod display;
pub mod compare;
pub mod ast_gen;
pub mod analyze;
pub mod output;
pub mod scope;
pub mod visit;
pub mod vm;
pub mod compiler;
pub mod simple;
pub mod simple_lexer;
pub mod reparse;
