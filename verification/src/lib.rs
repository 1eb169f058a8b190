//! A small compiler backend for a C-like expression language: source text is
//! tokenized, parsed into an AST, lowered to three-address code (TAC), and
//! rendered as target assembly through a register allocator.

pub mod ast;
pub mod emit;
pub mod lexer;
pub mod parser;
pub mod tac;
pub mod text;
