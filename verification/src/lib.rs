//! A small dynamically-typed scripting language: lexer, operator-precedence
//! parser and tree-walking evaluator, with every function verified against a
//! mathematical model of what it computes.

pub mod text;
pub mod token;
pub mod lexer;
pub mod ast;
pub mod grammar;
pub mod parser;
pub mod builtin;
pub mod evaluator;
pub mod semantics;
pub mod laws;
pub mod printer;
pub mod round_trip;
pub mod range;
pub mod lexer_laws;
pub mod printed_tokens;
pub mod lexical_range;
pub mod recording;
