//! A small expression language: a tokenizer, a recursive-descent parser
//! and a tree-walking evaluator, each stated against a mathematical model
//! and proved to meet it.
//!
//! Source text becomes tokens (`lexer`, by the rules of `rules`), tokens
//! become a program of syntax trees (`parser`, `ast`, `literal`), and the
//! program runs against one flat environment of 64-bit integers
//! (`interpreter`, `arith`), giving for each statement what to display
//! (`output`).
//!
//! Two choices hold throughout. Arithmetic wraps in two's complement and
//! division rounds toward zero. A division by zero and a call of an
//! unknown function are errors that end the run at once; reading a
//! variable that was never assigned is no error and gives zero.

pub mod arith;
pub mod ast;
pub mod interpreter;
pub mod lexer;
pub mod literal;
pub mod output;
pub mod parser;
pub mod rules;
