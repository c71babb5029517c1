//! A parser for a small turtle-graphics command language: movement commands,
//! bounded repetition in brackets, and named procedure definitions closed by
//! `end`, with procedure calls.  The lexer turns program text into tokens and
//! the recursive-descent parser builds an expression tree, checking the
//! nesting of `[`/`]` and `to`/`end` pairs with an explicit matching stack.

pub mod ast;
pub mod lexer;
pub mod nesting;
pub mod parser;
pub mod token;
