//! An evaluator for a small parenthesized expression language: lexically scoped
//! environments, `define`, `if`, `lambda` closures and the arithmetic and comparison operators, with a
//! reader that turns source text into expression trees.

pub mod location;
pub mod object;
pub mod environment;
pub mod error;
pub mod builtins;
pub mod evaluator;
pub mod laws;
pub mod lexer;
pub mod parser;
