//! Evaluation core of a minimal Lisp-family language: a lexer, a
//! recursive-descent parser, an S-expression data model, a lexically scoped
//! environment, and a tree-walking evaluator with a small table of native
//! primitives.
//!
//! Control flow: source text -> [`lexer::tokenize`] -> token queue ->
//! [`parser::read_from_tokens`] -> [`sexp::Sexp`] tree -> [`eval::eval`]
//! against an [`env::Env`] -> result value or error.

pub mod env;
pub mod eval;
pub mod laws;
pub mod lexer;
pub mod number;
pub mod parser;
pub mod sexp;
mod text;
