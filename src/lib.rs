//! A small dynamically typed scripting language: a lexer, a recursive-descent
//! parser and a tree-walking evaluator, with contracts proved by Verus.
//!
//! Source text becomes tokens (`lexer`, stated by `lex_from`), tokens become
//! a syntax tree (`parser`, stated by `parse_spec`), and the tree is
//! evaluated against an environment (`evaluator`, stated by the big-step
//! semantics `semantics::ev`). `interpreter::run_program` runs the whole
//! pipeline and returns what `interpreter::run_spec` says.
//!
//! Numbers are 64-bit signed integers. Arithmetic whose result leaves that
//! range is an error rather than a wrapped or rounded value, division and
//! remainder round toward zero, and a numeric literal may carry a decimal
//! point only when every digit after it is zero.
pub mod text;
pub mod token;
pub mod lexer;
pub mod ast;
pub mod parser;
pub mod env;
pub mod object;
pub mod output;
pub mod builtins;
pub mod operators;
pub mod semantics;
pub mod evaluator;
pub mod interpreter;
pub mod laws;
