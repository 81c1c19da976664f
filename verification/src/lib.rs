//! A small Lisp-style expression language: a parser, an expression model,
//! a binding table, and a verified tree-walking evaluator.
//!
//! Numbers are 64-bit signed integers.  Arithmetic wraps on overflow
//! (two's complement), division and remainder truncate toward zero, and
//! division or remainder by zero is reported as a typed failure.
//! Evaluation is bounded by an explicit recursion budget, surfaced as a
//! typed failure when exhausted, so the evaluator itself never crashes
//! on deeply nested input.
#![allow(unused_imports)]

pub mod ast;
pub mod environment;
pub mod error;
pub mod eval;
pub mod laws;
pub mod operator;
pub mod parser;
pub mod syntax;
