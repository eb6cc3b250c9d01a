//! A small s-expression language: tokenizer, reader, lexically scoped
//! environments, and an evaluator with a fixed numeric and list primitive
//! library.
//!
//! Floating-point values are carried everywhere as their IEEE-754 double
//! precision bit patterns (`u64`); the arithmetic on those bit patterns is
//! done by the `rustc_apfloat` soft-float library behind a few trusted
//! wrappers.

pub mod ast;
pub mod env;
pub mod eval;
pub mod numbers;
pub mod prims;
pub mod reader;
pub mod values;
pub mod tokenizer;
