//! A small expression-oriented language: values, a chained lexical
//! environment, a precedence-aware parser, and a tree-walking evaluator
//! whose operational semantics is stated as a specification function and
//! proved of the executable interpreter.

pub mod bin_op;
pub mod error;
pub mod expr;
pub mod float;
pub mod laws;
pub mod parser;
pub mod runtime;
pub mod semantics;
pub mod type_;
pub mod value;
