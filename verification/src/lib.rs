//! Core of an interactive calculator.
//!
//! A flat sequence of lexical tokens is turned into a structured expression
//! tree honouring operator precedence and associativity, and the tree is then
//! evaluated against a mutable environment of variables and user-defined
//! functions, over a small numeric value model (scalar, vector, matrix).
//!
//! Numbers are exact 64-bit fractions: every value is a pair of a numerator
//! and a positive denominator.  Operations whose exact result does not fit
//! this form report an error instead of rounding.

pub mod executor;
pub mod laws;
pub mod number;
pub mod operations;
pub mod tokens;
pub mod tree_builder;
