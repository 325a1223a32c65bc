//! An interactive arithmetic evaluator: lexical scanning, precedence-climbing
//! parsing into an expression tree, and tree evaluation against a mutable
//! variable environment.
//!
//! Numeric values are carried as opaque 64-bit words (IEEE-754 bit patterns).
//! The library never performs the floating-point arithmetic itself: the
//! evaluation machine in [`eval`] asks its driver for each arithmetic result
//! and is verified for every answer the driver may give.

pub mod ast;
pub mod env;
pub mod err;
pub mod eval;
pub mod lexer;
pub mod parser;
pub mod token;
