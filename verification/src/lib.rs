//! A minimal term-rewriting engine.
//!
//! Expressions are finite trees of named symbols and applications.  A rule
//! pairs a head pattern with a replacement body; applying it to an expression
//! matches the head at each node top-down and substitutes the body under the
//! computed bindings.  A lexer and parser turn source text such as
//! `swap(pair(a, b)) = pair(b, a)` into rules and expressions.

pub mod expr;
pub mod bindings;
pub mod matcher;
pub mod subst;
pub mod rewrite;
pub mod lexer;
pub mod parser;
pub mod round_trip;

pub use expr::Expr;
pub use rewrite::Rule;
