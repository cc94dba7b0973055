//! An expression calculator core: a lexer, two parsers, an expression tree
//! with evaluation and rendering, and two rewriting passes (optimization and
//! validation).
//!
//! Numbers are IEEE-754 binary64 values held as their bit patterns. The
//! library decides everything that depends only on the encoding (zero, one,
//! sign); the floating-point work itself (reading a literal, the arithmetic,
//! the scientific functions, printing a value) is done by a numeric backend
//! that the caller hands in as closures. Every contract is stated for an
//! arbitrary backend, as a function of the spec functions it realizes.
pub mod token;
pub mod lexer;
pub mod expression;
pub mod environment;
pub mod evaluation;
pub mod rewrite;
pub mod parser;
pub mod calculator;
pub mod config;
pub mod laws;
pub mod parser_laws;
