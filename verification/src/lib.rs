//! Infix arithmetic over a pluggable ring: a lexer, an expression tree with
//! its evaluator, and a single-pass parser that reads the tokens from right
//! to left and repairs operator precedence by rotating subtrees.

pub mod decimal;
pub mod expression;
pub mod report;
pub mod token;
