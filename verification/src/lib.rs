//! An arbitrary-precision integer calculator: a lexer, a recursive-descent
//! parser and a tree evaluator, each with a machine-checked contract.
//!
//! A line of text goes through three stages. [`tokenizer::tokenize`] turns
//! it into tokens, [`parser::parse_assignment`] turns the tokens into a tree,
//! and [`evaluator::eval_assignment`] evaluates the tree against the variables
//! and binds the value. Each stage has a mathematical description, a `spec`
//! function over sequences, maps and unbounded integers, and the executable
//! function is proved to compute exactly what that description says.
//! [`session::run_line`] puts the stages together with the commands of a
//! session, and [`laws`] holds what is proved of the stages together.
//!
//! Not proved, but taken on trust: the arithmetic of `num_bigint`, which the
//! functions at the top of [`number`] call and describe, and three functions
//! of the standard library that [`chars`] describes: the two that class the
//! characters beyond ASCII, and the one that appends a character to a string.

pub mod chars;
pub mod commands;
pub mod error;
pub mod evaluator;
pub mod functions;
pub mod laws;
pub mod number;
pub mod parser;
pub mod session;
pub mod store;
pub mod tokenizer;
