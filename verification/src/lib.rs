//! The Jutsu language front end and the verified parts of its runtime.
pub mod lexer;
pub mod ast;
pub mod text;
pub mod parser;
pub mod evaluator;
pub mod inference;
pub mod memory;
pub mod tgn_pm;
pub mod cli;
