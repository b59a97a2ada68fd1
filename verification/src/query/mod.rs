//! Statements: what the engine is asked to do.

pub mod ast;
pub mod lex;
pub mod parser;
