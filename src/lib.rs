//! A batch interpreter for a small whitespace-delimited stack language:
//! source text is scanned into tokens, tokens become expressions, and the
//! expressions run against a value stack.

pub mod error;
pub mod expr;
pub mod interpreter;
pub mod lexer;
pub mod parser;
pub mod text;
pub mod token;
