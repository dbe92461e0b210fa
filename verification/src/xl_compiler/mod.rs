//! The second XL front end: a total lexer and a parser that keeps the token stream.

pub mod error;
pub mod lexer;
pub mod parser;
pub mod token;
