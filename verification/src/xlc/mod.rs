//! The XL compiler `xlc`: lexer, precedence-climbing parser, semantic checks, rewriting
//! utilities, type inference, an SSA form with optimisation passes, and code planning.

pub mod token;
pub mod error;
pub mod lexer;
pub mod ast;
pub mod ast_utils;
pub mod parser;
pub mod semantic;
pub mod symbol_table;
pub mod passes;
pub mod ssa;
pub mod type_infer;
pub mod types;
pub mod parse_primitives;
pub mod codegen;
