//! The first XL front end: lexer, parser, type checker, lowering to a
//! three-address IR, and generation of Rust source from that IR.

pub mod ast;
pub mod codegen;
pub mod error;
pub mod ir;
pub mod lexer;
pub mod lowering;
pub mod parser;
pub mod typecheck;
pub mod types;

use vstd::prelude::*;

use crate::text::byte_pos;
use codegen::{generate_rust, module_code};
use error::CompileError;
use lexer::{lex, spec_lex, tokens_are, Token};
use lowering::{lemma_lowered_renderable, lower, spec_lower_items};
use parser::{lemma_parsed_fits_value_ids, parse, spec_parse};

verus! {

/// Compiles XL source text to Rust source text: lexing, parsing, lowering to the IR,
/// and generation of Rust code from the IR. The first failing stage gives the error.
pub fn compile_source(source: &str) -> (r: Result<String, CompileError>)
    requires
        byte_pos(source@, source@.len() as int) <= usize::MAX,
    ensures
        match spec_lex(source@) {
            Err(p) => r == Err::<String, CompileError>(CompileError::Lex { position: byte_pos(source@, p) as usize }),
            Ok(sts) => exists|toks: Seq<Token>| #[trigger] tokens_are(toks, source@, sts) && match spec_parse(toks) {
                Err(e) => r == Err::<String, CompileError>(e),
                Ok(items) => match spec_lower_items(items, 0, Seq::empty()) {
                    Err(e) => r == Err::<String, CompileError>(e),
                    Ok(fs) => r matches Ok(out) && out@ == module_code(fs),
                },
            },
        },
{
    let tokens = lex(source)?;
    let ghost toks = tokens@;
    let count = tokens.len();
    assert(toks.len() == count);
    let program = match parse(tokens) {
        Ok(p) => p,
        Err(e) => {
            proof {
                if let Ok(sts) = spec_lex(source@) {
                    assert(tokens_are(toks, source@, sts));
                }
            }
            return Err(e);
        },
    };
    proof { lemma_parsed_fits_value_ids(toks); }
    let module = match lower(&program) {
        Ok(m) => m,
        Err(e) => {
            proof {
                if let Ok(sts) = spec_lex(source@) {
                    assert(tokens_are(toks, source@, sts));
                }
            }
            return Err(e);
        },
    };
    proof { lemma_lowered_renderable(parser::program_view(program@)); }
    let out = generate_rust(&module);
    proof {
        if let Ok(sts) = spec_lex(source@) {
            assert(tokens_are(toks, source@, sts));
        }
    }
    Ok(out)
}

} // verus!
