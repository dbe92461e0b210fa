//! Tokens of the second front end: the token kinds of the first, with their lexemes.

use std::ops::Range;

use vstd::prelude::*;

pub use crate::compiler::lexer::TokenKind;

verus! {

/// A token, its byte range in the source and its text.
#[derive(Debug)]
pub struct Token {
    pub kind: TokenKind,
    pub span: Range<usize>,
    pub lexeme: String,
}

impl Clone for Token {
    fn clone(&self) -> (r: Token)
        ensures
            r == *self,
    {
        Token {
            kind: self.kind,
            span: Range { start: self.span.start, end: self.span.end },
            lexeme: self.lexeme.clone(),
        }
    }
}

} // verus!
