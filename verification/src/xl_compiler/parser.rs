//! The parser of the second front end, which keeps the whole token stream as the program.

use vstd::prelude::*;

use super::error::XLError;
use super::token::Token;

verus! {

/// A parsed program: its tokens.
#[derive(Debug)]
pub struct Program {
    pub tokens: Vec<Token>,
}

pub struct Parser<'a> {
    tokens: &'a [Token],
    pos: usize,
}

impl<'a> Parser<'a> {
    /// The tokens this parser reads.
    pub closed spec fn tokens(&self) -> Seq<Token> {
        self.tokens@
    }

    /// A parser at the start of `tokens`.
    pub fn new(tokens: &'a [Token]) -> (p: Self)
        ensures
            p.tokens() == tokens@,
    {
        Self { tokens, pos: 0 }
    }

    /// The program made of every token, in order; this never fails.
    pub fn parse_program(&mut self) -> (r: Result<Program, XLError>)
        ensures
            final(self).tokens() == old(self).tokens(),
            r matches Ok(p) && p.tokens@ == old(self).tokens(),
    {
        let mut out: Vec<Token> = Vec::new();
        let mut i: usize = 0;
        while i < self.tokens.len()
            invariant
                i <= self.tokens@.len(),
                out@ == self.tokens@.subrange(0, i as int),
            decreases self.tokens@.len() - i,
        {
            out.push(self.tokens[i].clone());
            i += 1;
            assert(out@ =~= self.tokens@.subrange(0, i as int));
        }
        assert(self.tokens@.subrange(0, i as int) =~= self.tokens@);
        Ok(Program { tokens: out })
    }
}

} // verus!
