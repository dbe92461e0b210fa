//! A lexer that never fails: input that starts no token becomes an `Error` token.

use std::ops::Range;

use vstd::prelude::*;

use super::token::{Token, TokenKind};
use crate::compiler::lexer::{advance_bytes, scan_all, scan_token, lemma_scan_advances};
use crate::text::{byte_pos, chars_of, is_ws, is_ws_char, string_of};

verus! {

/// `t` is the token `(kind, start, end)` of `s`.
pub open spec fn token_is(t: Token, s: Seq<char>, st: (TokenKind, int, int)) -> bool {
    &&& t.kind == st.0
    &&& t.lexeme@ == s.subrange(st.1, st.2)
    &&& t.span.start == byte_pos(s, st.1)
    &&& t.span.end == byte_pos(s, st.2)
}

/// Splits `source` into tokens, skipping whitespace; where no token can be read the
/// lexer yields an `Error` token and goes on after it.
pub fn lex(source: &str) -> (toks: Vec<Token>)
    requires
        byte_pos(source@, source@.len() as int) <= usize::MAX,
    ensures
        toks@.len() == scan_all(source@, 0).len(),
        forall|k: int| 0 <= k < toks@.len() ==> token_is(#[trigger] toks@[k], source@, scan_all(source@, 0)[k]),
{
    let v = chars_of(source);
    let ghost s = v@;
    let mut tokens: Vec<Token> = Vec::new();
    let ghost mut done: Seq<(TokenKind, int, int)> = Seq::empty();
    let mut i: usize = 0;
    let mut b: usize = 0;
    while i < v.len()
        invariant
            s == v@,
            s == source@,
            i <= s.len(),
            b == byte_pos(s, i as int),
            byte_pos(s, s.len() as int) <= usize::MAX,
            scan_all(s, 0) == done + scan_all(s, i as int),
            tokens@.len() == done.len(),
            forall|k: int| 0 <= k < tokens@.len() ==> token_is(#[trigger] tokens@[k], s, done[k]),
        decreases s.len() - i,
    {
        let c = v[i];
        if is_ws_char(c) {
            assert(scan_all(s, i as int) == scan_all(s, i + 1));
            b = advance_bytes(&v, i, i + 1, b);
            i += 1;
        } else {
            let (kind, e) = scan_token(&v, i);
            let be = advance_bytes(&v, i, e, b);
            let lexeme = string_of(&v, i, e);
            let ghost st = (kind, i as int, e as int);
            proof {
                lemma_scan_advances(s, i as int);
                assert(scan_all(s, i as int) == seq![st] + scan_all(s, e as int));
            }
            let ghost prev = tokens@;
            tokens.push(Token { kind, span: Range { start: b, end: be }, lexeme });
            proof {
                let old_done = done;
                done = done.push(st);
                assert(old_done + (seq![st] + scan_all(s, e as int)) =~= done + scan_all(s, e as int));
                assert forall|k: int| 0 <= k < tokens@.len() implies token_is(#[trigger] tokens@[k], s, done[k]) by {
                    if k < tokens@.len() - 1 {
                        assert(tokens@[k] == prev[k]);
                    }
                }
            }
            i = e;
            b = be;
        }
    }
    assert(done + scan_all(s, i as int) =~= done);
    tokens
}

} // verus!
