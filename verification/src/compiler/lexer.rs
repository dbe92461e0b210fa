//! Lexer of the first front end.

use std::ops::Range;

use vstd::prelude::*;

use super::error::CompileError;
use crate::text::{
    byte_pos, chars_of, digit_end, ident_end, is_digit, is_digit_char, is_ident_start, is_ident_start_char,
    is_ws, is_ws_char, lemma_byte_pos_mono, lemma_byte_pos_step, lemma_digit_end_bounds, lemma_ident_end_bounds,
    numeral_value, parse_numeral, scan_digit_end, scan_ident_end, string_of, utf8_width_of, word_is,
};

verus! {

/// Kinds of tokens.
#[derive(Debug, Clone, Copy, PartialEq, Eq, Structural)]
pub enum TokenKind {
    Function,
    Return,
    True,
    False,
    Ident,
    Int(i64),
    Plus,
    Minus,
    Star,
    Slash,
    LParen,
    RParen,
    LBrace,
    RBrace,
    Comma,
    Colon,
    Arrow,
    Semi,
    Error,
}

/// A token with its text and its byte range in the source.
#[derive(Debug)]
pub struct Token {
    pub kind: TokenKind,
    pub text: String,
    pub span: Range<usize>,
}

impl Clone for Token {
    fn clone(&self) -> (r: Token)
        ensures
            r == *self,
    {
        Token {
            kind: self.kind,
            text: self.text.clone(),
            span: Range { start: self.span.start, end: self.span.end },
        }
    }
}

/// The kind of a word made of identifier characters: a keyword or an identifier.
pub open spec fn word_kind(w: Seq<char>) -> TokenKind {
    if w == seq!['f', 'u', 'n', 'c', 't', 'i', 'o', 'n'] {
        TokenKind::Function
    } else if w == seq!['r', 'e', 't', 'u', 'r', 'n'] {
        TokenKind::Return
    } else if w == seq!['t', 'r', 'u', 'e'] {
        TokenKind::True
    } else if w == seq!['f', 'a', 'l', 's', 'e'] {
        TokenKind::False
    } else {
        TokenKind::Ident
    }
}

/// The kind of a one-character symbol token, if `c` is one.
pub open spec fn symbol_kind(c: char) -> Option<TokenKind> {
    if c == '+' {
        Some(TokenKind::Plus)
    } else if c == '*' {
        Some(TokenKind::Star)
    } else if c == '/' {
        Some(TokenKind::Slash)
    } else if c == '(' {
        Some(TokenKind::LParen)
    } else if c == ')' {
        Some(TokenKind::RParen)
    } else if c == '{' {
        Some(TokenKind::LBrace)
    } else if c == '}' {
        Some(TokenKind::RBrace)
    } else if c == ',' {
        Some(TokenKind::Comma)
    } else if c == ':' {
        Some(TokenKind::Colon)
    } else if c == ';' {
        Some(TokenKind::Semi)
    } else {
        None
    }
}

/// The longest token starting at index `i` (which holds no whitespace), and
/// where it ends. Input that starts no token is an `Error` of one character;
/// a numeral too large for `i64` is an `Error` spanning the numeral.
pub open spec fn scan(s: Seq<char>, i: int) -> (TokenKind, int) {
    let c = s[i];
    if is_ident_start(c) {
        let e = ident_end(s, i);
        (word_kind(s.subrange(i, e)), e)
    } else if is_digit(c) {
        let e = digit_end(s, i);
        let v = numeral_value(s.subrange(i, e));
        if v <= i64::MAX {
            (TokenKind::Int(v as i64), e)
        } else {
            (TokenKind::Error, e)
        }
    } else if c == '-' {
        if i + 1 < s.len() && s[i + 1] == '>' {
            (TokenKind::Arrow, i + 2)
        } else {
            (TokenKind::Minus, i + 1)
        }
    } else {
        match symbol_kind(c) {
            Some(k) => (k, i + 1),
            None => (TokenKind::Error, i + 1),
        }
    }
}

pub proof fn lemma_scan_advances(s: Seq<char>, i: int)
    requires
        0 <= i < s.len(),
    ensures
        i < scan(s, i).1 <= s.len(),
{
    lemma_ident_end_bounds(s, i);
    lemma_digit_end_bounds(s, i);
    if is_ident_start(s[i]) {
        lemma_ident_end_bounds(s, i + 1);
    }
    if is_digit(s[i]) {
        lemma_digit_end_bounds(s, i + 1);
    }
}

/// All tokens from index `i` on, as (kind, start, end) in character indices,
/// with whitespace skipped and `Error` tokens kept.
pub open spec fn scan_all(s: Seq<char>, i: int) -> Seq<(TokenKind, int, int)>
    decreases s.len() - i,
{
    if i < 0 || i >= s.len() {
        Seq::empty()
    } else if is_ws(s[i]) {
        scan_all(s, i + 1)
    } else {
        let (k, e) = scan(s, i);
        proof { lemma_scan_advances(s, i); }
        if e <= i {
            Seq::empty()
        } else {
            seq![(k, i, e)] + scan_all(s, e)
        }
    }
}

/// The tokens from index `i` on, or the index where the first `Error` token starts.
pub open spec fn lex_from(s: Seq<char>, i: int) -> Result<Seq<(TokenKind, int, int)>, int>
    decreases s.len() - i,
{
    if i < 0 || i >= s.len() {
        Ok(Seq::empty())
    } else if is_ws(s[i]) {
        lex_from(s, i + 1)
    } else {
        let (k, e) = scan(s, i);
        proof { lemma_scan_advances(s, i); }
        if k == TokenKind::Error || e <= i {
            Err(i)
        } else {
            match lex_from(s, e) {
                Ok(rest) => Ok(seq![(k, i, e)] + rest),
                Err(p) => Err(p),
            }
        }
    }
}

/// What `lex` gives for a source text: its tokens, or where lexing fails.
pub open spec fn spec_lex(s: Seq<char>) -> Result<Seq<(TokenKind, int, int)>, int> {
    lex_from(s, 0)
}

/// `t` is the token `(kind, start, end)` of `s`: same kind, its text, its byte range.
pub open spec fn token_is(t: Token, s: Seq<char>, st: (TokenKind, int, int)) -> bool {
    &&& t.kind == st.0
    &&& t.text@ == s.subrange(st.1, st.2)
    &&& t.span.start == byte_pos(s, st.1)
    &&& t.span.end == byte_pos(s, st.2)
}

/// `toks` are exactly the tokens `sts` of `s`.
pub open spec fn tokens_are(toks: Seq<Token>, s: Seq<char>, sts: Seq<(TokenKind, int, int)>) -> bool {
    &&& toks.len() == sts.len()
    &&& forall|k: int| 0 <= k < toks.len() ==> token_is(#[trigger] toks[k], s, sts[k])
}

/// Prepends `done` to the tokens of `r`.
pub open spec fn after(done: Seq<(TokenKind, int, int)>, r: Result<Seq<(TokenKind, int, int)>, int>) -> Result<Seq<(TokenKind, int, int)>, int> {
    match r {
        Ok(rest) => Ok(done + rest),
        Err(p) => Err(p),
    }
}

fn word_token_kind(v: &Vec<char>, i: usize, e: usize) -> (k: TokenKind)
    requires
        i <= e <= v@.len(),
    ensures
        k == word_kind(v@.subrange(i as int, e as int)),
{
    if word_is(v, i, e, &['f', 'u', 'n', 'c', 't', 'i', 'o', 'n']) {
        TokenKind::Function
    } else if word_is(v, i, e, &['r', 'e', 't', 'u', 'r', 'n']) {
        TokenKind::Return
    } else if word_is(v, i, e, &['t', 'r', 'u', 'e']) {
        TokenKind::True
    } else if word_is(v, i, e, &['f', 'a', 'l', 's', 'e']) {
        TokenKind::False
    } else {
        TokenKind::Ident
    }
}

fn symbol_token_kind(c: char) -> (k: Option<TokenKind>)
    ensures
        k == symbol_kind(c),
{
    if c == '+' {
        Some(TokenKind::Plus)
    } else if c == '*' {
        Some(TokenKind::Star)
    } else if c == '/' {
        Some(TokenKind::Slash)
    } else if c == '(' {
        Some(TokenKind::LParen)
    } else if c == ')' {
        Some(TokenKind::RParen)
    } else if c == '{' {
        Some(TokenKind::LBrace)
    } else if c == '}' {
        Some(TokenKind::RBrace)
    } else if c == ',' {
        Some(TokenKind::Comma)
    } else if c == ':' {
        Some(TokenKind::Colon)
    } else if c == ';' {
        Some(TokenKind::Semi)
    } else {
        None
    }
}

/// The longest token of `v` starting at `i`.
pub fn scan_token(v: &Vec<char>, i: usize) -> (r: (TokenKind, usize))
    requires
        i < v@.len(),
    ensures
        r.0 == scan(v@, i as int).0,
        r.1 == scan(v@, i as int).1,
        i < r.1 <= v@.len(),
{
    proof { lemma_scan_advances(v@, i as int); }
    let n = v.len();
    let c = v[i];
    if is_ident_start_char(c) {
        let e = scan_ident_end(v, i);
        (word_token_kind(v, i, e), e)
    } else if is_digit_char(c) {
        let e = scan_digit_end(v, i);
        proof { lemma_digit_end_bounds(v@, i as int); }
        match parse_numeral(v, i, e) {
            Some(x) => (TokenKind::Int(x), e),
            None => (TokenKind::Error, e),
        }
    } else if c == '-' {
        if i + 1 < n && v[i + 1] == '>' {
            (TokenKind::Arrow, i + 2)
        } else {
            (TokenKind::Minus, i + 1)
        }
    } else {
        match symbol_token_kind(c) {
            Some(k) => (k, i + 1),
            None => (TokenKind::Error, i + 1),
        }
    }
}

/// Byte offset of index `e`, given the byte offset `b` of index `i`.
pub fn advance_bytes(v: &Vec<char>, i: usize, e: usize, b: usize) -> (r: usize)
    requires
        i <= e <= v@.len(),
        b == byte_pos(v@, i as int),
        byte_pos(v@, v@.len() as int) <= usize::MAX,
    ensures
        r == byte_pos(v@, e as int),
{
    let mut k = i;
    let mut r = b;
    while k < e
        invariant
            i <= k <= e <= v@.len(),
            r == byte_pos(v@, k as int),
            byte_pos(v@, v@.len() as int) <= usize::MAX,
        decreases e - k,
    {
        proof {
            lemma_byte_pos_step(v@, k as int);
            lemma_byte_pos_mono(v@, k as int + 1, v@.len() as int);
        }
        r = r + utf8_width_of(v[k]);
        k += 1;
    }
    r
}

/// Splits `source` into tokens, skipping whitespace. Fails with the byte
/// offset of the first character at which no token can be read.
pub fn lex(source: &str) -> (r: Result<Vec<Token>, CompileError>)
    requires
        byte_pos(source@, source@.len() as int) <= usize::MAX,
    ensures
        match r {
            Ok(toks) => match spec_lex(source@) {
                Ok(sts) => tokens_are(toks@, source@, sts),
                Err(_) => false,
            },
            Err(e) => match spec_lex(source@) {
                Ok(_) => false,
                Err(p) => e == CompileError::Lex { position: byte_pos(source@, p) as usize },
            },
        },
{
    let v = chars_of(source);
    let ghost s = v@;
    let mut tokens: Vec<Token> = Vec::new();
    let ghost mut done: Seq<(TokenKind, int, int)> = Seq::empty();
    let mut i: usize = 0;
    let mut b: usize = 0;
    while i < v.len()
        invariant
            s == v@,
            s == source@,
            i <= s.len(),
            b == byte_pos(s, i as int),
            byte_pos(s, s.len() as int) <= usize::MAX,
            spec_lex(s) == after(done, lex_from(s, i as int)),
            tokens_are(tokens@, s, done),
        decreases s.len() - i,
    {
        let c = v[i];
        if is_ws_char(c) {
            proof {
                assert(lex_from(s, i as int) == lex_from(s, i + 1));
            }
            b = advance_bytes(&v, i, i + 1, b);
            i += 1;
        } else {
            let (kind, e) = scan_token(&v, i);
            if kind == TokenKind::Error {
                return Err(CompileError::Lex { position: b });
            }
            let be = advance_bytes(&v, i, e, b);
            let text = string_of(&v, i, e);
            let tok = Token { kind, text, span: Range { start: b, end: be } };
            let ghost st = (kind, i as int, e as int);
            proof {
                assert(lex_from(s, i as int) == after(seq![st], lex_from(s, e as int)));
            }
            let ghost prev = tokens@;
            tokens.push(tok);
            proof {
                let old_done = done;
                done = done.push(st);
                match lex_from(s, e as int) {
                    Ok(rest) => {
                        assert(old_done + (seq![st] + rest) =~= done + rest);
                    },
                    Err(_) => {},
                }
                assert forall|k: int| 0 <= k < tokens@.len() implies token_is(#[trigger] tokens@[k], s, done[k]) by {
                    if k < tokens@.len() - 1 {
                        assert(tokens@[k] == prev[k]);
                    }
                }
            }
            i = e;
            b = be;
        }
    }
    proof {
        assert(done + Seq::<(TokenKind, int, int)>::empty() =~= done);
    }
    Ok(tokens)
}

} // verus!
