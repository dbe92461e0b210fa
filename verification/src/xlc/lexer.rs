//! Lexer of the XL compiler `xlc`.

use std::ops::Range;

use vstd::prelude::*;

use super::error::{XLError, XLErrorView};
use super::token::{Token, TokenView};
use crate::compiler::lexer::advance_bytes;
use crate::text::{
    byte_pos, chars_of, digit_end, ident_end, is_digit, is_digit_char, is_ident_start, is_ident_start_char,
    is_ws, is_ws_char, lemma_digit_end_bounds, lemma_ident_end_bounds, numeral_value, parse_numeral,
    scan_digit_end, scan_ident_end, string_of, word_is,
};

verus! {

/// A token together with its byte range in the source.
#[derive(Debug)]
pub struct Spanned<T> {
    pub token: T,
    pub span: Range<usize>,
}

impl<T: Clone> Clone for Spanned<T> {
    fn clone(&self) -> (r: Spanned<T>)
        ensures
            r.span == self.span,
            cloned::<T>(self.token, r.token),
    {
        Spanned { token: self.token.clone(), span: Range { start: self.span.start, end: self.span.end } }
    }
}

/// The kind of a word made of identifier characters: a keyword, `_`, or an identifier.
pub open spec fn word_token(w: Seq<char>) -> TokenView {
    if w == seq!['f', 'n'] {
        TokenView::Fn
    } else if w == seq!['r', 'e', 't', 'u', 'r', 'n'] {
        TokenView::Return
    } else if w == seq!['l', 'e', 't'] {
        TokenView::Let
    } else if w == seq!['I', 'n', 't'] {
        TokenView::IntType
    } else if w == seq!['B', 'o', 'o', 'l'] {
        TokenView::BoolType
    } else if w == seq!['S', 't', 'r', 'i', 'n', 'g'] {
        TokenView::StringType
    } else if w == seq!['t', 'r', 'u', 'e'] {
        TokenView::True
    } else if w == seq!['f', 'a', 'l', 's', 'e'] {
        TokenView::False
    } else if w == seq!['m', 'a', 't', 'c', 'h'] {
        TokenView::Match
    } else if w == seq!['m', 'o', 'd', 'u', 'l', 'e'] {
        TokenView::ModuleKw
    } else if w == seq!['i', 'f'] {
        TokenView::If
    } else if w == seq!['r', 'e', 'w', 'r', 'i', 't', 'e'] {
        TokenView::RewriteKw
    } else if w == seq!['a', 's', 't'] {
        TokenView::AstKw
    } else if w == seq!['i', 'm', 'p', 'o', 'r', 't'] {
        TokenView::ImportKw
    } else if w == seq!['e', 'x', 'p', 'o', 'r', 't'] {
        TokenView::ExportKw
    } else if w == seq!['p', 'a', 's', 's'] {
        TokenView::PassKw
    } else if w == seq!['_'] {
        TokenView::Underscore
    } else {
        TokenView::Ident(w)
    }
}

/// The token of a one-character symbol, if `c` is one (other than those that may start two-character tokens).
pub open spec fn symbol_token(c: char) -> Option<TokenView> {
    if c == '{' {
        Some(TokenView::LBrace)
    } else if c == '}' {
        Some(TokenView::RBrace)
    } else if c == '(' {
        Some(TokenView::LParen)
    } else if c == ')' {
        Some(TokenView::RParen)
    } else if c == ',' {
        Some(TokenView::Comma)
    } else if c == ':' {
        Some(TokenView::Colon)
    } else if c == ';' {
        Some(TokenView::Semicolon)
    } else if c == '+' {
        Some(TokenView::Plus)
    } else if c == '*' {
        Some(TokenView::Star)
    } else if c == '$' {
        Some(TokenView::Dollar)
    } else {
        None
    }
}

/// Index of the first `c` at or after `i`, or the length of `s` when there is none.
pub open spec fn find_char(s: Seq<char>, i: int, c: char) -> int
    decreases s.len() - i,
{
    if i < 0 || i >= s.len() {
        if i < 0 { 0 } else { s.len() as int }
    } else if s[i] == c {
        i
    } else {
        find_char(s, i + 1, c)
    }
}

pub proof fn lemma_find_char(s: Seq<char>, i: int, c: char)
    requires
        0 <= i <= s.len(),
    ensures
        i <= find_char(s, i, c) <= s.len(),
        find_char(s, i, c) < s.len() ==> s[find_char(s, i, c)] == c,
        forall|k: int| i <= k < find_char(s, i, c) ==> s[k] != c,
    decreases s.len() - i,
{
    if i < s.len() && s[i] != c {
        lemma_find_char(s, i + 1, c);
    }
}

/// The longest lexeme starting at index `i` (which holds no whitespace) and where it ends:
/// `Some(token)` for a token (an `Error` where none matches), `None` for a `//` comment.
/// An unterminated string literal is an `Error` up to the end of the input; a numeral
/// too large for `i64` is an `Error` spanning the numeral; any other character that
/// starts no token is an `Error` of that one character.
pub open spec fn scan(s: Seq<char>, i: int) -> (Option<TokenView>, int) {
    let c = s[i];
    let next = if i + 1 < s.len() { Some(s[i + 1]) } else { None };
    if is_ident_start(c) {
        let e = ident_end(s, i);
        (Some(word_token(s.subrange(i, e))), e)
    } else if is_digit(c) {
        let e = digit_end(s, i);
        let v = numeral_value(s.subrange(i, e));
        if v <= i64::MAX {
            (Some(TokenView::IntLiteral(v as i64)), e)
        } else {
            (Some(TokenView::Error), e)
        }
    } else if c == '"' {
        let q = find_char(s, i + 1, '"');
        if q < s.len() {
            (Some(TokenView::StringLiteral(s.subrange(i + 1, q))), q + 1)
        } else {
            (Some(TokenView::Error), s.len() as int)
        }
    } else if c == '-' {
        if next == Some('>') { (Some(TokenView::Arrow), i + 2) } else { (Some(TokenView::Minus), i + 1) }
    } else if c == '=' {
        if next == Some('>') { (Some(TokenView::FatArrow), i + 2) } else { (Some(TokenView::Equal), i + 1) }
    } else if c == '/' {
        if next == Some('/') { (None, find_char(s, i, '\n')) } else { (Some(TokenView::Slash), i + 1) }
    } else {
        match symbol_token(c) {
            Some(t) => (Some(t), i + 1),
            None => (Some(TokenView::Error), i + 1),
        }
    }
}

pub proof fn lemma_scan_advances(s: Seq<char>, i: int)
    requires
        0 <= i < s.len(),
    ensures
        i < scan(s, i).1 <= s.len(),
{
    lemma_ident_end_bounds(s, i);
    lemma_digit_end_bounds(s, i);
    if is_ident_start(s[i]) {
        lemma_ident_end_bounds(s, i + 1);
    }
    if is_digit(s[i]) {
        lemma_digit_end_bounds(s, i + 1);
    }
    lemma_find_char(s, i + 1, '"');
    lemma_find_char(s, i, '\n');
}

/// The tokens from index `i` on, as (token, start, end) in character indices, or the
/// character range of the first `Error`.
pub open spec fn lex_from(s: Seq<char>, i: int) -> Result<Seq<(TokenView, int, int)>, (int, int)>
    decreases s.len() - i,
{
    if i < 0 || i >= s.len() {
        Ok(Seq::empty())
    } else if is_ws(s[i]) {
        lex_from(s, i + 1)
    } else {
        let (t, e) = scan(s, i);
        proof { lemma_scan_advances(s, i); }
        if e <= i {
            Ok(Seq::empty())
        } else {
            match t {
                None => lex_from(s, e),
                Some(TokenView::Error) => Err((i, e)),
                Some(tok) => match lex_from(s, e) {
                    Ok(rest) => Ok(seq![(tok, i, e)] + rest),
                    Err(r) => Err(r),
                },
            }
        }
    }
}

/// Prepends `done` to the tokens of `r`.
pub open spec fn after(done: Seq<(TokenView, int, int)>, r: Result<Seq<(TokenView, int, int)>, (int, int)>) -> Result<Seq<(TokenView, int, int)>, (int, int)> {
    match r {
        Ok(rest) => Ok(done + rest),
        Err(p) => Err(p),
    }
}

/// `t` is the token `(token, start, end)` of `s`, with its byte range.
pub open spec fn spanned_is(t: Spanned<Token>, s: Seq<char>, st: (TokenView, int, int)) -> bool {
    &&& t.token@ == st.0
    &&& t.span.start == byte_pos(s, st.1)
    &&& t.span.end == byte_pos(s, st.2)
}

fn word_to_token(v: &Vec<char>, i: usize, e: usize) -> (t: Token)
    requires
        i <= e <= v@.len(),
    ensures
        t@ == word_token(v@.subrange(i as int, e as int)),
{
    let ghost w = v@.subrange(i as int, e as int);
    let k0 = ['f', 'n'];
    assert(k0@ =~= seq!['f', 'n']);
    if word_is(v, i, e, &k0) {
        return Token::Fn;
    }
    let k1 = ['r', 'e', 't', 'u', 'r', 'n'];
    assert(k1@ =~= seq!['r', 'e', 't', 'u', 'r', 'n']);
    if word_is(v, i, e, &k1) {
        return Token::Return;
    }
    let k2 = ['l', 'e', 't'];
    assert(k2@ =~= seq!['l', 'e', 't']);
    if word_is(v, i, e, &k2) {
        return Token::Let;
    }
    let k3 = ['I', 'n', 't'];
    assert(k3@ =~= seq!['I', 'n', 't']);
    if word_is(v, i, e, &k3) {
        return Token::IntType;
    }
    let k4 = ['B', 'o', 'o', 'l'];
    assert(k4@ =~= seq!['B', 'o', 'o', 'l']);
    if word_is(v, i, e, &k4) {
        return Token::BoolType;
    }
    let k5 = ['S', 't', 'r', 'i', 'n', 'g'];
    assert(k5@ =~= seq!['S', 't', 'r', 'i', 'n', 'g']);
    if word_is(v, i, e, &k5) {
        return Token::StringType;
    }
    let k6 = ['t', 'r', 'u', 'e'];
    assert(k6@ =~= seq!['t', 'r', 'u', 'e']);
    if word_is(v, i, e, &k6) {
        return Token::True;
    }
    let k7 = ['f', 'a', 'l', 's', 'e'];
    assert(k7@ =~= seq!['f', 'a', 'l', 's', 'e']);
    if word_is(v, i, e, &k7) {
        return Token::False;
    }
    let k8 = ['m', 'a', 't', 'c', 'h'];
    assert(k8@ =~= seq!['m', 'a', 't', 'c', 'h']);
    if word_is(v, i, e, &k8) {
        return Token::Match;
    }
    let k9 = ['m', 'o', 'd', 'u', 'l', 'e'];
    assert(k9@ =~= seq!['m', 'o', 'd', 'u', 'l', 'e']);
    if word_is(v, i, e, &k9) {
        return Token::ModuleKw;
    }
    let k10 = ['i', 'f'];
    assert(k10@ =~= seq!['i', 'f']);
    if word_is(v, i, e, &k10) {
        return Token::If;
    }
    let k11 = ['r', 'e', 'w', 'r', 'i', 't', 'e'];
    assert(k11@ =~= seq!['r', 'e', 'w', 'r', 'i', 't', 'e']);
    if word_is(v, i, e, &k11) {
        return Token::RewriteKw;
    }
    let k12 = ['a', 's', 't'];
    assert(k12@ =~= seq!['a', 's', 't']);
    if word_is(v, i, e, &k12) {
        return Token::AstKw;
    }
    let k13 = ['i', 'm', 'p', 'o', 'r', 't'];
    assert(k13@ =~= seq!['i', 'm', 'p', 'o', 'r', 't']);
    if word_is(v, i, e, &k13) {
        return Token::ImportKw;
    }
    let k14 = ['e', 'x', 'p', 'o', 'r', 't'];
    assert(k14@ =~= seq!['e', 'x', 'p', 'o', 'r', 't']);
    if word_is(v, i, e, &k14) {
        return Token::ExportKw;
    }
    let kp = ['p', 'a', 's', 's'];
    assert(kp@ =~= seq!['p', 'a', 's', 's']);
    if word_is(v, i, e, &kp) {
        return Token::PassKw;
    }
    let k15 = ['_'];
    assert(k15@ =~= seq!['_']);
    if word_is(v, i, e, &k15) {
        return Token::Underscore;
    }
    Token::Ident(string_of(v, i, e))
}

fn symbol_to_token(c: char) -> (t: Option<Token>)
    ensures
        match t {
            Some(x) => symbol_token(c) == Some(x@),
            None => symbol_token(c) is None,
        },
{
    if c == '{' {
        Some(Token::LBrace)
    } else if c == '}' {
        Some(Token::RBrace)
    } else if c == '(' {
        Some(Token::LParen)
    } else if c == ')' {
        Some(Token::RParen)
    } else if c == ',' {
        Some(Token::Comma)
    } else if c == ':' {
        Some(Token::Colon)
    } else if c == ';' {
        Some(Token::Semicolon)
    } else if c == '+' {
        Some(Token::Plus)
    } else if c == '*' {
        Some(Token::Star)
    } else if c == '$' {
        Some(Token::Dollar)
    } else {
        None
    }
}

fn find_char_from(v: &Vec<char>, i: usize, c: char) -> (r: usize)
    requires
        i <= v@.len(),
    ensures
        r == find_char(v@, i as int, c),
{
    let mut k = i;
    while k < v.len() && v[k] != c
        invariant
            i <= k <= v@.len(),
            find_char(v@, k as int, c) == find_char(v@, i as int, c),
        decreases v@.len() - k,
    {
        k += 1;
    }
    k
}

/// The longest lexeme of `v` starting at `i`.
fn scan_lexeme(v: &Vec<char>, i: usize) -> (r: (Option<Token>, usize))
    requires
        i < v@.len(),
    ensures
        r.1 == scan(v@, i as int).1,
        match r.0 {
            Some(t) => scan(v@, i as int).0 == Some(t@),
            None => scan(v@, i as int).0 is None,
        },
{
    proof { lemma_scan_advances(v@, i as int); }
    let n = v.len();
    let c = v[i];
    let next: Option<char> = if i + 1 < n { Some(v[i + 1]) } else { None };
    if is_ident_start_char(c) {
        let e = scan_ident_end(v, i);
        (Some(word_to_token(v, i, e)), e)
    } else if is_digit_char(c) {
        let e = scan_digit_end(v, i);
        proof { lemma_digit_end_bounds(v@, i as int); }
        match parse_numeral(v, i, e) {
            Some(x) => (Some(Token::IntLiteral(x)), e),
            None => (Some(Token::Error), e),
        }
    } else if c == '"' {
        let q = find_char_from(v, i + 1, '"');
        proof { lemma_find_char(v@, i + 1, '"'); }
        if q < n {
            (Some(Token::StringLiteral(string_of(v, i + 1, q))), q + 1)
        } else {
            (Some(Token::Error), n)
        }
    } else if c == '-' {
        if next == Some('>') { (Some(Token::Arrow), i + 2) } else { (Some(Token::Minus), i + 1) }
    } else if c == '=' {
        if next == Some('>') { (Some(Token::FatArrow), i + 2) } else { (Some(Token::Equal), i + 1) }
    } else if c == '/' {
        if next == Some('/') { (None, find_char_from(v, i, '\n')) } else { (Some(Token::Slash), i + 1) }
    } else {
        match symbol_to_token(c) {
            Some(t) => (Some(t), i + 1),
            None => (Some(Token::Error), i + 1),
        }
    }
}

/// Splits `source` into tokens with their byte ranges, skipping whitespace and `//`
/// comments. Fails with the byte range of the first lexeme that is no token.
pub fn lex(source: &str) -> (r: Result<Vec<Spanned<Token>>, XLError>)
    requires
        byte_pos(source@, source@.len() as int) <= usize::MAX,
    ensures
        match lex_from(source@, 0) {
            Ok(sts) => r matches Ok(toks) && toks@.len() == sts.len()
                && forall|k: int| 0 <= k < sts.len() ==> spanned_is(#[trigger] toks@[k], source@, sts[k]),
            Err((a, b)) => r matches Err(e) && e@ == XLErrorView::LexError(byte_pos(source@, a) as usize, byte_pos(source@, b) as usize),
        },
{
    let v = chars_of(source);
    let ghost s = v@;
    let mut tokens: Vec<Spanned<Token>> = Vec::new();
    let ghost mut done: Seq<(TokenView, int, int)> = Seq::empty();
    let mut i: usize = 0;
    let mut b: usize = 0;
    while i < v.len()
        invariant
            s == v@,
            s == source@,
            i <= s.len(),
            b == byte_pos(s, i as int),
            byte_pos(s, s.len() as int) <= usize::MAX,
            lex_from(s, 0) == after(done, lex_from(s, i as int)),
            tokens@.len() == done.len(),
            forall|k: int| 0 <= k < tokens@.len() ==> spanned_is(#[trigger] tokens@[k], s, done[k]),
        decreases s.len() - i,
    {
        let c = v[i];
        if is_ws_char(c) {
            assert(lex_from(s, i as int) == lex_from(s, i + 1));
            b = advance_bytes(&v, i, i + 1, b);
            i += 1;
        } else {
            let (tok, e) = scan_lexeme(&v, i);
            proof { lemma_scan_advances(s, i as int); }
            let be = advance_bytes(&v, i, e, b);
            match tok {
                None => {
                    assert(lex_from(s, i as int) == lex_from(s, e as int));
                },
                Some(Token::Error) => {
                    return Err(XLError::LexError(b, be));
                },
                Some(t) => {
                    let ghost st = (t@, i as int, e as int);
                    assert(lex_from(s, i as int) == after(seq![st], lex_from(s, e as int)));
                    let ghost prev = tokens@;
                    tokens.push(Spanned { token: t, span: Range { start: b, end: be } });
                    proof {
                        let old_done = done;
                        done = done.push(st);
                        match lex_from(s, e as int) {
                            Ok(rest) => {
                                assert(old_done + (seq![st] + rest) =~= done + rest);
                            },
                            Err(_) => {},
                        }
                        assert forall|k: int| 0 <= k < tokens@.len() implies spanned_is(#[trigger] tokens@[k], s, done[k]) by {
                            if k < tokens@.len() - 1 {
                                assert(tokens@[k] == prev[k]);
                            }
                        }
                    }
                },
            }
            i = e;
            b = be;
        }
    }
    assert(done + Seq::<(TokenView, int, int)>::empty() =~= done);
    Ok(tokens)
}

} // verus!
