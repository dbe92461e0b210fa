//! Tokens of the XL compiler `xlc`.

use vstd::prelude::*;

use crate::text::{int_text, push_int, push_str};

verus! {

/// A token; identifiers and literals carry their text or value.
#[derive(Debug)]
pub enum Token {
    Fn,
    Return,
    Let,
    IntType,
    BoolType,
    StringType,
    True,
    False,
    Match,
    ModuleKw,
    If,
    RewriteKw,
    AstKw,
    ImportKw,
    ExportKw,
    PassKw,
    LBrace,
    RBrace,
    LParen,
    RParen,
    Comma,
    Colon,
    Semicolon,
    Arrow,
    Equal,
    Plus,
    Minus,
    Star,
    Slash,
    Dollar,
    FatArrow,
    Underscore,
    IntLiteral(i64),
    Ident(String),
    StringLiteral(String),
    Error,
}

/// The value of a token: texts as character sequences.
pub enum TokenView {
    Fn,
    Return,
    Let,
    IntType,
    BoolType,
    StringType,
    True,
    False,
    Match,
    ModuleKw,
    If,
    RewriteKw,
    AstKw,
    ImportKw,
    ExportKw,
    PassKw,
    LBrace,
    RBrace,
    LParen,
    RParen,
    Comma,
    Colon,
    Semicolon,
    Arrow,
    Equal,
    Plus,
    Minus,
    Star,
    Slash,
    Dollar,
    FatArrow,
    Underscore,
    IntLiteral(i64),
    Ident(Seq<char>),
    StringLiteral(Seq<char>),
    Error,
}

impl View for Token {
    type V = TokenView;

    open spec fn view(&self) -> TokenView {
        match self {
            Token::Fn => TokenView::Fn,
            Token::Return => TokenView::Return,
            Token::Let => TokenView::Let,
            Token::IntType => TokenView::IntType,
            Token::BoolType => TokenView::BoolType,
            Token::StringType => TokenView::StringType,
            Token::True => TokenView::True,
            Token::False => TokenView::False,
            Token::Match => TokenView::Match,
            Token::ModuleKw => TokenView::ModuleKw,
            Token::If => TokenView::If,
            Token::RewriteKw => TokenView::RewriteKw,
            Token::AstKw => TokenView::AstKw,
            Token::ImportKw => TokenView::ImportKw,
            Token::ExportKw => TokenView::ExportKw,
            Token::PassKw => TokenView::PassKw,
            Token::LBrace => TokenView::LBrace,
            Token::RBrace => TokenView::RBrace,
            Token::LParen => TokenView::LParen,
            Token::RParen => TokenView::RParen,
            Token::Comma => TokenView::Comma,
            Token::Colon => TokenView::Colon,
            Token::Semicolon => TokenView::Semicolon,
            Token::Arrow => TokenView::Arrow,
            Token::Equal => TokenView::Equal,
            Token::Plus => TokenView::Plus,
            Token::Minus => TokenView::Minus,
            Token::Star => TokenView::Star,
            Token::Slash => TokenView::Slash,
            Token::Dollar => TokenView::Dollar,
            Token::FatArrow => TokenView::FatArrow,
            Token::Underscore => TokenView::Underscore,
            Token::IntLiteral(v) => TokenView::IntLiteral(*v),
            Token::Ident(s) => TokenView::Ident(s@),
            Token::StringLiteral(s) => TokenView::StringLiteral(s@),
            Token::Error => TokenView::Error,
        }
    }
}

/// Rust's `Debug` text of a string: quoted and escaped (std's `<str as Debug>::fmt`).
pub uninterp spec fn str_debug(s: Seq<char>) -> Seq<char>;

/// The `Debug` text of `s`, as `format!("{:?}", s)` gives it.
#[verifier::external_body]
fn debug_text(s: &str) -> (r: String)
    ensures
        r@ == str_debug(s@),
{
    format!("{:?}", s)
}

/// Appends the `Debug` text of `s` to `out`.
pub(crate) fn push_str_debug(out: &mut String, s: &str)
    ensures
        final(out)@ == old(out)@ + str_debug(s@),
{
    let d = debug_text(s);
    push_str(out, d.as_str());
}

/// The `Debug` text of a token: its variant name, then its payload in parentheses.
pub open spec fn token_debug(t: TokenView) -> Seq<char> {
    match t {
        TokenView::Fn => "Fn"@,
        TokenView::Return => "Return"@,
        TokenView::Let => "Let"@,
        TokenView::IntType => "IntType"@,
        TokenView::BoolType => "BoolType"@,
        TokenView::StringType => "StringType"@,
        TokenView::True => "True"@,
        TokenView::False => "False"@,
        TokenView::Match => "Match"@,
        TokenView::ModuleKw => "ModuleKw"@,
        TokenView::If => "If"@,
        TokenView::RewriteKw => "RewriteKw"@,
        TokenView::AstKw => "AstKw"@,
        TokenView::ImportKw => "ImportKw"@,
        TokenView::ExportKw => "ExportKw"@,
        TokenView::PassKw => "PassKw"@,
        TokenView::LBrace => "LBrace"@,
        TokenView::RBrace => "RBrace"@,
        TokenView::LParen => "LParen"@,
        TokenView::RParen => "RParen"@,
        TokenView::Comma => "Comma"@,
        TokenView::Colon => "Colon"@,
        TokenView::Semicolon => "Semicolon"@,
        TokenView::Arrow => "Arrow"@,
        TokenView::Equal => "Equal"@,
        TokenView::Plus => "Plus"@,
        TokenView::Minus => "Minus"@,
        TokenView::Star => "Star"@,
        TokenView::Slash => "Slash"@,
        TokenView::Dollar => "Dollar"@,
        TokenView::FatArrow => "FatArrow"@,
        TokenView::Underscore => "Underscore"@,
        TokenView::IntLiteral(v) => "IntLiteral("@ + int_text(v as int) + ")"@,
        TokenView::Ident(s) => "Ident("@ + str_debug(s) + ")"@,
        TokenView::StringLiteral(s) => "StringLiteral("@ + str_debug(s) + ")"@,
        TokenView::Error => "Error"@,
    }
}

impl Token {
    /// Appends this token's `Debug` text to `out`.
    pub fn push_debug(&self, out: &mut String)
        ensures
            final(out)@ == old(out)@ + token_debug(self@),
    {
        match self {
            Token::Fn => push_str(out, "Fn"),
            Token::Return => push_str(out, "Return"),
            Token::Let => push_str(out, "Let"),
            Token::IntType => push_str(out, "IntType"),
            Token::BoolType => push_str(out, "BoolType"),
            Token::StringType => push_str(out, "StringType"),
            Token::True => push_str(out, "True"),
            Token::False => push_str(out, "False"),
            Token::Match => push_str(out, "Match"),
            Token::ModuleKw => push_str(out, "ModuleKw"),
            Token::If => push_str(out, "If"),
            Token::RewriteKw => push_str(out, "RewriteKw"),
            Token::AstKw => push_str(out, "AstKw"),
            Token::ImportKw => push_str(out, "ImportKw"),
            Token::ExportKw => push_str(out, "ExportKw"),
            Token::PassKw => push_str(out, "PassKw"),
            Token::LBrace => push_str(out, "LBrace"),
            Token::RBrace => push_str(out, "RBrace"),
            Token::LParen => push_str(out, "LParen"),
            Token::RParen => push_str(out, "RParen"),
            Token::Comma => push_str(out, "Comma"),
            Token::Colon => push_str(out, "Colon"),
            Token::Semicolon => push_str(out, "Semicolon"),
            Token::Arrow => push_str(out, "Arrow"),
            Token::Equal => push_str(out, "Equal"),
            Token::Plus => push_str(out, "Plus"),
            Token::Minus => push_str(out, "Minus"),
            Token::Star => push_str(out, "Star"),
            Token::Slash => push_str(out, "Slash"),
            Token::Dollar => push_str(out, "Dollar"),
            Token::FatArrow => push_str(out, "FatArrow"),
            Token::Underscore => push_str(out, "Underscore"),
            Token::IntLiteral(v) => {
                push_str(out, "IntLiteral(");
                push_int(out, *v);
                push_str(out, ")");
                assert(final(out)@ =~= old(out)@ + token_debug(self@));
            },
            Token::Ident(s) => {
                push_str(out, "Ident(");
                push_str_debug(out, s.as_str());
                push_str(out, ")");
                assert(final(out)@ =~= old(out)@ + token_debug(self@));
            },
            Token::StringLiteral(s) => {
                push_str(out, "StringLiteral(");
                push_str_debug(out, s.as_str());
                push_str(out, ")");
                assert(final(out)@ =~= old(out)@ + token_debug(self@));
            },
            Token::Error => push_str(out, "Error"),
        }
    }

    /// Whether two tokens are equal: same variant and same payload.
    pub fn same(&self, other: &Token) -> (r: bool)
        ensures
            r == (self@ == other@),
    {
        match (self, other) {
            (Token::IntLiteral(a), Token::IntLiteral(b)) => *a == *b,
            (Token::Ident(a), Token::Ident(b)) => *a == *b,
            (Token::StringLiteral(a), Token::StringLiteral(b)) => *a == *b,
            (Token::IntLiteral(_), _) | (_, Token::IntLiteral(_)) => false,
            (Token::Ident(_), _) | (_, Token::Ident(_)) => false,
            (Token::StringLiteral(_), _) | (_, Token::StringLiteral(_)) => false,
            _ => self.tag() == other.tag(),
        }
    }

    /// The position of this token's variant in the declaration.
    pub fn tag(&self) -> (r: u8)
        ensures
            r == token_tag(self@),
    {
        match self {
            Token::Fn => 0,
            Token::Return => 1,
            Token::Let => 2,
            Token::IntType => 3,
            Token::BoolType => 4,
            Token::StringType => 5,
            Token::True => 6,
            Token::False => 7,
            Token::Match => 8,
            Token::ModuleKw => 9,
            Token::If => 10,
            Token::RewriteKw => 11,
            Token::AstKw => 12,
            Token::ImportKw => 13,
            Token::ExportKw => 14,
            Token::PassKw => 15,
            Token::LBrace => 16,
            Token::RBrace => 17,
            Token::LParen => 18,
            Token::RParen => 19,
            Token::Comma => 20,
            Token::Colon => 21,
            Token::Semicolon => 22,
            Token::Arrow => 23,
            Token::Equal => 24,
            Token::Plus => 25,
            Token::Minus => 26,
            Token::Star => 27,
            Token::Slash => 28,
            Token::Dollar => 29,
            Token::FatArrow => 30,
            Token::Underscore => 31,
            Token::IntLiteral(_) => 32,
            Token::Ident(_) => 33,
            Token::StringLiteral(_) => 34,
            Token::Error => 35,
        }
    }
}

/// The position of a token's variant in the declaration.
pub open spec fn token_tag(t: TokenView) -> u8 {
    match t {
        TokenView::Fn => 0,
        TokenView::Return => 1,
        TokenView::Let => 2,
        TokenView::IntType => 3,
        TokenView::BoolType => 4,
        TokenView::StringType => 5,
        TokenView::True => 6,
        TokenView::False => 7,
        TokenView::Match => 8,
        TokenView::ModuleKw => 9,
        TokenView::If => 10,
        TokenView::RewriteKw => 11,
        TokenView::AstKw => 12,
        TokenView::ImportKw => 13,
        TokenView::ExportKw => 14,
        TokenView::PassKw => 15,
        TokenView::LBrace => 16,
        TokenView::RBrace => 17,
        TokenView::LParen => 18,
        TokenView::RParen => 19,
        TokenView::Comma => 20,
        TokenView::Colon => 21,
        TokenView::Semicolon => 22,
        TokenView::Arrow => 23,
        TokenView::Equal => 24,
        TokenView::Plus => 25,
        TokenView::Minus => 26,
        TokenView::Star => 27,
        TokenView::Slash => 28,
        TokenView::Dollar => 29,
        TokenView::FatArrow => 30,
        TokenView::Underscore => 31,
        TokenView::IntLiteral(_) => 32,
        TokenView::Ident(_) => 33,
        TokenView::StringLiteral(_) => 34,
        TokenView::Error => 35,
    }
}

/// A copy of a token.
pub fn clone_token(t: &Token) -> (r: Token)
    ensures
        r@ == t@,
{
    match t {
        Token::IntLiteral(v) => Token::IntLiteral(*v),
        Token::Ident(s) => Token::Ident(s.clone()),
        Token::StringLiteral(s) => Token::StringLiteral(s.clone()),
        Token::Fn => Token::Fn,
        Token::Return => Token::Return,
        Token::Let => Token::Let,
        Token::IntType => Token::IntType,
        Token::BoolType => Token::BoolType,
        Token::StringType => Token::StringType,
        Token::True => Token::True,
        Token::False => Token::False,
        Token::Match => Token::Match,
        Token::ModuleKw => Token::ModuleKw,
        Token::If => Token::If,
        Token::RewriteKw => Token::RewriteKw,
        Token::AstKw => Token::AstKw,
        Token::ImportKw => Token::ImportKw,
        Token::ExportKw => Token::ExportKw,
        Token::PassKw => Token::PassKw,
        Token::LBrace => Token::LBrace,
        Token::RBrace => Token::RBrace,
        Token::LParen => Token::LParen,
        Token::RParen => Token::RParen,
        Token::Comma => Token::Comma,
        Token::Colon => Token::Colon,
        Token::Semicolon => Token::Semicolon,
        Token::Arrow => Token::Arrow,
        Token::Equal => Token::Equal,
        Token::Plus => Token::Plus,
        Token::Minus => Token::Minus,
        Token::Star => Token::Star,
        Token::Slash => Token::Slash,
        Token::Dollar => Token::Dollar,
        Token::FatArrow => Token::FatArrow,
        Token::Underscore => Token::Underscore,
        Token::Error => Token::Error,
    }
}

impl Clone for Token {
    fn clone(&self) -> (r: Token)
        ensures
            r@ == self@,
    {
        clone_token(self)
    }
}

impl PartialEq for Token {
    fn eq(&self, other: &Token) -> (r: bool) {
        self.same(other)
    }
}

impl vstd::std_specs::cmp::PartialEqSpecImpl for Token {
    open spec fn obeys_eq_spec() -> bool {
        true
    }

    open spec fn eq_spec(&self, other: &Token) -> bool {
        self@ == other@
    }
}

} // verus!
