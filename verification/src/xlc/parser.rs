//! Precedence-climbing parser of the XL compiler `xlc`.

use vstd::prelude::*;

use super::ast::{
    exprs_view, BinaryOp, Block, Expr, ExprView, Function, FunctionView, Param, ParamView, Program, Stmt,
    StmtView, Type, type_of_keyword,
};
use super::error::{XLError, XLErrorView};
use super::lexer::Spanned;
use super::token::{token_debug, Token, TokenView};
use crate::text::push_str;

verus! {

pub type Tokens = Vec<Spanned<Token>>;

/// A parse at a position: the value and the position after it, or the error message.
pub type Parsed<T> = Result<(T, int), Seq<char>>;

/// The token at `p`, if there is one.
pub open spec fn tok_at(toks: Seq<Spanned<Token>>, p: int) -> Option<TokenView> {
    if 0 <= p < toks.len() {
        Some(toks[p].token@)
    } else {
        None
    }
}

/// `expected <token>`
pub open spec fn expected_msg(k: TokenView) -> Seq<char> {
    "expected "@ + token_debug(k)
}

/// The `Debug` text of an optional token.
pub open spec fn option_token_debug(t: Option<TokenView>) -> Seq<char> {
    match t {
        Some(k) => "Some("@ + token_debug(k) + ")"@,
        None => "None"@,
    }
}

/// Consumes the token `k` at `p`.
pub open spec fn expect_at(toks: Seq<Spanned<Token>>, p: int, k: TokenView) -> Result<int, Seq<char>> {
    if tok_at(toks, p) == Some(k) {
        Ok(p + 1)
    } else {
        Err(expected_msg(k))
    }
}

/// Consumes an identifier at `p`.
pub open spec fn ident_at(toks: Seq<Spanned<Token>>, p: int) -> Parsed<Seq<char>> {
    match tok_at(toks, p) {
        Some(TokenView::Ident(s)) => Ok((s, p + 1)),
        _ => Err("expected identifier"@),
    }
}

/// type ::= 'Int' | 'Bool' | 'String'
pub open spec fn type_at(toks: Seq<Spanned<Token>>, p: int) -> Parsed<Type> {
    match tok_at(toks, p) {
        Some(t) => match type_of_keyword(t) {
            Some(ty) => Ok((ty, p + 1)),
            None => Err("expected type, found "@ + token_debug(t)),
        },
        None => Err("unexpected EOF while parsing type"@),
    }
}

/// Operator and precedence of a binary operator token.
pub open spec fn binary_op(t: Option<TokenView>) -> Option<(BinaryOp, u8)> {
    match t {
        Some(TokenView::Plus) => Some((BinaryOp::Add, 1)),
        Some(TokenView::Minus) => Some((BinaryOp::Sub, 1)),
        Some(TokenView::Star) => Some((BinaryOp::Mul, 2)),
        Some(TokenView::Slash) => Some((BinaryOp::Div, 2)),
        _ => None,
    }
}

/// An expression whose operators all bind at least as tightly as `min_prec`;
/// operators of equal precedence associate to the left.
pub open spec fn spec_binary(toks: Seq<Spanned<Token>>, p: int, min_prec: u8) -> Parsed<ExprView>
    decreases toks.len() - p, 3int,
{
    if p < 0 || p > toks.len() {
        Err(Seq::empty())
    } else {
        match spec_primary(toks, p) {
            Ok((l, q)) => if q <= p || q > toks.len() {
                Err(Seq::empty())
            } else {
                spec_binary_rest(toks, q, min_prec, l)
            },
            Err(e) => Err(e),
        }
    }
}

/// The operators and operands after the left operand `acc`.
pub open spec fn spec_binary_rest(toks: Seq<Spanned<Token>>, p: int, min_prec: u8, acc: ExprView) -> Parsed<ExprView>
    decreases toks.len() - p, 2int,
{
    if p < 0 || p > toks.len() {
        Err(Seq::empty())
    } else {
        match binary_op(tok_at(toks, p)) {
            Some((op, prec)) => if prec < min_prec {
                Ok((acc, p))
            } else {
                match spec_binary(toks, p + 1, (prec + 1) as u8) {
                    Ok((r, q)) => if q <= p || q > toks.len() {
                        Err(Seq::empty())
                    } else {
                        spec_binary_rest(
                            toks,
                            q,
                            min_prec,
                            ExprView::Binary { op, left: Box::new(acc), right: Box::new(r) },
                        )
                    },
                    Err(e) => Err(e),
                }
            },
            None => Ok((acc, p)),
        }
    }
}

/// primary ::= int | string | 'true' | 'false' | ident | ident '(' [ expr { ',' expr } ] ')' | '(' expr ')'
pub open spec fn spec_primary(toks: Seq<Spanned<Token>>, p: int) -> Parsed<ExprView>
    decreases toks.len() - p, 1int,
{
    if p < 0 || p > toks.len() {
        Err(Seq::empty())
    } else {
        match tok_at(toks, p) {
            Some(TokenView::IntLiteral(v)) => Ok((ExprView::Int(v), p + 1)),
            Some(TokenView::StringLiteral(s)) => Ok((ExprView::String(s), p + 1)),
            Some(TokenView::True) => Ok((ExprView::Bool(true), p + 1)),
            Some(TokenView::False) => Ok((ExprView::Bool(false), p + 1)),
            Some(TokenView::Ident(name)) => if tok_at(toks, p + 1) == Some(TokenView::LParen) {
                match spec_call_args(toks, p + 2) {
                    Ok((args, q)) => match expect_at(toks, q, TokenView::RParen) {
                        Ok(q2) => Ok((ExprView::Call { callee: name, args }, q2)),
                        Err(e) => Err(e),
                    },
                    Err(e) => Err(e),
                }
            } else {
                Ok((ExprView::Ident(name), p + 1))
            },
            Some(TokenView::LParen) => match spec_binary(toks, p + 1, 0) {
                Ok((e, q)) => match expect_at(toks, q, TokenView::RParen) {
                    Ok(q2) => Ok((e, q2)),
                    Err(err) => Err(err),
                },
                Err(err) => Err(err),
            },
            other => Err("unexpected token "@ + option_token_debug(other) + " in expression"@),
        }
    }
}

/// The arguments of a call, after its `(` and up to its `)`.
pub open spec fn spec_call_args(toks: Seq<Spanned<Token>>, p: int) -> Parsed<Seq<ExprView>>
    decreases toks.len() - p, 5int,
{
    if p < 0 || p > toks.len() {
        Err(Seq::empty())
    } else if tok_at(toks, p) == Some(TokenView::RParen) {
        Ok((Seq::empty(), p))
    } else {
        spec_arg_list(toks, p, Seq::empty())
    }
}

/// `expr { ',' expr }` up to a `)`, after the arguments `acc`.
pub open spec fn spec_arg_list(toks: Seq<Spanned<Token>>, p: int, acc: Seq<ExprView>) -> Parsed<Seq<ExprView>>
    decreases toks.len() - p, 4int,
{
    if p < 0 || p > toks.len() {
        Err(Seq::empty())
    } else {
        match spec_binary(toks, p, 0) {
            Ok((e, q)) => if q <= p || q > toks.len() {
                Err(Seq::empty())
            } else if tok_at(toks, q) == Some(TokenView::RParen) {
                Ok((acc.push(e), q))
            } else {
                match expect_at(toks, q, TokenView::Comma) {
                    Ok(q2) => spec_arg_list(toks, q2, acc.push(e)),
                    Err(err) => Err(err),
                }
            },
            Err(err) => Err(err),
        }
    }
}

/// expr ::= binary expression at the lowest precedence
pub open spec fn spec_expr(toks: Seq<Spanned<Token>>, p: int) -> Parsed<ExprView> {
    spec_binary(toks, p, 0)
}

/// stmt ::= 'let' ident [ ':' type ] '=' expr ';' | 'return' expr ';' | expr ';'
pub open spec fn spec_stmt(toks: Seq<Spanned<Token>>, p: int) -> Parsed<StmtView> {
    if tok_at(toks, p) == Some(TokenView::Let) {
        match ident_at(toks, p + 1) {
            Err(e) => Err(e),
            Ok((name, p2)) => match (if tok_at(toks, p2) == Some(TokenView::Colon) {
                match type_at(toks, p2 + 1) {
                    Ok((t, p3)) => Ok((Some(t), p3)),
                    Err(e) => Err(e),
                }
            } else {
                Ok((None, p2))
            }) {
                Err(e) => Err(e),
                Ok((ty, p3)) => match expect_at(toks, p3, TokenView::Equal) {
                    Err(e) => Err(e),
                    Ok(p4) => match spec_expr(toks, p4) {
                        Err(e) => Err(e),
                        Ok((value, p5)) => match expect_at(toks, p5, TokenView::Semicolon) {
                            Err(e) => Err(e),
                            Ok(p6) => Ok((StmtView::Let { name, ty, value }, p6)),
                        },
                    },
                },
            },
        }
    } else if tok_at(toks, p) == Some(TokenView::Return) {
        match spec_expr(toks, p + 1) {
            Err(e) => Err(e),
            Ok((e, q)) => match expect_at(toks, q, TokenView::Semicolon) {
                Err(err) => Err(err),
                Ok(q2) => Ok((StmtView::Return(e), q2)),
            },
        }
    } else {
        match spec_expr(toks, p) {
            Err(e) => Err(e),
            Ok((e, q)) => match expect_at(toks, q, TokenView::Semicolon) {
                Err(err) => Err(err),
                Ok(q2) => Ok((StmtView::Expr(e), q2)),
            },
        }
    }
}

/// The statements of a block up to its `}`, after the statements `acc`.
pub open spec fn spec_stmts(toks: Seq<Spanned<Token>>, p: int, acc: Seq<StmtView>) -> Parsed<Seq<StmtView>>
    decreases toks.len() - p,
{
    if p < 0 || p > toks.len() {
        Err(Seq::empty())
    } else if tok_at(toks, p) == Some(TokenView::RBrace) {
        Ok((acc, p))
    } else {
        match spec_stmt(toks, p) {
            Ok((s, q)) => if q <= p || q > toks.len() {
                Err(Seq::empty())
            } else {
                spec_stmts(toks, q, acc.push(s))
            },
            Err(e) => Err(e),
        }
    }
}

/// block ::= '{' { stmt } '}'
pub open spec fn spec_block(toks: Seq<Spanned<Token>>, p: int) -> Parsed<Seq<StmtView>> {
    match expect_at(toks, p, TokenView::LBrace) {
        Err(e) => Err(e),
        Ok(p1) => match spec_stmts(toks, p1, Seq::empty()) {
            Err(e) => Err(e),
            Ok((stmts, p2)) => match expect_at(toks, p2, TokenView::RBrace) {
                Err(e) => Err(e),
                Ok(p3) => Ok((stmts, p3)),
            },
        },
    }
}

/// `ident ':' type { ',' ident ':' type }` up to a `)`, after the parameters `acc`.
pub open spec fn spec_params(toks: Seq<Spanned<Token>>, p: int, acc: Seq<ParamView>) -> Parsed<Seq<ParamView>>
    decreases toks.len() - p,
{
    if p < 0 || p > toks.len() {
        Err(Seq::empty())
    } else {
        match ident_at(toks, p) {
            Err(e) => Err(e),
            Ok((name, p1)) => match expect_at(toks, p1, TokenView::Colon) {
                Err(e) => Err(e),
                Ok(p2) => match type_at(toks, p2) {
                    Err(e) => Err(e),
                    Ok((ty, p3)) => {
                        let acc2 = acc.push(ParamView { name, ty });
                        if tok_at(toks, p3) == Some(TokenView::RParen) {
                            Ok((acc2, p3))
                        } else {
                            match expect_at(toks, p3, TokenView::Comma) {
                                Err(e) => Err(e),
                                Ok(p4) => spec_params(toks, p4, acc2),
                            }
                        }
                    },
                },
            },
        }
    }
}

/// function ::= 'fn' ident '(' [ params ] ')' '->' type block
pub open spec fn spec_function(toks: Seq<Spanned<Token>>, p: int) -> Parsed<FunctionView> {
    match expect_at(toks, p, TokenView::Fn) {
        Err(e) => Err(e),
        Ok(p1) => match ident_at(toks, p1) {
            Err(e) => Err(e),
            Ok((name, p2)) => match expect_at(toks, p2, TokenView::LParen) {
                Err(e) => Err(e),
                Ok(p3) => match (if tok_at(toks, p3) != Some(TokenView::RParen) {
                    spec_params(toks, p3, Seq::empty())
                } else {
                    Ok((Seq::empty(), p3))
                }) {
                    Err(e) => Err(e),
                    Ok((params, p4)) => match expect_at(toks, p4, TokenView::RParen) {
                        Err(e) => Err(e),
                        Ok(p5) => match expect_at(toks, p5, TokenView::Arrow) {
                            Err(e) => Err(e),
                            Ok(p6) => match type_at(toks, p6) {
                                Err(e) => Err(e),
                                Ok((return_type, p7)) => match spec_block(toks, p7) {
                                    Err(e) => Err(e),
                                    Ok((body, p8)) => Ok((FunctionView { name, params, return_type, body }, p8)),
                                },
                            },
                        },
                    },
                },
            },
        },
    }
}

/// program ::= { function }, after the functions `acc`.
pub open spec fn spec_program(toks: Seq<Spanned<Token>>, p: int, acc: Seq<FunctionView>) -> Result<Seq<FunctionView>, Seq<char>>
    decreases toks.len() - p,
{
    if p < 0 || p >= toks.len() {
        Ok(acc)
    } else {
        match spec_function(toks, p) {
            Ok((f, q)) => if q <= p || q > toks.len() {
                Err(Seq::empty())
            } else {
                spec_program(toks, q, acc.push(f))
            },
            Err(e) => Err(e),
        }
    }
}

/// What `parse` gives for a token list: the functions, or the message of the first error.
pub open spec fn spec_parse(toks: Seq<Spanned<Token>>) -> Result<Seq<FunctionView>, Seq<char>> {
    spec_program(toks, 0, Seq::empty())
}

/// Exec outcome `r` with end position `end` is the spec outcome `spec`.
pub open spec fn outcome_is<T: View>(r: Result<T, XLError>, spec: Parsed<T::V>, end: int) -> bool {
    match r {
        Ok(v) => spec == Ok::<(T::V, int), Seq<char>>((v@, end)),
        Err(e) => spec matches Err(m) && e@ == XLErrorView::ParseError(m),
    }
}

/// Parses a token list into a program.
pub fn parse(tokens: Tokens) -> (r: Result<Program, XLError>)
    ensures
        match spec_parse(tokens@) {
            Ok(fs) => r matches Ok(p) && p@ == fs,
            Err(m) => r matches Err(e) && e@ == XLErrorView::ParseError(m),
        },
{
    let mut p = Parser { tokens, pos: 0 };
    p.parse_program()
}

struct Parser {
    tokens: Tokens,
    pos: usize,
}

impl Parser {
    spec fn wf(&self) -> bool {
        self.pos <= self.tokens@.len()
    }

    fn parse_program(&mut self) -> (r: Result<Program, XLError>)
        requires
            old(self).wf(),
        ensures
            match spec_program(old(self).tokens@, old(self).pos as int, Seq::empty()) {
                Ok(fs) => r matches Ok(p) && p@ == fs,
                Err(m) => r matches Err(e) && e@ == XLErrorView::ParseError(m),
            },
    {
        let ghost toks = self.tokens@;
        let ghost p0 = self.pos as int;
        let mut functions: Vec<Function> = Vec::new();
        assert(functions@.map_values(|f: Function| f@) =~= Seq::<FunctionView>::empty());
        while !self.is_eof()
            invariant
                self.wf(),
                self.tokens@ == toks,
                toks == old(self).tokens@,
                p0 == old(self).pos,
                spec_program(toks, p0, Seq::empty()) == spec_program(toks, self.pos as int, functions@.map_values(|f: Function| f@)),
            decreases toks.len() - self.pos,
        {
            let ghost acc = functions@.map_values(|f: Function| f@);
            let f = self.parse_function()?;
            functions.push(f);
            assert(functions@.map_values(|f: Function| f@) =~= acc.push(f@));
        }
        let prog = Program { functions };
        assert(prog@ =~= prog.functions@.map_values(|f: Function| f@));
        Ok(prog)
    }

    fn parse_function(&mut self) -> (r: Result<Function, XLError>)
        requires
            old(self).wf(),
        ensures
            final(self).wf(),
            final(self).tokens@ == old(self).tokens@,
            old(self).pos <= final(self).pos,
            outcome_is(r, spec_function(old(self).tokens@, old(self).pos as int), final(self).pos as int),
            r is Ok ==> old(self).pos < final(self).pos,
    {
        self.expect_keyword(Token::Fn)?;
        let name = self.expect_ident()?;
        self.expect(Token::LParen)?;
        let params = self.parse_params()?;
        self.expect(Token::RParen)?;
        self.expect(Token::Arrow)?;
        let return_type = self.parse_type()?;
        let body = self.parse_block()?;
        Ok(Function { name, params, return_type, body })
    }

    /// The parameters of a function, after its `(`.
    fn parse_params(&mut self) -> (r: Result<Vec<Param>, XLError>)
        requires
            old(self).wf(),
        ensures
            final(self).wf(),
            final(self).tokens@ == old(self).tokens@,
            old(self).pos <= final(self).pos,
            ({
                let spec = if tok_at(old(self).tokens@, old(self).pos as int) != Some(TokenView::RParen) {
                    spec_params(old(self).tokens@, old(self).pos as int, Seq::empty())
                } else {
                    Ok((Seq::empty(), old(self).pos as int))
                };
                match r {
                    Ok(ps) => spec == Ok::<(Seq<ParamView>, int), Seq<char>>((ps@.map_values(|q: Param| q@), final(self).pos as int)),
                    Err(e) => spec matches Err(m) && e@ == XLErrorView::ParseError(m),
                }
            }),
    {
        let ghost toks = self.tokens@;
        let ghost p3 = self.pos as int;
        let mut params: Vec<Param> = Vec::new();
        assert(params@.map_values(|q: Param| q@) =~= Seq::<ParamView>::empty());
        if !self.check(Token::RParen) {
            loop
                invariant_except_break
                    self.wf(),
                    self.tokens@ == toks,
                    toks == old(self).tokens@,
                    p3 == old(self).pos,
                    p3 <= self.pos,
                    tok_at(toks, p3) != Some(TokenView::RParen),
                    spec_params(toks, p3, Seq::empty()) == spec_params(toks, self.pos as int, params@.map_values(|q: Param| q@)),
                ensures
                    self.wf(),
                    self.tokens@ == toks,
                    p3 <= self.pos,
                    spec_params(toks, p3, Seq::empty()) == Ok::<(Seq<ParamView>, int), Seq<char>>((params@.map_values(|q: Param| q@), self.pos as int)),
                decreases toks.len() - self.pos,
            {
                let ghost acc = params@.map_values(|q: Param| q@);
                let param_name = self.expect_ident()?;
                self.expect(Token::Colon)?;
                let ty = self.parse_type()?;
                params.push(Param { name: param_name, ty });
                assert(params@.map_values(|q: Param| q@) =~= acc.push(ParamView { name: param_name@, ty }));
                if self.check(Token::RParen) {
                    break;
                }
                self.expect(Token::Comma)?;
            }
        }
        Ok(params)
    }

    fn parse_block(&mut self) -> (r: Result<Block, XLError>)
        requires
            old(self).wf(),
        ensures
            final(self).wf(),
            final(self).tokens@ == old(self).tokens@,
            old(self).pos <= final(self).pos,
            outcome_is(r, spec_block(old(self).tokens@, old(self).pos as int), final(self).pos as int),
            r is Ok ==> old(self).pos < final(self).pos,
    {
        self.expect(Token::LBrace)?;
        let ghost toks = self.tokens@;
        let ghost p1 = self.pos as int;
        let mut stmts: Vec<Stmt> = Vec::new();
        assert(stmts@.map_values(|q: Stmt| q@) =~= Seq::<StmtView>::empty());
        while !self.check(Token::RBrace)
            invariant
                self.wf(),
                self.tokens@ == toks,
                toks == old(self).tokens@,
                p1 == old(self).pos + 1,
                p1 <= self.pos,
                expect_at(toks, old(self).pos as int, TokenView::LBrace) == Ok::<int, Seq<char>>(p1),
                spec_stmts(toks, p1, Seq::empty()) == spec_stmts(toks, self.pos as int, stmts@.map_values(|q: Stmt| q@)),
            decreases toks.len() - self.pos,
        {
            let ghost acc = stmts@.map_values(|q: Stmt| q@);
            let st = self.parse_stmt()?;
            stmts.push(st);
            assert(stmts@.map_values(|q: Stmt| q@) =~= acc.push(st@));
        }
        self.expect(Token::RBrace)?;
        let b = Block { stmts };
        Ok(b)
    }

    fn parse_stmt(&mut self) -> (r: Result<Stmt, XLError>)
        requires
            old(self).wf(),
        ensures
            final(self).wf(),
            final(self).tokens@ == old(self).tokens@,
            old(self).pos <= final(self).pos,
            outcome_is(r, spec_stmt(old(self).tokens@, old(self).pos as int), final(self).pos as int),
            r is Ok ==> old(self).pos < final(self).pos,
    {
        if self.match_keyword(Token::Let) {
            let name = self.expect_ident()?;
            let mut ty = None;
            if self.match_token(Token::Colon) {
                ty = Some(self.parse_type()?);
            }
            self.expect(Token::Equal)?;
            let expr = self.parse_expr()?;
            self.expect(Token::Semicolon)?;
            Ok(Stmt::Let { name, ty, value: expr })
        } else if self.match_keyword(Token::Return) {
            let expr = self.parse_expr()?;
            self.expect(Token::Semicolon)?;
            Ok(Stmt::Return(expr))
        } else {
            let expr = self.parse_expr()?;
            self.expect(Token::Semicolon)?;
            Ok(Stmt::Expr(expr))
        }
    }

    fn parse_type(&mut self) -> (r: Result<Type, XLError>)
        requires
            old(self).wf(),
        ensures
            final(self).wf(),
            final(self).tokens@ == old(self).tokens@,
            old(self).pos <= final(self).pos,
            match r {
                Ok(t) => type_at(old(self).tokens@, old(self).pos as int) == Ok::<(Type, int), Seq<char>>((t, final(self).pos as int)),
                Err(e) => type_at(old(self).tokens@, old(self).pos as int) matches Err(m) && e@ == XLErrorView::ParseError(m),
            },
    {
        if let Some(tok) = self.peek() {
            if let Some(ty) = Type::from_keyword(&tok.token) {
                self.advance();
                Ok(ty)
            } else {
                let mut msg = String::new();
                push_str(&mut msg, "expected type, found ");
                tok.token.push_debug(&mut msg);
                Err(self.error(msg))
            }
        } else {
            Err(self.error(String::from_str("unexpected EOF while parsing type")))
        }
    }

    fn parse_expr(&mut self) -> (r: Result<Expr, XLError>)
        requires
            old(self).wf(),
        ensures
            final(self).wf(),
            final(self).tokens@ == old(self).tokens@,
            old(self).pos <= final(self).pos,
            outcome_is(r, spec_binary(old(self).tokens@, old(self).pos as int, 0), final(self).pos as int),
            r is Ok ==> old(self).pos < final(self).pos,
        decreases old(self).tokens@.len() - old(self).pos, 4int,
    {
        self.parse_binary_expr(0)
    }

    fn parse_primary(&mut self) -> (r: Result<Expr, XLError>)
        requires
            old(self).wf(),
        ensures
            final(self).wf(),
            final(self).tokens@ == old(self).tokens@,
            old(self).pos <= final(self).pos,
            outcome_is(r, spec_primary(old(self).tokens@, old(self).pos as int), final(self).pos as int),
            r is Ok ==> old(self).pos < final(self).pos,
        decreases old(self).tokens@.len() - old(self).pos, 1int,
    {
        let ghost toks = self.tokens@;
        let ghost p0 = self.pos as int;
        match self.peek_token() {
            Some(Token::IntLiteral(value)) => {
                let v = *value;
                self.advance();
                Ok(Expr::Int(v))
            },
            Some(Token::StringLiteral(s)) => {
                let v = s.clone();
                self.advance();
                Ok(Expr::String(v))
            },
            Some(Token::True) => {
                self.advance();
                Ok(Expr::Bool(true))
            },
            Some(Token::False) => {
                self.advance();
                Ok(Expr::Bool(false))
            },
            Some(Token::Ident(name)) => {
                let ident = name.clone();
                self.advance();
                if self.match_token(Token::LParen) {
                    let ghost pa = self.pos as int;
                    let mut args: Vec<Expr> = Vec::new();
                    assert(exprs_view(args@) =~= Seq::<ExprView>::empty());
                    if !self.check(Token::RParen) {
                        loop
                            invariant_except_break
                                self.wf(),
                                self.tokens@ == toks,
                                toks == old(self).tokens@,
                                p0 == old(self).pos,
                                pa == p0 + 2,
                                tok_at(toks, p0) == Some(TokenView::Ident(ident@)),
                                tok_at(toks, p0 + 1) == Some(TokenView::LParen),
                                tok_at(toks, pa) != Some(TokenView::RParen),
                                p0 < self.pos,
                                pa <= self.pos,
                                spec_call_args(toks, pa) == spec_arg_list(toks, self.pos as int, exprs_view(args@)),
                            ensures
                                self.wf(),
                                self.tokens@ == toks,
                                pa <= self.pos,
                                spec_call_args(toks, pa) == Ok::<(Seq<ExprView>, int), Seq<char>>((exprs_view(args@), self.pos as int)),
                            decreases toks.len() - self.pos,
                        {
                            let ghost acc = args@;
                            let e = self.parse_expr()?;
                            args.push(e);
                            assert(args@.drop_last() =~= acc);
                            if self.check(Token::RParen) {
                                break;
                            }
                            self.expect(Token::Comma)?;
                        }
                    }
                    self.expect(Token::RParen)?;
                    Ok(Expr::Call { callee: ident, args })
                } else {
                    Ok(Expr::Ident(ident))
                }
            },
            Some(Token::LParen) => {
                self.advance();
                let expr = self.parse_expr()?;
                self.expect(Token::RParen)?;
                Ok(expr)
            },
            other => {
                let mut msg = String::new();
                push_str(&mut msg, "unexpected token ");
                match other {
                    Some(t) => {
                        push_str(&mut msg, "Some(");
                        t.push_debug(&mut msg);
                        push_str(&mut msg, ")");
                    },
                    None => push_str(&mut msg, "None"),
                }
                push_str(&mut msg, " in expression");
                assert(msg@ =~= "unexpected token "@ + option_token_debug(tok_at(toks, p0)) + " in expression"@);
                Err(self.error(msg))
            },
        }
    }

    /// Precedence climbing: a primary, then operators of precedence at least `min_prec`.
    fn parse_binary_expr(&mut self, min_prec: u8) -> (r: Result<Expr, XLError>)
        requires
            old(self).wf(),
        ensures
            final(self).wf(),
            final(self).tokens@ == old(self).tokens@,
            old(self).pos <= final(self).pos,
            outcome_is(r, spec_binary(old(self).tokens@, old(self).pos as int, min_prec), final(self).pos as int),
            r is Ok ==> old(self).pos < final(self).pos,
        decreases old(self).tokens@.len() - old(self).pos, 3int,
    {
        let ghost toks = self.tokens@;
        let ghost p0 = self.pos as int;
        let mut left = self.parse_primary()?;
        loop
            invariant_except_break
                self.wf(),
                self.tokens@ == toks,
                toks == old(self).tokens@,
                p0 == old(self).pos,
                p0 < self.pos,
                spec_binary(toks, p0, min_prec) == spec_binary_rest(toks, self.pos as int, min_prec, left@),
            ensures
                self.wf(),
                self.tokens@ == toks,
                p0 < self.pos,
                spec_binary(toks, p0, min_prec) == Ok::<(ExprView, int), Seq<char>>((left@, self.pos as int)),
            decreases toks.len() - self.pos,
        {
            let (op, prec): (BinaryOp, u8) = match self.peek_token() {
                Some(Token::Plus) => (BinaryOp::Add, 1),
                Some(Token::Minus) => (BinaryOp::Sub, 1),
                Some(Token::Star) => (BinaryOp::Mul, 2),
                Some(Token::Slash) => (BinaryOp::Div, 2),
                _ => break,
            };
            if prec < min_prec {
                break;
            }
            self.advance();
            let right = self.parse_binary_expr(prec + 1)?;
            left = Expr::Binary { op, left: Box::new(left), right: Box::new(right) };
        }
        Ok(left)
    }

    fn peek(&self) -> (r: Option<&Spanned<Token>>)
        ensures
            r == (if self.pos < self.tokens@.len() { Some(&self.tokens@[self.pos as int]) } else { None::<&Spanned<Token>> }),
    {
        if self.pos < self.tokens.len() {
            Some(&self.tokens[self.pos])
        } else {
            None
        }
    }

    fn peek_token(&self) -> (r: Option<&Token>)
        ensures
            match r {
                Some(t) => tok_at(self.tokens@, self.pos as int) == Some(t@),
                None => tok_at(self.tokens@, self.pos as int) is None,
            },
    {
        match self.peek() {
            Some(s) => Some(&s.token),
            None => None,
        }
    }

    fn check(&self, kind: Token) -> (r: bool)
        ensures
            r == (tok_at(self.tokens@, self.pos as int) == Some(kind@)),
    {
        match self.peek_token() {
            Some(t) => t.same(&kind),
            None => false,
        }
    }

    fn match_keyword(&mut self, kind: Token) -> (r: bool)
        requires
            old(self).wf(),
        ensures
            final(self).wf(),
            final(self).tokens@ == old(self).tokens@,
            r == (tok_at(old(self).tokens@, old(self).pos as int) == Some(kind@)),
            final(self).pos == if r { old(self).pos + 1 } else { old(self).pos as int },
    {
        if self.check(kind) {
            self.advance();
            true
        } else {
            false
        }
    }

    fn match_token(&mut self, kind: Token) -> (r: bool)
        requires
            old(self).wf(),
        ensures
            final(self).wf(),
            final(self).tokens@ == old(self).tokens@,
            r == (tok_at(old(self).tokens@, old(self).pos as int) == Some(kind@)),
            final(self).pos == if r { old(self).pos + 1 } else { old(self).pos as int },
    {
        if self.check(kind) {
            self.advance();
            true
        } else {
            false
        }
    }

    fn expect_keyword(&mut self, kind: Token) -> (r: Result<(), XLError>)
        requires
            old(self).wf(),
        ensures
            final(self).wf(),
            final(self).tokens@ == old(self).tokens@,
            old(self).pos <= final(self).pos,
            match r {
                Ok(()) => expect_at(old(self).tokens@, old(self).pos as int, kind@) == Ok::<int, Seq<char>>(final(self).pos as int),
                Err(e) => expect_at(old(self).tokens@, old(self).pos as int, kind@) matches Err(m) && e@ == XLErrorView::ParseError(m),
            },
    {
        let ghost k = kind@;
        if self.match_keyword(kind.clone()) {
            Ok(())
        } else {
            let mut msg = String::new();
            push_str(&mut msg, "expected ");
            kind.push_debug(&mut msg);
            Err(self.error(msg))
        }
    }

    fn expect(&mut self, kind: Token) -> (r: Result<(), XLError>)
        requires
            old(self).wf(),
        ensures
            final(self).wf(),
            final(self).tokens@ == old(self).tokens@,
            old(self).pos <= final(self).pos,
            match r {
                Ok(()) => expect_at(old(self).tokens@, old(self).pos as int, kind@) == Ok::<int, Seq<char>>(final(self).pos as int),
                Err(e) => expect_at(old(self).tokens@, old(self).pos as int, kind@) matches Err(m) && e@ == XLErrorView::ParseError(m),
            },
    {
        if self.match_token(kind.clone()) {
            Ok(())
        } else {
            let mut msg = String::new();
            push_str(&mut msg, "expected ");
            kind.push_debug(&mut msg);
            Err(self.error(msg))
        }
    }

    fn expect_ident(&mut self) -> (r: Result<String, XLError>)
        requires
            old(self).wf(),
        ensures
            final(self).wf(),
            final(self).tokens@ == old(self).tokens@,
            old(self).pos <= final(self).pos,
            match r {
                Ok(s) => ident_at(old(self).tokens@, old(self).pos as int) == Ok::<(Seq<char>, int), Seq<char>>((s@, final(self).pos as int)),
                Err(e) => ident_at(old(self).tokens@, old(self).pos as int) matches Err(m) && e@ == XLErrorView::ParseError(m),
            },
    {
        match self.peek_token() {
            Some(Token::Ident(s)) => {
                let name = s.clone();
                self.advance();
                Ok(name)
            },
            _ => Err(self.error(String::from_str("expected identifier"))),
        }
    }

    fn advance(&mut self)
        requires
            old(self).wf(),
        ensures
            final(self).wf(),
            final(self).tokens@ == old(self).tokens@,
            final(self).pos == if old(self).pos < old(self).tokens@.len() { old(self).pos + 1 } else { old(self).pos as int },
    {
        if self.pos < self.tokens.len() {
            self.pos += 1;
        }
    }

    fn is_eof(&self) -> (r: bool)
        ensures
            r == (self.pos >= self.tokens@.len()),
    {
        self.pos >= self.tokens.len()
    }

    fn error(&self, msg: String) -> (e: XLError)
        ensures
            e@ == XLErrorView::ParseError(msg@),
    {
        XLError::ParseError(msg)
    }
}

/// Whether the token `t` is `+` or `-`, written for the operator `op`.
pub open spec fn additive(t: TokenView, op: BinaryOp) -> bool {
    (t == TokenView::Plus && op == BinaryOp::Add) || (t == TokenView::Minus && op == BinaryOp::Sub)
}

/// Whether the token `t` is `*` or `/`, written for the operator `op`.
pub open spec fn multiplicative(t: TokenView, op: BinaryOp) -> bool {
    (t == TokenView::Star && op == BinaryOp::Mul) || (t == TokenView::Slash && op == BinaryOp::Div)
}

/// Whether no binary operator token stands at `q`.
pub open spec fn no_operator_at(toks: Seq<Spanned<Token>>, q: int) -> bool {
    match tok_at(toks, q) {
        Some(TokenView::Plus) | Some(TokenView::Minus) | Some(TokenView::Star) | Some(TokenView::Slash) => false,
        _ => true,
    }
}

/// Operator precedence and associativity: for integer literals `a`, `b`, `c`
/// joined by two operators and followed by no further operator, `*` and `/`
/// bind tighter than `+` and `-` (`a + b / c` is `a + (b / c)`, `a / b - c`
/// is `(a / b) - c`), and two operators of one level group to the left
/// (`a - b + c` is `(a - b) + c`, `a / b * c` is `(a / b) * c`).
pub proof fn lemma_precedence(
    toks: Seq<Spanned<Token>>,
    p: int,
    a: i64,
    b: i64,
    c: i64,
    t1: TokenView,
    op1: BinaryOp,
    t2: TokenView,
    op2: BinaryOp,
)
    requires
        0 <= p,
        p + 5 <= toks.len(),
        toks[p].token@ == TokenView::IntLiteral(a),
        toks[p + 1].token@ == t1,
        toks[p + 2].token@ == TokenView::IntLiteral(b),
        toks[p + 3].token@ == t2,
        toks[p + 4].token@ == TokenView::IntLiteral(c),
        no_operator_at(toks, p + 5),
        additive(t1, op1) || multiplicative(t1, op1),
        additive(t2, op2) || multiplicative(t2, op2),
    ensures
        additive(t1, op1) && multiplicative(t2, op2) ==> spec_binary(toks, p, 0) == Ok::<(ExprView, int), Seq<char>>((
            ExprView::Binary {
                op: op1,
                left: Box::new(ExprView::Int(a)),
                right: Box::new(ExprView::Binary { op: op2, left: Box::new(ExprView::Int(b)), right: Box::new(ExprView::Int(c)) }),
            },
            p + 5,
        )),
        !(additive(t1, op1) && multiplicative(t2, op2)) ==> spec_binary(toks, p, 0) == Ok::<(ExprView, int), Seq<char>>((
            ExprView::Binary {
                op: op2,
                left: Box::new(ExprView::Binary { op: op1, left: Box::new(ExprView::Int(a)), right: Box::new(ExprView::Int(b)) }),
                right: Box::new(ExprView::Int(c)),
            },
            p + 5,
        )),
{
    let ea = ExprView::Int(a);
    let eb = ExprView::Int(b);
    let ec = ExprView::Int(c);
    assert(spec_primary(toks, p) == Ok::<(ExprView, int), Seq<char>>((ea, p + 1)));
    assert(spec_primary(toks, p + 2) == Ok::<(ExprView, int), Seq<char>>((eb, p + 3)));
    assert(spec_primary(toks, p + 4) == Ok::<(ExprView, int), Seq<char>>((ec, p + 5)));
    assert(binary_op(tok_at(toks, p + 5)) is None);
    let (_, prec1) = binary_op(Some(t1)).unwrap();
    let (_, prec2) = binary_op(Some(t2)).unwrap();
    assert(binary_op(tok_at(toks, p + 1)) == Some((op1, prec1)));
    assert(binary_op(tok_at(toks, p + 3)) == Some((op2, prec2)));
    // the last operand stands alone at every level
    assert forall|m: u8, acc: ExprView| #[trigger] spec_binary_rest(toks, p + 5, m, acc) == Ok::<(ExprView, int), Seq<char>>((acc, p + 5)) by {}
    assert forall|m: u8| #[trigger] spec_binary(toks, p + 4, m) == Ok::<(ExprView, int), Seq<char>>((ec, p + 5)) by {
        assert(spec_binary_rest(toks, p + 5, m, ec) == Ok::<(ExprView, int), Seq<char>>((ec, p + 5)));
    }
    assert(spec_binary(toks, p + 4, (prec2 + 1) as u8) == Ok::<(ExprView, int), Seq<char>>((ec, p + 5)));
    let inner = ExprView::Binary { op: op2, left: Box::new(eb), right: Box::new(ec) };
    let lhs = ExprView::Binary { op: op1, left: Box::new(ea), right: Box::new(eb) };
    if additive(t1, op1) && multiplicative(t2, op2) {
        assert(spec_binary_rest(toks, p + 5, 2, inner) == Ok::<(ExprView, int), Seq<char>>((inner, p + 5)));
        assert(spec_binary_rest(toks, p + 3, 2, eb) == Ok::<(ExprView, int), Seq<char>>((inner, p + 5)));
        assert(spec_binary(toks, p + 2, 2) == Ok::<(ExprView, int), Seq<char>>((inner, p + 5)));
        let whole = ExprView::Binary { op: op1, left: Box::new(ea), right: Box::new(inner) };
        assert(spec_binary_rest(toks, p + 5, 0, whole) == Ok::<(ExprView, int), Seq<char>>((whole, p + 5)));
        assert(spec_binary_rest(toks, p + 1, 0, ea) == Ok::<(ExprView, int), Seq<char>>((whole, p + 5)));
    } else {
        let m1 = (prec1 + 1) as u8;
        assert(spec_binary_rest(toks, p + 3, m1, eb) == Ok::<(ExprView, int), Seq<char>>((eb, p + 3)));
        assert(spec_binary(toks, p + 2, m1) == Ok::<(ExprView, int), Seq<char>>((eb, p + 3)));
        let m2 = (prec2 + 1) as u8;
        let whole = ExprView::Binary { op: op2, left: Box::new(lhs), right: Box::new(ec) };
        assert(spec_binary_rest(toks, p + 5, 0, whole) == Ok::<(ExprView, int), Seq<char>>((whole, p + 5)));
        assert(spec_binary_rest(toks, p + 3, 0, lhs) == Ok::<(ExprView, int), Seq<char>>((whole, p + 5)));
        assert(spec_binary_rest(toks, p + 1, 0, ea) == Ok::<(ExprView, int), Seq<char>>((whole, p + 5)));
    }
}

} // verus!
