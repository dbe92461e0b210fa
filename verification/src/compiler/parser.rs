//! Recursive-descent parser of the first front end.

use vstd::prelude::*;

use super::ast::{
    exprs_view, lemma_exprs_view, BinOp, Expr, ExprView, Function, FunctionView, Item, ItemView,
    Param, ParamView, Program, Stmt, StmtView,
};
use super::error::CompileError;
use super::lexer::{Token, TokenKind};
use super::types::Type;

verus! {

/// A parse of something at a position: its value and the position after it.
pub type Parsed<T> = Result<(T, int), CompileError>;

/// The kind of the token at `p`, if there is one.
pub open spec fn kind_at(toks: Seq<Token>, p: int) -> Option<TokenKind> {
    if 0 <= p < toks.len() {
        Some(toks[p].kind)
    } else {
        None
    }
}

/// Consumes a token of kind `k` at `p`.
pub open spec fn expect_at(toks: Seq<Token>, p: int, k: TokenKind) -> Result<int, CompileError> {
    if kind_at(toks, p) == Some(k) {
        Ok(p + 1)
    } else {
        Err(CompileError::Expected(k))
    }
}

/// Consumes an identifier at `p`, giving its text.
pub open spec fn ident_at(toks: Seq<Token>, p: int) -> Parsed<Seq<char>> {
    if kind_at(toks, p) == Some(TokenKind::Ident) {
        Ok((toks[p].text@, p + 1))
    } else {
        Err(CompileError::ExpectedIdentifier)
    }
}

/// Consumes a type at `p`: any identifier names `i32`.
pub open spec fn type_at(toks: Seq<Token>, p: int) -> Parsed<Type> {
    if kind_at(toks, p) == Some(TokenKind::Ident) {
        Ok((Type::I32, p + 1))
    } else {
        Err(CompileError::UnknownType)
    }
}

/// The additive operator of a token kind.
pub open spec fn additive_op(k: Option<TokenKind>) -> Option<BinOp> {
    match k {
        Some(TokenKind::Plus) => Some(BinOp::Add),
        Some(TokenKind::Minus) => Some(BinOp::Sub),
        _ => None,
    }
}

/// The multiplicative operator of a token kind.
pub open spec fn multiplicative_op(k: Option<TokenKind>) -> Option<BinOp> {
    match k {
        Some(TokenKind::Star) => Some(BinOp::Mul),
        Some(TokenKind::Slash) => Some(BinOp::Div),
        _ => None,
    }
}

/// expr ::= term
pub open spec fn spec_expr(toks: Seq<Token>, p: int) -> Parsed<ExprView>
    decreases toks.len() - p, 6int,
{
    if p < 0 || p > toks.len() {
        Err(CompileError::UnexpectedEof)
    } else {
        spec_term(toks, p)
    }
}

/// term ::= factor { ('+' | '-') factor }, left-associative.
pub open spec fn spec_term(toks: Seq<Token>, p: int) -> Parsed<ExprView>
    decreases toks.len() - p, 5int,
{
    if p < 0 || p > toks.len() {
        Err(CompileError::UnexpectedEof)
    } else {
        match spec_factor(toks, p) {
            Ok((l, q)) => if q <= p || q > toks.len() {
                Err(CompileError::UnexpectedEof)
            } else {
                spec_term_rest(toks, q, l)
            },
            Err(e) => Err(e),
        }
    }
}

/// The `{ ('+' | '-') factor }` part of a term, after the operand `acc`.
pub open spec fn spec_term_rest(toks: Seq<Token>, p: int, acc: ExprView) -> Parsed<ExprView>
    decreases toks.len() - p, 4int,
{
    if p < 0 || p > toks.len() {
        Err(CompileError::UnexpectedEof)
    } else {
        match additive_op(kind_at(toks, p)) {
            Some(op) => match spec_factor(toks, p + 1) {
                Ok((r, q)) => if q <= p || q > toks.len() {
                    Err(CompileError::UnexpectedEof)
                } else {
                    spec_term_rest(
                        toks,
                        q,
                        ExprView::Binary { left: Box::new(acc), op, right: Box::new(r) },
                    )
                },
                Err(e) => Err(e),
            },
            None => Ok((acc, p)),
        }
    }
}

/// factor ::= primary { ('*' | '/') primary }, left-associative.
pub open spec fn spec_factor(toks: Seq<Token>, p: int) -> Parsed<ExprView>
    decreases toks.len() - p, 3int,
{
    if p < 0 || p > toks.len() {
        Err(CompileError::UnexpectedEof)
    } else {
        match spec_primary(toks, p) {
            Ok((l, q)) => if q <= p || q > toks.len() {
                Err(CompileError::UnexpectedEof)
            } else {
                spec_factor_rest(toks, q, l)
            },
            Err(e) => Err(e),
        }
    }
}

/// The `{ ('*' | '/') primary }` part of a factor, after the operand `acc`.
pub open spec fn spec_factor_rest(toks: Seq<Token>, p: int, acc: ExprView) -> Parsed<ExprView>
    decreases toks.len() - p, 2int,
{
    if p < 0 || p > toks.len() {
        Err(CompileError::UnexpectedEof)
    } else {
        match multiplicative_op(kind_at(toks, p)) {
            Some(op) => match spec_primary(toks, p + 1) {
                Ok((r, q)) => if q <= p || q > toks.len() {
                    Err(CompileError::UnexpectedEof)
                } else {
                    spec_factor_rest(
                        toks,
                        q,
                        ExprView::Binary { left: Box::new(acc), op, right: Box::new(r) },
                    )
                },
                Err(e) => Err(e),
            },
            None => Ok((acc, p)),
        }
    }
}

/// primary ::= int | 'true' | 'false' | ident | ident '(' [ expr { ',' expr } ] ')'
pub open spec fn spec_primary(toks: Seq<Token>, p: int) -> Parsed<ExprView>
    decreases toks.len() - p, 1int,
{
    if p < 0 || p > toks.len() {
        Err(CompileError::UnexpectedEof)
    } else {
        match kind_at(toks, p) {
            None => Err(CompileError::UnexpectedEof),
            Some(TokenKind::Int(v)) => Ok((ExprView::Int(v), p + 1)),
            Some(TokenKind::True) => Ok((ExprView::Bool(true), p + 1)),
            Some(TokenKind::False) => Ok((ExprView::Bool(false), p + 1)),
            Some(TokenKind::Ident) => if kind_at(toks, p + 1) == Some(TokenKind::LParen) {
                match spec_call_args(toks, p + 2) {
                    Ok((args, q)) => match expect_at(toks, q, TokenKind::RParen) {
                        Ok(q2) => Ok((ExprView::Call { func: toks[p].text@, args }, q2)),
                        Err(e) => Err(e),
                    },
                    Err(e) => Err(e),
                }
            } else {
                Ok((ExprView::Ident(toks[p].text@), p + 1))
            },
            Some(_) => Err(CompileError::UnexpectedToken),
        }
    }
}

/// The arguments of a call, after its `(`.
pub open spec fn spec_call_args(toks: Seq<Token>, p: int) -> Parsed<Seq<ExprView>>
    decreases toks.len() - p, 8int,
{
    if p < 0 || p > toks.len() {
        Err(CompileError::UnexpectedEof)
    } else if kind_at(toks, p) == Some(TokenKind::RParen) {
        Ok((Seq::empty(), p))
    } else {
        spec_arg_list(toks, p, Seq::empty())
    }
}

/// `expr { ',' expr }`, after the arguments `acc`.
pub open spec fn spec_arg_list(toks: Seq<Token>, p: int, acc: Seq<ExprView>) -> Parsed<Seq<ExprView>>
    decreases toks.len() - p, 7int,
{
    if p < 0 || p > toks.len() {
        Err(CompileError::UnexpectedEof)
    } else {
        match spec_expr(toks, p) {
            Ok((e, q)) => if q <= p || q > toks.len() {
                Err(CompileError::UnexpectedEof)
            } else if kind_at(toks, q) == Some(TokenKind::Comma) {
                spec_arg_list(toks, q + 1, acc.push(e))
            } else {
                Ok((acc.push(e), q))
            },
            Err(e) => Err(e),
        }
    }
}

/// stmt ::= 'return' expr ';'
pub open spec fn spec_stmt(toks: Seq<Token>, p: int) -> Parsed<StmtView> {
    if kind_at(toks, p) == Some(TokenKind::Return) {
        match spec_expr(toks, p + 1) {
            Ok((e, q)) => match expect_at(toks, q, TokenKind::Semi) {
                Ok(q2) => Ok((StmtView::Return(e), q2)),
                Err(err) => Err(err),
            },
            Err(err) => Err(err),
        }
    } else {
        Err(CompileError::UnsupportedStatement)
    }
}

/// `ident ':' type { ',' ident ':' type }`, after the parameters `acc`.
pub open spec fn spec_params(toks: Seq<Token>, p: int, acc: Seq<ParamView>) -> Parsed<Seq<ParamView>>
    decreases toks.len() - p,
{
    if p < 0 || p > toks.len() {
        Err(CompileError::UnexpectedEof)
    } else {
        match ident_at(toks, p) {
            Ok((name, p1)) => match expect_at(toks, p1, TokenKind::Colon) {
                Ok(p2) => match type_at(toks, p2) {
                    Ok((ty, p3)) => {
                        let acc2 = acc.push(ParamView { name, ty });
                        if kind_at(toks, p3) == Some(TokenKind::Comma) {
                            spec_params(toks, p3 + 1, acc2)
                        } else {
                            Ok((acc2, p3))
                        }
                    },
                    Err(e) => Err(e),
                },
                Err(e) => Err(e),
            },
            Err(e) => Err(e),
        }
    }
}

/// `{ stmt }` up to a `}`, after the statements `acc`.
pub open spec fn spec_body(toks: Seq<Token>, p: int, acc: Seq<StmtView>) -> Parsed<Seq<StmtView>>
    decreases toks.len() - p,
{
    if p < 0 || p > toks.len() {
        Err(CompileError::UnexpectedEof)
    } else if kind_at(toks, p) == Some(TokenKind::RBrace) {
        Ok((acc, p))
    } else {
        match spec_stmt(toks, p) {
            Ok((s, q)) => if q <= p || q > toks.len() {
                Err(CompileError::UnexpectedEof)
            } else {
                spec_body(toks, q, acc.push(s))
            },
            Err(e) => Err(e),
        }
    }
}

/// function ::= 'function' ident '(' [ params ] ')' '->' type '{' { stmt } '}'
pub open spec fn spec_function(toks: Seq<Token>, p: int) -> Parsed<FunctionView> {
    match expect_at(toks, p, TokenKind::Function) {
        Err(e) => Err(e),
        Ok(p1) => match ident_at(toks, p1) {
            Err(e) => Err(e),
            Ok((name, p2)) => match expect_at(toks, p2, TokenKind::LParen) {
                Err(e) => Err(e),
                Ok(p3) => match (if kind_at(toks, p3) != Some(TokenKind::RParen) {
                    spec_params(toks, p3, Seq::empty())
                } else {
                    Ok((Seq::empty(), p3))
                }) {
                    Err(e) => Err(e),
                    Ok((params, p4)) => match expect_at(toks, p4, TokenKind::RParen) {
                        Err(e) => Err(e),
                        Ok(p5) => match expect_at(toks, p5, TokenKind::Arrow) {
                            Err(e) => Err(e),
                            Ok(p6) => match type_at(toks, p6) {
                                Err(e) => Err(e),
                                Ok((ret_type, p7)) => match expect_at(toks, p7, TokenKind::LBrace) {
                                    Err(e) => Err(e),
                                    Ok(p8) => match spec_body(toks, p8, Seq::empty()) {
                                        Err(e) => Err(e),
                                        Ok((body, p9)) => match expect_at(toks, p9, TokenKind::RBrace) {
                                            Err(e) => Err(e),
                                            Ok(p10) => Ok(
                                                (FunctionView { name, params, ret_type, body }, p10),
                                            ),
                                        },
                                    },
                                },
                            },
                        },
                    },
                },
            },
        },
    }
}

/// program ::= { function }, after the items `acc`.
pub open spec fn spec_program(toks: Seq<Token>, p: int, acc: Seq<ItemView>) -> Result<Seq<ItemView>, CompileError>
    decreases toks.len() - p,
{
    if p < 0 || p >= toks.len() {
        Ok(acc)
    } else {
        match spec_function(toks, p) {
            Ok((f, q)) => if q <= p || q > toks.len() {
                Err(CompileError::UnexpectedEof)
            } else {
                spec_program(toks, q, acc.push(ItemView::Function(f)))
            },
            Err(e) => Err(e),
        }
    }
}

/// What `parse` gives for a token list.
pub open spec fn spec_parse(toks: Seq<Token>) -> Result<Seq<ItemView>, CompileError> {
    spec_program(toks, 0, Seq::empty())
}

/// The value of a program.
pub open spec fn program_view(p: Seq<Item>) -> Seq<ItemView> {
    p.map_values(|i: Item| i@)
}

/// A parse outcome in exec matches the spec outcome at the start position.
pub open spec fn outcome_is<T: View>(r: Result<T, CompileError>, spec: Parsed<T::V>, end: int) -> bool {
    match r {
        Ok(v) => spec == Ok::<(T::V, int), CompileError>((v@, end)),
        Err(e) => spec == Err::<(T::V, int), CompileError>(e),
    }
}

/// Parses a token list into a program of functions.
pub fn parse(tokens: Vec<Token>) -> (r: Result<Program, CompileError>)
    ensures
        match r {
            Ok(prog) => spec_parse(tokens@) == Ok::<Seq<ItemView>, CompileError>(program_view(prog@)),
            Err(e) => spec_parse(tokens@) == Err::<Seq<ItemView>, CompileError>(e),
        },
{
    let mut p = Parser { tokens, pos: 0 };
    p.parse_program()
}

struct Parser {
    tokens: Vec<Token>,
    pos: usize,
}

impl Parser {
    spec fn wf(&self) -> bool {
        self.pos <= self.tokens@.len()
    }

    fn peek(&self) -> (r: Option<&Token>)
        ensures
            r == (if self.pos < self.tokens@.len() { Some(&self.tokens@[self.pos as int]) } else { None::<&Token> }),
    {
        if self.pos < self.tokens.len() {
            Some(&self.tokens[self.pos])
        } else {
            None
        }
    }

    fn bump(&mut self) -> (r: Option<Token>)
        requires
            old(self).wf(),
        ensures
            final(self).wf(),
            final(self).tokens@ == old(self).tokens@,
            old(self).pos <= final(self).pos,
            old(self).pos >= old(self).tokens@.len() ==> r is None && final(self).pos == old(self).pos,
            old(self).pos < old(self).tokens@.len() ==> r == Some(old(self).tokens@[old(self).pos as int])
                && final(self).pos == old(self).pos + 1,
    {
        if self.pos >= self.tokens.len() {
            None
        } else {
            let t = self.tokens[self.pos].clone();
            self.pos += 1;
            Some(t)
        }
    }

    fn peek_kind(&self) -> (r: Option<TokenKind>)
        ensures
            r == kind_at(self.tokens@, self.pos as int),
    {
        match self.peek() {
            Some(t) => Some(t.kind),
            None => None,
        }
    }

    fn expect_keyword(&mut self, expected: TokenKind) -> (r: Result<(), CompileError>)
        requires
            old(self).wf(),
        ensures
            final(self).wf(),
            final(self).tokens@ == old(self).tokens@,
            old(self).pos <= final(self).pos,
            match r {
                Ok(()) => expect_at(old(self).tokens@, old(self).pos as int, expected) == Ok::<int, CompileError>(final(self).pos as int),
                Err(e) => expect_at(old(self).tokens@, old(self).pos as int, expected) == Err::<int, CompileError>(e),
            },
    {
        match self.bump() {
            Some(tok) => if tok.kind == expected {
                Ok(())
            } else {
                Err(CompileError::Expected(expected))
            },
            None => Err(CompileError::Expected(expected)),
        }
    }

    fn parse_program(&mut self) -> (r: Result<Program, CompileError>)
        requires
            old(self).wf(),
        ensures
            match r {
                Ok(prog) => spec_program(old(self).tokens@, old(self).pos as int, Seq::empty())
                    == Ok::<Seq<ItemView>, CompileError>(program_view(prog@)),
                Err(e) => spec_program(old(self).tokens@, old(self).pos as int, Seq::empty())
                    == Err::<Seq<ItemView>, CompileError>(e),
            },
    {
        let ghost toks = self.tokens@;
        let ghost p0 = self.pos as int;
        let mut items: Vec<Item> = Vec::new();
        assert(program_view(items@) =~= Seq::<ItemView>::empty());
        while self.peek().is_some()
            invariant
                self.wf(),
                self.tokens@ == toks,
                toks == old(self).tokens@,
                p0 == old(self).pos,
                spec_program(toks, p0, Seq::empty()) == spec_program(toks, self.pos as int, program_view(items@)),
            decreases toks.len() - self.pos,
        {
            let ghost before = self.pos as int;
            let f = self.parse_function()?;
            let ghost acc = program_view(items@);
            items.push(Item::Function(f));
            assert(program_view(items@) =~= acc.push(ItemView::Function(f@)));
        }
        Ok(items)
    }

    fn parse_function(&mut self) -> (r: Result<Function, CompileError>)
        requires
            old(self).wf(),
        ensures
            final(self).wf(),
            final(self).tokens@ == old(self).tokens@,
            old(self).pos <= final(self).pos,
            outcome_is(r, spec_function(old(self).tokens@, old(self).pos as int), final(self).pos as int),
            r is Ok ==> old(self).pos < final(self).pos,
    {
        self.expect_keyword(TokenKind::Function)?;
        let name = self.expect_ident()?;
        self.expect_keyword(TokenKind::LParen)?;
        let params = self.parse_params()?;
        self.expect_keyword(TokenKind::RParen)?;
        self.expect_keyword(TokenKind::Arrow)?;
        let ret_type = self.parse_type()?;
        self.expect_keyword(TokenKind::LBrace)?;
        let body = self.parse_body()?;
        self.expect_keyword(TokenKind::RBrace)?;
        Ok(Function { name, params, ret_type, body })
    }

    /// The parameter list of a function, after its `(`.
    fn parse_params(&mut self) -> (r: Result<Vec<Param>, CompileError>)
        requires
            old(self).wf(),
        ensures
            final(self).wf(),
            final(self).tokens@ == old(self).tokens@,
            old(self).pos <= final(self).pos,
            ({
                let spec = if kind_at(old(self).tokens@, old(self).pos as int) != Some(TokenKind::RParen) {
                    spec_params(old(self).tokens@, old(self).pos as int, Seq::empty())
                } else {
                    Ok((Seq::empty(), old(self).pos as int))
                };
                match r {
                    Ok(ps) => spec == Ok::<(Seq<ParamView>, int), CompileError>((ps@.map_values(|q: Param| q@), final(self).pos as int)),
                    Err(e) => spec == Err::<(Seq<ParamView>, int), CompileError>(e),
                }
            }),
    {
        let ghost toks = self.tokens@;
        let ghost p3 = self.pos as int;
        let mut params: Vec<Param> = Vec::new();
        assert(params@.map_values(|q: Param| q@) =~= Seq::<ParamView>::empty());
        if self.peek_kind() != Some(TokenKind::RParen) {
            loop
                invariant_except_break
                    self.wf(),
                    self.tokens@ == toks,
                    toks == old(self).tokens@,
                    p3 == old(self).pos,
                    p3 <= self.pos,
                    kind_at(toks, p3) != Some(TokenKind::RParen),
                    spec_params(toks, p3, Seq::empty()) == spec_params(toks, self.pos as int, params@.map_values(|q: Param| q@)),
                ensures
                    self.wf(),
                    self.tokens@ == toks,
                    p3 <= self.pos,
                    spec_params(toks, p3, Seq::empty()) == Ok::<(Seq<ParamView>, int), CompileError>((params@.map_values(|q: Param| q@), self.pos as int)),
                decreases toks.len() - self.pos,
            {
                let ghost acc = params@.map_values(|q: Param| q@);
                let param_name = self.expect_ident()?;
                self.expect_keyword(TokenKind::Colon)?;
                let ty = self.parse_type()?;
                params.push(Param { name: param_name, ty });
                assert(params@.map_values(|q: Param| q@) =~= acc.push(ParamView { name: param_name@, ty }));
                if self.peek_kind() == Some(TokenKind::Comma) {
                    self.bump();
                } else {
                    break;
                }
            }
        }
        Ok(params)
    }

    /// The statements of a function body, up to its `}`.
    fn parse_body(&mut self) -> (r: Result<Vec<Stmt>, CompileError>)
        requires
            old(self).wf(),
        ensures
            final(self).wf(),
            final(self).tokens@ == old(self).tokens@,
            old(self).pos <= final(self).pos,
            match r {
                Ok(b) => spec_body(old(self).tokens@, old(self).pos as int, Seq::empty())
                    == Ok::<(Seq<StmtView>, int), CompileError>((b@.map_values(|q: Stmt| q@), final(self).pos as int)),
                Err(e) => spec_body(old(self).tokens@, old(self).pos as int, Seq::empty())
                    == Err::<(Seq<StmtView>, int), CompileError>(e),
            },
    {
        let ghost toks = self.tokens@;
        let ghost p8 = self.pos as int;
        let mut body: Vec<Stmt> = Vec::new();
        assert(body@.map_values(|q: Stmt| q@) =~= Seq::<StmtView>::empty());
        while self.peek_kind() != Some(TokenKind::RBrace)
            invariant
                self.wf(),
                self.tokens@ == toks,
                toks == old(self).tokens@,
                p8 == old(self).pos,
                p8 <= self.pos,
                spec_body(toks, p8, Seq::empty()) == spec_body(toks, self.pos as int, body@.map_values(|q: Stmt| q@)),
            decreases toks.len() - self.pos,
        {
            let ghost acc = body@.map_values(|q: Stmt| q@);
            let st = self.parse_stmt()?;
            body.push(st);
            assert(body@.map_values(|q: Stmt| q@) =~= acc.push(st@));
        }
        Ok(body)
    }

    fn parse_type(&mut self) -> (r: Result<Type, CompileError>)
        requires
            old(self).wf(),
        ensures
            final(self).wf(),
            final(self).tokens@ == old(self).tokens@,
            old(self).pos <= final(self).pos,
            match r {
                Ok(t) => type_at(old(self).tokens@, old(self).pos as int) == Ok::<(Type, int), CompileError>((t, final(self).pos as int)),
                Err(e) => type_at(old(self).tokens@, old(self).pos as int) == Err::<(Type, int), CompileError>(e),
            },
    {
        match self.bump() {
            Some(tok) => if tok.kind == TokenKind::Ident {
                Ok(Type::I32)
            } else {
                Err(CompileError::UnknownType)
            },
            None => Err(CompileError::UnknownType),
        }
    }

    fn parse_stmt(&mut self) -> (r: Result<Stmt, CompileError>)
        requires
            old(self).wf(),
        ensures
            final(self).wf(),
            final(self).tokens@ == old(self).tokens@,
            old(self).pos <= final(self).pos,
            outcome_is(r, spec_stmt(old(self).tokens@, old(self).pos as int), final(self).pos as int),
            r is Ok ==> old(self).pos < final(self).pos,
    {
        match self.peek_kind() {
            Some(TokenKind::Return) => {
                self.bump();
                let expr = self.parse_expr()?;
                self.expect_keyword(TokenKind::Semi)?;
                Ok(Stmt::Return(expr))
            },
            _ => Err(CompileError::UnsupportedStatement),
        }
    }

    fn parse_expr(&mut self) -> (r: Result<Expr, CompileError>)
        requires
            old(self).wf(),
        ensures
            final(self).wf(),
            final(self).tokens@ == old(self).tokens@,
            old(self).pos <= final(self).pos,
            outcome_is(r, spec_expr(old(self).tokens@, old(self).pos as int), final(self).pos as int),
            r is Ok ==> old(self).pos < final(self).pos,
        decreases old(self).tokens@.len() - old(self).pos, 6int,
    {
        self.parse_term()
    }

    fn parse_term(&mut self) -> (r: Result<Expr, CompileError>)
        requires
            old(self).wf(),
        ensures
            final(self).wf(),
            final(self).tokens@ == old(self).tokens@,
            old(self).pos <= final(self).pos,
            outcome_is(r, spec_term(old(self).tokens@, old(self).pos as int), final(self).pos as int),
            r is Ok ==> old(self).pos < final(self).pos,
        decreases old(self).tokens@.len() - old(self).pos, 5int,
    {
        let ghost toks = self.tokens@;
        let ghost p0 = self.pos as int;
        let mut node = self.parse_factor()?;
        loop
            invariant_except_break
                self.wf(),
                self.tokens@ == toks,
                toks == old(self).tokens@,
                p0 == old(self).pos,
                p0 < self.pos,
                spec_term(toks, p0) == spec_term_rest(toks, self.pos as int, node@),
            ensures
                self.wf(),
                self.tokens@ == toks,
                toks == old(self).tokens@,
                p0 == old(self).pos,
                p0 < self.pos,
                spec_term(toks, p0) == Ok::<(ExprView, int), CompileError>((node@, self.pos as int)),
            decreases toks.len() - self.pos,
        {
            let op = match self.peek_kind() {
                Some(TokenKind::Plus) => BinOp::Add,
                Some(TokenKind::Minus) => BinOp::Sub,
                _ => break,
            };
            self.bump();
            let rhs = self.parse_factor()?;
            node = Expr::Binary { left: Box::new(node), op, right: Box::new(rhs) };
        }
        Ok(node)
    }

    fn parse_factor(&mut self) -> (r: Result<Expr, CompileError>)
        requires
            old(self).wf(),
        ensures
            final(self).wf(),
            final(self).tokens@ == old(self).tokens@,
            old(self).pos <= final(self).pos,
            outcome_is(r, spec_factor(old(self).tokens@, old(self).pos as int), final(self).pos as int),
            r is Ok ==> old(self).pos < final(self).pos,
        decreases old(self).tokens@.len() - old(self).pos, 3int,
    {
        let ghost toks = self.tokens@;
        let ghost p0 = self.pos as int;
        let mut node = self.parse_primary()?;
        loop
            invariant_except_break
                self.wf(),
                self.tokens@ == toks,
                toks == old(self).tokens@,
                p0 == old(self).pos,
                p0 < self.pos,
                spec_factor(toks, p0) == spec_factor_rest(toks, self.pos as int, node@),
            ensures
                self.wf(),
                self.tokens@ == toks,
                toks == old(self).tokens@,
                p0 == old(self).pos,
                p0 < self.pos,
                spec_factor(toks, p0) == Ok::<(ExprView, int), CompileError>((node@, self.pos as int)),
            decreases toks.len() - self.pos,
        {
            let op = match self.peek_kind() {
                Some(TokenKind::Star) => BinOp::Mul,
                Some(TokenKind::Slash) => BinOp::Div,
                _ => break,
            };
            self.bump();
            let rhs = self.parse_primary()?;
            node = Expr::Binary { left: Box::new(node), op, right: Box::new(rhs) };
        }
        Ok(node)
    }

    fn parse_primary(&mut self) -> (r: Result<Expr, CompileError>)
        requires
            old(self).wf(),
        ensures
            final(self).wf(),
            final(self).tokens@ == old(self).tokens@,
            old(self).pos <= final(self).pos,
            outcome_is(r, spec_primary(old(self).tokens@, old(self).pos as int), final(self).pos as int),
            r is Ok ==> old(self).pos < final(self).pos,
        decreases old(self).tokens@.len() - old(self).pos, 1int,
    {
        let ghost toks = self.tokens@;
        let ghost p0 = self.pos as int;
        match self.bump() {
            Some(tok) => match tok.kind {
                TokenKind::Int(val) => Ok(Expr::Int(val)),
                TokenKind::Ident => {
                    let ident_name = tok.text;
                    if self.peek_kind() == Some(TokenKind::LParen) {
                        self.expect_keyword(TokenKind::LParen)?;
                        let ghost pa = self.pos as int;
                        let mut args: Vec<Expr> = Vec::new();
                        if self.peek_kind() != Some(TokenKind::RParen) {
                            loop
                                invariant_except_break
                                    self.wf(),
                                    self.tokens@ == toks,
                                    toks == old(self).tokens@,
                                    p0 == old(self).pos,
                                    p0 < self.pos,
                                    pa == p0 + 2,
                                    kind_at(toks, p0) == Some(TokenKind::Ident),
                                    kind_at(toks, p0 + 1) == Some(TokenKind::LParen),
                                    pa <= self.pos,
                                    spec_call_args(toks, pa) == spec_arg_list(toks, self.pos as int, exprs_view(args@)),
                                ensures
                                    self.wf(),
                                    self.tokens@ == toks,
                                    pa <= self.pos,
                                    spec_call_args(toks, pa) == Ok::<(Seq<ExprView>, int), CompileError>((exprs_view(args@), self.pos as int)),
                                decreases toks.len() - self.pos,
                            {
                                let ghost acc = args@;
                                let e = self.parse_expr()?;
                                args.push(e);
                                assert(args@.drop_last() =~= acc);
                                if self.peek_kind() == Some(TokenKind::Comma) {
                                    self.bump();
                                } else {
                                    break;
                                }
                            }
                        } else {
                            assert(exprs_view(args@) =~= Seq::<ExprView>::empty());
                        }
                        self.expect_keyword(TokenKind::RParen)?;
                        Ok(Expr::Call { func: ident_name, args })
                    } else {
                        Ok(Expr::Ident(ident_name))
                    }
                },
                TokenKind::True => Ok(Expr::Bool(true)),
                TokenKind::False => Ok(Expr::Bool(false)),
                _ => Err(CompileError::UnexpectedToken),
            },
            None => Err(CompileError::UnexpectedEof),
        }
    }

    fn expect_ident(&mut self) -> (r: Result<String, CompileError>)
        requires
            old(self).wf(),
        ensures
            final(self).wf(),
            final(self).tokens@ == old(self).tokens@,
            old(self).pos <= final(self).pos,
            match r {
                Ok(s) => ident_at(old(self).tokens@, old(self).pos as int) == Ok::<(Seq<char>, int), CompileError>((s@, final(self).pos as int)),
                Err(e) => ident_at(old(self).tokens@, old(self).pos as int) == Err::<(Seq<char>, int), CompileError>(e),
            },
    {
        match self.bump() {
            Some(tok) => if tok.kind == TokenKind::Ident {
                Ok(tok.text)
            } else {
                Err(CompileError::ExpectedIdentifier)
            },
            None => Err(CompileError::ExpectedIdentifier),
        }
    }

    #[allow(dead_code)]
    fn prev_ident(&self) -> (r: Result<String, CompileError>)
        requires
            self.wf(),
        ensures
            self.pos == 0 ==> r == Err::<String, CompileError>(CompileError::NoPreviousToken),
            self.pos > 0 && self.tokens@[self.pos - 1].kind == TokenKind::Ident ==> r == Ok::<String, CompileError>(self.tokens@[self.pos - 1].text),
            self.pos > 0 && self.tokens@[self.pos - 1].kind != TokenKind::Ident ==> r == Err::<String, CompileError>(CompileError::PreviousNotIdentifier),
    {
        if self.pos == 0 {
            return Err(CompileError::NoPreviousToken);
        }
        let tok = &self.tokens[self.pos - 1];
        if tok.kind == TokenKind::Ident {
            Ok(tok.text.clone())
        } else {
            Err(CompileError::PreviousNotIdentifier)
        }
    }
}

} // verus!

verus! {

use super::lowering::{expr_nodes, fits_value_ids, stmts_nodes};

proof fn lemma_arg_list_advances(toks: Seq<Token>, p: int, acc: Seq<ExprView>)
    ensures
        spec_arg_list(toks, p, acc) matches Ok((_, q)) ==> p < q,
    decreases toks.len() - p,
{
    if 0 <= p <= toks.len() {
        if let Ok((e, q)) = spec_expr(toks, p) {
            if q > p && q <= toks.len() && kind_at(toks, q) == Some(TokenKind::Comma) {
                lemma_arg_list_advances(toks, q + 1, acc.push(e));
            }
        }
    }
}

proof fn lemma_primary_nodes(toks: Seq<Token>, p: int)
    ensures
        spec_primary(toks, p) matches Ok((e, q)) ==> expr_nodes(e) <= q - p,
{
    if 0 <= p <= toks.len() && kind_at(toks, p) == Some(TokenKind::Ident)
        && kind_at(toks, p + 1) == Some(TokenKind::LParen) {
        if kind_at(toks, p + 2) != Some(TokenKind::RParen) {
            lemma_arg_list_advances(toks, p + 2, Seq::empty());
        }
    }
}

proof fn lemma_factor_rest_nodes(toks: Seq<Token>, p: int, acc: ExprView)
    ensures
        spec_factor_rest(toks, p, acc) matches Ok((e, q)) ==> expr_nodes(e) <= expr_nodes(acc) + q - p,
    decreases toks.len() - p,
{
    if 0 <= p <= toks.len() {
        if let Some(op) = multiplicative_op(kind_at(toks, p)) {
            lemma_primary_nodes(toks, p + 1);
            if let Ok((r, q)) = spec_primary(toks, p + 1) {
                if q > p && q <= toks.len() {
                    lemma_factor_rest_nodes(toks, q, ExprView::Binary { left: Box::new(acc), op, right: Box::new(r) });
                }
            }
        }
    }
}

proof fn lemma_factor_nodes(toks: Seq<Token>, p: int)
    ensures
        spec_factor(toks, p) matches Ok((e, q)) ==> expr_nodes(e) <= q - p,
{
    lemma_primary_nodes(toks, p);
    if let Ok((l, q)) = spec_primary(toks, p) {
        lemma_factor_rest_nodes(toks, q, l);
    }
}

proof fn lemma_term_rest_nodes(toks: Seq<Token>, p: int, acc: ExprView)
    ensures
        spec_term_rest(toks, p, acc) matches Ok((e, q)) ==> expr_nodes(e) <= expr_nodes(acc) + q - p,
    decreases toks.len() - p,
{
    if 0 <= p <= toks.len() {
        if let Some(op) = additive_op(kind_at(toks, p)) {
            lemma_factor_nodes(toks, p + 1);
            if let Ok((r, q)) = spec_factor(toks, p + 1) {
                if q > p && q <= toks.len() {
                    lemma_term_rest_nodes(toks, q, ExprView::Binary { left: Box::new(acc), op, right: Box::new(r) });
                }
            }
        }
    }
}

proof fn lemma_expr_nodes(toks: Seq<Token>, p: int)
    ensures
        spec_expr(toks, p) matches Ok((e, q)) ==> expr_nodes(e) <= q - p,
{
    lemma_factor_nodes(toks, p);
    if let Ok((l, q)) = spec_factor(toks, p) {
        lemma_term_rest_nodes(toks, q, l);
    }
}

proof fn lemma_stmts_nodes_push(s: Seq<StmtView>, x: StmtView, i: int)
    requires
        0 <= i <= s.len(),
    ensures
        stmts_nodes(s.push(x), i) == stmts_nodes(s, i) + match x {
            StmtView::Let { value, .. } => expr_nodes(value),
            StmtView::Return(e) => expr_nodes(e),
        },
    decreases s.len() - i,
{
    if i < s.len() {
        assert(s.push(x)[i] == s[i]);
        lemma_stmts_nodes_push(s, x, i + 1);
    } else {
        assert(s.push(x)[i] == x);
        assert(stmts_nodes(s.push(x), i + 1) == 0);
    }
}

proof fn lemma_body_nodes(toks: Seq<Token>, p: int, acc: Seq<StmtView>)
    ensures
        spec_body(toks, p, acc) matches Ok((b, q)) ==> stmts_nodes(b, 0) <= stmts_nodes(acc, 0) + q - p,
    decreases toks.len() - p,
{
    if 0 <= p <= toks.len() && kind_at(toks, p) != Some(TokenKind::RBrace) {
        if let Ok((s, q)) = spec_stmt(toks, p) {
            if q > p && q <= toks.len() {
                lemma_expr_nodes(toks, p + 1);
                lemma_stmts_nodes_push(acc, s, 0);
                lemma_body_nodes(toks, q, acc.push(s));
            }
        }
    }
}

proof fn lemma_program_fits(toks: Seq<Token>, p: int, acc: Seq<ItemView>)
    requires
        toks.len() <= usize::MAX,
        fits_value_ids(acc),
    ensures
        spec_program(toks, p, acc) matches Ok(items) ==> fits_value_ids(items),
    decreases toks.len() - p,
{
    if 0 <= p < toks.len() {
        if let Ok((f, q)) = spec_function(toks, p) {
            if q > p && q <= toks.len() {
                // the body lies strictly inside the function's tokens, after `function`
                let p1 = p + 1;
                let p3 = p1 + 2;
                let p4 = if kind_at(toks, p3) != Some(TokenKind::RParen) {
                    spec_params(toks, p3, Seq::empty()).unwrap().1
                } else {
                    p3
                };
                lemma_params_advance(toks, p3, Seq::empty());
                let p8 = p4 + 4;
                lemma_body_nodes(toks, p8, Seq::empty());
                lemma_body_within(toks, p8, Seq::empty());
                assert(stmts_nodes(Seq::<StmtView>::empty(), 0) == 0);
                assert(stmts_nodes(f.body, 0) < usize::MAX);
                let items2 = acc.push(ItemView::Function(f));
                assert forall|i: int| 0 <= i < items2.len() implies match #[trigger] items2[i] {
                    ItemView::Function(g) => stmts_nodes(g.body, 0) < usize::MAX,
                } by {
                    if i < acc.len() {
                        assert(items2[i] == acc[i]);
                    }
                }
                lemma_program_fits(toks, q, items2);
            }
        }
    }
}

proof fn lemma_params_advance(toks: Seq<Token>, p: int, acc: Seq<ParamView>)
    ensures
        spec_params(toks, p, acc) matches Ok((_, q)) ==> p < q,
    decreases toks.len() - p,
{
    if 0 <= p <= toks.len() {
        if let Ok((name, p1)) = ident_at(toks, p) {
            if let Ok(p2) = expect_at(toks, p1, TokenKind::Colon) {
                if let Ok((ty, p3)) = type_at(toks, p2) {
                    if kind_at(toks, p3) == Some(TokenKind::Comma) {
                        lemma_params_advance(toks, p3 + 1, acc.push(ParamView { name, ty }));
                    }
                }
            }
        }
    }
}

proof fn lemma_body_within(toks: Seq<Token>, p: int, acc: Seq<StmtView>)
    ensures
        spec_body(toks, p, acc) matches Ok((_, q)) ==> p <= q <= toks.len(),
    decreases toks.len() - p,
{
    if 0 <= p <= toks.len() && kind_at(toks, p) != Some(TokenKind::RBrace) {
        if let Ok((s, q)) = spec_stmt(toks, p) {
            if q > p && q <= toks.len() {
                lemma_body_within(toks, q, acc.push(s));
            }
        }
    }
}

/// Every program that `parse` accepts has fewer expression nodes per function than there
/// are `usize` values, so its lowering never runs out of value numbers.
pub proof fn lemma_parsed_fits_value_ids(toks: Seq<Token>)
    requires
        toks.len() <= usize::MAX,
    ensures
        spec_parse(toks) matches Ok(items) ==> fits_value_ids(items),
{
    assert(fits_value_ids(Seq::<ItemView>::empty()));
    lemma_program_fits(toks, 0, Seq::empty());
}

} // verus!
