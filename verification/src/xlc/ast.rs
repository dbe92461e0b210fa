//! Syntax tree of the XL compiler `xlc`.

use vstd::prelude::*;

use super::lexer::Spanned;
use super::token::{Token, TokenView};

verus! {

#[derive(Debug, Clone)]
pub struct Program {
    pub functions: Vec<Function>,
}

#[derive(Debug, Clone)]
pub struct Function {
    pub name: String,
    pub params: Vec<Param>,
    pub return_type: Type,
    pub body: Block,
}

#[derive(Debug, Clone)]
pub struct Param {
    pub name: String,
    pub ty: Type,
}

#[derive(Debug, Clone)]
pub struct Block {
    pub stmts: Vec<Stmt>,
}

#[derive(Debug, Clone)]
pub enum Stmt {
    Let { name: String, ty: Option<Type>, value: Expr },
    Return(Expr),
    Expr(Expr),
}

#[derive(Debug)]
pub enum Expr {
    Int(i64),
    Bool(bool),
    String(String),
    Ident(String),
    Match { value: Box<Expr>, arms: Vec<(Pattern, Expr)> },
    Binary { op: BinaryOp, left: Box<Expr>, right: Box<Expr> },
    Call { callee: String, args: Vec<Expr> },
}

#[derive(Debug, Clone, Copy, PartialEq, Eq, Structural)]
pub enum BinaryOp {
    Add,
    Sub,
    Mul,
    Div,
}

#[derive(Debug, Clone, Copy, PartialEq, Eq, Structural)]
pub enum Type {
    Int,
    Bool,
    String,
    Void,
}

impl Type {
    /// The type that a type keyword names.
    pub fn from_keyword(tok: &Token) -> (r: Option<Self>)
        ensures
            r == type_of_keyword(tok@),
    {
        match tok {
            Token::IntType => Some(Type::Int),
            Token::BoolType => Some(Type::Bool),
            Token::StringType => Some(Type::String),
            _ => None,
        }
    }
}

/// The type named by a type keyword token.
pub open spec fn type_of_keyword(t: TokenView) -> Option<Type> {
    match t {
        TokenView::IntType => Some(Type::Int),
        TokenView::BoolType => Some(Type::Bool),
        TokenView::StringType => Some(Type::String),
        _ => None,
    }
}

#[derive(Debug)]
pub enum Pattern {
    /// `_` matches anything
    Wildcard,
    /// `$name` captures any expression under a name
    Capture(String),
    Int(i64),
    Bool(bool),
    String(String),
    /// Exactly this identifier
    Ident(String),
    /// A binary expression, with any operator when `op` is `None`
    Binary { op: Option<BinaryOp>, left: Box<Pattern>, right: Box<Pattern> },
    /// A call, to any function when `callee` is `None`
    Call { callee: Option<String>, args: Vec<Pattern> },
}

/// A rewrite rule: expressions matching `pattern`, when `guard` holds, become
/// `replacement` with the captures substituted.
#[derive(Debug)]
pub struct RewriteRule {
    pub pattern: Pattern,
    pub guard: Option<Expr>,
    pub replacement: Expr,
}

pub type SpannedToken = Spanned<Token>;

// ---------------------------------------------------------------------------
// Mathematical values of the tree

pub enum ExprView {
    Int(i64),
    Bool(bool),
    String(Seq<char>),
    Ident(Seq<char>),
    Match { value: Box<ExprView>, arms: Seq<(PatternView, ExprView)> },
    Binary { op: BinaryOp, left: Box<ExprView>, right: Box<ExprView> },
    Call { callee: Seq<char>, args: Seq<ExprView> },
}

pub enum PatternView {
    Wildcard,
    Capture(Seq<char>),
    Int(i64),
    Bool(bool),
    String(Seq<char>),
    Ident(Seq<char>),
    Binary { op: Option<BinaryOp>, left: Box<PatternView>, right: Box<PatternView> },
    Call { callee: Option<Seq<char>>, args: Seq<PatternView> },
}

pub enum StmtView {
    Let { name: Seq<char>, ty: Option<Type>, value: ExprView },
    Return(ExprView),
    Expr(ExprView),
}

pub struct ParamView {
    pub name: Seq<char>,
    pub ty: Type,
}

pub struct FunctionView {
    pub name: Seq<char>,
    pub params: Seq<ParamView>,
    pub return_type: Type,
    pub body: Seq<StmtView>,
}

pub struct RewriteRuleView {
    pub pattern: PatternView,
    pub guard: Option<ExprView>,
    pub replacement: ExprView,
}

pub open spec fn pattern_view(p: Pattern) -> PatternView
    decreases p,
{
    match p {
        Pattern::Wildcard => PatternView::Wildcard,
        Pattern::Capture(n) => PatternView::Capture(n@),
        Pattern::Int(v) => PatternView::Int(v),
        Pattern::Bool(b) => PatternView::Bool(b),
        Pattern::String(s) => PatternView::String(s@),
        Pattern::Ident(s) => PatternView::Ident(s@),
        Pattern::Binary { op, left, right } => PatternView::Binary {
            op,
            left: Box::new(pattern_view(*left)),
            right: Box::new(pattern_view(*right)),
        },
        Pattern::Call { callee, args } => PatternView::Call {
            callee: match callee {
                Some(c) => Some(c@),
                None => None,
            },
            args: patterns_view(args@),
        },
    }
}

pub open spec fn patterns_view(ps: Seq<Pattern>) -> Seq<PatternView>
    decreases ps,
{
    if ps.len() == 0 {
        Seq::empty()
    } else {
        patterns_view(ps.drop_last()).push(pattern_view(ps.last()))
    }
}

pub open spec fn expr_view(e: Expr) -> ExprView
    decreases e,
{
    match e {
        Expr::Int(v) => ExprView::Int(v),
        Expr::Bool(b) => ExprView::Bool(b),
        Expr::String(s) => ExprView::String(s@),
        Expr::Ident(s) => ExprView::Ident(s@),
        Expr::Match { value, arms } => ExprView::Match { value: Box::new(expr_view(*value)), arms: arms_view(arms@) },
        Expr::Binary { op, left, right } => ExprView::Binary {
            op,
            left: Box::new(expr_view(*left)),
            right: Box::new(expr_view(*right)),
        },
        Expr::Call { callee, args } => ExprView::Call { callee: callee@, args: exprs_view(args@) },
    }
}

pub open spec fn exprs_view(es: Seq<Expr>) -> Seq<ExprView>
    decreases es,
{
    if es.len() == 0 {
        Seq::empty()
    } else {
        exprs_view(es.drop_last()).push(expr_view(es.last()))
    }
}

pub open spec fn arms_view(arms: Seq<(Pattern, Expr)>) -> Seq<(PatternView, ExprView)>
    decreases arms,
{
    if arms.len() == 0 {
        Seq::empty()
    } else {
        arms_view(arms.drop_last()).push((pattern_view(arms.last().0), expr_view(arms.last().1)))
    }
}

impl View for Expr {
    type V = ExprView;

    open spec fn view(&self) -> ExprView {
        expr_view(*self)
    }
}

impl View for Pattern {
    type V = PatternView;

    open spec fn view(&self) -> PatternView {
        pattern_view(*self)
    }
}

impl View for Stmt {
    type V = StmtView;

    open spec fn view(&self) -> StmtView {
        match self {
            Stmt::Let { name, ty, value } => StmtView::Let { name: name@, ty: *ty, value: value@ },
            Stmt::Return(e) => StmtView::Return(e@),
            Stmt::Expr(e) => StmtView::Expr(e@),
        }
    }
}

impl View for Param {
    type V = ParamView;

    open spec fn view(&self) -> ParamView {
        ParamView { name: self.name@, ty: self.ty }
    }
}

impl View for Block {
    type V = Seq<StmtView>;

    open spec fn view(&self) -> Seq<StmtView> {
        self.stmts@.map_values(|s: Stmt| s@)
    }
}

impl View for Function {
    type V = FunctionView;

    open spec fn view(&self) -> FunctionView {
        FunctionView {
            name: self.name@,
            params: self.params@.map_values(|p: Param| p@),
            return_type: self.return_type,
            body: self.body@,
        }
    }
}

impl View for Program {
    type V = Seq<FunctionView>;

    open spec fn view(&self) -> Seq<FunctionView> {
        self.functions@.map_values(|f: Function| f@)
    }
}

impl View for RewriteRule {
    type V = RewriteRuleView;

    open spec fn view(&self) -> RewriteRuleView {
        RewriteRuleView {
            pattern: self.pattern@,
            guard: match self.guard {
                Some(g) => Some(g@),
                None => None,
            },
            replacement: self.replacement@,
        }
    }
}

pub proof fn lemma_exprs_view(a: Seq<Expr>)
    ensures
        exprs_view(a).len() == a.len(),
        forall|k: int| 0 <= k < a.len() ==> #[trigger] exprs_view(a)[k] == a[k]@,
    decreases a.len(),
{
    if a.len() > 0 {
        lemma_exprs_view(a.drop_last());
        assert forall|k: int| 0 <= k < a.len() implies #[trigger] exprs_view(a)[k] == a[k]@ by {
            if k < a.len() - 1 {
                assert(a.drop_last()[k] == a[k]);
            }
        }
    }
}

pub proof fn lemma_patterns_view(a: Seq<Pattern>)
    ensures
        patterns_view(a).len() == a.len(),
        forall|k: int| 0 <= k < a.len() ==> #[trigger] patterns_view(a)[k] == a[k]@,
    decreases a.len(),
{
    if a.len() > 0 {
        lemma_patterns_view(a.drop_last());
        assert forall|k: int| 0 <= k < a.len() implies #[trigger] patterns_view(a)[k] == a[k]@ by {
            if k < a.len() - 1 {
                assert(a.drop_last()[k] == a[k]);
            }
        }
    }
}

pub proof fn lemma_arms_view(a: Seq<(Pattern, Expr)>)
    ensures
        arms_view(a).len() == a.len(),
        forall|k: int| 0 <= k < a.len() ==> #[trigger] arms_view(a)[k] == (a[k].0@, a[k].1@),
    decreases a.len(),
{
    if a.len() > 0 {
        lemma_arms_view(a.drop_last());
        assert forall|k: int| 0 <= k < a.len() implies #[trigger] arms_view(a)[k] == (a[k].0@, a[k].1@) by {
            if k < a.len() - 1 {
                assert(a.drop_last()[k] == a[k]);
            }
        }
    }
}

/// A copy of a pattern.
#[verifier::loop_isolation(false)]
pub fn clone_pattern(p: &Pattern) -> (r: Pattern)
    ensures
        r@ == p@,
    decreases p,
{
    match p {
        Pattern::Wildcard => Pattern::Wildcard,
        Pattern::Capture(n) => Pattern::Capture(n.clone()),
        Pattern::Int(v) => Pattern::Int(*v),
        Pattern::Bool(b) => Pattern::Bool(*b),
        Pattern::String(s) => Pattern::String(s.clone()),
        Pattern::Ident(s) => Pattern::Ident(s.clone()),
        Pattern::Binary { op, left, right } => Pattern::Binary {
            op: *op,
            left: Box::new(clone_pattern(left)),
            right: Box::new(clone_pattern(right)),
        },
        Pattern::Call { callee, args } => {
            let c = match callee {
                Some(c) => Some(c.clone()),
                None => None,
            };
            let mut a: Vec<Pattern> = Vec::new();
            let mut i: usize = 0;
            while i < args.len()
                invariant
                    i <= args@.len(),
                    a@.len() == i,
                    forall|k: int| 0 <= k < i ==> (#[trigger] a@[k])@ == args@[k]@,
                decreases args@.len() - i,
            {
                a.push(clone_pattern(&args[i]));
                i += 1;
            }
            proof {
                lemma_patterns_view(a@);
                lemma_patterns_view(args@);
                assert(patterns_view(a@) =~= patterns_view(args@));
            }
            Pattern::Call { callee: c, args: a }
        },
    }
}

/// A copy of an expression.
#[verifier::loop_isolation(false)]
pub fn clone_expr(e: &Expr) -> (r: Expr)
    ensures
        r@ == e@,
    decreases e,
{
    match e {
        Expr::Int(v) => Expr::Int(*v),
        Expr::Bool(b) => Expr::Bool(*b),
        Expr::String(s) => Expr::String(s.clone()),
        Expr::Ident(s) => Expr::Ident(s.clone()),
        Expr::Match { value, arms } => {
            let v = clone_expr(value);
            let mut a: Vec<(Pattern, Expr)> = Vec::new();
            let mut i: usize = 0;
            while i < arms.len()
                invariant
                    i <= arms@.len(),
                    a@.len() == i,
                    forall|k: int| 0 <= k < i ==> (#[trigger] a@[k]).0@ == arms@[k].0@ && a@[k].1@ == arms@[k].1@,
                decreases arms@.len() - i,
            {
                let (p, x) = &arms[i];
                a.push((clone_pattern(p), clone_expr(x)));
                i += 1;
            }
            proof {
                lemma_arms_view(a@);
                lemma_arms_view(arms@);
                assert(arms_view(a@) =~= arms_view(arms@));
            }
            Expr::Match { value: Box::new(v), arms: a }
        },
        Expr::Binary { op, left, right } => Expr::Binary {
            op: *op,
            left: Box::new(clone_expr(left)),
            right: Box::new(clone_expr(right)),
        },
        Expr::Call { callee, args } => {
            let mut a: Vec<Expr> = Vec::new();
            let mut i: usize = 0;
            while i < args.len()
                invariant
                    i <= args@.len(),
                    a@.len() == i,
                    forall|k: int| 0 <= k < i ==> (#[trigger] a@[k])@ == args@[k]@,
                decreases args@.len() - i,
            {
                a.push(clone_expr(&args[i]));
                i += 1;
            }
            proof {
                lemma_exprs_view(a@);
                lemma_exprs_view(args@);
                assert(exprs_view(a@) =~= exprs_view(args@));
            }
            Expr::Call { callee: callee.clone(), args: a }
        },
    }
}

impl Clone for Expr {
    fn clone(&self) -> (r: Expr)
        ensures
            r@ == self@,
    {
        clone_expr(self)
    }
}

impl Clone for Pattern {
    fn clone(&self) -> (r: Pattern)
        ensures
            r@ == self@,
    {
        clone_pattern(self)
    }
}

} // verus!
