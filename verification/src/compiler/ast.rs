//! Syntax tree of the first front end.

use vstd::prelude::*;

use super::types::Type;

verus! {

pub type NodeId = usize;

#[derive(Debug, Clone)]
pub enum Item {
    Function(Function),
}

#[derive(Debug, Clone)]
pub struct Function {
    pub name: String,
    pub params: Vec<Param>,
    pub ret_type: Type,
    pub body: Vec<Stmt>,
}

#[derive(Debug, Clone)]
pub struct Param {
    pub name: String,
    pub ty: Type,
}

#[derive(Debug, Clone)]
pub enum Stmt {
    Let { name: String, value: Expr },
    Return(Expr),
}

#[derive(Debug)]
pub enum Expr {
    Ident(String),
    Int(i64),
    Bool(bool),
    Binary { left: Box<Expr>, op: BinOp, right: Box<Expr> },
    Call { func: String, args: Vec<Expr> },
}

#[derive(Debug, Clone, Copy, PartialEq, Eq, Structural)]
pub enum BinOp {
    Add,
    Sub,
    Mul,
    Div,
    And,
    Or,
    Eq,
    Ne,
    Lt,
    Gt,
}

pub type Program = Vec<Item>;

/// Mathematical value of an expression: strings as character sequences,
/// argument lists as sequences.
pub enum ExprView {
    Ident(Seq<char>),
    Int(i64),
    Bool(bool),
    Binary { left: Box<ExprView>, op: BinOp, right: Box<ExprView> },
    Call { func: Seq<char>, args: Seq<ExprView> },
}

pub enum StmtView {
    Let { name: Seq<char>, value: ExprView },
    Return(ExprView),
}

pub struct ParamView {
    pub name: Seq<char>,
    pub ty: Type,
}

pub struct FunctionView {
    pub name: Seq<char>,
    pub params: Seq<ParamView>,
    pub ret_type: Type,
    pub body: Seq<StmtView>,
}

pub enum ItemView {
    Function(FunctionView),
}

/// The values of a list of expressions.
pub open spec fn exprs_view(es: Seq<Expr>) -> Seq<ExprView>
    decreases es,
{
    if es.len() == 0 {
        Seq::empty()
    } else {
        exprs_view(es.drop_last()).push(expr_view(es.last()))
    }
}

/// The value of an expression.
pub open spec fn expr_view(e: Expr) -> ExprView
    decreases e,
{
    match e {
        Expr::Ident(n) => ExprView::Ident(n@),
        Expr::Int(v) => ExprView::Int(v),
        Expr::Bool(b) => ExprView::Bool(b),
        Expr::Binary { left, op, right } => ExprView::Binary {
            left: Box::new(expr_view(*left)),
            op,
            right: Box::new(expr_view(*right)),
        },
        Expr::Call { func, args } => ExprView::Call { func: func@, args: exprs_view(args@) },
    }
}

impl View for Expr {
    type V = ExprView;

    open spec fn view(&self) -> ExprView {
        expr_view(*self)
    }
}

impl View for Stmt {
    type V = StmtView;

    open spec fn view(&self) -> StmtView {
        match self {
            Stmt::Let { name, value } => StmtView::Let { name: name@, value: value@ },
            Stmt::Return(e) => StmtView::Return(e@),
        }
    }
}

impl View for Param {
    type V = ParamView;

    open spec fn view(&self) -> ParamView {
        ParamView { name: self.name@, ty: self.ty }
    }
}

impl View for Function {
    type V = FunctionView;

    open spec fn view(&self) -> FunctionView {
        FunctionView {
            name: self.name@,
            params: self.params@.map_values(|p: Param| p@),
            ret_type: self.ret_type,
            body: self.body@.map_values(|st: Stmt| st@),
        }
    }
}

impl View for Item {
    type V = ItemView;

    open spec fn view(&self) -> ItemView {
        match self {
            Item::Function(f) => ItemView::Function(f@),
        }
    }
}

/// Expression lists with equal elementwise values have equal values.
pub proof fn lemma_exprs_view_ext(a: Seq<Expr>, b: Seq<Expr>)
    requires
        a.len() == b.len(),
        forall|k: int| 0 <= k < a.len() ==> (#[trigger] a[k])@ == b[k]@,
    ensures
        exprs_view(a) == exprs_view(b),
    decreases a.len(),
{
    if a.len() > 0 {
        lemma_exprs_view_ext(a.drop_last(), b.drop_last());
    }
}

/// The length and elements of `exprs_view`.
pub proof fn lemma_exprs_view(a: Seq<Expr>)
    ensures
        exprs_view(a).len() == a.len(),
        forall|k: int| 0 <= k < a.len() ==> #[trigger] exprs_view(a)[k] == a[k]@,
    decreases a.len(),
{
    if a.len() > 0 {
        lemma_exprs_view(a.drop_last());
        assert forall|k: int| 0 <= k < a.len() implies #[trigger] exprs_view(a)[k] == a[k]@ by {
            if k < a.len() - 1 {
                assert(a.drop_last()[k] == a[k]);
            }
        }
    }
}

/// A copy of `e`.
pub fn clone_expr(e: &Expr) -> (r: Expr)
    ensures
        r@ == e@,
    decreases e,
{
    match e {
        Expr::Ident(n) => Expr::Ident(n.clone()),
        Expr::Int(v) => Expr::Int(*v),
        Expr::Bool(b) => Expr::Bool(*b),
        Expr::Binary { left, op, right } => Expr::Binary {
            left: Box::new(clone_expr(left)),
            op: *op,
            right: Box::new(clone_expr(right)),
        },
        Expr::Call { func, args } => {
            let a = clone_exprs(args);
            let r = Expr::Call { func: func.clone(), args: a };
            proof { lemma_exprs_view_ext(a@, args@); }
            r
        },
    }
}

/// A copy of `es`.
pub fn clone_exprs(es: &Vec<Expr>) -> (r: Vec<Expr>)
    ensures
        r@.len() == es@.len(),
        forall|k: int| 0 <= k < es@.len() ==> (#[trigger] r@[k])@ == es@[k]@,
    decreases es,
{
    let mut r: Vec<Expr> = Vec::new();
    let mut i: usize = 0;
    while i < es.len()
        invariant
            i <= es@.len(),
            r@.len() == i,
            forall|k: int| 0 <= k < i ==> (#[trigger] r@[k])@ == es@[k]@,
        decreases es@.len() - i,
    {
        r.push(clone_expr(&es[i]));
        i += 1;
    }
    r
}

impl Clone for Expr {
    fn clone(&self) -> (r: Expr)
        ensures
            r@ == self@,
    {
        clone_expr(self)
    }
}

} // verus!
