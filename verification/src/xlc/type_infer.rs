//! A first, naive type inference for `xlc` expressions.

use vstd::prelude::*;

use super::ast::{Expr, ExprView, exprs_view, lemma_exprs_view};
use super::error::{XLError, XLErrorView};
use super::token::{push_str_debug, str_debug};
use crate::text::{decimal, push_decimal, push_str};

verus! {

#[derive(Debug, Eq, Hash)]
pub enum Ty {
    Int,
    Bool,
    Var(u32),
    Fun(Box<Ty>, Box<Ty>),
    Named(String),
    App(Box<Ty>, Vec<Ty>),
}

/// The value of a type.
pub enum TyView {
    Int,
    Bool,
    Var(u32),
    Fun(Box<TyView>, Box<TyView>),
    Named(Seq<char>),
    App(Box<TyView>, Seq<TyView>),
}

pub open spec fn ty_view(t: Ty) -> TyView
    decreases t,
{
    match t {
        Ty::Int => TyView::Int,
        Ty::Bool => TyView::Bool,
        Ty::Var(v) => TyView::Var(v),
        Ty::Fun(a, b) => TyView::Fun(Box::new(ty_view(*a)), Box::new(ty_view(*b))),
        Ty::Named(n) => TyView::Named(n@),
        Ty::App(h, args) => TyView::App(
            Box::new(ty_view(*h)),
            Seq::new(args@.len(), |i: int| if 0 <= i < args@.len() { ty_view(args@[i]) } else { TyView::Int }),
        ),
    }
}

impl View for Ty {
    type V = TyView;

    open spec fn view(&self) -> TyView {
        ty_view(*self)
    }
}

/// A copy of a type.
#[verifier::loop_isolation(false)]
pub fn clone_ty(t: &Ty) -> (r: Ty)
    ensures
        r@ == t@,
    decreases t,
{
    match t {
        Ty::Int => Ty::Int,
        Ty::Bool => Ty::Bool,
        Ty::Var(v) => Ty::Var(*v),
        Ty::Fun(a, b) => Ty::Fun(Box::new(clone_ty(&**a)), Box::new(clone_ty(&**b))),
        Ty::Named(n) => Ty::Named(n.clone()),
        Ty::App(h, args) => {
            let nh = clone_ty(&**h);
            let mut out: Vec<Ty> = Vec::new();
            let mut i: usize = 0;
            while i < args.len()
                invariant
                    i <= args@.len(),
                    out@.len() == i,
                    forall|k: int| 0 <= k < i ==> (#[trigger] out@[k])@ == args@[k]@,
                decreases args@.len() - i,
            {
                out.push(clone_ty(&args[i]));
                i += 1;
            }
            let r = Ty::App(Box::new(nh), out);
            assert(r@->App_1 =~= t@->App_1);
            r
        },
    }
}

impl Clone for Ty {
    fn clone(&self) -> (r: Ty)
        ensures
            r@ == self@,
    {
        clone_ty(self)
    }
}

/// Whether two types are the same.
#[verifier::loop_isolation(false)]
pub fn ty_eq(a: &Ty, b: &Ty) -> (r: bool)
    ensures
        r == (a@ == b@),
    decreases a,
{
    match (a, b) {
        (Ty::Int, Ty::Int) => true,
        (Ty::Bool, Ty::Bool) => true,
        (Ty::Var(x), Ty::Var(y)) => *x == *y,
        (Ty::Fun(a1, b1), Ty::Fun(a2, b2)) => ty_eq(&**a1, &**a2) && ty_eq(&**b1, &**b2),
        (Ty::Named(x), Ty::Named(y)) => *x == *y,
        (Ty::App(h1, x1), Ty::App(h2, x2)) => {
            if !ty_eq(&**h1, &**h2) {
                return false;
            }
            if x1.len() != x2.len() {
                assert(a@->App_1.len() != b@->App_1.len());
                return false;
            }
            let mut i: usize = 0;
            while i < x1.len()
                invariant
                    i <= x1@.len(),
                    x1@.len() == x2@.len(),
                    forall|k: int| 0 <= k < i ==> (#[trigger] x1@[k])@ == x2@[k]@,
                decreases x1@.len() - i,
            {
                if !ty_eq(&x1[i], &x2[i]) {
                    assert(a@->App_1[i as int] != b@->App_1[i as int]);
                    return false;
                }
                i += 1;
            }
            assert(a@->App_1 =~= b@->App_1);
            true
        },
        _ => false,
    }
}

impl PartialEq for Ty {
    fn eq(&self, other: &Ty) -> (r: bool) {
        ty_eq(self, other)
    }
}

impl vstd::std_specs::cmp::PartialEqSpecImpl for Ty {
    open spec fn obeys_eq_spec() -> bool {
        true
    }

    open spec fn eq_spec(&self, other: &Ty) -> bool {
        self@ == other@
    }
}

/// The `Debug` text of a type: variant names with their fields in
/// parentheses, lists in square brackets.
pub open spec fn ty_debug(t: TyView) -> Seq<char>
    decreases t,
{
    match t {
        TyView::Int => "Int"@,
        TyView::Bool => "Bool"@,
        TyView::Var(v) => "Var("@ + decimal(v as nat) + ")"@,
        TyView::Fun(a, b) => "Fun("@ + ty_debug(*a) + ", "@ + ty_debug(*b) + ")"@,
        TyView::Named(n) => "Named("@ + str_debug(n) + ")"@,
        TyView::App(h, args) => "App("@ + ty_debug(*h) + ", ["@ + tys_debug(args) + "])"@,
    }
}

/// The `Debug` texts of types, separated by `, `.
pub open spec fn tys_debug(ts: Seq<TyView>) -> Seq<char>
    decreases ts,
{
    if ts.len() == 0 {
        Seq::empty()
    } else if ts.len() == 1 {
        ty_debug(ts[0])
    } else {
        tys_debug(ts.drop_last()) + ", "@ + ty_debug(ts.last())
    }
}

#[verifier::loop_isolation(false)]
fn push_ty_debug(out: &mut String, t: &Ty)
    ensures
        final(out)@ == old(out)@ + ty_debug(t@),
    decreases t,
{
    match t {
        Ty::Int => push_str(out, "Int"),
        Ty::Bool => push_str(out, "Bool"),
        Ty::Var(v) => {
            push_str(out, "Var(");
            push_decimal(out, *v as u64);
            push_str(out, ")");
        },
        Ty::Fun(a, b) => {
            push_str(out, "Fun(");
            push_ty_debug(out, &**a);
            push_str(out, ", ");
            push_ty_debug(out, &**b);
            push_str(out, ")");
        },
        Ty::Named(n) => {
            push_str(out, "Named(");
            push_str_debug(out, n.as_str());
            push_str(out, ")");
        },
        Ty::App(h, args) => {
            push_str(out, "App(");
            push_ty_debug(out, &**h);
            push_str(out, ", [");
            let ghost start = out@;
            let ghost views = t@->App_1;
            let mut i: usize = 0;
            while i < args.len()
                invariant
                    i <= args@.len(),
                    views == t@->App_1,
                    views.len() == args@.len(),
                    out@ == start + tys_debug(views.take(i as int)),
                decreases args@.len() - i,
            {
                proof {
                    assert(views.take(i + 1).drop_last() =~= views.take(i as int));
                    assert(views[i as int] == args@[i as int]@);
                }
                if i > 0 {
                    push_str(out, ", ");
                }
                push_ty_debug(out, &args[i]);
                i += 1;
            }
            proof {
                assert(views.take(i as int) =~= views);
            }
            push_str(out, "])");
        },
    }
}

/// The type of `name` among the bound names: the first binding.
pub open spec fn ty_lookup(env: Seq<(Seq<char>, TyView)>, name: Seq<char>) -> Option<TyView>
    decreases env.len(),
{
    if env.len() == 0 {
        None
    } else if env[0].0 == name {
        Some(env[0].1)
    } else {
        ty_lookup(env.drop_first(), name)
    }
}

/// Unification of two types: equal types, or a variable on either side,
/// unify; two applications of the same head unify argument by argument; any
/// other pair fails with the message naming both.
pub open spec fn ti_unify(a: TyView, b: TyView) -> Result<(), Seq<char>>
    decreases a,
{
    if a == b {
        Ok(())
    } else {
        match (a, b) {
            (TyView::Var(_), _) => Ok(()),
            (_, TyView::Var(_)) => Ok(()),
            (TyView::App(fa, xs), TyView::App(fb, ys)) => if fa == fb && xs.len() == ys.len() {
                ti_unify_list(xs, ys)
            } else {
                Err("cannot unify "@ + ty_debug(a) + " and "@ + ty_debug(b))
            },
            _ => Err("cannot unify "@ + ty_debug(a) + " and "@ + ty_debug(b)),
        }
    }
}

/// Unification of types pairwise, up to the first failure.
pub open spec fn ti_unify_list(xs: Seq<TyView>, ys: Seq<TyView>) -> Result<(), Seq<char>>
    decreases xs,
{
    if xs.len() == 0 {
        Ok(())
    } else {
        match ti_unify(xs[0], ys[0]) {
            Err(m) => Err(m),
            Ok(()) => ti_unify_list(xs.drop_first(), ys.drop_first()),
        }
    }
}

/// The type of `e` with the names `env` bound: integers and booleans have
/// their types, a name the type it is bound to, a binary expression the type
/// of its left side once both sides unify, a call `Int` once its arguments
/// have types; anything else fails.
pub open spec fn ti_infer(e: ExprView, env: Seq<(Seq<char>, TyView)>) -> Result<TyView, Seq<char>>
    decreases e,
{
    match e {
        ExprView::Int(_) => Ok(TyView::Int),
        ExprView::Bool(_) => Ok(TyView::Bool),
        ExprView::Ident(n) => match ty_lookup(env, n) {
            Some(t) => Ok(t),
            None => Err("unbound "@ + str_debug(n)),
        },
        ExprView::Binary { left, right, .. } => match ti_infer(*left, env) {
            Err(m) => Err(m),
            Ok(l) => match ti_infer(*right, env) {
                Err(m) => Err(m),
                Ok(r) => match ti_unify(l, r) {
                    Err(m) => Err(m),
                    Ok(()) => Ok(l),
                },
            },
        },
        ExprView::Call { args, .. } => match ti_infer_args(args, env) {
            Some(m) => Err(m),
            None => Ok(TyView::Int),
        },
        _ => Err("type inference: unsupported expr"@),
    }
}

/// The message of the first argument that has no type, if any.
pub open spec fn ti_infer_args(args: Seq<ExprView>, env: Seq<(Seq<char>, TyView)>) -> Option<Seq<char>>
    decreases args,
{
    if args.len() == 0 {
        None
    } else {
        match ti_infer(args[0], env) {
            Err(m) => Some(m),
            Ok(_) => ti_infer_args(args.drop_first(), env),
        }
    }
}

/// Whether an outcome of inference is the one that `s` describes.
pub open spec fn ti_outcome(r: Result<Ty, XLError>, s: Result<TyView, Seq<char>>) -> bool {
    match (r, s) {
        (Ok(t), Ok(u)) => t@ == u,
        (Err(e), Err(m)) => e@ == XLErrorView::SemanticError(m),
        _ => false,
    }
}

struct TIState {
    next_var: u32,
}

impl TIState {
    fn fresh_var(&mut self) -> (t: Ty)
        requires
            old(self).next_var < u32::MAX,
        ensures
            t == Ty::Var(old(self).next_var),
            final(self).next_var == old(self).next_var + 1,
    {
        let v = self.next_var;
        self.next_var = self.next_var + 1;
        Ty::Var(v)
    }
}

fn lookup(env: &Vec<(String, Ty)>, name: &String) -> (r: Option<Ty>)
    ensures
        match (r, ty_lookup(env@.map_values(|p: (String, Ty)| (p.0@, p.1@)), name@)) {
            (Some(t), Some(u)) => t@ == u,
            (None, None) => true,
            _ => false,
        },
{
    let ghost s = env@.map_values(|p: (String, Ty)| (p.0@, p.1@));
    let mut i: usize = 0;
    proof {
        assert(s.skip(0) =~= s);
    }
    while i < env.len()
        invariant
            i <= env@.len(),
            s == env@.map_values(|p: (String, Ty)| (p.0@, p.1@)),
            ty_lookup(s, name@) == ty_lookup(s.skip(i as int), name@),
        decreases env@.len() - i,
    {
        assert(s.skip(i as int)[0] == s[i as int]);
        if env[i].0 == *name {
            return Some(clone_ty(&env[i].1));
        }
        assert(s.skip(i as int).drop_first() =~= s.skip(i + 1));
        i += 1;
    }
    None
}

fn semantic(m: String) -> (e: XLError)
    ensures
        e@ == XLErrorView::SemanticError(m@),
{
    XLError::SemanticError(m)
}

#[verifier::loop_isolation(false)]
fn infer(expr: &Expr, env: &Vec<(String, Ty)>, st: &mut TIState) -> (r: Result<Ty, XLError>)
    ensures
        ti_outcome(r, ti_infer(expr@, env@.map_values(|p: (String, Ty)| (p.0@, p.1@)))),
    decreases expr,
{
    let ghost ev = env@.map_values(|p: (String, Ty)| (p.0@, p.1@));
    match expr {
        Expr::Int(_) => Ok(Ty::Int),
        Expr::Bool(_) => Ok(Ty::Bool),
        Expr::Ident(name) => match lookup(env, name) {
            Some(t) => Ok(t),
            None => {
                let mut m = String::new();
                push_str(&mut m, "unbound ");
                push_str_debug(&mut m, name.as_str());
                Err(semantic(m))
            },
        },
        Expr::Binary { left, right, .. } => {
            let l = infer(&**left, env, st)?;
            let r = infer(&**right, env, st)?;
            unify(&l, &r)?;
            Ok(l)
        },
        Expr::Call { args, .. } => {
            let ghost av = exprs_view(args@);
            proof {
                lemma_exprs_view(args@);
                assert(av.skip(0) =~= av);
            }
            let mut i: usize = 0;
            while i < args.len()
                invariant
                    i <= args@.len(),
                    av == exprs_view(args@),
                    av.len() == args@.len(),
                    forall|k: int| 0 <= k < args@.len() ==> #[trigger] av[k] == args@[k]@,
                    ti_infer_args(av, ev) == ti_infer_args(av.skip(i as int), ev),
                decreases args@.len() - i,
            {
                assert(av.skip(i as int)[0] == av[i as int]);
                assert(av.skip(i as int).drop_first() =~= av.skip(i + 1));
                let _t = infer(&args[i], env, st)?;
                i += 1;
            }
            Ok(Ty::Int)
        },
        _ => {
            let mut m = String::new();
            push_str(&mut m, "type inference: unsupported expr");
            Err(semantic(m))
        },
    }
}

#[verifier::loop_isolation(false)]
fn unify(a: &Ty, b: &Ty) -> (r: Result<(), XLError>)
    ensures
        match (r, ti_unify(a@, b@)) {
            (Ok(()), Ok(())) => true,
            (Err(e), Err(m)) => e@ == XLErrorView::SemanticError(m),
            _ => false,
        },
    decreases a,
{
    if ty_eq(a, b) {
        return Ok(());
    }
    match (a, b) {
        (Ty::Var(_), _) => {
            return Ok(());
        },
        (_, Ty::Var(_)) => {
            return Ok(());
        },
        (Ty::App(fa, xs), Ty::App(fb, ys)) => {
            if ty_eq(&**fa, &**fb) && xs.len() == ys.len() {
                let ghost xv = a@->App_1;
                let ghost yv = b@->App_1;
                proof {
                    assert(xv.skip(0) =~= xv);
                    assert(yv.skip(0) =~= yv);
                }
                let mut i: usize = 0;
                while i < xs.len()
                    invariant
                        i <= xs@.len(),
                        xs@.len() == ys@.len(),
                        xv == a@->App_1,
                        yv == b@->App_1,
                        ti_unify_list(xv, yv) == ti_unify_list(xv.skip(i as int), yv.skip(i as int)),
                    decreases xs@.len() - i,
                {
                    assert(xv.skip(i as int)[0] == xs@[i as int]@);
                    assert(yv.skip(i as int)[0] == ys@[i as int]@);
                    assert(xv.skip(i as int).drop_first() =~= xv.skip(i + 1));
                    assert(yv.skip(i as int).drop_first() =~= yv.skip(i + 1));
                    unify(&xs[i], &ys[i])?;
                    i += 1;
                }
                return Ok(());
            }
        },
        _ => {},
    }
    let mut m = String::new();
    push_str(&mut m, "cannot unify ");
    push_ty_debug(&mut m, a);
    push_str(&mut m, " and ");
    push_ty_debug(&mut m, b);
    Err(semantic(m))
}

/// The type of `expr`, with no name bound.
pub fn infer_expr(expr: &Expr) -> (r: Result<Ty, XLError>)
    ensures
        ti_outcome(r, ti_infer(expr@, Seq::empty())),
{
    let mut state = TIState { next_var: 0 };
    let env: Vec<(String, Ty)> = Vec::new();
    proof {
        assert(env@.map_values(|p: (String, Ty)| (p.0@, p.1@)) =~= Seq::<(Seq<char>, TyView)>::empty());
    }
    infer(expr, &env, &mut state)
}

} // verus!
