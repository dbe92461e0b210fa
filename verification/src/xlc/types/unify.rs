//! Unification of two types under a substitution.
//!
//! Each step applies the substitution once to both sides; a variable on
//! either side is bound to the other side unless it occurs in it. The
//! occurs check follows the substitution as far as it leads, so on a
//! substitution with a cycle it may never end: the functions here are stated
//! with a budget of steps, and unification asks for a budget that suffices.

use vstd::prelude::*;

use super::subst::{Subst, apply_spec, lemma_apply_empty};
use super::ty::{Tv, Ty, TyView, clone_ty, str_eq, tys_view};
use crate::text::push_str;
use crate::xlc::error::{XLError, XLErrorView};

verus! {

/// Whether `tv` occurs in `t` once the substitution has been followed, with
/// at most `fuel` nested steps (`None`: the budget ran out). The
/// substitution is applied once at each level before looking inside; the
/// head of an application is looked at before its arguments, and the first
/// occurrence found ends the search.
pub open spec fn occurs_spec(tv: Tv, t: TyView, m: Map<Tv, TyView>, fuel: nat) -> Option<bool>
    decreases fuel, 0nat, 0int,
{
    if fuel == 0 {
        None
    } else {
        match apply_spec(m, t) {
            TyView::Var(v) => Some(v == tv),
            TyView::App(h, args) => match occurs_spec(tv, *h, m, (fuel - 1) as nat) {
                Some(false) => occurs_any(tv, args, 0, m, (fuel - 1) as nat),
                o => o,
            },
            TyView::Struct(_, fs) => occurs_any(tv, fs, 0, m, (fuel - 1) as nat),
            TyView::Enum(_, fs) => occurs_any(tv, fs, 0, m, (fuel - 1) as nat),
            TyView::ForAll(_, body) => occurs_spec(tv, *body, m, (fuel - 1) as nat),
            _ => Some(false),
        }
    }
}

/// Whether `tv` occurs in one of `ts` from the `i`-th on, searched in order.
pub open spec fn occurs_any(tv: Tv, ts: Seq<TyView>, i: int, m: Map<Tv, TyView>, fuel: nat) -> Option<bool>
    decreases fuel, 1nat, ts.len() - i,
{
    if i < 0 || i >= ts.len() {
        Some(false)
    } else {
        match occurs_spec(tv, ts[i], m, fuel) {
            Some(false) => occurs_any(tv, ts, i + 1, m, fuel),
            o => o,
        }
    }
}

/// Binding `tv` to `t`: nothing to do where `t` is `tv` itself, a failure
/// where `tv` occurs in `t`, else the binding is added (replacing any
/// binding `tv` had). The result and the substitution after it.
pub open spec fn bind_spec(tv: Tv, t: TyView, m: Map<Tv, TyView>, fuel: nat) -> Option<(Result<(), Seq<char>>, Map<Tv, TyView>)> {
    if t == TyView::Var(tv) {
        Some((Ok(()), m))
    } else {
        match occurs_spec(tv, t, m, fuel) {
            None => None,
            Some(true) => Some((Err("occurs check failed"@), m)),
            Some(false) => Some((Ok(()), m.insert(tv, t))),
        }
    }
}

/// The failure of two types that do not fit.
pub open spec fn mismatch(m: Map<Tv, TyView>) -> Option<(Result<(), Seq<char>>, Map<Tv, TyView>)> {
    Some((Err("type mismatch"@), m))
}

/// Unifying `a` and `b` under `m` with at most `fuel` nested steps: the
/// result and the substitution after it (`None`: the budget ran out). Both
/// sides are substituted once; a variable on the left, else on the right, is
/// bound to the other side; equal primitives fit; applications of as many
/// arguments fit where their heads and then their arguments, pairwise in
/// order, do; structures and enums of one name and as many parameters fit
/// where their parameters do; anything else is a mismatch. The first
/// failure ends the work, with the substitution as it then stands.
pub open spec fn unify_spec(a: TyView, b: TyView, m: Map<Tv, TyView>, fuel: nat) -> Option<(Result<(), Seq<char>>, Map<Tv, TyView>)>
    decreases fuel, 0nat, 0int,
{
    if fuel == 0 {
        None
    } else {
        let a1 = apply_spec(m, a);
        let b1 = apply_spec(m, b);
        if a1 is Var {
            bind_spec(a1->Var_0, b1, m, fuel)
        } else if b1 is Var {
            bind_spec(b1->Var_0, a1, m, fuel)
        } else {
            match (a1, b1) {
                (TyView::Prim(x), TyView::Prim(y)) => if x == y {
                    Some((Ok(()), m))
                } else {
                    mismatch(m)
                },
                (TyView::App(f1, x1), TyView::App(f2, x2)) => if x1.len() == x2.len() {
                    match unify_spec(*f1, *f2, m, (fuel - 1) as nat) {
                        Some((Ok(()), m1)) => unify_all(x1, x2, 0, m1, (fuel - 1) as nat),
                        o => o,
                    }
                } else {
                    mismatch(m)
                },
                (TyView::Struct(n1, p1), TyView::Struct(n2, p2)) => if n1 == n2 && p1.len() == p2.len() {
                    unify_all(p1, p2, 0, m, (fuel - 1) as nat)
                } else {
                    mismatch(m)
                },
                (TyView::Enum(n1, p1), TyView::Enum(n2, p2)) => if n1 == n2 && p1.len() == p2.len() {
                    unify_all(p1, p2, 0, m, (fuel - 1) as nat)
                } else {
                    mismatch(m)
                },
                _ => mismatch(m),
            }
        }
    }
}

/// Unifying `xs[k]` with `ys[k]` for each `k` from `i` on, in order, until
/// the first failure.
pub open spec fn unify_all(xs: Seq<TyView>, ys: Seq<TyView>, i: int, m: Map<Tv, TyView>, fuel: nat) -> Option<(Result<(), Seq<char>>, Map<Tv, TyView>)>
    decreases fuel, 1nat, xs.len() - i,
{
    if i < 0 || i >= xs.len() {
        Some((Ok(()), m))
    } else {
        match unify_spec(xs[i], ys[i], m, fuel) {
            Some((Ok(()), m1)) => unify_all(xs, ys, i + 1, m1, fuel),
            o => o,
        }
    }
}

/// Whether an error stands for a failure with this message, or success for
/// success.
pub open spec fn outcome_is(r: Result<(), XLError>, res: Result<(), Seq<char>>) -> bool {
    match (r, res) {
        (Ok(()), Ok(())) => true,
        (Err(e), Err(msg)) => e@ == XLErrorView::SemanticError(msg),
        _ => false,
    }
}

fn semantic_error(msg: &str) -> (e: XLError)
    ensures
        e@ == XLErrorView::SemanticError(msg@),
{
    let mut m = String::new();
    push_str(&mut m, msg);
    XLError::SemanticError(m)
}

fn occurs(tv: Tv, ty: &Ty, subst: &Subst, Ghost(fuel): Ghost<nat>) -> (r: bool)
    requires
        occurs_spec(tv, ty@, subst@, fuel) is Some,
    ensures
        occurs_spec(tv, ty@, subst@, fuel) == Some(r),
    decreases fuel, 0nat,
{
    let t = subst.apply(ty);
    let ghost f1: nat = (fuel - 1) as nat;
    match t {
        Ty::Var(v) => v == tv,
        Ty::App(h, args) => {
            if occurs(tv, &*h, subst, Ghost(f1)) {
                return true;
            }
            occurs_in(tv, &args, subst, Ghost(f1))
        },
        Ty::Struct(_, fields) => occurs_in(tv, &fields, subst, Ghost(f1)),
        Ty::Enum(_, fields) => occurs_in(tv, &fields, subst, Ghost(f1)),
        Ty::ForAll(_, body) => occurs(tv, &*body, subst, Ghost(f1)),
        _ => false,
    }
}

fn occurs_in(tv: Tv, ts: &Vec<Ty>, subst: &Subst, Ghost(fuel): Ghost<nat>) -> (r: bool)
    requires
        occurs_any(tv, tys_view(ts@), 0, subst@, fuel) is Some,
    ensures
        occurs_any(tv, tys_view(ts@), 0, subst@, fuel) == Some(r),
    decreases fuel, 1nat,
{
    let ghost views = tys_view(ts@);
    let mut i: usize = 0;
    while i < ts.len()
        invariant
            i <= ts@.len(),
            views == tys_view(ts@),
            occurs_any(tv, views, i as int, subst@, fuel) == occurs_any(tv, views, 0, subst@, fuel),
            occurs_any(tv, views, 0, subst@, fuel) is Some,
        decreases ts@.len() - i,
    {
        assert(views[i as int] == ts@[i as int]@);
        if occurs(tv, &ts[i], subst, Ghost(fuel)) {
            return true;
        }
        i += 1;
    }
    false
}

fn bind_var(tv: Tv, ty: &Ty, subst: &mut Subst, Ghost(fuel): Ghost<nat>) -> (r: Result<(), XLError>)
    requires
        bind_spec(tv, ty@, old(subst)@, fuel) is Some,
    ensures
        bind_spec(tv, ty@, old(subst)@, fuel) matches Some((res, m)) && final(subst)@ == m && outcome_is(r, res),
{
    if let Ty::Var(v2) = ty {
        if *v2 == tv {
            return Ok(());
        }
    }
    if occurs(tv, ty, subst, Ghost(fuel)) {
        Err(semantic_error("occurs check failed"))
    } else {
        subst.insert(tv, clone_ty(ty));
        Ok(())
    }
}

fn unify_fuel(a: &Ty, b: &Ty, subst: &mut Subst, Ghost(fuel): Ghost<nat>) -> (r: Result<(), XLError>)
    requires
        unify_spec(a@, b@, old(subst)@, fuel) is Some,
    ensures
        unify_spec(a@, b@, old(subst)@, fuel) matches Some((res, m)) && final(subst)@ == m && outcome_is(r, res),
    decreases fuel, 0nat,
{
    let a1 = subst.apply(a);
    let b1 = subst.apply(b);
    let ghost sub: nat = (fuel - 1) as nat;
    if let Ty::Var(v) = &a1 {
        return bind_var(*v, &b1, subst, Ghost(fuel));
    }
    if let Ty::Var(v) = &b1 {
        return bind_var(*v, &a1, subst, Ghost(fuel));
    }
    let ghost av = a1@;
    let ghost bv = b1@;
    match (a1, b1) {
        (Ty::Prim(x), Ty::Prim(y)) => if str_eq(x, y) {
            Ok(())
        } else {
            Err(semantic_error("type mismatch"))
        },
        (Ty::App(h1, args1), Ty::App(h2, args2)) => if args1.len() == args2.len() {
            assert(av == TyView::App(Box::new(h1@), tys_view(args1@)));
            assert(bv == TyView::App(Box::new(h2@), tys_view(args2@)));
            match unify_fuel(&*h1, &*h2, subst, Ghost(sub)) {
                Ok(()) => unify_pairs(&args1, &args2, subst, Ghost(sub)),
                Err(e) => Err(e),
            }
        } else {
            Err(semantic_error("type mismatch"))
        },
        (Ty::Struct(na, pa), Ty::Struct(nb, pb)) => if na == nb && pa.len() == pb.len() {
            unify_pairs(&pa, &pb, subst, Ghost(sub))
        } else {
            Err(semantic_error("type mismatch"))
        },
        (Ty::Enum(na, pa), Ty::Enum(nb, pb)) => if na == nb && pa.len() == pb.len() {
            unify_pairs(&pa, &pb, subst, Ghost(sub))
        } else {
            Err(semantic_error("type mismatch"))
        },
        _ => Err(semantic_error("type mismatch")),
    }
}

fn unify_pairs(xs: &Vec<Ty>, ys: &Vec<Ty>, subst: &mut Subst, Ghost(fuel): Ghost<nat>) -> (r: Result<(), XLError>)
    requires
        xs@.len() == ys@.len(),
        unify_all(tys_view(xs@), tys_view(ys@), 0, old(subst)@, fuel) is Some,
    ensures
        unify_all(tys_view(xs@), tys_view(ys@), 0, old(subst)@, fuel) matches Some((res, m)) && final(subst)@ == m
            && outcome_is(r, res),
    decreases fuel, 1nat,
{
    let ghost xv = tys_view(xs@);
    let ghost yv = tys_view(ys@);
    let ghost whole = unify_all(xv, yv, 0, old(subst)@, fuel);
    let mut i: usize = 0;
    while i < xs.len()
        invariant
            i <= xs@.len(),
            xs@.len() == ys@.len(),
            xv == tys_view(xs@),
            yv == tys_view(ys@),
            whole == unify_all(xv, yv, 0, old(subst)@, fuel),
            unify_all(xv, yv, i as int, subst@, fuel) == whole,
            whole is Some,
        decreases xs@.len() - i,
    {
        assert(xv[i as int] == xs@[i as int]@);
        assert(yv[i as int] == ys@[i as int]@);
        match unify_fuel(&xs[i], &ys[i], subst, Ghost(fuel)) {
            Ok(()) => {},
            Err(e) => {
                return Err(e);
            },
        }
        i += 1;
    }
    Ok(())
}

proof fn lemma_occurs_mono(tv: Tv, t: TyView, m: Map<Tv, TyView>, f: nat, g: nat)
    requires
        f <= g,
        occurs_spec(tv, t, m, f) is Some,
    ensures
        occurs_spec(tv, t, m, g) == occurs_spec(tv, t, m, f),
    decreases f, 0nat, 0int,
{
    if f > 0 {
        let f1 = (f - 1) as nat;
        let g1 = (g - 1) as nat;
        match apply_spec(m, t) {
            TyView::App(h, args) => {
                lemma_occurs_mono(tv, *h, m, f1, g1);
                if occurs_spec(tv, *h, m, f1) == Some(false) {
                    lemma_occurs_any_mono(tv, args, 0, m, f1, g1);
                }
            },
            TyView::Struct(_, fs) => lemma_occurs_any_mono(tv, fs, 0, m, f1, g1),
            TyView::Enum(_, fs) => lemma_occurs_any_mono(tv, fs, 0, m, f1, g1),
            TyView::ForAll(_, body) => lemma_occurs_mono(tv, *body, m, f1, g1),
            _ => {},
        }
    }
}

proof fn lemma_occurs_any_mono(tv: Tv, ts: Seq<TyView>, i: int, m: Map<Tv, TyView>, f: nat, g: nat)
    requires
        f <= g,
        occurs_any(tv, ts, i, m, f) is Some,
    ensures
        occurs_any(tv, ts, i, m, g) == occurs_any(tv, ts, i, m, f),
    decreases f, 1nat, ts.len() - i,
{
    if 0 <= i < ts.len() {
        lemma_occurs_mono(tv, ts[i], m, f, g);
        if occurs_spec(tv, ts[i], m, f) == Some(false) {
            lemma_occurs_any_mono(tv, ts, i + 1, m, f, g);
        }
    }
}

proof fn lemma_unify_mono(a: TyView, b: TyView, m: Map<Tv, TyView>, f: nat, g: nat)
    requires
        f <= g,
        unify_spec(a, b, m, f) is Some,
    ensures
        unify_spec(a, b, m, g) == unify_spec(a, b, m, f),
    decreases f, 0nat, 0int,
{
    if f > 0 {
        let f1 = (f - 1) as nat;
        let g1 = (g - 1) as nat;
        let a1 = apply_spec(m, a);
        let b1 = apply_spec(m, b);
        if a1 is Var {
            if b1 != TyView::Var(a1->Var_0) {
                lemma_occurs_mono(a1->Var_0, b1, m, f, g);
            }
        } else if b1 is Var {
            if a1 != TyView::Var(b1->Var_0) {
                lemma_occurs_mono(b1->Var_0, a1, m, f, g);
            }
        } else {
            match (a1, b1) {
                (TyView::App(h1, x1), TyView::App(h2, x2)) => if x1.len() == x2.len() {
                    lemma_unify_mono(*h1, *h2, m, f1, g1);
                    match unify_spec(*h1, *h2, m, f1) {
                        Some((Ok(()), m1)) => lemma_unify_all_mono(x1, x2, 0, m1, f1, g1),
                        _ => {},
                    }
                },
                (TyView::Struct(n1, p1), TyView::Struct(n2, p2)) => if n1 == n2 && p1.len() == p2.len() {
                    lemma_unify_all_mono(p1, p2, 0, m, f1, g1);
                },
                (TyView::Enum(n1, p1), TyView::Enum(n2, p2)) => if n1 == n2 && p1.len() == p2.len() {
                    lemma_unify_all_mono(p1, p2, 0, m, f1, g1);
                },
                _ => {},
            }
        }
    }
}

proof fn lemma_unify_all_mono(xs: Seq<TyView>, ys: Seq<TyView>, i: int, m: Map<Tv, TyView>, f: nat, g: nat)
    requires
        f <= g,
        unify_all(xs, ys, i, m, f) is Some,
    ensures
        unify_all(xs, ys, i, m, g) == unify_all(xs, ys, i, m, f),
    decreases f, 1nat, xs.len() - i,
{
    if 0 <= i < xs.len() {
        lemma_unify_mono(xs[i], ys[i], m, f, g);
        match unify_spec(xs[i], ys[i], m, f) {
            Some((Ok(()), m1)) => lemma_unify_all_mono(xs, ys, i + 1, m1, f, g),
            _ => {},
        }
    }
}

/// Whether unifying `a` with `b` under `m` comes to an end: it may not where
/// the substitution, as it stands or as unification leaves it on the way,
/// binds a variable to a type in which that variable occurs.
pub open spec fn unify_halts(a: TyView, b: TyView, m: Map<Tv, TyView>) -> bool {
    exists|f: nat| #[trigger] unify_spec(a, b, m, f) is Some
}

/// What unifying `a` with `b` under `m` comes to, where it comes to an end:
/// the result and the substitution after it.
pub open spec fn unify_outcome(a: TyView, b: TyView, m: Map<Tv, TyView>) -> (Result<(), Seq<char>>, Map<Tv, TyView>) {
    unify_spec(a, b, m, choose|f: nat| #[trigger] unify_spec(a, b, m, f) is Some)->Some_0
}

/// Any budget of steps that suffices gives the same outcome.
pub proof fn lemma_unify_outcome(a: TyView, b: TyView, m: Map<Tv, TyView>, fuel: nat)
    requires
        unify_spec(a, b, m, fuel) is Some,
    ensures
        unify_spec(a, b, m, fuel) == Some(unify_outcome(a, b, m)),
{
    let c = choose|f: nat| #[trigger] unify_spec(a, b, m, f) is Some;
    if fuel <= c {
        lemma_unify_mono(a, b, m, fuel, c);
    } else {
        lemma_unify_mono(a, b, m, c, fuel);
    }
}

/// Whether a type has no quantifier in it.
pub open spec fn quantifier_free(t: TyView) -> bool
    decreases t,
{
    match t {
        TyView::App(h, args) => quantifier_free(*h) && forall|i: int| 0 <= i < args.len() ==> quantifier_free(#[trigger] args[i]),
        TyView::Struct(_, ps) => forall|i: int| 0 <= i < ps.len() ==> quantifier_free(#[trigger] ps[i]),
        TyView::Enum(_, ps) => forall|i: int| 0 <= i < ps.len() ==> quantifier_free(#[trigger] ps[i]),
        TyView::ForAll(_, _) => false,
        _ => true,
    }
}

proof fn lemma_unify_self(t: TyView) -> (f: nat)
    requires
        quantifier_free(t),
    ensures
        unify_spec(t, t, Map::empty(), f) == Some((Ok::<(), Seq<char>>(()), Map::<Tv, TyView>::empty())),
    decreases t, 0int,
{
    let e = Map::<Tv, TyView>::empty();
    lemma_apply_empty(t);
    match t {
        TyView::App(h, args) => {
            let fh = lemma_unify_self(*h);
            let fa = lemma_unify_all_self(args, 0);
            let g: nat = if fh <= fa { fa } else { fh };
            lemma_unify_mono(*h, *h, e, fh, g);
            lemma_unify_all_mono(args, args, 0, e, fa, g);
            g + 1
        },
        TyView::Struct(_, ps) => {
            let fa = lemma_unify_all_self(ps, 0);
            fa + 1
        },
        TyView::Enum(_, ps) => {
            let fa = lemma_unify_all_self(ps, 0);
            fa + 1
        },
        _ => 1,
    }
}

proof fn lemma_unify_all_self(ts: Seq<TyView>, i: int) -> (f: nat)
    requires
        0 <= i <= ts.len(),
        forall|k: int| 0 <= k < ts.len() ==> quantifier_free(#[trigger] ts[k]),
    ensures
        unify_all(ts, ts, i, Map::empty(), f) == Some((Ok::<(), Seq<char>>(()), Map::<Tv, TyView>::empty())),
    decreases ts, ts.len() - i,
{
    let e = Map::<Tv, TyView>::empty();
    if i == ts.len() {
        0
    } else {
        let fi = lemma_unify_self(ts[i]);
        let fr = lemma_unify_all_self(ts, i + 1);
        let g: nat = if fi <= fr { fr } else { fi };
        lemma_unify_mono(ts[i], ts[i], e, fi, g);
        lemma_unify_all_mono(ts, ts, i + 1, e, fr, g);
        g
    }
}

/// Unifying a type without quantifiers with itself, under the empty
/// substitution, comes to an end, succeeds, and binds nothing.
pub proof fn lemma_unify_with_itself(t: TyView)
    requires
        quantifier_free(t),
    ensures
        unify_halts(t, t, Map::empty()),
        unify_outcome(t, t, Map::empty()) == (Ok::<(), Seq<char>>(()), Map::<Tv, TyView>::empty()),
{
    let f = lemma_unify_self(t);
    lemma_unify_outcome(t, t, Map::empty(), f);
}

/// Unifies `a` with `b` under `subst`, binding variables in it: the
/// outcome described by `unify_spec`, where that comes to an end.
pub fn unify(a: &Ty, b: &Ty, subst: &mut Subst) -> (r: Result<(), XLError>)
    requires
        unify_halts(a@, b@, old(subst)@),
    ensures
        final(subst)@ == unify_outcome(a@, b@, old(subst)@).1,
        outcome_is(r, unify_outcome(a@, b@, old(subst)@).0),
{
    let ghost fuel = choose|f: nat| #[trigger] unify_spec(a@, b@, subst@, f) is Some;
    unify_fuel(a, b, subst, Ghost(fuel))
}

/// Whether `r`, with the substitution `fin` after it, is what a run with a
/// budget of steps gives (`spec`): nothing where the budget ran out (the
/// substitution then keeps what was bound before), else the same result and
/// substitution.
pub open spec fn budget_outcome(r: Option<Result<(), XLError>>, spec: Option<(Result<(), Seq<char>>, Map<Tv, TyView>)>, fin: Map<Tv, TyView>) -> bool {
    match (r, spec) {
        (None, None) => true,
        (Some(x), Some((res, m))) => fin == m && outcome_is(x, res),
        _ => false,
    }
}

fn occurs_within(tv: Tv, ty: &Ty, subst: &Subst, fuel: u64) -> (r: Option<bool>)
    ensures
        r == occurs_spec(tv, ty@, subst@, fuel as nat),
    decreases fuel, 0nat,
{
    if fuel == 0 {
        return None;
    }
    let t = subst.apply(ty);
    let f1 = fuel - 1;
    match t {
        Ty::Var(v) => Some(v == tv),
        Ty::App(h, args) => match occurs_within(tv, &*h, subst, f1) {
            Some(false) => occurs_in_within(tv, &args, subst, f1),
            o => o,
        },
        Ty::Struct(_, fields) => occurs_in_within(tv, &fields, subst, f1),
        Ty::Enum(_, fields) => occurs_in_within(tv, &fields, subst, f1),
        Ty::ForAll(_, body) => occurs_within(tv, &*body, subst, f1),
        _ => Some(false),
    }
}

fn occurs_in_within(tv: Tv, ts: &Vec<Ty>, subst: &Subst, fuel: u64) -> (r: Option<bool>)
    ensures
        r == occurs_any(tv, tys_view(ts@), 0, subst@, fuel as nat),
    decreases fuel, 1nat,
{
    let ghost views = tys_view(ts@);
    let mut i: usize = 0;
    while i < ts.len()
        invariant
            i <= ts@.len(),
            views == tys_view(ts@),
            occurs_any(tv, views, i as int, subst@, fuel as nat) == occurs_any(tv, views, 0, subst@, fuel as nat),
        decreases ts@.len() - i,
    {
        assert(views[i as int] == ts@[i as int]@);
        match occurs_within(tv, &ts[i], subst, fuel) {
            Some(false) => {},
            o => {
                return o;
            },
        }
        i += 1;
    }
    Some(false)
}

fn bind_within(tv: Tv, ty: &Ty, subst: &mut Subst, fuel: u64) -> (r: Option<Result<(), XLError>>)
    ensures
        budget_outcome(r, bind_spec(tv, ty@, old(subst)@, fuel as nat), final(subst)@),
{
    if let Ty::Var(v2) = ty {
        if *v2 == tv {
            return Some(Ok(()));
        }
    }
    match occurs_within(tv, ty, subst, fuel) {
        None => None,
        Some(true) => Some(Err(semantic_error("occurs check failed"))),
        Some(false) => {
            subst.insert(tv, clone_ty(ty));
            Some(Ok(()))
        },
    }
}

fn unify_within_fuel(a: &Ty, b: &Ty, subst: &mut Subst, fuel: u64) -> (r: Option<Result<(), XLError>>)
    ensures
        budget_outcome(r, unify_spec(a@, b@, old(subst)@, fuel as nat), final(subst)@),
    decreases fuel, 0nat,
{
    if fuel == 0 {
        return None;
    }
    let a1 = subst.apply(a);
    let b1 = subst.apply(b);
    let sub = fuel - 1;
    if let Ty::Var(v) = &a1 {
        return bind_within(*v, &b1, subst, fuel);
    }
    if let Ty::Var(v) = &b1 {
        return bind_within(*v, &a1, subst, fuel);
    }
    let ghost av = a1@;
    let ghost bv = b1@;
    match (a1, b1) {
        (Ty::Prim(x), Ty::Prim(y)) => if str_eq(x, y) {
            Some(Ok(()))
        } else {
            Some(Err(semantic_error("type mismatch")))
        },
        (Ty::App(h1, args1), Ty::App(h2, args2)) => if args1.len() == args2.len() {
            assert(av == TyView::App(Box::new(h1@), tys_view(args1@)));
            assert(bv == TyView::App(Box::new(h2@), tys_view(args2@)));
            match unify_within_fuel(&*h1, &*h2, subst, sub) {
                Some(Ok(())) => unify_pairs_within(&args1, &args2, subst, sub),
                o => o,
            }
        } else {
            Some(Err(semantic_error("type mismatch")))
        },
        (Ty::Struct(na, pa), Ty::Struct(nb, pb)) => if na == nb && pa.len() == pb.len() {
            unify_pairs_within(&pa, &pb, subst, sub)
        } else {
            Some(Err(semantic_error("type mismatch")))
        },
        (Ty::Enum(na, pa), Ty::Enum(nb, pb)) => if na == nb && pa.len() == pb.len() {
            unify_pairs_within(&pa, &pb, subst, sub)
        } else {
            Some(Err(semantic_error("type mismatch")))
        },
        _ => Some(Err(semantic_error("type mismatch"))),
    }
}

fn unify_pairs_within(xs: &Vec<Ty>, ys: &Vec<Ty>, subst: &mut Subst, fuel: u64) -> (r: Option<Result<(), XLError>>)
    requires
        xs@.len() == ys@.len(),
    ensures
        budget_outcome(r, unify_all(tys_view(xs@), tys_view(ys@), 0, old(subst)@, fuel as nat), final(subst)@),
    decreases fuel, 1nat,
{
    let ghost xv = tys_view(xs@);
    let ghost yv = tys_view(ys@);
    let ghost whole = unify_all(xv, yv, 0, old(subst)@, fuel as nat);
    let mut i: usize = 0;
    while i < xs.len()
        invariant
            i <= xs@.len(),
            xs@.len() == ys@.len(),
            xv == tys_view(xs@),
            yv == tys_view(ys@),
            whole == unify_all(xv, yv, 0, old(subst)@, fuel as nat),
            unify_all(xv, yv, i as int, subst@, fuel as nat) == whole,
        decreases xs@.len() - i,
    {
        assert(xv[i as int] == xs@[i as int]@);
        assert(yv[i as int] == ys@[i as int]@);
        match unify_within_fuel(&xs[i], &ys[i], subst, fuel) {
            Some(Ok(())) => {},
            o => {
                return o;
            },
        }
        i += 1;
    }
    Some(Ok(()))
}

/// Unifies `a` with `b` under `subst` with at most `budget` nested steps:
/// the outcome that `unify_spec` gives for that budget, or `None` where the
/// budget runs out (what was bound before then stays bound). Unlike `unify`,
/// it asks nothing of its inputs.
pub fn unify_within(a: &Ty, b: &Ty, subst: &mut Subst, budget: u64) -> (r: Option<Result<(), XLError>>)
    ensures
        budget_outcome(r, unify_spec(a@, b@, old(subst)@, budget as nat), final(subst)@),
        r is Some ==> unify_halts(a@, b@, old(subst)@) && final(subst)@ == unify_outcome(a@, b@, old(subst)@).1
            && outcome_is(r->Some_0, unify_outcome(a@, b@, old(subst)@).0),
{
    let ghost before = subst@;
    let r = unify_within_fuel(a, b, subst, budget);
    proof {
        if r is Some {
            lemma_unify_outcome(a@, b@, before, budget as nat);
        }
    }
    r
}

} // verus!
