//! Inference of the types of expressions with schemes from an environment.

use vstd::prelude::*;

use super::env::{TypeEnv, env_map, lemma_env_map_has, lemma_env_view, names_unique};
use super::scheme::{Scheme, SchemeView, free_vars, ftv};
use super::subst::{Subst, apply_spec, compose_spec};
use super::ty::{Tv, Ty, TyView};
use crate::text::push_str;
use crate::xlc::ast::{BinaryOp, Expr, ExprView};
use crate::xlc::error::{XLError, XLErrorView};

verus! {

#[derive(Debug)]
pub enum TypeError {
    UnboundVar(String),
    Mismatch(Ty, Ty),
}

/// The type variables that occur free in some scheme of an environment.
pub open spec fn env_free(m: Map<Seq<char>, SchemeView>) -> Set<Tv> {
    Set::new(|v: Tv| exists|k: Seq<char>| m.contains_key(k) && #[trigger] free_vars(m[k].ty).contains(v))
}

/// Fresh variables for the quantified variables of a scheme: the `i`-th
/// becomes the variable numbered `n + i` (a repeated variable gets the last).
pub open spec fn inst_map(vs: Seq<Tv>, n: int) -> Map<Tv, TyView>
    decreases vs.len(),
{
    if vs.len() == 0 {
        Map::empty()
    } else {
        inst_map(vs.drop_last(), n).insert(vs.last(), TyView::Var(Tv((n + vs.len() - 1) as u32)))
    }
}

/// The number of fresh variables that inferring `e` uses.
pub open spec fn inst_cost(e: ExprView, env: Map<Seq<char>, SchemeView>) -> nat
    decreases e,
{
    match e {
        ExprView::Ident(x) => if env.contains_key(x) {
            env[x].vars.len()
        } else {
            0
        },
        ExprView::Binary { left, right, .. } => inst_cost(*left, env) + inst_cost(*right, env),
        _ => 0,
    }
}

/// What inference makes of `e` from the variable number `n` on: the type or
/// the error message, and the next unused variable number. Literals have their
/// primitive types; a name gets a fresh instance of its scheme; a binary
/// expression needs two `Int` sides and is `Int`; anything else is not
/// inferred.
pub open spec fn infer_spec(e: ExprView, env: Map<Seq<char>, SchemeView>, n: int) -> (Result<TyView, Seq<char>>, int)
    decreases e,
{
    match e {
        ExprView::Int(_) => (Ok(TyView::Prim("Int"@)), n),
        ExprView::Bool(_) => (Ok(TyView::Prim("Bool"@)), n),
        ExprView::Ident(x) => if env.contains_key(x) {
            (Ok(apply_spec(inst_map(env[x].vars, n), env[x].ty)), n + env[x].vars.len())
        } else {
            (Err("unbound identifier "@ + x), n)
        },
        ExprView::Binary { left, right, .. } => {
            let (r1, n1) = infer_spec(*left, env, n);
            match r1 {
                Err(m) => (Err(m), n1),
                Ok(t1) => {
                    let (r2, n2) = infer_spec(*right, env, n1);
                    match r2 {
                        Err(m) => (Err(m), n2),
                        Ok(t2) => if t1 != TyView::Prim("Int"@) || t2 != TyView::Prim("Int"@) {
                            (Err("type mismatch in binary"@), n2)
                        } else {
                            (Ok(TyView::Prim("Int"@)), n2)
                        },
                    }
                },
            }
        },
        _ => (Err("inference not implemented for expr"@), n),
    }
}

proof fn lemma_infer_next(e: ExprView, env: Map<Seq<char>, SchemeView>, n: int)
    ensures
        n <= infer_spec(e, env, n).1 <= n + inst_cost(e, env),
    decreases e,
{
    match e {
        ExprView::Binary { left, right, .. } => {
            lemma_infer_next(*left, env, n);
            lemma_infer_next(*right, env, infer_spec(*left, env, n).1);
        },
        _ => {},
    }
}

proof fn lemma_no_cost_without_names(e: ExprView)
    ensures
        inst_cost(e, Map::empty()) == 0,
    decreases e,
{
    match e {
        ExprView::Binary { left, right, .. } => {
            lemma_no_cost_without_names(*left);
            lemma_no_cost_without_names(*right);
        },
        _ => {},
    }
}

/// The scheme of `ty` quantified over its variables that are not free in the
/// environment.
fn generalise(env: &TypeEnv, ty: Ty) -> (sc: Scheme)
    ensures
        sc.ty == ty,
        sc.vars@.no_duplicates(),
        sc.vars@.to_set() == free_vars(ty@).difference(env_free(env@)),
{
    proof {
        use_type_invariant(env);
        lemma_env_view(env);
    }
    let mut free_ty: Vec<Tv> = Vec::new();
    ftv(&ty, &mut free_ty);
    assert(Seq::<Tv>::empty().to_set() =~= Set::<Tv>::empty());
    assert(free_ty@.to_set() =~= free_vars(ty@));
    let mut free_env: Vec<Tv> = Vec::new();
    let mut i: usize = 0;
    while i < env.entries.len()
        invariant
            i <= env.entries@.len(),
            names_unique(env.entries@),
            free_env@.to_set() == Set::new(|v: Tv| exists|j: int| 0 <= j < i && #[trigger] free_vars(env.entries@[j].1.ty@).contains(v)),
        decreases env.entries@.len() - i,
    {
        let ghost before = free_env@.to_set();
        ftv(&env.entries[i].1.ty, &mut free_env);
        proof {
            assert(free_env@.to_set() =~= Set::new(|v: Tv| exists|j: int| 0 <= j < i + 1 && #[trigger] free_vars(env.entries@[j].1.ty@).contains(v))) by {
                assert forall|v: Tv| free_env@.to_set().contains(v) implies exists|j: int| 0 <= j < i + 1 && #[trigger] free_vars(env.entries@[j].1.ty@).contains(v) by {
                    if !before.contains(v) {
                        assert(free_vars(env.entries@[i as int].1.ty@).contains(v));
                    }
                }
            }
        }
        i += 1;
    }
    proof {
        assert(free_env@.to_set() =~= env_free(env@)) by {
            assert forall|v: Tv| #[trigger] env_free(env@).contains(v) implies free_env@.to_set().contains(v) by {
                let k = choose|k: Seq<char>| env@.contains_key(k) && #[trigger] free_vars(env@[k].ty).contains(v);
                lemma_env_map_has(env.entries@, k);
                let j = choose|j: int| 0 <= j < env.entries@.len() && #[trigger] env.entries@[j].0@ == k;
                assert(free_vars(env.entries@[j].1.ty@).contains(v));
            }
            assert forall|v: Tv| free_env@.to_set().contains(v) implies #[trigger] env_free(env@).contains(v) by {
                let j = choose|j: int| 0 <= j < env.entries@.len() && #[trigger] free_vars(env.entries@[j].1.ty@).contains(v);
                let k = env.entries@[j].0@;
                lemma_env_map_has(env.entries@, k);
                assert(env@.contains_key(k) && free_vars(env@[k].ty).contains(v));
            }
        }
    }
    let mut vars: Vec<Tv> = Vec::new();
    let mut k: usize = 0;
    while k < free_ty.len()
        invariant
            k <= free_ty@.len(),
            free_ty@.no_duplicates(),
            vars@.no_duplicates(),
            free_env@.to_set() == env_free(env@),
            forall|x: Tv| vars@.contains(x) <==> exists|j: int| 0 <= j < k && #[trigger] free_ty@[j] == x && !free_env@.contains(x),
        decreases free_ty@.len() - k,
    {
        let v = free_ty[k];
        let mut found = false;
        let mut m: usize = 0;
        while m < free_env.len()
            invariant
                m <= free_env@.len(),
                found == exists|j: int| 0 <= j < m && free_env@[j] == v,
            decreases free_env@.len() - m,
        {
            if free_env[m] == v {
                found = true;
            }
            m += 1;
        }
        if !found {
            let ghost before = vars@;
            vars.push(v);
            proof {
                assert forall|x: Tv| vars@.contains(x) <==> exists|j: int| 0 <= j < k + 1 && #[trigger] free_ty@[j] == x && !free_env@.contains(x) by {
                    if vars@.contains(x) && !before.contains(x) {
                        let w = choose|w: int| 0 <= w < vars@.len() && vars@[w] == x;
                        assert(w == before.len());
                    }
                    if before.contains(x) {
                        let w = choose|w: int| 0 <= w < before.len() && before[w] == x;
                        assert(vars@[w] == x);
                    }
                    if x == v {
                        assert(vars@[before.len() as int] == x);
                    }
                }
                assert forall|a: int, b: int| 0 <= a < b < vars@.len() implies vars@[a] != vars@[b] by {
                    if b == before.len() {
                        assert(before[a] == vars@[a]);
                        assert(before.contains(vars@[a]));
                        let j = choose|j: int| 0 <= j < k && #[trigger] free_ty@[j] == vars@[a] && !free_env@.contains(vars@[a]);
                        assert(free_ty@[j] != free_ty@[k as int]);
                    }
                }
            }
        }
        k += 1;
    }
    proof {
        assert(vars@.to_set() =~= free_vars(ty@).difference(env_free(env@))) by {
            assert forall|x: Tv| vars@.to_set().contains(x) <==> free_ty@.to_set().contains(x) && !free_env@.to_set().contains(x) by {
                if free_ty@.to_set().contains(x) && !free_env@.to_set().contains(x) {
                    let j = choose|j: int| 0 <= j < free_ty@.len() && free_ty@[j] == x;
                    assert(free_ty@[j] == x);
                }
            }
        }
    }
    Scheme::new(vars, ty)
}

/// A fresh instance of a scheme: its variables replaced by new ones, numbered
/// from `next` on.
fn instantiate(scheme: &Scheme, next: &mut u32) -> (t: Ty)
    requires
        *old(next) + scheme.vars@.len() <= u32::MAX,
    ensures
        *final(next) == *old(next) + scheme.vars@.len(),
        t@ == apply_spec(inst_map(scheme.vars@, *old(next) as int), scheme.ty@),
{
    let mut subst = Subst::empty();
    let mut i: usize = 0;
    while i < scheme.vars.len()
        invariant
            i <= scheme.vars@.len(),
            *old(next) + scheme.vars@.len() <= u32::MAX,
            *next == *old(next) + i,
            subst@ == inst_map(scheme.vars@.take(i as int), *old(next) as int),
        decreases scheme.vars@.len() - i,
    {
        let tv = scheme.vars[i];
        subst.insert(tv, Ty::Var(Tv(*next)));
        proof {
            assert(scheme.vars@.take(i + 1).drop_last() =~= scheme.vars@.take(i as int));
        }
        *next = *next + 1;
        i += 1;
    }
    proof {
        assert(scheme.vars@.take(i as int) =~= scheme.vars@);
    }
    subst.apply(&scheme.ty)
}

fn semantic(m: String) -> (e: XLError)
    ensures
        e@ == XLErrorView::SemanticError(m@),
{
    XLError::SemanticError(m)
}

fn infer(expr: &Expr, env: &mut TypeEnv, next: &mut u32) -> (r: Result<(Ty, Subst), XLError>)
    requires
        *old(next) + inst_cost(expr@, old(env)@) <= u32::MAX,
    ensures
        *final(env) == *old(env),
        *final(next) == infer_spec(expr@, old(env)@, *old(next) as int).1,
        match (r, infer_spec(expr@, old(env)@, *old(next) as int).0) {
            (Ok((t, s)), Ok(u)) => t@ == u && s@ == Map::<Tv, TyView>::empty(),
            (Err(e), Err(m)) => e@ == XLErrorView::SemanticError(m),
            _ => false,
        },
    decreases expr,
{
    proof {
        lemma_infer_next(expr@, env@, *next as int);
    }
    match expr {
        Expr::Int(_) => Ok((Ty::int_type(), Subst::empty())),
        Expr::Bool(_) => Ok((Ty::bool(), Subst::empty())),
        Expr::Ident(name) => match env.lookup(name.as_str()) {
            Some(sc) => {
                let ty = instantiate(&sc, next);
                Ok((ty, Subst::empty()))
            },
            None => {
                let mut m = String::new();
                push_str(&mut m, "unbound identifier ");
                push_str(&mut m, name.as_str());
                Err(semantic(m))
            },
        },
        Expr::Binary { op, left, right } => {
            proof {
                lemma_infer_next(left@, env@, *next as int);
            }
            let (t1, s1) = infer(&**left, env, next)?;
            let (t2, s2) = infer(&**right, env, next)?;
            if *op == BinaryOp::Add || *op == BinaryOp::Sub || *op == BinaryOp::Mul || *op == BinaryOp::Div {
                if t1 != Ty::int_type() || t2 != Ty::int_type() {
                    let mut m = String::new();
                    push_str(&mut m, "type mismatch in binary");
                    return Err(semantic(m));
                }
                proof {
                    s2.lemma_empty_bindings();
                    assert(compose_spec(s1@, s2.bindings()) == s1@);
                }
                Ok((Ty::int_type(), s1.compose(&s2)))
            } else {
                let mut m = String::new();
                push_str(&mut m, "unsupported op");
                Err(semantic(m))
            }
        },
        _ => {
            let mut m = String::new();
            push_str(&mut m, "inference not implemented for expr");
            Err(semantic(m))
        },
    }
}

/// The type of `expr` in an empty environment.
pub fn infer_expr(expr: &Expr) -> (r: Result<Ty, XLError>)
    ensures
        match (r, infer_spec(expr@, Map::empty(), 0).0) {
            (Ok(t), Ok(u)) => t@ == u,
            (Err(e), Err(m)) => e@ == XLErrorView::SemanticError(m),
            _ => false,
        },
{
    let mut env = TypeEnv::new();
    let mut next = 0u32;
    proof {
        lemma_no_cost_without_names(expr@);
    }
    let (ty, _subst) = infer(expr, &mut env, &mut next)?;
    Ok(ty)
}

} // verus!
