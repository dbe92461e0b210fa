//! Type schemes and free type variables.

use vstd::prelude::*;

use super::ty::{Tv, Ty, TyView, clone_ty, tys_view};

verus! {

/// A type with some of its variables quantified.
#[derive(Debug)]
pub struct Scheme {
    pub vars: Vec<Tv>,
    pub ty: Ty,
}

/// The value of a scheme.
pub struct SchemeView {
    pub vars: Seq<Tv>,
    pub ty: TyView,
}

impl View for Scheme {
    type V = SchemeView;

    open spec fn view(&self) -> SchemeView {
        SchemeView { vars: self.vars@, ty: self.ty@ }
    }
}

impl Scheme {
    pub fn new(vars: Vec<Tv>, ty: Ty) -> (s: Self)
        ensures
            s.vars == vars,
            s.ty == ty,
    {
        Scheme { vars, ty }
    }
}

/// A copy of a scheme.
pub fn clone_scheme(s: &Scheme) -> (r: Scheme)
    ensures
        r@ == s@,
{
    let mut vars: Vec<Tv> = Vec::new();
    let mut i: usize = 0;
    while i < s.vars.len()
        invariant
            i <= s.vars@.len(),
            vars@ == s.vars@.take(i as int),
        decreases s.vars@.len() - i,
    {
        vars.push(s.vars[i]);
        proof {
            assert(vars@ =~= s.vars@.take(i + 1));
        }
        i += 1;
    }
    assert(s.vars@.take(i as int) =~= s.vars@);
    Scheme { vars, ty: clone_ty(&s.ty) }
}

impl Clone for Scheme {
    fn clone(&self) -> (r: Scheme)
        ensures
            r@ == self@,
    {
        clone_scheme(self)
    }
}

/// The type variables that occur free in a type: those that a quantifier
/// binds are not free in its body.
pub open spec fn free_vars(t: TyView) -> Set<Tv>
    decreases t,
{
    match t {
        TyView::Var(v) => set![v],
        TyView::Prim(_) => Set::empty(),
        TyView::App(h, args) => free_vars(*h).union(free_vars_list(args)),
        TyView::Struct(_, ps) => free_vars_list(ps),
        TyView::Enum(_, ps) => free_vars_list(ps),
        TyView::ForAll(vs, body) => free_vars(*body).difference(vs.to_set()),
    }
}

/// The type variables that occur in a list of types.
pub open spec fn free_vars_list(ts: Seq<TyView>) -> Set<Tv>
    decreases ts,
{
    if ts.len() == 0 {
        Set::empty()
    } else {
        free_vars_list(ts.drop_last()).union(free_vars(ts.last()))
    }
}

fn add_tv(acc: &mut Vec<Tv>, v: Tv)
    ensures
        final(acc)@.to_set() == old(acc)@.to_set().insert(v),
        old(acc)@.no_duplicates() ==> final(acc)@.no_duplicates(),
{
    let mut i: usize = 0;
    while i < acc.len()
        invariant
            i <= acc@.len(),
            acc@ == old(acc)@,
            forall|j: int| 0 <= j < i ==> acc@[j] != v,
        decreases acc@.len() - i,
    {
        if acc[i] == v {
            assert(acc@.to_set() =~= acc@.to_set().insert(v));
            return;
        }
        i += 1;
    }
    let ghost before = acc@;
    acc.push(v);
    proof {
        let after = acc@;
        assert forall|x: Tv| after.contains(x) <==> before.contains(x) || x == v by {
            if acc@.contains(x) {
                let j = choose|j: int| 0 <= j < acc@.len() && acc@[j] == x;
                if j < before.len() {
                    assert(before[j] == x);
                }
            }
            if before.contains(x) {
                let j = choose|j: int| 0 <= j < before.len() && before[j] == x;
                assert(acc@[j] == x);
            }
            if x == v {
                assert(acc@[before.len() as int] == x);
            }
        }
        assert(after.to_set() =~= before.to_set().insert(v));
    }
}

fn tv_in(vs: &Vec<Tv>, v: Tv) -> (r: bool)
    ensures
        r == vs@.contains(v),
{
    let mut i: usize = 0;
    while i < vs.len()
        invariant
            i <= vs@.len(),
            forall|j: int| 0 <= j < i ==> vs@[j] != v,
        decreases vs@.len() - i,
    {
        if vs[i] == v {
            assert(vs@[i as int] == v);
            return true;
        }
        i += 1;
    }
    false
}

proof fn lemma_push_to_set(s: Seq<Tv>, v: Tv)
    ensures
        s.push(v).to_set() == s.to_set().insert(v),
{
    let t = s.push(v);
    assert forall|x: Tv| t.contains(x) <==> s.contains(x) || x == v by {
        if t.contains(x) {
            let j = choose|j: int| 0 <= j < t.len() && t[j] == x;
            if j < s.len() {
                assert(s[j] == x);
            }
        }
        if s.contains(x) {
            let j = choose|j: int| 0 <= j < s.len() && s[j] == x;
            assert(t[j] == x);
        }
        if x == v {
            assert(t[s.len() as int] == x);
        }
    }
    assert(t.to_set() =~= s.to_set().insert(v));
}

fn ftv_list(ts: &Vec<Ty>, acc: &mut Vec<Tv>)
    ensures
        final(acc)@.to_set() == old(acc)@.to_set().union(free_vars_list(tys_view(ts@))),
        old(acc)@.no_duplicates() ==> final(acc)@.no_duplicates(),
    decreases ts@, 0nat,
{
    let ghost views = tys_view(ts@);
    let ghost start = acc@;
    let mut i: usize = 0;
    proof {
        assert(views.take(0) =~= Seq::<TyView>::empty());
        assert(start.to_set().union(Set::<Tv>::empty()) =~= start.to_set());
    }
    while i < ts.len()
        invariant
            i <= ts@.len(),
            views == tys_view(ts@),
            start == old(acc)@,
            acc@.to_set() == start.to_set().union(free_vars_list(views.take(i as int))),
            start.no_duplicates() ==> acc@.no_duplicates(),
        decreases ts@.len() - i,
    {
        proof {
            assert(views.take(i + 1).drop_last() =~= views.take(i as int));
            assert(views[i as int] == ts@[i as int]@);
            assert(decreases_to!(ts@ => ts@[i as int]));
        }
        ftv(&ts[i], acc);
        proof {
            assert(acc@.to_set() =~= start.to_set().union(free_vars_list(views.take(i + 1))));
        }
        i += 1;
    }
    proof {
        assert(views.take(i as int) =~= views);
    }
}

/// Adds the type variables of `ty` to `acc`, each once.
pub fn ftv(ty: &Ty, acc: &mut Vec<Tv>)
    ensures
        final(acc)@.to_set() == old(acc)@.to_set().union(free_vars(ty@)),
        old(acc)@.no_duplicates() ==> final(acc)@.no_duplicates(),
    decreases *ty, 1nat,
{
    match ty {
        Ty::Var(v) => {
            add_tv(acc, *v);
            assert(old(acc)@.to_set().insert(*v) =~= old(acc)@.to_set().union(set![*v]));
        },
        Ty::App(h, args) => {
            ftv(&**h, acc);
            ftv_list(args, acc);
            assert(acc@.to_set() =~= old(acc)@.to_set().union(free_vars(ty@)));
        },
        Ty::Struct(_, ps) => ftv_list(ps, acc),
        Ty::Enum(_, ps) => ftv_list(ps, acc),
        Ty::ForAll(vs, t) => {
            let mut inner: Vec<Tv> = Vec::new();
            ftv(&**t, &mut inner);
            let ghost bound = vs@.to_set();
            let mut k: usize = 0;
            proof {
                assert(inner@.take(0).to_set() =~= Set::<Tv>::empty());
                assert(old(acc)@.to_set().union(Set::<Tv>::empty().difference(bound)) =~= old(acc)@.to_set());
            }
            while k < inner.len()
                invariant
                    k <= inner@.len(),
                    bound == vs@.to_set(),
                    acc@.to_set() == old(acc)@.to_set().union(inner@.take(k as int).to_set().difference(bound)),
                    old(acc)@.no_duplicates() ==> acc@.no_duplicates(),
                decreases inner@.len() - k,
            {
                let v = inner[k];
                let ghost before = acc@.to_set();
                if !tv_in(vs, v) {
                    add_tv(acc, v);
                }
                proof {
                    assert(inner@.take(k + 1) =~= inner@.take(k as int).push(v));
                    lemma_push_to_set(inner@.take(k as int), v);
                    assert(acc@.to_set() =~= old(acc)@.to_set().union(inner@.take(k + 1).to_set().difference(bound)));
                }
                k += 1;
            }
            proof {
                assert(inner@.take(k as int) =~= inner@);
                assert(acc@.to_set() =~= old(acc)@.to_set().union(free_vars(ty@)));
            }
        },
        Ty::Prim(_) => {
            assert(old(acc)@.to_set().union(Set::<Tv>::empty()) =~= old(acc)@.to_set());
        },
    }
}

} // verus!
