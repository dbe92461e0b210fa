//! Substitutions of types for type variables.

use vstd::prelude::*;

use super::scheme::{free_vars, free_vars_list};
use super::ty::{Tv, Ty, TyView, clone_ty, tys_view};

verus! {

/// Whether no variable is bound twice.
pub open spec fn keys_unique(es: Seq<(Tv, Ty)>) -> bool {
    forall|i: int, j: int| 0 <= i < j < es.len() ==> es[i].0 != es[j].0
}

/// The map that a list of bindings stands for.
pub open spec fn subst_map(es: Seq<(Tv, Ty)>) -> Map<Tv, TyView>
    decreases es.len(),
{
    if es.len() == 0 {
        Map::empty()
    } else {
        subst_map(es.drop_last()).insert(es.last().0, es.last().1@)
    }
}

proof fn lemma_subst_map_has(es: Seq<(Tv, Ty)>, k: Tv)
    requires
        keys_unique(es),
    ensures
        subst_map(es).contains_key(k) <==> exists|i: int| 0 <= i < es.len() && #[trigger] es[i].0 == k,
        forall|i: int| 0 <= i < es.len() && #[trigger] es[i].0 == k ==> subst_map(es)[k] == es[i].1@,
    decreases es.len(),
{
    if es.len() > 0 {
        let d = es.drop_last();
        lemma_subst_map_has(d, k);
        assert forall|i: int| 0 <= i < d.len() implies #[trigger] d[i] == es[i] by {}
        if exists|i: int| 0 <= i < es.len() && #[trigger] es[i].0 == k {
            let i = choose|i: int| 0 <= i < es.len() && #[trigger] es[i].0 == k;
            if i < d.len() {
                assert(d[i].0 == k);
            }
        }
    }
}

proof fn lemma_subst_map_update(es: Seq<(Tv, Ty)>, i: int, t: Ty)
    requires
        keys_unique(es),
        0 <= i < es.len(),
    ensures
        subst_map(es.update(i, (es[i].0, t))) == subst_map(es).insert(es[i].0, t@),
        keys_unique(es.update(i, (es[i].0, t))),
    decreases es.len(),
{
    let k = es[i].0;
    let u = es.update(i, (k, t));
    if i == es.len() - 1 {
        assert(u.drop_last() =~= es.drop_last());
        assert(subst_map(u) =~= subst_map(es).insert(k, t@));
    } else {
        let d = es.drop_last();
        lemma_subst_map_update(d, i, t);
        assert(u.drop_last() =~= d.update(i, (k, t)));
        assert(es.last().0 != k);
        assert(subst_map(u) =~= subst_map(es).insert(k, t@));
    }
}

proof fn lemma_subst_map_remove(es: Seq<(Tv, Ty)>, i: int)
    requires
        keys_unique(es),
        0 <= i < es.len(),
    ensures
        subst_map(es.remove(i)) == subst_map(es).remove(es[i].0),
        keys_unique(es.remove(i)),
    decreases es.len(),
{
    let k = es[i].0;
    let r = es.remove(i);
    if i == es.len() - 1 {
        assert(r =~= es.drop_last());
        lemma_subst_map_has(es.drop_last(), k);
        assert(subst_map(r) =~= subst_map(es).remove(k));
    } else {
        let d = es.drop_last();
        lemma_subst_map_remove(d, i);
        assert(r.drop_last() =~= d.remove(i));
        assert(r.last() == es.last());
        assert(es.last().0 != k);
        assert(subst_map(r) =~= subst_map(es).remove(k));
    }
}

/// Applying a substitution: a bound variable becomes its binding (once, not
/// again), an application has its head and arguments substituted, a
/// quantifier has its body substituted without its own variables; anything
/// else stays as it is.
pub open spec fn apply_spec(m: Map<Tv, TyView>, t: TyView) -> TyView
    decreases t,
{
    match t {
        TyView::Var(v) => if m.contains_key(v) {
            m[v]
        } else {
            t
        },
        TyView::App(h, args) => TyView::App(
            Box::new(apply_spec(m, *h)),
            Seq::new(args.len(), |i: int| if 0 <= i < args.len() { apply_spec(m, args[i]) } else { args[i] }),
        ),
        TyView::ForAll(vs, body) => TyView::ForAll(vs, Box::new(apply_spec(m.remove_keys(vs.to_set()), *body))),
        _ => t,
    }
}

/// The empty substitution leaves every type as it is.
pub proof fn lemma_apply_empty(t: TyView)
    ensures
        apply_spec(Map::empty(), t) == t,
    decreases t,
{
    let e = Map::<Tv, TyView>::empty();
    match t {
        TyView::App(h, args) => {
            lemma_apply_empty(*h);
            assert forall|i: int| 0 <= i < args.len() implies apply_spec(e, args[i]) == args[i] by {
                assert(decreases_to!(t => args[i]));
                lemma_apply_empty(args[i]);
            }
            assert(apply_spec(e, t)->App_1 =~= args);
        },
        TyView::ForAll(vs, body) => {
            assert(e.remove_keys(vs.to_set()) =~= e);
            lemma_apply_empty(*body);
        },
        _ => {},
    }
}

/// Composition: each binding of `es` in turn, substituted by what has been
/// built so far, is added to it.
pub open spec fn compose_spec(m: Map<Tv, TyView>, es: Seq<(Tv, TyView)>) -> Map<Tv, TyView>
    decreases es.len(),
{
    if es.len() == 0 {
        m
    } else {
        let m1 = compose_spec(m, es.drop_last());
        m1.insert(es.last().0, apply_spec(m1, es.last().1))
    }
}

/// The map that a list of bindings of values stands for: a later binding of
/// a variable wins.
pub open spec fn pairs_map(es: Seq<(Tv, TyView)>) -> Map<Tv, TyView>
    decreases es.len(),
{
    if es.len() == 0 {
        Map::empty()
    } else {
        pairs_map(es.drop_last()).insert(es.last().0, es.last().1)
    }
}

/// Whether no variable that `es` binds occurs free in a type that it binds.
pub open spec fn idempotent(es: Seq<(Tv, TyView)>) -> bool {
    forall|i: int, j: int| 0 <= i < es.len() && 0 <= j < es.len() ==> !(#[trigger] free_vars(es[j].1)).contains(#[trigger] es[i].0)
}

proof fn lemma_free_vars_list_has(ts: Seq<TyView>, i: int)
    requires
        0 <= i < ts.len(),
    ensures
        free_vars(ts[i]).subset_of(free_vars_list(ts)),
    decreases ts.len(),
{
    if i < ts.len() - 1 {
        lemma_free_vars_list_has(ts.drop_last(), i);
        assert(ts.drop_last()[i] == ts[i]);
    }
}

/// Two substitutions that agree on the free variables of `t` apply alike.
proof fn lemma_apply_agree(m1: Map<Tv, TyView>, m2: Map<Tv, TyView>, t: TyView)
    requires
        forall|v: Tv| #[trigger] free_vars(t).contains(v) ==> (m1.contains_key(v) == m2.contains_key(v) && (m1.contains_key(v) ==> m1[v] == m2[v])),
    ensures
        apply_spec(m1, t) == apply_spec(m2, t),
    decreases t,
{
    match t {
        TyView::Var(v) => {
            assert(free_vars(t).contains(v));
        },
        TyView::App(h, args) => {
            assert forall|v: Tv| #[trigger] free_vars(*h).contains(v) implies (m1.contains_key(v) == m2.contains_key(v) && (m1.contains_key(v) ==> m1[v] == m2[v])) by {
                assert(free_vars(t).contains(v));
            }
            lemma_apply_agree(m1, m2, *h);
            assert forall|i: int| 0 <= i < args.len() implies apply_spec(m1, args[i]) == apply_spec(m2, args[i]) by {
                lemma_free_vars_list_has(args, i);
                assert forall|v: Tv| #[trigger] free_vars(args[i]).contains(v) implies (m1.contains_key(v) == m2.contains_key(v) && (m1.contains_key(v) ==> m1[v] == m2[v])) by {
                    assert(free_vars_list(args).contains(v));
                    assert(free_vars(t).contains(v));
                }
                assert(decreases_to!(t => args[i]));
                lemma_apply_agree(m1, m2, args[i]);
            }
            assert(apply_spec(m1, t)->App_1 =~= apply_spec(m2, t)->App_1);
        },
        TyView::ForAll(vs, body) => {
            let r1 = m1.remove_keys(vs.to_set());
            let r2 = m2.remove_keys(vs.to_set());
            assert forall|v: Tv| #[trigger] free_vars(*body).contains(v) implies (r1.contains_key(v) == r2.contains_key(v) && (r1.contains_key(v) ==> r1[v] == r2[v])) by {
                if !vs.to_set().contains(v) {
                    assert(free_vars(t).contains(v));
                }
            }
            lemma_apply_agree(r1, r2, *body);
        },
        _ => {},
    }
}

proof fn lemma_compose_outside(m: Map<Tv, TyView>, es: Seq<(Tv, TyView)>, v: Tv)
    requires
        !pairs_map(es).contains_key(v),
    ensures
        compose_spec(m, es).contains_key(v) == m.contains_key(v),
        m.contains_key(v) ==> compose_spec(m, es)[v] == m[v],
    decreases es.len(),
{
    if es.len() > 0 {
        lemma_compose_outside(m, es.drop_last(), v);
    }
}

/// Applying a composition to a variable is applying the second
/// substitution, then the first, where the second is idempotent: no variable
/// it binds occurs free in what it binds.
pub proof fn lemma_compose_apply(m: Map<Tv, TyView>, es: Seq<(Tv, TyView)>, v: Tv)
    requires
        idempotent(es),
    ensures
        apply_spec(compose_spec(m, es), TyView::Var(v)) == apply_spec(m, apply_spec(pairs_map(es), TyView::Var(v))),
    decreases es.len(),
{
    if es.len() > 0 {
        let d = es.drop_last();
        let (k, t) = es.last();
        let m1 = compose_spec(m, d);
        assert(idempotent(d)) by {
            assert forall|i: int, j: int| 0 <= i < d.len() && 0 <= j < d.len() implies !(#[trigger] free_vars(d[j].1)).contains(#[trigger] d[i].0) by {
                assert(d[j] == es[j] && d[i] == es[i]);
            }
        }
        if v == k {
            assert forall|u: Tv| #[trigger] free_vars(t).contains(u) implies (m1.contains_key(u) == m.contains_key(u) && (m1.contains_key(u) ==> m1[u] == m[u])) by {
                if pairs_map(d).contains_key(u) {
                    lemma_pairs_map_key(d, u);
                    let i = choose|i: int| 0 <= i < d.len() && d[i].0 == u;
                    assert(es[i].0 == u);
                    assert(!free_vars(es[es.len() - 1].1).contains(es[i].0));
                } else {
                    lemma_compose_outside(m, d, u);
                }
            }
            lemma_apply_agree(m1, m, t);
        } else {
            lemma_compose_apply(m, d, v);
        }
    } else {
        lemma_apply_empty(TyView::Var(v));
    }
}

/// A composition binds exactly the variables that either substitution binds.
pub proof fn lemma_compose_keys(m: Map<Tv, TyView>, es: Seq<(Tv, TyView)>)
    ensures
        compose_spec(m, es).dom() == m.dom().union(pairs_map(es).dom()),
    decreases es.len(),
{
    if es.len() > 0 {
        lemma_compose_keys(m, es.drop_last());
        assert(compose_spec(m, es).dom() =~= m.dom().union(pairs_map(es).dom()));
    } else {
        assert(compose_spec(m, es).dom() =~= m.dom().union(pairs_map(es).dom()));
    }
}

proof fn lemma_pairs_map_key(es: Seq<(Tv, TyView)>, u: Tv)
    requires
        pairs_map(es).contains_key(u),
    ensures
        exists|i: int| 0 <= i < es.len() && es[i].0 == u,
    decreases es.len(),
{
    if es.last().0 != u {
        lemma_pairs_map_key(es.drop_last(), u);
        let i = choose|i: int| 0 <= i < es.len() - 1 && es.drop_last()[i].0 == u;
        assert(es[i].0 == u);
    } else {
        assert(es[es.len() - 1].0 == u);
    }
}

/// A substitution: type variables bound to types, each at most once.
#[derive(Debug)]
pub struct Subst {
    entries: Vec<(Tv, Ty)>,
}

impl View for Subst {
    type V = Map<Tv, TyView>;

    closed spec fn view(&self) -> Map<Tv, TyView> {
        subst_map(self.entries@)
    }
}

impl Subst {
    #[verifier::type_invariant]
    spec fn inv(self) -> bool {
        keys_unique(self.entries@)
    }

    /// The bindings in the order in which their variables were first bound.
    pub closed spec fn bindings(&self) -> Seq<(Tv, TyView)> {
        self.entries@.map_values(|p: (Tv, Ty)| (p.0, p.1@))
    }

    /// A substitution binds what its bindings, taken in order, bind.
    pub proof fn lemma_view_is_bindings(&self)
        ensures
            self@ == pairs_map(self.bindings()),
    {
        lemma_view_pairs(self.entries@);
    }

    /// A substitution that binds nothing has no bindings.
    pub proof fn lemma_empty_bindings(&self)
        requires
            self@ == Map::<Tv, TyView>::empty(),
        ensures
            self.bindings() == Seq::<(Tv, TyView)>::empty(),
    {
        if self.entries@.len() > 0 {
            assert(subst_map(self.entries@).contains_key(self.entries@.last().0));
        }
        assert(self.bindings() =~= Seq::<(Tv, TyView)>::empty());
    }

    /// No bindings.
    pub fn empty() -> (s: Self)
        ensures
            s@ == Map::<Tv, TyView>::empty(),
            s.bindings() == Seq::<(Tv, TyView)>::empty(),
    {
        let s = Subst { entries: Vec::new() };
        assert(s.bindings() =~= Seq::<(Tv, TyView)>::empty());
        s
    }

    fn index_of(&self, tv: Tv) -> (r: Option<usize>)
        ensures
            match r {
                Some(i) => i < self.entries@.len() && self.entries@[i as int].0 == tv,
                None => forall|i: int| 0 <= i < self.entries@.len() ==> self.entries@[i].0 != tv,
            },
    {
        let mut i: usize = 0;
        while i < self.entries.len()
            invariant
                i <= self.entries@.len(),
                forall|j: int| 0 <= j < i ==> self.entries@[j].0 != tv,
            decreases self.entries@.len() - i,
        {
            if self.entries[i].0 == tv {
                return Some(i);
            }
            i += 1;
        }
        None
    }

    /// Binds `tv` to `ty`, in place of any binding it had.
    pub fn insert(&mut self, tv: Tv, ty: Ty)
        ensures
            final(self)@ == old(self)@.insert(tv, ty@),
            old(self)@.contains_key(tv) ==> final(self).bindings() == old(self).bindings().update(
                old(self).bindings().index_of((tv, old(self)@[tv])),
                (tv, ty@),
            ),
            !old(self)@.contains_key(tv) ==> final(self).bindings() == old(self).bindings().push((tv, ty@)),
    {
        proof {
            use_type_invariant(&*self);
            lemma_subst_map_has(self.entries@, tv);
        }
        let ghost tyv = ty@;
        match self.index_of(tv) {
            Some(i) => {
                let ghost before = self.entries@;
                let ghost bb = self.bindings();
                proof {
                    lemma_subst_map_update(before, i as int, ty);
                    assert(bb[i as int] == (tv, before[i as int].1@));
                    assert(bb.index_of((tv, old(self)@[tv])) == i) by {
                        assert forall|j: int| 0 <= j < i implies bb[j] != (tv, old(self)@[tv]) by {
                            assert(before[j].0 != tv);
                        }
                        assert(bb[i as int] == (tv, old(self)@[tv]));
                    }
                }
                let mut es: Vec<(Tv, Ty)> = Vec::new();
                std::mem::swap(&mut es, &mut self.entries);
                es.set(i, (tv, ty));
                self.entries = es;
                proof {
                    assert(self.bindings() =~= bb.update(i as int, (tv, tyv)));
                }
            },
            None => {
                let ghost bb = self.bindings();
                let mut es: Vec<(Tv, Ty)> = Vec::new();
                std::mem::swap(&mut es, &mut self.entries);
                es.push((tv, ty));
                proof {
                    assert(keys_unique(es@));
                }
                self.entries = es;
                proof {
                    assert(self.entries@.drop_last() =~= old(self).entries@);
                    assert(self.bindings() =~= bb.push((tv, tyv)));
                }
            },
        }
    }

    /// Drops the binding of `tv`, if any.
    fn remove(&mut self, tv: Tv)
        ensures
            final(self)@ == old(self)@.remove(tv),
    {
        proof {
            use_type_invariant(&*self);
            lemma_subst_map_has(self.entries@, tv);
        }
        match self.index_of(tv) {
            Some(i) => {
                proof {
                    lemma_subst_map_remove(self.entries@, i as int);
                }
                let mut es: Vec<(Tv, Ty)> = Vec::new();
                std::mem::swap(&mut es, &mut self.entries);
                let _ = es.remove(i);
                self.entries = es;
            },
            None => {
                assert(old(self)@.remove(tv) =~= old(self)@);
            },
        }
    }

    fn lookup(&self, tv: Tv) -> (r: Option<Ty>)
        ensures
            match r {
                Some(t) => self@.contains_key(tv) && t@ == self@[tv],
                None => !self@.contains_key(tv),
            },
    {
        proof {
            use_type_invariant(self);
            lemma_subst_map_has(self.entries@, tv);
        }
        match self.index_of(tv) {
            Some(i) => Some(clone_ty(&self.entries[i].1)),
            None => None,
        }
    }

    /// A copy of this substitution, with the same bindings in the same order.
    pub fn copy(&self) -> (r: Subst)
        ensures
            r@ == self@,
            r.bindings() == self.bindings(),
    {
        proof {
            use_type_invariant(self);
        }
        let mut out: Vec<(Tv, Ty)> = Vec::new();
        let mut i: usize = 0;
        while i < self.entries.len()
            invariant
                i <= self.entries@.len(),
                out@.len() == i,
                keys_unique(self.entries@),
                forall|k: int| 0 <= k < i ==> (#[trigger] out@[k]).0 == self.entries@[k].0 && out@[k].1@ == self.entries@[k].1@,
            decreases self.entries@.len() - i,
        {
            let (tv, ty) = &self.entries[i];
            out.push((*tv, clone_ty(ty)));
            i += 1;
        }
        proof {
            assert(keys_unique(out@));
            lemma_same_map(out@, self.entries@);
        }
        let r = Subst { entries: out };
        assert(r.bindings() =~= self.bindings());
        r
    }

    /// `ty` with this substitution applied.
    #[verifier::loop_isolation(false)]
    pub fn apply(&self, ty: &Ty) -> (r: Ty)
        ensures
            r@ == apply_spec(self@, ty@),
        decreases *ty,
    {
        match ty {
            Ty::Var(v) => match self.lookup(*v) {
                Some(t) => t,
                None => Ty::Var(*v),
            },
            Ty::App(h, args) => {
                let nh = self.apply(&**h);
                let mut out: Vec<Ty> = Vec::new();
                let mut i: usize = 0;
                while i < args.len()
                    invariant
                        i <= args@.len(),
                        out@.len() == i,
                        forall|k: int| 0 <= k < i ==> (#[trigger] out@[k])@ == apply_spec(self@, args@[k]@),
                    decreases args@.len() - i,
                {
                    out.push(self.apply(&args[i]));
                    i += 1;
                }
                let r = Ty::App(Box::new(nh), out);
                proof {
                    assert(ty@ == TyView::App(Box::new(h@), tys_view(args@)));
                    assert(tys_view(out@) =~= apply_spec(self@, ty@)->App_1);
                }
                r
            },
            Ty::ForAll(vars, t) => {
                let mut inner = self.copy();
                let mut i: usize = 0;
                proof {
                    assert(vars@.take(0).to_set() =~= Set::<Tv>::empty());
                    assert(self@.remove_keys(Set::<Tv>::empty()) =~= self@);
                }
                while i < vars.len()
                    invariant
                        i <= vars@.len(),
                        inner@ == self@.remove_keys(vars@.take(i as int).to_set()),
                    decreases vars@.len() - i,
                {
                    inner.remove(vars[i]);
                    proof {
                        assert(vars@.take(i + 1) =~= vars@.take(i as int).push(vars@[i as int]));
                        let a = vars@.take(i as int);
                        let b = vars@.take(i + 1);
                        assert forall|x: Tv| b.contains(x) <==> a.contains(x) || x == vars@[i as int] by {
                            if b.contains(x) {
                                let j = choose|j: int| 0 <= j < b.len() && b[j] == x;
                                if j < i {
                                    assert(a[j] == x);
                                }
                            }
                            if a.contains(x) {
                                let j = choose|j: int| 0 <= j < a.len() && a[j] == x;
                                assert(b[j] == x);
                            }
                            if x == vars@[i as int] {
                                assert(b[i as int] == x);
                            }
                        }
                        assert(b.to_set() =~= a.to_set().insert(vars@[i as int]));
                        assert(inner@ =~= self@.remove_keys(vars@.take(i + 1).to_set()));
                    }
                    i += 1;
                }
                proof {
                    assert(vars@.take(i as int) =~= vars@);
                }
                Ty::ForAll(tvs_copy(vars), Box::new(inner.apply(&**t)))
            },
            _ => clone_ty(ty),
        }
    }

    /// This substitution composed with `other`: each binding of `other`, in
    /// the order of its variables' first binding, is added after the
    /// substitution built so far has been applied to it.
    pub fn compose(self, other: &Subst) -> (r: Subst)
        ensures
            r@ == compose_spec(self@, other.bindings()),
    {
        proof {
            use_type_invariant(other);
        }
        let mut me = self;
        let ghost start = me@;
        let ghost es = other.bindings();
        let mut i: usize = 0;
        proof {
            assert(es.take(0) =~= Seq::<(Tv, TyView)>::empty());
        }
        while i < other.entries.len()
            invariant
                i <= other.entries@.len(),
                es == other.bindings(),
                es.len() == other.entries@.len(),
                me@ == compose_spec(start, es.take(i as int)),
            decreases other.entries@.len() - i,
        {
            let (tv, ty) = &other.entries[i];
            let applied = me.apply(ty);
            proof {
                assert(es.take(i + 1).drop_last() =~= es.take(i as int));
                assert(es[i as int] == (*tv, ty@));
            }
            me.insert(*tv, applied);
            i += 1;
        }
        proof {
            assert(es.take(i as int) =~= es);
        }
        me
    }
}

proof fn lemma_view_pairs(es: Seq<(Tv, Ty)>)
    ensures
        subst_map(es) == pairs_map(es.map_values(|p: (Tv, Ty)| (p.0, p.1@))),
    decreases es.len(),
{
    if es.len() > 0 {
        lemma_view_pairs(es.drop_last());
        assert(es.map_values(|p: (Tv, Ty)| (p.0, p.1@)).drop_last() =~= es.drop_last().map_values(|p: (Tv, Ty)| (p.0, p.1@)));
    } else {
        assert(es.map_values(|p: (Tv, Ty)| (p.0, p.1@)) =~= Seq::<(Tv, TyView)>::empty());
    }
}

proof fn lemma_same_map(a: Seq<(Tv, Ty)>, b: Seq<(Tv, Ty)>)
    requires
        a.len() == b.len(),
        forall|k: int| 0 <= k < a.len() ==> (#[trigger] a[k]).0 == b[k].0 && a[k].1@ == b[k].1@,
    ensures
        subst_map(a) == subst_map(b),
    decreases a.len(),
{
    if a.len() > 0 {
        lemma_same_map(a.drop_last(), b.drop_last());
    }
}

fn tvs_copy(vs: &Vec<Tv>) -> (r: Vec<Tv>)
    ensures
        r@ == vs@,
{
    let mut out: Vec<Tv> = Vec::new();
    let mut i: usize = 0;
    while i < vs.len()
        invariant
            i <= vs@.len(),
            out@ == vs@.take(i as int),
        decreases vs@.len() - i,
    {
        out.push(vs[i]);
        proof {
            assert(out@ =~= vs@.take(i + 1));
        }
        i += 1;
    }
    assert(vs@.take(i as int) =~= vs@);
    out
}

impl Clone for Subst {
    fn clone(&self) -> (r: Subst)
        ensures
            r@ == self@,
    {
        self.copy()
    }
}

impl Default for Subst {
    fn default() -> (r: Subst)
        ensures
            r@ == Map::<Tv, TyView>::empty(),
    {
        Subst::empty()
    }
}

} // verus!
