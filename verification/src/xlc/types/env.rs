//! Environments of type schemes.

use vstd::prelude::*;

use super::scheme::{Scheme, SchemeView, clone_scheme};
use super::subst::{Subst, apply_spec, lemma_apply_empty};

verus! {

/// Whether no name is bound twice.
pub open spec fn names_unique(es: Seq<(String, Scheme)>) -> bool {
    forall|i: int, j: int| 0 <= i < j < es.len() ==> es[i].0@ != es[j].0@
}

/// The map that a list of bindings stands for.
pub open spec fn env_map(es: Seq<(String, Scheme)>) -> Map<Seq<char>, SchemeView>
    decreases es.len(),
{
    if es.len() == 0 {
        Map::empty()
    } else {
        env_map(es.drop_last()).insert(es.last().0@, es.last().1@)
    }
}

pub(crate) proof fn lemma_env_map_has(es: Seq<(String, Scheme)>, k: Seq<char>)
    requires
        names_unique(es),
    ensures
        env_map(es).contains_key(k) <==> exists|i: int| 0 <= i < es.len() && #[trigger] es[i].0@ == k,
        forall|i: int| 0 <= i < es.len() && #[trigger] es[i].0@ == k ==> env_map(es)[k] == es[i].1@,
    decreases es.len(),
{
    if es.len() > 0 {
        let d = es.drop_last();
        lemma_env_map_has(d, k);
        assert forall|i: int| 0 <= i < d.len() implies #[trigger] d[i] == es[i] by {}
        if exists|i: int| 0 <= i < es.len() && #[trigger] es[i].0@ == k {
            let i = choose|i: int| 0 <= i < es.len() && #[trigger] es[i].0@ == k;
            if i < d.len() {
                assert(d[i].0@ == k);
            }
        }
    }
}

proof fn lemma_env_map_update(es: Seq<(String, Scheme)>, i: int, e: (String, Scheme))
    requires
        names_unique(es),
        0 <= i < es.len(),
        e.0@ == es[i].0@,
    ensures
        env_map(es.update(i, e)) == env_map(es).insert(e.0@, e.1@),
        names_unique(es.update(i, e)),
    decreases es.len(),
{
    let k = e.0@;
    let u = es.update(i, e);
    if i == es.len() - 1 {
        assert(u.drop_last() =~= es.drop_last());
        assert(env_map(u) =~= env_map(es).insert(k, e.1@));
    } else {
        let d = es.drop_last();
        lemma_env_map_update(d, i, e);
        assert(u.drop_last() =~= d.update(i, e));
        assert(es.last().0@ != k);
        assert(env_map(u) =~= env_map(es).insert(k, e.1@));
    }
}

/// The value of every scheme of an environment with `s` applied to its type.
pub open spec fn env_apply(m: Map<Seq<char>, SchemeView>, s: Map<super::ty::Tv, super::ty::TyView>) -> Map<Seq<char>, SchemeView> {
    m.map_values(|sc: SchemeView| SchemeView { vars: sc.vars, ty: apply_spec(s, sc.ty) })
}

/// After `extend` binds `name` to `sc`, a lookup of `name` finds `sc`, and a
/// lookup of any other name finds what it found before.
pub proof fn lemma_lookup_after_extend(m: Map<Seq<char>, SchemeView>, name: Seq<char>, sc: SchemeView, other: Seq<char>)
    requires
        other != name,
    ensures
        m.insert(name, sc).contains_key(name),
        m.insert(name, sc)[name] == sc,
        m.insert(name, sc).contains_key(other) == m.contains_key(other),
        m.contains_key(other) ==> m.insert(name, sc)[other] == m[other],
{
}

/// Applying the empty substitution to an environment changes nothing.
pub proof fn lemma_env_apply_empty(m: Map<Seq<char>, SchemeView>)
    ensures
        env_apply(m, Map::empty()) == m,
{
    assert forall|k: Seq<char>| m.contains_key(k) implies #[trigger] env_apply(m, Map::empty())[k] == m[k] by {
        lemma_apply_empty(m[k].ty);
    }
    assert(env_apply(m, Map::empty()) =~= m);
}

/// Names bound to type schemes.
#[derive(Debug)]
pub struct TypeEnv {
    pub(crate) entries: Vec<(String, Scheme)>,
}

impl View for TypeEnv {
    type V = Map<Seq<char>, SchemeView>;

    closed spec fn view(&self) -> Map<Seq<char>, SchemeView> {
        env_map(self.entries@)
    }
}

/// The value of an environment is the map of its bindings.
pub(crate) proof fn lemma_env_view(env: &TypeEnv)
    ensures
        env@ == env_map(env.entries@),
{
}

impl TypeEnv {
    #[verifier::type_invariant]
    pub(crate) open spec fn inv(self) -> bool {
        names_unique(self.entries@)
    }

    /// No names bound.
    pub fn new() -> (e: Self)
        ensures
            e@ == Map::<Seq<char>, SchemeView>::empty(),
    {
        TypeEnv { entries: Vec::new() }
    }

    fn index_of(&self, name: &str) -> (r: Option<usize>)
        ensures
            match r {
                Some(i) => i < self.entries@.len() && self.entries@[i as int].0@ == name@,
                None => forall|i: int| 0 <= i < self.entries@.len() ==> self.entries@[i].0@ != name@,
            },
    {
        let key = name.to_owned();
        let mut i: usize = 0;
        while i < self.entries.len()
            invariant
                i <= self.entries@.len(),
                key@ == name@,
                forall|j: int| 0 <= j < i ==> self.entries@[j].0@ != name@,
            decreases self.entries@.len() - i,
        {
            if self.entries[i].0 == key {
                return Some(i);
            }
            i += 1;
        }
        None
    }

    /// Binds `name` to `sc`, in place of any binding it had.
    pub fn extend(&mut self, name: String, sc: Scheme)
        ensures
            final(self)@ == old(self)@.insert(name@, sc@),
    {
        proof {
            use_type_invariant(&*self);
        }
        match self.index_of(name.as_str()) {
            Some(i) => {
                let ghost e = (name, sc);
                proof {
                    lemma_env_map_update(self.entries@, i as int, e);
                }
                let mut es: Vec<(String, Scheme)> = Vec::new();
                std::mem::swap(&mut es, &mut self.entries);
                es.set(i, (name, sc));
                self.entries = es;
            },
            None => {
                let mut es: Vec<(String, Scheme)> = Vec::new();
                std::mem::swap(&mut es, &mut self.entries);
                let ghost before = es@;
                es.push((name, sc));
                proof {
                    assert(names_unique(es@));
                    assert(es@.drop_last() =~= before);
                }
                self.entries = es;
            },
        }
    }

    /// A copy of the scheme bound to `name`.
    pub fn lookup(&self, name: &str) -> (r: Option<Scheme>)
        ensures
            match r {
                Some(sc) => self@.contains_key(name@) && sc@ == self@[name@],
                None => !self@.contains_key(name@),
            },
    {
        proof {
            use_type_invariant(self);
            lemma_env_map_has(self.entries@, name@);
        }
        match self.index_of(name) {
            Some(i) => Some(clone_scheme(&self.entries[i].1)),
            None => None,
        }
    }

    /// The environment with `subst` applied to the type of every scheme.
    pub fn apply(&self, subst: &Subst) -> (r: TypeEnv)
        ensures
            r@ == env_apply(self@, subst@),
    {
        proof {
            use_type_invariant(self);
        }
        let mut out: Vec<(String, Scheme)> = Vec::new();
        let mut i: usize = 0;
        while i < self.entries.len()
            invariant
                i <= self.entries@.len(),
                out@.len() == i,
                names_unique(self.entries@),
                forall|k: int| 0 <= k < i ==> (#[trigger] out@[k]).0@ == self.entries@[k].0@
                    && out@[k].1@ == (SchemeView { vars: self.entries@[k].1.vars@, ty: apply_spec(subst@, self.entries@[k].1.ty@) }),
            decreases self.entries@.len() - i,
        {
            let (name, sc) = &self.entries[i];
            let c = clone_scheme(sc);
            let ty = subst.apply(&c.ty);
            out.push((name.clone(), Scheme { vars: c.vars, ty }));
            i += 1;
        }
        proof {
            assert(names_unique(out@));
            lemma_env_map_applied(out@, self.entries@, subst@);
        }
        TypeEnv { entries: out }
    }
}

proof fn lemma_env_map_applied(a: Seq<(String, Scheme)>, b: Seq<(String, Scheme)>, s: Map<super::ty::Tv, super::ty::TyView>)
    requires
        a.len() == b.len(),
        forall|k: int| 0 <= k < a.len() ==> (#[trigger] a[k]).0@ == b[k].0@
            && a[k].1@ == (SchemeView { vars: b[k].1.vars@, ty: apply_spec(s, b[k].1.ty@) }),
    ensures
        env_map(a) == env_apply(env_map(b), s),
    decreases a.len(),
{
    if a.len() > 0 {
        lemma_env_map_applied(a.drop_last(), b.drop_last(), s);
        assert(env_map(a) =~= env_apply(env_map(b), s));
    } else {
        assert(env_map(a) =~= env_apply(env_map(b), s));
    }
}

impl Clone for TypeEnv {
    fn clone(&self) -> (r: TypeEnv)
        ensures
            r@ == self@,
    {
        proof {
            use_type_invariant(self);
        }
        let mut out: Vec<(String, Scheme)> = Vec::new();
        let mut i: usize = 0;
        while i < self.entries.len()
            invariant
                i <= self.entries@.len(),
                out@.len() == i,
                names_unique(self.entries@),
                forall|k: int| 0 <= k < i ==> (#[trigger] out@[k]).0@ == self.entries@[k].0@ && out@[k].1@ == self.entries@[k].1@,
            decreases self.entries@.len() - i,
        {
            let (name, sc) = &self.entries[i];
            out.push((name.clone(), clone_scheme(sc)));
            i += 1;
        }
        proof {
            assert(names_unique(out@));
            lemma_env_map_same(out@, self.entries@);
        }
        TypeEnv { entries: out }
    }
}

proof fn lemma_env_map_same(a: Seq<(String, Scheme)>, b: Seq<(String, Scheme)>)
    requires
        a.len() == b.len(),
        forall|k: int| 0 <= k < a.len() ==> (#[trigger] a[k]).0@ == b[k].0@ && a[k].1@ == b[k].1@,
    ensures
        env_map(a) == env_map(b),
    decreases a.len(),
{
    if a.len() > 0 {
        lemma_env_map_same(a.drop_last(), b.drop_last());
    }
}

impl Default for TypeEnv {
    fn default() -> (e: TypeEnv)
        ensures
            e@ == Map::<Seq<char>, SchemeView>::empty(),
    {
        TypeEnv::new()
    }
}

/// Kinds of type names: not used yet.
#[derive(Default, Debug, Clone)]
pub struct KindEnv;

} // verus!
