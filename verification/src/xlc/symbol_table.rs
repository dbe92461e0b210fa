//! A table of names in nested scopes: the innermost binding of a name wins.

use vstd::prelude::*;

verus! {

/// The map that the entries of one scope stand for; a later entry for a name
/// hides an earlier one.
pub open spec fn scope_map<T>(s: Seq<(String, T)>) -> Map<Seq<char>, T>
    decreases s.len(),
{
    if s.len() == 0 {
        Map::empty()
    } else {
        scope_map(s.drop_last()).insert(s.last().0@, s.last().1)
    }
}

/// The value of `name` in the innermost scope that binds it.
pub open spec fn scopes_get<T>(scopes: Seq<Map<Seq<char>, T>>, name: Seq<char>) -> Option<T>
    decreases scopes.len(),
{
    if scopes.len() == 0 {
        None
    } else if scopes.last().contains_key(name) {
        Some(scopes.last()[name])
    } else {
        scopes_get(scopes.drop_last(), name)
    }
}

/// The scopes after a new, empty innermost scope is opened.
pub open spec fn scopes_enter<T>(scopes: Seq<Map<Seq<char>, T>>) -> Seq<Map<Seq<char>, T>> {
    scopes.push(Map::empty())
}

/// The scopes after the innermost one is closed; nothing happens where there
/// is none.
pub open spec fn scopes_exit<T>(scopes: Seq<Map<Seq<char>, T>>) -> Seq<Map<Seq<char>, T>> {
    if scopes.len() == 0 {
        scopes
    } else {
        scopes.drop_last()
    }
}

/// The scopes after `name` is bound to `value` in the innermost scope; nothing
/// happens where there is no scope.
pub open spec fn scopes_insert<T>(scopes: Seq<Map<Seq<char>, T>>, name: Seq<char>, value: T) -> Seq<Map<Seq<char>, T>> {
    if scopes.len() == 0 {
        scopes
    } else {
        scopes.update(scopes.len() - 1, scopes.last().insert(name, value))
    }
}

proof fn lemma_scope_lookup<T>(s: Seq<(String, T)>, i: int, k: Seq<char>)
    requires
        0 <= i <= s.len(),
        forall|j: int| i <= j < s.len() ==> (#[trigger] s[j]).0@ != k,
    ensures
        scope_map(s).contains_key(k) == scope_map(s.take(i)).contains_key(k),
        scope_map(s).contains_key(k) ==> scope_map(s)[k] == scope_map(s.take(i))[k],
    decreases s.len(),
{
    if i == s.len() {
        assert(s.take(i) =~= s);
    } else {
        let d = s.drop_last();
        assert forall|j: int| i <= j < d.len() implies (#[trigger] d[j]).0@ != k by {
            assert(d[j] == s[j]);
        }
        lemma_scope_lookup(d, i, k);
        assert(d.take(i) =~= s.take(i));
        assert(s[s.len() - 1].0@ != k);
    }
}

#[derive(Debug, Clone)]
pub struct SymbolTable<T> {
    scopes: Vec<Vec<(String, T)>>,
}

impl<T> View for SymbolTable<T> {
    type V = Seq<Map<Seq<char>, T>>;

    closed spec fn view(&self) -> Seq<Map<Seq<char>, T>> {
        self.scopes@.map_values(|s: Vec<(String, T)>| scope_map(s@))
    }
}

impl<T: Clone> SymbolTable<T> {
    /// A table with one empty scope.
    pub fn new() -> (t: Self)
        ensures
            t@ == seq![Map::<Seq<char>, T>::empty()],
    {
        let mut scopes: Vec<Vec<(String, T)>> = Vec::new();
        scopes.push(Vec::new());
        let t = SymbolTable { scopes };
        assert(t@ =~= seq![Map::<Seq<char>, T>::empty()]);
        t
    }

    /// Opens a new innermost scope.
    pub fn enter_scope(&mut self)
        ensures
            final(self)@ == scopes_enter(old(self)@),
    {
        self.scopes.push(Vec::new());
        assert(self@ =~= scopes_enter(old(self)@));
    }

    /// Closes the innermost scope, if there is one.
    pub fn exit_scope(&mut self)
        ensures
            final(self)@ == scopes_exit(old(self)@),
    {
        let _ = self.scopes.pop();
        assert(self@ =~= scopes_exit(old(self)@));
    }

    /// Binds `name` to `value` in the innermost scope, if there is one.
    pub fn insert(&mut self, name: String, value: T)
        ensures
            final(self)@ == scopes_insert(old(self)@, name@, value),
    {
        match self.scopes.pop() {
            Some(mut last) => {
                let ghost before = last@;
                last.push((name, value));
                proof {
                    assert(last@.drop_last() =~= before);
                }
                self.scopes.push(last);
                assert(self@ =~= scopes_insert(old(self)@, name@, value));
            },
            None => {},
        }
    }

    /// A copy of the value of `name` in the innermost scope that binds it.
    #[verifier::loop_isolation(false)]
    pub fn get(&self, name: &str) -> (r: Option<T>)
        ensures
            match (r, scopes_get(self@, name@)) {
                (Some(v), Some(w)) => cloned::<T>(w, v),
                (None, None) => true,
                _ => false,
            },
    {
        let key: String = name.to_owned();
        let ghost sv = self@;
        let mut d = self.scopes.len();
        assert(sv.take(d as int) =~= sv);
        while d > 0
            invariant
                d <= self.scopes@.len(),
                sv == self@,
                key@ == name@,
                scopes_get(sv, name@) == scopes_get(sv.take(d as int), name@),
            decreases d,
        {
            let scope = &self.scopes[d - 1];
            let ghost m = scope_map(scope@);
            proof {
                assert(sv.take(d as int).last() == m);
                assert(sv.take(d as int).drop_last() =~= sv.take(d - 1));
            }
            let mut i = scope.len();
            while i > 0
                invariant
                    i <= scope@.len(),
                    key@ == name@,
                    forall|j: int| i <= j < scope@.len() ==> (#[trigger] scope@[j]).0@ != name@,
                decreases i,
            {
                i -= 1;
                if scope[i].0 == key {
                    proof {
                        lemma_scope_lookup(scope@, i + 1, name@);
                        assert(scope@.take(i + 1).drop_last() =~= scope@.take(i as int));
                        assert(m.contains_key(name@) && m[name@] == scope@[i as int].1);
                        assert(scopes_get(sv, name@) == Some(scope@[i as int].1));
                    }
                    let v = scope[i].1.clone();
                    return Some(v);
                }
            }
            proof {
                lemma_scope_lookup(scope@, 0, name@);
            }
            d -= 1;
        }
        None
    }
}

// ---------------------------------------------------------------------------
// Laws

/// A name reads back the value it was just bound to.
pub proof fn lemma_get_after_insert<T>(scopes: Seq<Map<Seq<char>, T>>, name: Seq<char>, value: T)
    requires
        scopes.len() > 0,
    ensures
        scopes_get(scopes_insert(scopes, name, value), name) == Some(value),
{
}

/// Binding one name leaves every other name as it was.
pub proof fn lemma_insert_leaves_others<T>(scopes: Seq<Map<Seq<char>, T>>, name: Seq<char>, value: T, other: Seq<char>)
    requires
        other != name,
    ensures
        scopes_get(scopes_insert(scopes, name, value), other) == scopes_get(scopes, other),
{
    if scopes.len() > 0 {
        let s2 = scopes_insert(scopes, name, value);
        assert(s2.drop_last() =~= scopes.drop_last());
    }
}

/// Closing a scope undoes opening one.
pub proof fn lemma_exit_undoes_enter<T>(scopes: Seq<Map<Seq<char>, T>>)
    ensures
        scopes_exit(scopes_enter(scopes)) == scopes,
{
    assert(scopes_enter(scopes).drop_last() =~= scopes);
}

/// A new scope hides nothing until something is bound in it: every name reads
/// as before.
pub proof fn lemma_enter_keeps_lookups<T>(scopes: Seq<Map<Seq<char>, T>>, name: Seq<char>)
    ensures
        scopes_get(scopes_enter(scopes), name) == scopes_get(scopes, name),
{
    assert(scopes_enter(scopes).drop_last() =~= scopes);
}

/// The scopes after each of `binds` is bound in turn, in the innermost scope.
pub open spec fn scopes_insert_all<T>(scopes: Seq<Map<Seq<char>, T>>, binds: Seq<(Seq<char>, T)>) -> Seq<Map<Seq<char>, T>>
    decreases binds.len(),
{
    if binds.len() == 0 {
        scopes
    } else {
        let prev = scopes_insert_all(scopes, binds.drop_last());
        scopes_insert(prev, binds.last().0, binds.last().1)
    }
}

proof fn lemma_insert_all_keeps_outer<T>(scopes: Seq<Map<Seq<char>, T>>, binds: Seq<(Seq<char>, T)>)
    ensures
        scopes_insert_all(scopes_enter(scopes), binds).len() == scopes.len() + 1,
        scopes_insert_all(scopes_enter(scopes), binds).drop_last() == scopes,
    decreases binds.len(),
{
    if binds.len() == 0 {
        assert(scopes_enter(scopes).drop_last() =~= scopes);
    } else {
        lemma_insert_all_keeps_outer(scopes, binds.drop_last());
        let prev = scopes_insert_all(scopes_enter(scopes), binds.drop_last());
        assert(scopes_insert(prev, binds.last().0, binds.last().1).drop_last() =~= prev.drop_last());
    }
}

/// Opening a scope, binding any names in it, then closing it gives back the
/// scopes as they were: every lookup reads as before.
pub proof fn lemma_scope_round_trip<T>(scopes: Seq<Map<Seq<char>, T>>, binds: Seq<(Seq<char>, T)>)
    ensures
        scopes_exit(scopes_insert_all(scopes_enter(scopes), binds)) == scopes,
        forall|name: Seq<char>| #[trigger] scopes_get(scopes_exit(scopes_insert_all(scopes_enter(scopes), binds)), name) == scopes_get(scopes, name),
{
    lemma_insert_all_keeps_outer(scopes, binds);
}

} // verus!
