//! Kinds of types.

use vstd::prelude::*;

use crate::text::push_str;

verus! {

#[derive(Debug, Eq, Hash)]
pub enum Kind {
    Star,
    Arrow(Box<Kind>, Box<Kind>),
}

/// The text of a kind: `*`, or `(a -> b)`.
pub open spec fn kind_text(k: Kind) -> Seq<char>
    decreases k,
{
    match k {
        Kind::Star => "*"@,
        Kind::Arrow(a, b) => "("@ + kind_text(*a) + " -> "@ + kind_text(*b) + ")"@,
    }
}

fn push_kind(out: &mut String, k: &Kind)
    ensures
        final(out)@ == old(out)@ + kind_text(*k),
    decreases k,
{
    match k {
        Kind::Star => push_str(out, "*"),
        Kind::Arrow(a, b) => {
            push_str(out, "(");
            push_kind(out, &**a);
            push_str(out, " -> ");
            push_kind(out, &**b);
            push_str(out, ")");
        },
    }
}

impl Kind {
    /// The text of this kind.
    pub fn render(&self) -> (r: String)
        ensures
            r@ == kind_text(*self),
    {
        let mut s = String::new();
        push_kind(&mut s, self);
        s
    }
}

/// A copy of a kind.
pub fn clone_kind(k: &Kind) -> (r: Kind)
    ensures
        r == *k,
    decreases k,
{
    match k {
        Kind::Star => Kind::Star,
        Kind::Arrow(a, b) => Kind::Arrow(Box::new(clone_kind(&**a)), Box::new(clone_kind(&**b))),
    }
}

/// Whether two kinds are the same.
pub fn kind_eq(a: &Kind, b: &Kind) -> (r: bool)
    ensures
        r == (*a == *b),
    decreases a,
{
    match (a, b) {
        (Kind::Star, Kind::Star) => true,
        (Kind::Arrow(a1, b1), Kind::Arrow(a2, b2)) => kind_eq(&**a1, &**a2) && kind_eq(&**b1, &**b2),
        _ => false,
    }
}

impl PartialEq for Kind {
    fn eq(&self, other: &Kind) -> (r: bool) {
        kind_eq(self, other)
    }
}

impl vstd::std_specs::cmp::PartialEqSpecImpl for Kind {
    open spec fn obeys_eq_spec() -> bool {
        true
    }

    open spec fn eq_spec(&self, other: &Kind) -> bool {
        *self == *other
    }
}

impl Clone for Kind {
    fn clone(&self) -> (r: Kind)
        ensures
            r == *self,
    {
        clone_kind(self)
    }
}

} // verus!
