//! Types with variables, applications, structures, enums and quantifiers.

use vstd::prelude::*;

use crate::text::{decimal, push_decimal, push_str};

verus! {

/// A type variable.
#[derive(Debug, Clone, Copy, PartialEq, Eq, Hash, Structural)]
pub struct Tv(pub u32);

#[derive(Debug, Eq, Hash)]
pub enum Ty {
    Var(Tv),
    Prim(&'static str),
    App(Box<Ty>, Vec<Ty>),
    Struct(String, Vec<Ty>),
    Enum(String, Vec<Ty>),
    ForAll(Vec<Tv>, Box<Ty>),
}

/// The value of a type.
pub enum TyView {
    Var(Tv),
    Prim(Seq<char>),
    App(Box<TyView>, Seq<TyView>),
    Struct(Seq<char>, Seq<TyView>),
    Enum(Seq<char>, Seq<TyView>),
    ForAll(Seq<Tv>, Box<TyView>),
}

/// The values of a list of types.
pub open spec fn tys_view(ts: Seq<Ty>) -> Seq<TyView>
    decreases ts,
{
    Seq::new(ts.len(), |i: int| if 0 <= i < ts.len() { ty_view(ts[i]) } else { TyView::Var(Tv(0)) })
}

pub open spec fn ty_view(t: Ty) -> TyView
    decreases t,
{
    match t {
        Ty::Var(v) => TyView::Var(v),
        Ty::Prim(n) => TyView::Prim(n@),
        Ty::App(h, args) => TyView::App(Box::new(ty_view(*h)), tys_view(args@)),
        Ty::Struct(n, ps) => TyView::Struct(n@, tys_view(ps@)),
        Ty::Enum(n, ps) => TyView::Enum(n@, tys_view(ps@)),
        Ty::ForAll(vs, body) => TyView::ForAll(vs@, Box::new(ty_view(*body))),
    }
}

impl View for Ty {
    type V = TyView;

    open spec fn view(&self) -> TyView {
        ty_view(*self)
    }
}

impl Ty {
    /// The primitive type `Int`.
    pub fn int_type() -> (t: Self)
        ensures
            t@ == TyView::Prim("Int"@),
    {
        Ty::Prim("Int")
    }

    /// The primitive type `Bool`.
    pub fn bool() -> (t: Self)
        ensures
            t@ == TyView::Prim("Bool"@),
    {
        Ty::Prim("Bool")
    }
}

/// Copies of a list of types.
pub fn clone_tys(ts: &Vec<Ty>) -> (r: Vec<Ty>)
    ensures
        tys_view(r@) == tys_view(ts@),
    decreases ts@, 0nat,
{
    let mut out: Vec<Ty> = Vec::new();
    let mut i: usize = 0;
    while i < ts.len()
        invariant
            i <= ts@.len(),
            out@.len() == i,
            forall|k: int| 0 <= k < i ==> (#[trigger] out@[k])@ == ts@[k]@,
        decreases ts@.len() - i,
    {
        proof {
            assert(decreases_to!(ts@ => ts@[i as int]));
        }
        out.push(clone_ty(&ts[i]));
        i += 1;
    }
    assert(tys_view(out@) =~= tys_view(ts@));
    out
}

/// A copy of a type.
pub fn clone_ty(t: &Ty) -> (r: Ty)
    ensures
        r@ == t@,
    decreases *t, 1nat,
{
    match t {
        Ty::Var(v) => Ty::Var(*v),
        Ty::Prim(n) => Ty::Prim(*n),
        Ty::App(h, args) => Ty::App(Box::new(clone_ty(&**h)), clone_tys(args)),
        Ty::Struct(n, ps) => Ty::Struct(n.clone(), clone_tys(ps)),
        Ty::Enum(n, ps) => Ty::Enum(n.clone(), clone_tys(ps)),
        Ty::ForAll(vs, body) => Ty::ForAll(vs.clone(), Box::new(clone_ty(&**body))),
    }
}

/// Whether two lists of types are the same.
pub fn tys_eq(a: &Vec<Ty>, b: &Vec<Ty>) -> (r: bool)
    ensures
        r == (tys_view(a@) == tys_view(b@)),
    decreases a@, 0nat,
{
    if a.len() != b.len() {
        assert(tys_view(a@).len() != tys_view(b@).len());
        return false;
    }
    let mut i: usize = 0;
    while i < a.len()
        invariant
            i <= a@.len(),
            a@.len() == b@.len(),
            forall|k: int| 0 <= k < i ==> (#[trigger] a@[k])@ == b@[k]@,
        decreases a@.len() - i,
    {
        proof {
            assert(decreases_to!(a@ => a@[i as int]));
        }
        if !ty_eq(&a[i], &b[i]) {
            assert(tys_view(a@)[i as int] != tys_view(b@)[i as int]);
            return false;
        }
        i += 1;
    }
    assert(tys_view(a@) =~= tys_view(b@));
    true
}

/// Whether two types are the same.
pub fn ty_eq(a: &Ty, b: &Ty) -> (r: bool)
    ensures
        r == (a@ == b@),
    decreases *a, 1nat,
{
    match (a, b) {
        (Ty::Var(x), Ty::Var(y)) => *x == *y,
        (Ty::Prim(x), Ty::Prim(y)) => str_eq(x, y),
        (Ty::App(h1, x1), Ty::App(h2, x2)) => ty_eq(&**h1, &**h2) && tys_eq(x1, x2),
        (Ty::Struct(n1, x1), Ty::Struct(n2, x2)) => *n1 == *n2 && tys_eq(x1, x2),
        (Ty::Enum(n1, x1), Ty::Enum(n2, x2)) => *n1 == *n2 && tys_eq(x1, x2),
        (Ty::ForAll(v1, b1), Ty::ForAll(v2, b2)) => tvs_eq(v1, v2) && ty_eq(&**b1, &**b2),
        _ => false,
    }
}

/// Whether two strings hold the same characters.
pub fn str_eq(a: &str, b: &str) -> (r: bool)
    ensures
        r == (a@ == b@),
{
    let x = a.to_owned();
    let y = b.to_owned();
    x == y
}

/// Whether two lists of type variables are the same.
pub fn tvs_eq(a: &Vec<Tv>, b: &Vec<Tv>) -> (r: bool)
    ensures
        r == (a@ == b@),
{
    if a.len() != b.len() {
        return false;
    }
    let mut i: usize = 0;
    while i < a.len()
        invariant
            i <= a@.len(),
            a@.len() == b@.len(),
            forall|k: int| 0 <= k < i ==> a@[k] == b@[k],
        decreases a@.len() - i,
    {
        if a[i] != b[i] {
            return false;
        }
        i += 1;
    }
    assert(a@ =~= b@);
    true
}

impl PartialEq for Ty {
    fn eq(&self, other: &Ty) -> (r: bool) {
        ty_eq(self, other)
    }
}

impl vstd::std_specs::cmp::PartialEqSpecImpl for Ty {
    open spec fn obeys_eq_spec() -> bool {
        true
    }

    open spec fn eq_spec(&self, other: &Ty) -> bool {
        self@ == other@
    }
}

impl Clone for Ty {
    fn clone(&self) -> (r: Ty)
        ensures
            r@ == self@,
    {
        clone_ty(self)
    }
}

/// The text of a type: `t3` for a variable, the name of a primitive,
/// `head<a, b>` for an application, `Name<a,b>` for a structure or an enum
/// (just `Name` without parameters), and `∀ t0,t1. body` for a quantifier.
pub open spec fn ty_text(t: TyView) -> Seq<char>
    decreases t,
{
    match t {
        TyView::Var(v) => "t"@ + decimal(v.0 as nat),
        TyView::Prim(n) => n,
        TyView::App(h, args) => ty_text(*h) + "<"@ + tys_text(args, ", "@) + ">"@,
        TyView::Struct(n, ps) => n + if ps.len() == 0 {
            Seq::empty()
        } else {
            "<"@ + tys_text(ps, ","@) + ">"@
        },
        TyView::Enum(n, ps) => n + if ps.len() == 0 {
            Seq::empty()
        } else {
            "<"@ + tys_text(ps, ","@) + ">"@
        },
        TyView::ForAll(vs, body) => "∀ "@ + tvs_text(vs) + ". "@ + ty_text(*body),
    }
}

/// The texts of types separated by `sep`.
pub open spec fn tys_text(ts: Seq<TyView>, sep: Seq<char>) -> Seq<char>
    decreases ts,
{
    if ts.len() == 0 {
        Seq::empty()
    } else if ts.len() == 1 {
        ty_text(ts[0])
    } else {
        tys_text(ts.drop_last(), sep) + sep + ty_text(ts.last())
    }
}

/// Type variables as `t0,t1`.
pub open spec fn tvs_text(vs: Seq<Tv>) -> Seq<char>
    decreases vs.len(),
{
    if vs.len() == 0 {
        Seq::empty()
    } else if vs.len() == 1 {
        "t"@ + decimal(vs[0].0 as nat)
    } else {
        tvs_text(vs.drop_last()) + ","@ + "t"@ + decimal(vs.last().0 as nat)
    }
}

fn push_tys(out: &mut String, ts: &Vec<Ty>, sep: &str)
    ensures
        final(out)@ == old(out)@ + tys_text(tys_view(ts@), sep@),
    decreases ts@, 0nat,
{
    let ghost views = tys_view(ts@);
    let ghost start = out@;
    let mut i: usize = 0;
    while i < ts.len()
        invariant
            i <= ts@.len(),
            views == tys_view(ts@),
            out@ == start + tys_text(views.take(i as int), sep@),
        decreases ts@.len() - i,
    {
        proof {
            assert(views.take(i + 1).drop_last() =~= views.take(i as int));
            assert(views[i as int] == ts@[i as int]@);
            assert(decreases_to!(ts@ => ts@[i as int]));
        }
        if i > 0 {
            push_str(out, sep);
        }
        push_ty(out, &ts[i]);
        i += 1;
    }
    proof {
        assert(views.take(i as int) =~= views);
    }
}

#[verifier::loop_isolation(false)]
fn push_ty(out: &mut String, t: &Ty)
    ensures
        final(out)@ == old(out)@ + ty_text(t@),
    decreases *t, 1nat,
{
    match t {
        Ty::Var(v) => {
            push_str(out, "t");
            push_decimal(out, v.0 as u64);
            assert(t@ == TyView::Var(*v));
            assert(out@ == old(out)@ + ty_text(t@));
        },
        Ty::Prim(n) => {
            push_str(out, n);
            assert(out@ == old(out)@ + ty_text(t@));
        },
        Ty::App(h, args) => {
            push_ty(out, &**h);
            push_str(out, "<");
            push_tys(out, args, ", ");
            push_str(out, ">");
            assert(out@ == old(out)@ + ty_text(t@));
        },
        Ty::Struct(n, ps) => {
            let ghost start = out@;
            push_str(out, n.as_str());
            if ps.len() > 0 {
                push_str(out, "<");
                push_tys(out, ps, ",");
                push_str(out, ">");
                assert(out@ =~= start + (n@ + ("<"@ + tys_text(tys_view(ps@), ","@) + ">"@)));
            } else {
                assert(out@ =~= start + (n@ + Seq::<char>::empty()));
            }
            assert(out@ == old(out)@ + ty_text(t@));
        },
        Ty::Enum(n, ps) => {
            let ghost start = out@;
            push_str(out, n.as_str());
            if ps.len() > 0 {
                push_str(out, "<");
                push_tys(out, ps, ",");
                push_str(out, ">");
                assert(out@ =~= start + (n@ + ("<"@ + tys_text(tys_view(ps@), ","@) + ">"@)));
            } else {
                assert(out@ =~= start + (n@ + Seq::<char>::empty()));
            }
            assert(out@ == old(out)@ + ty_text(t@));
        },
        Ty::ForAll(vs, body) => {
            push_str(out, "∀ ");
            let ghost start = out@;
            let mut i: usize = 0;
            while i < vs.len()
                invariant
                    i <= vs@.len(),
                    out@ == start + tvs_text(vs@.take(i as int)),
                decreases vs@.len() - i,
            {
                proof {
                    assert(vs@.take(i + 1).drop_last() =~= vs@.take(i as int));
                }
                let ghost before = out@;
                if i > 0 {
                    push_str(out, ",");
                }
                push_str(out, "t");
                push_decimal(out, vs[i].0 as u64);
                proof {
                    if i == 0 {
                        assert(out@ =~= before + tvs_text(vs@.take(1)));
                    } else {
                        assert(out@ =~= before + ","@ + "t"@ + decimal(vs@[i as int].0 as nat));
                    }
                }
                i += 1;
            }
            proof {
                assert(vs@.take(i as int) =~= vs@);
            }
            push_str(out, ". ");
            push_ty(out, &**body);
            assert(out@ == old(out)@ + ty_text(t@));
        },
    }
}

impl Ty {
    /// The text of this type.
    pub fn render(&self) -> (r: String)
        ensures
            r@ == ty_text(self@),
    {
        let mut s = String::new();
        push_ty(&mut s, self);
        s
    }
}

} // verus!
