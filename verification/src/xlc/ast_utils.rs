//! Pattern matching, rewriting and folding over `xlc` expressions.

use vstd::prelude::*;

use super::ast::{
    Expr, ExprView, Pattern, PatternView, RewriteRule, RewriteRuleView, expr_view, exprs_view,
    patterns_view, lemma_exprs_view, lemma_patterns_view, lemma_arms_view, arms_view, clone_expr,
};

verus! {

// ---------------------------------------------------------------------------
// Captures

/// The captures of a pattern match: names bound to expressions of the tree
/// that was matched.
pub struct Bindings<'a> {
    entries: Vec<(String, &'a Expr)>,
}

/// The map that a list of captures stands for; a later entry for a name
/// hides an earlier one.
pub open spec fn entries_map<'a>(s: Seq<(String, &'a Expr)>) -> Map<Seq<char>, ExprView>
    decreases s.len(),
{
    if s.len() == 0 {
        Map::empty()
    } else {
        entries_map(s.drop_last()).insert(s.last().0@, s.last().1@)
    }
}

proof fn lemma_entries_lookup<'a>(s: Seq<(String, &'a Expr)>, i: int, k: Seq<char>)
    requires
        0 <= i <= s.len(),
        forall|j: int| i <= j < s.len() ==> (#[trigger] s[j]).0@ != k,
    ensures
        entries_map(s).contains_key(k) == entries_map(s.take(i)).contains_key(k),
        entries_map(s).contains_key(k) ==> entries_map(s)[k] == entries_map(s.take(i))[k],
    decreases s.len(),
{
    if i == s.len() {
        assert(s.take(i) =~= s);
    } else {
        let d = s.drop_last();
        assert forall|j: int| i <= j < d.len() implies (#[trigger] d[j]).0@ != k by {
            assert(d[j] == s[j]);
        }
        lemma_entries_lookup(d, i, k);
        assert(d.take(i) =~= s.take(i));
        assert(s[s.len() - 1].0@ != k);
    }
}

proof fn lemma_entries_at<'a>(s: Seq<(String, &'a Expr)>, i: int)
    requires
        0 <= i < s.len(),
    ensures
        entries_map(s.take(i + 1)) == entries_map(s.take(i)).insert(s[i].0@, s[i].1@),
{
    assert(s.take(i + 1).drop_last() =~= s.take(i));
}

impl<'a> View for Bindings<'a> {
    type V = Map<Seq<char>, ExprView>;

    closed spec fn view(&self) -> Map<Seq<char>, ExprView> {
        entries_map(self.entries@)
    }
}

impl<'a> Bindings<'a> {
    /// No captures.
    pub fn new() -> (b: Bindings<'a>)
        ensures
            b@ == Map::<Seq<char>, ExprView>::empty(),
    {
        Bindings { entries: Vec::new() }
    }

    /// The expression bound to `name`, if any.
    pub fn get(&self, name: &String) -> (r: Option<&'a Expr>)
        ensures
            match r {
                Some(e) => self@.contains_key(name@) && self@[name@] == e@,
                None => !self@.contains_key(name@),
            },
    {
        let mut i = self.entries.len();
        while i > 0
            invariant
                i <= self.entries@.len(),
                forall|j: int| i <= j < self.entries@.len() ==> (#[trigger] self.entries@[j]).0@ != name@,
            decreases i,
        {
            i -= 1;
            if self.entries[i].0 == *name {
                proof {
                    lemma_entries_lookup(self.entries@, i + 1, name@);
                    lemma_entries_at(self.entries@, i as int);
                }
                return Some(self.entries[i].1);
            }
        }
        proof {
            lemma_entries_lookup(self.entries@, 0, name@);
        }
        None
    }

    /// Binds `name` to `e`.
    pub fn insert(&mut self, name: String, e: &'a Expr)
        ensures
            final(self)@ == old(self)@.insert(name@, e@),
    {
        self.entries.push((name, e));
        proof {
            assert(self.entries@.drop_last() =~= old(self).entries@);
        }
    }
}

// ---------------------------------------------------------------------------
// Matching

/// Whether an operator pattern admits `op`: any operator when none is given.
pub open spec fn op_admits(p: Option<super::ast::BinaryOp>, op: super::ast::BinaryOp) -> bool {
    match p {
        Some(o) => o == op,
        None => true,
    }
}

/// Whether a callee pattern admits `name`: any name when none is given.
pub open spec fn callee_admits(p: Option<Seq<char>>, name: Seq<char>) -> bool {
    match p {
        Some(c) => c == name,
        None => true,
    }
}

/// Matching `p` against `e` with the captures `m` made so far: whether it
/// matches, and the captures afterwards. Captures made before a failure stay.
/// A capture whose name is already bound matches only the very node that it
/// holds; in one match each place of the tree is met once, so a name bound
/// earlier in the same match holds another node, and the capture fails.
pub open spec fn spec_match(p: PatternView, e: ExprView, m: Map<Seq<char>, ExprView>) -> (bool, Map<Seq<char>, ExprView>)
    decreases p,
{
    match p {
        PatternView::Wildcard => (true, m),
        PatternView::Capture(n) => if m.contains_key(n) {
            (false, m)
        } else {
            (true, m.insert(n, e))
        },
        PatternView::Int(a) => (e == ExprView::Int(a), m),
        PatternView::Bool(a) => (e == ExprView::Bool(a), m),
        PatternView::String(a) => (e == ExprView::String(a), m),
        PatternView::Ident(a) => (e == ExprView::Ident(a), m),
        PatternView::Binary { op, left, right } => match e {
            ExprView::Binary { op: eop, left: el, right: er } => if op_admits(op, eop) {
                let (ok, m1) = spec_match(*left, *el, m);
                if ok {
                    spec_match(*right, *er, m1)
                } else {
                    (false, m1)
                }
            } else {
                (false, m)
            },
            _ => (false, m),
        },
        PatternView::Call { callee, args } => match e {
            ExprView::Call { callee: ec, args: eargs } => if callee_admits(callee, ec) && args.len() == eargs.len() {
                spec_match_list(args, eargs, m)
            } else {
                (false, m)
            },
            _ => (false, m),
        },
    }
}

/// Matching patterns against expressions pairwise, left to right, up to the
/// first failure.
pub open spec fn spec_match_list(ps: Seq<PatternView>, es: Seq<ExprView>, m: Map<Seq<char>, ExprView>) -> (bool, Map<Seq<char>, ExprView>)
    decreases ps,
{
    if ps.len() == 0 {
        (true, m)
    } else {
        let (ok, m1) = spec_match(ps[0], es[0], m);
        if ok {
            spec_match_list(ps.drop_first(), es.drop_first(), m1)
        } else {
            (false, m1)
        }
    }
}

/// Whether no capture of `p` uses a name of `names`.
pub open spec fn captures_none(p: PatternView, names: Set<Seq<char>>) -> bool
    decreases p,
{
    match p {
        PatternView::Capture(n) => !names.contains(n),
        PatternView::Binary { left, right, .. } => captures_none(*left, names) && captures_none(*right, names),
        PatternView::Call { args, .. } => forall|i: int| 0 <= i < args.len() ==> captures_none(#[trigger] args[i], names),
        _ => true,
    }
}

/// Whether `p` matches `e` with each capture holding, in `m`, the value of
/// the expression at its place.
pub open spec fn matched(p: PatternView, e: ExprView, m: Map<Seq<char>, ExprView>) -> bool
    decreases p,
{
    match p {
        PatternView::Wildcard => true,
        PatternView::Capture(n) => m.contains_key(n) && m[n] == e,
        PatternView::Int(a) => e == ExprView::Int(a),
        PatternView::Bool(a) => e == ExprView::Bool(a),
        PatternView::String(a) => e == ExprView::String(a),
        PatternView::Ident(a) => e == ExprView::Ident(a),
        PatternView::Binary { op, left, right } => match e {
            ExprView::Binary { op: eop, left: el, right: er } => op_admits(op, eop) && matched(*left, *el, m) && matched(*right, *er, m),
            _ => false,
        },
        PatternView::Call { callee, args } => match e {
            ExprView::Call { callee: ec, args: eargs } => callee_admits(callee, ec) && args.len() == eargs.len()
                && forall|i: int| 0 <= i < args.len() ==> matched(#[trigger] args[i], eargs[i], m),
            _ => false,
        },
    }
}

proof fn lemma_matched_mono(p: PatternView, e: ExprView, m: Map<Seq<char>, ExprView>, m2: Map<Seq<char>, ExprView>)
    requires
        matched(p, e, m),
        m.submap_of(m2),
    ensures
        matched(p, e, m2),
    decreases p,
{
    match p {
        PatternView::Binary { left, right, .. } => match e {
            ExprView::Binary { left: el, right: er, .. } => {
                lemma_matched_mono(*left, *el, m, m2);
                lemma_matched_mono(*right, *er, m, m2);
            },
            _ => {},
        },
        PatternView::Call { args, .. } => match e {
            ExprView::Call { args: eargs, .. } => {
                assert forall|i: int| 0 <= i < args.len() implies matched(#[trigger] args[i], eargs[i], m2) by {
                    assert(decreases_to!(p => args[i]));
                    lemma_matched_mono(args[i], eargs[i], m, m2);
                }
            },
            _ => {},
        },
        _ => {},
    }
}

/// Whether `a` and `b` are the very same node (std's `ptr::eq`). The answer
/// depends on where the nodes lie in memory; all that is stated is that the
/// same node has the same value.
#[verifier::external_body]
fn same_node(a: &Expr, b: &Expr) -> (r: bool)
    ensures
        r ==> a@ == b@,
{
    std::ptr::eq(a, b)
}

proof fn lemma_entries_dom<'a>(s: Seq<(String, &'a Expr)>, k: Seq<char>)
    ensures
        entries_map(s).contains_key(k) <==> exists|j: int| 0 <= j < s.len() && (#[trigger] s[j]).0@ == k,
    decreases s.len(),
{
    if s.len() > 0 {
        lemma_entries_dom(s.drop_last(), k);
        if exists|j: int| 0 <= j < s.len() && (#[trigger] s[j]).0@ == k {
            let j = choose|j: int| 0 <= j < s.len() && (#[trigger] s[j]).0@ == k;
            if j < s.len() - 1 {
                assert(s.drop_last()[j] == s[j]);
            }
        }
        if exists|j: int| 0 <= j < s.len() - 1 && (#[trigger] s.drop_last()[j]).0@ == k {
            let j = choose|j: int| 0 <= j < s.len() - 1 && (#[trigger] s.drop_last()[j]).0@ == k;
            assert(s[j] == s.drop_last()[j]);
        }
    }
}

impl<'a> Bindings<'a> {
    /// Whether one of the first `n` captures binds `name`.
    fn bound_before(&self, name: &String, n: usize) -> (r: bool)
        requires
            n <= self.entries@.len(),
        ensures
            r == entries_map(self.entries@.take(n as int)).contains_key(name@),
    {
        let ghost pre = self.entries@.take(n as int);
        proof {
            lemma_entries_dom(pre, name@);
        }
        let mut j: usize = 0;
        while j < n
            invariant
                j <= n,
                n <= self.entries@.len(),
                pre == self.entries@.take(n as int),
                forall|k: int| 0 <= k < j ==> (#[trigger] pre[k]).0@ != name@,
            decreases n - j,
        {
            assert(pre[j as int] == self.entries@[j as int]);
            if self.entries[j].0 == *name {
                assert(pre[j as int].0@ == name@);
                proof {
                    lemma_entries_dom(pre, name@);
                }
                assert(exists|k: int| 0 <= k < pre.len() && (#[trigger] pre[k]).0@ == name@);
                return true;
            }
            j += 1;
        }
        false
    }
}

#[verifier::loop_isolation(false)]
fn match_in<'a>(pattern: &'a Pattern, expr: &'a Expr, bindings: &mut Bindings<'a>, pre: usize) -> (r: bool)
    requires
        pre <= old(bindings).entries@.len(),
    ensures
        old(bindings).entries@.len() <= final(bindings).entries@.len(),
        final(bindings).entries@.take(old(bindings).entries@.len() as int) == old(bindings).entries@,
        captures_none(pattern@, entries_map(old(bindings).entries@.take(pre as int)).dom())
            ==> (r, final(bindings)@) == spec_match(pattern@, expr@, old(bindings)@),
        old(bindings)@.submap_of(final(bindings)@),
        r ==> matched(pattern@, expr@, final(bindings)@),
        pattern@ is Capture && entries_map(old(bindings).entries@.take(pre as int)).contains_key(pattern@->Capture_0)
            ==> final(bindings).entries@ == old(bindings).entries@ && (r ==> old(bindings)@[pattern@->Capture_0] == expr@),
    decreases pattern,
{
    let ghost names = entries_map(old(bindings).entries@.take(pre as int)).dom();
    proof {
        assert(old(bindings).entries@.take(old(bindings).entries@.len() as int) =~= old(bindings).entries@);
        assert(old(bindings)@.submap_of(old(bindings)@));
    }
    match pattern {
        Pattern::Wildcard => true,
        Pattern::Capture(name) => match bindings.get(name) {
            Some(prev) => {
                if bindings.bound_before(name, pre) {
                    same_node(prev, expr)
                } else {
                    false
                }
            },
            None => {
                let ghost before = bindings.entries@;
                proof {
                    let head = before.take(pre as int);
                    lemma_entries_dom(head, name@);
                    lemma_entries_dom(before, name@);
                    if entries_map(head).contains_key(name@) {
                        let j = choose|j: int| 0 <= j < head.len() && (#[trigger] head[j]).0@ == name@;
                        assert(before[j] == head[j]);
                    }
                }
                bindings.entries.push((name.clone(), expr));
                proof {
                    assert(bindings.entries@.drop_last() =~= before);
                    assert(bindings.entries@.take(before.len() as int) =~= before);
                    assert(bindings@ == old(bindings)@.insert(name@, expr@));
                    assert(old(bindings)@.submap_of(bindings@));
                }
                true
            },
        },
        Pattern::Int(a) => match expr {
            Expr::Int(b) => *a == *b,
            _ => false,
        },
        Pattern::Bool(a) => match expr {
            Expr::Bool(b) => *a == *b,
            _ => false,
        },
        Pattern::String(a) => match expr {
            Expr::String(b) => *a == *b,
            _ => false,
        },
        Pattern::Ident(a) => match expr {
            Expr::Ident(b) => *a == *b,
            _ => false,
        },
        Pattern::Binary { op, left, right } => match expr {
            Expr::Binary { op: eop, left: el, right: er } => {
                let op_ok = match op {
                    Some(o) => *o == *eop,
                    None => true,
                };
                if !op_ok {
                    return false;
                }
                let ghost e0 = bindings.entries@;
                if !match_in(&**left, &**el, bindings, pre) {
                    return false;
                }
                let ghost m1 = bindings@;
                let ghost e1 = bindings.entries@;
                proof {
                    assert(e1.take(pre as int) =~= e0.take(pre as int));
                }
                let r = match_in(&**right, &**er, bindings, pre);
                proof {
                    let e2 = bindings.entries@;
                    assert(e2.take(e0.len() as int) =~= e0) by {
                        assert(e2.take(e1.len() as int).take(e0.len() as int) =~= e2.take(e0.len() as int));
                    }
                    vstd::map_lib::lemma_submap_of_trans(old(bindings)@, m1, bindings@);
                    if r {
                        lemma_matched_mono(left@, el@, m1, bindings@);
                    }
                }
                r
            },
            _ => false,
        },
        Pattern::Call { callee, args: pargs } => match expr {
            Expr::Call { callee: ec, args: eargs } => {
                let ghost pv = patterns_view(pargs@);
                let ghost ev = exprs_view(eargs@);
                proof {
                    lemma_patterns_view(pargs@);
                    lemma_exprs_view(eargs@);
                    assert(pv.skip(0) =~= pv);
                    assert(ev.skip(0) =~= ev);
                    assert(expr@ == ExprView::Call { callee: ec@, args: ev });
                }
                let callee_ok = match callee {
                    Some(n) => *n == *ec,
                    None => true,
                };
                proof {
                    assert(pattern@ matches PatternView::Call { callee: c, args } && args == pv && callee_admits(c, ec@) == callee_ok);
                }
                if !(callee_ok && pargs.len() == eargs.len()) {
                    return false;
                }
                assert(spec_match(pattern@, expr@, old(bindings)@) == spec_match_list(pv, ev, old(bindings)@));
                let mut i: usize = 0;
                while i < pargs.len()
                    invariant
                        i <= pargs@.len(),
                        pargs@.len() == eargs@.len(),
                        pre <= old(bindings).entries@.len(),
                        pv == patterns_view(pargs@),
                        ev == exprs_view(eargs@),
                        pv.len() == pargs@.len(),
                        ev.len() == eargs@.len(),
                        forall|k: int| 0 <= k < pargs@.len() ==> #[trigger] pv[k] == pargs@[k]@,
                        forall|k: int| 0 <= k < eargs@.len() ==> #[trigger] ev[k] == eargs@[k]@,
                        names == entries_map(old(bindings).entries@.take(pre as int)).dom(),
                        old(bindings).entries@.len() <= bindings.entries@.len(),
                        bindings.entries@.take(old(bindings).entries@.len() as int) == old(bindings).entries@,
                        old(bindings)@.submap_of(bindings@),
                        forall|k: int| 0 <= k < i ==> matched(#[trigger] pv[k], ev[k], bindings@),
                        captures_none(pattern@, names) ==> spec_match_list(pv, ev, old(bindings)@) == spec_match_list(pv.skip(i as int), ev.skip(i as int), bindings@),
                    decreases pargs@.len() - i,
                {
                    let ghost before = bindings@;
                    let ghost eb = bindings.entries@;
                    proof {
                        assert(eb.take(pre as int) =~= old(bindings).entries@.take(pre as int)) by {
                            assert(eb.take(old(bindings).entries@.len() as int).take(pre as int) =~= eb.take(pre as int));
                        }
                        if captures_none(pattern@, names) {
                            assert(pattern@ matches PatternView::Call { args, .. } && args == pv);
                            assert(captures_none(pv[i as int], names));
                        }
                    }
                    let ok = match_in(&pargs[i], &eargs[i], bindings, pre);
                    proof {
                        let ea = bindings.entries@;
                        assert(ea.take(old(bindings).entries@.len() as int) =~= old(bindings).entries@) by {
                            assert(ea.take(eb.len() as int).take(old(bindings).entries@.len() as int) =~= ea.take(old(bindings).entries@.len() as int));
                        }
                        assert(pv.skip(i as int)[0] == pv[i as int]);
                        assert(ev.skip(i as int)[0] == ev[i as int]);
                        assert(pv.skip(i as int).drop_first() =~= pv.skip(i + 1));
                        assert(ev.skip(i as int).drop_first() =~= ev.skip(i + 1));
                        assert forall|k: int| 0 <= k < i implies matched(#[trigger] pv[k], ev[k], bindings@) by {
                            lemma_matched_mono(pv[k], ev[k], before, bindings@);
                        }
                        vstd::map_lib::lemma_submap_of_trans(old(bindings)@, before, bindings@);
                    }
                    if !ok {
                        assert(pv.skip(i as int).len() > 0);
                        return false;
                    }
                    i += 1;
                }
                proof {
                    assert(pv.skip(i as int) =~= Seq::<PatternView>::empty());
                }
                true
            },
            _ => false,
        },
    }
}

/// Matches `pattern` against `expr`, adding the captures to `bindings`. A
/// capture whose name is already bound matches only the very node that it
/// holds. Where none of the pattern's captures is bound before the call, the
/// outcome is `spec_match`'s (a name met twice in one match holds another
/// node the second time, and fails). Where some is, whether it holds the very
/// node depends on addresses, which are not stated; then a match still binds
/// nothing twice, keeps every capture made before, and matches each capture
/// to the value it holds; a pattern that is one bound capture leaves the
/// bindings as they were, and matches only where the node it holds has the
/// value of `expr`.
pub fn match_pattern<'a>(pattern: &'a Pattern, expr: &'a Expr, bindings: &mut Bindings<'a>) -> (r: bool)
    ensures
        captures_none(pattern@, old(bindings)@.dom()) ==> (r, final(bindings)@) == spec_match(pattern@, expr@, old(bindings)@),
        old(bindings)@.submap_of(final(bindings)@),
        r ==> matched(pattern@, expr@, final(bindings)@),
        pattern@ is Capture && old(bindings)@.contains_key(pattern@->Capture_0)
            ==> final(bindings)@ == old(bindings)@ && (r ==> old(bindings)@[pattern@->Capture_0] == expr@),
{
    let pre = bindings.entries.len();
    proof {
        assert(bindings.entries@.take(pre as int) =~= bindings.entries@);
    }
    match_in(pattern, expr, bindings, pre)
}

/// No capture uses a name of the empty set.
proof fn lemma_captures_none_empty(p: PatternView)
    ensures
        captures_none(p, Set::empty()),
    decreases p,
{
    match p {
        PatternView::Binary { left, right, .. } => {
            lemma_captures_none_empty(*left);
            lemma_captures_none_empty(*right);
        },
        PatternView::Call { args, .. } => {
            assert forall|i: int| 0 <= i < args.len() implies captures_none(#[trigger] args[i], Set::empty()) by {
                assert(decreases_to!(p => args[i]));
                lemma_captures_none_empty(args[i]);
            }
        },
        _ => {},
    }
}

/// Whether `pattern` matches `expr`, captures aside.
pub fn match_pattern_simple(pattern: &Pattern, expr: &Expr) -> (r: bool)
    ensures
        r == spec_match(pattern@, expr@, Map::empty()).0,
{
    let mut b = Bindings::new();
    proof {
        lemma_captures_none_empty(pattern@);
        assert(b@.dom() =~= Set::<Seq<char>>::empty());
    }
    match_pattern(pattern, expr, &mut b)
}


// ---------------------------------------------------------------------------
// Rewriting with rules

/// `e` with each identifier that `m` binds replaced by its binding, inside
/// binary expressions and call arguments; other expressions stay as they are.
pub open spec fn spec_subst(e: ExprView, m: Map<Seq<char>, ExprView>) -> ExprView
    decreases e,
{
    match e {
        ExprView::Ident(n) => if m.contains_key(n) {
            m[n]
        } else {
            e
        },
        ExprView::Binary { op, left, right } => ExprView::Binary {
            op,
            left: Box::new(spec_subst(*left, m)),
            right: Box::new(spec_subst(*right, m)),
        },
        ExprView::Call { callee, args } => ExprView::Call {
            callee,
            args: Seq::new(args.len(), |i: int| if 0 <= i < args.len() { spec_subst(args[i], m) } else { args[i] }),
        },
        _ => e,
    }
}


/// `expr` with the captured identifiers replaced by copies of their bindings.
#[verifier::loop_isolation(false)]
#[verifier::spinoff_prover]
fn substitute_captures(expr: &Expr, binds: &Bindings) -> (r: Expr)
    ensures
        r@ == spec_subst(expr@, binds@),
    decreases expr,
{
    match expr {
        Expr::Ident(name) => match binds.get(name) {
            Some(e) => clone_expr(e),
            None => Expr::Ident(name.clone()),
        },
        Expr::Binary { op, left, right } => Expr::Binary {
            op: *op,
            left: Box::new(substitute_captures(&**left, binds)),
            right: Box::new(substitute_captures(&**right, binds)),
        },
        Expr::Call { callee, args } => {
            let mut a: Vec<Expr> = Vec::new();
            let mut i: usize = 0;
            proof {
                lemma_exprs_view(args@);
            }
            while i < args.len()
                invariant
                    i <= args@.len(),
                    a@.len() == i,
                    forall|k: int| 0 <= k < i ==> (#[trigger] a@[k])@ == spec_subst(args@[k]@, binds@),
                decreases args@.len() - i,
            {
                a.push(substitute_captures(&args[i], binds));
                i += 1;
            }
            proof {
                lemma_exprs_view(a@);
                let ev = exprs_view(args@);
                assert(expr@ == ExprView::Call { callee: callee@, args: ev });
                assert(exprs_view(a@) =~= spec_subst(expr@, binds@)->args);
            }
            Expr::Call { callee: callee.clone(), args: a }
        },
        _ => clone_expr(expr),
    }
}

/// Whether a rule's guard lets it apply: no guard, or the constant `true`.
pub open spec fn guard_admits(g: Option<ExprView>) -> bool {
    match g {
        None => true,
        Some(ExprView::Bool(b)) => b,
        Some(_) => false,
    }
}

/// The rules taken by their values.
pub open spec fn rules_view(rs: Seq<RewriteRule>) -> Seq<RewriteRuleView> {
    rs.map_values(|r: RewriteRule| r@)
}

/// What the first rule from index `i` on that applies to `e` makes of it: its
/// replacement with the captures substituted.
pub open spec fn first_rule(e: ExprView, rules: Seq<RewriteRuleView>, i: int) -> Option<ExprView>
    decreases rules.len() - i,
{
    if i < 0 || i >= rules.len() {
        None
    } else {
        let (ok, m) = spec_match(rules[i].pattern, e, Map::empty());
        if ok && guard_admits(rules[i].guard) {
            Some(spec_subst(rules[i].replacement, m))
        } else {
            first_rule(e, rules, i + 1)
        }
    }
}

/// `e` rewritten by `rules`: the first rule that applies replaces the node;
/// where none applies, the children are rewritten.
pub open spec fn spec_rewrite(e: ExprView, rules: Seq<RewriteRuleView>) -> ExprView
    decreases e,
{
    match first_rule(e, rules, 0) {
        Some(r) => r,
        None => match e {
            ExprView::Binary { op, left, right } => ExprView::Binary {
                op,
                left: Box::new(spec_rewrite(*left, rules)),
                right: Box::new(spec_rewrite(*right, rules)),
            },
            ExprView::Call { callee, args } => ExprView::Call {
                callee,
                args: Seq::new(args.len(), |i: int| if 0 <= i < args.len() { spec_rewrite(args[i], rules) } else { args[i] }),
            },
            ExprView::Match { value, arms } => ExprView::Match {
                value: Box::new(spec_rewrite(*value, rules)),
                arms: Seq::new(arms.len(), |i: int| if 0 <= i < arms.len() { (arms[i].0, spec_rewrite(arms[i].1, rules)) } else { arms[i] }),
            },
            _ => e,
        },
    }
}

#[verifier::loop_isolation(false)]
#[verifier::spinoff_prover]
fn rewrite_with_rules(expr: &Expr, rules: &[RewriteRule]) -> (r: Expr)
    ensures
        r@ == spec_rewrite(expr@, rules_view(rules@)),
    decreases expr,
{
    let ghost rv = rules_view(rules@);
    let mut i: usize = 0;
    while i < rules.len()
        invariant
            i <= rules@.len(),
            rv == rules_view(rules@),
            first_rule(expr@, rv, 0) == first_rule(expr@, rv, i as int),
        decreases rules@.len() - i,
    {
        let rule = &rules[i];
        let mut binds = Bindings::new();
        proof {
            lemma_captures_none_empty(rule.pattern@);
            assert(binds@.dom() =~= Set::<Seq<char>>::empty());
        }
        let matched = match_pattern(&rule.pattern, expr, &mut binds);
        let guard_ok = match &rule.guard {
            Some(g) => match g {
                Expr::Bool(b) => *b,
                _ => false,
            },
            None => true,
        };
        proof {
            assert(rv[i as int] == rule@);
            assert(guard_admits(rule@.guard) == guard_ok);
        }
        if matched && guard_ok {
            return substitute_captures(&rule.replacement, &binds);
        }
        i += 1;
    }
    assert(first_rule(expr@, rv, 0) is None);
    match expr {
        Expr::Binary { op, left, right } => {
            let l = rewrite_with_rules(&**left, rules);
            let r = rewrite_with_rules(&**right, rules);
            let out = Expr::Binary { op: *op, left: Box::new(l), right: Box::new(r) };
            assert(expr@ == ExprView::Binary { op: *op, left: Box::new(left@), right: Box::new(right@) });
            assert(spec_rewrite(expr@, rv) == ExprView::Binary { op: *op, left: Box::new(spec_rewrite(left@, rv)), right: Box::new(spec_rewrite(right@, rv)) });
            assert(out@ == ExprView::Binary { op: *op, left: Box::new(l@), right: Box::new(r@) });
            out
        },
        Expr::Call { callee, args } => {
            let mut a: Vec<Expr> = Vec::new();
            let mut k: usize = 0;
            proof {
                lemma_exprs_view(args@);
            }
            while k < args.len()
                invariant
                    k <= args@.len(),
                    a@.len() == k,
                    forall|j: int| 0 <= j < k ==> (#[trigger] a@[j])@ == spec_rewrite(args@[j]@, rv),
                decreases args@.len() - k,
            {
                a.push(rewrite_with_rules(&args[k], rules));
                k += 1;
            }
            proof {
                lemma_exprs_view(a@);
                let ev = exprs_view(args@);
                assert(expr@ == ExprView::Call { callee: callee@, args: ev });
                assert(exprs_view(a@) =~= spec_rewrite(expr@, rv)->args);
            }
            Expr::Call { callee: callee.clone(), args: a }
        },
        Expr::Match { value, arms } => {
            let v = rewrite_with_rules(&**value, rules);
            let mut a: Vec<(Pattern, Expr)> = Vec::new();
            let mut k: usize = 0;
            proof {
                lemma_arms_view(arms@);
            }
            while k < arms.len()
                invariant
                    k <= arms@.len(),
                    a@.len() == k,
                    forall|j: int| 0 <= j < k ==> (#[trigger] a@[j]).0@ == arms@[j].0@ && a@[j].1@ == spec_rewrite(arms@[j].1@, rv),
                decreases arms@.len() - k,
            {
                let (p, x) = &arms[k];
                a.push((super::ast::clone_pattern(p), rewrite_with_rules(x, rules)));
                k += 1;
            }
            proof {
                lemma_arms_view(a@);
                let av = arms_view(arms@);
                assert(expr@ == ExprView::Match { value: Box::new(value@), arms: av });
                assert(arms_view(a@) =~= spec_rewrite(expr@, rv)->arms);
            }
            Expr::Match { value: Box::new(v), arms: a }
        },
        _ => clone_expr(expr),
    }
}

/// Rewrites `expr` by `rules`: at each node, from the root down, the first
/// rule whose pattern matches and whose guard admits it replaces the node by
/// its replacement, with the captures substituted; the new node is not
/// rewritten again. Where no rule applies, the children are rewritten.
pub fn apply_rewrite_rules2(expr: Expr, rules: &[RewriteRule]) -> (r: Expr)
    ensures
        r@ == spec_rewrite(expr@, rules_view(rules@)),
{
    rewrite_with_rules(&expr, rules)
}

/// The same as `apply_rewrite_rules2`.
pub fn apply_rewrite_rules(expr: Expr, rules: &[RewriteRule]) -> (r: Expr)
    ensures
        r@ == spec_rewrite(expr@, rules_view(rules@)),
{
    apply_rewrite_rules2(expr, rules)
}


// ---------------------------------------------------------------------------
// Equality and fixpoint

/// Whether two patterns are the same.
#[verifier::loop_isolation(false)]
pub fn pattern_eq(a: &Pattern, b: &Pattern) -> (r: bool)
    ensures
        r == (a@ == b@),
    decreases a,
{
    match (a, b) {
        (Pattern::Wildcard, Pattern::Wildcard) => true,
        (Pattern::Capture(x), Pattern::Capture(y)) => *x == *y,
        (Pattern::Int(x), Pattern::Int(y)) => *x == *y,
        (Pattern::Bool(x), Pattern::Bool(y)) => *x == *y,
        (Pattern::String(x), Pattern::String(y)) => *x == *y,
        (Pattern::Ident(x), Pattern::Ident(y)) => *x == *y,
        (Pattern::Binary { op: o1, left: l1, right: r1 }, Pattern::Binary { op: o2, left: l2, right: r2 }) => {
            let same_op = match (o1, o2) {
                (Some(x), Some(y)) => *x == *y,
                (None, None) => true,
                _ => false,
            };
            same_op && pattern_eq(&**l1, &**l2) && pattern_eq(&**r1, &**r2)
        },
        (Pattern::Call { callee: c1, args: a1 }, Pattern::Call { callee: c2, args: a2 }) => {
            let same_callee = match (c1, c2) {
                (Some(x), Some(y)) => *x == *y,
                (None, None) => true,
                _ => false,
            };
            proof {
                lemma_patterns_view(a1@);
                lemma_patterns_view(a2@);
            }
            if !same_callee || a1.len() != a2.len() {
                proof {
                    if a1@.len() != a2@.len() {
                        assert(patterns_view(a1@).len() != patterns_view(a2@).len());
                    }
                }
                return false;
            }
            let mut i: usize = 0;
            while i < a1.len()
                invariant
                    i <= a1@.len(),
                    a1@.len() == a2@.len(),
                    forall|k: int| 0 <= k < i ==> (#[trigger] a1@[k])@ == a2@[k]@,
                decreases a1@.len() - i,
            {
                if !pattern_eq(&a1[i], &a2[i]) {
                    proof {
                        assert(patterns_view(a1@)[i as int] != patterns_view(a2@)[i as int]);
                    }
                    return false;
                }
                i += 1;
            }
            proof {
                assert(patterns_view(a1@) =~= patterns_view(a2@));
            }
            true
        },
        _ => false,
    }
}

/// Whether two expressions are the same.
#[verifier::loop_isolation(false)]
pub fn expr_eq(a: &Expr, b: &Expr) -> (r: bool)
    ensures
        r == (a@ == b@),
    decreases a,
{
    match (a, b) {
        (Expr::Int(x), Expr::Int(y)) => *x == *y,
        (Expr::Bool(x), Expr::Bool(y)) => *x == *y,
        (Expr::String(x), Expr::String(y)) => *x == *y,
        (Expr::Ident(x), Expr::Ident(y)) => *x == *y,
        (Expr::Binary { op: o1, left: l1, right: r1 }, Expr::Binary { op: o2, left: l2, right: r2 }) => {
            *o1 == *o2 && expr_eq(&**l1, &**l2) && expr_eq(&**r1, &**r2)
        },
        (Expr::Call { callee: c1, args: a1 }, Expr::Call { callee: c2, args: a2 }) => {
            proof {
                lemma_exprs_view(a1@);
                lemma_exprs_view(a2@);
            }
            if *c1 != *c2 || a1.len() != a2.len() {
                proof {
                    if a1@.len() != a2@.len() {
                        assert(exprs_view(a1@).len() != exprs_view(a2@).len());
                    }
                }
                return false;
            }
            let mut i: usize = 0;
            while i < a1.len()
                invariant
                    i <= a1@.len(),
                    a1@.len() == a2@.len(),
                    forall|k: int| 0 <= k < i ==> (#[trigger] a1@[k])@ == a2@[k]@,
                decreases a1@.len() - i,
            {
                if !expr_eq(&a1[i], &a2[i]) {
                    proof {
                        assert(exprs_view(a1@)[i as int] != exprs_view(a2@)[i as int]);
                    }
                    return false;
                }
                i += 1;
            }
            proof {
                assert(exprs_view(a1@) =~= exprs_view(a2@));
            }
            true
        },
        (Expr::Match { value: v1, arms: m1 }, Expr::Match { value: v2, arms: m2 }) => {
            proof {
                lemma_arms_view(m1@);
                lemma_arms_view(m2@);
            }
            if !expr_eq(&**v1, &**v2) || m1.len() != m2.len() {
                proof {
                    if m1@.len() != m2@.len() {
                        assert(arms_view(m1@).len() != arms_view(m2@).len());
                    }
                }
                return false;
            }
            let mut i: usize = 0;
            while i < m1.len()
                invariant
                    i <= m1@.len(),
                    m1@.len() == m2@.len(),
                    forall|k: int| 0 <= k < i ==> (#[trigger] m1@[k]).0@ == m2@[k].0@ && m1@[k].1@ == m2@[k].1@,
                decreases m1@.len() - i,
            {
                if !pattern_eq(&m1[i].0, &m2[i].0) || !expr_eq(&m1[i].1, &m2[i].1) {
                    proof {
                        assert(arms_view(m1@)[i as int] != arms_view(m2@)[i as int]);
                    }
                    return false;
                }
                i += 1;
            }
            proof {
                assert(arms_view(m1@) =~= arms_view(m2@));
            }
            true
        },
        _ => false,
    }
}

impl PartialEq for Expr {
    fn eq(&self, other: &Expr) -> (r: bool) {
        expr_eq(self, other)
    }
}

impl vstd::std_specs::cmp::PartialEqSpecImpl for Expr {
    open spec fn obeys_eq_spec() -> bool {
        true
    }

    open spec fn eq_spec(&self, other: &Expr) -> bool {
        self@ == other@
    }
}

/// `e` rewritten by `rules` again and again, at most `n` times, stopping at
/// the first pass that changes nothing.
pub open spec fn spec_fixpoint(e: ExprView, rules: Seq<RewriteRuleView>, n: nat) -> ExprView
    decreases n,
{
    if n == 0 {
        e
    } else {
        let next = spec_rewrite(e, rules);
        if next == e {
            e
        } else {
            spec_fixpoint(next, rules, (n - 1) as nat)
        }
    }
}

/// Applies `rules` until the expression no longer changes, or `max_iters`
/// passes have been made.
#[verifier::loop_isolation(false)]
pub fn apply_rewrite_fixpoint(expr: Expr, rules: &[RewriteRule], max_iters: usize) -> (r: Expr)
    ensures
        r@ == spec_fixpoint(expr@, rules_view(rules@), max_iters as nat),
{
    let ghost rv = rules_view(rules@);
    let ghost start = expr@;
    let mut expr = expr;
    let mut k: usize = 0;
    while k < max_iters
        invariant
            k <= max_iters,
            spec_fixpoint(start, rv, max_iters as nat) == spec_fixpoint(expr@, rv, (max_iters - k) as nat),
            rv == rules_view(rules@),
        decreases max_iters - k,
    {
        let new_expr = apply_rewrite_rules(expr.clone(), rules);
        if new_expr == expr {
            return expr;
        }
        expr = new_expr;
        k += 1;
    }
    expr
}


// ---------------------------------------------------------------------------
// Traversals with a function of the caller

/// Whether `f`, called on an expression of value `e`, may give back `out`.
pub open spec fn closure_gives<F: FnMut(Expr) -> Option<Expr>>(f: F, e: ExprView, out: Option<ExprView>) -> bool {
    exists|x: Expr, o: Option<Expr>|
        #[trigger] call_ensures(f, (x,), o) && x@ == e && match o {
            Some(n) => out == Some(n@),
            None => out is None,
        }
}

/// Whether `r` is a result of rewriting `e` with `f`: where `f` gives a node,
/// that node; where it gives nothing, the node with its children rewritten.
pub open spec fn rewritten_by<F: FnMut(Expr) -> Option<Expr>>(f: F, e: ExprView, r: ExprView) -> bool
    decreases e,
{
    closure_gives(f, e, Some(r)) || (closure_gives(f, e, None) && match e {
        ExprView::Binary { op, left, right } => r matches ExprView::Binary { op: op2, left: l2, right: r2 }
            && op2 == op && rewritten_by(f, *left, *l2) && rewritten_by(f, *right, *r2),
        ExprView::Call { callee, args } => r matches ExprView::Call { callee: c2, args: a2 } && c2 == callee
            && a2.len() == args.len()
            && forall|i: int| 0 <= i < args.len() ==> rewritten_by(f, args[i], #[trigger] a2[i]),
        ExprView::Match { value, arms } => r matches ExprView::Match { value: v2, arms: m2 }
            && rewritten_by(f, *value, *v2) && m2.len() == arms.len()
            && forall|i: int| 0 <= i < arms.len() ==> (#[trigger] m2[i]).0 == arms[i].0 && rewritten_by(f, arms[i].1, m2[i].1),
        _ => r == e,
    })
}

/// Rewrites `expr` with `f`, from the root down: where `f` gives a new node,
/// the node is replaced and its children are not visited; where it gives
/// `None`, the children are rewritten.
#[verifier::loop_isolation(false)]
pub fn rewrite_expr<F>(expr: Expr, f: &mut F) -> (r: Expr)
    where
        F: FnMut(Expr) -> Option<Expr>,
    requires
        forall|x: Expr| call_requires(*old(f), (x,)),
    ensures
        rewritten_by(*old(f), expr@, r@),
        *final(f) == *old(f),
    decreases expr,
{
    match f(clone_expr(&expr)) {
        Some(n) => {
            return n;
        },
        None => {},
    }
    match expr {
        Expr::Binary { op, left, right } => {
            let new_left = rewrite_expr(*left, f);
            let new_right = rewrite_expr(*right, f);
            Expr::Binary { op, left: Box::new(new_left), right: Box::new(new_right) }
        },
        Expr::Call { callee, args } => {
            let ghost orig = args@;
            let mut rest = args;
            let mut out: Vec<Expr> = Vec::new();
            let mut k: usize = 0;
            proof {
                lemma_exprs_view(orig);
                assert(orig.skip(0) =~= orig);
            }
            assert(orig.len() == rest.len());
            while rest.len() > 0
                invariant
                    k <= orig.len(),
                    orig.len() <= usize::MAX,
                    rest@ == orig.skip(k as int),
                    out@.len() == k,
                    *f == *old(f),
                    forall|x: Expr| call_requires(*f, (x,)),
                    forall|j: int| 0 <= j < k ==> rewritten_by(*f, orig[j]@, (#[trigger] out@[j])@),
                decreases rest@.len(),
            {
                let x = rest.remove(0);
                assert(x == orig[k as int]);
                let y = rewrite_expr(x, f);
                out.push(y);
                proof {
                    assert(rest@ =~= orig.skip(k + 1));
                }
                k += 1;
            }
            proof {
                lemma_exprs_view(out@);
                let ov = exprs_view(out@);
                let iv = exprs_view(orig);
                assert forall|i: int| 0 <= i < iv.len() implies rewritten_by(*old(f), iv[i], #[trigger] ov[i]) by {
                    assert(out@[i]@ == ov[i]);
                }
            }
            Expr::Call { callee, args: out }
        },
        Expr::Match { value, arms } => {
            let v = rewrite_expr(*value, f);
            let ghost orig = arms@;
            let mut rest = arms;
            let mut out: Vec<(Pattern, Expr)> = Vec::new();
            let mut k: usize = 0;
            proof {
                lemma_arms_view(orig);
                assert(orig.skip(0) =~= orig);
            }
            assert(orig.len() == rest.len());
            while rest.len() > 0
                invariant
                    k <= orig.len(),
                    orig.len() <= usize::MAX,
                    rest@ == orig.skip(k as int),
                    out@.len() == k,
                    *f == *old(f),
                    forall|x: Expr| call_requires(*f, (x,)),
                    forall|j: int| 0 <= j < k ==> (#[trigger] out@[j]).0@ == orig[j].0@ && rewritten_by(*f, orig[j].1@, out@[j].1@),
                decreases rest@.len(),
            {
                let (p, x) = rest.remove(0);
                assert(x == orig[k as int].1);
                let y = rewrite_expr(x, f);
                out.push((p, y));
                proof {
                    assert(rest@ =~= orig.skip(k + 1));
                }
                k += 1;
            }
            proof {
                lemma_arms_view(out@);
                let ov = arms_view(out@);
                let iv = arms_view(orig);
                assert forall|i: int| 0 <= i < iv.len() implies (#[trigger] ov[i]).0 == iv[i].0 && rewritten_by(*old(f), iv[i].1, ov[i].1) by {
                    assert(out@[i].0@ == ov[i].0);
                }
            }
            Expr::Match { value: Box::new(v), arms: out }
        },
        other => other,
    }
}


/// The nodes of `e` in the order of a depth-first walk: each node before its
/// children, the children left to right (for a match, its value, then the
/// expressions of its arms).
pub open spec fn preorder(e: Expr) -> Seq<Expr>
    decreases e,
{
    match e {
        Expr::Binary { left, right, .. } => seq![e] + preorder(*left) + preorder(*right),
        Expr::Call { args, .. } => seq![e] + preorder_list(args@),
        Expr::Match { value, arms } => seq![e] + preorder(*value) + preorder_arms(arms@),
        _ => seq![e],
    }
}

/// The walks of a list of expressions, one after the other.
pub open spec fn preorder_list(es: Seq<Expr>) -> Seq<Expr>
    decreases es,
{
    if es.len() == 0 {
        Seq::empty()
    } else {
        preorder_list(es.drop_last()) + preorder(es.last())
    }
}

/// The walks of the expressions of match arms, one after the other.
pub open spec fn preorder_arms(arms: Seq<(Pattern, Expr)>) -> Seq<Expr>
    decreases arms,
{
    if arms.len() == 0 {
        Seq::empty()
    } else {
        preorder_arms(arms.drop_last()) + preorder(arms.last().1)
    }
}

/// One step of a fold: `f` called on the `i`-th accumulator and node may give
/// the next accumulator.
pub open spec fn fold_step<A, F: FnMut(A, &Expr) -> A>(f: F, accs: Seq<A>, nodes: Seq<Expr>, i: int) -> bool {
    call_ensures(f, (accs[i], &nodes[i]), accs[i + 1])
}

/// Whether folding `f` over `nodes`, in order, from `a` may end in `r`.
pub open spec fn fold_chain<A, F: FnMut(A, &Expr) -> A>(f: F, nodes: Seq<Expr>, a: A, r: A) -> bool {
    exists|accs: Seq<A>|
        accs.len() == nodes.len() + 1 && accs[0] == a && accs[nodes.len() as int] == r
            && forall|i: int| 0 <= i < nodes.len() ==> #[trigger] fold_step(f, accs, nodes, i)
}

proof fn lemma_chain_one<A, F: FnMut(A, &Expr) -> A>(f: F, e: Expr, a: A, r: A)
    requires
        call_ensures(f, (a, &e), r),
    ensures
        fold_chain(f, seq![e], a, r),
{
    let accs = seq![a, r];
    let nodes = seq![e];
    assert(fold_step(f, accs, nodes, 0));
    assert forall|i: int| 0 <= i < nodes.len() implies #[trigger] fold_step(f, accs, nodes, i) by {
        assert(i == 0);
    }
    assert(accs.len() == nodes.len() + 1 && accs[0] == a && accs[nodes.len() as int] == r);
}

proof fn lemma_chain_empty<A, F: FnMut(A, &Expr) -> A>(f: F, a: A)
    ensures
        fold_chain(f, Seq::empty(), a, a),
{
    assert(seq![a].len() == 1);
    let accs = seq![a];
    assert(accs[0] == a);
}

proof fn lemma_chain_join<A, F: FnMut(A, &Expr) -> A>(f: F, s1: Seq<Expr>, s2: Seq<Expr>, a: A, m: A, r: A)
    requires
        fold_chain(f, s1, a, m),
        fold_chain(f, s2, m, r),
    ensures
        fold_chain(f, s1 + s2, a, r),
{
    let c1 = choose|accs: Seq<A>|
        accs.len() == s1.len() + 1 && accs[0] == a && accs[s1.len() as int] == m
            && forall|i: int| 0 <= i < s1.len() ==> #[trigger] fold_step(f, accs, s1, i);
    let c2 = choose|accs: Seq<A>|
        accs.len() == s2.len() + 1 && accs[0] == m && accs[s2.len() as int] == r
            && forall|i: int| 0 <= i < s2.len() ==> #[trigger] fold_step(f, accs, s2, i);
    let accs = c1 + c2.drop_first();
    let s = s1 + s2;
    assert forall|i: int| 0 <= i < s.len() implies #[trigger] fold_step(f, accs, s, i) by {
        if i < s1.len() {
            assert(fold_step(f, c1, s1, i));
            assert(accs[i] == c1[i] && accs[i + 1] == c1[i + 1] && s[i] == s1[i]);
        } else {
            let j = i - s1.len();
            assert(fold_step(f, c2, s2, j));
            assert(accs[i] == c2[j] && accs[i + 1] == c2[j + 1] && s[i] == s2[j]);
        }
    }
    assert(accs[s.len() as int] == c2[s2.len() as int]);
    assert(accs.len() == s.len() + 1 && accs[0] == a && accs[s.len() as int] == r);
}

#[verifier::loop_isolation(false)]
fn fold_with<A, F>(expr: &Expr, init: A, f: &mut F) -> (r: A)
    where
        F: FnMut(A, &Expr) -> A,
    requires
        forall|a: A, e: &Expr| call_requires(*old(f), (a, e)),
    ensures
        fold_chain(*old(f), preorder(*expr), init, r),
        *final(f) == *old(f),
    decreases expr,
{
    let ghost a0 = init;
    let ghost g = *f;
    let a1 = f(init, expr);
    proof {
        lemma_chain_one(g, *expr, a0, a1);
    }
    match expr {
        Expr::Binary { left, right, .. } => {
            let m = fold_with(&**left, a1, f);
            let out = fold_with(&**right, m, f);
            proof {
                lemma_chain_join(g, seq![*expr], preorder(**left), a0, a1, m);
                lemma_chain_join(g, seq![*expr] + preorder(**left), preorder(**right), a0, m, out);
            }
            out
        },
        Expr::Call { args, .. } => {
            let ghost s = args@;
            let mut acc = a1;
            let mut k: usize = 0;
            proof {
                lemma_chain_empty(g, a1);
                assert(preorder_list(s.take(0)) =~= Seq::<Expr>::empty());
                lemma_chain_join(g, seq![*expr], Seq::<Expr>::empty(), a0, a1, a1);
                assert(seq![*expr] + Seq::<Expr>::empty() =~= seq![*expr]);
            }
            while k < args.len()
                invariant
                    k <= s.len(),
                    s == args@,
                    *f == g,
                    forall|a: A, e: &Expr| call_requires(*f, (a, e)),
                    fold_chain(g, seq![*expr] + preorder_list(s.take(k as int)), a0, acc),
                decreases s.len() - k,
            {
                let ghost before = acc;
                acc = fold_with(&args[k], acc, f);
                proof {
                    let p = seq![*expr] + preorder_list(s.take(k as int));
                    lemma_chain_join(g, p, preorder(s[k as int]), a0, before, acc);
                    assert(s.take(k + 1).drop_last() =~= s.take(k as int));
                    assert(p + preorder(s[k as int]) =~= seq![*expr] + preorder_list(s.take(k + 1)));
                }
                k += 1;
            }
            proof {
                assert(s.take(k as int) =~= s);
            }
            acc
        },
        Expr::Match { value, arms } => {
            let m = fold_with(&**value, a1, f);
            let ghost s = arms@;
            let ghost head = seq![*expr] + preorder(**value);
            let mut acc = m;
            let mut k: usize = 0;
            proof {
                lemma_chain_join(g, seq![*expr], preorder(**value), a0, a1, m);
                assert(preorder_arms(s.take(0)) =~= Seq::<Expr>::empty());
                assert(head + Seq::<Expr>::empty() =~= head);
            }
            while k < arms.len()
                invariant
                    k <= s.len(),
                    s == arms@,
                    *f == g,
                    head == seq![*expr] + preorder(**value),
                    forall|a: A, e: &Expr| call_requires(*f, (a, e)),
                    fold_chain(g, head + preorder_arms(s.take(k as int)), a0, acc),
                decreases s.len() - k,
            {
                let ghost before = acc;
                acc = fold_with(&arms[k].1, acc, f);
                proof {
                    let p = head + preorder_arms(s.take(k as int));
                    lemma_chain_join(g, p, preorder(s[k as int].1), a0, before, acc);
                    assert(s.take(k + 1).drop_last() =~= s.take(k as int));
                    assert(p + preorder(s[k as int].1) =~= head + preorder_arms(s.take(k + 1)));
                }
                k += 1;
            }
            proof {
                assert(s.take(k as int) =~= s);
            }
            acc
        },
        _ => a1,
    }
}

/// Folds `f` over the nodes of `expr`, from `init`: each node before its
/// children, the children left to right.
pub fn fold_expr<A, F>(expr: &Expr, init: A, f: F) -> (r: A)
    where
        F: FnMut(A, &Expr) -> A,
        A: Clone,
    requires
        forall|a: A, e: &Expr| call_requires(f, (a, e)),
    ensures
        fold_chain(f, preorder(*expr), init, r),
{
    let mut f = f;
    fold_with(expr, init, &mut f)
}

/// Whether `f` has been called on each of `nodes`: each is an input on
/// which a call of `f` returned.
pub open spec fn called_on_all<F: FnMut(&Expr)>(f: F, nodes: Seq<Expr>) -> bool {
    forall|k: int| 0 <= k < nodes.len() ==> call_ensures(f, (&#[trigger] nodes[k],), ())
}

proof fn lemma_called_on_concat<F: FnMut(&Expr)>(f: F, a: Seq<Expr>, b: Seq<Expr>)
    requires
        called_on_all(f, a),
        called_on_all(f, b),
    ensures
        called_on_all(f, a + b),
{
    assert forall|k: int| 0 <= k < (a + b).len() implies call_ensures(f, (&#[trigger] (a + b)[k],), ()) by {
        if k < a.len() {
            assert((a + b)[k] == a[k]);
        } else {
            assert((a + b)[k] == b[k - a.len()]);
        }
    }
}

/// Calls `f` on every node of `expr`, each node before its children, the
/// children left to right.
#[verifier::loop_isolation(false)]
pub fn visit_expr<F: FnMut(&Expr)>(expr: &Expr, f: &mut F)
    requires
        forall|e: &Expr| call_requires(*old(f), (e,)),
    ensures
        *final(f) == *old(f),
        called_on_all(*old(f), preorder(*expr)),
    decreases expr,
{
    f(expr);
    proof {
        assert(called_on_all(*f, seq![*expr]));
    }
    match expr {
        Expr::Binary { left, right, .. } => {
            visit_expr(&**left, f);
            visit_expr(&**right, f);
            proof {
                lemma_called_on_concat(*f, seq![*expr], preorder(**left));
                lemma_called_on_concat(*f, seq![*expr] + preorder(**left), preorder(**right));
            }
        },
        Expr::Call { args, .. } => {
            let mut k: usize = 0;
            proof {
                assert(args@.take(0) =~= Seq::<Expr>::empty());
                assert(seq![*expr] + preorder_list(args@.take(0)) =~= seq![*expr]);
            }
            while k < args.len()
                invariant
                    k <= args@.len(),
                    *f == *old(f),
                    forall|e: &Expr| call_requires(*f, (e,)),
                    called_on_all(*f, seq![*expr] + preorder_list(args@.take(k as int))),
                decreases args@.len() - k,
            {
                visit_expr(&args[k], f);
                proof {
                    assert(args@.take(k + 1).drop_last() =~= args@.take(k as int));
                    assert(args@.take(k + 1).last() == args@[k as int]);
                    lemma_called_on_concat(*f, seq![*expr] + preorder_list(args@.take(k as int)), preorder(args@[k as int]));
                    assert(seq![*expr] + preorder_list(args@.take(k + 1)) =~= seq![*expr] + preorder_list(args@.take(k as int)) + preorder(args@[k as int]));
                }
                k += 1;
            }
            proof {
                assert(args@.take(k as int) =~= args@);
            }
        },
        Expr::Match { value, arms } => {
            visit_expr(&**value, f);
            let mut k: usize = 0;
            proof {
                lemma_called_on_concat(*f, seq![*expr], preorder(**value));
                assert(arms@.take(0) =~= Seq::<(Pattern, Expr)>::empty());
                assert(seq![*expr] + preorder(**value) + preorder_arms(arms@.take(0)) =~= seq![*expr] + preorder(**value));
            }
            while k < arms.len()
                invariant
                    k <= arms@.len(),
                    *f == *old(f),
                    forall|e: &Expr| call_requires(*f, (e,)),
                    called_on_all(*f, seq![*expr] + preorder(**value) + preorder_arms(arms@.take(k as int))),
                decreases arms@.len() - k,
            {
                visit_expr(&arms[k].1, f);
                proof {
                    assert(arms@.take(k + 1).drop_last() =~= arms@.take(k as int));
                    assert(arms@.take(k + 1).last() == arms@[k as int]);
                    lemma_called_on_concat(*f, seq![*expr] + preorder(**value) + preorder_arms(arms@.take(k as int)), preorder(arms@[k as int].1));
                    assert(seq![*expr] + preorder(**value) + preorder_arms(arms@.take(k + 1)) =~= seq![*expr] + preorder(**value) + preorder_arms(arms@.take(k as int)) + preorder(arms@[k as int].1));
                }
                k += 1;
            }
            proof {
                assert(arms@.take(k as int) =~= arms@);
            }
        },
        _ => {},
    }
}

/// `e` rewritten by `rules` exactly `k` times.
pub open spec fn rewrite_iter(e: ExprView, rules: Seq<RewriteRuleView>, k: nat) -> ExprView
    decreases k,
{
    if k == 0 {
        e
    } else {
        spec_rewrite(rewrite_iter(e, rules, (k - 1) as nat), rules)
    }
}

/// How many passes the fixpoint makes that change something.
pub open spec fn fixpoint_steps(e: ExprView, rules: Seq<RewriteRuleView>, n: nat) -> nat
    decreases n,
{
    if n == 0 || spec_rewrite(e, rules) == e {
        0
    } else {
        1 + fixpoint_steps(spec_rewrite(e, rules), rules, (n - 1) as nat)
    }
}

proof fn lemma_rewrite_iter_shift(e: ExprView, rules: Seq<RewriteRuleView>, k: nat)
    ensures
        rewrite_iter(spec_rewrite(e, rules), rules, k) == rewrite_iter(e, rules, k + 1),
    decreases k,
{
    let k1: nat = k + 1;
    assert(rewrite_iter(e, rules, k1) == spec_rewrite(rewrite_iter(e, rules, (k1 - 1) as nat), rules));
    assert((k1 - 1) as nat == k);
    if k > 0 {
        lemma_rewrite_iter_shift(e, rules, (k - 1) as nat);
        assert(((k - 1) as nat + 1) as nat == k);
    }
}

/// The fixpoint of at most `n` passes is `e` rewritten `k` times, where `k`
/// is the first number of passes after which a pass changes nothing, or `n`
/// where there is none below it: every pass before the `k`-th changed
/// something, and where `k < n` the result is a fixed point of the rules.
pub proof fn lemma_fixpoint_stops(e: ExprView, rules: Seq<RewriteRuleView>, n: nat)
    ensures
        fixpoint_steps(e, rules, n) <= n,
        spec_fixpoint(e, rules, n) == rewrite_iter(e, rules, fixpoint_steps(e, rules, n)),
        forall|i: nat| i < fixpoint_steps(e, rules, n) ==> #[trigger] rewrite_iter(e, rules, i + 1) != rewrite_iter(e, rules, i),
        fixpoint_steps(e, rules, n) < n ==> spec_rewrite(spec_fixpoint(e, rules, n), rules) == spec_fixpoint(e, rules, n),
    decreases n,
{
    if n > 0 && spec_rewrite(e, rules) != e {
        let next = spec_rewrite(e, rules);
        let m = (n - 1) as nat;
        lemma_fixpoint_stops(next, rules, m);
        let k = fixpoint_steps(next, rules, m);
        lemma_rewrite_iter_shift(e, rules, k);
        assert forall|i: nat| i < k + 1 implies #[trigger] rewrite_iter(e, rules, i + 1) != rewrite_iter(e, rules, i) by {
            if i == 0 {
                assert(rewrite_iter(e, rules, 1) == spec_rewrite(rewrite_iter(e, rules, 0), rules));
            } else {
                let j = (i - 1) as nat;
                lemma_rewrite_iter_shift(e, rules, j);
                lemma_rewrite_iter_shift(e, rules, i);
                assert(rewrite_iter(next, rules, j + 1) != rewrite_iter(next, rules, j));
            }
        }
    }
}

/// The direct children of an expression, in the order a walk visits them:
/// both sides of a binary expression, the arguments of a call, the value of a
/// match and then the expressions of its arms.
pub open spec fn child_views(e: ExprView) -> Seq<ExprView> {
    match e {
        ExprView::Binary { left, right, .. } => seq![*left, *right],
        ExprView::Call { args, .. } => args,
        ExprView::Match { value, arms } => seq![*value] + arms.map_values(|a: (PatternView, ExprView)| a.1),
        _ => Seq::empty(),
    }
}

/// The direct children of `e`, in the order a walk visits them.
pub fn children(e: &Expr) -> (r: Vec<&Expr>)
    ensures
        r@.len() == child_views(e@).len(),
        forall|i: int| 0 <= i < r@.len() ==> (#[trigger] r@[i])@ == child_views(e@)[i],
{
    let mut out: Vec<&Expr> = Vec::new();
    match e {
        Expr::Binary { left, right, .. } => {
            out.push(&**left);
            out.push(&**right);
        },
        Expr::Call { args, .. } => {
            proof {
                lemma_exprs_view(args@);
            }
            let mut i: usize = 0;
            while i < args.len()
                invariant
                    i <= args@.len(),
                    out@.len() == i,
                    forall|k: int| 0 <= k < i ==> (#[trigger] out@[k])@ == args@[k]@,
                decreases args@.len() - i,
            {
                out.push(&args[i]);
                i += 1;
            }
        },
        Expr::Match { value, arms } => {
            proof {
                lemma_arms_view(arms@);
            }
            out.push(&**value);
            let mut i: usize = 0;
            while i < arms.len()
                invariant
                    i <= arms@.len(),
                    out@.len() == i + 1,
                    out@[0]@ == value@,
                    forall|k: int| 0 <= k < i ==> (#[trigger] out@[k + 1])@ == arms@[k].1@,
                decreases arms@.len() - i,
            {
                out.push(&arms[i].1);
                i += 1;
            }
            proof {
                let cv = child_views(e@);
                assert forall|k: int| 0 <= k < out@.len() implies (#[trigger] out@[k])@ == cv[k] by {
                    if k > 0 {
                        assert(out@[(k - 1) + 1] == out@[k]);
                    }
                }
            }
        },
        _ => {},
    }
    out
}

// ---------------------------------------------------------------------------
// Laws

/// Rewriting with no rules gives back the expression unchanged.
pub proof fn lemma_rewrite_without_rules(e: ExprView)
    ensures
        spec_rewrite(e, Seq::empty()) == e,
    decreases e,
{
    let rules = Seq::<RewriteRuleView>::empty();
    assert(first_rule(e, rules, 0) is None);
    match e {
        ExprView::Binary { left, right, .. } => {
            lemma_rewrite_without_rules(*left);
            lemma_rewrite_without_rules(*right);
        },
        ExprView::Call { args, .. } => {
            assert forall|i: int| 0 <= i < args.len() implies spec_rewrite(args[i], rules) == args[i] by {
                lemma_rewrite_without_rules(args[i]);
            }
            assert(spec_rewrite(e, rules)->args =~= args);
        },
        ExprView::Match { value, arms } => {
            lemma_rewrite_without_rules(*value);
            assert forall|i: int| 0 <= i < arms.len() implies spec_rewrite(arms[i].1, rules) == arms[i].1 by {
                lemma_rewrite_without_rules(arms[i].1);
            }
            assert(spec_rewrite(e, rules)->arms =~= arms);
        },
        _ => {},
    }
}

/// Matching never changes or drops a capture that was made before: it only
/// adds new ones.
pub proof fn lemma_match_keeps_captures(p: PatternView, e: ExprView, m: Map<Seq<char>, ExprView>)
    ensures
        m.submap_of(spec_match(p, e, m).1),
    decreases p,
{
    match p {
        PatternView::Binary { op, left, right } => match e {
            ExprView::Binary { op: eop, left: el, right: er } => {
                if op_admits(op, eop) {
                    let (ok, m1) = spec_match(*left, *el, m);
                    lemma_match_keeps_captures(*left, *el, m);
                    if ok {
                        lemma_match_keeps_captures(*right, *er, m1);
                        vstd::map_lib::lemma_submap_of_trans(m, m1, spec_match(*right, *er, m1).1);
                    }
                }
            },
            _ => {},
        },
        PatternView::Call { callee, args } => match e {
            ExprView::Call { callee: ec, args: eargs } => {
                if callee_admits(callee, ec) && args.len() == eargs.len() {
                    lemma_match_list_keeps_captures(args, eargs, m);
                }
            },
            _ => {},
        },
        _ => {},
    }
}

/// Matching a list of patterns only adds captures.
pub proof fn lemma_match_list_keeps_captures(ps: Seq<PatternView>, es: Seq<ExprView>, m: Map<Seq<char>, ExprView>)
    ensures
        m.submap_of(spec_match_list(ps, es, m).1),
    decreases ps,
{
    if ps.len() > 0 {
        let (ok, m1) = spec_match(ps[0], es[0], m);
        lemma_match_keeps_captures(ps[0], es[0], m);
        if ok {
            lemma_match_list_keeps_captures(ps.drop_first(), es.drop_first(), m1);
            vstd::map_lib::lemma_submap_of_trans(m, m1, spec_match_list(ps.drop_first(), es.drop_first(), m1).1);
        }
    }
}

/// A function that never gives a replacement leaves every expression as it
/// was.
pub proof fn lemma_rewrite_by_nothing<F: FnMut(Expr) -> Option<Expr>>(f: F, e: ExprView, r: ExprView)
    requires
        rewritten_by(f, e, r),
        forall|x: Expr, o: Option<Expr>| call_ensures(f, (x,), o) ==> o is None,
    ensures
        r == e,
    decreases e,
{
    assert(!closure_gives(f, e, Some(r)));
    match e {
        ExprView::Binary { left, right, .. } => {
            let l2 = *(r->left);
            let r2 = *(r->right);
            lemma_rewrite_by_nothing(f, *left, l2);
            lemma_rewrite_by_nothing(f, *right, r2);
        },
        ExprView::Call { args, .. } => {
            let a2 = r->args;
            assert forall|i: int| 0 <= i < args.len() implies a2[i] == args[i] by {
                lemma_rewrite_by_nothing(f, args[i], a2[i]);
            }
            assert(a2 =~= args);
        },
        ExprView::Match { value, arms } => {
            let m2 = r->arms;
            lemma_rewrite_by_nothing(f, *value, *(r->value));
            assert forall|i: int| 0 <= i < arms.len() implies m2[i] == arms[i] by {
                lemma_rewrite_by_nothing(f, arms[i].1, m2[i].1);
            }
            assert(m2 =~= arms);
        },
        _ => {},
    }
}

/// An expression that the rules leave unchanged stays unchanged however many
/// passes are allowed.
pub proof fn lemma_fixpoint_of_fixed(e: ExprView, rules: Seq<RewriteRuleView>, n: nat)
    requires
        spec_rewrite(e, rules) == e,
    ensures
        spec_fixpoint(e, rules, n) == e,
{
}

/// The fixpoint makes at most `n` passes: with one more pass allowed, the
/// result is that of one pass followed by the others, unless the first pass
/// changes nothing.
pub proof fn lemma_fixpoint_step(e: ExprView, rules: Seq<RewriteRuleView>, n: nat)
    requires
        spec_rewrite(e, rules) != e,
    ensures
        spec_fixpoint(e, rules, n + 1) == spec_fixpoint(spec_rewrite(e, rules), rules, n),
{
}

} // verus!
