use xl::xlc::ast::{BinaryOp, Expr, Pattern, RewriteRule};
use xl::xlc::ast_utils::{
    apply_rewrite_fixpoint, apply_rewrite_rules, apply_rewrite_rules2, children, expr_eq, fold_expr, match_pattern,
    match_pattern_simple, pattern_eq, rewrite_expr, visit_expr, Bindings,
};

fn num(v: i64) -> Expr {
    Expr::Int(v)
}

fn ident(s: &str) -> Expr {
    Expr::Ident(s.to_string())
}

fn bin(op: BinaryOp, l: Expr, r: Expr) -> Expr {
    Expr::Binary { op, left: Box::new(l), right: Box::new(r) }
}

fn call(f: &str, args: Vec<Expr>) -> Expr {
    Expr::Call { callee: f.to_string(), args }
}

fn cap(s: &str) -> Pattern {
    Pattern::Capture(s.to_string())
}

fn plus_zero_rule() -> RewriteRule {
    RewriteRule {
        pattern: Pattern::Binary { op: Some(BinaryOp::Add), left: Box::new(cap("x")), right: Box::new(Pattern::Int(0)) },
        guard: None,
        replacement: ident("x"),
    }
}

#[test]
fn matching_literals_and_structure() {
    assert!(match_pattern_simple(&Pattern::Wildcard, &num(5)));
    assert!(match_pattern_simple(&Pattern::Int(5), &num(5)));
    assert!(!match_pattern_simple(&Pattern::Int(5), &num(6)));
    assert!(!match_pattern_simple(&Pattern::Bool(true), &num(1)));
    assert!(match_pattern_simple(&Pattern::Ident("a".to_string()), &ident("a")));
    assert!(match_pattern_simple(&Pattern::String("s".to_string()), &Expr::String("s".to_string())));
    let any_op = Pattern::Binary { op: None, left: Box::new(Pattern::Wildcard), right: Box::new(Pattern::Int(1)) };
    assert!(match_pattern_simple(&any_op, &bin(BinaryOp::Div, num(9), num(1))));
    assert!(!match_pattern_simple(&any_op, &bin(BinaryOp::Div, num(9), num(2))));
    let any_call = Pattern::Call { callee: None, args: vec![Pattern::Wildcard, Pattern::Int(2)] };
    assert!(match_pattern_simple(&any_call, &call("f", vec![num(1), num(2)])));
    assert!(!match_pattern_simple(&any_call, &call("f", vec![num(1)])));
    let named_call = Pattern::Call { callee: Some("g".to_string()), args: vec![] };
    assert!(!match_pattern_simple(&named_call, &call("f", vec![])));
    assert!(match_pattern_simple(&named_call, &call("g", vec![])));
}

#[test]
fn captures_are_recorded_and_never_rebound() {
    let e = bin(BinaryOp::Sub, ident("a"), num(3));
    let p = Pattern::Binary { op: Some(BinaryOp::Sub), left: Box::new(cap("x")), right: Box::new(cap("y")) };
    let z = cap("z");
    let nine = num(9);
    let w_then_one = Pattern::Binary { op: None, left: Box::new(cap("w")), right: Box::new(Pattern::Int(1)) };
    let mut b = Bindings::new();
    assert!(match_pattern(&p, &e, &mut b));
    assert_eq!(b.get(&"x".to_string()), Some(&ident("a")));
    assert_eq!(b.get(&"y".to_string()), Some(&num(3)));
    assert_eq!(b.get(&"z".to_string()), None);
    // later matching only adds captures
    assert!(match_pattern(&z, &nine, &mut b));
    assert_eq!(b.get(&"x".to_string()), Some(&ident("a")));
    assert!(!match_pattern(&w_then_one, &e, &mut b));
    assert_eq!(b.get(&"y".to_string()), Some(&num(3)));
    assert_eq!(b.get(&"w".to_string()), Some(&ident("a")));
    // a name that is already bound matches only the very node it holds: the
    // second place of one tree is another node
    let twice = Pattern::Binary { op: None, left: Box::new(cap("x")), right: Box::new(cap("x")) };
    assert!(!match_pattern_simple(&twice, &bin(BinaryOp::Add, ident("a"), ident("a"))));
    assert!(!match_pattern_simple(&twice, &bin(BinaryOp::Add, ident("a"), ident("b"))));
}

#[test]
fn capture_bound_to_the_same_node() {
    let e = bin(BinaryOp::Add, ident("a"), num(1));
    let x = cap("x");
    let mut b = Bindings::new();
    assert!(match_pattern(&x, &e, &mut b));
    assert!(match_pattern(&x, &e, &mut b));
    assert_eq!(b.get(&"x".to_string()), Some(&e));
    assert!(match_pattern(&Pattern::Wildcard, &e, &mut b));
    let other = num(2);
    assert!(!match_pattern(&x, &other, &mut b));
    let copy = e.clone();
    assert!(!match_pattern(&x, &copy, &mut b));
    // a refused bound capture leaves the bindings as they were
    assert_eq!(b.get(&"x".to_string()), Some(&e));
}

#[test]
fn rules_rewrite_top_down() {
    let e = bin(BinaryOp::Mul, bin(BinaryOp::Add, ident("a"), num(0)), num(2));
    let out = apply_rewrite_rules2(e.clone(), &[plus_zero_rule()]);
    assert_eq!(out, bin(BinaryOp::Mul, ident("a"), num(2)));
    assert_eq!(apply_rewrite_rules(e.clone(), &[plus_zero_rule()]), out);
    // inside call arguments too
    let c = call("f", vec![bin(BinaryOp::Add, num(7), num(0))]);
    assert_eq!(apply_rewrite_rules2(c, &[plus_zero_rule()]), call("f", vec![num(7)]));
}

#[test]
fn guards_and_rule_order() {
    let guarded = RewriteRule { guard: Some(Expr::Bool(false)), ..plus_zero_rule() };
    let e = bin(BinaryOp::Add, ident("a"), num(0));
    assert_eq!(apply_rewrite_rules2(e.clone(), &[guarded]), e);
    let non_constant_guard = RewriteRule { guard: Some(ident("c")), ..plus_zero_rule() };
    assert_eq!(apply_rewrite_rules2(e.clone(), &[non_constant_guard]), e);
    let open_guard = RewriteRule { guard: Some(Expr::Bool(true)), ..plus_zero_rule() };
    assert_eq!(apply_rewrite_rules2(e.clone(), &[open_guard]), ident("a"));
    let first = RewriteRule { pattern: Pattern::Wildcard, guard: None, replacement: num(1) };
    let second = RewriteRule { pattern: Pattern::Wildcard, guard: None, replacement: num(2) };
    assert_eq!(apply_rewrite_rules2(e, &[first, second]), num(1));
}

#[test]
fn no_rules_leave_the_expression_unchanged() {
    let e = bin(BinaryOp::Sub, call("f", vec![num(1), ident("x")]), num(4));
    assert_eq!(apply_rewrite_rules2(e.clone(), &[]), e);
}

#[test]
fn fixpoint_stops_when_nothing_changes_or_at_the_bound() {
    let e = bin(BinaryOp::Add, bin(BinaryOp::Add, ident("a"), num(0)), num(0));
    assert_eq!(apply_rewrite_fixpoint(e.clone(), &[plus_zero_rule()], 10), ident("a"));
    assert_eq!(apply_rewrite_fixpoint(e.clone(), &[plus_zero_rule()], 1), bin(BinaryOp::Add, ident("a"), num(0)));
    assert_eq!(apply_rewrite_fixpoint(e.clone(), &[plus_zero_rule()], 0), e);
    // an expression the rules leave alone stays as it is
    let fixed = bin(BinaryOp::Mul, ident("b"), num(2));
    assert_eq!(apply_rewrite_fixpoint(fixed.clone(), &[plus_zero_rule()], 5), fixed);
}

#[test]
fn rewriting_with_a_function() {
    let e = bin(BinaryOp::Add, num(1), call("f", vec![num(1), num(2)]));
    let mut bump = |x: Expr| match x {
        Expr::Int(1) => Some(Expr::Int(100)),
        _ => None,
    };
    let out = rewrite_expr(e, &mut bump);
    assert_eq!(out, bin(BinaryOp::Add, num(100), call("f", vec![num(100), num(2)])));
    // a replaced node's children are not visited
    let mut whole = |x: Expr| match x {
        Expr::Call { .. } => Some(Expr::Int(0)),
        _ => None,
    };
    assert_eq!(rewrite_expr(call("f", vec![call("g", vec![])]), &mut whole), num(0));
    let mut nothing = |_x: Expr| None;
    let e2 = bin(BinaryOp::Mul, ident("q"), num(3));
    assert_eq!(rewrite_expr(e2.clone(), &mut nothing), e2);
}

#[test]
fn folding_and_visiting_in_preorder() {
    let e = bin(BinaryOp::Add, num(1), call("f", vec![num(2), num(3)]));
    assert_eq!(fold_expr(&e, 0usize, |n, _| n + 1), 5);
    let ints = fold_expr(&e, Vec::new(), |mut v: Vec<i64>, x: &Expr| {
        if let Expr::Int(i) = x {
            v.push(*i);
        }
        v
    });
    assert_eq!(ints, vec![1, 2, 3]);
    let mut seen = 0;
    visit_expr(&e, &mut |_x: &Expr| seen += 1);
    assert_eq!(seen, 5);
}

#[test]
fn structural_equality() {
    let a = call("f", vec![bin(BinaryOp::Div, num(1), ident("x"))]);
    assert!(expr_eq(&a, &a.clone()));
    assert!(!expr_eq(&a, &call("f", vec![bin(BinaryOp::Div, num(1), ident("y"))])));
    assert!(a != call("g", vec![]));
    let p = Pattern::Call { callee: None, args: vec![cap("x")] };
    assert!(pattern_eq(&p, &p.clone()));
    assert!(!pattern_eq(&p, &Pattern::Call { callee: Some("f".to_string()), args: vec![cap("x")] }));
}

#[test]
fn fixpoint_stops_at_a_fixed_point() {
    let e = bin(BinaryOp::Add, bin(BinaryOp::Add, ident("a"), num(0)), num(0));
    let r = apply_rewrite_fixpoint(e.clone(), &[plus_zero_rule()], 10);
    assert_eq!(r, ident("a"));
    assert_eq!(apply_rewrite_rules(r.clone(), &[plus_zero_rule()]), r);
    assert_eq!(apply_rewrite_fixpoint(e.clone(), &[plus_zero_rule()], 0), e);
}

#[test]
fn children_in_walk_order() {
    let e = bin(BinaryOp::Sub, num(1), ident("b"));
    let cs = children(&e);
    assert_eq!(cs.len(), 2);
    assert_eq!(cs[0], &num(1));
    assert_eq!(cs[1], &ident("b"));
    let c = call("f", vec![num(1), num(2), num(3)]);
    assert_eq!(children(&c), vec![&num(1), &num(2), &num(3)]);
    let m = Expr::Match { value: Box::new(ident("v")), arms: vec![(Pattern::Int(1), num(10)), (Pattern::Wildcard, num(20))] };
    assert_eq!(children(&m), vec![&ident("v"), &num(10), &num(20)]);
    assert!(children(&num(4)).is_empty());
}
