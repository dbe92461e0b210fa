use xl::xl_compiler::lexer::lex as xl_lex;
use xl::xl_compiler::parser::Parser as TokenParser;
use xl::xl_compiler::token::TokenKind;
use xl::xlc::ast::{BinaryOp, Expr};
use xl::xlc::error::XLError;
use xl::xlc::parse_primitives::comb::{charp, digit1, parse_char, parse_digits};
use xl::xlc::parse_primitives::Parser;
use xl::xlc::type_infer::{infer_expr as naive_infer, Ty as NaiveTy};
use xl::xlc::types::env::TypeEnv;
use xl::xlc::types::infer::infer_expr;
use xl::xlc::types::kind::Kind;
use xl::xlc::types::scheme::{ftv, Scheme};
use xl::xlc::types::subst::Subst;
use xl::xlc::types::unify::{unify, unify_within};
use xl::xlc::types::{Tv, Ty};

fn bin(op: BinaryOp, l: Expr, r: Expr) -> Expr {
    Expr::Binary { op, left: Box::new(l), right: Box::new(r) }
}

fn message(r: Result<impl std::fmt::Debug, XLError>) -> String {
    match r {
        Err(XLError::SemanticError(m)) => m,
        other => panic!("unexpected {:?}", other),
    }
}

#[test]
fn naive_inference() {
    assert_eq!(naive_infer(&Expr::Int(3)).unwrap(), NaiveTy::Int);
    assert_eq!(naive_infer(&bin(BinaryOp::Add, Expr::Int(1), Expr::Int(2))).unwrap(), NaiveTy::Int);
    assert_eq!(naive_infer(&Expr::Call { callee: "f".to_string(), args: vec![Expr::Bool(true)] }).unwrap(), NaiveTy::Int);
    assert_eq!(message(naive_infer(&bin(BinaryOp::Add, Expr::Int(1), Expr::Bool(true)))), "cannot unify Int and Bool");
    assert_eq!(message(naive_infer(&Expr::Ident("x".to_string()))), "unbound \"x\"");
    assert_eq!(message(naive_infer(&Expr::String("s".to_string()))), "type inference: unsupported expr");
    let arg_error = Expr::Call { callee: "f".to_string(), args: vec![Expr::Int(1), Expr::Ident("q".to_string())] };
    assert_eq!(message(naive_infer(&arg_error)), "unbound \"q\"");
}

#[test]
fn inference_with_schemes() {
    assert_eq!(infer_expr(&Expr::Int(1)).unwrap(), Ty::int_type());
    assert_eq!(infer_expr(&Expr::Bool(false)).unwrap(), Ty::bool());
    assert_eq!(infer_expr(&bin(BinaryOp::Mul, Expr::Int(2), Expr::Int(3))).unwrap(), Ty::int_type());
    assert_eq!(message(infer_expr(&bin(BinaryOp::Sub, Expr::Int(2), Expr::Bool(true)))), "type mismatch in binary");
    assert_eq!(message(infer_expr(&Expr::Ident("v".to_string()))), "unbound identifier v");
    assert_eq!(message(infer_expr(&Expr::String("s".to_string()))), "inference not implemented for expr");
}

#[test]
fn type_and_kind_text() {
    assert_eq!(Ty::int_type().render(), "Int");
    assert_eq!(Ty::Var(Tv(7)).render(), "t7");
    let list = Ty::App(Box::new(Ty::Prim("List")), vec![Ty::Var(Tv(1)), Ty::bool()]);
    assert_eq!(list.render(), "List<t1, Bool>");
    assert_eq!(Ty::Struct("Pair".to_string(), vec![Ty::int_type(), Ty::bool()]).render(), "Pair<Int,Bool>");
    assert_eq!(Ty::Enum("Unit".to_string(), vec![]).render(), "Unit");
    assert_eq!(Ty::ForAll(vec![Tv(0), Tv(1)], Box::new(Ty::Var(Tv(0)))).render(), "∀ t0,t1. t0");
    assert_eq!(Kind::Star.render(), "*");
    assert_eq!(Kind::Arrow(Box::new(Kind::Star), Box::new(Kind::Arrow(Box::new(Kind::Star), Box::new(Kind::Star)))).render(), "(* -> (* -> *))");
    assert_eq!(Kind::Star, Kind::Star.clone());
}

#[test]
fn substitution_application_and_composition() {
    let mut s = Subst::empty();
    s.insert(Tv(0), Ty::int_type());
    assert_eq!(s.apply(&Ty::Var(Tv(0))), Ty::int_type());
    assert_eq!(s.apply(&Ty::Var(Tv(1))), Ty::Var(Tv(1)));
    let app = Ty::App(Box::new(Ty::Var(Tv(0))), vec![Ty::Var(Tv(0)), Ty::Var(Tv(2))]);
    assert_eq!(s.apply(&app), Ty::App(Box::new(Ty::int_type()), vec![Ty::int_type(), Ty::Var(Tv(2))]));
    // a quantifier's own variables are not substituted
    let q = Ty::ForAll(vec![Tv(0)], Box::new(Ty::Var(Tv(0))));
    assert_eq!(s.apply(&q), q);
    // structures are left as they are
    let st = Ty::Struct("S".to_string(), vec![Ty::Var(Tv(0))]);
    assert_eq!(s.apply(&st), st);
    // a later binding of the same variable replaces the earlier one
    s.insert(Tv(0), Ty::bool());
    assert_eq!(s.apply(&Ty::Var(Tv(0))), Ty::bool());

    let mut s1 = Subst::empty();
    s1.insert(Tv(0), Ty::Var(Tv(1)));
    let mut s2 = Subst::empty();
    s2.insert(Tv(1), Ty::Var(Tv(0)));
    s2.insert(Tv(2), Ty::int_type());
    let c = s1.compose(&s2);
    assert_eq!(c.apply(&Ty::Var(Tv(0))), Ty::Var(Tv(1)));
    assert_eq!(c.apply(&Ty::Var(Tv(1))), Ty::Var(Tv(1)));
    assert_eq!(c.apply(&Ty::Var(Tv(2))), Ty::int_type());
}

#[test]
fn environments_and_free_variables() {
    let mut env = TypeEnv::new();
    assert!(env.lookup("id").is_none());
    env.extend("id".to_string(), Scheme::new(vec![Tv(0)], Ty::Var(Tv(0))));
    env.extend("n".to_string(), Scheme::new(vec![], Ty::Var(Tv(3))));
    assert_eq!(env.lookup("n").unwrap().ty, Ty::Var(Tv(3)));
    env.extend("n".to_string(), Scheme::new(vec![], Ty::int_type()));
    assert_eq!(env.lookup("n").unwrap().ty, Ty::int_type());
    let mut s = Subst::empty();
    s.insert(Tv(0), Ty::bool());
    let applied = env.apply(&s);
    assert_eq!(applied.lookup("id").unwrap().ty, Ty::bool());
    assert_eq!(applied.lookup("id").unwrap().vars, vec![Tv(0)]);

    let mut acc = Vec::new();
    ftv(&Ty::App(Box::new(Ty::Var(Tv(0))), vec![Ty::Var(Tv(1)), Ty::Var(Tv(0))]), &mut acc);
    acc.sort_by_key(|t| t.0);
    assert_eq!(acc, vec![Tv(0), Tv(1)]);
    let mut acc2 = vec![Tv(5)];
    ftv(&Ty::ForAll(vec![Tv(9)], Box::new(Ty::Var(Tv(5)))), &mut acc2);
    assert_eq!(acc2, vec![Tv(5)]);
}

#[test]
fn text_cursor() {
    let mut p = Parser::new("12ab");
    assert_eq!(p.peek(), Some('1'));
    assert_eq!(p.parse_int(), Some(12));
    assert_eq!(p.peek(), Some('a'));
    assert!(!p.expect_char('x'));
    assert!(p.expect_char('a'));
    assert_eq!(p.consume(), Some('b'));
    assert_eq!(p.consume(), None);
    assert_eq!(p.peek(), None);
    assert_eq!(p.parse_int(), None);

    let mut big = Parser::new("99999999999999999999x");
    assert_eq!(big.parse_int(), None);
    assert_eq!(big.peek(), Some('x'));
    let mut wide = Parser::new("é1");
    assert_eq!(wide.consume(), Some('é'));
    assert_eq!(wide.parse_int(), Some(1));
}

#[test]
fn primitive_parsers() {
    assert_eq!(parse_char('a', "abc"), Ok(("bc", 'a')));
    assert_eq!(parse_char('x', "abc"), Err("abc"));
    assert_eq!(parse_char('x', ""), Err(""));
    assert_eq!(parse_digits("123x"), Ok(("x", "123")));
    assert_eq!(parse_digits("x1"), Err("x1"));
    assert_eq!(parse_digits("42"), Ok(("", "42")));
}

#[test]
fn token_stream_program() {
    let toks = xl_lex("function f ?");
    assert_eq!(toks.len(), 3);
    assert_eq!(toks[0].kind, TokenKind::Function);
    assert_eq!(toks[0].lexeme, "function");
    assert_eq!(toks[1].span, 9..10);
    assert_eq!(toks[2].kind, TokenKind::Error);
    assert_eq!(toks[2].lexeme, "?");
    let mut p = TokenParser::new(&toks);
    let prog = p.parse_program().unwrap();
    assert_eq!(prog.tokens.len(), 3);
    assert_eq!(prog.tokens[1].lexeme, "f");
}

fn prim(name: &'static str) -> Ty {
    Ty::Prim(name)
}

fn app(head: Ty, args: Vec<Ty>) -> Ty {
    Ty::App(Box::new(head), args)
}

#[test]
fn unify_binds_a_variable() {
    let mut s = Subst::empty();
    assert!(unify(&Ty::Var(Tv(0)), &Ty::int_type(), &mut s).is_ok());
    assert_eq!(s.apply(&Ty::Var(Tv(0))), Ty::int_type());
    let mut s2 = Subst::empty();
    assert!(unify(&Ty::bool(), &Ty::Var(Tv(3)), &mut s2).is_ok());
    assert_eq!(s2.apply(&Ty::Var(Tv(3))), Ty::bool());
}

#[test]
fn unify_walks_applications_and_structures() {
    let mut s = Subst::empty();
    let a = app(prim("List"), vec![Ty::Var(Tv(0)), Ty::int_type()]);
    let b = app(prim("List"), vec![Ty::bool(), Ty::Var(Tv(1))]);
    assert!(unify(&a, &b, &mut s).is_ok());
    assert_eq!(s.apply(&Ty::Var(Tv(0))), Ty::bool());
    assert_eq!(s.apply(&Ty::Var(Tv(1))), Ty::int_type());
    let mut s2 = Subst::empty();
    let p = Ty::Struct("Pair".to_string(), vec![Ty::Var(Tv(2)), Ty::bool()]);
    let q = Ty::Struct("Pair".to_string(), vec![Ty::int_type(), Ty::bool()]);
    assert!(unify(&p, &q, &mut s2).is_ok());
    assert_eq!(s2.apply(&Ty::Var(Tv(2))), Ty::int_type());
}

#[test]
fn unify_reports_mismatches() {
    let mut s = Subst::empty();
    assert_eq!(message(unify(&Ty::int_type(), &Ty::bool(), &mut s)), "type mismatch");
    let short = app(prim("List"), vec![Ty::int_type()]);
    let long = app(prim("List"), vec![Ty::int_type(), Ty::int_type()]);
    assert_eq!(message(unify(&short, &long, &mut s)), "type mismatch");
    let p = Ty::Struct("P".to_string(), vec![]);
    let e = Ty::Enum("P".to_string(), vec![]);
    assert_eq!(message(unify(&p, &e, &mut s)), "type mismatch");
    let q = Ty::Struct("Q".to_string(), vec![]);
    assert_eq!(message(unify(&p, &q, &mut s)), "type mismatch");
    let all = Ty::ForAll(vec![Tv(0)], Box::new(Ty::Var(Tv(0))));
    assert_eq!(message(unify(&all, &all, &mut s)), "type mismatch");
}

#[test]
fn unify_stops_at_the_first_failure() {
    let mut s = Subst::empty();
    let a = app(prim("F"), vec![Ty::Var(Tv(0)), Ty::int_type(), Ty::Var(Tv(1))]);
    let b = app(prim("F"), vec![Ty::bool(), Ty::bool(), Ty::int_type()]);
    assert_eq!(message(unify(&a, &b, &mut s)), "type mismatch");
    assert_eq!(s.apply(&Ty::Var(Tv(0))), Ty::bool());
    assert_eq!(s.apply(&Ty::Var(Tv(1))), Ty::Var(Tv(1)));
}

#[test]
fn unify_occurs_check() {
    let mut s = Subst::empty();
    let list_of_a = app(prim("List"), vec![Ty::Var(Tv(0))]);
    assert_eq!(message(unify(&Ty::Var(Tv(0)), &list_of_a, &mut s)), "occurs check failed");
    assert_eq!(s.apply(&Ty::Var(Tv(0))), Ty::Var(Tv(0)));
    assert!(unify(&Ty::Var(Tv(4)), &Ty::Var(Tv(4)), &mut s).is_ok());
    assert_eq!(s.apply(&Ty::Var(Tv(4))), Ty::Var(Tv(4)));
}

#[test]
fn unify_substitutes_once_before_binding() {
    let mut s = Subst::empty();
    s.insert(Tv(0), Ty::Var(Tv(1)));
    s.insert(Tv(1), Ty::int_type());
    assert!(unify(&Ty::Var(Tv(0)), &Ty::bool(), &mut s).is_ok());
    assert_eq!(s.apply(&Ty::Var(Tv(1))), Ty::bool());
    assert_eq!(s.apply(&Ty::Var(Tv(0))), Ty::Var(Tv(1)));
}

#[test]
fn primitive_parsers_as_functions() {
    let x = charp('x');
    assert_eq!(x("xyz"), Ok(("yz", 'x')));
    assert_eq!(x("yz"), Err("yz"));
    let digits = digit1();
    assert_eq!(digits("2024-01"), Ok(("-01", "2024")));
    assert_eq!(digits("-1"), Err("-1"));
    let e = charp('é');
    assert_eq!(e("éa"), Ok(("a", 'é')));
}

#[test]
fn unify_with_itself_binds_nothing() {
    let t = app(prim("Map"), vec![Ty::Var(Tv(7)), Ty::Struct("S".to_string(), vec![Ty::Var(Tv(8)), Ty::bool()])]);
    let mut s = Subst::empty();
    assert!(unify(&t, &t, &mut s).is_ok());
    assert_eq!(s.apply(&t), t);
    assert_eq!(s.apply(&Ty::Var(Tv(7))), Ty::Var(Tv(7)));
    assert_eq!(s.apply(&Ty::Var(Tv(8))), Ty::Var(Tv(8)));
}

#[test]
fn empty_substitution_changes_nothing() {
    let s = Subst::empty();
    let t = Ty::ForAll(vec![Tv(1)], Box::new(app(prim("F"), vec![Ty::Var(Tv(1)), Ty::Var(Tv(2))])));
    assert_eq!(s.apply(&t), t);
}

#[test]
fn extend_then_lookup() {
    let mut env = TypeEnv::new();
    env.extend("x".to_string(), Scheme::new(vec![], Ty::bool()));
    env.extend("y".to_string(), Scheme::new(vec![Tv(1)], Ty::Var(Tv(1))));
    assert_eq!(env.lookup("y").unwrap().ty, Ty::Var(Tv(1)));
    assert_eq!(env.lookup("y").unwrap().vars, vec![Tv(1)]);
    assert_eq!(env.lookup("x").unwrap().ty, Ty::bool());
    assert!(env.lookup("z").is_none());
    let same = env.apply(&Subst::empty());
    assert_eq!(same.lookup("x").unwrap().ty, Ty::bool());
    assert_eq!(same.lookup("y").unwrap().ty, Ty::Var(Tv(1)));
    assert!(same.lookup("z").is_none());
}

#[test]
fn quantified_variables_are_not_free() {
    let ty = Ty::ForAll(vec![Tv(0)], Box::new(Ty::App(Box::new(Ty::Prim("List")), vec![Ty::Var(Tv(0)), Ty::Var(Tv(1))])));
    let mut acc = Vec::new();
    ftv(&ty, &mut acc);
    assert_eq!(acc, vec![Tv(1)]);
}

#[test]
fn unify_within_a_budget() {
    let mut s = Subst::empty();
    assert!(matches!(unify_within(&Ty::Var(Tv(0)), &Ty::int_type(), &mut s, 5), Some(Ok(()))));
    assert_eq!(s.apply(&Ty::Var(Tv(0))), Ty::int_type());
    let mut s2 = Subst::empty();
    assert!(unify_within(&Ty::int_type(), &Ty::int_type(), &mut s2, 0).is_none());
    // a run that binds a variable to a type holding it, then never ends
    let g = |t: Ty| app(prim("G"), vec![t]);
    let a = app(prim("F"), vec![Ty::Var(Tv(0)), Ty::Var(Tv(1)), Ty::Var(Tv(0)), Ty::Var(Tv(2))]);
    let b = app(prim("F"), vec![Ty::Var(Tv(1)), Ty::int_type(), g(Ty::Var(Tv(0))), Ty::Var(Tv(1))]);
    let mut s3 = Subst::empty();
    assert!(unify_within(&a, &b, &mut s3, 50).is_none());
}

#[test]
fn composing_applies_one_then_the_other() {
    let mut s1 = Subst::empty();
    s1.insert(Tv(0), Ty::int_type());
    let mut s2 = Subst::empty();
    s2.insert(Tv(1), app(prim("List"), vec![Ty::Var(Tv(0))]));
    let c = s1.clone().compose(&s2);
    for v in 0..3 {
        assert_eq!(c.apply(&Ty::Var(Tv(v))), s1.apply(&s2.apply(&Ty::Var(Tv(v)))));
    }
}
