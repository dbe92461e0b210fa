use xl::xlc::ast::{BinaryOp, Block, Expr, Function, Param, Program, Stmt, Type};
use xl::xlc::error::XLError;
use xl::xlc::lexer::lex;
use xl::xlc::parser::parse;
use xl::xlc::semantic::analyze;
use xl::xlc::symbol_table::SymbolTable;
use xl::xlc::token::Token;

fn toks(src: &str) -> Vec<Token> {
    lex(src).unwrap().into_iter().map(|s| s.token).collect()
}

#[test]
fn lex_tokens_and_spans() {
    let spanned = lex("fn main() -> Int { return 42; }").unwrap();
    assert_eq!(spanned.len(), 11);
    assert_eq!(spanned[0].token, Token::Fn);
    assert_eq!(spanned[0].span, 0..2);
    assert_eq!(spanned[1].token, Token::Ident("main".to_string()));
    assert_eq!(spanned[1].span, 3..7);
    assert_eq!(spanned[5].token, Token::IntType);
    assert_eq!(spanned[8].token, Token::IntLiteral(42));
    assert_eq!(spanned[8].span, 26..28);
}

#[test]
fn lex_symbols_strings_and_comments() {
    assert_eq!(
        toks("=> = $x _ // note\n\"a b\""),
        vec![
            Token::FatArrow,
            Token::Equal,
            Token::Dollar,
            Token::Ident("x".to_string()),
            Token::Underscore,
            Token::StringLiteral("a b".to_string()),
        ]
    );
    assert_eq!(toks("match rewrite ast"), vec![Token::Match, Token::RewriteKw, Token::AstKw]);
    assert_eq!(toks("_a"), vec![Token::Ident("_a".to_string())]);
}

#[test]
fn lex_error_is_a_byte_range() {
    match lex("let x = @;") {
        Err(XLError::LexError(a, b)) => assert_eq!((a, b), (8, 9)),
        other => panic!("unexpected {:?}", other),
    }
}

#[test]
fn parse_function_with_precedence() {
    let prog = parse(lex("fn f(a: Int, b: Bool) -> Int { let x: Int = 1 + 2 * 3; return x; }").unwrap()).unwrap();
    assert_eq!(prog.functions.len(), 1);
    let f = &prog.functions[0];
    assert_eq!(f.name, "f");
    assert_eq!(f.params.len(), 2);
    assert_eq!(f.params[1].ty, Type::Bool);
    assert_eq!(f.return_type, Type::Int);
    assert_eq!(f.body.stmts.len(), 2);
    match &f.body.stmts[0] {
        Stmt::Let { name, ty, value: Expr::Binary { op: BinaryOp::Add, right, .. } } => {
            assert_eq!(name, "x");
            assert_eq!(*ty, Some(Type::Int));
            assert!(matches!(**right, Expr::Binary { op: BinaryOp::Mul, .. }));
        }
        other => panic!("unexpected {:?}", other),
    }
}

#[test]
fn parse_errors_name_what_was_expected() {
    let message = |s: &str| match parse(lex(s).unwrap()) {
        Err(XLError::ParseError(m)) => m,
        other => panic!("unexpected {:?}", other),
    };
    assert_eq!(message("let"), "expected Fn");
    assert_eq!(message("fn 1"), "expected identifier");
    assert_eq!(message("fn f() -> Int { return ; }"), "unexpected token Some(Semicolon) in expression");
    assert_eq!(message("fn f() -> Int { return"), "unexpected token None in expression");
    assert_eq!(message("fn f(a: Foo) -> Int {}"), "expected type, found Ident(\"Foo\")");
    assert_eq!(message("fn f(a:"), "unexpected EOF while parsing type");
    assert_eq!(message("fn f() -> Int { 1 }"), "expected Semicolon");
    assert!(parse(lex("").unwrap()).unwrap().functions.is_empty());
}

fn func(name: &str, ret: Type, stmts: Vec<Stmt>) -> Function {
    Function { name: name.to_string(), params: vec![], return_type: ret, body: Block { stmts } }
}

fn semantic_message(r: Result<(), XLError>) -> String {
    match r {
        Err(XLError::SemanticError(m)) => m,
        other => panic!("unexpected {:?}", other),
    }
}

#[test]
fn semantic_checks() {
    let ok = Program { functions: vec![func("f", Type::Int, vec![Stmt::Return(Expr::Int(1))])] };
    assert!(analyze(&ok).is_ok());

    let dup = Program { functions: vec![func("f", Type::Int, vec![]), func("f", Type::Bool, vec![])] };
    assert_eq!(semantic_message(analyze(&dup)), "duplicate function f");

    let mismatch = Program { functions: vec![func("g", Type::Int, vec![Stmt::Return(Expr::Bool(true))])] };
    assert_eq!(semantic_message(analyze(&mismatch)), "return type mismatch in function g: expected Int, found Bool");

    let unknown = Program { functions: vec![func("g", Type::Int, vec![Stmt::Return(Expr::Ident("y".to_string()))])] };
    assert_eq!(semantic_message(analyze(&unknown)), "unknown identifier y");

    let call = Program { functions: vec![func("g", Type::Int, vec![Stmt::Return(Expr::Call { callee: "h".to_string(), args: vec![] })])] };
    assert_eq!(semantic_message(analyze(&call)), "unknown function h");

    let binary = Program {
        functions: vec![func(
            "g",
            Type::Int,
            vec![Stmt::Return(Expr::Binary { op: BinaryOp::Add, left: Box::new(Expr::Int(1)), right: Box::new(Expr::String("s".to_string())) })],
        )],
    };
    assert_eq!(semantic_message(analyze(&binary)), "type mismatch in binary expression: Int vs String");

    // a function name stands for the function's return type
    let by_name = Program {
        functions: vec![
            func("g", Type::Bool, vec![Stmt::Return(Expr::Ident("h".to_string()))]),
            func("h", Type::Bool, vec![Stmt::Expr(Expr::Int(0))]),
        ],
    };
    assert!(analyze(&by_name).is_ok());
    let params = Param { name: "p".to_string(), ty: Type::Void };
    assert_eq!(params.ty, Type::Void);
}

#[test]
fn symbol_table_scopes() {
    let mut t: SymbolTable<u32> = SymbolTable::new();
    t.insert("x".to_string(), 1);
    assert_eq!(t.get("x"), Some(1));
    t.enter_scope();
    assert_eq!(t.get("x"), Some(1));
    t.insert("x".to_string(), 2);
    t.insert("y".to_string(), 3);
    assert_eq!(t.get("x"), Some(2));
    t.exit_scope();
    assert_eq!(t.get("x"), Some(1));
    assert_eq!(t.get("y"), None);
    t.exit_scope();
    assert_eq!(t.get("x"), None);
    t.insert("z".to_string(), 4);
    assert_eq!(t.get("z"), None);
    t.exit_scope();
    t.enter_scope();
    t.insert("z".to_string(), 5);
    assert_eq!(t.get("z"), Some(5));
}

#[test]
fn type_keywords() {
    assert_eq!(Type::from_keyword(&Token::IntType), Some(Type::Int));
    assert_eq!(Type::from_keyword(&Token::StringType), Some(Type::String));
    assert_eq!(Type::from_keyword(&Token::Fn), None);
}

#[test]
fn token_debug_text() {
    let mut s = String::new();
    Token::Ident("a\"b".to_string()).push_debug(&mut s);
    assert_eq!(s, format!("{:?}", Token::Ident("a\"b".to_string())));
    assert_eq!(s, "Ident(\"a\\\"b\")");
    let mut t = String::new();
    Token::IntLiteral(-3).push_debug(&mut t);
    assert_eq!(t, "IntLiteral(-3)");
}

#[test]
fn documented_keywords() {
    let words = [
        ("fn", Token::Fn),
        ("let", Token::Let),
        ("return", Token::Return),
        ("ast", Token::AstKw),
        ("module", Token::ModuleKw),
        ("import", Token::ImportKw),
        ("export", Token::ExportKw),
        ("match", Token::Match),
        ("rewrite", Token::RewriteKw),
        ("pass", Token::PassKw),
        ("if", Token::If),
    ];
    for (w, t) in words.iter() {
        let toks = lex(w).unwrap();
        assert_eq!(toks.len(), 1);
        assert_eq!(toks[0].token, *t);
        assert_eq!(toks[0].span, 0..w.len());
    }
    let toks = lex("passes").unwrap();
    assert_eq!(toks[0].token, Token::Ident("passes".to_string()));
}

#[test]
fn scope_round_trip_restores_lookups() {
    let mut t: SymbolTable<u32> = SymbolTable::new();
    t.insert("a".to_string(), 1);
    t.insert("b".to_string(), 2);
    t.enter_scope();
    t.insert("a".to_string(), 10);
    t.insert("c".to_string(), 30);
    assert_eq!(t.get("a"), Some(10));
    t.exit_scope();
    assert_eq!(t.get("a"), Some(1));
    assert_eq!(t.get("b"), Some(2));
    assert_eq!(t.get("c"), None);
}
