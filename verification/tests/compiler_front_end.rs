use xl::compiler::ast::{BinOp, Expr, Function, Item, Param, Stmt};
use xl::compiler::codegen::generate_rust;
use xl::compiler::compile_source;
use xl::compiler::error::{CompileError, TypeError};
use xl::compiler::ir::{BasicBlock, Function as IrFunction, Instruction, Module};
use xl::compiler::lexer::{lex, TokenKind};
use xl::compiler::lowering::lower;
use xl::compiler::parser::parse;
use xl::compiler::typecheck::check_program;
use xl::compiler::types::Type;

fn kinds(src: &str) -> Vec<TokenKind> {
    lex(src).unwrap().into_iter().map(|t| t.kind).collect()
}

#[test]
fn lex_keywords_symbols_and_spans() {
    let toks = lex("function f() -> i32 { return 12; }").unwrap();
    let ks: Vec<TokenKind> = toks.iter().map(|t| t.kind).collect();
    assert_eq!(
        ks,
        vec![
            TokenKind::Function,
            TokenKind::Ident,
            TokenKind::LParen,
            TokenKind::RParen,
            TokenKind::Arrow,
            TokenKind::Ident,
            TokenKind::LBrace,
            TokenKind::Return,
            TokenKind::Int(12),
            TokenKind::Semi,
            TokenKind::RBrace,
        ]
    );
    assert_eq!(toks[1].text, "f");
    assert_eq!(toks[1].span, 9..10);
    assert_eq!(toks[8].text, "12");
    assert_eq!(toks[8].span, 29..31);
}

#[test]
fn lex_longest_match_and_keywords_inside_identifiers() {
    assert_eq!(kinds("functional"), vec![TokenKind::Ident]);
    assert_eq!(kinds("true false"), vec![TokenKind::True, TokenKind::False]);
    assert_eq!(kinds("a-b->c"), vec![TokenKind::Ident, TokenKind::Minus, TokenKind::Ident, TokenKind::Arrow, TokenKind::Ident]);
}

#[test]
fn lex_error_reports_byte_position() {
    match lex("return ?") {
        Err(CompileError::Lex { position }) => assert_eq!(position, 7),
        other => panic!("unexpected {:?}", other),
    }
    // multi-byte characters count by their bytes
    match lex("é #") {
        Err(CompileError::Lex { position }) => assert_eq!(position, 0),
        other => panic!("unexpected {:?}", other),
    }
    match lex("ab #") {
        Err(CompileError::Lex { position }) => assert_eq!(position, 3),
        other => panic!("unexpected {:?}", other),
    }
}

#[test]
fn lex_integer_too_large_is_an_error() {
    assert!(matches!(lex("99999999999999999999"), Err(CompileError::Lex { position: 0 })));
    assert_eq!(kinds("9223372036854775807"), vec![TokenKind::Int(i64::MAX)]);
}

#[test]
fn parse_precedence_and_calls() {
    let prog = parse(lex("function f(a: i32, b: i32) -> i32 { return 1 + 2 * 3 - g(a, 4); }").unwrap()).unwrap();
    assert_eq!(prog.len(), 1);
    let Item::Function(f) = &prog[0];
    assert_eq!(f.name, "f");
    assert_eq!(f.params.len(), 2);
    assert_eq!(f.params[1].name, "b");
    match &f.body[0] {
        Stmt::Return(Expr::Binary { op: BinOp::Sub, left, right }) => {
            assert!(matches!(**left, Expr::Binary { op: BinOp::Add, .. }));
            match &**right {
                Expr::Call { func, args } => {
                    assert_eq!(func, "g");
                    assert_eq!(args.len(), 2);
                }
                other => panic!("unexpected {:?}", other),
            }
        }
        other => panic!("unexpected {:?}", other),
    }
}

#[test]
fn parse_errors() {
    let p = |s: &str| parse(lex(s).unwrap());
    assert!(matches!(p("return"), Err(CompileError::Expected(TokenKind::Function))));
    assert!(matches!(p("function 1"), Err(CompileError::ExpectedIdentifier)));
    assert!(matches!(p("function f( -> i32 {}"), Err(CompileError::ExpectedIdentifier)));
    assert!(matches!(p("function f() -> 3 {}"), Err(CompileError::UnknownType)));
    assert!(matches!(p("function f() -> i32 { f; }"), Err(CompileError::UnsupportedStatement)));
    assert!(matches!(p("function f() -> i32 { return ; }"), Err(CompileError::UnexpectedToken)));
    assert!(matches!(p("function f() -> i32 { return"), Err(CompileError::UnexpectedEof)));
    assert!(matches!(p("function f() -> i32 { return 1 }"), Err(CompileError::Expected(TokenKind::Semi))));
    assert!(p("").unwrap().is_empty());
}

fn ret_fn(name: &str, ret: Type, e: Expr) -> Item {
    Item::Function(Function { name: name.to_string(), params: vec![], ret_type: ret, body: vec![Stmt::Return(e)] })
}

#[test]
fn type_check_accepts_and_rejects() {
    let ok = vec![ret_fn("f", Type::I32, Expr::Binary { left: Box::new(Expr::Int(1)), op: BinOp::Add, right: Box::new(Expr::Int(2)) })];
    assert!(check_program(&ok).is_ok());

    let mismatch = vec![ret_fn("f", Type::I32, Expr::Bool(true))];
    match check_program(&mismatch) {
        Err(CompileError::Type { function, error }) => {
            assert_eq!(function, "f");
            assert_eq!(error, TypeError::ReturnMismatch { expected: Type::I32, found: Type::Bool });
        }
        other => panic!("unexpected {:?}", other),
    }

    let operands = vec![ret_fn("g", Type::I32, Expr::Binary { left: Box::new(Expr::Int(1)), op: BinOp::Add, right: Box::new(Expr::Bool(false)) })];
    assert!(matches!(check_program(&operands), Err(CompileError::Type { error: TypeError::OperandMismatch { left: Type::I32, right: Type::Bool }, .. })));

    let arith = vec![ret_fn("h", Type::I32, Expr::Binary { left: Box::new(Expr::Bool(true)), op: BinOp::Mul, right: Box::new(Expr::Bool(false)) })];
    assert!(matches!(check_program(&arith), Err(CompileError::Type { error: TypeError::ArithmeticOperands, .. })));

    let logic = vec![ret_fn("k", Type::Bool, Expr::Binary { left: Box::new(Expr::Int(1)), op: BinOp::And, right: Box::new(Expr::Int(2)) })];
    assert!(matches!(check_program(&logic), Err(CompileError::Type { error: TypeError::LogicalOperands, .. })));

    let cmp = vec![ret_fn("c", Type::Bool, Expr::Binary { left: Box::new(Expr::Int(1)), op: BinOp::Lt, right: Box::new(Expr::Int(2)) })];
    assert!(check_program(&cmp).is_ok());
}

#[test]
fn lowering_numbers_values_and_rejects_what_it_cannot_lower() {
    let prog = vec![ret_fn("f", Type::I32, Expr::Binary { left: Box::new(Expr::Int(7)), op: BinOp::Mul, right: Box::new(Expr::Int(6)) })];
    let m = lower(&prog).unwrap();
    assert_eq!(m.functions.len(), 1);
    let instrs = &m.functions[0].blocks[0].instrs;
    assert_eq!(
        instrs,
        &vec![
            Instruction::ConstInt { dest: 0, value: 7 },
            Instruction::ConstInt { dest: 1, value: 6 },
            Instruction::Mul { dest: 2, lhs: 0, rhs: 1 },
            Instruction::Return { value: Some(2) },
        ]
    );
    let bad = vec![ret_fn("f", Type::I32, Expr::Ident("x".to_string()))];
    assert!(matches!(lower(&bad), Err(CompileError::UnsupportedExpression)));
    let bad_op = vec![ret_fn("f", Type::Bool, Expr::Binary { left: Box::new(Expr::Int(1)), op: BinOp::Eq, right: Box::new(Expr::Int(1)) })];
    assert!(matches!(lower(&bad_op), Err(CompileError::UnsupportedBinaryOp)));
}

#[test]
fn instruction_text() {
    assert_eq!(Instruction::ConstInt { dest: 3, value: -5 }.render(), "%3 = const -5");
    assert_eq!(Instruction::Add { dest: 2, lhs: 0, rhs: 1 }.render(), "%2 = add %0, %1");
    assert_eq!(Instruction::Div { dest: 9, lhs: 10, rhs: 11 }.render(), "%9 = div %10, %11");
    assert_eq!(Instruction::Return { value: Some(4) }.render(), "ret %4");
    assert_eq!(Instruction::Return { value: None }.render(), "ret");
}

#[test]
fn rust_generation_adds_main_when_missing() {
    let m = Module {
        functions: vec![IrFunction {
            name: "f".to_string(),
            params: vec![Type::I32, Type::Bool],
            blocks: vec![BasicBlock {
                instrs: vec![
                    Instruction::ConstInt { dest: 0, value: 1 },
                    Instruction::Sub { dest: 1, lhs: 0, rhs: 0 },
                    Instruction::Return { value: Some(1) },
                ],
            }],
        }],
    };
    assert_eq!(
        generate_rust(&m),
        "// Auto-generated Rust code from XL compiler (via IR)\n\
         fn f(arg0: i32,arg1: bool) -> i32 {\n    let tmp0 = 1i32;\n    let tmp1 = tmp0 - tmp0;\n    return tmp1;\n}\n\n\
         fn main() {}\n"
    );
    assert_eq!(Module::new().functions.len(), 0);
    assert_eq!(generate_rust(&Module::new()), "// Auto-generated Rust code from XL compiler (via IR)\nfn main() {}\n");
}

#[test]
fn compile_whole_pipeline() {
    let out = compile_source("function main() -> i32 { return 1 + 2; }").unwrap();
    assert_eq!(
        out,
        "// Auto-generated Rust code from XL compiler (via IR)\n\
         fn main() -> i32 {\n    let tmp0 = 1i32;\n    let tmp1 = 2i32;\n    let tmp2 = tmp0 + tmp1;\n    return tmp2;\n}\n\n"
    );
    assert!(matches!(compile_source("function main() -> i32 { return x; }"), Err(CompileError::UnsupportedExpression)));
    assert!(matches!(compile_source("function main() -> i32 { return @; }"), Err(CompileError::Lex { position: 32 })));
}

#[test]
fn type_names() {
    assert_eq!(Type::I32.name(), "i32");
    assert_eq!(Type::Bool.name(), "bool");
    let p = Param { name: "x".to_string(), ty: Type::Bool };
    assert_eq!(p.ty, Type::Bool);
}

#[test]
fn error_messages() {
    assert_eq!(CompileError::Lex { position: 12 }.render(), "Lexing error at position 12");
    assert_eq!(CompileError::Expected(TokenKind::Semi).render(), "Expected Semi");
    assert_eq!(CompileError::Expected(TokenKind::Int(-4)).render(), format!("Expected {:?}", TokenKind::Int(-4)));
    assert_eq!(CompileError::UnexpectedEof.render(), "Unexpected EOF in expression");
    let e = CompileError::Type {
        function: "main".to_string(),
        error: TypeError::ReturnMismatch { expected: Type::I32, found: Type::Bool },
    };
    assert_eq!(e.render(), "In function main: Return type mismatch: expected i32, got bool");
    assert_eq!(
        TypeError::OperandMismatch { left: Type::Bool, right: Type::I32 }.render(),
        "Type mismatch in binary expression: bool vs i32"
    );
    assert_eq!(TypeError::LogicalOperands.render(), "Logical operator requires bool operands");
    assert_eq!(CompileError::UnsupportedBinaryOp.render(), "Unsupported binary op in lowering");
    let mismatch = vec![ret_fn("f", Type::I32, Expr::Bool(true))];
    match check_program(&mismatch) {
        Err(e) => assert_eq!(e.render(), "In function f: Return type mismatch: expected i32, got bool"),
        Ok(()) => panic!("expected a type error"),
    }
}
