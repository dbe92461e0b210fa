use xl::xlc::ast::{BinaryOp, Block, Expr, Function as AstFunction, Program, Stmt, Type};
use xl::xlc::codegen::{plan_module, IrValue};
use xl::xlc::error::XLError;
use xl::xlc::passes::{FnPass, Pass, PassManager, Phase};
use xl::xlc::ssa::lower::lower_function;
use xl::xlc::ssa::passes::mem2reg::Mem2Reg;
use xl::xlc::ssa::passes::{const_int, ConstPropPass, DcePass};
use xl::xlc::ssa::{BasicBlock, BlockId, ConstProp, Function, PassManagerSSA, SSAPass, Terminator, ValueId, ValueKind};

fn ast_fn(name: &str, stmts: Vec<Stmt>) -> AstFunction {
    AstFunction { name: name.to_string(), params: vec![], return_type: Type::Int, body: Block { stmts } }
}

fn add(l: Expr, r: Expr) -> Expr {
    Expr::Binary { op: BinaryOp::Add, left: Box::new(l), right: Box::new(r) }
}

/// `2 + 3` returned from the entry block.
fn sample() -> Function {
    let mut f = Function::new("f".to_string());
    let a = f.new_value(ValueKind::Const(2));
    let b = f.new_value(ValueKind::Const(3));
    let c = f.new_value(ValueKind::Add(a, b));
    f.blocks.push(BasicBlock { id: f.entry, values: vec![a, b, c], terminator: Terminator::Ret(c) });
    f
}

#[test]
fn ssa_function_numbering() {
    let mut f = Function::new("g".to_string());
    assert_eq!(f.name, "g");
    assert_eq!(f.entry, BlockId(0));
    assert!(f.values.is_empty() && f.blocks.is_empty());
    assert_eq!(f.new_value(ValueKind::Const(7)), ValueId(0));
    assert_eq!(f.new_value(ValueKind::Const(8)), ValueId(1));
    assert_eq!(f.new_block(), BlockId(1));
    assert_eq!(f.new_block(), BlockId(2));
    assert_eq!(f.values[1].id, ValueId(1));
    assert_eq!(const_int(&f, ValueId(1)), Some(8));
    assert_eq!(const_int(&f, ValueId(5)), None);
}

#[test]
fn constant_folding_then_dead_values() {
    let mut f = sample();
    assert!(ConstPropPass.run(&mut f));
    assert!(matches!(f.values[2].kind, ValueKind::Const(5)));
    assert!(!ConstPropPass.run(&mut f));
    assert!(DcePass.run(&mut f));
    assert_eq!(f.values.len(), 1);
    assert_eq!(f.values[0].id, ValueId(2));
    assert_eq!(f.blocks[0].values, vec![ValueId(2)]);
    assert!(!DcePass.run(&mut f));
    assert_eq!(ConstPropPass.name(), "constprop");
    assert_eq!(DcePass.name(), "dce");
    assert_eq!(Mem2Reg.name(), "mem2reg");
    assert_eq!(ConstProp.name(), "constprop");
}

#[test]
fn folding_leaves_overflow_and_division_by_zero() {
    let mut f = Function::new("h".to_string());
    let a = f.new_value(ValueKind::Const(i64::MAX));
    let b = f.new_value(ValueKind::Const(1));
    let z = f.new_value(ValueKind::Const(0));
    let s = f.new_value(ValueKind::Add(a, b));
    let d = f.new_value(ValueKind::Div(b, z));
    let m = f.new_value(ValueKind::Sub(a, b));
    f.blocks.push(BasicBlock { id: f.entry, values: vec![s, d, m], terminator: Terminator::Ret(m) });
    assert!(ConstPropPass.run(&mut f));
    assert!(matches!(f.values[3].kind, ValueKind::Add(_, _)));
    assert!(matches!(f.values[4].kind, ValueKind::Div(_, _)));
    assert!(matches!(f.values[5].kind, ValueKind::Const(v) if v == i64::MAX - 1));
}

#[test]
fn pass_manager_runs_until_nothing_changes() {
    let mut f = sample();
    PassManagerSSA::opt_level_1().run(&mut f);
    assert_eq!(f.values.len(), 1);
    assert!(matches!(f.values[0].kind, ValueKind::Const(5)));
    let mut g = sample();
    PassManagerSSA::new().run(&mut g);
    assert_eq!(g.values.len(), 3);
    let mut pm = PassManagerSSA::new();
    pm.add(Mem2Reg);
    pm.add(ConstProp);
    pm.run(&mut g);
    assert_eq!(g.values.len(), 3);
}

#[test]
fn lowering_to_one_entry_block() {
    let f = ast_fn(
        "f",
        vec![
            Stmt::Let { name: "x".to_string(), ty: Some(Type::Int), value: add(Expr::Int(1), Expr::Int(2)) },
            Stmt::Return(Expr::Ident("x".to_string())),
        ],
    );
    let s = lower_function(&f);
    assert_eq!(s.name, "f");
    assert_eq!(s.blocks.len(), 1);
    assert_eq!(s.blocks[0].id, BlockId(0));
    assert_eq!(s.blocks[0].values, vec![ValueId(0), ValueId(1), ValueId(2)]);
    assert_eq!(s.blocks[0].terminator, Terminator::Ret(ValueId(2)));
    // the identifier still makes a constant 0, listed nowhere
    assert_eq!(s.values.len(), 4);
    assert!(matches!(s.values[3].kind, ValueKind::Const(0)));
    assert!(matches!(s.values[2].kind, ValueKind::Add(ValueId(0), ValueId(1))));

    let unbound = lower_function(&ast_fn("g", vec![Stmt::Return(Expr::Ident("y".to_string()))]));
    assert_eq!(unbound.blocks[0].terminator, Terminator::Ret(ValueId(0)));
    assert!(unbound.blocks[0].values.is_empty());
    let empty = lower_function(&ast_fn("e", vec![]));
    assert_eq!(empty.blocks[0].terminator, Terminator::Ret(ValueId(0)));
}

#[test]
fn code_plans() {
    let prog = Program {
        functions: vec![
            ast_fn("f", vec![Stmt::Return(add(Expr::Int(1), Expr::Int(2)))]),
            ast_fn("g", vec![Stmt::Expr(Expr::Int(9))]),
        ],
    };
    let plans = plan_module(&prog).unwrap();
    assert_eq!(plans.len(), 2);
    assert_eq!(plans[0].name, "f");
    assert_eq!(
        plans[0].values,
        vec![
            IrValue::Const { value: 1, sign_extend: true },
            IrValue::Const { value: 2, sign_extend: true },
            IrValue::Binary { op: BinaryOp::Add, left: 0, right: 1 },
        ]
    );
    assert_eq!(plans[0].ret, 2);
    assert_eq!(plans[1].values, vec![IrValue::Const { value: 0, sign_extend: false }]);
    assert_eq!(plans[1].ret, 0);

    let with_match = Program {
        functions: vec![ast_fn("m", vec![Stmt::Return(Expr::Match { value: Box::new(Expr::Int(1)), arms: vec![] })])],
    };
    match plan_module(&with_match) {
        Err(XLError::CodegenError(m)) => assert_eq!(m, "match expression codegen not implemented"),
        other => panic!("unexpected {:?}", other),
    }
    let with_ident = Program { functions: vec![ast_fn("i", vec![Stmt::Return(Expr::Ident("v".to_string()))])] };
    match plan_module(&with_ident) {
        Err(XLError::CodegenError(m)) => assert_eq!(m, "unsupported expression in codegen"),
        other => panic!("unexpected {:?}", other),
    }
}

#[test]
fn program_passes_run_in_order_and_stop_at_an_error() {
    let mut pm = PassManager::new();
    pm.add_pass(FnPass::new("rename", Phase::Transformation, |p: &mut Program| {
        for f in p.functions.iter_mut() {
            f.name.push('!');
        }
        Ok(())
    }));
    pm.add_pass(FnPass::new("fail", Phase::Analysis, |_p: &mut Program| Err(XLError::SemanticError("stop".to_string()))));
    pm.add_pass(FnPass::new("never", Phase::Codegen, |p: &mut Program| {
        p.functions.clear();
        Ok(())
    }));
    let mut prog = Program { functions: vec![ast_fn("f", vec![])] };
    match pm.run(&mut prog) {
        Err(XLError::SemanticError(m)) => assert_eq!(m, "stop"),
        other => panic!("unexpected {:?}", other),
    }
    assert_eq!(prog.functions.len(), 1);
    assert_eq!(prog.functions[0].name, "f!");
    let empty = PassManager::new();
    assert!(empty.run(&mut prog).is_ok());
    let p = FnPass::new("n", Phase::Parsing, |_p: &mut Program| Ok(()));
    assert_eq!(p.name(), "n");
    assert_eq!(p.phase(), Phase::Parsing);
    // a run is a call of the function: its result and its effect
    let q = FnPass::new("q", Phase::Analysis, |p: &mut Program| {
        p.functions.clear();
        Err(XLError::SemanticError("q".to_string()))
    });
    match q.run(&mut prog) {
        Err(XLError::SemanticError(m)) => assert_eq!(m, "q"),
        other => panic!("unexpected {:?}", other),
    }
    assert!(prog.functions.is_empty());
}

#[test]
fn dead_ids_in_blocks_count_as_a_change() {
    let mut f = Function::new("h".to_string());
    let a = f.new_value(ValueKind::Const(1));
    f.blocks.push(BasicBlock { id: f.entry, values: vec![a, ValueId(9)], terminator: Terminator::Ret(a) });
    assert!(DcePass.run(&mut f));
    assert_eq!(f.values.len(), 1);
    assert_eq!(f.blocks[0].values, vec![a]);
    assert!(!DcePass.run(&mut f));
}

#[test]
fn a_second_run_changes_nothing() {
    let mut f = sample();
    let pm = PassManagerSSA::opt_level_1();
    pm.run(&mut f);
    let values = f.values.len();
    let listed = f.blocks[0].values.clone();
    pm.run(&mut f);
    assert_eq!(f.values.len(), values);
    assert_eq!(f.blocks[0].values, listed);
    assert_eq!(Mem2Reg.name(), "mem2reg");
}
