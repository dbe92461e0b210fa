//! Type checking of the first front end.

use vstd::prelude::*;

use super::ast::{BinOp, Expr, ExprView, Function, FunctionView, Item, ItemView, Program, Stmt, StmtView};
use super::error::{CompileError, TypeError};
use super::parser::program_view;
use super::types::Type;

verus! {

/// The type of an expression. Identifiers and calls are taken to be `i32`;
/// both operands of a binary operator must have the same type.
pub open spec fn spec_infer(e: ExprView) -> Result<Type, TypeError>
    decreases e,
{
    match e {
        ExprView::Int(_) => Ok(Type::I32),
        ExprView::Bool(_) => Ok(Type::Bool),
        ExprView::Ident(_) => Ok(Type::I32),
        ExprView::Call { .. } => Ok(Type::I32),
        ExprView::Binary { left, op, right } => match spec_infer(*left) {
            Err(err) => Err(err),
            Ok(l) => match spec_infer(*right) {
                Err(err) => Err(err),
                Ok(r) => if l != r {
                    Err(TypeError::OperandMismatch { left: l, right: r })
                } else {
                    match op {
                        BinOp::Add | BinOp::Sub | BinOp::Mul | BinOp::Div => if l != Type::I32 {
                            Err(TypeError::ArithmeticOperands)
                        } else {
                            Ok(Type::I32)
                        },
                        BinOp::And | BinOp::Or => if l != Type::Bool {
                            Err(TypeError::LogicalOperands)
                        } else {
                            Ok(Type::Bool)
                        },
                        _ => Ok(Type::Bool),
                    }
                },
            },
        },
    }
}

/// Checks the statements `body[i..]` of a function returning `ret`: the first failure, if any.
pub open spec fn spec_check_stmts(body: Seq<StmtView>, ret: Type, i: int) -> Result<(), TypeError>
    decreases body.len() - i,
{
    if i < 0 || i >= body.len() {
        Ok(())
    } else {
        let step = match body[i] {
            StmtView::Return(e) => match spec_infer(e) {
                Err(err) => Err(err),
                Ok(t) => if t != ret {
                    Err(TypeError::ReturnMismatch { expected: ret, found: t })
                } else {
                    Ok(())
                },
            },
            StmtView::Let { value, .. } => match spec_infer(value) {
                Err(err) => Err(err),
                Ok(_) => Ok(()),
            },
        };
        match step {
            Err(err) => Err(err),
            Ok(()) => spec_check_stmts(body, ret, i + 1),
        }
    }
}

/// Checks the functions `items[i..]`: the first failure, tagged with its function's name.
pub open spec fn spec_check_items(items: Seq<ItemView>, i: int) -> Result<(), (Seq<char>, TypeError)>
    decreases items.len() - i,
{
    if i < 0 || i >= items.len() {
        Ok(())
    } else {
        match items[i] {
            ItemView::Function(f) => match spec_check_stmts(f.body, f.ret_type, 0) {
                Err(err) => Err((f.name, err)),
                Ok(()) => spec_check_items(items, i + 1),
            },
        }
    }
}

/// Checks every function of a program; a failure names the function it occurred in.
pub fn check_program(prog: &Program) -> (r: Result<(), CompileError>)
    ensures
        match spec_check_items(program_view(prog@), 0) {
            Ok(()) => r is Ok,
            Err((name, err)) => r matches Err(CompileError::Type { function, error }) && function@ == name && error == err,
        },
{
    let ghost items = program_view(prog@);
    let mut i: usize = 0;
    while i < prog.len()
        invariant
            i <= prog@.len(),
            items == program_view(prog@),
            spec_check_items(items, 0) == spec_check_items(items, i as int),
        decreases prog@.len() - i,
    {
        match &prog[i] {
            Item::Function(fun) => {
                match check_function(fun) {
                    Ok(()) => {},
                    Err(error) => {
                        return Err(CompileError::Type { function: fun.name.clone(), error });
                    },
                }
            },
        }
        i += 1;
    }
    Ok(())
}

fn check_function(fun: &Function) -> (r: Result<(), TypeError>)
    ensures
        r == spec_check_stmts(fun@.body, fun.ret_type, 0),
{
    let ghost body = fun@.body;
    let mut i: usize = 0;
    while i < fun.body.len()
        invariant
            i <= fun.body@.len(),
            body == fun@.body,
            spec_check_stmts(body, fun.ret_type, 0) == spec_check_stmts(body, fun.ret_type, i as int),
        decreases fun.body@.len() - i,
    {
        match &fun.body[i] {
            Stmt::Return(expr) => {
                let ty = infer_expr(expr)?;
                if ty != fun.ret_type {
                    return Err(TypeError::ReturnMismatch { expected: fun.ret_type, found: ty });
                }
            },
            Stmt::Let { name: _, value } => {
                let _ = infer_expr(value)?;
            },
        }
        i += 1;
    }
    Ok(())
}

fn infer_expr(expr: &Expr) -> (r: Result<Type, TypeError>)
    ensures
        r == spec_infer(expr@),
    decreases expr,
{
    match expr {
        Expr::Int(_) => Ok(Type::I32),
        Expr::Bool(_) => Ok(Type::Bool),
        Expr::Binary { left, op, right } => {
            let l = infer_expr(left)?;
            let r = infer_expr(right)?;
            if l != r {
                return Err(TypeError::OperandMismatch { left: l, right: r });
            }
            match op {
                BinOp::Add | BinOp::Sub | BinOp::Mul | BinOp::Div => {
                    if l != Type::I32 {
                        return Err(TypeError::ArithmeticOperands);
                    }
                    Ok(Type::I32)
                },
                BinOp::And | BinOp::Or => {
                    if l != Type::Bool {
                        return Err(TypeError::LogicalOperands);
                    }
                    Ok(Type::Bool)
                },
                BinOp::Eq | BinOp::Ne | BinOp::Lt | BinOp::Gt => Ok(Type::Bool),
            }
        },
        Expr::Ident(_) => Ok(Type::I32),
        Expr::Call { func: _, args: _ } => Ok(Type::I32),
    }
}

/// The type of a binary expression whose operands have one type `t`:
/// a comparison (`==`, `!=`, `<`, `>`) is a `bool`, whatever `t` is; an
/// arithmetic operator on `i32`s is an `i32`; a logical operator on `bool`s is
/// a `bool`.
pub proof fn lemma_binary_types(left: ExprView, op: BinOp, right: ExprView, t: Type)
    requires
        spec_infer(left) == Ok::<Type, TypeError>(t),
        spec_infer(right) == Ok::<Type, TypeError>(t),
    ensures
        (op == BinOp::Eq || op == BinOp::Ne || op == BinOp::Lt || op == BinOp::Gt)
            ==> spec_infer(ExprView::Binary { left: Box::new(left), op, right: Box::new(right) }) == Ok::<Type, TypeError>(Type::Bool),
        (op == BinOp::Add || op == BinOp::Sub || op == BinOp::Mul || op == BinOp::Div) && t == Type::I32
            ==> spec_infer(ExprView::Binary { left: Box::new(left), op, right: Box::new(right) }) == Ok::<Type, TypeError>(Type::I32),
        (op == BinOp::And || op == BinOp::Or) && t == Type::Bool
            ==> spec_infer(ExprView::Binary { left: Box::new(left), op, right: Box::new(right) }) == Ok::<Type, TypeError>(Type::Bool),
{
}

/// The types of the leaves (an integer is an `i32`, a boolean a `bool`,
/// names and calls are taken to be `i32`), and the errors of a binary
/// expression: an operand's error comes first, the left one before the right
/// one; operands of two types are a mismatch; arithmetic on `bool`s and logic
/// on `i32`s are refused.
pub proof fn lemma_leaf_types_and_errors(left: ExprView, op: BinOp, right: ExprView, v: i64, b: bool, name: Seq<char>, args: Seq<ExprView>)
    ensures
        spec_infer(ExprView::Int(v)) == Ok::<Type, TypeError>(Type::I32),
        spec_infer(ExprView::Bool(b)) == Ok::<Type, TypeError>(Type::Bool),
        spec_infer(ExprView::Ident(name)) == Ok::<Type, TypeError>(Type::I32),
        spec_infer(ExprView::Call { func: name, args }) == Ok::<Type, TypeError>(Type::I32),
        ({
            let e = ExprView::Binary { left: Box::new(left), op, right: Box::new(right) };
            &&& spec_infer(left) is Err ==> spec_infer(e) == spec_infer(left)
            &&& spec_infer(left) is Ok && spec_infer(right) is Err ==> spec_infer(e) == spec_infer(right)
            &&& spec_infer(left) is Ok && spec_infer(right) is Ok && spec_infer(left) != spec_infer(right)
                ==> spec_infer(e) == Err::<Type, TypeError>(TypeError::OperandMismatch {
                    left: spec_infer(left)->Ok_0,
                    right: spec_infer(right)->Ok_0,
                })
            &&& spec_infer(left) == Ok::<Type, TypeError>(Type::Bool) && spec_infer(right) == Ok::<Type, TypeError>(Type::Bool)
                && (op == BinOp::Add || op == BinOp::Sub || op == BinOp::Mul || op == BinOp::Div)
                ==> spec_infer(e) == Err::<Type, TypeError>(TypeError::ArithmeticOperands)
            &&& spec_infer(left) == Ok::<Type, TypeError>(Type::I32) && spec_infer(right) == Ok::<Type, TypeError>(Type::I32)
                && (op == BinOp::And || op == BinOp::Or)
                ==> spec_infer(e) == Err::<Type, TypeError>(TypeError::LogicalOperands)
        }),
{
}

} // verus!
