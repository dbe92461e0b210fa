//! Planning of code generation: for each function, the values that the LLVM
//! builder makes, in order, and the one that the function returns.

use vstd::prelude::*;

use super::ast::{BinaryOp, Expr, ExprView, Program, Stmt, StmtView, FunctionView};
use super::error::{XLError, XLErrorView};
use crate::text::push_str;

verus! {

/// A value that the builder makes.
#[derive(Debug, Clone, Copy, PartialEq, Eq, Structural)]
pub enum IrValue {
    /// A 64-bit integer constant, sign-extended or not.
    Const { value: i64, sign_extend: bool },
    /// An operation on two values made before, by their indices.
    Binary { op: BinaryOp, left: usize, right: usize },
}

/// The plan of one function: it takes no argument and returns an `i64`.
#[derive(Debug)]
pub struct FunctionPlan {
    pub name: String,
    pub values: Vec<IrValue>,
    pub ret: usize,
}

/// The value of a function plan.
pub struct FunctionPlanView {
    pub name: Seq<char>,
    pub values: Seq<IrValue>,
    pub ret: int,
}

impl View for FunctionPlan {
    type V = FunctionPlanView;

    open spec fn view(&self) -> FunctionPlanView {
        FunctionPlanView { name: self.name@, values: self.values@, ret: self.ret as int }
    }
}

/// The values for `e`, after those made so far: the values afterwards and the
/// index of `e`'s value, or the error message. Integers become sign-extended
/// constants; a binary expression makes its left side, its right side, then
/// the operation; a match, or anything else, cannot be generated.
pub open spec fn plan_expr(e: ExprView, vals: Seq<IrValue>) -> Result<(Seq<IrValue>, int), Seq<char>>
    decreases e,
{
    match e {
        ExprView::Int(v) => Ok((vals.push(IrValue::Const { value: v, sign_extend: true }), vals.len() as int)),
        ExprView::Binary { op, left, right } => match plan_expr(*left, vals) {
            Err(m) => Err(m),
            Ok((v1, l)) => match plan_expr(*right, v1) {
                Err(m) => Err(m),
                Ok((v2, r)) => Ok((v2.push(IrValue::Binary { op, left: l as usize, right: r as usize }), v2.len() as int)),
            },
        },
        ExprView::Match { .. } => Err("match expression codegen not implemented"@),
        _ => Err("unsupported expression in codegen"@),
    }
}

/// The plan of a function: from the expression of its last statement when
/// that is a `return`, else a constant 0.
pub open spec fn plan_function(f: FunctionView) -> Result<(Seq<IrValue>, int), Seq<char>> {
    if f.body.len() > 0 && f.body.last() is Return {
        plan_expr(f.body.last()->Return_0, Seq::empty())
    } else {
        Ok((seq![IrValue::Const { value: 0, sign_extend: false }], 0))
    }
}

/// The plans of the functions from index `i` on, or the first error.
pub open spec fn plan_functions(fs: Seq<FunctionView>, i: int) -> Result<Seq<FunctionPlanView>, Seq<char>>
    decreases fs.len() - i,
{
    if i < 0 || i >= fs.len() {
        Ok(Seq::empty())
    } else {
        match plan_function(fs[i]) {
            Err(m) => Err(m),
            Ok((vals, ret)) => match plan_functions(fs, i + 1) {
                Err(m) => Err(m),
                Ok(rest) => Ok(seq![FunctionPlanView { name: fs[i].name, values: vals, ret }] + rest),
            },
        }
    }
}

/// Each value refers only to values made before it.
pub open spec fn well_ordered(vals: Seq<IrValue>) -> bool {
    forall|i: int|
        0 <= i < vals.len() ==> match #[trigger] vals[i] {
            IrValue::Binary { left, right, .. } => left < i && right < i,
            _ => true,
        }
}

proof fn lemma_plan_expr_grows(e: ExprView, vals: Seq<IrValue>)
    requires
        well_ordered(vals),
    ensures
        plan_expr(e, vals) matches Ok((v, i)) ==> v.len() > vals.len() && vals.len() <= i < v.len() && v.take(vals.len() as int) == vals && well_ordered(v),
    decreases e,
{
    match e {
        ExprView::Binary { left, right, .. } => {
            lemma_plan_expr_grows(*left, vals);
            if let Ok((v1, l)) = plan_expr(*left, vals) {
                lemma_plan_expr_grows(*right, v1);
                if let Ok((v2, r)) = plan_expr(*right, v1) {
                    assert(v2.take(vals.len() as int) =~= v1.take(vals.len() as int));
                    let v3 = v2.push(IrValue::Binary { op: e->op, left: l as usize, right: r as usize });
                    assert(v3.take(vals.len() as int) =~= v2.take(vals.len() as int));
                    assert forall|k: int| 0 <= k < v3.len() implies match #[trigger] v3[k] {
                        IrValue::Binary { left, right, .. } => left < k && right < k,
                        _ => true,
                    } by {
                        if k < v2.len() {
                            assert(v3[k] == v2[k]);
                        }
                    }
                }
            }
        },
        ExprView::Int(v) => {
            let v3 = vals.push(IrValue::Const { value: v, sign_extend: true });
            assert(v3.take(vals.len() as int) =~= vals);
            assert forall|k: int| 0 <= k < v3.len() implies match #[trigger] v3[k] {
                IrValue::Binary { left, right, .. } => left < k && right < k,
                _ => true,
            } by {
                if k < vals.len() {
                    assert(v3[k] == vals[k]);
                }
            }
        },
        _ => {},
    }
}

fn codegen_error(m: &str) -> (e: XLError)
    ensures
        e@ == XLErrorView::CodegenError(m@),
{
    let mut s = String::new();
    push_str(&mut s, m);
    XLError::CodegenError(s)
}

fn codegen_expr(expr: &Expr, vals: &mut Vec<IrValue>) -> (r: Result<usize, XLError>)
    ensures
        match (r, plan_expr(expr@, old(vals)@)) {
            (Ok(i), Ok((v, j))) => final(vals)@ == v && i == j,
            (Err(e), Err(m)) => e@ == XLErrorView::CodegenError(m),
            _ => false,
        },
    decreases expr,
{
    match expr {
        Expr::Int(v) => {
            let i = vals.len();
            vals.push(IrValue::Const { value: *v, sign_extend: true });
            Ok(i)
        },
        Expr::Binary { op, left, right } => {
            let l = codegen_expr(&**left, vals)?;
            let r = codegen_expr(&**right, vals)?;
            let i = vals.len();
            vals.push(IrValue::Binary { op: *op, left: l, right: r });
            Ok(i)
        },
        Expr::Match { .. } => Err(codegen_error("match expression codegen not implemented")),
        _ => Err(codegen_error("unsupported expression in codegen")),
    }
}

/// Whether an outcome of planning is the one that `s` describes.
pub open spec fn plan_outcome(r: Result<Vec<FunctionPlan>, XLError>, s: Result<Seq<FunctionPlanView>, Seq<char>>) -> bool {
    match (r, s) {
        (Ok(ps), Ok(qs)) => ps@.map_values(|p: FunctionPlan| p@) == qs,
        (Err(e), Err(m)) => e@ == XLErrorView::CodegenError(m),
        _ => false,
    }
}

/// The plans of the functions of a program, in order, or the first error.
/// Each function's values refer only to values made before them, and the
/// returned value is one of them.
pub fn plan_module(program: &Program) -> (r: Result<Vec<FunctionPlan>, XLError>)
    ensures
        plan_outcome(r, plan_functions(program@, 0)),
        r matches Ok(ps) ==> forall|i: int| 0 <= i < ps@.len() ==> well_ordered(#[trigger] ps@[i].values@) && ps@[i].ret < ps@[i].values@.len(),
{
    let ghost fs = program@;
    let mut plans: Vec<FunctionPlan> = Vec::new();
    let mut i: usize = 0;
    while i < program.functions.len()
        invariant
            i <= program.functions@.len(),
            fs == program@,
            fs.len() == program.functions@.len(),
            plans@.len() == i,
            forall|k: int| 0 <= k < i ==> well_ordered(#[trigger] plans@[k].values@) && plans@[k].ret < plans@[k].values@.len(),
            plan_functions(fs, 0) == match plan_functions(fs, i as int) {
                Err(m) => Err(m),
                Ok(rest) => Ok(plans@.map_values(|p: FunctionPlan| p@) + rest),
            },
        decreases program.functions@.len() - i,
    {
        let func = &program.functions[i];
        assert(fs[i as int] == func@);
        let mut vals: Vec<IrValue> = Vec::new();
        let n = func.body.stmts.len();
        let is_return = n > 0 && match &func.body.stmts[n - 1] {
            Stmt::Return(_) => true,
            _ => false,
        };
        proof {
            if n > 0 {
                assert(func@.body.last() == func.body.stmts@[n - 1]@);
            }
        }
        let ret = if is_return {
            match &func.body.stmts[n - 1] {
                Stmt::Return(expr) => {
                    proof {
                        assert(vals@ =~= Seq::<IrValue>::empty());
                        lemma_plan_expr_grows(expr@, Seq::empty());
                    }
                    codegen_expr(expr, &mut vals)?
                },
                _ => 0,
            }
        } else {
            vals.push(IrValue::Const { value: 0, sign_extend: false });
            proof {
                assert(vals@ =~= seq![IrValue::Const { value: 0, sign_extend: false }]);
            }
            0
        };
        let ghost before = plans@.map_values(|p: FunctionPlan| p@);
        plans.push(FunctionPlan { name: func.name.clone(), values: vals, ret });
        proof {
            assert(plans@.map_values(|p: FunctionPlan| p@) =~= before.push(plans@[i as int]@));
            match plan_functions(fs, i + 1) {
                Err(m) => {},
                Ok(rest) => {
                    assert(before.push(plans@[i as int]@) + rest =~= before + (seq![plans@[i as int]@] + rest));
                },
            }
        }
        i += 1;
    }
    proof {
        assert(plans@.map_values(|p: FunctionPlan| p@) + Seq::<FunctionPlanView>::empty() =~= plans@.map_values(|p: FunctionPlan| p@));
    }
    Ok(plans)
}

} // verus!
