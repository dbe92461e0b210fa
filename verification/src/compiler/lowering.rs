//! Lowering of the syntax tree to the three-address IR.

use vstd::prelude::*;

use super::ast::{BinOp, Expr, ExprView, Function, FunctionView, Item, ItemView, Program, Stmt, StmtView};
use super::error::CompileError;
use super::ir::{BasicBlock, Function as IRFunction, FunctionView as IRFunctionView, Instruction, Module, ValueId};
use super::parser::program_view;
use super::types::Type;
use crate::xlc::ssa::passes::quotient_toward_zero;

verus! {

/// Number of nodes of an expression (an upper bound on the values its lowering creates).
pub open spec fn expr_nodes(e: ExprView) -> nat
    decreases e,
{
    match e {
        ExprView::Binary { left, right, .. } => 1 + expr_nodes(*left) + expr_nodes(*right),
        _ => 1,
    }
}

/// Number of expression nodes in `body[i..]`.
pub open spec fn stmts_nodes(body: Seq<StmtView>, i: int) -> nat
    decreases body.len() - i,
{
    if i < 0 || i >= body.len() {
        0
    } else {
        let n = match body[i] {
            StmtView::Let { value, .. } => expr_nodes(value),
            StmtView::Return(e) => expr_nodes(e),
        };
        n + stmts_nodes(body, i + 1)
    }
}

/// The instruction computing `lhs op rhs` into `dest`, for the four arithmetic operators.
pub open spec fn binary_instr(op: BinOp, dest: ValueId, lhs: ValueId, rhs: ValueId) -> Option<Instruction> {
    match op {
        BinOp::Add => Some(Instruction::Add { dest, lhs, rhs }),
        BinOp::Sub => Some(Instruction::Sub { dest, lhs, rhs }),
        BinOp::Mul => Some(Instruction::Mul { dest, lhs, rhs }),
        BinOp::Div => Some(Instruction::Div { dest, lhs, rhs }),
        _ => None,
    }
}

/// Lowers `e` with fresh values numbered from `next`: the instructions, the value
/// holding the result, and the next fresh number. Integer literals and arithmetic
/// are supported; operands are lowered left to right before the operator is checked.
pub open spec fn spec_lower_expr(e: ExprView, next: int) -> Result<(Seq<Instruction>, int, int), CompileError>
    decreases e,
{
    match e {
        ExprView::Int(v) => Ok((seq![Instruction::ConstInt { dest: next as usize, value: v }], next, next + 1)),
        ExprView::Binary { left, op, right } => match spec_lower_expr(*left, next) {
            Err(x) => Err(x),
            Ok((il, lv, n1)) => match spec_lower_expr(*right, n1) {
                Err(x) => Err(x),
                Ok((ir, rv, n2)) => match binary_instr(op, n2 as usize, lv as usize, rv as usize) {
                    Some(ins) => Ok((il + ir + seq![ins], n2, n2 + 1)),
                    None => Err(CompileError::UnsupportedBinaryOp),
                },
            },
        },
        _ => Err(CompileError::UnsupportedExpression),
    }
}

/// What lowering `e` from the value number `next` leaves behind, whatever
/// its outcome: the instructions emitted and the next value number. A failure
/// keeps what was emitted before it, and a binary expression whose operator
/// is not supported has already taken its value number.
pub open spec fn lower_effect(e: ExprView, next: int) -> (Seq<Instruction>, int)
    decreases e,
{
    match e {
        ExprView::Int(v) => (seq![Instruction::ConstInt { dest: next as usize, value: v }], next + 1),
        ExprView::Binary { left, op, right } => {
            let (il, n1) = lower_effect(*left, next);
            match spec_lower_expr(*left, next) {
                Err(_) => (il, n1),
                Ok((_, lv, _)) => {
                    let (ir, n2) = lower_effect(*right, n1);
                    match spec_lower_expr(*right, n1) {
                        Err(_) => (il + ir, n2),
                        Ok((_, rv, _)) => match binary_instr(op, n2 as usize, lv as usize, rv as usize) {
                            Some(ins) => (il + ir + seq![ins], n2 + 1),
                            None => (il + ir, n2 + 1),
                        },
                    }
                },
            }
        },
        _ => (Seq::empty(), next),
    }
}

/// Lowers the statements `body[i..]` after the instructions `acc`, fresh values numbered from `next`.
pub open spec fn spec_lower_stmts(body: Seq<StmtView>, i: int, acc: Seq<Instruction>, next: int) -> Result<Seq<Instruction>, CompileError>
    decreases body.len() - i,
{
    if i < 0 || i >= body.len() {
        Ok(acc)
    } else {
        match body[i] {
            StmtView::Return(e) => match spec_lower_expr(e, next) {
                Err(x) => Err(x),
                Ok((ins, v, n)) => spec_lower_stmts(
                    body,
                    i + 1,
                    acc + ins + seq![Instruction::Return { value: Some(v as usize) }],
                    n,
                ),
            },
            StmtView::Let { value, .. } => match spec_lower_expr(value, next) {
                Err(x) => Err(x),
                Ok((ins, _, n)) => spec_lower_stmts(body, i + 1, acc + ins, n),
            },
        }
    }
}

/// Lowers a function into one basic block; values are numbered from 0 in each function.
pub open spec fn spec_lower_function(f: FunctionView) -> Result<IRFunctionView, CompileError> {
    match spec_lower_stmts(f.body, 0, Seq::empty(), 0) {
        Err(x) => Err(x),
        Ok(ins) => Ok(IRFunctionView {
            name: f.name,
            params: f.params.map_values(|p: super::ast::ParamView| p.ty),
            blocks: seq![ins],
        }),
    }
}

/// Lowers the functions `items[i..]` after the lowered functions `acc`.
pub open spec fn spec_lower_items(items: Seq<ItemView>, i: int, acc: Seq<IRFunctionView>) -> Result<Seq<IRFunctionView>, CompileError>
    decreases items.len() - i,
{
    if i < 0 || i >= items.len() {
        Ok(acc)
    } else {
        match items[i] {
            ItemView::Function(f) => match spec_lower_function(f) {
                Err(x) => Err(x),
                Ok(g) => spec_lower_items(items, i + 1, acc.push(g)),
            },
        }
    }
}

/// Every function's expressions have fewer nodes than there are `usize` values.
pub open spec fn fits_value_ids(items: Seq<ItemView>) -> bool {
    forall|i: int| 0 <= i < items.len() ==> match #[trigger] items[i] {
        ItemView::Function(f) => stmts_nodes(f.body, 0) < usize::MAX,
    }
}

/// Lowers every function of a program into an IR module.
pub fn lower(program: &Program) -> (r: Result<Module, CompileError>)
    requires
        fits_value_ids(program_view(program@)),
    ensures
        match r {
            Ok(m) => spec_lower_items(program_view(program@), 0, Seq::empty()) == Ok::<Seq<IRFunctionView>, CompileError>(m@),
            Err(e) => spec_lower_items(program_view(program@), 0, Seq::empty()) == Err::<Seq<IRFunctionView>, CompileError>(e),
        },
{
    let ghost items = program_view(program@);
    let mut module = Module::new();
    let mut i: usize = 0;
    while i < program.len()
        invariant
            i <= program@.len(),
            items == program_view(program@),
            fits_value_ids(items),
            spec_lower_items(items, 0, Seq::empty()) == spec_lower_items(items, i as int, module@),
        decreases program@.len() - i,
    {
        match &program[i] {
            Item::Function(fun) => {
                assert(items[i as int] == ItemView::Function(fun@));
                let f = lower_function(fun)?;
                let ghost before = module@;
                module.functions.push(f);
                assert(module@ =~= before.push(f@));
            },
        }
        i += 1;
    }
    Ok(module)
}

fn lower_function(fun: &Function) -> (r: Result<IRFunction, CompileError>)
    requires
        stmts_nodes(fun@.body, 0) < usize::MAX,
    ensures
        match r {
            Ok(f) => spec_lower_function(fun@) == Ok::<IRFunctionView, CompileError>(f@),
            Err(e) => spec_lower_function(fun@) == Err::<IRFunctionView, CompileError>(e),
        },
{
    let ghost body = fun@.body;
    let mut ctx = LowerCtx { next_value: 0 };
    let mut bb = BasicBlock { instrs: Vec::new() };
    let mut i: usize = 0;
    while i < fun.body.len()
        invariant
            i <= fun.body@.len(),
            body == fun@.body,
            ctx.next_value + stmts_nodes(body, i as int) < usize::MAX,
            spec_lower_stmts(body, 0, Seq::empty(), 0) == spec_lower_stmts(body, i as int, bb@, ctx.next_value as int),
        decreases fun.body@.len() - i,
    {
        assert(body[i as int] == fun.body@[i as int]@);
        match &fun.body[i] {
            Stmt::Return(expr) => {
                let ghost acc = bb@;
                let val = lower_expr(expr, &mut ctx, &mut bb)?;
                let ghost mid = bb@;
                bb.instrs.push(Instruction::Return { value: Some(val) });
                assert(bb@ =~= mid + seq![Instruction::Return { value: Some(val) }]);
            },
            Stmt::Let { name: _, value: expr } => {
                let _ = lower_expr(expr, &mut ctx, &mut bb)?;
            },
        }
        i += 1;
    }
    let mut params: Vec<Type> = Vec::new();
    let mut k: usize = 0;
    while k < fun.params.len()
        invariant
            k <= fun.params@.len(),
            params@ == fun@.params.map_values(|p: super::ast::ParamView| p.ty).subrange(0, k as int),
        decreases fun.params@.len() - k,
    {
        params.push(fun.params[k].ty);
        k += 1;
        assert(params@ =~= fun@.params.map_values(|p: super::ast::ParamView| p.ty).subrange(0, k as int));
    }
    assert(params@ =~= fun@.params.map_values(|p: super::ast::ParamView| p.ty));
    let mut blocks: Vec<BasicBlock> = Vec::new();
    blocks.push(bb);
    let ir_fun = IRFunction { name: fun.name.clone(), params, blocks };
    assert(ir_fun@.blocks =~= seq![bb@]);
    Ok(ir_fun)
}

struct LowerCtx {
    next_value: ValueId,
}

impl LowerCtx {
    fn fresh(&mut self) -> (id: ValueId)
        requires
            old(self).next_value < usize::MAX,
        ensures
            id == old(self).next_value,
            final(self).next_value == old(self).next_value + 1,
    {
        let id = self.next_value;
        self.next_value += 1;
        id
    }
}

fn lower_expr(expr: &Expr, ctx: &mut LowerCtx, bb: &mut BasicBlock) -> (r: Result<ValueId, CompileError>)
    requires
        old(ctx).next_value + expr_nodes(expr@) <= usize::MAX,
    ensures
        match spec_lower_expr(expr@, old(ctx).next_value as int) {
            Ok((ins, v, n)) => r == Ok::<ValueId, CompileError>(v as usize)
                && final(bb)@ == old(bb)@ + ins && final(ctx).next_value == n
                && n <= old(ctx).next_value + expr_nodes(expr@),
            Err(e) => r == Err::<ValueId, CompileError>(e),
        },
        final(bb)@ == old(bb)@ + lower_effect(expr@, old(ctx).next_value as int).0,
        final(ctx).next_value == lower_effect(expr@, old(ctx).next_value as int).1,
    decreases expr,
{
    match expr {
        Expr::Int(v) => {
            let dest = ctx.fresh();
            bb.instrs.push(Instruction::ConstInt { dest, value: *v });
            Ok(dest)
        },
        Expr::Binary { left, op, right } => {
            let l = lower_expr(left, ctx, bb)?;
            let r = lower_expr(right, ctx, bb)?;
            let dest = ctx.fresh();
            let instr = match op {
                BinOp::Add => Instruction::Add { dest, lhs: l, rhs: r },
                BinOp::Sub => Instruction::Sub { dest, lhs: l, rhs: r },
                BinOp::Mul => Instruction::Mul { dest, lhs: l, rhs: r },
                BinOp::Div => Instruction::Div { dest, lhs: l, rhs: r },
                _ => return Err(CompileError::UnsupportedBinaryOp),
            };
            bb.instrs.push(instr);
            Ok(dest)
        },
        _ => Err(CompileError::UnsupportedExpression),
    }
}

} // verus!

verus! {

use super::codegen::{blocks_code, define, function_code, instr_code, instrs_code, renderable, Names};

/// `ins` reads only values already defined and defines values exactly in the order
/// `c0, c0 + 1, ...` up to `c1`.
pub open spec fn numbered(ins: Seq<Instruction>, c0: int, c1: int) -> bool
    decreases ins.len(),
{
    if ins.len() == 0 {
        c0 == c1
    } else {
        let (ok, c) = match ins[0] {
            Instruction::ConstInt { dest, .. } => (dest == c0, c0 + 1),
            Instruction::Add { dest, lhs, rhs } => (dest == c0 && lhs < c0 && rhs < c0, c0 + 1),
            Instruction::Sub { dest, lhs, rhs } => (dest == c0 && lhs < c0 && rhs < c0, c0 + 1),
            Instruction::Mul { dest, lhs, rhs } => (dest == c0 && lhs < c0 && rhs < c0, c0 + 1),
            Instruction::Div { dest, lhs, rhs } => (dest == c0 && lhs < c0 && rhs < c0, c0 + 1),
            Instruction::Return { value } => (match value {
                Some(v) => v < c0,
                None => true,
            }, c0),
        };
        ok && numbered(ins.drop_first(), c, c1)
    }
}

proof fn lemma_numbered_concat(a: Seq<Instruction>, b: Seq<Instruction>, c0: int, c1: int, c2: int)
    requires
        numbered(a, c0, c1),
        numbered(b, c1, c2),
    ensures
        numbered(a + b, c0, c2),
    decreases a.len(),
{
    if a.len() == 0 {
        assert(a + b =~= b);
    } else {
        assert((a + b).drop_first() =~= a.drop_first() + b);
        let c = match a[0] {
            Instruction::Return { .. } => c0,
            _ => c0 + 1,
        };
        lemma_numbered_concat(a.drop_first(), b, c, c1, c2);
    }
}

proof fn lemma_lower_expr_numbered(e: ExprView, next: int)
    requires
        0 <= next,
        next + expr_nodes(e) <= usize::MAX,
    ensures
        spec_lower_expr(e, next) matches Ok((ins, v, n)) ==> numbered(ins, next, n) && next <= v < n
            && n <= next + expr_nodes(e),
    decreases e,
{
    match e {
        ExprView::Int(x) => {
            let ins = seq![Instruction::ConstInt { dest: next as usize, value: x }];
            assert(ins.drop_first() =~= Seq::<Instruction>::empty());
            assert(numbered(ins.drop_first(), next + 1, next + 1));
            assert((next as usize) as int == next);
            assert(numbered(ins, next, next + 1));
        },
        ExprView::Binary { left, op, right } => {
            lemma_lower_expr_numbered(*left, next);
            if let Ok((il, lv, n1)) = spec_lower_expr(*left, next) {
                lemma_lower_expr_numbered(*right, n1);
                if let Ok((ir, rv, n2)) = spec_lower_expr(*right, n1) {
                    if let Some(ins) = binary_instr(op, n2 as usize, lv as usize, rv as usize) {
                        let last = seq![ins];
                        assert(last.drop_first() =~= Seq::<Instruction>::empty());
                        assert(numbered(last.drop_first(), n2 + 1, n2 + 1));
                        assert((n2 as usize) as int == n2);
                        assert((lv as usize) as int == lv);
                        assert((rv as usize) as int == rv);
                        assert(numbered(last, n2, n2 + 1));
                        lemma_numbered_concat(il, ir, next, n1, n2);
                        lemma_numbered_concat(il + ir, last, next, n2, n2 + 1);
                    }
                }
            }
        },
        _ => {},
    }
}

proof fn lemma_lower_stmts_numbered(body: Seq<StmtView>, i: int, acc: Seq<Instruction>, next: int) -> (c: int)
    requires
        0 <= next,
        numbered(acc, 0, next),
        next + stmts_nodes(body, i) <= usize::MAX,
    ensures
        spec_lower_stmts(body, i, acc, next) matches Ok(ins) ==> numbered(ins, 0, c),
    decreases body.len() - i,
{
    if 0 <= i < body.len() {
        match body[i] {
            StmtView::Return(e) => {
                lemma_lower_expr_numbered(e, next);
                if let Ok((ins, v, n)) = spec_lower_expr(e, next) {
                    let ret = seq![Instruction::Return { value: Some(v as usize) }];
                    assert(ret.drop_first() =~= Seq::<Instruction>::empty());
                    assert(numbered(ret.drop_first(), n, n));
                    assert((v as usize) as int == v);
                    assert(numbered(ret, n, n));
                    lemma_numbered_concat(acc, ins, 0, next, n);
                    lemma_numbered_concat(acc + ins, ret, 0, n, n);
                    let c = lemma_lower_stmts_numbered(body, i + 1, acc + ins + ret, n);
                    assert(spec_lower_stmts(body, i, acc, next) == spec_lower_stmts(body, i + 1, acc + ins + ret, n));
                    c
                } else {
                    0
                }
            },
            StmtView::Let { value, .. } => {
                lemma_lower_expr_numbered(value, next);
                if let Ok((ins, v, n)) = spec_lower_expr(value, next) {
                    lemma_numbered_concat(acc, ins, 0, next, n);
                    let c = lemma_lower_stmts_numbered(body, i + 1, acc + ins, n);
                    assert(spec_lower_stmts(body, i, acc, next) == spec_lower_stmts(body, i + 1, acc + ins, n));
                    c
                } else {
                    0
                }
            },
        }
    } else {
        next
    }
}

proof fn lemma_numbered_renders(ins: Seq<Instruction>, k: int, names: Names, c1: int)
    requires
        0 <= k <= ins.len(),
        numbered(ins.subrange(k, ins.len() as int), names.len() as int, c1),
    ensures
        instrs_code(ins, k, names) is Some,
    decreases ins.len() - k,
{
    if k < ins.len() {
        let rest = ins.subrange(k, ins.len() as int);
        assert(rest[0] == ins[k]);
        assert(rest.drop_first() =~= ins.subrange(k + 1, ins.len() as int));
        let c0 = names.len() as int;
        match instr_code(ins[k], names) {
            Some((t, n)) => {
                let dest_defined = match ins[k] {
                    Instruction::Return { .. } => false,
                    _ => true,
                };
                if dest_defined {
                    assert(n.len() == c0 + 1);
                } else {
                    assert(n == names);
                }
                lemma_numbered_renders(ins, k + 1, n, c1);
            },
            None => {
                assert(false);
            },
        }
    }
}

/// Lowered code can always be rendered: every instruction that lowering emits reads
/// only values defined before it, so `generate_rust` accepts every lowered module.
pub proof fn lemma_lowered_renderable(items: Seq<ItemView>)
    requires
        fits_value_ids(items),
    ensures
        spec_lower_items(items, 0, Seq::empty()) matches Ok(fs) ==> renderable(fs),
{
    lemma_lower_items_renderable(items, 0, Seq::empty());
}

proof fn lemma_lower_items_renderable(items: Seq<ItemView>, i: int, acc: Seq<IRFunctionView>)
    requires
        fits_value_ids(items),
        renderable(acc),
    ensures
        spec_lower_items(items, i, acc) matches Ok(fs) ==> renderable(fs),
    decreases items.len() - i,
{
    if 0 <= i < items.len() {
        match items[i] {
            ItemView::Function(f) => {
                assert(stmts_nodes(f.body, 0) < usize::MAX);
                assert(numbered(Seq::<Instruction>::empty(), 0, 0));
                let c = lemma_lower_stmts_numbered(f.body, 0, Seq::empty(), 0);
                if let Ok(ins) = spec_lower_stmts(f.body, 0, Seq::empty(), 0) {
                    assert(ins.subrange(0, ins.len() as int) =~= ins);
                    lemma_numbered_renders(ins, 0, Seq::empty(), c);
                    let g = spec_lower_function(f).unwrap();
                    assert(g.blocks[0] == ins);
                    let (t, n) = instrs_code(ins, 0, Seq::empty()).unwrap();
                    assert(blocks_code(g.blocks, 1, n) is Some);
                    assert(blocks_code(g.blocks, 0, Seq::empty()) is Some);
                    assert(function_code(g) is Some);
                    assert forall|j: int| 0 <= j < acc.push(g).len() implies (#[trigger] function_code(acc.push(g)[j])) is Some by {
                        if j < acc.len() {
                            assert(acc.push(g)[j] == acc[j]);
                        }
                    }
                    lemma_lower_items_renderable(items, i + 1, acc.push(g));
                }
            },
        }
    }
}

/// Lowering `left op right` lowers `left`, then `right`, and ends with one
/// instruction of the operation `op` (`Add`, `Sub`, `Mul` or `Div` for
/// `+`, `-`, `*`, `/`) into a fresh value, whose left operand is the value
/// holding `left` and whose right operand is the value holding `right`.
pub proof fn lemma_binary_lowered_in_order(left: ExprView, op: BinOp, right: ExprView, next: int)
    requires
        spec_lower_expr(left, next) is Ok,
        spec_lower_expr(right, spec_lower_expr(left, next)->Ok_0.2) is Ok,
    ensures
        ({
            let (il, lv, n1) = spec_lower_expr(left, next)->Ok_0;
            let (ir, rv, n2) = spec_lower_expr(right, n1)->Ok_0;
            let d = n2 as usize;
            let (l, r) = (lv as usize, rv as usize);
            let e = ExprView::Binary { left: Box::new(left), op, right: Box::new(right) };
            &&& op == BinOp::Add ==> spec_lower_expr(e, next) == Ok::<_, CompileError>((il + ir + seq![Instruction::Add { dest: d, lhs: l, rhs: r }], n2, n2 + 1))
            &&& op == BinOp::Sub ==> spec_lower_expr(e, next) == Ok::<_, CompileError>((il + ir + seq![Instruction::Sub { dest: d, lhs: l, rhs: r }], n2, n2 + 1))
            &&& op == BinOp::Mul ==> spec_lower_expr(e, next) == Ok::<_, CompileError>((il + ir + seq![Instruction::Mul { dest: d, lhs: l, rhs: r }], n2, n2 + 1))
            &&& op == BinOp::Div ==> spec_lower_expr(e, next) == Ok::<_, CompileError>((il + ir + seq![Instruction::Div { dest: d, lhs: l, rhs: r }], n2, n2 + 1))
        }),
{
}

/// What an arithmetic expression of integer literals means: `+`, `-`, `*`
/// on integers, and `/` rounded toward zero (other expressions are not
/// lowered).
pub open spec fn expr_value(e: ExprView) -> int
    decreases e,
{
    match e {
        ExprView::Int(v) => v as int,
        ExprView::Binary { left, op, right } => match op {
            BinOp::Add => expr_value(*left) + expr_value(*right),
            BinOp::Sub => expr_value(*left) - expr_value(*right),
            BinOp::Mul => expr_value(*left) * expr_value(*right),
            BinOp::Div => quotient_toward_zero(expr_value(*left), expr_value(*right)),
            _ => 0,
        },
        _ => 0,
    }
}

/// The values after one instruction runs on the values `env` (a value
/// number to its integer): the destination gets the constant, or the
/// operation of the instruction applied to its left and right operands.
pub open spec fn ir_step(env: spec_fn(int) -> int, ins: Instruction) -> spec_fn(int) -> int {
    match ins {
        Instruction::ConstInt { dest, value } => |k: int| if k == dest as int { value as int } else { env(k) },
        Instruction::Add { dest, lhs, rhs } => |k: int| if k == dest as int { env(lhs as int) + env(rhs as int) } else { env(k) },
        Instruction::Sub { dest, lhs, rhs } => |k: int| if k == dest as int { env(lhs as int) - env(rhs as int) } else { env(k) },
        Instruction::Mul { dest, lhs, rhs } => |k: int| if k == dest as int { env(lhs as int) * env(rhs as int) } else { env(k) },
        Instruction::Div { dest, lhs, rhs } => |k: int| if k == dest as int {
            quotient_toward_zero(env(lhs as int), env(rhs as int))
        } else {
            env(k)
        },
        Instruction::Return { .. } => env,
    }
}

/// The values after the instructions run in order on `env`.
pub open spec fn run_ir(ins: Seq<Instruction>, env: spec_fn(int) -> int) -> spec_fn(int) -> int
    decreases ins.len(),
{
    if ins.len() == 0 {
        env
    } else {
        ir_step(run_ir(ins.drop_last(), env), ins.last())
    }
}

proof fn lemma_run_ir_append(a: Seq<Instruction>, b: Seq<Instruction>, env: spec_fn(int) -> int)
    ensures
        run_ir(a + b, env) == run_ir(b, run_ir(a, env)),
    decreases b.len(),
{
    if b.len() == 0 {
        assert(a + b =~= a);
    } else {
        assert((a + b).drop_last() =~= a + b.drop_last());
        assert((a + b).last() == b.last());
        lemma_run_ir_append(a, b.drop_last(), env);
    }
}

proof fn lemma_lower_numbers(e: ExprView, next: int)
    requires
        spec_lower_expr(e, next) is Ok,
    ensures
        next <= spec_lower_expr(e, next)->Ok_0.1,
        spec_lower_expr(e, next)->Ok_0.2 == spec_lower_expr(e, next)->Ok_0.1 + 1,
    decreases e,
{
    if let ExprView::Binary { left, op, right } = e {
        lemma_lower_numbers(*left, next);
        lemma_lower_numbers(*right, spec_lower_expr(*left, next)->Ok_0.2);
    }
}

/// Lowering computes the expression: running the instructions that lowering
/// `e` from the value number `next` emits, on any values, leaves in the value
/// it names what `e` means, and leaves every value numbered below `next` as
/// it was. That value is the last one the lowering takes.
pub proof fn lemma_lowering_computes(e: ExprView, next: int, env: spec_fn(int) -> int)
    requires
        0 <= next,
        spec_lower_expr(e, next) is Ok,
        spec_lower_expr(e, next)->Ok_0.2 <= usize::MAX,
    ensures
        ({
            let (ins, v, n) = spec_lower_expr(e, next)->Ok_0;
            &&& next <= v
            &&& n == v + 1
            &&& run_ir(ins, env)(v) == expr_value(e)
            &&& forall|k: int| k < next ==> #[trigger] run_ir(ins, env)(k) == env(k)
        }),
    decreases e,
{
    match e {
        ExprView::Int(val) => {
            let ins = seq![Instruction::ConstInt { dest: next as usize, value: val }];
            assert(ins.drop_last() =~= Seq::<Instruction>::empty());
            assert((next as usize) as int == next);
            assert(run_ir(ins.drop_last(), env) == env);
            assert(ins.last() == ins[0]);
        },
        ExprView::Binary { left, op, right } => {
            let (il, lv, n1) = spec_lower_expr(*left, next)->Ok_0;
            let (ir, rv, n2) = spec_lower_expr(*right, n1)->Ok_0;
            lemma_lower_numbers(*left, next);
            lemma_lower_numbers(*right, n1);
            lemma_lowering_computes(*left, next, env);
            let env1 = run_ir(il, env);
            lemma_lowering_computes(*right, n1, env1);
            let env2 = run_ir(ir, env1);
            let ins = binary_instr(op, n2 as usize, lv as usize, rv as usize).unwrap();
            lemma_run_ir_append(il, ir, env);
            let all = il + ir + seq![ins];
            assert(all.drop_last() =~= il + ir);
            assert(env2(lv) == expr_value(*left));
        },
        _ => {},
    }
}

} // verus!
