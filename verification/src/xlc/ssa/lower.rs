//! Lowering of a syntax-tree function to SSA form: everything goes into the
//! entry block.

use vstd::prelude::*;

use super::{BasicBlock, BlockId, Function as SSAFunc, Terminator, Value, ValueId, ValueKind};
use crate::xlc::ast::{BinaryOp, Expr, ExprView, Function, Stmt, StmtView};
use crate::xlc::symbol_table::{SymbolTable, scopes_get};

verus! {

/// The operation that a binary operator lowers to.
pub open spec fn op_kind(op: BinaryOp, l: ValueId, r: ValueId) -> ValueKind {
    match op {
        BinaryOp::Add => ValueKind::Add(l, r),
        BinaryOp::Sub => ValueKind::Sub(l, r),
        BinaryOp::Mul => ValueKind::Mul(l, r),
        BinaryOp::Div => ValueKind::Div(l, r),
    }
}

/// The state of lowering: the values made so far, the ids listed in the entry
/// block, and the next value id.
pub struct LowerState {
    pub vals: Seq<Value>,
    pub block: Seq<ValueId>,
    pub next: int,
}

/// A new value of kind `kind` in state `s`, listed in the block or not.
pub open spec fn add_value(s: LowerState, kind: ValueKind, listed: bool) -> LowerState {
    let id = ValueId(s.next as u32);
    LowerState {
        vals: s.vals.push(Value { id, kind }),
        block: if listed { s.block.push(id) } else { s.block },
        next: s.next + 1,
    }
}

/// Lowering `e` with the variables `env`: the state afterwards and the id of
/// the value of `e`. A literal integer becomes a constant; an identifier makes
/// a constant 0 that is not listed in the block and stands for itself where
/// the identifier is not bound; a binary expression lowers its sides, then
/// the operation; anything else becomes a constant 0.
pub open spec fn lower_e(e: ExprView, env: Map<Seq<char>, ValueId>, s: LowerState) -> (LowerState, ValueId)
    decreases e,
{
    match e {
        ExprView::Int(v) => (add_value(s, ValueKind::Const(v), true), ValueId(s.next as u32)),
        ExprView::Ident(n) => (
            add_value(s, ValueKind::Const(0), false),
            if env.contains_key(n) {
                env[n]
            } else {
                ValueId(s.next as u32)
            },
        ),
        ExprView::Binary { op, left, right } => {
            let (s1, l) = lower_e(*left, env, s);
            let (s2, r) = lower_e(*right, env, s1);
            (add_value(s2, op_kind(op, l, r), true), ValueId(s2.next as u32))
        },
        _ => (add_value(s, ValueKind::Const(0), true), ValueId(s.next as u32)),
    }
}

/// The number of values that lowering `e` makes.
pub open spec fn expr_cost(e: ExprView) -> nat
    decreases e,
{
    match e {
        ExprView::Binary { left, right, .. } => expr_cost(*left) + expr_cost(*right) + 1,
        _ => 1,
    }
}

/// The number of values that lowering the statements makes.
pub open spec fn stmts_cost(stmts: Seq<StmtView>) -> nat
    decreases stmts.len(),
{
    if stmts.len() == 0 {
        0
    } else {
        stmts_cost(stmts.drop_last()) + match stmts.last() {
            StmtView::Let { value, .. } => expr_cost(value),
            StmtView::Return(e) => expr_cost(e),
            StmtView::Expr(e) => expr_cost(e),
        }
    }
}

/// Lowering statements from index `i` on, with the variables `env` and the
/// entry block's terminator so far: the final state and terminator.
pub open spec fn lower_stmts(stmts: Seq<StmtView>, i: int, env: Map<Seq<char>, ValueId>, s: LowerState, term: Terminator) -> (LowerState, Terminator)
    decreases stmts.len() - i,
{
    if i < 0 || i >= stmts.len() {
        (s, term)
    } else {
        match stmts[i] {
            StmtView::Let { name, value, .. } => {
                let (s1, v) = lower_e(value, env, s);
                lower_stmts(stmts, i + 1, env.insert(name, v), s1, term)
            },
            StmtView::Expr(e) => {
                let (s1, _) = lower_e(e, env, s);
                lower_stmts(stmts, i + 1, env, s1, term)
            },
            StmtView::Return(e) => {
                let (s1, v) = lower_e(e, env, s);
                lower_stmts(stmts, i + 1, env, s1, Terminator::Ret(v))
            },
        }
    }
}

proof fn lemma_lower_e_cost(e: ExprView, env: Map<Seq<char>, ValueId>, s: LowerState)
    ensures
        lower_e(e, env, s).0.next == s.next + expr_cost(e),
    decreases e,
{
    match e {
        ExprView::Binary { left, right, .. } => {
            lemma_lower_e_cost(*left, env, s);
            lemma_lower_e_cost(*right, env, lower_e(*left, env, s).0);
        },
        _ => {},
    }
}

proof fn lemma_stmts_cost_prefix(stmts: Seq<StmtView>, i: int)
    requires
        0 <= i <= stmts.len(),
    ensures
        stmts_cost(stmts.take(i)) <= stmts_cost(stmts),
    decreases stmts.len(),
{
    if i < stmts.len() {
        lemma_stmts_cost_prefix(stmts.drop_last(), i);
        assert(stmts.drop_last().take(i) =~= stmts.take(i));
    } else {
        assert(stmts.take(i) =~= stmts);
    }
}

fn lower_expr(expr: &Expr, ssa: &mut SSAFunc, bb: &mut Vec<ValueId>, env: &SymbolTable<ValueId>) -> (id: ValueId)
    requires
        env@.len() == 1,
        old(ssa).next_val + expr_cost(expr@) <= u32::MAX,
    ensures
        ({
            let (s, v) = lower_e(
                expr@,
                env@[0],
                LowerState { vals: old(ssa).values@, block: old(bb)@, next: old(ssa).next_val as int },
            );
            &&& final(ssa).values@ == s.vals
            &&& final(bb)@ == s.block
            &&& final(ssa).next_val == s.next
            &&& id == v
        }),
        final(ssa).name == old(ssa).name,
        final(ssa).blocks == old(ssa).blocks,
        final(ssa).entry == old(ssa).entry,
        final(ssa).next_bb == old(ssa).next_bb,
        old(ssa).wf() ==> final(ssa).wf(),
    decreases expr,
{
    match expr {
        Expr::Int(v) => {
            let id = ssa.new_value(ValueKind::Const(*v));
            bb.push(id);
            id
        },
        Expr::Ident(name) => {
            let fresh = ssa.new_value(ValueKind::Const(0));
            let key = name.as_str();
            proof {
                assert(key@ == name@);
                assert(env@.last() == env@[0]);
                assert(env@.drop_last().len() == 0);
                assert(scopes_get(env@.drop_last(), name@) is None);
            }
            match env.get(key) {
                Some(v) => {
                    proof {
                        assert(env@[0].contains_key(name@));
                        let w = env@[0][name@];
                        let vv = v;
                        assert(vstd::pervasive::strictly_cloned(w, vv) ==> vv == w);
                    }
                    v
                },
                None => fresh,
            }
        },
        Expr::Binary { op, left, right } => {
            proof {
                lemma_lower_e_cost(left@, env@[0], LowerState { vals: ssa.values@, block: bb@, next: ssa.next_val as int });
            }
            let l = lower_expr(&**left, ssa, bb, env);
            proof {
                lemma_lower_e_cost(right@, env@[0], LowerState { vals: ssa.values@, block: bb@, next: ssa.next_val as int });
            }
            let r = lower_expr(&**right, ssa, bb, env);
            let kind = match op {
                BinaryOp::Add => ValueKind::Add(l, r),
                BinaryOp::Sub => ValueKind::Sub(l, r),
                BinaryOp::Mul => ValueKind::Mul(l, r),
                BinaryOp::Div => ValueKind::Div(l, r),
            };
            let id = ssa.new_value(kind);
            bb.push(id);
            id
        },
        _ => {
            let id = ssa.new_value(ValueKind::Const(0));
            bb.push(id);
            id
        },
    }
}

/// Lowers `ast_fn` into one entry block: each statement's expression is
/// lowered in order, a `let` binds its name to the value, and a `return` makes
/// its value the one the block returns (value 0 where there is none).
pub fn lower_function(ast_fn: &Function) -> (f: SSAFunc)
    requires
        stmts_cost(ast_fn@.body) <= u32::MAX,
    ensures
        ({
            let (s, term) = lower_stmts(
                ast_fn@.body,
                0,
                Map::empty(),
                LowerState { vals: Seq::empty(), block: Seq::empty(), next: 0 },
                Terminator::Ret(ValueId(0)),
            );
            &&& f.name@ == ast_fn.name@
            &&& f.entry == BlockId(0)
            &&& f.blocks@.len() == 1
            &&& f.blocks@[0].id == BlockId(0)
            &&& f.blocks@[0].values@ == s.block
            &&& f.blocks@[0].terminator == term
            &&& f.values@ == s.vals
            &&& f.next_val == s.next
            &&& f.next_bb == 1
        }),
        f.wf(),
{
    let mut ssa = SSAFunc::new(ast_fn.name.clone());
    let entry_id = ssa.entry;
    let mut bb: Vec<ValueId> = Vec::new();
    let mut term = Terminator::Ret(ValueId(0));
    let mut env: SymbolTable<ValueId> = SymbolTable::new();
    let ghost stmts = ast_fn@.body;
    let mut i: usize = 0;
    proof {
        assert(env@[0] == Map::<Seq<char>, ValueId>::empty());
        assert(ssa.values@ =~= Seq::<Value>::empty());
        assert(bb@ =~= Seq::<ValueId>::empty());
        assert(stmts.take(0) =~= Seq::<StmtView>::empty());
    }
    while i < ast_fn.body.stmts.len()
        invariant
            i <= ast_fn.body.stmts@.len(),
            stmts == ast_fn@.body,
            stmts.len() == ast_fn.body.stmts@.len(),
            stmts_cost(stmts) <= u32::MAX,
            env@.len() == 1,
            ssa.next_val == stmts_cost(stmts.take(i as int)),
            ssa.name@ == ast_fn.name@,
            ssa.entry == BlockId(0),
            ssa.blocks@.len() == 0,
            ssa.next_bb == 1,
            ssa.wf(),
            lower_stmts(stmts, 0, Map::empty(), LowerState { vals: Seq::empty(), block: Seq::empty(), next: 0 }, Terminator::Ret(ValueId(0)))
                == lower_stmts(stmts, i as int, env@[0], LowerState { vals: ssa.values@, block: bb@, next: ssa.next_val as int }, term),
        decreases ast_fn.body.stmts@.len() - i,
    {
        assert(stmts[i as int] == ast_fn.body.stmts@[i as int]@);
        proof {
            lemma_stmts_cost_prefix(stmts, i + 1);
            assert(stmts.take(i + 1).drop_last() =~= stmts.take(i as int));
        }
        let ghost st = LowerState { vals: ssa.values@, block: bb@, next: ssa.next_val as int };
        match &ast_fn.body.stmts[i] {
            Stmt::Let { name, value, .. } => {
                proof {
                    lemma_lower_e_cost(value@, env@[0], st);
                }
                let val_id = lower_expr(value, &mut ssa, &mut bb, &env);
                env.insert(name.clone(), val_id);
            },
            Stmt::Expr(e) => {
                proof {
                    lemma_lower_e_cost(e@, env@[0], st);
                }
                lower_expr(e, &mut ssa, &mut bb, &env);
            },
            Stmt::Return(e) => {
                proof {
                    lemma_lower_e_cost(e@, env@[0], st);
                }
                let v = lower_expr(e, &mut ssa, &mut bb, &env);
                term = Terminator::Ret(v);
            },
        }
        i += 1;
    }
    ssa.blocks.push(BasicBlock { id: entry_id, values: bb, terminator: term });
    ssa
}

} // verus!
