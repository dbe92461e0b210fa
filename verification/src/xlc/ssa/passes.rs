//! Constant folding and removal of dead values.

use vstd::prelude::*;

use super::{BasicBlock, BlockId, Function, SSAPass, Terminator, Value, ValueId, ValueKind, listed_ids, nonconst_count, values_wf};

pub mod mem2reg;

verus! {

/// The index of the first value with id `id`, or -1 where there is none.
pub open spec fn value_index(vals: Seq<Value>, id: ValueId) -> int
    decreases vals.len(),
{
    if vals.len() == 0 {
        -1
    } else if vals[0].id == id {
        0
    } else {
        let r = value_index(vals.drop_first(), id);
        if r < 0 {
            -1
        } else {
            r + 1
        }
    }
}

proof fn lemma_value_index(vals: Seq<Value>, id: ValueId)
    ensures
        -1 <= value_index(vals, id) < vals.len(),
        value_index(vals, id) >= 0 ==> vals[value_index(vals, id)].id == id,
        value_index(vals, id) >= 0 ==> forall|j: int| 0 <= j < value_index(vals, id) ==> vals[j].id != id,
        value_index(vals, id) < 0 ==> forall|j: int| 0 <= j < vals.len() ==> vals[j].id != id,
    decreases vals.len(),
{
    if vals.len() > 0 && vals[0].id != id {
        lemma_value_index(vals.drop_first(), id);
        let r = value_index(vals.drop_first(), id);
        assert forall|j: int| 0 < j < vals.len() implies vals[j] == vals.drop_first()[j - 1] by {}
    }
}

/// The constant that the value `id` holds, if it is a constant.
pub open spec fn const_of(vals: Seq<Value>, id: ValueId) -> Option<i64> {
    let i = value_index(vals, id);
    if i >= 0 && vals[i].kind is Const {
        Some(vals[i].kind->Const_0)
    } else {
        None
    }
}

/// The constant that the operation `id` folds to: both operands constants and
/// the result in range (and no division by zero).
pub open spec fn fold_of(vals: Seq<Value>, id: ValueId) -> Option<i64> {
    let i = value_index(vals, id);
    if i < 0 {
        None
    } else {
        match vals[i].kind {
            ValueKind::Add(a, b) => match (const_of(vals, a), const_of(vals, b)) {
                (Some(x), Some(y)) => x.checked_add(y),
                _ => None,
            },
            ValueKind::Sub(a, b) => match (const_of(vals, a), const_of(vals, b)) {
                (Some(x), Some(y)) => x.checked_sub(y),
                _ => None,
            },
            ValueKind::Mul(a, b) => match (const_of(vals, a), const_of(vals, b)) {
                (Some(x), Some(y)) => x.checked_mul(y),
                _ => None,
            },
            ValueKind::Div(a, b) => match (const_of(vals, a), const_of(vals, b)) {
                (Some(x), Some(y)) => x.checked_div(y),
                _ => None,
            },
            _ => None,
        }
    }
}

/// Folding keeps the number of values and the id at each place.
proof fn lemma_fold_steps_ids(vals: Seq<Value>, ids: Seq<ValueId>)
    ensures
        fold_steps(vals, ids).0.len() == vals.len(),
        forall|i: int| 0 <= i < vals.len() ==> #[trigger] fold_steps(vals, ids).0[i].id == vals[i].id,
    decreases ids.len(),
{
    if ids.len() > 0 {
        lemma_fold_steps_ids(vals, ids.drop_last());
        let v1 = fold_steps(vals, ids.drop_last()).0;
        lemma_value_index(v1, ids.last());
    }
}

/// Values with the same ids, place by place, are as well-formed as each other.
proof fn lemma_same_ids_wf(a: Seq<Value>, b: Seq<Value>, next: u32)
    requires
        a.len() == b.len(),
        forall|i: int| 0 <= i < a.len() ==> #[trigger] b[i].id == a[i].id,
    ensures
        values_wf(a, next) ==> values_wf(b, next),
{
    if values_wf(a, next) {
        assert forall|i: int, j: int| 0 <= i < j < b.len() implies #[trigger] b[i].id != #[trigger] b[j].id by {
            assert(a[i].id != a[j].id);
        }
        assert forall|i: int| 0 <= i < b.len() implies (#[trigger] b[i]).id.0 < next by {
            assert(a[i].id.0 < next);
        }
    }
}

/// One folding step at the value `id`: the values afterwards, and whether it
/// folded.
pub open spec fn fold_step(vals: Seq<Value>, id: ValueId) -> (Seq<Value>, bool) {
    match fold_of(vals, id) {
        Some(c) => (vals.update(value_index(vals, id), Value { id, kind: ValueKind::Const(c) }), true),
        None => (vals, false),
    }
}

/// Folding steps at `ids`, in order: the values afterwards, and whether any
/// step folded.
pub open spec fn fold_steps(vals: Seq<Value>, ids: Seq<ValueId>) -> (Seq<Value>, bool)
    decreases ids.len(),
{
    if ids.len() == 0 {
        (vals, false)
    } else {
        let (v1, c1) = fold_steps(vals, ids.drop_last());
        let (v2, c2) = fold_step(v1, ids.last());
        (v2, c1 || c2)
    }
}

/// The value ids listed in the blocks, block after block.
pub open spec fn block_ids(blocks: Seq<BasicBlock>) -> Seq<ValueId>
    decreases blocks.len(),
{
    if blocks.len() == 0 {
        Seq::empty()
    } else {
        block_ids(blocks.drop_last()) + blocks.last().values@
    }
}

proof fn lemma_const_update_count(vals: Seq<Value>, i: int, v: Value)
    requires
        0 <= i < vals.len(),
        !(vals[i].kind is Const),
        v.kind is Const,
    ensures
        nonconst_count(vals.update(i, v)) + 1 == nonconst_count(vals),
    decreases vals.len(),
{
    let u = vals.update(i, v);
    if i == vals.len() - 1 {
        assert(u.drop_last() =~= vals.drop_last());
    } else {
        lemma_const_update_count(vals.drop_last(), i, v);
        assert(u.drop_last() =~= vals.drop_last().update(i, v));
    }
}

/// The constant held by the value `id`, if it is a constant.
pub fn const_int(func: &Function, id: ValueId) -> (r: Option<i64>)
    ensures
        r == const_of(func.values@, id),
{
    match find_value(func, id) {
        None => None,
        Some(i) => match &func.values[i].kind {
            ValueKind::Const(c) => Some(*c),
            _ => None,
        },
    }
}

fn find_value(func: &Function, id: ValueId) -> (r: Option<usize>)
    ensures
        match r {
            Some(i) => i == value_index(func.values@, id) && i < func.values@.len(),
            None => value_index(func.values@, id) < 0,
        },
{
    proof {
        lemma_value_index(func.values@, id);
    }
    let mut i: usize = 0;
    while i < func.values.len()
        invariant
            i <= func.values@.len(),
            forall|j: int| 0 <= j < i ==> func.values@[j].id != id,
        decreases func.values@.len() - i,
    {
        if func.values[i].id == id {
            proof {
                lemma_value_index(func.values@, id);
            }
            return Some(i);
        }
        i += 1;
    }
    None
}

/// Folds binary operations on two constants into constants, value by value in
/// the order in which the blocks list them. An operation whose result would
/// not fit, or that divides by zero, stays as it is.
pub struct ConstPropPass;

impl ConstPropPass {
    /// The folding pass as the trait's `run` performs it, with its exact effect.
    pub fn fold(func: &mut Function) -> (changed: bool)
        ensures
            (final(func).values@, changed) == fold_steps(old(func).values@, block_ids(old(func).blocks@)),
            final(func).blocks == old(func).blocks,
            final(func).name == old(func).name,
            final(func).entry == old(func).entry,
            final(func).next_value_id() == old(func).next_value_id(),
            final(func).next_block_id() == old(func).next_block_id(),
            nonconst_count(final(func).values@) + (if changed { 1int } else { 0int }) <= nonconst_count(old(func).values@),
            final(func).values@.len() == old(func).values@.len(),
    {
        let ghost orig = func.values@;
        let ghost blocks = func.blocks@;
        let mut changed = false;
        let mut b: usize = 0;
        while b < func.blocks.len()
            invariant
                b <= blocks.len(),
                func.blocks@ == blocks,
                func.blocks == old(func).blocks,
                func.name == old(func).name,
                func.entry == old(func).entry,
                func.next_value_id() == old(func).next_value_id(),
                func.next_block_id() == old(func).next_block_id(),
                orig == old(func).values@,
                func.values@.len() == orig.len(),
                (func.values@, changed) == fold_steps(orig, block_ids(blocks.take(b as int))),
                nonconst_count(func.values@) + (if changed { 1int } else { 0int }) <= nonconst_count(orig),
            decreases blocks.len() - b,
        {
            let ghost prefix = block_ids(blocks.take(b as int));
            let mut k: usize = 0;
            proof {
                assert(prefix + blocks[b as int].values@.take(0) =~= prefix);
            }
            while k < func.blocks[b].values.len()
                invariant
                    b < blocks.len(),
                    k <= blocks[b as int].values@.len(),
                    func.blocks@ == blocks,
                    func.blocks == old(func).blocks,
                    func.name == old(func).name,
                    func.entry == old(func).entry,
                    func.next_value_id() == old(func).next_value_id(),
                    func.next_block_id() == old(func).next_block_id(),
                    func.values@.len() == orig.len(),
                        prefix == block_ids(blocks.take(b as int)),
                    (func.values@, changed) == fold_steps(orig, prefix + blocks[b as int].values@.take(k as int)),
                    nonconst_count(func.values@) + (if changed { 1int } else { 0int }) <= nonconst_count(orig),
                decreases blocks[b as int].values@.len() - k,
            {
                let val_id = func.blocks[b].values[k];
                let ghost ids = prefix + blocks[b as int].values@.take(k + 1);
                proof {
                    assert(ids.drop_last() =~= prefix + blocks[b as int].values@.take(k as int));
                    assert(ids.last() == val_id);
                }
                let folded = fold_at(func, val_id);
                if folded {
                    changed = true;
                }
                k += 1;
            }
            proof {
                assert(blocks[b as int].values@.take(k as int) =~= blocks[b as int].values@);
                assert(blocks.take(b + 1).drop_last() =~= blocks.take(b as int));
            }
            b += 1;
        }
        proof {
            assert(blocks.take(b as int) =~= blocks);
        }
        changed
    }
}

/// One folding step at the value `val_id`.
fn fold_at(func: &mut Function, val_id: ValueId) -> (folded: bool)
    ensures
        (final(func).values@, folded) == fold_step(old(func).values@, val_id),
        final(func).blocks == old(func).blocks,
        final(func).name == old(func).name,
        final(func).entry == old(func).entry,
        final(func).next_value_id() == old(func).next_value_id(),
        final(func).next_block_id() == old(func).next_block_id(),
        final(func).values@.len() == old(func).values@.len(),
        folded ==> nonconst_count(final(func).values@) + 1 == nonconst_count(old(func).values@),
{
    proof {
        lemma_value_index(func.values@, val_id);
    }
    let iu = match find_value(func, val_id) {
        Some(i) => i,
        None => {
            return false;
        },
    };
    let (a, b, op): (ValueId, ValueId, u8) = match &func.values[iu].kind {
        ValueKind::Add(a, b) => (*a, *b, 0),
        ValueKind::Sub(a, b) => (*a, *b, 1),
        ValueKind::Mul(a, b) => (*a, *b, 2),
        ValueKind::Div(a, b) => (*a, *b, 3),
        _ => {
            return false;
        },
    };
    let va = match const_int(func, a) {
        Some(v) => v,
        None => {
            return false;
        },
    };
    let vb = match const_int(func, b) {
        Some(v) => v,
        None => {
            return false;
        },
    };
    let res = if op == 0 {
        va.checked_add(vb)
    } else if op == 1 {
        va.checked_sub(vb)
    } else if op == 2 {
        va.checked_mul(vb)
    } else {
        va.checked_div(vb)
    };
    match res {
        Some(c) => {
            let ghost before = func.values@;
            func.values.set(iu, Value { id: val_id, kind: ValueKind::Const(c) });
            proof {
                lemma_const_update_count(before, iu as int, Value { id: val_id, kind: ValueKind::Const(c) });
            }
            true
        },
        None => false,
    }
}

impl SSAPass for ConstPropPass {
    open spec fn label(&self) -> Seq<char> {
        "constprop"@
    }

    /// The values are folded as `fold_steps` says, and nothing else changes.
    open spec fn transforms(&self, before: Function, after: Function, changed: bool) -> bool {
        &&& (after.values@, changed) == fold_steps(before.values@, block_ids(before.blocks@))
        &&& after.blocks == before.blocks
        &&& after.name == before.name
        &&& after.entry == before.entry
        &&& after.next_value_id() == before.next_value_id()
        &&& after.next_block_id() == before.next_block_id()
    }

    fn name(&self) -> (r: &'static str)
        ensures
            r@ == "constprop"@,
    {
        "constprop"
    }

    fn run(&self, func: &mut Function) -> (changed: bool)
        ensures
            (final(func).values@, changed) == fold_steps(old(func).values@, block_ids(old(func).blocks@)),
    {
        let ghost before = func.values@;
        let changed = ConstPropPass::fold(func);
        proof {
            lemma_fold_steps_ids(before, block_ids(old(func).blocks@));
            lemma_same_ids_wf(before, func.values@, func.next_val);
        }
        changed
    }
}

// ---------------------------------------------------------------------------
// Dead values

/// Whether a terminator reads the value `id`.
pub open spec fn term_uses(t: Terminator, id: ValueId) -> bool {
    match t {
        Terminator::Ret(v) => v == id,
        Terminator::Br(_) => false,
        Terminator::CondBr { cond, .. } => cond == id,
    }
}

/// Whether some block's terminator reads the value `id`.
pub open spec fn is_used(blocks: Seq<BasicBlock>, id: ValueId) -> bool {
    exists|b: int| 0 <= b < blocks.len() && #[trigger] term_uses(blocks[b].terminator, id)
}

/// The values that some terminator reads, in their order.
pub open spec fn live_values(vals: Seq<Value>, blocks: Seq<BasicBlock>) -> Seq<Value>
    decreases vals.len(),
{
    if vals.len() == 0 {
        Seq::empty()
    } else if is_used(blocks, vals.last().id) {
        live_values(vals.drop_last(), blocks).push(vals.last())
    } else {
        live_values(vals.drop_last(), blocks)
    }
}

/// The ids that some terminator reads, in their order.
pub open spec fn live_ids(ids: Seq<ValueId>, blocks: Seq<BasicBlock>) -> Seq<ValueId>
    decreases ids.len(),
{
    if ids.len() == 0 {
        Seq::empty()
    } else if is_used(blocks, ids.last()) {
        live_ids(ids.drop_last(), blocks).push(ids.last())
    } else {
        live_ids(ids.drop_last(), blocks)
    }
}

proof fn lemma_live_ids_len(ids: Seq<ValueId>, blocks: Seq<BasicBlock>)
    ensures
        live_ids(ids, blocks).len() <= ids.len(),
        live_ids(ids, blocks).len() == ids.len() <==> live_ids(ids, blocks) == ids,
    decreases ids.len(),
{
    if ids.len() > 0 {
        lemma_live_ids_len(ids.drop_last(), blocks);
        if live_ids(ids, blocks).len() == ids.len() {
            assert(is_used(blocks, ids.last()));
            assert(live_ids(ids.drop_last(), blocks) == ids.drop_last());
            assert(live_ids(ids, blocks) =~= ids);
        }
    } else {
        assert(live_ids(ids, blocks) =~= ids);
    }
}

proof fn lemma_live_values_len(vals: Seq<Value>, blocks: Seq<BasicBlock>)
    ensures
        live_values(vals, blocks).len() <= vals.len(),
        live_values(vals, blocks).len() == vals.len() <==> live_values(vals, blocks) == vals,
    decreases vals.len(),
{
    if vals.len() > 0 {
        lemma_live_values_len(vals.drop_last(), blocks);
        if live_values(vals, blocks).len() == vals.len() {
            assert(is_used(blocks, vals.last().id));
            assert(live_values(vals.drop_last(), blocks) == vals.drop_last());
            assert(live_values(vals, blocks) =~= vals);
        }
    } else {
        assert(live_values(vals, blocks) =~= vals);
    }
}

/// The live values are some of the values, so they keep each an id of its own.
proof fn lemma_live_values_wf(vals: Seq<Value>, blocks: Seq<BasicBlock>, next: u32)
    requires
        values_wf(vals, next),
    ensures
        values_wf(live_values(vals, blocks), next),
        forall|k: int| 0 <= k < live_values(vals, blocks).len() ==> vals.contains(#[trigger] live_values(vals, blocks)[k]),
    decreases vals.len(),
{
    if vals.len() > 0 {
        let d = vals.drop_last();
        let last = vals.last();
        assert forall|i: int, j: int| 0 <= i < j < d.len() implies #[trigger] d[i].id != #[trigger] d[j].id by {
            assert(d[i] == vals[i] && d[j] == vals[j]);
        }
        assert forall|i: int| 0 <= i < d.len() implies (#[trigger] d[i]).id.0 < next by {
            assert(d[i] == vals[i]);
        }
        lemma_live_values_wf(d, blocks, next);
        let ld = live_values(d, blocks);
        let l = live_values(vals, blocks);
        assert forall|k: int| 0 <= k < ld.len() implies vals.contains(#[trigger] ld[k]) && ld[k].id != last.id by {
            assert(d.contains(ld[k]));
            let m = choose|m: int| 0 <= m < d.len() && d[m] == ld[k];
            assert(vals[m] == ld[k]);
            assert(vals[m].id != vals[vals.len() - 1].id);
        }
        if is_used(blocks, last.id) {
            assert(l == ld.push(last));
            assert forall|i: int, j: int| 0 <= i < j < l.len() implies #[trigger] l[i].id != #[trigger] l[j].id by {
                assert(l[i] == ld[i]);
                if j < ld.len() {
                    assert(l[j] == ld[j]);
                } else {
                    assert(l[j] == last);
                }
            }
            assert forall|i: int| 0 <= i < l.len() implies (#[trigger] l[i]).id.0 < next by {
                if i < ld.len() {
                    assert(l[i] == ld[i]);
                    assert(vals.contains(ld[i]));
                } else {
                    assert(l[i] == vals[vals.len() - 1]);
                }
            }
            assert forall|k: int| 0 <= k < l.len() implies vals.contains(#[trigger] l[k]) by {
                if k < ld.len() {
                    assert(l[k] == ld[k]);
                } else {
                    assert(l[k] == vals[vals.len() - 1]);
                }
            }
        } else {
            assert(l == ld);
            assert forall|i: int| 0 <= i < l.len() implies (#[trigger] l[i]).id.0 < next by {
                assert(vals.contains(ld[i]));
            }
        }
    }
}

/// Keeps, of the values and of each block's list, only what some terminator
/// reads.
pub struct DcePass;

fn used_ids(func: &Function) -> (used: Vec<ValueId>)
    ensures
        forall|id: ValueId| used@.contains(id) <==> is_used(func.blocks@, id),
{
    let mut used: Vec<ValueId> = Vec::new();
    let mut b: usize = 0;
    while b < func.blocks.len()
        invariant
            b <= func.blocks@.len(),
            forall|id: ValueId| used@.contains(id) <==> exists|c: int| 0 <= c < b && #[trigger] term_uses(func.blocks@[c].terminator, id),
        decreases func.blocks@.len() - b,
    {
        let ghost before = used@;
        match func.blocks[b].terminator {
            Terminator::Ret(v) => used.push(v),
            Terminator::Br(_) => {},
            Terminator::CondBr { cond, .. } => used.push(cond),
        }
        proof {
            assert forall|id: ValueId| used@.contains(id) <==> exists|c: int| 0 <= c < b + 1 && #[trigger] term_uses(func.blocks@[c].terminator, id) by {
                if used@.contains(id) && !before.contains(id) {
                    assert(term_uses(func.blocks@[b as int].terminator, id));
                }
                if exists|c: int| 0 <= c < b + 1 && #[trigger] term_uses(func.blocks@[c].terminator, id) {
                    let c = choose|c: int| 0 <= c < b + 1 && #[trigger] term_uses(func.blocks@[c].terminator, id);
                    if c == b {
                        assert(used@.last() == id);
                        assert(used@.contains(id));
                    } else {
                        assert(before.contains(id));
                        let w = choose|w: int| 0 <= w < before.len() && before[w] == id;
                        assert(used@[w] == id);
                    }
                }
            }
        }
        b += 1;
    }
    used
}

fn contains_id(ids: &Vec<ValueId>, id: ValueId) -> (r: bool)
    ensures
        r == ids@.contains(id),
{
    let mut i: usize = 0;
    while i < ids.len()
        invariant
            i <= ids@.len(),
            forall|j: int| 0 <= j < i ==> ids@[j] != id,
        decreases ids@.len() - i,
    {
        if ids[i] == id {
            return true;
        }
        i += 1;
    }
    false
}

impl DcePass {
    /// The removal as the trait's `run` performs it, with its exact effect.
    pub fn sweep(func: &mut Function) -> (changed: bool)
        ensures
            final(func).values@ == live_values(old(func).values@, old(func).blocks@),
            final(func).blocks@.len() == old(func).blocks@.len(),
            forall|b: int| 0 <= b < old(func).blocks@.len() ==> {
                &&& (#[trigger] final(func).blocks@[b]).id == old(func).blocks@[b].id
                &&& final(func).blocks@[b].terminator == old(func).blocks@[b].terminator
                &&& final(func).blocks@[b].values@ == live_ids(old(func).blocks@[b].values@, old(func).blocks@)
            },
            final(func).name == old(func).name,
            final(func).entry == old(func).entry,
            final(func).next_value_id() == old(func).next_value_id(),
            final(func).next_block_id() == old(func).next_block_id(),
            changed == (final(func).values@ != old(func).values@
                || exists|b: int| 0 <= b < old(func).blocks@.len() && #[trigger] final(func).blocks@[b].values@ != old(func).blocks@[b].values@),
            final(func).measure() <= old(func).measure(),
            changed ==> final(func).measure() < old(func).measure(),
    {
        let used = used_ids(func);
        let ghost blocks = func.blocks@;
        let ghost orig_vals = func.values@;
        assert(blocks.len() == func.blocks.len());
        let mut old_blocks: Vec<BasicBlock> = Vec::new();
        std::mem::swap(&mut old_blocks, &mut func.blocks);
        let mut new_blocks: Vec<BasicBlock> = Vec::new();
        let mut b: usize = 0;
        let mut blocks_changed = false;
        proof {
            assert(blocks.skip(0) =~= blocks);
            assert(blocks.take(0) =~= Seq::<BasicBlock>::empty());
        }
        while old_blocks.len() > 0
            invariant
                b <= blocks.len(),
                blocks.len() <= usize::MAX,
                old_blocks@ == blocks.skip(b as int),
                new_blocks@.len() == b,
                forall|id: ValueId| used@.contains(id) <==> is_used(blocks, id),
                forall|c: int| 0 <= c < b ==> {
                    &&& (#[trigger] new_blocks@[c]).id == blocks[c].id
                    &&& new_blocks@[c].terminator == blocks[c].terminator
                    &&& new_blocks@[c].values@ == live_ids(blocks[c].values@, blocks)
                },
                listed_ids(new_blocks@) <= listed_ids(blocks.take(b as int)),
                blocks_changed == exists|c: int| 0 <= c < b && #[trigger] new_blocks@[c].values@ != blocks[c].values@,
                blocks_changed ==> listed_ids(new_blocks@) < listed_ids(blocks.take(b as int)),
            decreases old_blocks@.len(),
        {
            let blk = old_blocks.remove(0);
            assert(blk == blocks[b as int]);
            let BasicBlock { id, values, terminator } = blk;
            let mut kept: Vec<ValueId> = Vec::new();
            let mut k: usize = 0;
            while k < values.len()
                invariant
                    k <= values@.len(),
                    kept@ == live_ids(values@.take(k as int), blocks),
                    forall|id: ValueId| used@.contains(id) <==> is_used(blocks, id),
                decreases values@.len() - k,
            {
                let v = values[k];
                proof {
                    assert(values@.take(k + 1).drop_last() =~= values@.take(k as int));
                }
                if contains_id(&used, v) {
                    kept.push(v);
                }
                k += 1;
            }
            proof {
                assert(values@.take(k as int) =~= values@);
                lemma_live_ids_len(values@, blocks);
            }
            let this_changed = kept.len() != values.len();
            let ghost nb0 = new_blocks@;
            new_blocks.push(BasicBlock { id, values: kept, terminator });
            proof {
                assert(old_blocks@ =~= blocks.skip(b + 1));
                assert(new_blocks@.drop_last() =~= nb0);
                assert(blocks.take(b + 1).drop_last() =~= blocks.take(b as int));
                assert(blocks.take(b + 1).last() == blocks[b as int]);
                assert((blocks_changed || this_changed) == exists|c: int| 0 <= c < b + 1 && #[trigger] new_blocks@[c].values@ != blocks[c].values@) by {
                    if blocks_changed {
                        let c = choose|c: int| 0 <= c < b && #[trigger] nb0[c].values@ != blocks[c].values@;
                        assert(new_blocks@[c] == nb0[c]);
                    }
                    if this_changed {
                        assert(new_blocks@[b as int].values@ != blocks[b as int].values@);
                    }
                    if exists|c: int| 0 <= c < b + 1 && #[trigger] new_blocks@[c].values@ != blocks[c].values@ {
                        let c = choose|c: int| 0 <= c < b + 1 && #[trigger] new_blocks@[c].values@ != blocks[c].values@;
                        if c < b {
                            assert(new_blocks@[c] == nb0[c]);
                            assert(nb0[c].values@ != blocks[c].values@);
                        }
                    }
                }
            }
            blocks_changed = blocks_changed || this_changed;
            b += 1;
        }
        func.blocks = new_blocks;
        assert(orig_vals.len() == func.values.len());
        let mut old_values: Vec<Value> = Vec::new();
        std::mem::swap(&mut old_values, &mut func.values);
        let mut kept_values: Vec<Value> = Vec::new();
        let mut k: usize = 0;
        proof {
            assert(orig_vals.skip(0) =~= orig_vals);
            assert(orig_vals.take(0) =~= Seq::<Value>::empty());
        }
        while old_values.len() > 0
            invariant
                k <= orig_vals.len(),
                orig_vals.len() <= usize::MAX,
                old_values@ == orig_vals.skip(k as int),
                kept_values@ == live_values(orig_vals.take(k as int), blocks),
                kept_values@.len() <= k,
                nonconst_count(kept_values@) <= nonconst_count(orig_vals.take(k as int)),
                forall|id: ValueId| used@.contains(id) <==> is_used(blocks, id),
            decreases old_values@.len(),
        {
            let v = old_values.remove(0);
            assert(v == orig_vals[k as int]);
            proof {
                assert(orig_vals.take(k + 1).drop_last() =~= orig_vals.take(k as int));
                assert(old_values@ =~= orig_vals.skip(k + 1));
            }
            if contains_id(&used, v.id) {
                kept_values.push(v);
                proof {
                    assert(kept_values@.drop_last() =~= live_values(orig_vals.take(k as int), blocks));
                }
            }
            k += 1;
        }
        proof {
            assert(orig_vals.take(k as int) =~= orig_vals);
            assert(blocks.take(b as int) =~= blocks);
            lemma_live_values_len(orig_vals, blocks);
        }
        let changed = kept_values.len() != k || blocks_changed;
        func.values = kept_values;
        changed
    }
}

impl SSAPass for DcePass {
    open spec fn label(&self) -> Seq<char> {
        "dce"@
    }

    /// Only the values that some terminator reads are kept, in the function
    /// and in each block; a change is reported when something was dropped.
    open spec fn transforms(&self, before: Function, after: Function, changed: bool) -> bool {
        &&& after.values@ == live_values(before.values@, before.blocks@)
        &&& after.blocks@.len() == before.blocks@.len()
        &&& forall|b: int| 0 <= b < before.blocks@.len() ==> {
            &&& (#[trigger] after.blocks@[b]).id == before.blocks@[b].id
            &&& after.blocks@[b].terminator == before.blocks@[b].terminator
            &&& after.blocks@[b].values@ == live_ids(before.blocks@[b].values@, before.blocks@)
        }
        &&& after.name == before.name
        &&& after.entry == before.entry
        &&& after.next_value_id() == before.next_value_id()
        &&& after.next_block_id() == before.next_block_id()
        &&& changed == (after.values@ != before.values@
            || exists|b: int| 0 <= b < before.blocks@.len() && #[trigger] after.blocks@[b].values@ != before.blocks@[b].values@)
    }

    fn name(&self) -> (r: &'static str)
        ensures
            r@ == "dce"@,
    {
        "dce"
    }

    fn run(&self, func: &mut Function) -> (changed: bool)
        ensures
            final(func).values@ == live_values(old(func).values@, old(func).blocks@),
    {
        let changed = DcePass::sweep(func);
        proof {
            if old(func).wf() {
                lemma_live_values_wf(old(func).values@, old(func).blocks@, old(func).next_val);
                assert forall|i: int, j: int| 0 <= i < j < func.blocks@.len() implies #[trigger] func.blocks@[i].id != #[trigger] func.blocks@[j].id by {
                    assert(old(func).blocks@[i].id != old(func).blocks@[j].id);
                }
                assert forall|i: int| 0 <= i < func.blocks@.len() implies (#[trigger] func.blocks@[i]).id.0 < func.next_bb by {
                    assert(old(func).blocks@[i].id.0 < old(func).next_bb);
                }
            }
        }
        changed
    }
}

/// After dead-value removal, every value left is read by some terminator, and
/// every value that some terminator reads is left.
pub proof fn lemma_live_values_are_used(vals: Seq<Value>, blocks: Seq<BasicBlock>)
    ensures
        forall|i: int| 0 <= i < live_values(vals, blocks).len() ==> is_used(blocks, #[trigger] live_values(vals, blocks)[i].id),
        forall|v: Value| vals.contains(v) && is_used(blocks, v.id) ==> live_values(vals, blocks).contains(v),
    decreases vals.len(),
{
    if vals.len() > 0 {
        let d = vals.drop_last();
        lemma_live_values_are_used(d, blocks);
        let l = live_values(vals, blocks);
        let ld = live_values(d, blocks);
        assert forall|i: int| 0 <= i < l.len() implies is_used(blocks, #[trigger] l[i].id) by {
            if i < ld.len() {
                assert(l[i] == ld[i]);
            }
        }
        assert forall|v: Value| vals.contains(v) && is_used(blocks, v.id) implies l.contains(v) by {
            let j = choose|j: int| 0 <= j < vals.len() && vals[j] == v;
            if j < d.len() {
                assert(d[j] == v);
                assert(d.contains(v));
                assert(ld.contains(v));
                let k = choose|k: int| 0 <= k < ld.len() && ld[k] == v;
                assert(l[k] == v);
            } else {
                assert(l.last() == v);
            }
        }
    }
}

/// Rust's `/` on integers: the quotient rounded toward zero.
pub open spec fn quotient_toward_zero(x: int, y: int) -> int {
    let q = (if x >= 0 { x } else { -x }) / (if y >= 0 { y } else { -y });
    if (x >= 0) == (y > 0) || x == 0 {
        q
    } else {
        -q
    }
}

/// One folding step keeps the values' number and ids, every constant, and
/// every value whose id is not the one folded.
proof fn lemma_fold_step_frame(vals: Seq<Value>, id: ValueId)
    ensures
        fold_step(vals, id).0.len() == vals.len(),
        forall|j: int| 0 <= j < vals.len() ==> #[trigger] fold_step(vals, id).0[j].id == vals[j].id,
        forall|j: int| 0 <= j < vals.len() && (vals[j].kind is Const || vals[j].id != id)
            ==> #[trigger] fold_step(vals, id).0[j] == vals[j],
{
    lemma_value_index(vals, id);
}

/// Folding steps keep every constant, and every value whose id none of the
/// steps names.
proof fn lemma_fold_steps_frame(vals: Seq<Value>, ids: Seq<ValueId>)
    ensures
        forall|j: int| 0 <= j < vals.len() && (vals[j].kind is Const || !ids.contains(vals[j].id))
            ==> #[trigger] fold_steps(vals, ids).0[j] == vals[j],
    decreases ids.len(),
{
    if ids.len() > 0 {
        let d = ids.drop_last();
        lemma_fold_steps_frame(vals, d);
        lemma_fold_steps_ids(vals, d);
        let v1 = fold_steps(vals, d).0;
        lemma_fold_step_frame(v1, ids.last());
        assert forall|j: int| 0 <= j < vals.len() && (vals[j].kind is Const || !ids.contains(vals[j].id))
            implies #[trigger] fold_steps(vals, ids).0[j] == vals[j] by {
            if !ids.contains(vals[j].id) {
                assert(!d.contains(vals[j].id)) by {
                    if d.contains(vals[j].id) {
                        let k = choose|k: int| 0 <= k < d.len() && d[k] == vals[j].id;
                        assert(ids[k] == d[k]);
                    }
                }
                assert(ids[ids.len() - 1] == ids.last());
            }
            assert(v1[j] == vals[j]);
        }
    }
}

/// Where no two values share an id, the value with id `vals[i].id` is the
/// `i`-th.
proof fn lemma_value_index_unique(vals: Seq<Value>, i: int, next: u32)
    requires
        values_wf(vals, next),
        0 <= i < vals.len(),
    ensures
        value_index(vals, vals[i].id) == i,
{
    lemma_value_index(vals, vals[i].id);
    let k = value_index(vals, vals[i].id);
    if k >= 0 && k != i {
        if k < i {
            assert(vals[k].id != vals[i].id);
        } else {
            assert(vals[i].id != vals[k].id);
        }
    }
}

/// The operands of an arithmetic value.
spec fn operands(k: ValueKind) -> Option<(ValueId, ValueId)> {
    match k {
        ValueKind::Add(a, b) => Some((a, b)),
        ValueKind::Sub(a, b) => Some((a, b)),
        ValueKind::Mul(a, b) => Some((a, b)),
        ValueKind::Div(a, b) => Some((a, b)),
        _ => None,
    }
}

/// What folding steps make of the `i`-th value, an arithmetic value on two
/// constants: the constant it folds to once a step names it, and itself where
/// it does not fold.
proof fn lemma_fold_steps_reach(vals: Seq<Value>, ids: Seq<ValueId>, next: u32, i: int, ia: int, ib: int)
    requires
        values_wf(vals, next),
        0 <= i < vals.len(),
        0 <= ia < vals.len(),
        0 <= ib < vals.len(),
        operands(vals[i].kind) == Some((vals[ia].id, vals[ib].id)),
        vals[ia].kind is Const,
        vals[ib].kind is Const,
    ensures
        fold_of(vals, vals[i].id) is None ==> fold_steps(vals, ids).0[i] == vals[i],
        fold_of(vals, vals[i].id) is Some && ids.contains(vals[i].id)
            ==> fold_steps(vals, ids).0[i] == (Value { id: vals[i].id, kind: ValueKind::Const(fold_of(vals, vals[i].id)->Some_0) }),
    decreases ids.len(),
{
    if ids.len() > 0 {
        let id = vals[i].id;
        let d = ids.drop_last();
        lemma_fold_steps_ids(vals, d);
        lemma_fold_steps_frame(vals, d);
        lemma_fold_steps_reach(vals, d, next, i, ia, ib);
        let v1 = fold_steps(vals, d).0;
        lemma_fold_step_frame(v1, ids.last());
        lemma_same_ids_wf(vals, v1, next);
        assert(v1[ia] == vals[ia]);
        assert(v1[ib] == vals[ib]);
        lemma_value_index_unique(vals, i, next);
        lemma_value_index_unique(vals, ia, next);
        lemma_value_index_unique(vals, ib, next);
        lemma_value_index_unique(v1, i, next);
        lemma_value_index_unique(v1, ia, next);
        lemma_value_index_unique(v1, ib, next);
        if v1[i] == vals[i] {
            assert(fold_of(v1, id) == fold_of(vals, id));
        }
        if ids.contains(id) && !d.contains(id) {
            let k = choose|k: int| 0 <= k < ids.len() && ids[k] == id;
            if k < ids.len() - 1 {
                assert(d[k] == id);
            }
            assert(v1[i] == vals[i]);
        }
    }
}

/// Whether some block lists the value `id`.
pub open spec fn listed(blocks: Seq<BasicBlock>, id: ValueId) -> bool {
    exists|b: int| 0 <= b < blocks.len() && (#[trigger] blocks[b]).values@.contains(id)
}

proof fn lemma_listed_in_block_ids(blocks: Seq<BasicBlock>, id: ValueId)
    requires
        listed(blocks, id),
    ensures
        block_ids(blocks).contains(id),
    decreases blocks.len(),
{
    let b = choose|b: int| 0 <= b < blocks.len() && (#[trigger] blocks[b]).values@.contains(id);
    let d = blocks.drop_last();
    let vs = blocks.last().values@;
    if b < blocks.len() - 1 {
        assert(d[b] == blocks[b]);
        lemma_listed_in_block_ids(d, id);
        let k = choose|k: int| 0 <= k < block_ids(d).len() && block_ids(d)[k] == id;
        assert((block_ids(d) + vs)[k] == id);
    } else {
        let k = choose|k: int| 0 <= k < vs.len() && vs[k] == id;
        assert((block_ids(d) + vs)[block_ids(d).len() + k] == id);
    }
}

/// Constant folding computes what each operator means: a value listed in
/// some block that adds, subtracts, multiplies or divides two constants `x`
/// and `y` becomes the constant `x + y`, `x - y`, `x * y`, or `x / y`
/// rounded toward zero, wherever that result fits in an `i64` (and, for a
/// division, `y` is not zero); where it does not, the value stays as it was.
pub proof fn lemma_constprop_folds_arithmetic(
    before: Function,
    after: Function,
    changed: bool,
    i: int,
    ia: int,
    ib: int,
    x: i64,
    y: i64,
)
    requires
        ConstPropPass.transforms(before, after, changed),
        before.wf(),
        0 <= i < before.values@.len(),
        0 <= ia < before.values@.len(),
        0 <= ib < before.values@.len(),
        before.values@[ia].kind == ValueKind::Const(x),
        before.values@[ib].kind == ValueKind::Const(y),
        listed(before.blocks@, before.values@[i].id),
    ensures
        ({
            let id = before.values@[i].id;
            let (a, b) = (before.values@[ia].id, before.values@[ib].id);
            let folded = |c: int| after.values@[i] == (Value { id, kind: ValueKind::Const(c as i64) });
            &&& before.values@[i].kind == ValueKind::Add(a, b) && i64::MIN <= x + y <= i64::MAX ==> folded(x + y)
            &&& before.values@[i].kind == ValueKind::Sub(a, b) && i64::MIN <= x - y <= i64::MAX ==> folded(x - y)
            &&& before.values@[i].kind == ValueKind::Mul(a, b) && i64::MIN <= x * y <= i64::MAX ==> folded(x * y)
            &&& before.values@[i].kind == ValueKind::Div(a, b) && y != 0
                && i64::MIN <= quotient_toward_zero(x as int, y as int) <= i64::MAX ==> folded(quotient_toward_zero(x as int, y as int))
            &&& before.values@[i].kind == ValueKind::Add(a, b) && !(i64::MIN <= x + y <= i64::MAX) ==> after.values@[i] == before.values@[i]
            &&& before.values@[i].kind == ValueKind::Sub(a, b) && !(i64::MIN <= x - y <= i64::MAX) ==> after.values@[i] == before.values@[i]
            &&& before.values@[i].kind == ValueKind::Mul(a, b) && !(i64::MIN <= x * y <= i64::MAX) ==> after.values@[i] == before.values@[i]
            &&& before.values@[i].kind == ValueKind::Div(a, b) && (y == 0
                || !(i64::MIN <= quotient_toward_zero(x as int, y as int) <= i64::MAX)) ==> after.values@[i] == before.values@[i]
        }),
{
    let vals = before.values@;
    let id = vals[i].id;
    let (a, b) = (vals[ia].id, vals[ib].id);
    lemma_listed_in_block_ids(before.blocks@, id);
    lemma_value_index_unique(vals, i, before.next_val);
    lemma_value_index_unique(vals, ia, before.next_val);
    lemma_value_index_unique(vals, ib, before.next_val);
    assert(const_of(vals, a) == Some(x));
    assert(const_of(vals, b) == Some(y));
    let ids = block_ids(before.blocks@);
    if operands(vals[i].kind) == Some((a, b)) {
        lemma_fold_steps_reach(vals, ids, before.next_val, i, ia, ib);
    }
}

proof fn lemma_fold_steps_shape(vals: Seq<Value>, ids: Seq<ValueId>)
    ensures
        forall|j: int| 0 <= j < vals.len() ==> #[trigger] fold_steps(vals, ids).0[j] == vals[j]
            || fold_steps(vals, ids).0[j].kind is Const,
    decreases ids.len(),
{
    if ids.len() > 0 {
        let d = ids.drop_last();
        lemma_fold_steps_shape(vals, d);
        lemma_fold_steps_ids(vals, d);
        let v1 = fold_steps(vals, d).0;
        lemma_value_index(v1, ids.last());
        lemma_fold_step_frame(v1, ids.last());
        assert forall|j: int| 0 <= j < vals.len() implies #[trigger] fold_steps(vals, ids).0[j] == vals[j]
            || fold_steps(vals, ids).0[j].kind is Const by {
            assert(v1[j] == vals[j] || v1[j].kind is Const);
        }
    }
}

/// Constant folding only turns values into constants: it keeps the number of
/// values and the id at each place, leaves every constant as it is, and each
/// other value either stays as it is or becomes a constant.
pub proof fn lemma_constprop_only_folds(before: Function, after: Function, changed: bool)
    requires
        ConstPropPass.transforms(before, after, changed),
    ensures
        after.values@.len() == before.values@.len(),
        forall|i: int| 0 <= i < before.values@.len() ==> #[trigger] after.values@[i].id == before.values@[i].id,
        forall|i: int| 0 <= i < before.values@.len() && before.values@[i].kind is Const
            ==> #[trigger] after.values@[i] == before.values@[i],
        forall|i: int| 0 <= i < before.values@.len() ==> #[trigger] after.values@[i] == before.values@[i]
            || after.values@[i].kind is Const,
{
    let ids = block_ids(before.blocks@);
    lemma_fold_steps_ids(before.values@, ids);
    lemma_fold_steps_frame(before.values@, ids);
    lemma_fold_steps_shape(before.values@, ids);
}

} // verus!
