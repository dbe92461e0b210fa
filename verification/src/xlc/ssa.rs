//! A small SSA form: values numbered in the order of their creation, grouped
//! in basic blocks that end in a terminator, and passes that rewrite it.

use vstd::prelude::*;

pub mod passes;
pub mod lower;

verus! {

#[derive(Debug, Clone, Copy, PartialEq, Eq, Hash, Structural)]
pub struct ValueId(pub u32);

#[derive(Debug, Clone, Copy, PartialEq, Eq, Hash, Structural)]
pub struct BlockId(pub u32);

#[derive(Debug)]
pub enum ValueKind {
    Const(i64),
    Add(ValueId, ValueId),
    Sub(ValueId, ValueId),
    Mul(ValueId, ValueId),
    Div(ValueId, ValueId),
    Phi(Vec<(BlockId, ValueId)>),
}

#[derive(Debug)]
pub struct Value {
    pub id: ValueId,
    pub kind: ValueKind,
}

#[derive(Debug)]
pub struct BasicBlock {
    pub id: BlockId,
    pub values: Vec<ValueId>,
    pub terminator: Terminator,
}

#[derive(Debug, Clone, Copy, PartialEq, Eq, Structural)]
pub enum Terminator {
    Ret(ValueId),
    Br(BlockId),
    CondBr { cond: ValueId, then_bb: BlockId, else_bb: BlockId },
}

/// A function in SSA form. Its values and blocks are kept in lists; a value
/// or block is found by its id.
#[derive(Debug)]
pub struct Function {
    pub name: String,
    pub blocks: Vec<BasicBlock>,
    pub entry: BlockId,
    pub values: Vec<Value>,
    pub next_val: u32,
    pub next_bb: u32,
}

/// How many of `vals` are not constants.
pub open spec fn nonconst_count(vals: Seq<Value>) -> nat
    decreases vals.len(),
{
    if vals.len() == 0 {
        0
    } else {
        nonconst_count(vals.drop_last()) + if vals.last().kind is Const {
            0nat
        } else {
            1nat
        }
    }
}

/// The number of value ids that the blocks list, all blocks together.
pub open spec fn listed_ids(blocks: Seq<BasicBlock>) -> nat
    decreases blocks.len(),
{
    if blocks.len() == 0 {
        0
    } else {
        listed_ids(blocks.drop_last()) + blocks.last().values@.len()
    }
}

/// Whether no two of `vals` share an id and every id is below `next`.
pub open spec fn values_wf(vals: Seq<Value>, next: u32) -> bool {
    &&& forall|i: int, j: int| 0 <= i < j < vals.len() ==> #[trigger] vals[i].id != #[trigger] vals[j].id
    &&& forall|i: int| 0 <= i < vals.len() ==> (#[trigger] vals[i]).id.0 < next
}

/// Whether no two of `blocks` share an id and every id is below `next`.
pub open spec fn blocks_wf(blocks: Seq<BasicBlock>, next: u32) -> bool {
    &&& forall|i: int, j: int| 0 <= i < j < blocks.len() ==> #[trigger] blocks[i].id != #[trigger] blocks[j].id
    &&& forall|i: int| 0 <= i < blocks.len() ==> (#[trigger] blocks[i]).id.0 < next
}

impl Function {
    /// Whether each value and each block has an id of its own, below the
    /// next id to be given.
    pub open spec fn wf(&self) -> bool {
        values_wf(self.values@, self.next_val) && blocks_wf(self.blocks@, self.next_bb)
    }

    /// The id that the next value will get.
    pub open spec fn next_value_id(&self) -> u32 {
        self.next_val
    }

    /// The id that the next block will get.
    pub open spec fn next_block_id(&self) -> u32 {
        self.next_bb
    }

    /// A measure that every pass lowers when it changes something and never
    /// raises: the number of values, plus the number of values that are not
    /// constants, plus the number of ids that the blocks list.
    pub open spec fn measure(&self) -> nat {
        self.values@.len() + nonconst_count(self.values@) + listed_ids(self.blocks@)
    }

    /// An empty function named `name`; its entry block is block 0, which is
    /// not yet among its blocks.
    pub fn new(name: String) -> (f: Self)
        ensures
            f.name@ == name@,
            f.blocks@.len() == 0,
            f.entry == BlockId(0),
            f.values@.len() == 0,
            f.next_value_id() == 0,
            f.next_block_id() == 1,
            f.wf(),
    {
        let entry = BlockId(0);
        Function { name, blocks: Vec::new(), entry, values: Vec::new(), next_val: 0, next_bb: 1 }
    }

    /// Adds a value of kind `kind` under the next value id, and gives that id.
    pub fn new_value(&mut self, kind: ValueKind) -> (id: ValueId)
        requires
            old(self).next_value_id() < u32::MAX,
        ensures
            id == ValueId(old(self).next_value_id()),
            final(self).next_value_id() == old(self).next_value_id() + 1,
            final(self).next_block_id() == old(self).next_block_id(),
            final(self).values@ == old(self).values@.push(Value { id, kind }),
            final(self).name == old(self).name,
            final(self).blocks == old(self).blocks,
            final(self).entry == old(self).entry,
            old(self).wf() ==> final(self).wf(),
    {
        let id = ValueId(self.next_val);
        self.next_val = self.next_val + 1;
        self.values.push(Value { id, kind });
        id
    }

    /// Gives the next block id.
    pub fn new_block(&mut self) -> (id: BlockId)
        requires
            old(self).next_block_id() < u32::MAX,
        ensures
            id == BlockId(old(self).next_block_id()),
            final(self).next_block_id() == old(self).next_block_id() + 1,
            final(self).next_value_id() == old(self).next_value_id(),
            final(self).values == old(self).values,
            final(self).name == old(self).name,
            final(self).blocks == old(self).blocks,
            final(self).entry == old(self).entry,
            old(self).wf() ==> final(self).wf(),
    {
        let id = BlockId(self.next_bb);
        self.next_bb = self.next_bb + 1;
        id
    }
}

/// Builds a function from its parts, for lowering.
pub(crate) fn assemble(
    name: String,
    blocks: Vec<BasicBlock>,
    entry: BlockId,
    values: Vec<Value>,
    next_val: u32,
    next_bb: u32,
) -> (f: Function)
    ensures
        f.name == name,
        f.blocks == blocks,
        f.entry == entry,
        f.values == values,
        f.next_value_id() == next_val,
        f.next_block_id() == next_bb,
{
    Function { name, blocks, entry, values, next_val, next_bb }
}

// ---------- Optimisation passes ----------

/// A pass over an SSA function. It reports whether it changed the function;
/// a change lowers the function's measure, and no pass raises it, so that
/// running passes until none changes anything ends.
pub trait SSAPass {
    /// Whether a run of this pass may take `before` to `after`, reporting
    /// `changed`.
    spec fn transforms(&self, before: Function, after: Function, changed: bool) -> bool;

    /// The name of this pass.
    spec fn label(&self) -> Seq<char>;

    fn name(&self) -> (r: &'static str)
        ensures
            r@ == self.label(),
    ;

    fn run(&self, func: &mut Function) -> (changed: bool)
        ensures
            self.transforms(*old(func), *final(func), changed),
            final(func).measure() <= old(func).measure(),
            changed ==> final(func).measure() < old(func).measure(),
            old(func).wf() ==> final(func).wf(),
    ;
}

/// Whether `states` and `flags` are one round of the passes `ps`: the
/// `k`-th pass takes `states[k]` to `states[k + 1]`, reporting `flags[k]`.
pub open spec fn round_ok(ps: Seq<PassEntry>, states: Seq<Function>, flags: Seq<bool>) -> bool {
    &&& states.len() == ps.len() + 1
    &&& flags.len() == ps.len()
    &&& forall|k: int| #![trigger flags[k]] 0 <= k < ps.len() ==> ps[k].pass.transforms(states[k], states[k + 1], flags[k])
}

/// Whether `rounds` (with the reports `flags`) are rounds of the passes `ps`
/// run one after the other from `before`.
pub open spec fn rounds_ok(ps: Seq<PassEntry>, rounds: Seq<Seq<Function>>, flags: Seq<Seq<bool>>, before: Function) -> bool {
    &&& rounds.len() == flags.len()
    &&& forall|r: int| 0 <= r < rounds.len() ==> round_ok(ps, #[trigger] rounds[r], flags[r])
    &&& rounds.len() > 0 ==> rounds[0][0] == before
    &&& forall|r: int| 0 <= r < rounds.len() - 1 ==> #[trigger] rounds[r + 1][0] == rounds[r][ps.len() as int]
}

/// Where rounds from `before` end.
pub open spec fn rounds_end(ps: Seq<PassEntry>, rounds: Seq<Seq<Function>>, before: Function) -> Function {
    if rounds.len() == 0 {
        before
    } else {
        rounds.last()[ps.len() as int]
    }
}

/// Whether running the passes `ps` round after round may take `before` to
/// `after`: every round but the last has some pass report a change, and in
/// the last none does.
pub open spec fn settles(ps: Seq<PassEntry>, before: Function, after: Function) -> bool {
    exists|rounds: Seq<Seq<Function>>, flags: Seq<Seq<bool>>| {
        &&& #[trigger] rounds_ok(ps, rounds, flags, before)
        &&& rounds.len() > 0
        &&& rounds_end(ps, rounds, before) == after
        &&& forall|r: int| 0 <= r < rounds.len() - 1 ==> (#[trigger] flags[r]).contains(true)
        &&& !flags.last().contains(true)
    }
}

/// Whether each pass of `ps` has one outcome for each function it runs on.
pub open spec fn deterministic(ps: Seq<PassEntry>) -> bool {
    forall|k: int, x: Function, y1: Function, y2: Function, c1: bool, c2: bool|
        0 <= k < ps.len() && #[trigger] ps[k].pass.transforms(x, y1, c1) && #[trigger] ps[k].pass.transforms(x, y2, c2) ==> y1 == y2 && c1 == c2
}

/// Whether each pass of `ps` that reports no change has changed nothing.
pub open spec fn quiet_means_unchanged(ps: Seq<PassEntry>) -> bool {
    forall|k: int, x: Function, y: Function| 0 <= k < ps.len() && #[trigger] ps[k].pass.transforms(x, y, false) ==> y == x
}

proof fn lemma_quiet_round(ps: Seq<PassEntry>, states: Seq<Function>, flags: Seq<bool>, k: int)
    requires
        round_ok(ps, states, flags),
        !flags.contains(true),
        quiet_means_unchanged(ps),
        0 <= k <= ps.len(),
    ensures
        states[k] == states[0],
    decreases k,
{
    if k > 0 {
        lemma_quiet_round(ps, states, flags, k - 1);
        let j = k - 1;
        assert(ps[j].pass.transforms(states[j], states[j + 1], flags[j]));
        if flags[j] {
            assert(flags.contains(true));
        }
    }
}

proof fn lemma_replay_round(ps: Seq<PassEntry>, states: Seq<Function>, flags: Seq<bool>, f: Function, k: int)
    requires
        round_ok(ps, states, flags),
        states[0] == f,
        deterministic(ps),
        forall|j: int| 0 <= j < ps.len() ==> #[trigger] ps[j].pass.transforms(f, f, false),
        0 <= k <= ps.len(),
    ensures
        states[k] == f,
        forall|j: int| 0 <= j < k ==> !(#[trigger] flags[j]),
    decreases k,
{
    if k > 0 {
        lemma_replay_round(ps, states, flags, f, k - 1);
        let j = k - 1;
        assert(ps[j].pass.transforms(states[j], states[j + 1], flags[j]));
        assert(ps[j].pass.transforms(f, f, false));
    }
}

/// Running the passes again on what a run left changes nothing, where every
/// pass has one outcome for each function and reports no change only when it
/// changed nothing: the last round of the first run already changed nothing.
pub proof fn lemma_rerun_changes_nothing(ps: Seq<PassEntry>, f0: Function, f1: Function, f2: Function)
    requires
        deterministic(ps),
        quiet_means_unchanged(ps),
        settles(ps, f0, f1),
        settles(ps, f1, f2),
    ensures
        f2 == f1,
{
    let (rounds, flags) = choose|rounds: Seq<Seq<Function>>, flags: Seq<Seq<bool>>| {
        &&& #[trigger] rounds_ok(ps, rounds, flags, f0)
        &&& rounds.len() > 0
        &&& rounds_end(ps, rounds, f0) == f1
        &&& forall|r: int| 0 <= r < rounds.len() - 1 ==> (#[trigger] flags[r]).contains(true)
        &&& !flags.last().contains(true)
    };
    let last = rounds.last();
    let lf = flags.last();
    assert(round_ok(ps, rounds[rounds.len() - 1], flags[rounds.len() - 1]));
    assert forall|j: int| 0 <= j < ps.len() implies #[trigger] ps[j].pass.transforms(f1, f1, false) by {
        lemma_quiet_round(ps, last, lf, j);
        lemma_quiet_round(ps, last, lf, j + 1);
        lemma_quiet_round(ps, last, lf, ps.len() as int);
        assert(ps[j].pass.transforms(last[j], last[j + 1], lf[j]));
        if lf[j] {
            assert(lf.contains(true));
        }
    }
    let (rounds2, flags2) = choose|rounds: Seq<Seq<Function>>, flags: Seq<Seq<bool>>| {
        &&& #[trigger] rounds_ok(ps, rounds, flags, f1)
        &&& rounds.len() > 0
        &&& rounds_end(ps, rounds, f1) == f2
        &&& forall|r: int| 0 <= r < rounds.len() - 1 ==> (#[trigger] flags[r]).contains(true)
        &&& !flags.last().contains(true)
    };
    assert(round_ok(ps, rounds2[0], flags2[0]));
    lemma_replay_round(ps, rounds2[0], flags2[0], f1, ps.len() as int);
    if rounds2.len() > 1 {
        assert(flags2[0].contains(true));
        let j = choose|j: int| 0 <= j < flags2[0].len() && flags2[0][j] == true;
        assert(!flags2[0][j]);
    }
}

/// One pass held by a [`PassManagerSSA`].
pub struct PassEntry {
    pub pass: Box<dyn SSAPass>,
}

/// Passes run in rounds until a whole round changes nothing.
pub struct PassManagerSSA {
    passes: Vec<PassEntry>,
}

impl PassManagerSSA {
    /// The number of passes added so far.
    pub closed spec fn len(&self) -> nat {
        self.passes@.len()
    }

    /// The passes added so far, in order.
    pub closed spec fn passes(&self) -> Seq<PassEntry> {
        self.passes@
    }

    /// The names of the passes added so far, in order.
    pub open spec fn names(&self) -> Seq<Seq<char>> {
        Seq::new(self.passes().len(), |k: int| self.passes()[k].pass.label())
    }

    /// No passes.
    pub fn new() -> (m: Self)
        ensures
            m.len() == 0,
            m.passes() == Seq::<PassEntry>::empty(),
    {
        PassManagerSSA { passes: Vec::new() }
    }

    /// Appends `e` after the passes already added.
    fn push_entry(&mut self, e: PassEntry)
        ensures
            final(self).passes() == old(self).passes().push(e),
            final(self).len() == old(self).len() + 1,
            final(self).passes().take(old(self).len() as int) == old(self).passes(),
            final(self).passes().last() == e,
    {
        self.passes.push(e);
        assert(self.passes@.take(old(self).passes@.len() as int) =~= old(self).passes@);
    }

    /// Adds a pass after those already added.
    pub fn add<P: SSAPass + 'static>(&mut self, p: P)
        ensures
            final(self).len() == old(self).len() + 1,
            final(self).passes().take(old(self).len() as int) == old(self).passes(),
    {
        self.push_entry(PassEntry { pass: Box::new(p) });
    }

    /// Runs all passes in order, round after round, until a round in which no
    /// pass reports a change.
    pub fn run(&self, func: &mut Function)
        ensures
            settles(self.passes(), *old(func), *final(func)),
            final(func).measure() <= old(func).measure(),
            self.len() == 0 ==> *final(func) == *old(func),
            old(func).wf() ==> final(func).wf(),
    {
        let ghost ps = self.passes@;
        let ghost mut rounds: Seq<Seq<Function>> = Seq::empty();
        let ghost mut flags: Seq<Seq<bool>> = Seq::empty();
        let mut changed = true;
        while changed
            invariant
                ps == self.passes@,
                func.measure() <= old(func).measure(),
                old(func).wf() ==> func.wf(),
                self.passes@.len() == 0 ==> *func == *old(func),
                rounds_ok(ps, rounds, flags, *old(func)),
                rounds_end(ps, rounds, *old(func)) == *func,
                changed ==> forall|r: int| 0 <= r < rounds.len() ==> (#[trigger] flags[r]).contains(true),
                !changed ==> rounds.len() > 0 && !flags.last().contains(true)
                    && forall|r: int| 0 <= r < rounds.len() - 1 ==> (#[trigger] flags[r]).contains(true),
            decreases func.measure(), if changed { 1int } else { 0int },
        {
            let ghost start = *func;
            let ghost start_measure = func.measure();
            let ghost mut states: Seq<Function> = seq![*func];
            let ghost mut fl: Seq<bool> = Seq::empty();
            changed = false;
            let mut i: usize = 0;
            while i < self.passes.len()
                invariant
                    i <= self.passes@.len(),
                    ps == self.passes@,
                    self.passes@.len() == 0 ==> *func == *old(func),
                    old(func).wf() ==> func.wf(),
                    func.measure() <= start_measure,
                    start_measure == start.measure(),
                    start_measure <= old(func).measure(),
                    changed ==> func.measure() < start_measure,
                    states.len() == i + 1,
                    fl.len() == i,
                    states[0] == start,
                    states[i as int] == *func,
                    forall|k: int| #![trigger fl[k]] 0 <= k < i ==> ps[k].pass.transforms(states[k], states[k + 1], fl[k]),
                    changed == fl.contains(true),
                decreases self.passes@.len() - i,
            {
                let c = self.passes[i].pass.run(func);
                proof {
                    let s0 = states;
                    let f0 = fl;
                    states = states.push(*func);
                    fl = fl.push(c);
                    assert forall|k: int| #![trigger fl[k]] 0 <= k < i + 1 implies ps[k].pass.transforms(states[k], states[k + 1], fl[k]) by {
                        if k < i {
                            assert(states[k] == s0[k]);
                            assert(states[k + 1] == s0[k + 1]);
                            assert(fl[k] == f0[k]);
                        }
                    }
                    assert((changed || c) == fl.contains(true)) by {
                        if changed {
                            let k = choose|k: int| 0 <= k < f0.len() && f0[k] == true;
                            assert(fl[k] == true);
                        }
                        if c {
                            assert(fl[i as int] == true);
                        }
                        if fl.contains(true) {
                            let k = choose|k: int| 0 <= k < fl.len() && fl[k] == true;
                            if k < i {
                                assert(f0[k] == true);
                            }
                        }
                    }
                }
                changed = changed || c;
                i += 1;
            }
            proof {
                let r0 = rounds;
                let g0 = flags;
                assert(round_ok(ps, states, fl));
                rounds = rounds.push(states);
                flags = flags.push(fl);
                assert forall|r: int| 0 <= r < rounds.len() implies round_ok(ps, #[trigger] rounds[r], flags[r]) by {
                    if r < r0.len() {
                        assert(rounds[r] == r0[r]);
                        assert(flags[r] == g0[r]);
                    }
                }
                assert forall|r: int| 0 <= r < rounds.len() - 1 implies #[trigger] rounds[r + 1][0] == rounds[r][ps.len() as int] by {
                    assert(rounds[r] == r0[r]);
                    if r + 1 < r0.len() {
                        assert(rounds[r + 1] == r0[r + 1]);
                    }
                }
                assert forall|r: int| 0 <= r < rounds.len() - 1 implies (#[trigger] flags[r]).contains(true) by {
                    assert(flags[r] == g0[r]);
                }
                if changed {
                    assert forall|r: int| 0 <= r < rounds.len() implies (#[trigger] flags[r]).contains(true) by {
                        if r < g0.len() {
                            assert(flags[r] == g0[r]);
                        }
                    }
                }
                assert(rounds_ok(ps, rounds, flags, *old(func)));
            }
        }
        proof {
            assert(rounds_ok(ps, rounds, flags, *old(func)));
        }
    }

    /// Mem2reg, constant folding, then dead-value removal.
    pub fn opt_level_1() -> (m: Self)
        ensures
            m.len() == 3,
            m.names() == seq!["mem2reg"@, "constprop"@, "dce"@],
    {
        let mut pm = PassManagerSSA::new();
        pm.push_entry(PassEntry { pass: Box::new(passes::mem2reg::Mem2Reg) });
        pm.push_entry(PassEntry { pass: Box::new(passes::ConstPropPass) });
        pm.push_entry(PassEntry { pass: Box::new(passes::DcePass) });
        assert(pm.names() =~= seq!["mem2reg"@, "constprop"@, "dce"@]);
        pm
    }
}

/// A constant-propagation pass that does nothing yet.
pub struct ConstProp;

impl SSAPass for ConstProp {
    open spec fn label(&self) -> Seq<char> {
        "constprop"@
    }

    /// It changes nothing and reports no change.
    open spec fn transforms(&self, before: Function, after: Function, changed: bool) -> bool {
        after == before && !changed
    }

    fn name(&self) -> (r: &'static str)
        ensures
            r@ == "constprop"@,
    {
        "constprop"
    }

    fn run(&self, _func: &mut Function) -> (changed: bool)
        ensures
            !changed,
            *final(_func) == *old(_func),
    {
        false
    }
}

} // verus!
