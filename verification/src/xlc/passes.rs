//! Passes over a whole program, run in the order in which they were added.

use vstd::prelude::*;

use super::ast::Program;
use super::error::XLError;

verus! {

/// The phase of compilation that a pass belongs to.
#[derive(Debug, Clone, Copy, PartialEq, Eq, Structural)]
pub enum Phase {
    Parsing,
    Analysis,
    Transformation,
    Codegen,
}

/// A pass over a program.
pub trait Pass {
    /// Whether a run of this pass on the program behind `p` may give `r`;
    /// `p` holds the program before the run and, as its final value, the
    /// program after it.
    spec fn runs(&self, p: &mut Program, r: Result<(), XLError>) -> bool;

    fn name(&self) -> &'static str;

    fn phase(&self) -> Phase;

    fn run(&self, program: &mut Program) -> (r: Result<(), XLError>)
        ensures
            exists|a: &mut Program| #[trigger] self.runs(a, r) && *a == *old(program) && *final(a) == *final(program),
    ;
}

/// Whether the runs `steps`, with the results `results`, are the passes of
/// `ps` from the `i`-th on, run in order until the first failure, ending in
/// `r`: the `k`-th run is one of the pass `i + k`, every run but the last
/// succeeds, the runs stop early only at a failure, and `r` is the last run's
/// failure, or success where there was none.
pub open spec fn ran_in_order(ps: Seq<PassEntry>, i: int, steps: Seq<&mut Program>, results: Seq<Result<(), XLError>>, r: Result<(), XLError>) -> bool {
    &&& 0 <= i <= ps.len()
    &&& steps.len() == results.len()
    &&& steps.len() <= ps.len() - i
    &&& forall|k: int| #![trigger steps[k]] 0 <= k < steps.len() ==> ps[i + k].pass.runs(steps[k], results[k])
    &&& forall|k: int| 0 <= k < steps.len() - 1 ==> #[trigger] results[k] is Ok
    &&& steps.len() < ps.len() - i ==> steps.len() > 0 && results.last() is Err
    &&& r is Ok <==> steps.len() == 0 || results.last() is Ok
    &&& r is Err ==> r == results.last()
}


/// One pass held by a [`PassManager`].
pub struct PassEntry {
    pub pass: Box<dyn Pass>,
}

/// Passes in the order in which they run.
pub struct PassManager {
    passes: Vec<PassEntry>,
}

impl PassManager {
    /// The number of passes added so far.
    pub closed spec fn len(&self) -> nat {
        self.passes@.len()
    }

    /// The passes added so far, in order.
    pub closed spec fn passes(&self) -> Seq<PassEntry> {
        self.passes@
    }

    /// No passes.
    pub fn new() -> (m: Self)
        ensures
            m.len() == 0,
    {
        PassManager { passes: Vec::new() }
    }

    /// Adds a pass after those already added.
    pub fn add_pass<P: Pass + 'static>(&mut self, pass: P)
        ensures
            final(self).len() == old(self).len() + 1,
            final(self).passes().take(old(self).len() as int) == old(self).passes(),
    {
        self.push_entry(PassEntry { pass: Box::new(pass) });
    }

    /// Appends `e` after the passes already added.
    fn push_entry(&mut self, e: PassEntry)
        ensures
            final(self).passes() == old(self).passes().push(e),
            final(self).len() == old(self).len() + 1,
            final(self).passes().take(old(self).len() as int) == old(self).passes(),
            final(self).passes().last() == e,
    {
        self.passes.push(e);
        assert(self.passes@.take(old(self).passes@.len() as int) =~= old(self).passes@);
    }

    /// Runs the passes in order on `program`, each on what the one before it
    /// left, stopping at the first that fails and giving back its error.
    pub fn run(&self, program: &mut Program) -> (r: Result<(), XLError>)
        ensures
            exists|steps: Seq<&mut Program>, results: Seq<Result<(), XLError>>| {
                &&& ran_in_order(self.passes(), 0, steps, results, r)
                &&& steps.len() == 0 ==> *final(program) == *old(program)
                &&& steps.len() > 0 ==> *steps[0] == *old(program) && *final(steps.last()) == *final(program)
                &&& forall|k: int| 0 <= k < steps.len() - 1 ==> *steps[k + 1] == *final(#[trigger] steps[k])
            },
            self.len() == 0 ==> r is Ok && final(program)@ == old(program)@,
    {
        self.run_from(0, program)
    }

    fn run_from(&self, i: usize, program: &mut Program) -> (r: Result<(), XLError>)
        requires
            i <= self.passes@.len(),
        ensures
            exists|steps: Seq<&mut Program>, results: Seq<Result<(), XLError>>| {
                &&& ran_in_order(self.passes(), i as int, steps, results, r)
                &&& steps.len() == 0 ==> *final(program) == *old(program)
                &&& steps.len() > 0 ==> *steps[0] == *old(program) && *final(steps.last()) == *final(program)
                &&& forall|k: int| 0 <= k < steps.len() - 1 ==> *steps[k + 1] == *final(#[trigger] steps[k])
            },
            i == self.passes@.len() ==> r is Ok && *final(program) == *old(program),
        decreases self.passes@.len() - i,
    {
        let ghost ps = self.passes@;
        if i >= self.passes.len() {
            proof {
                let steps = Seq::<&mut Program>::empty();
                let results = Seq::<Result<(), XLError>>::empty();
                assert(*final(program) == *program);
                assert(ran_in_order(ps, i as int, steps, results, Ok(())));
            }
            return Ok(());
        }
        let ghost before = *program;
        let ri = self.passes[i].pass.run(program);
        let ghost a = choose|a: &mut Program| #[trigger] ps[i as int].pass.runs(a, ri) && *a == before && *final(a) == *program;
        match ri {
            Err(e) => {
                proof {
                    let steps = seq![a];
                    let results = seq![ri];
                    assert(steps[0] == a);
                    assert(ps[i + 0].pass.runs(steps[0], results[0]));
                    assert(*final(program) == *program);
                    assert(ran_in_order(ps, i as int, steps, results, ri));
                    assert(*steps[0] == *old(program) && *final(steps.last()) == *final(program));
                }
                Err(e)
            },
            Ok(()) => {
                let ghost mid = *program;
                let ghost j: int = i + 1;
                let r = self.run_from(i + 1, program);
                proof {
                    let (s2, r2) = choose|s2: Seq<&mut Program>, r2: Seq<Result<(), XLError>>| {
                        &&& #[trigger] ran_in_order(self.passes(), j, s2, r2, r)
                        &&& s2.len() == 0 ==> *program == mid
                        &&& s2.len() > 0 ==> *s2[0] == mid && *final(s2.last()) == *program
                        &&& forall|k: int| 0 <= k < s2.len() - 1 ==> *s2[k + 1] == *final(#[trigger] s2[k])
                    };
                    assert(ran_in_order(ps, j, s2, r2, r));
                    let steps = seq![a] + s2;
                    let results = seq![ri] + r2;
                    assert(*final(program) == *program);
                    assert(steps[0] == a);
                    assert forall|k: int| #![trigger steps[k]] 0 <= k < steps.len() implies ps[i + k].pass.runs(steps[k], results[k]) by {
                        if k > 0 {
                            assert(steps[k] == s2[k - 1]);
                            assert(results[k] == r2[k - 1]);
                            assert(ps[j + (k - 1)].pass.runs(s2[k - 1], r2[k - 1]));
                        }
                    }
                    assert forall|k: int| 0 <= k < steps.len() - 1 implies #[trigger] results[k] is Ok by {
                        if k > 0 {
                            assert(results[k] == r2[k - 1]);
                        }
                    }
                    assert forall|k: int| 0 <= k < steps.len() - 1 implies *steps[k + 1] == *final(#[trigger] steps[k]) by {
                        if k > 0 {
                            assert(steps[k] == s2[k - 1]);
                            assert(steps[k + 1] == s2[k]);
                        }
                    }
                    if s2.len() > 0 {
                        assert(steps.last() == s2.last());
                        assert(results.last() == r2.last());
                    } else {
                        assert(results.last() == ri);
                    }
                    assert(0 <= i <= ps.len());
                    assert(steps.len() == results.len());
                    assert(steps.len() <= ps.len() - i);
                    assert(steps.len() < ps.len() - i ==> steps.len() > 0 && results.last() is Err);
                    assert(ran_in_order(ps, i as int, steps, results, r));
                }
                r
            },
        }
    }
}

/// A pass made of a function over programs.
pub struct FnPass<F> where F: Fn(&mut Program) -> Result<(), XLError> {
    func: F,
    name: &'static str,
    phase: Phase,
}

impl<F> FnPass<F> where F: Fn(&mut Program) -> Result<(), XLError> {
    /// The name given at construction.
    pub closed spec fn given_name(&self) -> &'static str {
        self.name
    }

    /// The function given at construction.
    pub closed spec fn function(&self) -> F {
        self.func
    }

    /// The phase given at construction.
    pub closed spec fn given_phase(&self) -> Phase {
        self.phase
    }

    #[verifier::type_invariant]
    spec fn callable(self) -> bool {
        forall|p: &mut Program| call_requires(self.func, (p,))
    }

    /// A pass named `name`, of phase `phase`, that runs `func`.
    pub fn new(name: &'static str, phase: Phase, func: F) -> (p: Self)
        requires
            forall|q: &mut Program| call_requires(func, (q,)),
        ensures
            p.given_name() == name,
            p.given_phase() == phase,
            p.function() == func,
    {
        FnPass { func, name, phase }
    }
}

/// A pass built by `FnPass::new(name, phase, func)` has that name and that
/// phase, and a run of it on a program is a call of `func` on that program:
/// it may give `r` exactly when the call may.
pub proof fn lemma_fn_pass_runs_its_function<F>(fp: FnPass<F>, name: &'static str, phase: Phase, func: F, p: &mut Program, r: Result<(), XLError>)
    where F: Fn(&mut Program) -> Result<(), XLError>
    requires
        fp.given_name() == name,
        fp.given_phase() == phase,
        fp.function() == func,
    ensures
        fp.runs(p, r) <==> call_ensures(func, (p,), r),
{
}

impl<F> Pass for FnPass<F> where F: Fn(&mut Program) -> Result<(), XLError> {
    /// A run is a call of the function.
    open spec fn runs(&self, p: &mut Program, r: Result<(), XLError>) -> bool {
        call_ensures(self.function(), (p,), r)
    }

    fn name(&self) -> (r: &'static str)
        ensures
            r == self.given_name(),
    {
        self.name
    }

    fn phase(&self) -> (r: Phase)
        ensures
            r == self.given_phase(),
    {
        self.phase
    }

    fn run(&self, program: &mut Program) -> (r: Result<(), XLError>) {
        proof {
            use_type_invariant(self);
        }
        let r = (self.func)(program);
        proof {
            assert(exists|a: &mut Program| call_ensures(self.func, (a,), r) && *a == *old(program) && *final(a) == *program);
            let a = choose|a: &mut Program| call_ensures(self.func, (a,), r) && *a == *old(program) && *final(a) == *program;
            assert(self.runs(a, r));
            assert(*final(program) == *program);
        }
        r
    }
}

} // verus!
