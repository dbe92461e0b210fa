//! Promotion of memory to registers: not done yet, the pass changes nothing.

use vstd::prelude::*;

use super::super::{Function, SSAPass};

verus! {

pub struct Mem2Reg;

impl SSAPass for Mem2Reg {
    open spec fn label(&self) -> Seq<char> {
        "mem2reg"@
    }

    /// It changes nothing and reports no change.
    open spec fn transforms(&self, before: Function, after: Function, changed: bool) -> bool {
        after == before && !changed
    }

    fn name(&self) -> (r: &'static str)
        ensures
            r@ == "mem2reg"@,
    {
        "mem2reg"
    }

    fn run(&self, _func: &mut Function) -> (changed: bool)
        ensures
            !changed,
            *final(_func) == *old(_func),
    {
        false
    }
}

} // verus!
