//! Generation of Rust source text from the IR.

use vstd::prelude::*;

use super::ir::{Function as IRFunction, FunctionView, Instruction, Module, ValueId};
use super::types::{type_text, Type};
use crate::text::{chars_of, decimal, int_text, push_decimal, push_int, push_str, word_is};

verus! {

/// Names of values, indexed by value number (the empty text where none was given yet).
pub type Names = Seq<Seq<char>>;

/// The local name of value `v`: `tmp<v>`.
pub open spec fn tmp_name(v: ValueId) -> Seq<char> {
    "tmp"@ + decimal(v as nat)
}

/// `names` extended with empty names so that index `idx` exists.
pub open spec fn ensure_len(names: Names, idx: int) -> Names {
    if names.len() <= idx {
        names + Seq::new((idx + 1 - names.len()) as nat, |_k: int| Seq::<char>::empty())
    } else {
        names
    }
}

/// `names` after value `dest` is given its name.
pub open spec fn define(names: Names, dest: ValueId) -> Names {
    ensure_len(names, dest as int).update(dest as int, tmp_name(dest))
}

/// `    let tmp<dest> = <a> <op> <b>;` over the names after `dest` is defined, or `None`
/// where an operand has no entry in the name table.
pub open spec fn binary_code(names: Names, dest: ValueId, op: Seq<char>, lhs: ValueId, rhs: ValueId) -> Option<(Seq<char>, Names)> {
    let n = define(names, dest);
    if lhs < n.len() && rhs < n.len() {
        Some((
            "    let "@ + tmp_name(dest) + " = "@ + n[lhs as int] + op + n[rhs as int] + ";\n"@,
            n,
        ))
    } else {
        None
    }
}

/// The Rust statement for one instruction and the name table after it; `None` where the
/// instruction reads a value beyond the name table.
pub open spec fn instr_code(ins: Instruction, names: Names) -> Option<(Seq<char>, Names)> {
    match ins {
        Instruction::ConstInt { dest, value } => Some((
            "    let "@ + tmp_name(dest) + " = "@ + int_text(value as int) + "i32;\n"@,
            define(names, dest),
        )),
        Instruction::Add { dest, lhs, rhs } => binary_code(names, dest, " + "@, lhs, rhs),
        Instruction::Sub { dest, lhs, rhs } => binary_code(names, dest, " - "@, lhs, rhs),
        Instruction::Mul { dest, lhs, rhs } => binary_code(names, dest, " * "@, lhs, rhs),
        Instruction::Div { dest, lhs, rhs } => binary_code(names, dest, " / "@, lhs, rhs),
        Instruction::Return { value } => match value {
            Some(v) => if v < names.len() {
                Some(("    return "@ + names[v as int] + ";\n"@, names))
            } else {
                None
            },
            None => Some(("    return;\n"@, names)),
        },
    }
}

/// Prepends `pre` to the text of a result.
pub open spec fn after_text(pre: Seq<char>, r: Option<(Seq<char>, Names)>) -> Option<(Seq<char>, Names)> {
    match r {
        Some((t, n)) => Some((pre + t, n)),
        None => None,
    }
}

/// The code of `instrs[k..]`, starting from the name table `names`.
pub open spec fn instrs_code(instrs: Seq<Instruction>, k: int, names: Names) -> Option<(Seq<char>, Names)>
    decreases instrs.len() - k,
{
    if k < 0 || k >= instrs.len() {
        Some((Seq::empty(), names))
    } else {
        match instr_code(instrs[k], names) {
            None => None,
            Some((t, n)) => after_text(t, instrs_code(instrs, k + 1, n)),
        }
    }
}

/// The code of the blocks `blocks[b..]`, in order, starting from the name table `names`.
pub open spec fn blocks_code(blocks: Seq<Seq<Instruction>>, b: int, names: Names) -> Option<(Seq<char>, Names)>
    decreases blocks.len() - b,
{
    if b < 0 || b >= blocks.len() {
        Some((Seq::empty(), names))
    } else {
        match instrs_code(blocks[b], 0, names) {
            None => None,
            Some((t, n)) => after_text(t, blocks_code(blocks, b + 1, n)),
        }
    }
}

/// `arg<i>: <type>` for the parameters from `i` on, separated by commas.
pub open spec fn params_code(params: Seq<Type>, i: int) -> Seq<char>
    decreases params.len() - i,
{
    if i < 0 || i >= params.len() {
        Seq::empty()
    } else {
        (if i > 0 { ","@ } else { Seq::empty() }) + "arg"@ + decimal(i as nat) + ": "@ + type_text(params[i])
            + params_code(params, i + 1)
    }
}

/// The Rust function for an IR function (always declared to return `i32`), or `None`
/// where an instruction reads a value that has no name yet.
pub open spec fn function_code(f: FunctionView) -> Option<Seq<char>> {
    match blocks_code(f.blocks, 0, Seq::empty()) {
        Some((body, _)) => Some(
            "fn "@ + f.name + "("@ + params_code(f.params, 0) + ")"@ + " -> i32 {"@ + "\n"@ + body + "}\n\n"@,
        ),
        None => None,
    }
}

/// The functions `fs[i..]`, concatenated.
pub open spec fn functions_code(fs: Seq<FunctionView>, i: int) -> Seq<char>
    decreases fs.len() - i,
{
    if i < 0 || i >= fs.len() {
        Seq::empty()
    } else {
        function_code(fs[i]).unwrap() + functions_code(fs, i + 1)
    }
}

/// Every function of the module can be rendered.
pub open spec fn renderable(fs: Seq<FunctionView>) -> bool {
    forall|i: int| 0 <= i < fs.len() ==> (#[trigger] function_code(fs[i])) is Some
}

/// Whether some function is named `main`.
pub open spec fn has_main(fs: Seq<FunctionView>) -> bool {
    exists|i: int| 0 <= i < fs.len() && #[trigger] fs[i].name == "main"@
}

/// The Rust program for a module: a header comment, every function, and an empty
/// `main` when the module defines none.
pub open spec fn module_code(fs: Seq<FunctionView>) -> Seq<char> {
    "// Auto-generated Rust code from XL compiler (via IR)\n"@ + functions_code(fs, 0)
        + (if has_main(fs) { Seq::empty() } else { "fn main() {}\n"@ })
}

/// Rust source text for a module.
pub fn generate_rust(module: &Module) -> (out: String)
    requires
        renderable(module@),
    ensures
        out@ == module_code(module@),
{
    let ghost fs = module@;
    let mut out = String::new();
    push_str(&mut out, "// Auto-generated Rust code from XL compiler (via IR)\n");
    let ghost head = out@;
    let mut i: usize = 0;
    while i < module.functions.len()
        invariant
            i <= module.functions@.len(),
            fs == module@,
            renderable(fs),
            head + functions_code(fs, 0) == out@ + functions_code(fs, i as int),
        decreases module.functions@.len() - i,
    {
        assert(fs[i as int] == module.functions@[i as int]@);
        assert(function_code(fs[i as int]) is Some);
        let ghost before = out@;
        gen_function(&module.functions[i], &mut out);
        assert(before + functions_code(fs, i as int) =~= out@ + functions_code(fs, i + 1));
        i += 1;
    }
    assert(functions_code(fs, i as int) =~= Seq::<char>::empty());
    let mut found = false;
    let mut k: usize = 0;
    while k < module.functions.len()
        invariant
            k <= module.functions@.len(),
            fs == module@,
            found ==> exists|j: int| 0 <= j < k && #[trigger] fs[j].name == "main"@,
            !found ==> forall|j: int| 0 <= j < k ==> #[trigger] fs[j].name != "main"@,
        decreases module.functions@.len() - k,
    {
        assert(fs[k as int] == module.functions@[k as int]@);
        if is_main(&module.functions[k].name) {
            found = true;
            assert(fs[k as int].name == "main"@);
        }
        k += 1;
    }
    if !found {
        push_str(&mut out, "fn main() {}\n");
    }
    assert(out@ =~= module_code(fs));
    out
}

fn is_main(name: &String) -> (r: bool)
    ensures
        r == (name@ == "main"@),
{
    proof { reveal_strlit("main"); }
    let v = chars_of(name.as_str());
    let w = ['m', 'a', 'i', 'n'];
    assert(w@ =~= "main"@);
    assert(v@.subrange(0, v@.len() as int) =~= v@);
    word_is(&v, 0, v.len(), &w)
}

fn push_tmp(out: &mut String, v: ValueId)
    ensures
        final(out)@ == old(out)@ + tmp_name(v),
{
    push_str(out, "tmp");
    push_decimal(out, v as u64);
    assert(final(out)@ =~= old(out)@ + tmp_name(v));
}

/// The names held by a name table.
pub open spec fn names_view(v: Seq<String>) -> Names {
    v.map_values(|s: String| s@)
}

/// Pads the name table with empty names so that index `idx` exists.
fn ensure_size(names: &mut Vec<String>, idx: usize)
    ensures
        names_view(final(names)@) == ensure_len(names_view(old(names)@), idx as int),
{
    let ghost n0 = names_view(names@);
    while names.len() <= idx
        invariant
            n0.len() <= idx ==> names_view(names@) =~= n0 + Seq::new((names@.len() - n0.len()) as nat, |_k: int| Seq::<char>::empty()),
            n0.len() <= idx ==> n0.len() <= names@.len() <= idx + 1,
            n0.len() > idx ==> names_view(names@) == n0,
        decreases idx + 1 - names@.len(),
    {
        let ghost before = names@;
        let e = String::new();
        names.push(e);
        assert(names_view(names@) =~= names_view(before).push(e@));
    }
    assert(names_view(names@) =~= ensure_len(n0, idx as int));
}

fn define_name(names: &mut Vec<String>, dest: ValueId)
    ensures
        names_view(final(names)@) == define(names_view(old(names)@), dest),
{
    let ghost n0 = names_view(names@);
    ensure_size(names, dest);
    let mut s = String::new();
    push_tmp(&mut s, dest);
    names.set(dest, s);
    assert(names_view(names@) =~= define(n0, dest));
}

fn gen_binary(names: &mut Vec<String>, out: &mut String, dest: ValueId, op: &str, lhs: ValueId, rhs: ValueId)
    requires
        binary_code(names_view(old(names)@), dest, op@, lhs, rhs) is Some,
    ensures
        binary_code(names_view(old(names)@), dest, op@, lhs, rhs) == Some((
            final(out)@.subrange(old(out)@.len() as int, final(out)@.len() as int),
            names_view(final(names)@),
        )),
        final(out)@.subrange(0, old(out)@.len() as int) == old(out)@,
        old(out)@.len() <= final(out)@.len(),
{
    define_name(names, dest);
    push_str(out, "    let ");
    push_tmp(out, dest);
    push_str(out, " = ");
    push_str(out, names[lhs].as_str());
    push_str(out, op);
    push_str(out, names[rhs].as_str());
    push_str(out, ";\n");
    let ghost n = names_view(names@);
    assert(out@.subrange(old(out)@.len() as int, out@.len() as int)
        =~= "    let "@ + tmp_name(dest) + " = "@ + n[lhs as int] + op@ + n[rhs as int] + ";\n"@);
    assert(out@.subrange(0, old(out)@.len() as int) =~= old(out)@);
}

fn gen_instr(ins: Instruction, names: &mut Vec<String>, out: &mut String)
    requires
        instr_code(ins, names_view(old(names)@)) is Some,
    ensures
        instr_code(ins, names_view(old(names)@)) == Some((
            final(out)@.subrange(old(out)@.len() as int, final(out)@.len() as int),
            names_view(final(names)@),
        )),
        final(out)@.subrange(0, old(out)@.len() as int) == old(out)@,
        old(out)@.len() <= final(out)@.len(),
{
    match ins {
        Instruction::ConstInt { dest, value } => {
            define_name(names, dest);
            push_str(out, "    let ");
            push_tmp(out, dest);
            push_str(out, " = ");
            push_int(out, value);
            push_str(out, "i32;\n");
            assert(out@.subrange(old(out)@.len() as int, out@.len() as int)
                =~= "    let "@ + tmp_name(dest) + " = "@ + int_text(value as int) + "i32;\n"@);
        },
        Instruction::Add { dest, lhs, rhs } => gen_binary(names, out, dest, " + ", lhs, rhs),
        Instruction::Sub { dest, lhs, rhs } => gen_binary(names, out, dest, " - ", lhs, rhs),
        Instruction::Mul { dest, lhs, rhs } => gen_binary(names, out, dest, " * ", lhs, rhs),
        Instruction::Div { dest, lhs, rhs } => gen_binary(names, out, dest, " / ", lhs, rhs),
        Instruction::Return { value } => {
            match value {
                Some(v) => {
                    push_str(out, "    return ");
                    push_str(out, names[v].as_str());
                    push_str(out, ";\n");
                    assert(out@.subrange(old(out)@.len() as int, out@.len() as int)
                        =~= "    return "@ + names_view(names@)[v as int] + ";\n"@);
                },
                None => {
                    push_str(out, "    return;\n");
                    assert(out@.subrange(old(out)@.len() as int, out@.len() as int) =~= "    return;\n"@);
                },
            }
        },
    }
    assert(out@.subrange(0, old(out)@.len() as int) =~= old(out)@);
}

fn gen_function(fun: &IRFunction, out: &mut String)
    requires
        function_code(fun@) is Some,
    ensures
        final(out)@ == old(out)@ + function_code(fun@).unwrap(),
{
    let ghost f = fun@;
    push_str(out, "fn ");
    push_str(out, fun.name.as_str());
    push_str(out, "(");
    let ghost hstart = out@;
    let mut i: usize = 0;
    while i < fun.params.len()
        invariant
            i <= fun.params@.len(),
            f == fun@,
            hstart + params_code(f.params, 0) == out@ + params_code(f.params, i as int),
        decreases fun.params@.len() - i,
    {
        let ghost before = out@;
        if i > 0 {
            push_str(out, ",");
        }
        push_str(out, "arg");
        push_decimal(out, i as u64);
        push_str(out, ": ");
        push_str(out, fun.params[i].name());
        assert(before + params_code(f.params, i as int) =~= out@ + params_code(f.params, i + 1));
        i += 1;
    }
    assert(params_code(f.params, i as int) =~= Seq::<char>::empty());
    push_str(out, ")");
    push_str(out, " -> i32 {");
    push_str(out, "\n");
    let ghost bstart = out@;
    let mut value_names: Vec<String> = Vec::new();
    assert(names_view(value_names@) =~= Seq::<Seq<char>>::empty());
    assert(out@.subrange(bstart.len() as int, out@.len() as int) =~= Seq::<char>::empty());
    let mut b: usize = 0;
    while b < fun.blocks.len()
        invariant
            b <= fun.blocks@.len(),
            f == fun@,
            blocks_code(f.blocks, 0, Seq::empty()) == after_text(
                out@.subrange(bstart.len() as int, out@.len() as int),
                blocks_code(f.blocks, b as int, names_view(value_names@)),
            ),
            blocks_code(f.blocks, 0, Seq::empty()) is Some,
            bstart.len() <= out@.len(),
            out@.subrange(0, bstart.len() as int) == bstart,
        decreases fun.blocks@.len() - b,
    {
        assert(f.blocks[b as int] == fun.blocks@[b as int].instrs@);
        let block = &fun.blocks[b];
        let ghost names0 = names_view(value_names@);
        let ghost out0 = out@;
        assert(out@.subrange(out0.len() as int, out@.len() as int) =~= Seq::<char>::empty());
        let mut k: usize = 0;
        while k < block.instrs.len()
            invariant
                k <= block.instrs@.len(),
                f == fun@,
                f.blocks[b as int] == block.instrs@,
                b < f.blocks.len(),
                instrs_code(block.instrs@, 0, names0) is Some,
                instrs_code(block.instrs@, 0, names0) == after_text(
                    out@.subrange(out0.len() as int, out@.len() as int),
                    instrs_code(block.instrs@, k as int, names_view(value_names@)),
                ),
                out0.len() <= out@.len(),
                out@.subrange(0, out0.len() as int) == out0,
            decreases block.instrs@.len() - k,
        {
            let ghost o1 = out@;
            let ghost n1 = names_view(value_names@);
            gen_instr(block.instrs[k], &mut value_names, out);
            assert(out@.subrange(out0.len() as int, out@.len() as int)
                =~= o1.subrange(out0.len() as int, o1.len() as int) + out@.subrange(o1.len() as int, out@.len() as int));
            assert(out@.subrange(0, out0.len() as int) =~= o1.subrange(0, out0.len() as int));
            proof {
                let t = out@.subrange(o1.len() as int, out@.len() as int);
                let d = o1.subrange(out0.len() as int, o1.len() as int);
                match instrs_code(block.instrs@, k + 1, names_view(value_names@)) {
                    Some((rest, n)) => {
                        assert(d + (t + rest) =~= (d + t) + rest);
                    },
                    None => {},
                }
            }
            k += 1;
        }
        proof {
            let d = out@.subrange(out0.len() as int, out@.len() as int);
            let pre = out0.subrange(bstart.len() as int, out0.len() as int);
            assert(instrs_code(block.instrs@, k as int, names_view(value_names@)) == Some((Seq::<char>::empty(), names_view(value_names@))));
            assert(d + Seq::<char>::empty() =~= d);
            assert(out@.subrange(bstart.len() as int, out@.len() as int) =~= pre + d);
            assert(out@.subrange(0, bstart.len() as int) =~= out0.subrange(0, bstart.len() as int));
            match blocks_code(f.blocks, b + 1, names_view(value_names@)) {
                Some((rest, n)) => {
                    assert(pre + (d + rest) =~= (pre + d) + rest);
                },
                None => {},
            }
        }
        b += 1;
    }
    proof {
        let d = out@.subrange(bstart.len() as int, out@.len() as int);
        assert(d + Seq::<char>::empty() =~= d);
        assert(out@ =~= bstart + d);
    }
    push_str(out, "}\n\n");
    assert(final(out)@ =~= old(out)@ + function_code(fun@).unwrap());
}

/// Each arithmetic instruction is printed as a `let` of its destination's
/// name bound to its left operand's name, the Rust operator of the same
/// operation (`+` for `Add`, `-` for `Sub`, `*` for `Mul`, `/` for `Div`),
/// and its right operand's name, in that order.
pub proof fn lemma_arithmetic_printed_with_its_operator(names: Names, dest: ValueId, lhs: ValueId, rhs: ValueId)
    requires
        lhs < define(names, dest).len(),
        rhs < define(names, dest).len(),
    ensures
        ({
            let n = define(names, dest);
            let text = |op: Seq<char>| "    let "@ + tmp_name(dest) + " = "@ + n[lhs as int] + op + n[rhs as int] + ";\n"@;
            &&& instr_code(Instruction::Add { dest, lhs, rhs }, names) == Some((text(" + "@), n))
            &&& instr_code(Instruction::Sub { dest, lhs, rhs }, names) == Some((text(" - "@), n))
            &&& instr_code(Instruction::Mul { dest, lhs, rhs }, names) == Some((text(" * "@), n))
            &&& instr_code(Instruction::Div { dest, lhs, rhs }, names) == Some((text(" / "@), n))
        }),
{
}

/// The other instructions: a constant is a `let` of its destination's name
/// bound to the constant's decimal text with the `i32` suffix, and a return
/// gives back the name of its value, or nothing. A destination takes the name
/// `tmp<dest>`; the names of other values stay as they were.
pub proof fn lemma_constants_returns_and_names(names: Names, dest: ValueId, value: i64, v: ValueId)
    ensures
        instr_code(Instruction::ConstInt { dest, value }, names)
            == Some(("    let "@ + "tmp"@ + decimal(dest as nat) + " = "@ + int_text(value as int) + "i32;\n"@, define(names, dest))),
        v < names.len() ==> instr_code(Instruction::Return { value: Some(v) }, names) == Some(("    return "@ + names[v as int] + ";\n"@, names)),
        v >= names.len() ==> instr_code(Instruction::Return { value: Some(v) }, names) is None,
        instr_code(Instruction::Return { value: None }, names) == Some(("    return;\n"@, names)),
        define(names, dest).len() == if names.len() <= dest { dest + 1 } else { names.len() as int },
        define(names, dest)[dest as int] == "tmp"@ + decimal(dest as nat),
        forall|k: int| 0 <= k < names.len() && k != dest ==> #[trigger] define(names, dest)[k] == names[k],
{
    let n = ensure_len(names, dest as int);
    assert forall|k: int| 0 <= k < names.len() && k != dest implies #[trigger] define(names, dest)[k] == names[k] by {
        if names.len() <= dest {
            assert(n[k] == names[k]);
        }
    }
}

} // verus!
