//! Semantic checks of an `xlc` program: function names are unique, and each
//! `return` gives a value of the function's return type.

use vstd::prelude::*;

use super::ast::{Expr, ExprView, Function, FunctionView, Program, Stmt, StmtView, Type};
use super::error::{XLError, XLErrorView};
use crate::text::push_str;

verus! {

/// The `Debug` text of a type: its variant name.
pub open spec fn type_debug(t: Type) -> Seq<char> {
    match t {
        Type::Int => "Int"@,
        Type::Bool => "Bool"@,
        Type::String => "String"@,
        Type::Void => "Void"@,
    }
}

fn push_type_debug(out: &mut String, t: Type)
    ensures
        final(out)@ == old(out)@ + type_debug(t),
{
    match t {
        Type::Int => push_str(out, "Int"),
        Type::Bool => push_str(out, "Bool"),
        Type::String => push_str(out, "String"),
        Type::Void => push_str(out, "Void"),
    }
}

/// The return type declared for `name`: that of the first function of that
/// name.
pub open spec fn sig_lookup(sigs: Seq<(Seq<char>, Type)>, name: Seq<char>) -> Option<Type>
    decreases sigs.len(),
{
    if sigs.len() == 0 {
        None
    } else if sigs[0].0 == name {
        Some(sigs[0].1)
    } else {
        sig_lookup(sigs.drop_first(), name)
    }
}

/// The signatures that a list of functions declares.
pub open spec fn sigs_of(fs: Seq<FunctionView>) -> Seq<(Seq<char>, Type)> {
    fs.map_values(|f: FunctionView| (f.name, f.return_type))
}

/// The type of an expression, or the message of the error that the checks
/// report for it.
pub open spec fn spec_infer(e: ExprView, sigs: Seq<(Seq<char>, Type)>) -> Result<Type, Seq<char>>
    decreases e,
{
    match e {
        ExprView::Int(_) => Ok(Type::Int),
        ExprView::Bool(_) => Ok(Type::Bool),
        ExprView::String(_) => Ok(Type::String),
        ExprView::Ident(n) => match sig_lookup(sigs, n) {
            Some(t) => Ok(t),
            None => Err("unknown identifier "@ + n),
        },
        ExprView::Binary { left, right, .. } => match spec_infer(*left, sigs) {
            Err(m) => Err(m),
            Ok(l) => match spec_infer(*right, sigs) {
                Err(m) => Err(m),
                Ok(r) => if l == r {
                    Ok(l)
                } else {
                    Err("type mismatch in binary expression: "@ + type_debug(l) + " vs "@ + type_debug(r))
                },
            },
        },
        ExprView::Call { callee, .. } => match sig_lookup(sigs, callee) {
            Some(t) => Ok(t),
            None => Err("unknown function "@ + callee),
        },
        ExprView::Match { .. } => Err("unsupported expression: match"@),
    }
}

/// The check of the statements of `f` from index `i` on: each `return` must
/// give a value of the return type; other statements are not looked at.
pub open spec fn check_stmts(f: FunctionView, sigs: Seq<(Seq<char>, Type)>, i: int) -> Result<(), Seq<char>>
    decreases f.body.len() - i,
{
    if i < 0 || i >= f.body.len() {
        Ok(())
    } else {
        match f.body[i] {
            StmtView::Return(e) => match spec_infer(e, sigs) {
                Err(m) => Err(m),
                Ok(t) => if t != f.return_type {
                    Err("return type mismatch in function "@ + f.name + ": expected "@ + type_debug(f.return_type)
                        + ", found "@ + type_debug(t))
                } else {
                    check_stmts(f, sigs, i + 1)
                },
            },
            _ => check_stmts(f, sigs, i + 1),
        }
    }
}

/// The checks of the functions from index `i` on, in order.
pub open spec fn check_functions(fs: Seq<FunctionView>, sigs: Seq<(Seq<char>, Type)>, i: int) -> Result<(), Seq<char>>
    decreases fs.len() - i,
{
    if i < 0 || i >= fs.len() {
        Ok(())
    } else {
        match check_stmts(fs[i], sigs, 0) {
            Err(m) => Err(m),
            Ok(()) => check_functions(fs, sigs, i + 1),
        }
    }
}

/// Whether the `j`-th function repeats the name of an earlier one.
pub open spec fn repeats_name(fs: Seq<FunctionView>, j: int) -> bool {
    exists|i: int| 0 <= i < j && #[trigger] fs[i].name == fs[j].name
}

/// The name of the first function, from index `j` on, that repeats an
/// earlier name.
pub open spec fn first_repeat(fs: Seq<FunctionView>, j: int) -> Option<Seq<char>>
    decreases fs.len() - j,
{
    if j < 0 || j >= fs.len() {
        None
    } else if repeats_name(fs, j) {
        Some(fs[j].name)
    } else {
        first_repeat(fs, j + 1)
    }
}

/// What the semantic checks make of a program: the message of the first
/// error, if any.
pub open spec fn spec_analyze(fs: Seq<FunctionView>) -> Result<(), Seq<char>> {
    match first_repeat(fs, 0) {
        Some(n) => Err("duplicate function "@ + n),
        None => check_functions(fs, sigs_of(fs), 0),
    }
}

/// Whether an outcome of the checks is the one that `s` describes.
pub open spec fn semantic_outcome(r: Result<(), XLError>, s: Result<(), Seq<char>>) -> bool {
    match (r, s) {
        (Ok(()), Ok(())) => true,
        (Err(e), Err(m)) => e@ == XLErrorView::SemanticError(m),
        _ => false,
    }
}

/// The declared functions, by name.
struct Context {
    functions: Vec<(String, Type)>,
}

impl Context {
    spec fn sigs(&self) -> Seq<(Seq<char>, Type)> {
        self.functions@.map_values(|p: (String, Type)| (p.0@, p.1))
    }

    fn new() -> (c: Context)
        ensures
            c.sigs() == Seq::<(Seq<char>, Type)>::empty(),
    {
        let c = Context { functions: Vec::new() };
        assert(c.sigs() =~= Seq::<(Seq<char>, Type)>::empty());
        c
    }

    /// The return type declared for `name`.
    fn lookup(&self, name: &String) -> (r: Option<Type>)
        ensures
            r == sig_lookup(self.sigs(), name@),
    {
        let ghost s = self.sigs();
        let mut i: usize = 0;
        proof {
            assert(s.skip(0) =~= s);
        }
        while i < self.functions.len()
            invariant
                i <= self.functions@.len(),
                s == self.sigs(),
                s.len() == self.functions@.len(),
                sig_lookup(s, name@) == sig_lookup(s.skip(i as int), name@),
            decreases self.functions@.len() - i,
        {
            assert(s.skip(i as int)[0] == s[i as int]);
            if self.functions[i].0 == *name {
                return Some(self.functions[i].1);
            }
            assert(s.skip(i as int).drop_first() =~= s.skip(i + 1));
            i += 1;
        }
        None
    }
}

fn infer_expr_type(expr: &Expr, ctx: &Context) -> (r: Result<Type, XLError>)
    ensures
        match (r, spec_infer(expr@, ctx.sigs())) {
            (Ok(t), Ok(u)) => t == u,
            (Err(e), Err(m)) => e@ == XLErrorView::SemanticError(m),
            _ => false,
        },
    decreases expr,
{
    match expr {
        Expr::Int(_) => Ok(Type::Int),
        Expr::Bool(_) => Ok(Type::Bool),
        Expr::String(_) => Ok(Type::String),
        Expr::Ident(name) => match ctx.lookup(name) {
            Some(t) => Ok(t),
            None => {
                let mut m = String::new();
                push_str(&mut m, "unknown identifier ");
                push_str(&mut m, name.as_str());
                Err(XLError::SemanticError(m))
            },
        },
        Expr::Binary { left, right, .. } => {
            let lty = infer_expr_type(&**left, ctx)?;
            let rty = infer_expr_type(&**right, ctx)?;
            if lty == rty {
                Ok(lty)
            } else {
                let mut m = String::new();
                push_str(&mut m, "type mismatch in binary expression: ");
                push_type_debug(&mut m, lty);
                push_str(&mut m, " vs ");
                push_type_debug(&mut m, rty);
                Err(XLError::SemanticError(m))
            }
        },
        Expr::Call { callee, .. } => match ctx.lookup(callee) {
            Some(t) => Ok(t),
            None => {
                let mut m = String::new();
                push_str(&mut m, "unknown function ");
                push_str(&mut m, callee.as_str());
                Err(XLError::SemanticError(m))
            },
        },
        Expr::Match { .. } => {
            let mut m = String::new();
            push_str(&mut m, "unsupported expression: match");
            Err(XLError::SemanticError(m))
        },
    }
}

fn analyze_function(func: &Function, ctx: &Context) -> (r: Result<(), XLError>)
    ensures
        semantic_outcome(r, check_stmts(func@, ctx.sigs(), 0)),
{
    let ghost fv = func@;
    let mut i: usize = 0;
    while i < func.body.stmts.len()
        invariant
            i <= func.body.stmts@.len(),
            fv == func@,
            fv.body.len() == func.body.stmts@.len(),
            check_stmts(fv, ctx.sigs(), 0) == check_stmts(fv, ctx.sigs(), i as int),
        decreases func.body.stmts@.len() - i,
    {
        assert(fv.body[i as int] == func.body.stmts@[i as int]@);
        match &func.body.stmts[i] {
            Stmt::Return(expr) => {
                let ty = infer_expr_type(expr, ctx)?;
                if ty != func.return_type {
                    let mut m = String::new();
                    push_str(&mut m, "return type mismatch in function ");
                    push_str(&mut m, func.name.as_str());
                    push_str(&mut m, ": expected ");
                    push_type_debug(&mut m, func.return_type);
                    push_str(&mut m, ", found ");
                    push_type_debug(&mut m, ty);
                    return Err(XLError::SemanticError(m));
                }
            },
            _ => {},
        }
        i += 1;
    }
    Ok(())
}

/// Checks a program: no two functions share a name (the first repeated name
/// is reported), then, function by function, each `return` gives a value of
/// the function's return type. Identifiers and calls take the return type of
/// the function they name; the two sides of a binary expression must have the
/// same type.
pub fn analyze(program: &Program) -> (r: Result<(), XLError>)
    ensures
        semantic_outcome(r, spec_analyze(program@)),
{
    let ghost fs = program@;
    let mut ctx = Context::new();
    let mut j: usize = 0;
    while j < program.functions.len()
        invariant
            j <= program.functions@.len(),
            fs == program@,
            fs.len() == program.functions@.len(),
            ctx.sigs() == sigs_of(fs.take(j as int)),
            ctx.functions@.len() == j,
            first_repeat(fs, 0) == first_repeat(fs, j as int),
        decreases program.functions@.len() - j,
    {
        let func = &program.functions[j];
        assert(fs[j as int] == func@);
        let mut k: usize = 0;
        let mut seen = false;
        while k < ctx.functions.len()
            invariant
                k <= ctx.functions@.len(),
                ctx.functions@.len() == j,
                j < fs.len(),
                ctx.sigs() == sigs_of(fs.take(j as int)),
                fs[j as int] == func@,
                seen == exists|i: int| 0 <= i < k && #[trigger] fs[i].name == fs[j as int].name,
            decreases ctx.functions@.len() - k,
        {
            assert(ctx.sigs()[k as int] == (ctx.functions@[k as int].0@, ctx.functions@[k as int].1));
            assert(fs.take(j as int)[k as int] == fs[k as int]);
            assert(sigs_of(fs.take(j as int))[k as int].0 == fs[k as int].name);
            if ctx.functions[k].0 == func.name {
                seen = true;
            }
            k += 1;
        }
        if seen {
            let mut m = String::new();
            push_str(&mut m, "duplicate function ");
            push_str(&mut m, func.name.as_str());
            return Err(XLError::SemanticError(m));
        }
        let ghost old_functions = ctx.functions@;
        let ghost old_sigs = ctx.sigs();
        ctx.functions.push((func.name.clone(), func.return_type));
        proof {
            assert forall|x: int| 0 <= x < j + 1 implies #[trigger] ctx.sigs()[x] == sigs_of(fs.take(j + 1))[x] by {
                assert(fs.take(j + 1)[x] == fs[x]);
                assert(ctx.sigs()[x] == (ctx.functions@[x].0@, ctx.functions@[x].1));
                assert(sigs_of(fs.take(j + 1))[x] == (fs[x].name, fs[x].return_type));
                if x < j {
                    assert(fs.take(j as int)[x] == fs[x]);
                    assert(ctx.functions@[x] == old_functions[x]);
                    assert(old_sigs[x] == (old_functions[x].0@, old_functions[x].1));
                    assert(sigs_of(fs.take(j as int))[x] == (fs[x].name, fs[x].return_type));
                } else {
                    assert(ctx.functions@[x].0@ == func.name@);
                }
            }
            assert(ctx.sigs() =~= sigs_of(fs.take(j + 1)));
        }
        j += 1;
    }
    proof {
        assert(fs.take(j as int) =~= fs);
        assert(first_repeat(fs, j as int) is None);
    }
    let mut i: usize = 0;
    while i < program.functions.len()
        invariant
            i <= program.functions@.len(),
            fs == program@,
            fs.len() == program.functions@.len(),
            ctx.sigs() == sigs_of(fs),
            first_repeat(fs, 0) is None,
            check_functions(fs, sigs_of(fs), 0) == check_functions(fs, sigs_of(fs), i as int),
        decreases program.functions@.len() - i,
    {
        assert(fs[i as int] == program.functions@[i as int]@);
        analyze_function(&program.functions[i], &ctx)?;
        i += 1;
    }
    Ok(())
}

} // verus!
