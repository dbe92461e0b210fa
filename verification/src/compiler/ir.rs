//! Three-address intermediate representation of the first front end.

use vstd::prelude::*;

use super::types::Type;
use crate::text::{decimal, int_text, push_decimal, push_int, push_str};

verus! {

pub type ValueId = usize;

#[derive(Debug, Clone)]
pub struct Function {
    pub name: String,
    pub params: Vec<Type>,
    pub blocks: Vec<BasicBlock>,
}

#[derive(Debug, Clone)]
pub struct BasicBlock {
    pub instrs: Vec<Instruction>,
}

#[derive(Debug, Clone, Copy, PartialEq, Eq, Structural)]
pub enum Instruction {
    ConstInt { dest: ValueId, value: i64 },
    Add { dest: ValueId, lhs: ValueId, rhs: ValueId },
    Sub { dest: ValueId, lhs: ValueId, rhs: ValueId },
    Mul { dest: ValueId, lhs: ValueId, rhs: ValueId },
    Div { dest: ValueId, lhs: ValueId, rhs: ValueId },
    Return { value: Option<ValueId> },
}

#[derive(Debug, Clone)]
pub struct Module {
    pub functions: Vec<Function>,
}

/// The value of an IR function: its name, parameter types and the instructions of each block.
pub struct FunctionView {
    pub name: Seq<char>,
    pub params: Seq<Type>,
    pub blocks: Seq<Seq<Instruction>>,
}

impl View for BasicBlock {
    type V = Seq<Instruction>;

    open spec fn view(&self) -> Seq<Instruction> {
        self.instrs@
    }
}

impl View for Function {
    type V = FunctionView;

    open spec fn view(&self) -> FunctionView {
        FunctionView {
            name: self.name@,
            params: self.params@,
            blocks: self.blocks@.map_values(|b: BasicBlock| b@),
        }
    }
}

impl View for Module {
    type V = Seq<FunctionView>;

    open spec fn view(&self) -> Seq<FunctionView> {
        self.functions@.map_values(|f: Function| f@)
    }
}

/// `%n`
pub open spec fn value_text(v: ValueId) -> Seq<char> {
    seq!['%'] + decimal(v as nat)
}

/// `%d = <op> %l, %r`
pub open spec fn binary_text(dest: ValueId, op: Seq<char>, lhs: ValueId, rhs: ValueId) -> Seq<char> {
    value_text(dest) + seq![' ', '=', ' '] + op + seq![' '] + value_text(lhs) + seq![',', ' '] + value_text(rhs)
}

/// The textual form of an instruction.
pub open spec fn instruction_text(i: Instruction) -> Seq<char> {
    match i {
        Instruction::ConstInt { dest, value } => value_text(dest) + seq![' ', '=', ' ', 'c', 'o', 'n', 's', 't', ' '] + int_text(value as int),
        Instruction::Add { dest, lhs, rhs } => binary_text(dest, seq!['a', 'd', 'd'], lhs, rhs),
        Instruction::Sub { dest, lhs, rhs } => binary_text(dest, seq!['s', 'u', 'b'], lhs, rhs),
        Instruction::Mul { dest, lhs, rhs } => binary_text(dest, seq!['m', 'u', 'l'], lhs, rhs),
        Instruction::Div { dest, lhs, rhs } => binary_text(dest, seq!['d', 'i', 'v'], lhs, rhs),
        Instruction::Return { value } => match value {
            Some(v) => seq!['r', 'e', 't', ' '] + value_text(v),
            None => seq!['r', 'e', 't'],
        },
    }
}

fn push_value(s: &mut String, v: ValueId)
    ensures
        final(s)@ == old(s)@ + value_text(v),
{
    proof { reveal_strlit("%"); }
    push_str(s, "%");
    push_decimal(s, v as u64);
    assert(final(s)@ =~= old(s)@ + value_text(v));
}

fn push_binary(s: &mut String, dest: ValueId, op: &str, lhs: ValueId, rhs: ValueId)
    ensures
        final(s)@ == old(s)@ + binary_text(dest, op@, lhs, rhs),
{
    proof {
        reveal_strlit(" = ");
        reveal_strlit(" ");
        reveal_strlit(", ");
    }
    push_value(s, dest);
    push_str(s, " = ");
    push_str(s, op);
    push_str(s, " ");
    push_value(s, lhs);
    push_str(s, ", ");
    push_value(s, rhs);
    assert(final(s)@ =~= old(s)@ + binary_text(dest, op@, lhs, rhs));
}

impl Instruction {
    /// The textual form of this instruction, e.g. `%2 = add %0, %1`.
    pub fn render(&self) -> (r: String)
        ensures
            r@ == instruction_text(*self),
    {
        let mut s = String::new();
        proof {
            reveal_strlit(" = const ");
            reveal_strlit("add");
            reveal_strlit("sub");
            reveal_strlit("mul");
            reveal_strlit("div");
            reveal_strlit("ret ");
            reveal_strlit("ret");
        }
        match *self {
            Instruction::ConstInt { dest, value } => {
                push_value(&mut s, dest);
                push_str(&mut s, " = const ");
                push_int(&mut s, value);
            },
            Instruction::Add { dest, lhs, rhs } => push_binary(&mut s, dest, "add", lhs, rhs),
            Instruction::Sub { dest, lhs, rhs } => push_binary(&mut s, dest, "sub", lhs, rhs),
            Instruction::Mul { dest, lhs, rhs } => push_binary(&mut s, dest, "mul", lhs, rhs),
            Instruction::Div { dest, lhs, rhs } => push_binary(&mut s, dest, "div", lhs, rhs),
            Instruction::Return { value } => match value {
                Some(v) => {
                    push_str(&mut s, "ret ");
                    push_value(&mut s, v);
                },
                None => push_str(&mut s, "ret"),
            },
        }
        assert(s@ =~= instruction_text(*self));
        s
    }
}

impl Module {
    /// A module with no functions.
    pub fn new() -> (m: Self)
        ensures
            m@ == Seq::<FunctionView>::empty(),
    {
        let m = Self { functions: Vec::new() };
        assert(m@ =~= Seq::<FunctionView>::empty());
        m
    }
}

} // verus!
