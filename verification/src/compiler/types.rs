//! Types of the first front end.

use vstd::prelude::*;

verus! {

/// A value type: 32-bit integers or booleans.
#[derive(Debug, Clone, Copy, PartialEq, Eq, Structural)]
pub enum Type {
    I32,
    Bool,
}

/// The name under which a type is printed (a Rust type name).
pub open spec fn type_text(t: Type) -> Seq<char> {
    match t {
        Type::I32 => seq!['i', '3', '2'],
        Type::Bool => seq!['b', 'o', 'o', 'l'],
    }
}

impl Type {
    /// The name under which this type is printed.
    pub fn name(&self) -> (r: &'static str)
        ensures
            r@ == type_text(*self),
    {
        match self {
            Type::I32 => {
                proof { reveal_strlit("i32"); }
                "i32"
            },
            Type::Bool => {
                proof { reveal_strlit("bool"); }
                "bool"
            },
        }
    }
}

} // verus!
