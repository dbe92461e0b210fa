//! XL: a small compiler-construction language, with verified front ends.

pub mod compiler;
pub mod text;
pub mod xl_compiler;
pub mod xlc;
