//! Types, substitutions, environments, unification and inference.

pub mod kind;
pub mod ty;
pub mod subst;
pub mod scheme;
pub mod env;
pub mod infer;
pub mod unify;

pub use kind::Kind;
pub use ty::{Ty, Tv};
pub use infer::{infer_expr, TypeError};
