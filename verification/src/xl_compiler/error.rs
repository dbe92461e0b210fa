//! Errors of the second front end.

use vstd::prelude::*;

verus! {

#[derive(Debug)]
pub enum XLError {
    Parse(String),
}

} // verus!
