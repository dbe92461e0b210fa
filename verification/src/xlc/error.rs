//! Errors of the XL compiler `xlc`.

use vstd::prelude::*;

verus! {

#[derive(Debug)]
pub enum XLError {
    /// No token can be read from this byte range.
    LexError(usize, usize),
    ParseError(String),
    SemanticError(String),
    CodegenError(String),
}

/// The value of an error: messages as character sequences.
pub enum XLErrorView {
    LexError(usize, usize),
    ParseError(Seq<char>),
    SemanticError(Seq<char>),
    CodegenError(Seq<char>),
}

impl View for XLError {
    type V = XLErrorView;

    open spec fn view(&self) -> XLErrorView {
        match self {
            XLError::LexError(a, b) => XLErrorView::LexError(*a, *b),
            XLError::ParseError(m) => XLErrorView::ParseError(m@),
            XLError::SemanticError(m) => XLErrorView::SemanticError(m@),
            XLError::CodegenError(m) => XLErrorView::CodegenError(m@),
        }
    }
}

} // verus!
