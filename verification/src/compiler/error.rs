//! Errors of the first front end.

use vstd::prelude::*;

use super::lexer::TokenKind;
use super::types::{Type, type_text};
use crate::text::{int_text, push_decimal, push_int, push_str};

verus! {

/// Why a type check failed.
#[derive(Debug, Clone, PartialEq, Eq, Structural)]
pub enum TypeError {
    /// A `return` whose expression does not have the declared return type.
    ReturnMismatch { expected: Type, found: Type },
    /// The two operands of a binary expression have different types.
    OperandMismatch { left: Type, right: Type },
    /// An arithmetic operator applied to non-integer operands.
    ArithmeticOperands,
    /// A logical operator applied to non-boolean operands.
    LogicalOperands,
}

/// Every way in which compiling a source text can fail.
#[derive(Debug, Clone)]
pub enum CompileError {
    /// No token matches the input at this byte offset.
    Lex { position: usize },
    /// The parser expected a token of this kind.
    Expected(TokenKind),
    /// A type was expected.
    UnknownType,
    /// A statement that the parser does not support.
    UnsupportedStatement,
    /// A token that cannot start an expression.
    UnexpectedToken,
    /// The input ended inside an expression.
    UnexpectedEof,
    /// An identifier was expected.
    ExpectedIdentifier,
    /// There is no token before the current one.
    NoPreviousToken,
    /// The token before the current one is not an identifier.
    PreviousNotIdentifier,
    /// A type error inside the named function.
    Type { function: String, error: TypeError },
    /// A binary operator that lowering does not support.
    UnsupportedBinaryOp,
    /// An expression that lowering does not support.
    UnsupportedExpression,
}

/// The name of a token kind as its derived `Debug` prints it.
pub open spec fn kind_text(k: TokenKind) -> Seq<char> {
    match k {
        TokenKind::Function => "Function"@,
        TokenKind::Return => "Return"@,
        TokenKind::True => "True"@,
        TokenKind::False => "False"@,
        TokenKind::Ident => "Ident"@,
        TokenKind::Int(n) => "Int("@ + int_text(n as int) + ")"@,
        TokenKind::Plus => "Plus"@,
        TokenKind::Minus => "Minus"@,
        TokenKind::Star => "Star"@,
        TokenKind::Slash => "Slash"@,
        TokenKind::LParen => "LParen"@,
        TokenKind::RParen => "RParen"@,
        TokenKind::LBrace => "LBrace"@,
        TokenKind::RBrace => "RBrace"@,
        TokenKind::Comma => "Comma"@,
        TokenKind::Colon => "Colon"@,
        TokenKind::Arrow => "Arrow"@,
        TokenKind::Semi => "Semi"@,
        TokenKind::Error => "Error"@,
    }
}

/// The message of a type error.
pub open spec fn type_error_text(e: TypeError) -> Seq<char> {
    match e {
        TypeError::ReturnMismatch { expected, found } => "Return type mismatch: expected "@ + type_text(expected)
            + ", got "@ + type_text(found),
        TypeError::OperandMismatch { left, right } => "Type mismatch in binary expression: "@ + type_text(left)
            + " vs "@ + type_text(right),
        TypeError::ArithmeticOperands => "Operator requires I32 operands"@,
        TypeError::LogicalOperands => "Logical operator requires bool operands"@,
    }
}

/// The message of a compile error; a type error is prefixed with the
/// function it was found in.
pub open spec fn error_text(e: CompileError) -> Seq<char> {
    match e {
        CompileError::Lex { position } => "Lexing error at position "@ + int_text(position as int),
        CompileError::Expected(k) => "Expected "@ + kind_text(k),
        CompileError::UnknownType => "Unknown type"@,
        CompileError::UnsupportedStatement => "Unsupported statement"@,
        CompileError::UnexpectedToken => "Unexpected token in expression"@,
        CompileError::UnexpectedEof => "Unexpected EOF in expression"@,
        CompileError::ExpectedIdentifier => "Expected identifier"@,
        CompileError::NoPreviousToken => "No previous token"@,
        CompileError::PreviousNotIdentifier => "Previous token is not identifier"@,
        CompileError::Type { function, error } => "In function "@ + function@ + ": "@ + type_error_text(error),
        CompileError::UnsupportedBinaryOp => "Unsupported binary op in lowering"@,
        CompileError::UnsupportedExpression => "Unsupported expression in lowering"@,
    }
}

fn push_kind(out: &mut String, k: TokenKind)
    ensures
        final(out)@ == old(out)@ + kind_text(k),
{
    match k {
        TokenKind::Function => push_str(out, "Function"),
        TokenKind::Return => push_str(out, "Return"),
        TokenKind::True => push_str(out, "True"),
        TokenKind::False => push_str(out, "False"),
        TokenKind::Ident => push_str(out, "Ident"),
        TokenKind::Int(n) => {
            push_str(out, "Int(");
            push_int(out, n);
            push_str(out, ")");
        },
        TokenKind::Plus => push_str(out, "Plus"),
        TokenKind::Minus => push_str(out, "Minus"),
        TokenKind::Star => push_str(out, "Star"),
        TokenKind::Slash => push_str(out, "Slash"),
        TokenKind::LParen => push_str(out, "LParen"),
        TokenKind::RParen => push_str(out, "RParen"),
        TokenKind::LBrace => push_str(out, "LBrace"),
        TokenKind::RBrace => push_str(out, "RBrace"),
        TokenKind::Comma => push_str(out, "Comma"),
        TokenKind::Colon => push_str(out, "Colon"),
        TokenKind::Arrow => push_str(out, "Arrow"),
        TokenKind::Semi => push_str(out, "Semi"),
        TokenKind::Error => push_str(out, "Error"),
    }
}

impl TypeError {
    /// The message of this type error.
    pub fn render(&self) -> (r: String)
        ensures
            r@ == type_error_text(*self),
    {
        let mut out = String::new();
        match self {
            TypeError::ReturnMismatch { expected, found } => {
                push_str(&mut out, "Return type mismatch: expected ");
                push_str(&mut out, expected.name());
                push_str(&mut out, ", got ");
                push_str(&mut out, found.name());
            },
            TypeError::OperandMismatch { left, right } => {
                push_str(&mut out, "Type mismatch in binary expression: ");
                push_str(&mut out, left.name());
                push_str(&mut out, " vs ");
                push_str(&mut out, right.name());
            },
            TypeError::ArithmeticOperands => push_str(&mut out, "Operator requires I32 operands"),
            TypeError::LogicalOperands => push_str(&mut out, "Logical operator requires bool operands"),
        }
        out
    }
}

impl CompileError {
    /// The message of this error.
    pub fn render(&self) -> (r: String)
        ensures
            r@ == error_text(*self),
    {
        let mut out = String::new();
        match self {
            CompileError::Lex { position } => {
                push_str(&mut out, "Lexing error at position ");
                push_decimal(&mut out, *position as u64);
            },
            CompileError::Expected(k) => {
                push_str(&mut out, "Expected ");
                push_kind(&mut out, *k);
            },
            CompileError::UnknownType => push_str(&mut out, "Unknown type"),
            CompileError::UnsupportedStatement => push_str(&mut out, "Unsupported statement"),
            CompileError::UnexpectedToken => push_str(&mut out, "Unexpected token in expression"),
            CompileError::UnexpectedEof => push_str(&mut out, "Unexpected EOF in expression"),
            CompileError::ExpectedIdentifier => push_str(&mut out, "Expected identifier"),
            CompileError::NoPreviousToken => push_str(&mut out, "No previous token"),
            CompileError::PreviousNotIdentifier => push_str(&mut out, "Previous token is not identifier"),
            CompileError::Type { function, error } => {
                push_str(&mut out, "In function ");
                push_str(&mut out, function.as_str());
                push_str(&mut out, ": ");
                let inner = error.render();
                push_str(&mut out, inner.as_str());
            },
            CompileError::UnsupportedBinaryOp => push_str(&mut out, "Unsupported binary op in lowering"),
            CompileError::UnsupportedExpression => push_str(&mut out, "Unsupported expression in lowering"),
        }
        out
    }
}

} // verus!
