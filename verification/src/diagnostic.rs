//! What the compiler says of a program that it cannot compile.

use vstd::prelude::*;
use vstd::string::StringExecFns;

verus! {

/// The ways in which a program can be malformed.
#[derive(Clone, Copy, Debug, PartialEq, Eq, Structural)]
pub enum ErrorKind {
    /// A token that starts no expression stands where an expression is due.
    ExpectedExpression,
    /// A parenthesis was opened and not closed.
    ExpectedRightParen,
    /// `let` is not followed by a name.
    ExpectedName,
    /// The name after `let` is not followed by `=`.
    ExpectedAssign,
    /// The condition of an `if` or `while`, or an `else`, is not followed by `{`.
    ExpectedLeftBrace,
    /// The input ends inside a block.
    ExpectedRightBrace,
    /// A `}` closes a block that was never opened.
    UnexpectedRightBrace,
    /// A number token carries no value.
    NumberNotRead,
    /// A number is no integer, or too large for one.
    ExpectedInteger,
}

/// The text of the diagnostic for each kind of error.
pub open spec fn message(kind: ErrorKind) -> Seq<char> {
    match kind {
        ErrorKind::ExpectedExpression => "expected an expression"@,
        ErrorKind::ExpectedRightParen => "expected ')' after the expression"@,
        ErrorKind::ExpectedName => "expected a name after 'let'"@,
        ErrorKind::ExpectedAssign => "expected '=' after the name"@,
        ErrorKind::ExpectedLeftBrace => "expected '{'"@,
        ErrorKind::ExpectedRightBrace => "expected '}' at the end of the block"@,
        ErrorKind::UnexpectedRightBrace => "unexpected '}'"@,
        ErrorKind::NumberNotRead => "the number has no value"@,
        ErrorKind::ExpectedInteger => "expected an integer that fits in 64 bits"@,
    }
}

/// The diagnostic for an error of the given kind.
pub fn describe(kind: ErrorKind) -> (text: String)
    ensures
        text@ == message(kind),
{
    match kind {
        ErrorKind::ExpectedExpression => String::from_str("expected an expression"),
        ErrorKind::ExpectedRightParen => String::from_str("expected ')' after the expression"),
        ErrorKind::ExpectedName => String::from_str("expected a name after 'let'"),
        ErrorKind::ExpectedAssign => String::from_str("expected '=' after the name"),
        ErrorKind::ExpectedLeftBrace => String::from_str("expected '{'"),
        ErrorKind::ExpectedRightBrace => String::from_str("expected '}' at the end of the block"),
        ErrorKind::UnexpectedRightBrace => String::from_str("unexpected '}'"),
        ErrorKind::NumberNotRead => String::from_str("the number has no value"),
        ErrorKind::ExpectedInteger => String::from_str("expected an integer that fits in 64 bits"),
    }
}

} // verus!
