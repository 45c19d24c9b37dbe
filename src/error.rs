use vstd::prelude::*;

verus! {

/// Every way in which lexing, parsing or evaluation can fail.
#[derive(Debug, Clone, Copy, PartialEq, Eq, Structural)]
pub enum Error {
    /// A string literal has no closing quote.
    UnterminatedString,
    /// A number literal does not parse as a number.
    InvalidNumberLiteral,
    /// A required token is missing, or no grammar rule accepts the token found.
    UnexpectedToken,
    /// A name is read that has no binding.
    UndeclaredVariable,
    /// An operand has a type that its operator does not accept.
    TypeError,
    /// A node reached a handler that cannot occur for it.
    InternalError,
}

} // verus!
