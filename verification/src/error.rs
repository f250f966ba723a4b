//! The errors a postfix formula string can provoke.

use vstd::prelude::*;

verus! {

/// The ways a postfix formula string can be rejected.
#[derive(Debug, Clone, Copy, PartialEq, Eq, Structural)]
pub enum Error {
    /// A character outside the formula alphabet was seen; scanning halts.
    InvalidFormulaSyntax,
    /// An operator was applied with fewer operands than its arity
    /// requires, or a parse ended with anything other than exactly one
    /// node on the operand stack.
    InvalidFormulaGrammar,
    /// Direct stack evaluation (`Formula::evaluate`) ended with more or
    /// fewer than one value left on the stack.
    InvalidFormulaResult,
}

impl Error {
    /// A short description of the error, suitable for display.
    pub fn message(&self) -> (r: &'static str)
        ensures
            *self is InvalidFormulaSyntax ==> r@ == "Formula contains unknown characters"@,
            *self is InvalidFormulaGrammar ==> r@ == "Formula grammar cannot be resolved"@,
            *self is InvalidFormulaResult ==> r@ == "Formula result is invalid"@,
    {
        match self {
            Error::InvalidFormulaSyntax => "Formula contains unknown characters",
            Error::InvalidFormulaGrammar => "Formula grammar cannot be resolved",
            Error::InvalidFormulaResult => "Formula result is invalid",
        }
    }
}

} // verus!
