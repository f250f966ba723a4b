//! The logical connectives, their postfix symbols, arities and truth
//! tables.

use vstd::prelude::*;

verus! {

/// A logical connective. `Not` is unary; every other operator is binary.
#[derive(Debug, Clone, Copy, PartialEq, Eq, Structural)]
pub enum Operation {
    And,
    Or,
    Xor,
    Not,
    IfThen,
    Equality,
}

/// Whether `c` is one of the six operator characters of the postfix grammar.
pub open spec fn is_operator_symbol(c: char) -> bool {
    c == '!' || c == '&' || c == '|' || c == '^' || c == '>' || c == '='
}

/// The operator denoted by an operator character.
pub open spec fn operation_of_symbol(c: char) -> Operation
    recommends
        is_operator_symbol(c),
{
    if c == '!' {
        Operation::Not
    } else if c == '&' {
        Operation::And
    } else if c == '|' {
        Operation::Or
    } else if c == '^' {
        Operation::Xor
    } else if c == '>' {
        Operation::IfThen
    } else {
        Operation::Equality
    }
}

impl Operation {
    /// Whether the operator takes two operands.
    pub open spec fn is_binary(self) -> bool {
        self !is Not
    }

    /// The character that denotes the operator in postfix notation.
    pub open spec fn spec_symbol(self) -> char {
        match self {
            Operation::And => '&',
            Operation::Or => '|',
            Operation::Xor => '^',
            Operation::Not => '!',
            Operation::IfThen => '>',
            Operation::Equality => '=',
        }
    }

    /// The truth table of the operator. `Not` reads only its first operand.
    pub open spec fn spec_eval(self, first: bool, second: bool) -> bool {
        match self {
            Operation::And => first && second,
            Operation::Or => first || second,
            Operation::Xor => first != second,
            Operation::Not => !first,
            Operation::IfThen => !first || second,
            Operation::Equality => first == second,
        }
    }

    /// The operator written by `symbol`, together with its arity.
    pub fn new(symbol: char) -> (r: (Self, u8))
        requires
            is_operator_symbol(symbol),
        ensures
            r.0 == operation_of_symbol(symbol),
            r.1 == (if r.0 is Not { 1u8 } else { 2u8 }),
    {
        match symbol {
            '!' => (Operation::Not, 1),
            '&' => (Operation::And, 2),
            '|' => (Operation::Or, 2),
            '^' => (Operation::Xor, 2),
            '>' => (Operation::IfThen, 2),
            _ => (Operation::Equality, 2),
        }
    }

    /// The character that denotes the operator.
    pub fn symbol(&self) -> (r: char)
        ensures
            r == self.spec_symbol(),
    {
        match self {
            Operation::And => '&',
            Operation::Or => '|',
            Operation::Xor => '^',
            Operation::Not => '!',
            Operation::IfThen => '>',
            Operation::Equality => '=',
        }
    }

    /// Applies the operator to two boolean operands.
    pub fn apply(&self, first: bool, second: bool) -> (r: bool)
        ensures
            r == self.spec_eval(first, second),
    {
        match self {
            Operation::And => first && second,
            Operation::Or => first || second,
            Operation::Xor => first ^ second,
            Operation::Not => !first,
            Operation::IfThen => !first || second,
            Operation::Equality => first == second,
        }
    }

    /// A function value computing the operator's truth table.
    pub fn get_operation_closure(&self) -> (f: impl Fn(bool, bool) -> bool)
        ensures
            forall|a: bool, b: bool| #[trigger] call_requires(f, (a, b)),
            forall|a: bool, b: bool, r: bool|
                #[trigger] call_ensures(f, (a, b), r) ==> r == self.spec_eval(a, b),
    {
        let op = *self;
        move |first: bool, second: bool| -> (r: bool)
            ensures
                r == op.spec_eval(first, second),
            {
                op.apply(first, second)
            }
    }
}

} // verus!
