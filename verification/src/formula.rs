//! Direct evaluation of a constant postfix formula on a boolean operand
//! stack, without building a tree.

use vstd::prelude::*;
use vstd::string::StrSliceExecFns;

use crate::error::Error;
use crate::operation::Operation;

verus! {

/// Whether `c` belongs to the alphabet of constant postfix formulas.
pub open spec fn is_formula_char(c: char) -> bool {
    c == '0' || c == '1' || c == '!' || c == '&' || c == '|' || c == '^' || c == '>' || c == '='
}

/// One step of direct stack evaluation: how one character transforms the
/// boolean stack, or `None` on a grammar error.  A negation is evaluated
/// as exclusive-or with a pushed `true`, so it too needs one operand.
pub open spec fn run_step(stack: Seq<bool>, c: char) -> Option<Seq<bool>>
    recommends
        is_formula_char(c),
{
    if c == '0' {
        Some(stack.push(false))
    } else if c == '1' {
        Some(stack.push(true))
    } else if c == '!' {
        if stack.len() < 1 {
            None
        } else {
            Some(stack.drop_last().push(!stack.last()))
        }
    } else {
        let op = crate::operation::operation_of_symbol(c);
        if stack.len() < 2 {
            None
        } else {
            Some(
                stack.drop_last().drop_last().push(
                    op.spec_eval(stack.drop_last().last(), stack.last()),
                ),
            )
        }
    }
}

/// Direct stack evaluation of a whole string of formula characters: the
/// boolean stack left behind, or `None` on a grammar error.
pub open spec fn spec_run(s: Seq<char>) -> Option<Seq<bool>>
    decreases s.len(),
{
    if s.len() == 0 {
        Some(Seq::empty())
    } else {
        match spec_run(s.drop_last()) {
            Some(stack) => run_step(stack, s.last()),
            None => None,
        }
    }
}

/// Once direct evaluation has failed on a prefix, the whole string fails.
pub proof fn lemma_run_error_persists(s: Seq<char>, i: int)
    requires
        0 <= i <= s.len(),
        spec_run(s.take(i)) is None,
    ensures
        spec_run(s) is None,
    decreases s.len() - i,
{
    if i < s.len() {
        assert(s.take(i + 1).drop_last() =~= s.take(i));
        lemma_run_error_persists(s, i + 1);
    } else {
        assert(s.take(i) =~= s);
    }
}

/// A constant postfix formula held together with the operand stack of its
/// evaluation.  Construction checks the alphabet; evaluation runs the
/// stack machine over the text.
pub struct Formula<'a> {
    input: &'a str,
    stack: Vec<bool>,
}

impl<'a> Formula<'a> {
    /// The formula text under evaluation.
    pub closed spec fn text(self) -> Seq<char> {
        self.input@
    }

    /// The current operand stack.
    pub closed spec fn operands(self) -> Seq<bool> {
        self.stack@
    }

    /// Every character of the text belongs to the formula alphabet.
    pub open spec fn wf(self) -> bool {
        forall|i: int| 0 <= i < self.text().len() ==> is_formula_char(#[trigger] self.text()[i])
    }

    /// Wraps a formula string after checking that every character belongs
    /// to the alphabet; otherwise reports a syntax error.
    pub fn new(input: &'a str) -> (r: Result<Self, Error>)
        ensures
            (match r {
                Ok(f) => f.text() == input@ && f.operands() == Seq::<bool>::empty() && f.wf(),
                Err(e) => e == Error::InvalidFormulaSyntax && !(forall|i: int|
                    0 <= i < input@.len() ==> is_formula_char(#[trigger] input@[i])),
            }),
    {
        let length = input.unicode_len();
        let mut index: usize = 0;
        while index < length
            invariant
                length == input@.len(),
                index <= length,
                forall|j: int| 0 <= j < index ==> is_formula_char(#[trigger] input@[j]),
            decreases length - index,
        {
            let character = input.get_char(index);
            let recognized = character == '0' || character == '1' || character == '!'
                || character == '&' || character == '|' || character == '^' || character == '>'
                || character == '=';
            if !recognized {
                return Err(Error::InvalidFormulaSyntax);
            }
            index = index + 1;
        }
        Ok(Formula { input, stack: Vec::new() })
    }

    /// Runs the stack machine over the text: pushes literals, applies
    /// operators to popped operands, and returns the single value left at
    /// the end.  A starved operator is a grammar error.  A final stack of
    /// any other size is reported as `InvalidFormulaResult` -- a deliberate
    /// difference from the tree parsers, which class leftover operands as
    /// a grammar error.
    pub fn evaluate(&mut self) -> (r: Result<bool, Error>)
        requires
            old(self).wf(),
            old(self).operands() == Seq::<bool>::empty(),
        ensures
            final(self).text() == old(self).text(),
            (match spec_run(old(self).text()) {
                None => r == Err::<bool, Error>(Error::InvalidFormulaGrammar),
                Some(stack) => if stack.len() == 1 {
                    r == Ok::<bool, Error>(stack.last())
                } else {
                    r == Err::<bool, Error>(Error::InvalidFormulaResult)
                },
            }),
    {
        let length = self.input.unicode_len();
        proof {
            assert(self.input@.take(0) =~= Seq::<char>::empty());
        }
        let mut index: usize = 0;
        while index < length
            invariant
                self.input@ == old(self).input@,
                self.wf(),
                length == self.input@.len(),
                index <= length,
                spec_run(self.input@.take(index as int)) == Some(self.stack@),
            decreases length - index,
        {
            let character = self.input.get_char(index);
            proof {
                assert(self.input@.take(index + 1).drop_last() =~= self.input@.take(index as int));
                assert(self.input@.take(index + 1).last() == self.input@[index as int]);
                assert(is_formula_char(self.text()[index as int]));
            }
            let step: Result<(), Error> = match character {
                '0' => {
                    self.stack.push(false);
                    Ok(())
                },
                '1' => {
                    self.stack.push(true);
                    Ok(())
                },
                '!' => self.do_negation(),
                '&' => self.do_op(Operation::And),
                '|' => self.do_op(Operation::Or),
                '^' => self.do_op(Operation::Xor),
                '>' => self.do_op(Operation::IfThen),
                '=' => self.do_op(Operation::Equality),
                _ => unreached(),
            };
            match step {
                Ok(()) => {},
                Err(e) => {
                    proof {
                        lemma_run_error_persists(old(self).text(), index + 1);
                    }
                    return Err(e);
                },
            }
            index = index + 1;
        }
        proof {
            assert(self.input@.take(length as int) =~= self.input@);
        }
        if self.stack.len() != 1 {
            Err(Error::InvalidFormulaResult)
        } else {
            match self.stack.pop() {
                Some(value) => Ok(value),
                None => unreached(),
            }
        }
    }

    /// Pops two operands and pushes the operator applied to them, the
    /// operand popped second being the left one; fails when fewer than two
    /// operands are on the stack.
    fn do_op(&mut self, operation: Operation) -> (r: Result<(), Error>)
        requires
            operation !is Not,
        ensures
            final(self).text() == old(self).text(),
            old(self).operands().len() < 2 ==> r == Err::<(), Error>(Error::InvalidFormulaGrammar)
                && final(self).operands() == old(self).operands(),
            old(self).operands().len() >= 2 ==> r == Ok::<(), Error>(()) && final(self).operands()
                == old(self).operands().drop_last().drop_last().push(
                operation.spec_eval(
                    old(self).operands().drop_last().last(),
                    old(self).operands().last(),
                ),
            ),
    {
        if self.stack.len() < 2 {
            return Err(Error::InvalidFormulaGrammar);
        }
        let second = match self.stack.pop() {
            Some(v) => v,
            None => unreached(),
        };
        let first = match self.stack.pop() {
            Some(v) => v,
            None => unreached(),
        };
        self.stack.push(operation.apply(first, second));
        Ok(())
    }

    /// Negates the top of the stack by pushing `true` and applying
    /// exclusive-or; with no operand below, the grammar error of the
    /// exclusive-or is reported and the pushed `true` stays behind.
    fn do_negation(&mut self) -> (r: Result<(), Error>)
        ensures
            final(self).text() == old(self).text(),
            old(self).operands().len() < 1 ==> r == Err::<(), Error>(Error::InvalidFormulaGrammar)
                && final(self).operands() == old(self).operands().push(true),
            old(self).operands().len() >= 1 ==> r == Ok::<(), Error>(()) && final(self).operands()
                == old(self).operands().drop_last().push(!old(self).operands().last()),
    {
        self.stack.push(true);
        let r = self.do_op(Operation::Xor);
        proof {
            if old(self).operands().len() >= 1 {
                assert(old(self).operands().push(true).drop_last().drop_last()
                    =~= old(self).operands().drop_last());
                assert(old(self).operands().push(true).drop_last() =~= old(self).operands());
            }
        }
        match r {
            Ok(()) => Ok(()),
            Err(e) => Err(e),
        }
    }
}

} // verus!
