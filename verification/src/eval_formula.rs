//! One-call evaluation of a constant postfix formula.

use vstd::prelude::*;

use crate::tree_formula::spec_parse;
use crate::tree_formula::FormulaTree;

verus! {

/// The value of a constant postfix formula; a string that does not parse
/// counts as `false`.
pub open spec fn spec_eval_formula(s: Seq<char>) -> bool {
    match spec_parse(s) {
        Ok(node) => node.sem_const(),
        Err(_) => false,
    }
}

/// Parses and evaluates a constant postfix formula, treating an
/// unparseable string as `false`.
pub fn eval_formula(input: &str) -> (r: bool)
    ensures
        r == spec_eval_formula(input@),
{
    let formula = match FormulaTree::build(input) {
        Ok(formula) => formula,
        Err(_) => {
            return false;
        },
    };
    formula.resolve_tree()
}

} // verus!
