//! A constant formula tree offered as one opaque value: built from a
//! string, consumed by evaluation.

use vstd::prelude::*;

use crate::error::Error;
use crate::tree_formula::spec_parse;
use crate::tree_formula::FormulaNode;
use crate::tree_formula::FormulaTree;

verus! {

/// A parsed constant formula addressed as one concrete tree.  Building and
/// resolving delegate to `FormulaTree`; the type only fixes the interface
/// of a tree that is consumed whole when it is evaluated.
#[derive(Debug)]
pub struct ConcreteFormulaTree {
    tree: FormulaTree,
}

impl ConcreteFormulaTree {
    /// The parsed tree.
    pub closed spec fn formula(self) -> FormulaNode {
        self.tree.root
    }

    /// Parses a postfix formula over `0`, `1` and the six operators; see
    /// `FormulaTree::build`.
    pub fn build(formula: &str) -> (r: Result<Self, Error>)
        ensures
            (match r {
                Ok(t) => spec_parse(formula@) == Ok::<FormulaNode, Error>(t.formula())
                    && t.formula().wf() && t.formula().rpn_seq() == formula@,
                Err(e) => spec_parse(formula@) == Err::<FormulaNode, Error>(e),
            }),
    {
        match FormulaTree::build(formula) {
            Ok(tree) => Ok(ConcreteFormulaTree { tree }),
            Err(e) => Err(e),
        }
    }

    /// The truth value of the parsed formula.
    pub fn resolve_tree(self) -> (r: bool)
        requires
            self.formula().wf(),
        ensures
            r == self.formula().sem_const(),
    {
        self.tree.resolve_tree()
    }
}

} // verus!
