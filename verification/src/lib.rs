//! A propositional-logic engine.
//!
//! Boolean formulas arrive as strings in reverse Polish (postfix) notation.
//! They are parsed into abstract syntax trees, evaluated against literal
//! leaves or a variable assignment, rewritten into negation normal form and
//! conjunctive normal form, and enumerated as complete truth tables.
//!
//! Every executable function carries a contract; the normal-form passes are
//! proved to preserve the meaning of the formula under every assignment.

pub mod bitops;
pub mod concrete_tree;
pub mod error;
pub mod assignment;
pub mod eval_formula;
pub mod formula;
pub mod operation;
pub mod tree_formula;
pub mod tree_node;
pub mod truth_table;
