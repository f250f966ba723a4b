//! The formula tree over variable leaves and its three rewriting passes:
//! operator elimination, negation push-down, and `Or`-over-`And`
//! distribution.  Every pass is proved to preserve the meaning of the
//! formula under every assignment.

use vstd::prelude::*;

use crate::assignment::Assignment;
use crate::error::Error;
use crate::operation::Operation;

verus! {

/// What a tree node holds: a variable letter, or an operator.
#[derive(Debug, Clone, Copy, PartialEq, Eq, Structural)]
pub enum NodeType {
    Leaf(char),
    Node(Operation),
}

impl NodeType {
    /// Whether the node is a variable leaf.
    pub fn is_leaf(&self) -> (r: bool)
        ensures
            r == (*self is Leaf),
    {
        match self {
            NodeType::Node(_) => false,
            NodeType::Leaf(_) => true,
        }
    }

    /// Whether the node is a negation operator.
    pub fn is_negation(&self) -> (r: bool)
        ensures
            r == (*self == NodeType::Node(Operation::Not)),
    {
        match self {
            NodeType::Node(Operation::Not) => true,
            _ => false,
        }
    }

    /// Whether the node is a disjunction operator.
    pub fn is_or(&self) -> (r: bool)
        ensures
            r == (*self == NodeType::Node(Operation::Or)),
    {
        match self {
            NodeType::Node(Operation::Or) => true,
            _ => false,
        }
    }

    /// Whether the node is a conjunction operator.
    pub fn is_and(&self) -> (r: bool)
        ensures
            r == (*self == NodeType::Node(Operation::And)),
    {
        match self {
            NodeType::Node(Operation::And) => true,
            _ => false,
        }
    }
}

/// One node of a formula tree over variable leaves.  The structural
/// invariant `wf` says that every operator has exactly as many children as
/// its arity demands, the single child of `Not` sitting on the left.
#[derive(Debug)]
pub struct TreeNode {
    pub node_type: NodeType,
    pub left_child: Option<Box<TreeNode>>,
    pub right_child: Option<Box<TreeNode>>,
}

impl TreeNode {
    /// A subtree wrapped as an optional child.
    pub open spec fn boxed(t: TreeNode) -> Option<Box<TreeNode>> {
        Some(Box::new(t))
    }

    /// The tree that negates the given child.
    pub open spec fn spec_not(child: Option<Box<TreeNode>>) -> TreeNode {
        TreeNode { node_type: NodeType::Node(Operation::Not), left_child: child, right_child: None }
    }

    /// The tree that applies a binary operator to the given children.
    pub open spec fn spec_binary(
        op: Operation,
        left: Option<Box<TreeNode>>,
        right: Option<Box<TreeNode>>,
    ) -> TreeNode {
        TreeNode { node_type: NodeType::Node(op), left_child: left, right_child: right }
    }

    /// The arity of the node is respected at the node itself.
    pub open spec fn shape_ok(self) -> bool {
        match self.node_type {
            NodeType::Leaf(_) => self.left_child is None && self.right_child is None,
            NodeType::Node(op) => self.left_child is Some && (if op is Not {
                self.right_child is None
            } else {
                self.right_child is Some
            }),
        }
    }

    /// The arity of every operator in the subtree is respected.
    pub open spec fn wf(self) -> bool
        decreases self,
    {
        &&& self.shape_ok()
        &&& (self.left_child matches Some(l) ==> l.wf())
        &&& (self.right_child matches Some(r) ==> r.wf())
    }

    /// The truth value of the subtree under the variable assignment `m`.
    pub open spec fn sem(self, m: Map<char, bool>) -> bool
        decreases self,
    {
        match self.node_type {
            NodeType::Leaf(v) => m[v],
            NodeType::Node(op) => op.spec_eval(
                match self.left_child {
                    Some(l) => l.sem(m),
                    None => arbitrary(),
                },
                match self.right_child {
                    Some(r) => r.sem(m),
                    None => arbitrary(),
                },
            ),
        }
    }

    /// The set of variable letters occurring in the subtree.
    pub open spec fn vars(self) -> Set<char>
        decreases self,
    {
        match self.node_type {
            NodeType::Leaf(v) => set![v],
            NodeType::Node(_) => (match self.left_child {
                Some(l) => l.vars(),
                None => Set::empty(),
            }) + (match self.right_child {
                Some(r) => r.vars(),
                None => Set::empty(),
            }),
        }
    }

    /// Only `And`, `Or` and `Not` operators appear in the subtree.
    pub open spec fn in_basis(self) -> bool
        decreases self,
    {
        match self.node_type {
            NodeType::Leaf(_) => true,
            NodeType::Node(op) => {
                &&& (op is And || op is Or || op is Not)
                &&& (self.left_child matches Some(l) ==> l.in_basis())
                &&& (self.right_child matches Some(r) ==> r.in_basis())
            },
        }
    }

    /// Negation normal form: `And`/`Or` structure over leaves and negated
    /// leaves.
    pub open spec fn is_nnf(self) -> bool
        decreases self,
    {
        match self.node_type {
            NodeType::Leaf(_) => true,
            NodeType::Node(op) => match op {
                Operation::Not => self.left_child matches Some(l) && l.node_type is Leaf,
                Operation::And | Operation::Or => {
                    &&& (self.left_child matches Some(l) && l.is_nnf())
                    &&& (self.right_child matches Some(r) && r.is_nnf())
                },
                _ => false,
            },
        }
    }

    /// A disjunction of literals (a literal being a leaf or a negated leaf).
    pub open spec fn is_clause(self) -> bool
        decreases self,
    {
        match self.node_type {
            NodeType::Leaf(_) => true,
            NodeType::Node(op) => match op {
                Operation::Not => self.left_child matches Some(l) && l.node_type is Leaf,
                Operation::Or => {
                    &&& (self.left_child matches Some(l) && l.is_clause())
                    &&& (self.right_child matches Some(r) && r.is_clause())
                },
                _ => false,
            },
        }
    }

    /// Conjunctive normal form: a conjunction of disjunctions of literals;
    /// in particular no `And` node sits below an `Or` node.
    pub open spec fn is_cnf(self) -> bool
        decreases self,
    {
        match self.node_type {
            NodeType::Node(Operation::And) => {
                &&& (self.left_child matches Some(l) && l.is_cnf())
                &&& (self.right_child matches Some(r) && r.is_cnf())
            },
            _ => self.is_clause(),
        }
    }

    /// No `Or` node reachable through `And`/`Or` links has an `And` child.
    /// Together with `is_nnf` this implies `is_cnf`.
    pub open spec fn distributed(self) -> bool
        decreases self,
    {
        match self.node_type {
            NodeType::Leaf(_) => true,
            NodeType::Node(op) => match op {
                Operation::And | Operation::Or => {
                    &&& (op is Or ==> !(self.left_child matches Some(l) && l.node_type
                        == NodeType::Node(Operation::And)))
                    &&& (op is Or ==> !(self.right_child matches Some(r) && r.node_type
                        == NodeType::Node(Operation::And)))
                    &&& (self.left_child matches Some(l) ==> l.distributed())
                    &&& (self.right_child matches Some(r) ==> r.distributed())
                },
                _ => true,
            },
        }
    }

    /// Termination measure for negation push-down.
    pub open spec fn neg_measure(self) -> nat
        decreases self,
    {
        match self.node_type {
            NodeType::Leaf(_) => 1,
            NodeType::Node(op) => {
                let l = match self.left_child {
                    Some(l) => l.neg_measure(),
                    None => 1,
                };
                let r = match self.right_child {
                    Some(r) => r.neg_measure(),
                    None => 1,
                };
                if op is Not {
                    2 * l
                } else {
                    l + r + 1
                }
            },
        }
    }

    /// Termination measure for `And`-over-`Or` distribution.
    pub open spec fn dist_measure(self) -> nat
        decreases self,
    {
        match self.node_type {
            NodeType::Leaf(_) => 2,
            NodeType::Node(op) => {
                let l = match self.left_child {
                    Some(l) => l.dist_measure(),
                    None => 2,
                };
                let r = match self.right_child {
                    Some(r) => r.dist_measure(),
                    None => 2,
                };
                match op {
                    Operation::And => l + r + 1,
                    Operation::Or => l * r,
                    _ => 2,
                }
            },
        }
    }

    /// The tree after operator elimination: children first, then `Xor`,
    /// `IfThen` and `Equality` at the node itself rewritten into the
    /// `And`/`Or`/`Not` basis.
    pub open spec fn eliminated(self) -> TreeNode
        decreases self,
    {
        let l = match self.left_child {
            Some(b) => Some(Box::new(b.eliminated())),
            None => None,
        };
        let r = match self.right_child {
            Some(b) => Some(Box::new(b.eliminated())),
            None => None,
        };
        match self.node_type {
            NodeType::Node(Operation::Xor) => TreeNode::spec_binary(
                Operation::Or,
                TreeNode::boxed(
                    TreeNode::spec_binary(Operation::And, l, TreeNode::boxed(TreeNode::spec_not(r))),
                ),
                TreeNode::boxed(
                    TreeNode::spec_binary(Operation::And, r, TreeNode::boxed(TreeNode::spec_not(l))),
                ),
            ),
            NodeType::Node(Operation::IfThen) => TreeNode::spec_binary(
                Operation::Or,
                TreeNode::boxed(TreeNode::spec_not(l)),
                r,
            ),
            NodeType::Node(Operation::Equality) => TreeNode::spec_binary(
                Operation::Or,
                TreeNode::boxed(TreeNode::spec_binary(Operation::And, l, r)),
                TreeNode::boxed(
                    TreeNode::spec_binary(
                        Operation::And,
                        TreeNode::boxed(TreeNode::spec_not(l)),
                        TreeNode::boxed(TreeNode::spec_not(r)),
                    ),
                ),
            ),
            _ => TreeNode { node_type: self.node_type, left_child: l, right_child: r },
        }
    }

    /// The tree after negation push-down, on a tree over the basis: the
    /// `And`/`Or` structure is kept, double negations collapse, and a
    /// negation above a connective turns into the De Morgan dual of the
    /// negated children.
    pub open spec fn negations_pushed(self) -> TreeNode
        decreases self.neg_measure(),
        via Self::negations_pushed_decreases
    {
        match self.node_type {
            NodeType::Node(Operation::Not) => match self.left_child {
                Some(c) => match c.node_type {
                    NodeType::Node(Operation::Not) => match c.left_child {
                        Some(g) => (TreeNode {
                            node_type: g.node_type,
                            left_child: g.left_child,
                            right_child: g.right_child,
                        }).negations_pushed(),
                        None => self,
                    },
                    NodeType::Node(Operation::Or) => TreeNode::spec_binary(
                        Operation::And,
                        TreeNode::boxed(TreeNode::spec_not(c.left_child).negations_pushed()),
                        TreeNode::boxed(TreeNode::spec_not(c.right_child).negations_pushed()),
                    ),
                    NodeType::Node(Operation::And) => TreeNode::spec_binary(
                        Operation::Or,
                        TreeNode::boxed(TreeNode::spec_not(c.left_child).negations_pushed()),
                        TreeNode::boxed(TreeNode::spec_not(c.right_child).negations_pushed()),
                    ),
                    _ => self,
                },
                None => self,
            },
            NodeType::Node(Operation::And) | NodeType::Node(Operation::Or) => TreeNode {
                node_type: self.node_type,
                left_child: match self.left_child {
                    Some(b) => Some(Box::new(b.negations_pushed())),
                    None => None,
                },
                right_child: match self.right_child {
                    Some(b) => Some(Box::new(b.negations_pushed())),
                    None => None,
                },
            },
            _ => self,
        }
    }

    #[via_fn]
    proof fn negations_pushed_decreases(self) {
        self.lemma_neg_measure_pos();
        match self.left_child {
            Some(c) => {
                c.lemma_neg_measure_pos();
                match c.left_child {
                    Some(g) => {
                        g.lemma_neg_measure_pos();
                        (TreeNode {
                            node_type: g.node_type,
                            left_child: g.left_child,
                            right_child: g.right_child,
                        }).lemma_neg_measure_pos();
                    },
                    None => {},
                }
                match c.right_child {
                    Some(g) => {
                        g.lemma_neg_measure_pos();
                    },
                    None => {},
                }
            },
            None => {},
        }
        match self.right_child {
            Some(r) => {
                r.lemma_neg_measure_pos();
            },
            None => {},
        }
    }

    /// One distribution sweep over a tree in negation normal form:
    /// wherever an `Or` has an `And` child (the left one preferred), the
    /// disjunction is distributed over the conjunction and the sweep
    /// continues inside the rewritten children.
    pub open spec fn one_sweep(self) -> TreeNode
        decreases self.dist_measure(),
        via Self::one_sweep_decreases
    {
        match self.node_type {
            NodeType::Node(Operation::And) => TreeNode {
                node_type: self.node_type,
                left_child: match self.left_child {
                    Some(b) => Some(Box::new(b.one_sweep())),
                    None => None,
                },
                right_child: match self.right_child {
                    Some(b) => Some(Box::new(b.one_sweep())),
                    None => None,
                },
            },
            NodeType::Node(Operation::Or) => match (self.left_child, self.right_child) {
                (Some(l), Some(r)) => if l.node_type == NodeType::Node(Operation::And) {
                    TreeNode::spec_binary(
                        Operation::And,
                        TreeNode::boxed(
                            TreeNode::spec_binary(
                                Operation::Or,
                                l.left_child,
                                self.right_child,
                            ).one_sweep(),
                        ),
                        TreeNode::boxed(
                            TreeNode::spec_binary(
                                Operation::Or,
                                l.right_child,
                                self.right_child,
                            ).one_sweep(),
                        ),
                    )
                } else if r.node_type == NodeType::Node(Operation::And) {
                    TreeNode::spec_binary(
                        Operation::And,
                        TreeNode::boxed(
                            TreeNode::spec_binary(
                                Operation::Or,
                                self.left_child,
                                r.left_child,
                            ).one_sweep(),
                        ),
                        TreeNode::boxed(
                            TreeNode::spec_binary(
                                Operation::Or,
                                self.left_child,
                                r.right_child,
                            ).one_sweep(),
                        ),
                    )
                } else {
                    TreeNode::spec_binary(
                        Operation::Or,
                        Some(Box::new(l.one_sweep())),
                        Some(Box::new(r.one_sweep())),
                    )
                },
                _ => self,
            },
            _ => self,
        }
    }

    #[via_fn]
    proof fn one_sweep_decreases(self) {
        match (self.left_child, self.right_child) {
            (Some(l), Some(r)) => {
                l.lemma_dist_measure_pos();
                r.lemma_dist_measure_pos();
                let lp = match l.left_child {
                    Some(b) => b.dist_measure(),
                    None => 2nat,
                };
                let lq = match l.right_child {
                    Some(b) => b.dist_measure(),
                    None => 2nat,
                };
                let rp = match r.left_child {
                    Some(b) => b.dist_measure(),
                    None => 2nat,
                };
                let rq = match r.right_child {
                    Some(b) => b.dist_measure(),
                    None => 2nat,
                };
                match l.left_child {
                    Some(b) => b.lemma_dist_measure_pos(),
                    None => {},
                }
                match l.right_child {
                    Some(b) => b.lemma_dist_measure_pos(),
                    None => {},
                }
                match r.left_child {
                    Some(b) => b.lemma_dist_measure_pos(),
                    None => {},
                }
                match r.right_child {
                    Some(b) => b.lemma_dist_measure_pos(),
                    None => {},
                }
                let lm = l.dist_measure();
                let rm = r.dist_measure();
                assert(lp * rm < (lp + lq + 1) * rm && lq * rm < (lp + lq + 1) * rm)
                    by (nonlinear_arith)
                    requires
                        lp >= 2,
                        lq >= 2,
                        rm >= 2,
                ;
                assert(lm * rp < lm * (rp + rq + 1) && lm * rq < lm * (rp + rq + 1))
                    by (nonlinear_arith)
                    requires
                        rp >= 2,
                        rq >= 2,
                        lm >= 2,
                ;
                assert(lm < lm * rm && rm < lm * rm) by (nonlinear_arith)
                    requires
                        lm >= 2,
                        rm >= 2,
                ;
            },
            (Some(l), None) => {
                l.lemma_dist_measure_pos();
            },
            (None, Some(r)) => {
                r.lemma_dist_measure_pos();
            },
            _ => {},
        }
    }

    /// A sweep never grows the distribution measure, and a sweep that
    /// changes the tree strictly shrinks it; so iterating sweeps reaches a
    /// fixpoint.
    pub proof fn lemma_one_sweep_measure(self)
        ensures
            self.one_sweep().dist_measure() <= self.dist_measure(),
            self.one_sweep() != self ==> self.one_sweep().dist_measure() < self.dist_measure(),
        decreases self.dist_measure(),
    {
        reveal_with_fuel(TreeNode::one_sweep, 2);
        reveal_with_fuel(TreeNode::dist_measure, 3);
        match (self.left_child, self.right_child) {
            (Some(l), Some(r)) => {
                l.lemma_dist_measure_pos();
                r.lemma_dist_measure_pos();
                let lm = l.dist_measure();
                let rm = r.dist_measure();
                if self.node_type == NodeType::Node(Operation::And) {
                    l.lemma_one_sweep_measure();
                    r.lemma_one_sweep_measure();
                    let swept = TreeNode {
                        node_type: self.node_type,
                        left_child: Some(Box::new(l.one_sweep())),
                        right_child: Some(Box::new(r.one_sweep())),
                    };
                    assert(self.one_sweep() == swept);
                    assert(swept.dist_measure() == l.one_sweep().dist_measure()
                        + r.one_sweep().dist_measure() + 1);
                    assert(swept != self ==> l.one_sweep() != *l || r.one_sweep() != *r);
                } else if self.node_type == NodeType::Node(Operation::Or) {
                    if l.node_type == NodeType::Node(Operation::And) {
                        let lp = match l.left_child {
                            Some(b) => b.dist_measure(),
                            None => 2nat,
                        };
                        let lq = match l.right_child {
                            Some(b) => b.dist_measure(),
                            None => 2nat,
                        };
                        assert(lm == lp + lq + 1);
                        assert((lp + lq + 1) * rm == lp * rm + lq * rm + rm) by (nonlinear_arith);
                        let first = TreeNode::spec_binary(Operation::Or, l.left_child, self.right_child);
                        let second = TreeNode::spec_binary(Operation::Or, l.right_child, self.right_child);
                        assert(first.dist_measure() == lp * rm);
                        assert(second.dist_measure() == lq * rm);
                        first.lemma_one_sweep_measure();
                        second.lemma_one_sweep_measure();
                        let swept = TreeNode::spec_binary(
                            Operation::And,
                            TreeNode::boxed(first.one_sweep()),
                            TreeNode::boxed(second.one_sweep()),
                        );
                        assert(self.one_sweep() == swept);
                        assert(swept.dist_measure() == first.one_sweep().dist_measure()
                            + second.one_sweep().dist_measure() + 1);
                    } else if r.node_type == NodeType::Node(Operation::And) {
                        let rp = match r.left_child {
                            Some(b) => b.dist_measure(),
                            None => 2nat,
                        };
                        let rq = match r.right_child {
                            Some(b) => b.dist_measure(),
                            None => 2nat,
                        };
                        assert(rm == rp + rq + 1);
                        assert(lm * (rp + rq + 1) == lm * rp + lm * rq + lm) by (nonlinear_arith);
                        let first = TreeNode::spec_binary(Operation::Or, self.left_child, r.left_child);
                        let second = TreeNode::spec_binary(Operation::Or, self.left_child, r.right_child);
                        assert(first.dist_measure() == lm * rp);
                        assert(second.dist_measure() == lm * rq);
                        first.lemma_one_sweep_measure();
                        second.lemma_one_sweep_measure();
                        let swept = TreeNode::spec_binary(
                            Operation::And,
                            TreeNode::boxed(first.one_sweep()),
                            TreeNode::boxed(second.one_sweep()),
                        );
                        assert(self.one_sweep() == swept);
                        assert(swept.dist_measure() == first.one_sweep().dist_measure()
                            + second.one_sweep().dist_measure() + 1);
                    } else {
                        assert(lm < lm * rm && rm < lm * rm) by (nonlinear_arith)
                            requires
                                lm >= 2,
                                rm >= 2,
                        ;
                        l.lemma_one_sweep_measure();
                        r.lemma_one_sweep_measure();
                        l.one_sweep().lemma_dist_measure_pos();
                        r.one_sweep().lemma_dist_measure_pos();
                        let lo = l.one_sweep().dist_measure();
                        let ro = r.one_sweep().dist_measure();
                        let swept = TreeNode::spec_binary(
                            Operation::Or,
                            Some(Box::new(l.one_sweep())),
                            Some(Box::new(r.one_sweep())),
                        );
                        assert(self.one_sweep() == swept);
                        assert(swept.dist_measure() == lo * ro);
                        assert(lo * ro <= lm * rm) by (nonlinear_arith)
                            requires
                                0 <= lo <= lm,
                                0 <= ro <= rm,
                        ;
                        if self.one_sweep() != self {
                            assert(l.one_sweep() != *l || r.one_sweep() != *r);
                            assert(lo < lm || ro < rm);
                            assert(lo * ro < lm * rm) by (nonlinear_arith)
                                requires
                                    2 <= lo <= lm,
                                    2 <= ro <= rm,
                                    lo < lm || ro < rm,
                            ;
                        }
                    }
                }
            },
            (Some(l), None) => {
                if self.node_type == NodeType::Node(Operation::And) {
                    l.lemma_one_sweep_measure();
                }
            },
            (None, Some(r)) => {
                if self.node_type == NodeType::Node(Operation::And) {
                    r.lemma_one_sweep_measure();
                }
            },
            _ => {},
        }
    }

    /// The fixpoint of distribution sweeps: the tree in conjunctive normal
    /// form that iterated sweeping reaches.
    pub open spec fn fully_distributed(self) -> TreeNode
        decreases self.dist_measure(),
        via Self::fully_distributed_decreases
    {
        if self.one_sweep() == self {
            self
        } else {
            self.one_sweep().fully_distributed()
        }
    }

    #[via_fn]
    proof fn fully_distributed_decreases(self) {
        self.lemma_one_sweep_measure();
    }

    /// The postfix rendering of the subtree: left subtree, right subtree,
    /// then the node's own character.
    pub open spec fn rpn_seq(self) -> Seq<char>
        decreases self,
    {
        (match self.left_child {
            Some(l) => l.rpn_seq(),
            None => Seq::empty(),
        }) + (match self.right_child {
            Some(r) => r.rpn_seq(),
            None => Seq::empty(),
        }) + seq![
            match self.node_type {
                NodeType::Leaf(v) => v,
                NodeType::Node(op) => op.spec_symbol(),
            },
        ]
    }

    /// Every negation push-down measure is at least one.
    pub proof fn lemma_neg_measure_pos(self)
        ensures
            self.neg_measure() >= 1,
        decreases self,
    {
        match self.node_type {
            NodeType::Leaf(_) => {},
            NodeType::Node(_) => {
                match self.left_child {
                    Some(l) => l.lemma_neg_measure_pos(),
                    None => {},
                }
                match self.right_child {
                    Some(r) => r.lemma_neg_measure_pos(),
                    None => {},
                }
            },
        }
    }

    /// Every distribution measure is at least two.
    pub proof fn lemma_dist_measure_pos(self)
        ensures
            self.dist_measure() >= 2,
        decreases self,
    {
        match self.node_type {
            NodeType::Leaf(_) => {},
            NodeType::Node(op) => {
                match self.left_child {
                    Some(l) => l.lemma_dist_measure_pos(),
                    None => {},
                }
                match self.right_child {
                    Some(r) => r.lemma_dist_measure_pos(),
                    None => {},
                }
                if op is Or {
                    let l = match self.left_child {
                        Some(l) => l.dist_measure(),
                        None => 2nat,
                    };
                    let r = match self.right_child {
                        Some(r) => r.dist_measure(),
                        None => 2nat,
                    };
                    assert(l * r >= 2) by (nonlinear_arith)
                        requires
                            l >= 2,
                            r >= 2,
                    ;
                }
            },
        }
    }

    /// A distributed tree in negation normal form is in conjunctive normal
    /// form.
    pub proof fn lemma_distributed_is_cnf(self)
        requires
            self.is_nnf(),
            self.distributed(),
        ensures
            self.is_cnf(),
        decreases self,
    {
        match self.node_type {
            NodeType::Leaf(_) => {},
            NodeType::Node(op) => {
                if op is And || op is Or {
                    match self.left_child {
                        Some(l) => l.lemma_distributed_is_cnf(),
                        None => {},
                    }
                    match self.right_child {
                        Some(r) => r.lemma_distributed_is_cnf(),
                        None => {},
                    }
                }
            },
        }
    }

    /// Builds a node from an operator-or-leaf tag and two optional children,
    /// checking that the children match the tag's arity.
    pub fn build(
        node_type: NodeType,
        right_child: Option<Box<TreeNode>>,
        left_child: Option<Box<TreeNode>>,
    ) -> (r: Result<TreeNode, Error>)
        ensures
            (TreeNode { node_type, left_child, right_child }).shape_ok() ==> r == Ok::<
                TreeNode,
                Error,
            >(TreeNode { node_type, left_child, right_child }),
            !(TreeNode { node_type, left_child, right_child }).shape_ok() ==> r == Err::<
                TreeNode,
                Error,
            >(Error::InvalidFormulaGrammar),
    {
        let arity_ok = match &node_type {
            NodeType::Leaf(_) => left_child.is_none() && right_child.is_none(),
            NodeType::Node(Operation::Not) => left_child.is_some() && right_child.is_none(),
            NodeType::Node(_) => left_child.is_some() && right_child.is_some(),
        };
        if arity_ok {
            Ok(TreeNode { node_type, left_child, right_child })
        } else {
            Err(Error::InvalidFormulaGrammar)
        }
    }

    /// A structurally equal copy of the subtree.
    pub fn clone_tree(&self) -> (r: TreeNode)
        ensures
            r == *self,
        decreases *self,
    {
        TreeNode {
            node_type: self.node_type,
            left_child: match &self.left_child {
                Some(b) => Some(Box::new(b.clone_tree())),
                None => None,
            },
            right_child: match &self.right_child {
                Some(b) => Some(Box::new(b.clone_tree())),
                None => None,
            },
        }
    }

    /// The postfix rendering of the subtree, one character per node.
    pub fn rpn(&self) -> (r: Vec<char>)
        ensures
            r@ == self.rpn_seq(),
        decreases *self,
    {
        let mut out: Vec<char> = match &self.left_child {
            Some(l) => l.rpn(),
            None => Vec::new(),
        };
        let mut right_part: Vec<char> = match &self.right_child {
            Some(r) => r.rpn(),
            None => Vec::new(),
        };
        out.append(&mut right_part);
        let own = match &self.node_type {
            NodeType::Leaf(v) => *v,
            NodeType::Node(op) => op.symbol(),
        };
        out.push(own);
        proof {
            assert(out@ =~= self.rpn_seq());
        }
        out
    }

    /// Rewrites `Xor(a, b)` into `Or(And(a, Not b), And(b, Not a))`.
    fn simplify_xor(&mut self)
        requires
            old(self).wf(),
            old(self).node_type == NodeType::Node(Operation::Xor),
            (old(self).left_child matches Some(l) && l.in_basis()),
            (old(self).right_child matches Some(r) && r.in_basis()),
        ensures
            *final(self) == TreeNode::spec_binary(
                Operation::Or,
                TreeNode::boxed(
                    TreeNode::spec_binary(
                        Operation::And,
                        old(self).left_child,
                        TreeNode::boxed(TreeNode::spec_not(old(self).right_child)),
                    ),
                ),
                TreeNode::boxed(
                    TreeNode::spec_binary(
                        Operation::And,
                        old(self).right_child,
                        TreeNode::boxed(TreeNode::spec_not(old(self).left_child)),
                    ),
                ),
            ),
            final(self).wf(),
            final(self).in_basis(),
            final(self).vars() == old(self).vars(),
            forall|m: Map<char, bool>| #[trigger] final(self).sem(m) == old(self).sem(m),
    {
        proof {
            reveal_with_fuel(TreeNode::wf, 5);
            reveal_with_fuel(TreeNode::in_basis, 5);
            reveal_with_fuel(TreeNode::vars, 5);
            reveal_with_fuel(TreeNode::sem, 5);
        }
        let left = match self.left_child.take() {
            Some(b) => *b,
            None => unreached(),
        };
        let right = match self.right_child.take() {
            Some(b) => *b,
            None => unreached(),
        };
        let left_copy = left.clone_tree();
        let right_copy = right.clone_tree();
        let negate_left = TreeNode {
            node_type: NodeType::Node(Operation::Not),
            left_child: Some(Box::new(left_copy)),
            right_child: None,
        };
        let negate_right = TreeNode {
            node_type: NodeType::Node(Operation::Not),
            left_child: Some(Box::new(right_copy)),
            right_child: None,
        };
        let new_left = TreeNode {
            node_type: NodeType::Node(Operation::And),
            left_child: Some(Box::new(left)),
            right_child: Some(Box::new(negate_right)),
        };
        let new_right = TreeNode {
            node_type: NodeType::Node(Operation::And),
            left_child: Some(Box::new(right)),
            right_child: Some(Box::new(negate_left)),
        };
        self.node_type = NodeType::Node(Operation::Or);
        self.left_child = Some(Box::new(new_left));
        self.right_child = Some(Box::new(new_right));
        proof {
            assert(self.vars() =~= old(self).vars());
        }
    }

    /// Rewrites `IfThen(a, b)` into `Or(Not a, b)`.
    fn simplify_if_then(&mut self)
        requires
            old(self).wf(),
            old(self).node_type == NodeType::Node(Operation::IfThen),
            (old(self).left_child matches Some(l) && l.in_basis()),
            (old(self).right_child matches Some(r) && r.in_basis()),
        ensures
            *final(self) == TreeNode::spec_binary(
                Operation::Or,
                TreeNode::boxed(TreeNode::spec_not(old(self).left_child)),
                old(self).right_child,
            ),
            final(self).wf(),
            final(self).in_basis(),
            final(self).vars() == old(self).vars(),
            forall|m: Map<char, bool>| #[trigger] final(self).sem(m) == old(self).sem(m),
    {
        proof {
            reveal_with_fuel(TreeNode::wf, 5);
            reveal_with_fuel(TreeNode::in_basis, 5);
            reveal_with_fuel(TreeNode::vars, 5);
            reveal_with_fuel(TreeNode::sem, 5);
        }
        let left = match self.left_child.take() {
            Some(b) => b,
            None => unreached(),
        };
        let negate_left = TreeNode {
            node_type: NodeType::Node(Operation::Not),
            left_child: Some(left),
            right_child: None,
        };
        self.left_child = Some(Box::new(negate_left));
        self.node_type = NodeType::Node(Operation::Or);
        proof {
            assert(self.vars() =~= old(self).vars());
        }
    }

    /// Rewrites `Equality(a, b)` into `Or(And(a, b), And(Not a, Not b))`.
    fn simplify_equality(&mut self)
        requires
            old(self).wf(),
            old(self).node_type == NodeType::Node(Operation::Equality),
            (old(self).left_child matches Some(l) && l.in_basis()),
            (old(self).right_child matches Some(r) && r.in_basis()),
        ensures
            *final(self) == TreeNode::spec_binary(
                Operation::Or,
                TreeNode::boxed(
                    TreeNode::spec_binary(
                        Operation::And,
                        old(self).left_child,
                        old(self).right_child,
                    ),
                ),
                TreeNode::boxed(
                    TreeNode::spec_binary(
                        Operation::And,
                        TreeNode::boxed(TreeNode::spec_not(old(self).left_child)),
                        TreeNode::boxed(TreeNode::spec_not(old(self).right_child)),
                    ),
                ),
            ),
            final(self).wf(),
            final(self).in_basis(),
            final(self).vars() == old(self).vars(),
            forall|m: Map<char, bool>| #[trigger] final(self).sem(m) == old(self).sem(m),
    {
        proof {
            reveal_with_fuel(TreeNode::wf, 5);
            reveal_with_fuel(TreeNode::in_basis, 5);
            reveal_with_fuel(TreeNode::vars, 5);
            reveal_with_fuel(TreeNode::sem, 5);
        }
        let left = match self.left_child.take() {
            Some(b) => b,
            None => unreached(),
        };
        let right = match self.right_child.take() {
            Some(b) => b,
            None => unreached(),
        };
        let not_left = TreeNode {
            node_type: NodeType::Node(Operation::Not),
            left_child: Some(Box::new(left.clone_tree())),
            right_child: None,
        };
        let not_right = TreeNode {
            node_type: NodeType::Node(Operation::Not),
            left_child: Some(Box::new(right.clone_tree())),
            right_child: None,
        };
        let new_left = TreeNode {
            node_type: NodeType::Node(Operation::And),
            left_child: Some(left),
            right_child: Some(right),
        };
        let new_right = TreeNode {
            node_type: NodeType::Node(Operation::And),
            left_child: Some(Box::new(not_left)),
            right_child: Some(Box::new(not_right)),
        };
        self.node_type = NodeType::Node(Operation::Or);
        self.left_child = Some(Box::new(new_left));
        self.right_child = Some(Box::new(new_right));
        proof {
            assert(self.vars() =~= old(self).vars());
        }
    }

    /// Eliminates `Xor`, `IfThen` and `Equality` everywhere in the subtree,
    /// bottom-up, leaving an equivalent formula over `And`, `Or`, `Not`.
    pub fn simplify_node(&mut self)
        requires
            old(self).wf(),
        ensures
            *final(self) == old(self).eliminated(),
            final(self).wf(),
            final(self).in_basis(),
            final(self).vars() == old(self).vars(),
            forall|m: Map<char, bool>| #[trigger] final(self).sem(m) == old(self).sem(m),
        decreases *old(self),
    {
        proof {
            reveal_with_fuel(TreeNode::wf, 3);
            reveal_with_fuel(TreeNode::in_basis, 3);
            reveal_with_fuel(TreeNode::vars, 3);
            reveal_with_fuel(TreeNode::sem, 3);
        }
        match self.left_child.take() {
            Some(mut b) => {
                (&mut *b).simplify_node();
                self.left_child = Some(b);
            },
            None => {},
        }
        match self.right_child.take() {
            Some(mut b) => {
                (&mut *b).simplify_node();
                self.right_child = Some(b);
            },
            None => {},
        }
        let ghost mid = *self;
        let nt = self.node_type;
        match nt {
            NodeType::Leaf(_) => {},
            NodeType::Node(Operation::And)
            | NodeType::Node(Operation::Or)
            | NodeType::Node(Operation::Not) => {},
            NodeType::Node(Operation::Xor) => self.simplify_xor(),
            NodeType::Node(Operation::IfThen) => self.simplify_if_then(),
            NodeType::Node(Operation::Equality) => self.simplify_equality(),
        }
        proof {
            assert forall|m: Map<char, bool>| #[trigger] self.sem(m) == old(self).sem(m) by {
                match (mid.left_child, old(self).left_child) {
                    (Some(l1), Some(l0)) => {
                        assert(l1.sem(m) == l0.sem(m));
                    },
                    _ => {},
                }
                match (mid.right_child, old(self).right_child) {
                    (Some(r1), Some(r0)) => {
                        assert(r1.sem(m) == r0.sem(m));
                    },
                    _ => {},
                }
                assert(mid.sem(m) == old(self).sem(m));
            }
        }
    }

    /// Both children of a conjunction or disjunction have a strictly
    /// smaller distribution measure than the node itself.
    pub proof fn lemma_dist_children_lt(self)
        requires
            self.node_type == NodeType::Node(Operation::And) || self.node_type == NodeType::Node(
                Operation::Or,
            ),
            self.left_child is Some,
            self.right_child is Some,
        ensures
            (self.left_child matches Some(l) ==> l.dist_measure() < self.dist_measure()),
            (self.right_child matches Some(r) ==> r.dist_measure() < self.dist_measure()),
    {
        match (self.left_child, self.right_child) {
            (Some(l), Some(r)) => {
                l.lemma_dist_measure_pos();
                r.lemma_dist_measure_pos();
                if self.node_type == NodeType::Node(Operation::Or) {
                    let lm = l.dist_measure();
                    let rm = r.dist_measure();
                    assert(lm < lm * rm && rm < lm * rm) by (nonlinear_arith)
                        requires
                            lm >= 2,
                            rm >= 2,
                    ;
                }
            },
            _ => {},
        }
    }

    /// Distributes `Or` over a left `And` child:
    /// `Or(And(p, q), r)` becomes `And(Or(p, r), Or(q, r))`.
    fn handle_left_child_is_and(&mut self)
        requires
            old(self).wf(),
            old(self).is_nnf(),
            old(self).node_type == NodeType::Node(Operation::Or),
            (old(self).left_child matches Some(l) && l.node_type == NodeType::Node(
                Operation::And,
            )),
        ensures
            (old(self).left_child matches Some(c) ==> *final(self) == TreeNode::spec_binary(
                Operation::And,
                TreeNode::boxed(
                    TreeNode::spec_binary(Operation::Or, c.left_child, old(self).right_child),
                ),
                TreeNode::boxed(
                    TreeNode::spec_binary(Operation::Or, c.right_child, old(self).right_child),
                ),
            )),
            final(self).wf(),
            final(self).is_nnf(),
            final(self).node_type == NodeType::Node(Operation::And),
            final(self).vars() == old(self).vars(),
            forall|m: Map<char, bool>| #[trigger] final(self).sem(m) == old(self).sem(m),
            final(self).dist_measure() < old(self).dist_measure(),
    {
        proof {
            reveal_with_fuel(TreeNode::wf, 5);
            reveal_with_fuel(TreeNode::is_nnf, 5);
            reveal_with_fuel(TreeNode::vars, 5);
            reveal_with_fuel(TreeNode::sem, 5);
            reveal_with_fuel(TreeNode::dist_measure, 5);
        }
        let and_node = match self.left_child.take() {
            Some(b) => *b,
            None => unreached(),
        };
        let TreeNode { node_type: _, left_child: pl, right_child: ql } = and_node;
        let p_box = match pl {
            Some(b) => b,
            None => unreached(),
        };
        let q_box = match ql {
            Some(b) => b,
            None => unreached(),
        };
        let r_box = match self.right_child.take() {
            Some(b) => b,
            None => unreached(),
        };
        let r_copy = r_box.clone_tree();
        proof {
            let mp = p_box.dist_measure();
            let mq = q_box.dist_measure();
            let mr = r_box.dist_measure();
            r_box.lemma_dist_measure_pos();
            assert((mp + mq + 1) * mr == mp * mr + mq * mr + mr) by (nonlinear_arith);
        }
        let new_left = TreeNode {
            node_type: NodeType::Node(Operation::Or),
            left_child: Some(p_box),
            right_child: Some(r_box),
        };
        let new_right = TreeNode {
            node_type: NodeType::Node(Operation::Or),
            left_child: Some(q_box),
            right_child: Some(Box::new(r_copy)),
        };
        self.node_type = NodeType::Node(Operation::And);
        self.left_child = Some(Box::new(new_left));
        self.right_child = Some(Box::new(new_right));
        proof {
            assert(self.vars() =~= old(self).vars());
        }
    }

    /// Distributes `Or` over a right `And` child:
    /// `Or(r, And(p, q))` becomes `And(Or(r, p), Or(r, q))`.
    fn handle_right_child_is_and(&mut self)
        requires
            old(self).wf(),
            old(self).is_nnf(),
            old(self).node_type == NodeType::Node(Operation::Or),
            (old(self).right_child matches Some(r) && r.node_type == NodeType::Node(
                Operation::And,
            )),
        ensures
            (old(self).right_child matches Some(c) ==> *final(self) == TreeNode::spec_binary(
                Operation::And,
                TreeNode::boxed(
                    TreeNode::spec_binary(Operation::Or, old(self).left_child, c.left_child),
                ),
                TreeNode::boxed(
                    TreeNode::spec_binary(Operation::Or, old(self).left_child, c.right_child),
                ),
            )),
            final(self).wf(),
            final(self).is_nnf(),
            final(self).node_type == NodeType::Node(Operation::And),
            final(self).vars() == old(self).vars(),
            forall|m: Map<char, bool>| #[trigger] final(self).sem(m) == old(self).sem(m),
            final(self).dist_measure() < old(self).dist_measure(),
    {
        proof {
            reveal_with_fuel(TreeNode::wf, 5);
            reveal_with_fuel(TreeNode::is_nnf, 5);
            reveal_with_fuel(TreeNode::vars, 5);
            reveal_with_fuel(TreeNode::sem, 5);
            reveal_with_fuel(TreeNode::dist_measure, 5);
        }
        let and_node = match self.right_child.take() {
            Some(b) => *b,
            None => unreached(),
        };
        let TreeNode { node_type: _, left_child: pl, right_child: ql } = and_node;
        let p_box = match pl {
            Some(b) => b,
            None => unreached(),
        };
        let q_box = match ql {
            Some(b) => b,
            None => unreached(),
        };
        let r_box = match self.left_child.take() {
            Some(b) => b,
            None => unreached(),
        };
        let r_copy = r_box.clone_tree();
        proof {
            let mp = p_box.dist_measure();
            let mq = q_box.dist_measure();
            let mr = r_box.dist_measure();
            r_box.lemma_dist_measure_pos();
            assert(mr * (mp + mq + 1) == mr * mp + mr * mq + mr) by (nonlinear_arith);
        }
        let new_left = TreeNode {
            node_type: NodeType::Node(Operation::Or),
            left_child: Some(r_box),
            right_child: Some(p_box),
        };
        let new_right = TreeNode {
            node_type: NodeType::Node(Operation::Or),
            left_child: Some(Box::new(r_copy)),
            right_child: Some(q_box),
        };
        self.node_type = NodeType::Node(Operation::And);
        self.left_child = Some(Box::new(new_left));
        self.right_child = Some(Box::new(new_right));
        proof {
            assert(self.vars() =~= old(self).vars());
        }
    }

    /// One top-down distribution sweep over a tree in negation normal form.
    /// Wherever an `Or` node has an `And` child, the disjunction is
    /// distributed over the conjunction and `modified` is raised; the sweep
    /// then continues inside the rewritten children.  A sweep that leaves
    /// `modified` as it found it changed nothing, and then the tree is in
    /// conjunctive normal form (see `lemma_distributed_is_cnf`); a sweep
    /// that raises it strictly decreases `dist_measure`, so iterating
    /// sweeps to a fixpoint terminates.
    pub fn convert_to_conjuctive_normal_form(&mut self, modified: &mut bool)
        requires
            old(self).wf(),
            old(self).is_nnf(),
        ensures
            *final(self) == old(self).one_sweep(),
            final(self).wf(),
            final(self).is_nnf(),
            final(self).vars() == old(self).vars(),
            forall|m: Map<char, bool>| #[trigger] final(self).sem(m) == old(self).sem(m),
            final(self).dist_measure() <= old(self).dist_measure(),
            *old(modified) ==> *final(modified),
            !*final(modified) ==> *final(self) == *old(self) && final(self).distributed(),
            (*final(modified) && !*old(modified)) ==> final(self).dist_measure() < old(
                self,
            ).dist_measure(),
        decreases old(self).dist_measure(),
    {
        proof {
            reveal_with_fuel(TreeNode::wf, 3);
            reveal_with_fuel(TreeNode::is_nnf, 3);
            reveal_with_fuel(TreeNode::vars, 3);
            reveal_with_fuel(TreeNode::distributed, 3);
            reveal_with_fuel(TreeNode::dist_measure, 3);
            reveal_with_fuel(TreeNode::one_sweep, 2);
        }
        let nt = self.node_type;
        let node_is_connective = match nt {
            NodeType::Node(Operation::And) | NodeType::Node(Operation::Or) => true,
            _ => false,
        };
        if !node_is_connective {
            // A leaf or a negated leaf needs no distribution.
            return ;
        }
        if matches!(nt, NodeType::Node(Operation::Or)) {
            let left_is_and = match &self.left_child {
                Some(l) => l.node_type.is_and(),
                None => unreached(),
            };
            if left_is_and {
                self.handle_left_child_is_and();
                *modified = true;
            } else {
                let right_is_and = match &self.right_child {
                    Some(r) => r.node_type.is_and(),
                    None => unreached(),
                };
                if right_is_and {
                    self.handle_right_child_is_and();
                    *modified = true;
                }
            }
        }
        let ghost mid = *self;
        let ghost mid_modified = *modified;
        proof {
            mid.lemma_dist_children_lt();
        }
        match self.left_child.take() {
            Some(mut b) => {
                (&mut *b).convert_to_conjuctive_normal_form(modified);
                self.left_child = Some(b);
            },
            None => {
                proof {
                    assert(false);
                }
            },
        }
        match self.right_child.take() {
            Some(mut b) => {
                (&mut *b).convert_to_conjuctive_normal_form(modified);
                self.right_child = Some(b);
            },
            None => {
                proof {
                    assert(false);
                }
            },
        }
        proof {
            let ghost fin = *self;
            match (mid.left_child, mid.right_child, fin.left_child, fin.right_child) {
                (Some(ml), Some(mr), Some(fl), Some(fr)) => {
                    ml.lemma_dist_measure_pos();
                    mr.lemma_dist_measure_pos();
                    fl.lemma_dist_measure_pos();
                    fr.lemma_dist_measure_pos();
                    let mlm = ml.dist_measure();
                    let mrm = mr.dist_measure();
                    let flm = fl.dist_measure();
                    let frm = fr.dist_measure();
                    if mid.node_type == NodeType::Node(Operation::Or) {
                        assert(flm * frm <= mlm * mrm) by (nonlinear_arith)
                            requires
                                flm <= mlm,
                                frm <= mrm,
                                flm >= 0,
                                frm >= 0,
                        ;
                        if flm < mlm || frm < mrm {
                            assert(flm * frm < mlm * mrm) by (nonlinear_arith)
                                requires
                                    flm <= mlm,
                                    frm <= mrm,
                                    flm < mlm || frm < mrm,
                                    flm >= 2,
                                    frm >= 2,
                                    mlm >= 2,
                                    mrm >= 2,
                            ;
                        }
                    }
                    assert(fin.vars() =~= mid.vars());
                    assert forall|m: Map<char, bool>| #[trigger] self.sem(m) == old(self).sem(m) by {
                        assert(fl.sem(m) == ml.sem(m));
                        assert(fr.sem(m) == mr.sem(m));
                        assert(fin.sem(m) == mid.sem(m));
                        assert(mid.sem(m) == old(self).sem(m));
                    }
                    if !*modified {
                        assert(fl == ml && fr == mr);
                        assert(fin == mid);
                    }
                },
                _ => {
                    assert(false);
                },
            }
        }
    }

    /// Rewrites one negation node whose child is not a leaf: collapses a
    /// double negation, or applies a De Morgan law.  The negation push-down
    /// measure strictly decreases.
    fn handle_negation_node(&mut self)
        requires
            old(self).wf(),
            old(self).in_basis(),
            old(self).node_type == NodeType::Node(Operation::Not),
            !(old(self).left_child matches Some(l) && l.node_type is Leaf),
        ensures
            (old(self).left_child matches Some(c) ==> {
                &&& c.node_type == NodeType::Node(Operation::Not)
                    ==> (c.left_child matches Some(g) && *final(self) == (TreeNode {
                    node_type: g.node_type,
                    left_child: g.left_child,
                    right_child: g.right_child,
                }))
                &&& c.node_type == NodeType::Node(Operation::Or) ==> *final(self)
                    == TreeNode::spec_binary(
                    Operation::And,
                    TreeNode::boxed(TreeNode::spec_not(c.left_child)),
                    TreeNode::boxed(TreeNode::spec_not(c.right_child)),
                )
                &&& c.node_type == NodeType::Node(Operation::And) ==> *final(self)
                    == TreeNode::spec_binary(
                    Operation::Or,
                    TreeNode::boxed(TreeNode::spec_not(c.left_child)),
                    TreeNode::boxed(TreeNode::spec_not(c.right_child)),
                )
            }),
            final(self).wf(),
            final(self).in_basis(),
            final(self).vars() == old(self).vars(),
            forall|m: Map<char, bool>| #[trigger] final(self).sem(m) == old(self).sem(m),
            final(self).neg_measure() < old(self).neg_measure(),
    {
        proof {
            reveal_with_fuel(TreeNode::wf, 5);
            reveal_with_fuel(TreeNode::in_basis, 5);
            reveal_with_fuel(TreeNode::vars, 5);
            reveal_with_fuel(TreeNode::sem, 5);
            reveal_with_fuel(TreeNode::neg_measure, 5);
        }
        let child = match self.left_child.take() {
            Some(b) => *b,
            None => unreached(),
        };
        match child.node_type {
            NodeType::Node(Operation::Not) => {
                // Not(Not(g))  ==>  g
                let grand = match child.left_child {
                    Some(b) => *b,
                    None => unreached(),
                };
                proof {
                    grand.lemma_neg_measure_pos();
                }
                *self = grand;
            },
            NodeType::Node(Operation::Or) => {
                // Not(Or(l, r))  ==>  And(Not l, Not r)
                let TreeNode { node_type: _, left_child: cl, right_child: cr } = child;
                let l_box = match cl {
                    Some(b) => b,
                    None => unreached(),
                };
                let r_box = match cr {
                    Some(b) => b,
                    None => unreached(),
                };
                let not_l = TreeNode {
                    node_type: NodeType::Node(Operation::Not),
                    left_child: Some(l_box),
                    right_child: None,
                };
                let not_r = TreeNode {
                    node_type: NodeType::Node(Operation::Not),
                    left_child: Some(r_box),
                    right_child: None,
                };
                self.node_type = NodeType::Node(Operation::And);
                self.left_child = Some(Box::new(not_l));
                self.right_child = Some(Box::new(not_r));
                proof {
                    assert(self.vars() =~= old(self).vars());
                }
            },
            NodeType::Node(Operation::And) => {
                // Not(And(l, r))  ==>  Or(Not l, Not r)
                let TreeNode { node_type: _, left_child: cl, right_child: cr } = child;
                let l_box = match cl {
                    Some(b) => b,
                    None => unreached(),
                };
                let r_box = match cr {
                    Some(b) => b,
                    None => unreached(),
                };
                let not_l = TreeNode {
                    node_type: NodeType::Node(Operation::Not),
                    left_child: Some(l_box),
                    right_child: None,
                };
                let not_r = TreeNode {
                    node_type: NodeType::Node(Operation::Not),
                    left_child: Some(r_box),
                    right_child: None,
                };
                self.node_type = NodeType::Node(Operation::Or);
                self.left_child = Some(Box::new(not_l));
                self.right_child = Some(Box::new(not_r));
                proof {
                    assert(self.vars() =~= old(self).vars());
                }
            },
            NodeType::Leaf(_) => {
                proof {
                    assert(false);
                }
            },
            NodeType::Node(_) => {
                proof {
                    assert(false);
                }
            },
        }
    }

    /// Pushes all negations down until each sits directly above a leaf,
    /// turning a formula over the `And`/`Or`/`Not` basis into negation
    /// normal form.
    pub fn push_negation(&mut self)
        requires
            old(self).wf(),
            old(self).in_basis(),
        ensures
            *final(self) == old(self).negations_pushed(),
            final(self).wf(),
            final(self).is_nnf(),
            final(self).vars() == old(self).vars(),
            forall|m: Map<char, bool>| #[trigger] final(self).sem(m) == old(self).sem(m),
        decreases old(self).neg_measure(),
    {
        proof {
            reveal_with_fuel(TreeNode::wf, 3);
            reveal_with_fuel(TreeNode::in_basis, 3);
            reveal_with_fuel(TreeNode::is_nnf, 3);
            reveal_with_fuel(TreeNode::vars, 3);
            reveal_with_fuel(TreeNode::neg_measure, 3);
        }
        let nt = self.node_type;
        match nt {
            NodeType::Leaf(_) => {
                return ;
            },
            NodeType::Node(Operation::Not) => {
                let child_is_leaf = match &self.left_child {
                    Some(l) => l.node_type.is_leaf(),
                    None => unreached(),
                };
                if child_is_leaf {
                    return ;
                }
                self.handle_negation_node();
                self.push_negation();
                return ;
            },
            NodeType::Node(Operation::And) | NodeType::Node(Operation::Or) => {},
            NodeType::Node(_) => {
                proof {
                    assert(false);
                }
                return ;
            },
        }
        // A conjunction or disjunction: push negations down in both subtrees.
        proof {
            match (old(self).left_child, old(self).right_child) {
                (Some(l), Some(r)) => {
                    l.lemma_neg_measure_pos();
                    r.lemma_neg_measure_pos();
                },
                _ => {},
            }
        }
        match self.left_child.take() {
            Some(mut b) => {
                (&mut *b).push_negation();
                self.left_child = Some(b);
            },
            None => {},
        }
        match self.right_child.take() {
            Some(mut b) => {
                (&mut *b).push_negation();
                self.right_child = Some(b);
            },
            None => {},
        }
        proof {
            let ghost fin = *self;
            assert forall|m: Map<char, bool>| #[trigger] self.sem(m) == old(self).sem(m) by {
                match (fin.left_child, old(self).left_child) {
                    (Some(l1), Some(l0)) => {
                        assert(l1.sem(m) == l0.sem(m));
                    },
                    _ => {},
                }
                match (fin.right_child, old(self).right_child) {
                    (Some(r1), Some(r0)) => {
                        assert(r1.sem(m) == r0.sem(m));
                    },
                    _ => {},
                }
            }
        }
    }

    /// Evaluates the subtree under `value_map`, which must bind every
    /// variable occurring in it.
    pub fn resolve_node(&self, value_map: &Assignment) -> (r: bool)
        requires
            self.wf(),
            self.vars().subset_of(value_map@.dom()),
        ensures
            r == self.sem(value_map@),
        decreases *self,
    {
        match &self.node_type {
            NodeType::Leaf(v) => {
                proof {
                    assert(self.vars().contains(*v));
                }
                match value_map.get(*v) {
                    Some(value) => value,
                    None => unreached(),
                }
            },
            NodeType::Node(op) => {
                let left_value = match &self.left_child {
                    Some(l) => l.resolve_node(value_map),
                    None => unreached(),
                };
                let right_value = match &self.right_child {
                    Some(r) => r.resolve_node(value_map),
                    None => left_value,
                };
                op.apply(left_value, right_value)
            },
        }
    }
}

} // verus!
