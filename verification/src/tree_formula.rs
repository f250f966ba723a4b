//! The formula tree over literal boolean leaves: parsing a constant
//! postfix formula and resolving its truth value.

use vstd::prelude::*;
use vstd::string::StrSliceExecFns;

use crate::error::Error;
use crate::operation::is_operator_symbol;
use crate::operation::operation_of_symbol;
use crate::operation::Operation;

verus! {

/// What a node of a constant formula tree holds: a boolean literal, or an
/// operator.
#[derive(Debug, Clone, Copy, PartialEq, Eq, Structural)]
pub enum NodeType {
    Leaf(bool),
    Node(Operation),
}

/// One node of a formula tree over literal boolean leaves.
#[derive(Debug)]
pub struct FormulaNode {
    pub node_type: NodeType,
    pub left_child: Option<Box<FormulaNode>>,
    pub right_child: Option<Box<FormulaNode>>,
}

impl FormulaNode {
    /// The arity of the node is respected at the node itself.
    pub open spec fn shape_ok(self) -> bool {
        match self.node_type {
            NodeType::Leaf(_) => self.left_child is None && self.right_child is None,
            NodeType::Node(op) => self.left_child is Some && (if op is Not {
                self.right_child is None
            } else {
                self.right_child is Some
            }),
        }
    }

    /// The arity of every operator in the subtree is respected.
    pub open spec fn wf(self) -> bool
        decreases self,
    {
        &&& self.shape_ok()
        &&& (self.left_child matches Some(l) ==> l.wf())
        &&& (self.right_child matches Some(r) ==> r.wf())
    }

    /// The truth value of the subtree; it has no variables to look up.
    pub open spec fn sem_const(self) -> bool
        decreases self,
    {
        match self.node_type {
            NodeType::Leaf(v) => v,
            NodeType::Node(op) => op.spec_eval(
                match self.left_child {
                    Some(l) => l.sem_const(),
                    None => arbitrary(),
                },
                match self.right_child {
                    Some(r) => r.sem_const(),
                    None => arbitrary(),
                },
            ),
        }
    }

    /// The postfix rendering of the subtree, one character per node.
    pub fn rpn(&self) -> (r: Vec<char>)
        ensures
            r@ == self.rpn_seq(),
        decreases *self,
    {
        let mut out: Vec<char> = match &self.left_child {
            Some(l) => l.rpn(),
            None => Vec::new(),
        };
        let mut right_part: Vec<char> = match &self.right_child {
            Some(r) => r.rpn(),
            None => Vec::new(),
        };
        out.append(&mut right_part);
        let own = match &self.node_type {
            NodeType::Leaf(v) => if *v {
                '1'
            } else {
                '0'
            },
            NodeType::Node(op) => op.symbol(),
        };
        out.push(own);
        proof {
            assert(out@ =~= self.rpn_seq());
        }
        out
    }

    /// The postfix rendering of the subtree: left subtree, right subtree,
    /// then the node's own character.
    pub open spec fn rpn_seq(self) -> Seq<char>
        decreases self,
    {
        (match self.left_child {
            Some(l) => l.rpn_seq(),
            None => Seq::empty(),
        }) + (match self.right_child {
            Some(r) => r.rpn_seq(),
            None => Seq::empty(),
        }) + seq![
            match self.node_type {
                NodeType::Leaf(v) => if v {
                    '1'
                } else {
                    '0'
                },
                NodeType::Node(op) => op.spec_symbol(),
            },
        ]
    }
}

/// One step of the postfix scan: how one character transforms the operand
/// stack, or fails.
pub open spec fn spec_step(stack: Seq<FormulaNode>, c: char) -> Result<Seq<FormulaNode>, Error> {
    if c == '0' || c == '1' {
        Ok(
            stack.push(
                FormulaNode {
                    node_type: NodeType::Leaf(c == '1'),
                    left_child: None,
                    right_child: None,
                },
            ),
        )
    } else if is_operator_symbol(c) {
        let op = operation_of_symbol(c);
        if op is Not {
            if stack.len() < 1 {
                Err(Error::InvalidFormulaGrammar)
            } else {
                Ok(
                    stack.drop_last().push(
                        FormulaNode {
                            node_type: NodeType::Node(op),
                            left_child: Some(Box::new(stack.last())),
                            right_child: None,
                        },
                    ),
                )
            }
        } else {
            if stack.len() < 2 {
                Err(Error::InvalidFormulaGrammar)
            } else {
                Ok(
                    stack.drop_last().drop_last().push(
                        FormulaNode {
                            node_type: NodeType::Node(op),
                            left_child: Some(Box::new(stack.drop_last().last())),
                            right_child: Some(Box::new(stack.last())),
                        },
                    ),
                )
            }
        }
    } else {
        Err(Error::InvalidFormulaSyntax)
    }
}

/// The whole postfix scan: the operand stack after reading `s`, or the
/// first error raised.
pub open spec fn spec_scan(s: Seq<char>) -> Result<Seq<FormulaNode>, Error>
    decreases s.len(),
{
    if s.len() == 0 {
        Ok(Seq::empty())
    } else {
        match spec_scan(s.drop_last()) {
            Ok(stack) => spec_step(stack, s.last()),
            Err(e) => Err(e),
        }
    }
}

/// The tree denoted by a postfix formula string: the single node left on
/// the stack, or the first error of the scan, or a grammar error when the
/// scan leaves anything other than exactly one node.
pub open spec fn spec_parse(s: Seq<char>) -> Result<FormulaNode, Error> {
    match spec_scan(s) {
        Ok(stack) => if stack.len() == 1 {
            Ok(stack[0])
        } else {
            Err(Error::InvalidFormulaGrammar)
        },
        Err(e) => Err(e),
    }
}

/// The concatenated postfix renderings of every node on a stack.
pub open spec fn rpn_concat(stack: Seq<FormulaNode>) -> Seq<char>
    decreases stack.len(),
{
    if stack.len() == 0 {
        Seq::empty()
    } else {
        rpn_concat(stack.drop_last()) + stack.last().rpn_seq()
    }
}

/// Once the scan has failed on a prefix, the whole string fails the same
/// way.
pub proof fn lemma_scan_error_persists(s: Seq<char>, i: int)
    requires
        0 <= i <= s.len(),
        spec_scan(s.take(i)) is Err,
    ensures
        spec_scan(s) == spec_scan(s.take(i)),
    decreases s.len() - i,
{
    if i < s.len() {
        assert(s.take(i + 1).drop_last() =~= s.take(i));
        lemma_scan_error_persists(s, i + 1);
    } else {
        assert(s.take(i) =~= s);
    }
}

/// Every node a successful scan leaves on the stack is well formed, and
/// printing the stack back in postfix order reproduces the scanned string.
pub proof fn lemma_scan_props(s: Seq<char>)
    ensures
        spec_scan(s) matches Ok(stack) ==> {
            &&& forall|i: int| 0 <= i < stack.len() ==> (#[trigger] stack[i]).wf()
            &&& rpn_concat(stack) == s
        },
    decreases s.len(),
{
    if s.len() == 0 {
        assert(rpn_concat(Seq::<FormulaNode>::empty()) =~= s);
    } else {
        lemma_scan_props(s.drop_last());
        if spec_scan(s) is Ok {
            let stack = spec_scan(s)->Ok_0;
            let prev = spec_scan(s.drop_last())->Ok_0;
            let c = s.last();
            if c == '0' || c == '1' {
                let node = stack.last();
                assert(stack.drop_last() =~= prev);
                assert(node.rpn_seq() =~= seq![c]);
                assert(rpn_concat(stack) =~= s);
            } else if operation_of_symbol(c) is Not {
                let node = stack.last();
                assert(stack.drop_last() =~= prev.drop_last());
                assert(node.rpn_seq() =~= prev.last().rpn_seq() + seq![c]);
                assert(rpn_concat(prev) == rpn_concat(prev.drop_last()) + prev.last().rpn_seq());
                assert(rpn_concat(stack) == rpn_concat(prev.drop_last()) + node.rpn_seq());
                assert(rpn_concat(stack) =~= rpn_concat(prev) + seq![c]);
                assert(rpn_concat(prev) + seq![c] =~= s);
                assert(rpn_concat(stack) == s);
            } else {
                let node = stack.last();
                assert(stack.drop_last() =~= prev.drop_last().drop_last());
                assert(node.rpn_seq() =~= prev.drop_last().last().rpn_seq()
                    + prev.last().rpn_seq() + seq![c]);
                assert(rpn_concat(prev) == rpn_concat(prev.drop_last()) + prev.last().rpn_seq());
                assert(rpn_concat(prev.drop_last()) == rpn_concat(prev.drop_last().drop_last())
                    + prev.drop_last().last().rpn_seq());
                assert(rpn_concat(stack) == rpn_concat(prev.drop_last().drop_last())
                    + node.rpn_seq());
                assert(rpn_concat(stack) =~= rpn_concat(prev) + seq![c]);
                assert(rpn_concat(prev) + seq![c] =~= s);
                assert(rpn_concat(stack) == s);
            }
        }
    }
}

/// Round trip: a constant formula string that parses prints back, in
/// postfix order, to exactly itself.
pub proof fn lemma_parse_round_trip(s: Seq<char>)
    ensures
        spec_parse(s) matches Ok(t) ==> t.rpn_seq() == s,
{
    lemma_scan_props(s);
    if spec_parse(s) is Ok {
        let stack = spec_scan(s)->Ok_0;
        assert(rpn_concat(stack) == rpn_concat(stack.drop_last()) + stack.last().rpn_seq());
        assert(stack.drop_last() =~= Seq::<FormulaNode>::empty());
        assert(Seq::<char>::empty() + stack[0].rpn_seq() =~= stack[0].rpn_seq());
    }
}

/// A parsed formula over literal boolean leaves.
#[derive(Debug)]
pub struct FormulaTree {
    pub root: FormulaNode,
}

impl FormulaTree {
    /// Pops one operand and pushes its negation; fails on an empty stack.
    fn build_negation_node(stack: &mut Vec<FormulaNode>) -> (r: Result<(), Error>)
        ensures
            old(stack)@.len() < 1 ==> r == Err::<(), Error>(Error::InvalidFormulaGrammar)
                && final(stack)@ == old(stack)@,
            old(stack)@.len() >= 1 ==> r == Ok::<(), Error>(()) && final(stack)@ == old(
                stack,
            )@.drop_last().push(
                (FormulaNode {
                    node_type: NodeType::Node(Operation::Not),
                    left_child: Some(Box::new(old(stack)@.last())),
                    right_child: None,
                }),
            ),
    {
        if stack.len() < 1 {
            return Err(Error::InvalidFormulaGrammar);
        }
        let child = match stack.pop() {
            Some(c) => c,
            None => unreached(),
        };
        stack.push(
            FormulaNode {
                node_type: NodeType::Node(Operation::Not),
                left_child: Some(Box::new(child)),
                right_child: None,
            },
        );
        Ok(())
    }

    /// Pops the right operand, then the left, and pushes the combined
    /// binary node; fails when fewer than two operands are on the stack.
    fn build_operation_node(operation: Operation, stack: &mut Vec<FormulaNode>) -> (r: Result<
        (),
        Error,
    >)
        requires
            operation !is Not,
        ensures
            old(stack)@.len() < 2 ==> r == Err::<(), Error>(Error::InvalidFormulaGrammar)
                && final(stack)@ == old(stack)@,
            old(stack)@.len() >= 2 ==> r == Ok::<(), Error>(()) && final(stack)@ == old(
                stack,
            )@.drop_last().drop_last().push(
                (FormulaNode {
                    node_type: NodeType::Node(operation),
                    left_child: Some(Box::new(old(stack)@.drop_last().last())),
                    right_child: Some(Box::new(old(stack)@.last())),
                }),
            ),
    {
        if stack.len() < 2 {
            return Err(Error::InvalidFormulaGrammar);
        }
        let right_child = match stack.pop() {
            Some(c) => c,
            None => unreached(),
        };
        let left_child = match stack.pop() {
            Some(c) => c,
            None => unreached(),
        };
        stack.push(
            FormulaNode {
                node_type: NodeType::Node(operation),
                left_child: Some(Box::new(left_child)),
                right_child: Some(Box::new(right_child)),
            },
        );
        Ok(())
    }

    /// Parses a postfix formula over `0`, `1` and the six operators.  The
    /// result is exactly what the abstract scan `spec_parse` denotes; a
    /// returned tree is well formed and prints back to the input string.
    pub fn build(formula: &str) -> (r: Result<Self, Error>)
        ensures
            (match r {
                Ok(t) => spec_parse(formula@) == Ok::<FormulaNode, Error>(t.root) && t.root.wf()
                    && t.root.rpn_seq() == formula@,
                Err(e) => spec_parse(formula@) == Err::<FormulaNode, Error>(e),
            }),
    {
        let length = formula.unicode_len();
        let mut stack: Vec<FormulaNode> = Vec::new();
        proof {
            assert(formula@.take(0) =~= Seq::<char>::empty());
        }
        let mut index: usize = 0;
        while index < length
            invariant
                length == formula@.len(),
                index <= length,
                spec_scan(formula@.take(index as int)) == Ok::<Seq<FormulaNode>, Error>(stack@),
            decreases length - index,
        {
            let character = formula.get_char(index);
            proof {
                assert(formula@.take(index + 1).drop_last() =~= formula@.take(index as int));
                assert(formula@.take(index + 1).last() == formula@[index as int]);
            }
            let step: Result<(), Error> = match character {
                '0' => {
                    stack.push(
                        FormulaNode {
                            node_type: NodeType::Leaf(false),
                            left_child: None,
                            right_child: None,
                        },
                    );
                    Ok(())
                },
                '1' => {
                    stack.push(
                        FormulaNode {
                            node_type: NodeType::Leaf(true),
                            left_child: None,
                            right_child: None,
                        },
                    );
                    Ok(())
                },
                '!' => Self::build_negation_node(&mut stack),
                '&' => Self::build_operation_node(Operation::And, &mut stack),
                '|' => Self::build_operation_node(Operation::Or, &mut stack),
                '^' => Self::build_operation_node(Operation::Xor, &mut stack),
                '>' => Self::build_operation_node(Operation::IfThen, &mut stack),
                '=' => Self::build_operation_node(Operation::Equality, &mut stack),
                _ => Err(Error::InvalidFormulaSyntax),
            };
            match step {
                Ok(()) => {},
                Err(e) => {
                    proof {
                        lemma_scan_error_persists(formula@, index + 1);
                    }
                    return Err(e);
                },
            }
            index = index + 1;
        }
        proof {
            assert(formula@.take(length as int) =~= formula@);
        }
        if stack.len() != 1 {
            Err(Error::InvalidFormulaGrammar)
        } else {
            let root = match stack.pop() {
                Some(n) => n,
                None => unreached(),
            };
            proof {
                lemma_scan_props(formula@);
                let st = spec_scan(formula@)->Ok_0;
                assert(root == st[0]);
                assert(rpn_concat(st) == formula@);
                assert(rpn_concat(st.drop_last()) + st.last().rpn_seq() == formula@);
                assert(st.drop_last() =~= Seq::<FormulaNode>::empty());
                assert(Seq::<char>::empty() + root.rpn_seq() =~= root.rpn_seq());
            }
            Ok(FormulaTree { root })
        }
    }

    /// The truth value of the parsed formula.
    pub fn resolve_tree(self) -> (r: bool)
        requires
            self.root.wf(),
        ensures
            r == self.root.sem_const(),
    {
        Self::resolve_node(&self.root)
    }

    /// Evaluates one subtree of literal leaves.
    fn resolve_node(node: &FormulaNode) -> (r: bool)
        requires
            node.wf(),
        ensures
            r == node.sem_const(),
        decreases *node,
    {
        match &node.node_type {
            NodeType::Leaf(value) => *value,
            NodeType::Node(op) => {
                let left_value = match &node.left_child {
                    Some(l) => Self::resolve_node(l),
                    None => unreached(),
                };
                let right_value = match &node.right_child {
                    Some(r) => Self::resolve_node(r),
                    None => left_value,
                };
                op.apply(left_value, right_value)
            },
        }
    }
}

} // verus!
