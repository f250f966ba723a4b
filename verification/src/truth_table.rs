//! Parsing formulas over variables, the recorded variable order, the
//! normal-form drivers, and the enumeration of complete truth tables.

use vstd::arithmetic::power2::pow2;
use vstd::prelude::*;
use vstd::seq_lib::group_seq_properties;
use vstd::string::StrSliceExecFns;

use crate::assignment::Assignment;
use crate::error::Error;
use crate::operation::is_operator_symbol;
use crate::operation::operation_of_symbol;
use crate::operation::Operation;
use crate::tree_node::NodeType;
use crate::tree_node::TreeNode;

verus! {

/// Whether `c` is a variable letter of the formula grammar: one uppercase
/// letter.
pub open spec fn is_variable_symbol(c: char) -> bool {
    65 <= c as u32 <= 90
}

/// One step of the postfix scan: how one character transforms the operand
/// stack, or fails.
pub open spec fn spec_step(stack: Seq<TreeNode>, c: char) -> Result<Seq<TreeNode>, Error> {
    if is_operator_symbol(c) {
        let op = operation_of_symbol(c);
        if op is Not {
            if stack.len() < 1 {
                Err(Error::InvalidFormulaGrammar)
            } else {
                Ok(
                    stack.drop_last().push(
                        TreeNode {
                            node_type: NodeType::Node(op),
                            left_child: Some(Box::new(stack.last())),
                            right_child: None,
                        },
                    ),
                )
            }
        } else {
            if stack.len() < 2 {
                Err(Error::InvalidFormulaGrammar)
            } else {
                Ok(
                    stack.drop_last().drop_last().push(
                        TreeNode {
                            node_type: NodeType::Node(op),
                            left_child: Some(Box::new(stack.drop_last().last())),
                            right_child: Some(Box::new(stack.last())),
                        },
                    ),
                )
            }
        }
    } else if is_variable_symbol(c) {
        Ok(
            stack.push(
                TreeNode { node_type: NodeType::Leaf(c), left_child: None, right_child: None },
            ),
        )
    } else {
        Err(Error::InvalidFormulaSyntax)
    }
}

/// The whole postfix scan: the operand stack after reading `s`, or the
/// first error raised.
pub open spec fn spec_scan(s: Seq<char>) -> Result<Seq<TreeNode>, Error>
    decreases s.len(),
{
    if s.len() == 0 {
        Ok(Seq::empty())
    } else {
        match spec_scan(s.drop_last()) {
            Ok(stack) => spec_step(stack, s.last()),
            Err(e) => Err(e),
        }
    }
}

/// The tree denoted by a postfix formula string over variables: the single
/// node left on the stack, or the first error of the scan, or a grammar
/// error when anything other than exactly one node is left.
pub open spec fn spec_parse(s: Seq<char>) -> Result<TreeNode, Error> {
    match spec_scan(s) {
        Ok(stack) => if stack.len() == 1 {
            Ok(stack[0])
        } else {
            Err(Error::InvalidFormulaGrammar)
        },
        Err(e) => Err(e),
    }
}

/// The variable order a left-to-right scan of `s` records: each variable
/// letter is inserted at the front when first seen, so the variable first
/// seen in the input ends up last.
pub open spec fn spec_var_order(s: Seq<char>) -> Seq<char>
    decreases s.len(),
{
    if s.len() == 0 {
        Seq::empty()
    } else {
        let prefix = spec_var_order(s.drop_last());
        let c = s.last();
        if is_variable_symbol(c) && !prefix.contains(c) {
            seq![c] + prefix
        } else {
            prefix
        }
    }
}

/// The set of variable letters occurring in `s`.
pub open spec fn string_vars(s: Seq<char>) -> Set<char>
    decreases s.len(),
{
    if s.len() == 0 {
        Set::empty()
    } else {
        if is_variable_symbol(s.last()) {
            string_vars(s.drop_last()).insert(s.last())
        } else {
            string_vars(s.drop_last())
        }
    }
}

/// The concatenated postfix renderings of every node on a stack.
pub open spec fn rpn_concat(stack: Seq<TreeNode>) -> Seq<char>
    decreases stack.len(),
{
    if stack.len() == 0 {
        Seq::empty()
    } else {
        rpn_concat(stack.drop_last()) + stack.last().rpn_seq()
    }
}

/// The united variable sets of every node on a stack.
pub open spec fn vars_union(stack: Seq<TreeNode>) -> Set<char>
    decreases stack.len(),
{
    if stack.len() == 0 {
        Set::empty()
    } else {
        vars_union(stack.drop_last()) + stack.last().vars()
    }
}

/// Once the scan has failed on a prefix, the whole string fails the same
/// way.
pub proof fn lemma_scan_error_persists(s: Seq<char>, i: int)
    requires
        0 <= i <= s.len(),
        spec_scan(s.take(i)) is Err,
    ensures
        spec_scan(s) == spec_scan(s.take(i)),
    decreases s.len() - i,
{
    if i < s.len() {
        assert(s.take(i + 1).drop_last() =~= s.take(i));
        lemma_scan_error_persists(s, i + 1);
    } else {
        assert(s.take(i) =~= s);
    }
}

/// Every node a successful scan leaves on the stack is well formed, the
/// stack prints back in postfix order to the scanned string, and the
/// variables on the stack are exactly the variable letters of the string.
pub proof fn lemma_scan_props(s: Seq<char>)
    ensures
        spec_scan(s) matches Ok(stack) ==> {
            &&& forall|i: int| 0 <= i < stack.len() ==> (#[trigger] stack[i]).wf()
            &&& rpn_concat(stack) == s
            &&& vars_union(stack) == string_vars(s)
        },
    decreases s.len(),
{
    if s.len() == 0 {
        assert(rpn_concat(Seq::<TreeNode>::empty()) =~= s);
        assert(vars_union(Seq::<TreeNode>::empty()) =~= string_vars(s));
    } else {
        lemma_scan_props(s.drop_last());
        if spec_scan(s) is Ok {
            let stack = spec_scan(s)->Ok_0;
            let prev = spec_scan(s.drop_last())->Ok_0;
            let c = s.last();
            if is_operator_symbol(c) {
                if operation_of_symbol(c) is Not {
                    let node = stack.last();
                    assert(stack.drop_last() =~= prev.drop_last());
                    assert(node.rpn_seq() =~= prev.last().rpn_seq() + seq![c]);
                    assert(rpn_concat(prev) == rpn_concat(prev.drop_last())
                        + prev.last().rpn_seq());
                    assert(rpn_concat(stack) == rpn_concat(prev.drop_last()) + node.rpn_seq());
                    assert(rpn_concat(stack) =~= rpn_concat(prev) + seq![c]);
                    assert(rpn_concat(prev) + seq![c] =~= s);
                    assert(rpn_concat(stack) == s);
                    assert(node.vars() =~= prev.last().vars());
                    assert(vars_union(prev) == vars_union(prev.drop_last()) + prev.last().vars());
                    assert(vars_union(stack) == vars_union(prev.drop_last()) + node.vars());
                    assert(vars_union(stack) =~= string_vars(s));
                } else {
                    let node = stack.last();
                    assert(stack.drop_last() =~= prev.drop_last().drop_last());
                    assert(node.rpn_seq() =~= prev.drop_last().last().rpn_seq()
                        + prev.last().rpn_seq() + seq![c]);
                    assert(rpn_concat(prev) == rpn_concat(prev.drop_last())
                        + prev.last().rpn_seq());
                    assert(rpn_concat(prev.drop_last()) == rpn_concat(prev.drop_last().drop_last())
                        + prev.drop_last().last().rpn_seq());
                    assert(rpn_concat(stack) == rpn_concat(prev.drop_last().drop_last())
                        + node.rpn_seq());
                    assert(rpn_concat(stack) =~= rpn_concat(prev) + seq![c]);
                    assert(rpn_concat(prev) + seq![c] =~= s);
                    assert(rpn_concat(stack) == s);
                    assert(node.vars() =~= prev.drop_last().last().vars() + prev.last().vars());
                    assert(vars_union(prev) == vars_union(prev.drop_last()) + prev.last().vars());
                    assert(vars_union(prev.drop_last()) == vars_union(prev.drop_last().drop_last())
                        + prev.drop_last().last().vars());
                    assert(vars_union(stack) == vars_union(prev.drop_last().drop_last())
                        + node.vars());
                    assert(vars_union(stack) =~= string_vars(s));
                }
            } else {
                assert(is_variable_symbol(c));
                let node = TreeNode {
                    node_type: NodeType::Leaf(c),
                    left_child: None,
                    right_child: None,
                };
                assert(stack == prev.push(node));
                lemma_push_props(prev, node);
                assert(node.rpn_seq() =~= seq![c]);
                assert(rpn_concat(stack) =~= s);
                assert(node.vars() =~= set![c]);
                assert(vars_union(stack) =~= string_vars(s));
            }
        }
    }
}

/// What pushing one node does to the concatenated rendering and the
/// united variables of a stack.
proof fn lemma_push_props(prev: Seq<TreeNode>, node: TreeNode)
    ensures
        prev.push(node).drop_last() =~= prev,
        prev.push(node).last() == node,
        rpn_concat(prev.push(node)) == rpn_concat(prev) + node.rpn_seq(),
        vars_union(prev.push(node)) == vars_union(prev) + node.vars(),
{
    assert(prev.push(node).drop_last() =~= prev);
}

/// What the recorded variable order always satisfies: distinct uppercase
/// letters, exactly the variables of the scanned string.
pub proof fn lemma_var_order_props(s: Seq<char>)
    ensures
        spec_var_order(s).no_duplicates(),
        forall|i: int|
            0 <= i < spec_var_order(s).len() ==> is_variable_symbol(#[trigger] spec_var_order(s)[i]),
        spec_var_order(s).to_set() == string_vars(s),
    decreases s.len(),
{
    broadcast use group_seq_properties;

    if s.len() == 0 {
        assert(spec_var_order(s).to_set() =~= string_vars(s));
    } else {
        lemma_var_order_props(s.drop_last());
        let prefix = spec_var_order(s.drop_last());
        let c = s.last();
        if is_variable_symbol(c) && !prefix.contains(c) {
            let order = seq![c] + prefix;
            assert(order.drop_first() =~= prefix);
            assert(order.to_set() =~= prefix.to_set().insert(c));
        } else {
            if is_variable_symbol(c) {
                assert(prefix.to_set().contains(c));
                assert(prefix.to_set() =~= prefix.to_set().insert(c));
            }
        }
        assert(spec_var_order(s).to_set() =~= string_vars(s));
    }
}

/// At most twenty-six distinct uppercase letters exist.
pub proof fn lemma_order_bound(order: Seq<char>)
    requires
        order.no_duplicates(),
        forall|i: int| 0 <= i < order.len() ==> is_variable_symbol(#[trigger] order[i]),
    ensures
        order.len() <= 26,
{
    let codes = order.map_values(|c: char| (c as u32) as int);
    assert forall|i: int, j: int| 0 <= i < j < codes.len() implies codes[i] != codes[j] by {
        if codes[i] == codes[j] {
            vstd::utf8::char_u32_cast(order[i], order[i] as u32);
            vstd::utf8::char_u32_cast(order[j], order[j] as u32);
            assert(order[i] == order[j]);
        }
    }
    assert(codes.no_duplicates());
    codes.unique_seq_to_set();
    assert forall|x: int| codes.to_set().contains(x) implies vstd::set_lib::set_int_range(
        65,
        91,
    ).contains(x) by {
        assert(codes.contains(x));
        let i = choose|i: int| 0 <= i < codes.len() && codes[i] == x;
        assert(is_variable_symbol(order[i]));
        assert(codes[i] == (order[i] as u32) as int);
        assert(65 <= x < 91);
    }
    vstd::set_lib::lemma_int_range(65, 91);
    vstd::set_lib::lemma_len_subset(codes.to_set(), vstd::set_lib::set_int_range(65, 91));
}

/// Round trip: a variable formula string that parses prints back, in
/// postfix order, to exactly itself.
pub proof fn lemma_parse_round_trip(s: Seq<char>)
    ensures
        spec_parse(s) matches Ok(t) ==> t.rpn_seq() == s,
{
    lemma_scan_props(s);
    if spec_parse(s) is Ok {
        let stack = spec_scan(s)->Ok_0;
        assert(rpn_concat(stack) == rpn_concat(stack.drop_last()) + stack.last().rpn_seq());
        assert(stack.drop_last() =~= Seq::<TreeNode>::empty());
        assert(Seq::<char>::empty() + stack[0].rpn_seq() =~= stack[0].rpn_seq());
    }
}

/// The assignment encoded by `counter` over a variable order: the variable
/// at position `i` of the order takes bit `i` of the counter, bit zero
/// being the least significant.
pub open spec fn assignment_of(order: Seq<char>, counter: u32) -> Map<char, bool> {
    Map::new(
        |v: char| order.contains(v),
        |v: char| (counter >> (order.index_of(v) as u32)) & 1u32 == 1u32,
    )
}

/// A parsed formula over variables, together with the order in which the
/// scan first met them (most recently first-seen in front).  That order
/// fixes which bit of an enumeration counter feeds which variable.
#[derive(Debug)]
pub struct TruthTable {
    root: TreeNode,
    expression_variables: Vec<char>,
}

impl TruthTable {
    /// The formula tree.
    pub closed spec fn formula(self) -> TreeNode {
        self.root
    }

    /// The recorded variable order.
    pub closed spec fn var_order(self) -> Seq<char> {
        self.expression_variables@
    }

    /// What construction guarantees: a well-formed tree whose variables
    /// are exactly the distinct uppercase letters of the order.
    pub open spec fn wf(self) -> bool {
        &&& self.formula().wf()
        &&& self.formula().vars() == self.var_order().to_set()
        &&& self.var_order().no_duplicates()
        &&& forall|i: int|
            0 <= i < self.var_order().len() ==> is_variable_symbol(#[trigger] self.var_order()[i])
        &&& self.var_order().len() <= 26
    }

    /// The recorded variable order, most recently first-seen variable in
    /// front.
    pub fn expression_variables(&self) -> (r: &Vec<char>)
        ensures
            r@ == self.var_order(),
    {
        &self.expression_variables
    }

    /// The postfix rendering of the formula.
    pub fn rpn(&self) -> (r: Vec<char>)
        ensures
            r@ == self.formula().rpn_seq(),
    {
        self.root.rpn()
    }

    /// Pops the operands that the operator written `symbol` needs and
    /// builds the node, the operand nearer the top becoming the right
    /// child; fails when the stack is too short.
    fn build_new_node(stack: &mut Vec<TreeNode>, symbol: char) -> (r: Result<TreeNode, Error>)
        requires
            is_operator_symbol(symbol),
        ensures
            ({
                let op = operation_of_symbol(symbol);
                &&& (op is Not && old(stack)@.len() >= 1 ==> r == Ok::<TreeNode, Error>(
                    (TreeNode {
                        node_type: NodeType::Node(op),
                        left_child: Some(Box::new(old(stack)@.last())),
                        right_child: None,
                    }),
                ) && final(stack)@ == old(stack)@.drop_last())
                &&& (op is Not && old(stack)@.len() < 1 ==> r == Err::<TreeNode, Error>(
                    Error::InvalidFormulaGrammar,
                ) && final(stack)@ == old(stack)@)
                &&& (op !is Not && old(stack)@.len() >= 2 ==> r == Ok::<TreeNode, Error>(
                    (TreeNode {
                        node_type: NodeType::Node(op),
                        left_child: Some(Box::new(old(stack)@.drop_last().last())),
                        right_child: Some(Box::new(old(stack)@.last())),
                    }),
                ) && final(stack)@ == old(stack)@.drop_last().drop_last())
                &&& (op !is Not && old(stack)@.len() < 2 ==> r == Err::<TreeNode, Error>(
                    Error::InvalidFormulaGrammar,
                ) && final(stack)@ == Seq::<TreeNode>::empty())
            }),
    {
        let (operation, number_of_childs) = Operation::new(symbol);
        let right_child = if number_of_childs == 2 {
            match stack.pop() {
                Some(n) => Some(Box::new(n)),
                None => None,
            }
        } else {
            None
        };
        let left_child = match stack.pop() {
            Some(n) => Some(Box::new(n)),
            None => None,
        };
        TreeNode::build(NodeType::Node(operation), right_child, left_child)
    }

    /// Whether the order already holds `c`.
    fn order_contains(order: &Vec<char>, c: char) -> (r: bool)
        ensures
            r == order@.contains(c),
    {
        let mut i: usize = 0;
        while i < order.len()
            invariant
                i <= order@.len(),
                forall|j: int| 0 <= j < i ==> order@[j] != c,
            decreases order@.len() - i,
        {
            if order[i] == c {
                return true;
            }
            i = i + 1;
        }
        false
    }

    /// Parses a postfix formula over uppercase variables and the six
    /// operators, recording each new variable at the front of the order as
    /// it is first met.  The result is exactly what the abstract scan
    /// `spec_parse` denotes; a returned tree is well formed, prints back
    /// to the input string, and its variables are the recorded order.
    pub fn build_from_str(input: &str) -> (r: Result<Self, Error>)
        ensures
            (match r {
                Ok(t) => spec_parse(input@) == Ok::<TreeNode, Error>(t.formula()) && t.wf()
                    && t.var_order() == spec_var_order(input@) && t.formula().rpn_seq() == input@,
                Err(e) => spec_parse(input@) == Err::<TreeNode, Error>(e),
            }),
    {
        let length = input.unicode_len();
        let mut stack: Vec<TreeNode> = Vec::new();
        let mut expression_variables: Vec<char> = Vec::new();
        proof {
            assert(input@.take(0) =~= Seq::<char>::empty());
        }
        let mut index: usize = 0;
        while index < length
            invariant
                length == input@.len(),
                index <= length,
                spec_scan(input@.take(index as int)) == Ok::<Seq<TreeNode>, Error>(stack@),
                expression_variables@ == spec_var_order(input@.take(index as int)),
            decreases length - index,
        {
            let character = input.get_char(index);
            proof {
                assert(input@.take(index + 1).drop_last() =~= input@.take(index as int));
                assert(input@.take(index + 1).last() == input@[index as int]);
            }
            let is_operator = character == '!' || character == '&' || character == '|'
                || character == '^' || character == '>' || character == '=';
            let code = character as u32;
            if is_operator {
                match Self::build_new_node(&mut stack, character) {
                    Ok(new_node) => {
                        stack.push(new_node);
                    },
                    Err(e) => {
                        proof {
                            lemma_scan_error_persists(input@, index + 1);
                        }
                        return Err(e);
                    },
                }
            } else if 65 <= code && code <= 90 {
                if !Self::order_contains(&expression_variables, character) {
                    let ghost before = expression_variables@;
                    expression_variables.insert(0, character);
                    proof {
                        assert(expression_variables@ =~= seq![character] + before);
                    }
                }
                let new_node = match TreeNode::build(NodeType::Leaf(character), None, None) {
                    Ok(n) => n,
                    Err(_) => unreached(),
                };
                stack.push(new_node);
            } else {
                proof {
                    lemma_scan_error_persists(input@, index + 1);
                }
                return Err(Error::InvalidFormulaSyntax);
            }
            index = index + 1;
        }
        proof {
            assert(input@.take(length as int) =~= input@);
        }
        if stack.len() != 1 {
            Err(Error::InvalidFormulaGrammar)
        } else {
            let root = match stack.pop() {
                Some(n) => n,
                None => unreached(),
            };
            proof {
                lemma_scan_props(input@);
                lemma_var_order_props(input@);
                lemma_order_bound(spec_var_order(input@));
                let st = spec_scan(input@)->Ok_0;
                assert(root == st[0]);
                assert(rpn_concat(st) == rpn_concat(st.drop_last()) + st.last().rpn_seq());
                assert(st.drop_last() =~= Seq::<TreeNode>::empty());
                assert(Seq::<char>::empty() + root.rpn_seq() =~= root.rpn_seq());
                assert(vars_union(st) == vars_union(st.drop_last()) + st.last().vars());
                assert(Set::<char>::empty() + root.vars() =~= root.vars());
            }
            Ok(TruthTable { root, expression_variables })
        }
    }

    /// Rewrites the stored formula into negation normal form: operator
    /// elimination, then negation push-down.  The meaning of the formula
    /// under every assignment, its variables and the recorded order are
    /// unchanged.
    pub fn turn_into_negation_normal_form(&mut self)
        requires
            old(self).wf(),
        ensures
            final(self).formula() == old(self).formula().eliminated().negations_pushed(),
            final(self).wf(),
            final(self).formula().is_nnf(),
            final(self).var_order() == old(self).var_order(),
            final(self).formula().vars() == old(self).formula().vars(),
            forall|m: Map<char, bool>|
                #[trigger] final(self).formula().sem(m) == old(self).formula().sem(m),
    {
        self.root.simplify_node();
        self.root.push_negation();
    }

    /// Rewrites the stored formula into conjunctive normal form: operator
    /// elimination, negation push-down, then `Or`-over-`And` distribution
    /// sweeps iterated until one changes nothing.  The meaning of the
    /// formula under every assignment, its variables and the recorded
    /// order are unchanged.
    pub fn turn_into_conjuctive_normal_form(&mut self)
        requires
            old(self).wf(),
        ensures
            final(self).formula() == old(self).formula().eliminated().negations_pushed().fully_distributed(),
            final(self).wf(),
            final(self).formula().is_cnf(),
            final(self).var_order() == old(self).var_order(),
            final(self).formula().vars() == old(self).formula().vars(),
            forall|m: Map<char, bool>|
                #[trigger] final(self).formula().sem(m) == old(self).formula().sem(m),
    {
        self.root.simplify_node();
        self.root.push_negation();
        let mut modified = true;
        while modified
            invariant
                self.root.wf(),
                self.root.is_nnf(),
                self.expression_variables@ == old(self).expression_variables@,
                self.root.vars() == old(self).root.vars(),
                forall|m: Map<char, bool>| #[trigger] self.root.sem(m) == old(self).root.sem(m),
                !modified ==> self.root.distributed(),
                !modified ==> self.root.one_sweep() == self.root,
                self.root.fully_distributed() == old(
                    self,
                ).root.eliminated().negations_pushed().fully_distributed(),
            decreases self.root.dist_measure(), (if modified {
                1int
            } else {
                0int
            }),
        {
            modified = false;
            let ghost before = self.root;
            self.root.convert_to_conjuctive_normal_form(&mut modified);
            proof {
                assert(self.root.fully_distributed() == before.fully_distributed());
            }
        }
        proof {
            assert(self.root.fully_distributed() == self.root);
            self.root.lemma_distributed_is_cnf();
        }
    }

    /// The bit of the counter that feeds the variable at `index` of the
    /// order.
    fn get_concrete_value(&self, variables_values: &u32, index: usize) -> (r: bool)
        requires
            index < 32,
        ensures
            r == ((*variables_values >> (index as u32)) & 1u32 == 1u32),
    {
        let mask = 1u32 << (index as u32);
        let bit_of_interest = *variables_values & mask;
        proof {
            let v = *variables_values;
            let i = index as u32;
            assert((v & (1u32 << i)) != 0 <==> ((v >> i) & 1u32 == 1u32)) by (bit_vector)
                requires
                    i < 32,
            ;
        }
        bit_of_interest != 0
    }

    /// The assignment encoded by the counter: the variable at position `i`
    /// of the order takes bit `i` of the counter.
    fn compute_values_map(&self, variables_values: &u32) -> (r: Assignment)
        requires
            self.wf(),
        ensures
            r@ == assignment_of(self.var_order(), *variables_values),
    {
        let mut current_map = Assignment::new();
        let mut index: usize = 0;
        while index < self.expression_variables.len()
            invariant
                self.wf(),
                index <= self.var_order().len(),
                forall|j: int|
                    0 <= j < index ==> current_map@.dom().contains(#[trigger] self.var_order()[j]),
                forall|j: int|
                    0 <= j < index ==> current_map@[#[trigger] self.var_order()[j]] == ((
                *variables_values >> (j as u32)) & 1u32 == 1u32),
                forall|v: char|
                    #[trigger] current_map@.dom().contains(v) ==> exists|j: int|
                        0 <= j < index && self.var_order()[j] == v,
            decreases self.var_order().len() - index,
        {
            let variable = self.expression_variables[index];
            let variable_value = self.get_concrete_value(variables_values, index);
            current_map.set(variable, variable_value);
            index = index + 1;
        }
        proof {
            let order = self.var_order();
            let c = *variables_values;
            assert forall|v: char| #[trigger]
                current_map@.dom().contains(v) == assignment_of(order, c).dom().contains(v) by {
                if order.contains(v) {
                    let j = choose|j: int| 0 <= j < order.len() && order[j] == v;
                    assert(current_map@.dom().contains(order[j]));
                }
            }
            assert forall|v: char| current_map@.dom().contains(v) implies #[trigger] current_map@[v]
                == assignment_of(order, c)[v] by {
                let j = choose|j: int| 0 <= j < order.len() && order[j] == v;
                assert(current_map@[order[j]] == ((c >> (j as u32)) & 1u32 == 1u32));
                let k = order.index_of(v);
                assert(order[k] == v);
                if j != k {
                    assert(false);
                }
            }
            assert(current_map@ =~= assignment_of(order, c));
        }
        current_map
    }

    /// Enumerates the complete truth table: one row per counter value from
    /// `0` to `2^n - 1`, where `n` is the number of variables.  Row `i`
    /// holds the assignment encoded by counter `i` and the value of the
    /// formula under it, so every counter appears exactly once, in
    /// increasing order.
    pub fn compute_truth_table(&self) -> (rows: Vec<(Assignment, bool)>)
        requires
            self.wf(),
        ensures
            rows@.len() == pow2(self.var_order().len() as nat),
            forall|i: int|
                0 <= i < rows@.len() ==> (#[trigger] rows@[i]).0@ == assignment_of(
                    self.var_order(),
                    i as u32,
                ),
            forall|i: int|
                0 <= i < rows@.len() ==> (#[trigger] rows@[i]).1 == self.formula().sem(
                    assignment_of(self.var_order(), i as u32),
                ),
    {
        let number_of_variables = self.expression_variables.len();
        proof {
            vstd::arithmetic::power2::lemma2_to64();
            if number_of_variables < 26 {
                vstd::arithmetic::power2::lemma_pow2_strictly_increases(
                    number_of_variables as nat,
                    26,
                );
            }
            vstd::bits::lemma_u32_shl_is_mul(1u32, number_of_variables as u32);
        }
        let number_of_combination: u32 = 1u32 << (number_of_variables as u32);
        let mut rows: Vec<(Assignment, bool)> = Vec::new();
        let mut counter: u32 = 0;
        while counter < number_of_combination
            invariant
                self.wf(),
                number_of_combination == pow2(self.var_order().len() as nat),
                counter <= number_of_combination,
                rows@.len() == counter,
                forall|i: int|
                    0 <= i < rows@.len() ==> (#[trigger] rows@[i]).0@ == assignment_of(
                        self.var_order(),
                        i as u32,
                    ),
                forall|i: int|
                    0 <= i < rows@.len() ==> (#[trigger] rows@[i]).1 == self.formula().sem(
                        assignment_of(self.var_order(), i as u32),
                    ),
            decreases number_of_combination - counter,
        {
            let value_map = self.compute_values_map(&counter);
            proof {
                assert(self.root.vars().subset_of(value_map@.dom()));
            }
            let result = self.root.resolve_node(&value_map);
            rows.push((value_map, result));
            counter = counter + 1;
        }
        rows
    }
}

} // verus!
