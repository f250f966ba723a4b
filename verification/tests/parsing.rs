use ready_set_bool::concrete_tree::ConcreteFormulaTree;
use ready_set_bool::error::Error;
use ready_set_bool::tree_formula::FormulaTree;
use ready_set_bool::truth_table::TruthTable;

#[test]
fn tree_formula_build_tree_ok() {
    let tree = FormulaTree::build("00&");
    assert!(tree.is_ok());
    let tree = FormulaTree::build("1011||=");
    assert!(tree.is_ok());
}

#[test]
fn tree_formula_eval_formula_err_invalid_characters() {
    let tree = FormulaTree::build("00u&");
    assert!(matches!(tree, Err(Error::InvalidFormulaSyntax)));
}

#[test]
fn tree_formula_eval_formula_err_invalid_grammar() {
    let tree = FormulaTree::build("000&");
    assert!(matches!(tree, Err(Error::InvalidFormulaGrammar)));
    let tree = FormulaTree::build("00&11&");
    assert!(matches!(tree, Err(Error::InvalidFormulaGrammar)));
}

#[test]
fn concrete_tree_build_tree_ok() {
    let tree = ConcreteFormulaTree::build("00&");
    assert!(tree.is_ok());
    let tree = ConcreteFormulaTree::build("1011||=");
    assert!(tree.is_ok());
}

#[test]
fn concrete_tree_eval_formula_err_invalid_characters() {
    let tree = ConcreteFormulaTree::build("00u&");
    assert!(matches!(tree, Err(Error::InvalidFormulaSyntax)));
}

#[test]
fn concrete_tree_eval_formula_err_invalid_grammar() {
    let tree = ConcreteFormulaTree::build("000&");
    assert!(matches!(tree, Err(Error::InvalidFormulaGrammar)));
    let tree = ConcreteFormulaTree::build("00&11&");
    assert!(matches!(tree, Err(Error::InvalidFormulaGrammar)));
}

#[test]
fn truth_table_build_truth_table_ok() {
    let tree = TruthTable::build_from_str("AB&");
    assert!(tree.is_ok());
    let tree = TruthTable::build_from_str("ABCD||=");
    assert!(tree.is_ok());
    assert_eq!(*tree.unwrap().expression_variables(), vec!['D', 'C', 'B', 'A']);
    let tree = TruthTable::build_from_str("A!");
    assert!(tree.is_ok());
}

#[test]
fn truth_table_truth_table_err_invalid_characters() {
    let tree = TruthTable::build_from_str("EAu&");
    println!("{tree:?}");
    assert!(matches!(tree, Err(Error::InvalidFormulaSyntax)));
}

#[test]
fn truth_table_truth_table_err_invalid_grammar() {
    let tree = TruthTable::build_from_str("AAA&");
    println!("{tree:?}");
    assert!(matches!(tree, Err(Error::InvalidFormulaGrammar)));
    let tree = TruthTable::build_from_str("AB&CD&");
    println!("{tree:?}");
    assert!(matches!(tree, Err(Error::InvalidFormulaGrammar)));
}

#[test]
fn empty_input_is_a_grammar_error() {
    assert!(matches!(FormulaTree::build(""), Err(Error::InvalidFormulaGrammar)));
    assert!(matches!(TruthTable::build_from_str(""), Err(Error::InvalidFormulaGrammar)));
}

#[test]
fn lowercase_variables_are_rejected() {
    assert!(matches!(TruthTable::build_from_str("ab&"), Err(Error::InvalidFormulaSyntax)));
}

#[test]
fn parse_round_trip_reproduces_the_input() {
    let inputs = ["AB&", "ABCD||=", "A!", "AB&C|", "ZY^X>W="];
    for input in inputs {
        let tree = TruthTable::build_from_str(input).unwrap();
        let printed: String = tree.rpn().into_iter().collect();
        assert_eq!(printed, input);
    }
    let constants = ["10&", "1011||=", "01>", "1!"];
    for input in constants {
        let tree = FormulaTree::build(input).unwrap();
        let printed: String = tree.root.rpn().into_iter().collect();
        assert_eq!(printed, input);
    }
}

#[test]
fn all_twenty_six_variables_fit() {
    let mut input = String::from("AB|");
    for letter in ['C', 'D', 'E', 'F', 'G', 'H', 'I', 'J', 'K', 'L', 'M', 'N', 'O', 'P', 'Q',
        'R', 'S', 'T', 'U', 'V', 'W', 'X', 'Y', 'Z']
    {
        input.push(letter);
        input.push('|');
    }
    let table = TruthTable::build_from_str(&input).unwrap();
    assert_eq!(table.expression_variables().len(), 26);
    assert_eq!(table.expression_variables()[0], 'Z');
    assert_eq!(table.expression_variables()[25], 'A');
    let printed: String = table.rpn().into_iter().collect();
    assert_eq!(printed, input);
}

#[test]
fn error_messages_are_fixed() {
    assert_eq!(Error::InvalidFormulaSyntax.message(), "Formula contains unknown characters");
    assert_eq!(Error::InvalidFormulaGrammar.message(), "Formula grammar cannot be resolved");
    assert_eq!(Error::InvalidFormulaResult.message(), "Formula result is invalid");
}

#[test]
fn build_truth_table_ok() {
    let tree = TruthTable::build_from_str("AB&");
    assert!(tree.is_ok());
    let tree = TruthTable::build_from_str("ABCD||=");
    assert!(tree.is_ok());
    let tree = TruthTable::build_from_str("A!");
    assert!(tree.is_ok());
}

#[test]
fn truth_table_err_invalid_characters() {
    let tree = TruthTable::build_from_str("EAu&");
    println!("{tree:?}");
    assert!(matches!(tree, Err(Error::InvalidFormulaSyntax)));
}

#[test]
fn truth_table_err_invalid_grammar() {
    let tree = TruthTable::build_from_str("AAA&");
    println!("{tree:?}");
    assert!(matches!(tree, Err(Error::InvalidFormulaGrammar)));
    let tree = TruthTable::build_from_str("AB&CD&");
    println!("{tree:?}");
    assert!(matches!(tree, Err(Error::InvalidFormulaGrammar)));
}
