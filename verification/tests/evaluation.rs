use ready_set_bool::error::Error;
use ready_set_bool::eval_formula::eval_formula;
use ready_set_bool::formula::Formula;
use ready_set_bool::operation::Operation;

#[test]
fn eval_formula_eval_formula_test_ok() {
    assert_eq!(eval_formula("10&"), false);
    assert_eq!(eval_formula("10|"), true);
    assert_eq!(eval_formula("11>"), true);
    assert_eq!(eval_formula("10="), false);
    assert_eq!(eval_formula("1011||="), true);
    assert_eq!(eval_formula("1!"), false);
    assert_eq!(eval_formula("01>"), true);
}

#[test]
fn eval_formula_eval_formula_err_invalid_characters() {
    assert_eq!(eval_formula("01u"), false);
}

#[test]
fn eval_formula_eval_formula_err_invalid_grammar() {
    assert_eq!(eval_formula("01|&"), false);
}

#[test]
fn eval_formula_eval_formula_err_invalid_result() {
    assert_eq!(eval_formula("010001|&"), false);
}

#[test]
fn formula_evaluates_like_the_tree() {
    let cases = [
        ("10&", false),
        ("10|", true),
        ("11>", true),
        ("10=", false),
        ("1011||=", true),
        ("1!", false),
        ("01>", true),
        ("10^", true),
        ("11^", false),
    ];
    for (input, expected) in cases {
        let mut formula = Formula::new(input).unwrap();
        assert_eq!(formula.evaluate(), Ok(expected));
        assert_eq!(eval_formula(input), expected);
    }
}

#[test]
fn formula_rejects_unknown_characters() {
    assert!(matches!(Formula::new("01u"), Err(Error::InvalidFormulaSyntax)));
    assert!(matches!(Formula::new("AB&"), Err(Error::InvalidFormulaSyntax)));
}

#[test]
fn formula_reports_starved_operators() {
    let mut formula = Formula::new("01|&").unwrap();
    assert!(matches!(formula.evaluate(), Err(Error::InvalidFormulaGrammar)));
    let mut formula = Formula::new("!").unwrap();
    assert!(matches!(formula.evaluate(), Err(Error::InvalidFormulaGrammar)));
}

#[test]
fn formula_reports_leftover_operands() {
    let mut formula = Formula::new("010001|&").unwrap();
    assert!(matches!(formula.evaluate(), Err(Error::InvalidFormulaResult)));
    let mut formula = Formula::new("10").unwrap();
    assert!(matches!(formula.evaluate(), Err(Error::InvalidFormulaResult)));
    let mut formula = Formula::new("").unwrap();
    assert!(matches!(formula.evaluate(), Err(Error::InvalidFormulaResult)));
}

#[test]
fn operation_closures_match_the_truth_tables() {
    let and = Operation::And.get_operation_closure();
    assert_eq!(and(true, true), true);
    assert_eq!(and(true, false), false);
    let or = Operation::Or.get_operation_closure();
    assert_eq!(or(false, false), false);
    assert_eq!(or(true, false), true);
    let xor = Operation::Xor.get_operation_closure();
    assert_eq!(xor(true, true), false);
    assert_eq!(xor(true, false), true);
    let not = Operation::Not.get_operation_closure();
    assert_eq!(not(true, false), false);
    assert_eq!(not(false, true), true);
    let if_then = Operation::IfThen.get_operation_closure();
    assert_eq!(if_then(true, false), false);
    assert_eq!(if_then(false, false), true);
    let equality = Operation::Equality.get_operation_closure();
    assert_eq!(equality(true, true), true);
    assert_eq!(equality(true, false), false);
}

#[test]
fn operation_new_reads_symbols() {
    assert_eq!(Operation::new('!'), (Operation::Not, 1));
    assert_eq!(Operation::new('&'), (Operation::And, 2));
    assert_eq!(Operation::new('|'), (Operation::Or, 2));
    assert_eq!(Operation::new('^'), (Operation::Xor, 2));
    assert_eq!(Operation::new('>'), (Operation::IfThen, 2));
    assert_eq!(Operation::new('='), (Operation::Equality, 2));
}

#[test]
fn main_eval_formula_test_ok() {
    assert_eq!(eval_formula("10&"), false);
    assert_eq!(eval_formula("10|"), true);
    assert_eq!(eval_formula("11>"), true);
    assert_eq!(eval_formula("10="), false);
    assert_eq!(eval_formula("1011||="), true);
    assert_eq!(eval_formula("1!"), false);
    assert_eq!(eval_formula("01>"), true);
}

#[test]
fn main_eval_formula_err_invalid_characters() {
    assert_eq!(eval_formula("01u"), false);
}

#[test]
fn main_eval_formula_err_invalid_grammar() {
    assert_eq!(eval_formula("01|&"), false);
}

#[test]
fn main_eval_formula_err_invalid_result() {
    assert_eq!(eval_formula("010001|&"), false);
}
