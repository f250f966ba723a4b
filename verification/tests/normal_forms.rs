use ready_set_bool::truth_table::TruthTable;

fn rpn_string(table: &TruthTable) -> String {
    table.rpn().into_iter().collect()
}

#[test]
fn negation_normal_form_applies_de_morgan() {
    let mut table = TruthTable::build_from_str("AB|!").unwrap();
    table.turn_into_negation_normal_form();
    assert_eq!(rpn_string(&table), "A!B!&");

    let mut table = TruthTable::build_from_str("AB&!").unwrap();
    table.turn_into_negation_normal_form();
    assert_eq!(rpn_string(&table), "A!B!|");
}

#[test]
fn negation_normal_form_collapses_double_negation() {
    let mut table = TruthTable::build_from_str("A!!").unwrap();
    table.turn_into_negation_normal_form();
    assert_eq!(rpn_string(&table), "A");

    let mut table = TruthTable::build_from_str("A!!!").unwrap();
    table.turn_into_negation_normal_form();
    assert_eq!(rpn_string(&table), "A!");
}

#[test]
fn negation_normal_form_eliminates_rich_operators() {
    let mut table = TruthTable::build_from_str("AB^").unwrap();
    table.turn_into_negation_normal_form();
    assert_eq!(rpn_string(&table), "AB!&BA!&|");

    let mut table = TruthTable::build_from_str("AB>").unwrap();
    table.turn_into_negation_normal_form();
    assert_eq!(rpn_string(&table), "A!B|");

    let mut table = TruthTable::build_from_str("AB=").unwrap();
    table.turn_into_negation_normal_form();
    assert_eq!(rpn_string(&table), "AB&A!B!&|");
}

#[test]
fn negation_normal_form_keeps_simple_formulas() {
    let mut table = TruthTable::build_from_str("AB&C|").unwrap();
    table.turn_into_negation_normal_form();
    assert_eq!(rpn_string(&table), "AB&C|");
}

#[test]
fn conjunctive_normal_form_distributes_left_and() {
    let mut table = TruthTable::build_from_str("AB&C|").unwrap();
    table.turn_into_conjuctive_normal_form();
    assert_eq!(rpn_string(&table), "AC|BC|&");
}

#[test]
fn conjunctive_normal_form_distributes_right_and() {
    let mut table = TruthTable::build_from_str("CAB&|").unwrap();
    table.turn_into_conjuctive_normal_form();
    assert_eq!(rpn_string(&table), "CA|CB|&");
}

#[test]
fn conjunctive_normal_form_keeps_clauses() {
    let mut table = TruthTable::build_from_str("AB|").unwrap();
    table.turn_into_conjuctive_normal_form();
    assert_eq!(rpn_string(&table), "AB|");

    let mut table = TruthTable::build_from_str("AB|C!|").unwrap();
    table.turn_into_conjuctive_normal_form();
    assert_eq!(rpn_string(&table), "AB|C!|");
}

#[test]
fn normalization_preserves_every_row_of_the_table() {
    let inputs = ["AB^", "AB=", "AB>C^", "AB&C|D=", "AB|!C&"];
    for input in inputs {
        let reference = TruthTable::build_from_str(input).unwrap();
        let expected = reference.compute_truth_table();

        let mut as_nnf = TruthTable::build_from_str(input).unwrap();
        as_nnf.turn_into_negation_normal_form();
        let nnf_rows = as_nnf.compute_truth_table();

        let mut as_cnf = TruthTable::build_from_str(input).unwrap();
        as_cnf.turn_into_conjuctive_normal_form();
        let cnf_rows = as_cnf.compute_truth_table();

        assert_eq!(expected.len(), nnf_rows.len());
        assert_eq!(expected.len(), cnf_rows.len());
        for i in 0..expected.len() {
            assert_eq!(expected[i].1, nnf_rows[i].1);
            assert_eq!(expected[i].1, cnf_rows[i].1);
        }
    }
}
