use ready_set_bool::assignment::Assignment;
use ready_set_bool::truth_table::TruthTable;

#[test]
fn truth_table_of_and_matches_the_worked_example() {
    let table = TruthTable::build_from_str("AB&").unwrap();
    assert_eq!(*table.expression_variables(), vec!['B', 'A']);
    let rows = table.compute_truth_table();
    assert_eq!(rows.len(), 4);
    // Counter order, bit 0 feeding B and bit 1 feeding A:
    let expected = [
        (false, false, false),
        (false, true, false),
        (true, false, false),
        (true, true, true),
    ];
    for (i, (a, b, result)) in expected.into_iter().enumerate() {
        assert_eq!(rows[i].0.get('A'), Some(a));
        assert_eq!(rows[i].0.get('B'), Some(b));
        assert_eq!(rows[i].1, result);
    }
}

#[test]
fn truth_table_of_negation_has_two_rows() {
    let table = TruthTable::build_from_str("A!").unwrap();
    let rows = table.compute_truth_table();
    assert_eq!(rows.len(), 2);
    assert_eq!(rows[0].0.get('A'), Some(false));
    assert_eq!(rows[0].1, true);
    assert_eq!(rows[1].0.get('A'), Some(true));
    assert_eq!(rows[1].1, false);
}

#[test]
fn tautology_is_true_in_every_row() {
    let table = TruthTable::build_from_str("AA=").unwrap();
    let rows = table.compute_truth_table();
    assert_eq!(rows.len(), 2);
    assert_eq!(rows[0].1, true);
    assert_eq!(rows[1].1, true);
}

#[test]
fn truth_table_counts_every_combination_once() {
    let table = TruthTable::build_from_str("ABC||").unwrap();
    let rows = table.compute_truth_table();
    assert_eq!(rows.len(), 8);
    // Only the all-false assignment makes a disjunction false.
    for (i, row) in rows.iter().enumerate() {
        assert_eq!(row.1, i != 0);
    }
}

#[test]
fn repeated_variables_share_one_column() {
    let table = TruthTable::build_from_str("AA&").unwrap();
    assert_eq!(*table.expression_variables(), vec!['A']);
    let rows = table.compute_truth_table();
    assert_eq!(rows.len(), 2);
    assert_eq!(rows[0].1, false);
    assert_eq!(rows[1].1, true);
}

#[test]
fn assignments_bind_and_override() {
    let mut assignment = Assignment::new();
    assert_eq!(assignment.get('A'), None);
    assignment.set('A', true);
    assignment.set('B', false);
    assert_eq!(assignment.get('A'), Some(true));
    assert_eq!(assignment.get('B'), Some(false));
    assert_eq!(assignment.get('C'), None);
    assignment.set('A', false);
    assert_eq!(assignment.get('A'), Some(false));
}

#[test]
fn implication_table_row_for_row() {
    let table = TruthTable::build_from_str("AB>").unwrap();
    assert_eq!(*table.expression_variables(), vec!['B', 'A']);
    let rows = table.compute_truth_table();
    // bit 0 feeds B, bit 1 feeds A; A=1, B=0 is the one false row.
    assert_eq!(rows.len(), 4);
    assert_eq!(rows[0].1, true);
    assert_eq!(rows[1].1, true);
    assert_eq!(rows[2].1, false);
    assert_eq!(rows[3].1, true);
}
