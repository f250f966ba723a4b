use ready_set_bool::bitops::adder;
use ready_set_bool::bitops::gray_code;
use ready_set_bool::bitops::multiplier;

#[test]
fn multiplier_test_ok() {
    assert_eq!(multiplier(10, 5), 50);
    assert_eq!(multiplier(0, 15), 0);
    assert_eq!(multiplier(3, 48), 144);
    assert_eq!(multiplier(13, 0), 0);
}

#[test]
fn gray_code_test_ok() {
    assert_eq!(gray_code(0), 0);
    assert_eq!(gray_code(1), 1);
    assert_eq!(gray_code(2), 3);
    assert_eq!(gray_code(3), 2);
    assert_eq!(gray_code(4), 6);
    assert_eq!(gray_code(5), 7);
    assert_eq!(gray_code(6), 5);
    assert_eq!(gray_code(7), 4);
    assert_eq!(gray_code(8), 12);
}

#[test]
fn adder_adder_test_ok() {
    assert_eq!(adder(10, 5), 15);
    assert_eq!(adder(0, 15), 15);
    assert_eq!(adder(3, 48), 51);
    assert_eq!(adder(13, 0), 13);
}

#[test]
fn multipler_adder_test_ok() {
    assert_eq!(multiplier(10, 5), 50);
    assert_eq!(multiplier(0, 15), 0);
    assert_eq!(multiplier(3, 48), 144);
    assert_eq!(multiplier(13, 0), 0);
}

#[test]
fn adder_wraps_around() {
    assert_eq!(adder(u32::MAX, 1), 0);
    assert_eq!(adder(u32::MAX, u32::MAX), u32::MAX - 1);
}

#[test]
fn multiplier_full_range() {
    assert_eq!(multiplier(1, u32::MAX), u32::MAX);
    assert_eq!(multiplier(65535, 65537), u32::MAX);
}
