use neural_network::fixed::{add_fix, div_cost, div_fix, mul_fix, sub_fix, CAP, SCALE};

#[test]
fn addition_and_subtraction() {
    assert_eq!(add_fix(SCALE, SCALE), 2 * SCALE);
    assert_eq!(sub_fix(SCALE, 3 * SCALE), -2 * SCALE);
    assert_eq!(add_fix(-7, 7), 0);
}

#[test]
fn addition_saturates_at_the_cap() {
    assert_eq!(add_fix(CAP, CAP), CAP);
    assert_eq!(add_fix(CAP, 1), CAP);
    assert_eq!(sub_fix(-CAP, 1), -CAP);
    assert_eq!(add_fix(i64::MAX, i64::MAX), CAP);
    assert_eq!(sub_fix(i64::MIN, i64::MAX), -CAP);
}

#[test]
fn multiplication_removes_one_scale_factor() {
    assert_eq!(mul_fix(3 * SCALE, 2 * SCALE), 6 * SCALE);
    assert_eq!(mul_fix(SCALE / 2, SCALE / 2), SCALE / 4);
    assert_eq!(mul_fix(-3 * SCALE, 2 * SCALE), -6 * SCALE);
}

#[test]
fn multiplication_truncates_toward_zero() {
    // (1/65536) * (1/65536) underflows to zero
    assert_eq!(mul_fix(1, 1), 0);
    assert_eq!(mul_fix(-1, 1), 0);
}

#[test]
fn division_truncates_toward_zero() {
    assert_eq!(div_fix(7, 2), 3);
    assert_eq!(div_fix(-7, 2), -3);
    assert_eq!(div_fix(i64::MIN, 3), i64::MIN / 3);
}

#[test]
fn cost_normalisation_divides_by_twice_the_batch() {
    assert_eq!(div_cost(10, 1), 5);
    assert_eq!(div_cost(10, 5), 1);
    assert_eq!(div_cost(9, 5), 0);
    assert_eq!(div_cost(0, 3), 0);
}
