use gcd::euclid::gcd;
use gcd::euclid::gcd_of_all;

#[test]
fn gcd_returns_correct_value() {
    assert_eq!(gcd(14, 15), 1);

    assert_eq!(gcd(2 * 3 * 5 * 11 * 17, 3 * 7 * 11 * 13 * 19), 3 * 11);
}

#[test]
fn gcd_divides_both_operands() {
    let g = gcd(12, 18);
    assert_eq!(12 % g, 0);
    assert_eq!(18 % g, 0);
    let g = gcd(1071, 462);
    assert_eq!(g, 21);
    assert_eq!(1071 % g, 0);
    assert_eq!(462 % g, 0);
}

#[test]
fn gcd_is_commutative() {
    assert_eq!(gcd(12, 18), gcd(18, 12));
    assert_eq!(gcd(1, 7), gcd(7, 1));
    assert_eq!(gcd(1071, 462), gcd(462, 1071));
}

#[test]
fn gcd_of_equal_operands_is_the_operand() {
    assert_eq!(gcd(1, 1), 1);
    assert_eq!(gcd(7, 7), 7);
    assert_eq!(gcd(u64::MAX, u64::MAX), u64::MAX);
}

#[test]
fn gcd_grouping_does_not_matter() {
    let (a, b, c) = (24, 36, 60);
    assert_eq!(gcd(gcd(a, b), c), gcd(a, gcd(b, c)));
    assert_eq!(gcd(gcd(a, b), c), 12);
    let (a, b, c) = (9, 30, 25);
    assert_eq!(gcd(gcd(a, b), c), gcd(a, gcd(b, c)));
}

#[test]
fn gcd_of_all_folds_left_to_right() {
    assert_eq!(gcd_of_all(&vec![42]), 42);
    assert_eq!(gcd_of_all(&vec![14, 15]), 1);
    assert_eq!(gcd_of_all(&vec![24, 36, 60]), 12);
    assert_eq!(gcd_of_all(&vec![u64::MAX, u64::MAX, u64::MAX]), u64::MAX);
}

#[test]
fn gcd_handles_extreme_operands() {
    assert_eq!(gcd(1, u64::MAX), 1);
    assert_eq!(gcd(u64::MAX, 1), 1);
    assert_eq!(gcd(u64::MAX, u64::MAX - 1), 1);
}
