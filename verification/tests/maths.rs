use pooled_staking::maths::mul_div;
use pooled_staking::{Error, OverflowError, UnderflowError};

#[test]
fn mul_div_rounds_down() {
    assert_eq!(mul_div(7, 3, 2), Ok(10));
    assert_eq!(mul_div(6, 3, 2), Ok(9));
    assert_eq!(mul_div(0, 3, 2), Ok(0));
    assert_eq!(mul_div(1, 1, 3), Ok(0));
    assert_eq!(mul_div(5, 0, 3), Ok(0));
}

#[test]
fn mul_div_goes_through_products_above_the_largest_balance() {
    assert_eq!(mul_div(u128::MAX, u128::MAX, u128::MAX), Ok(u128::MAX));
    assert_eq!(mul_div(u128::MAX, 3, 4), Ok(u128::MAX / 4 * 3 + 2));
    assert_eq!(mul_div(1 << 100, 1 << 100, 1 << 73), Ok(1 << 127));
    assert_eq!(mul_div(u128::MAX, u128::MAX - 1, u128::MAX), Ok(u128::MAX - 1));
}

#[test]
fn mul_div_overflows_only_where_the_quotient_does() {
    assert_eq!(mul_div(1 << 100, 1 << 100, 1 << 72), Err(OverflowError));
    assert_eq!(mul_div(u128::MAX, 2, 1), Err(OverflowError));
    assert_eq!(mul_div(u128::MAX, u128::MAX, u128::MAX - 1), Err(OverflowError));
    assert_eq!(mul_div(u128::MAX, 1, 1), Ok(u128::MAX));
}

#[test]
fn arithmetic_errors_become_errors_of_the_pallet() {
    assert_eq!(Error::from(OverflowError), Error::MathOverflow);
    assert_eq!(Error::from(UnderflowError), Error::MathUnderflow);
}
