use calculator::number::{ArithError, Number};

fn n(num: i64, den: i64) -> Number {
    Number { num, den }
}

#[test]
fn addition_is_exact() {
    assert_eq!(n(1, 2).add(n(1, 3)), Ok(n(5, 6)));
    assert_eq!(n(1, 1).add(n(6, 1)), Ok(n(7, 1)));
}

#[test]
fn subtraction_is_exact() {
    assert_eq!(n(1, 2).sub(n(1, 3)), Ok(n(1, 6)));
    assert_eq!(n(1, 1).sub(n(2, 1)), Ok(n(-1, 1)));
}

#[test]
fn multiplication_is_exact() {
    assert_eq!(n(2, 3).mul(n(3, 4)), Ok(n(6, 12)));
}

#[test]
fn division_normalises_the_sign_onto_the_numerator() {
    assert_eq!(n(1, 2).div(n(-3, 4)), Ok(n(-4, 6)));
}

#[test]
fn division_by_zero_is_reported() {
    assert_eq!(n(1, 1).div(n(0, 5)), Err(ArithError::DivisionByZero));
}

#[test]
fn scalar_overflow_is_reported() {
    assert_eq!(n(i64::MAX, 1).add(n(1, 1)), Err(ArithError::Overflow));
    assert_eq!(n(i64::MAX, 1).mul(n(2, 1)), Err(ArithError::Overflow));
}

#[test]
fn integer_powers_multiply_out() {
    assert_eq!(n(2, 1).pow(n(10, 1)), Ok(n(1024, 1)));
    assert_eq!(n(2, 1).pow(n(-2, 1)), Ok(n(1, 4)));
    assert_eq!(n(-2, 1).pow(n(3, 1)), Ok(n(-8, 1)));
}

#[test]
fn power_accepts_an_exponent_that_is_an_unreduced_integer() {
    assert_eq!(n(3, 1).pow(n(4, 2)), Ok(n(9, 1)));
}

#[test]
fn power_special_bases_have_closed_forms() {
    assert_eq!(n(0, 1).pow(n(0, 1)), Ok(n(1, 1)));
    assert_eq!(n(0, 1).pow(n(5, 1)), Ok(n(0, 1)));
    assert_eq!(n(0, 1).pow(n(-1, 1)), Err(ArithError::DivisionByZero));
    assert_eq!(n(1, 1).pow(n(1000000, 1)), Ok(n(1, 1)));
    assert_eq!(n(-1, 1).pow(n(1000001, 1)), Ok(n(-1, 1)));
}

#[test]
fn fractional_exponent_is_not_representable() {
    assert_eq!(n(2, 1).pow(n(1, 2)), Err(ArithError::NotRepresentable));
}

#[test]
fn huge_exponent_overflows() {
    assert_eq!(n(2, 1).pow(n(200, 1)), Err(ArithError::Overflow));
}
