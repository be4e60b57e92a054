use actix_gcd::validate::{checked_gcd, validate, ZeroInputError};

#[test]
fn validate_accepts_two_positive_numbers() {
    assert_eq!(validate(1, 1), Ok(()));
    assert_eq!(validate(48, 18), Ok(()));
    assert_eq!(validate(u64::MAX, u64::MAX), Ok(()));
}

#[test]
fn validate_rejects_a_zero_first_number() {
    assert_eq!(validate(0, 5), Err(ZeroInputError));
}

#[test]
fn validate_rejects_a_zero_second_number() {
    assert_eq!(validate(5, 0), Err(ZeroInputError));
    assert_eq!(validate(u64::MAX, 0), Err(ZeroInputError));
}

#[test]
fn validate_rejects_two_zeros() {
    assert_eq!(validate(0, 0), Err(ZeroInputError));
}

#[test]
fn zero_input_error_has_the_fixed_message() {
    assert_eq!(ZeroInputError.message(), "Computing the GCD with zero is boring.");
}

#[test]
fn checked_gcd_computes_for_positive_numbers() {
    assert_eq!(checked_gcd(48, 18), Ok(6));
    assert_eq!(checked_gcd(17, 5), Ok(1));
    assert_eq!(checked_gcd(7, 7), Ok(7));
}

#[test]
fn checked_gcd_refuses_zero() {
    assert_eq!(checked_gcd(0, 5), Err(ZeroInputError));
    assert_eq!(checked_gcd(5, 0), Err(ZeroInputError));
    assert_eq!(checked_gcd(0, 0), Err(ZeroInputError));
}
