use xirr::validate::{validate, Sign};
use xirr::InvalidPaymentsError;

#[test]
fn all_negative_rejected() {
    assert_eq!(validate(&vec![Sign::Negative, Sign::Negative]), Err(InvalidPaymentsError));
}

#[test]
fn all_positive_rejected() {
    assert_eq!(validate(&vec![Sign::Positive, Sign::Positive]), Err(InvalidPaymentsError));
}

#[test]
fn empty_rejected() {
    assert!(validate(&vec![]).is_err());
}

#[test]
fn zeros_rejected() {
    assert!(validate(&vec![Sign::Zero, Sign::Zero, Sign::Zero]).is_err());
}

#[test]
fn non_negative_with_zero_rejected() {
    assert!(validate(&vec![Sign::Zero, Sign::Positive, Sign::Zero]).is_err());
    assert!(validate(&vec![Sign::Negative, Sign::Zero]).is_err());
}

#[test]
fn mixed_signs_accepted() {
    assert_eq!(validate(&vec![Sign::Negative, Sign::Positive]), Ok(()));
    assert_eq!(validate(&vec![Sign::Zero, Sign::Positive, Sign::Zero, Sign::Negative]), Ok(()));
}

#[test]
fn error_message() {
    assert_eq!(InvalidPaymentsError.message(), "negative and positive payments are required");
}
