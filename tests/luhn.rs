use decimal::luhn::{calculate_check_digit, sum_digits, valid_str};

#[test]
fn calculates_on_realistic_cc() {
    assert_eq!(1, calculate_check_digit("401288888888188").unwrap());
}

#[test]
fn calculates_for_wikipedia_example() {
    assert_eq!(3, calculate_check_digit("7992739871").unwrap());
}

#[test]
fn calculates_for_super_simple_examples() {
    assert_eq!(2, calculate_check_digit("4").unwrap());
    assert_eq!(1, calculate_check_digit("14").unwrap());
}

#[test]
fn yields_none_on_non_numeric() {
    assert_eq!(None, calculate_check_digit("ffff"));
}

#[test]
fn yields_none_on_empty() {
    assert_eq!(None, calculate_check_digit(""));
}

#[test]
fn validates_good_cc() {
    assert!(valid_str("4012888888881881"));
}

#[test]
fn invalidates_bad_cc() {
    assert!(!valid_str("4012888888881882"));
}

#[test]
fn invalidates_non_numeric_check_digit() {
    assert!(!valid_str("401288888888188G"));
}

#[test]
fn invalidates_non_numeric() {
    assert!(!valid_str("4012HI"));
}

#[test]
fn invalidates_empty() {
    assert!(!valid_str(""));
}

#[test]
fn sum_digits_works() {
    assert_eq!(0, sum_digits(0));
    assert_eq!(1, sum_digits(1));
    assert_eq!(5, sum_digits(23));
    assert_eq!(6, sum_digits(123));
    assert_eq!(18, sum_digits(54333));
}

#[test]
fn check_digit_is_ten_when_sum_ends_in_zero() {
    assert_eq!(Some(10), calculate_check_digit("0"));
    assert!(!valid_str("00"));
    assert!(!valid_str("5"));
}
