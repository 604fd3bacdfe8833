use decimal::{Decimal, DecimalErrorKind, ParseDecimalError};
use std::cmp::Ordering;
use std::str::FromStr;

#[test]
fn equality() {
    assert!(Decimal::new(1, 0) == Decimal::new(1, 0));
    assert!(Decimal::new(1, 0) != Decimal::new(1, 1));
    assert!(Decimal::new(1, 0) != Decimal::new(10, 1));
    assert!(Decimal::new(1, 0) != Decimal::new(2, 0));
}

#[test]
fn parse_from_str() {
    assert_eq!(Ok(Decimal::new(1, 0)), <Decimal as FromStr>::from_str("1"));
    assert_eq!(Ok(Decimal::new(1, 0)), "1".parse());
    assert_eq!(Ok(Decimal::new(1, 0)), "1.".parse());
    assert_eq!(Ok(Decimal::new(1, 2)), "0.01".parse());
    assert_eq!(Ok(Decimal::new(1, 2)), ".01".parse());
    assert_eq!(Ok(Decimal::new(100, 2)), "1.00".parse());
    assert_eq!(Ok(Decimal::new(23, 3)), "0.023".parse());
    assert_eq!(Ok(Decimal::new(-125, 2)), "-1.25".parse());
    assert_eq!(Ok(Decimal::new(0, 0)), "000".parse());
    assert_eq!(Ok(Decimal::new(0, 0)), "0.".parse());
    assert_eq!(Ok(Decimal::new(0, 0)), "-".parse());
    assert_eq!(Ok(Decimal::new(0, 0)), ".".parse());
    assert_eq!(Ok(Decimal::new(0, 0)), "-.".parse());
}

#[test]
fn parse_failures() {
    assert_eq!(
        "invalid character found in string",
        "2g".parse::<Decimal>().err().unwrap().description()
    );
    assert_eq!(
        "invalid character found in string",
        "2-2".parse::<Decimal>().err().unwrap().description()
    );
    assert_eq!(
        "cannot parse decimal from empty string",
        "".parse::<Decimal>().err().unwrap().description()
    );
}

#[test]
fn adding_decimals_with_same_scale_maintains_scale() {
    assert_eq!(Decimal::new(100, 2), Decimal::new(51, 2) + Decimal::new(49, 2));
}

#[test]
fn adding_decimals_with_different_scales_results_in_larger_scale() {
    assert_eq!(Decimal::new(100, 2), Decimal::new(9, 1) + Decimal::new(10, 2));
}

#[test]
fn subtracting_decimals_with_different_scales_results_in_larger_scale() {
    assert_eq!(Decimal::new(100, 2), Decimal::new(11, 1) - Decimal::new(10, 2));
}

#[test]
fn multiplying_decimals_results_in_summed_scales() {
    assert_eq!(Decimal::new(1500, 1), Decimal::new(100, 0) * Decimal::new(15, 1));
    assert_eq!(Decimal::new(2500, 2), Decimal::new(100, 0) * Decimal::new(25, 2));
    assert_eq!(Decimal::new(49995, 5), Decimal::new(15, 1) * Decimal::new(3333, 4));
}

#[test]
fn multiplying_decimal_by_int_is_commutative() {
    assert_eq!(Decimal::new(246, 2), Decimal::new(123, 2) * 2);
    assert_eq!(Decimal::new(246, 2), 2 * Decimal::new(123, 2));
}

#[test]
fn dividing_decimal_by_decimal() {
    assert_eq!(Decimal::new(137, 1), Decimal::new(685, 2) / Decimal::new(5, 1));
    assert_eq!(Decimal::new(30, 0), Decimal::new(75, 1) / Decimal::new(25, 2));
}

#[test]
fn dividing_decimals_truncates_remainder() {
    assert_eq!(Decimal::new(2, 0), Decimal::new(5, 0) / Decimal::new(2, 0));
    assert_eq!(Decimal::new(212, 2), Decimal::new(425, 2) / Decimal::new(2, 0));
}

#[test]
fn get_remainder() {
    assert_eq!(Decimal::new(1, 0), Decimal::new(5, 0) % Decimal::new(2, 0));
    assert_eq!(Decimal::new(1, 2), Decimal::new(425, 2) % Decimal::new(2, 0));
}

#[test]
fn ops_on_negative_decimals() {
    assert_eq!(Decimal::new(10, 1), Decimal::new(12, 1) + Decimal::new(-2, 1));
    assert_eq!(Decimal::new(-1, 3), Decimal::new(0, 0) - Decimal::new(1, 3));
    assert_eq!(Decimal::new(1, 0), Decimal::new(-1, 0) * Decimal::new(-1, 0));
    assert_eq!(Decimal::new(-3, 0), Decimal::new(3, 0) / Decimal::new(-1, 0));
}

#[test]
fn performing_ops_on_decimals_does_not_preclude_further_use() {
    let fifty_cents = Decimal::new(5, 1).adjust_scale(2);
    let buck_fifty = Decimal::new(150, 2);
    let two_dollars = Decimal::new(200, 2);
    assert_eq!(buck_fifty + fifty_cents, two_dollars);
    assert_eq!(fifty_cents + fifty_cents + fifty_cents, buck_fifty);
    assert_eq!(two_dollars - fifty_cents, buck_fifty);
}

#[test]
fn displays_with_decimal_point_and_optional_negative_sign() {
    assert_eq!("1.50", Decimal::new(150, 2).to_string());
    assert_eq!("0.0010", Decimal::new(10, 4).to_string());
    assert_eq!("-0.1", Decimal::new(-1, 1).to_string());
}

#[test]
fn supports_debug_format() {
    assert_eq!("Decimal { unscaled: 1, scale: 2 }", format!("{:?}", Decimal::new(1, 2)));
}

#[test]
fn adjust_scale_up_and_down() {
    assert_eq!(Decimal::new(1, 0).adjust_scale(2), Decimal::new(100, 2));
    assert_eq!(Decimal::new(10, 1).adjust_scale(2), Decimal::new(100, 2));
    assert_eq!(Decimal::new(1000, 3).adjust_scale(2), Decimal::new(100, 2));
    assert_eq!(Decimal::new(125, 2).adjust_scale(1), Decimal::new(12, 1));
    assert_eq!(Decimal::new(-125, 2).adjust_scale(1), Decimal::new(-12, 1));
    assert_eq!(Decimal::new(7, 3).adjust_scale(3), Decimal::new(7, 3));
    assert_eq!(Decimal::new(999, 3).adjust_scale(0), Decimal::new(0, 0));
}

#[test]
fn adjust_scale_reports_overflow() {
    assert_eq!(Decimal::new(i64::MAX, 3).checked_adjust_scale(4), None);
    assert_eq!(Decimal::new(i64::MIN, 0).checked_adjust_scale(1), None);
    assert_eq!(
        Decimal::new(922337203685477580, 0).checked_adjust_scale(1),
        Some(Decimal::new(9223372036854775800, 1))
    );
    assert_eq!(Decimal::new(0, 0).checked_adjust_scale(u32::MAX), Some(Decimal::new(0, u32::MAX)));
    assert_eq!(Decimal::new(5, 2).checked_adjust_scale(0), Some(Decimal::new(0, 0)));
}

#[test]
fn ordering_compares_numbers_not_representations() {
    let one = Decimal::new(1, 0);
    assert!(one < Decimal::new(2, 0));
    assert!(one > Decimal::new(2, 1));
    assert_eq!(one.partial_cmp(&Decimal::new(10, 1)), Some(Ordering::Equal));
    assert!(one != Decimal::new(10, 1));
    assert_eq!(Decimal::new(-5, 1).partial_cmp(&Decimal::new(-49, 2)), Some(Ordering::Less));
    assert_eq!(Decimal::new(1, 30).partial_cmp(&Decimal::new(i64::MAX, 0)), Some(Ordering::Less));
    assert_eq!(Decimal::new(i64::MAX, 0).partial_cmp(&Decimal::new(1, 30)), Some(Ordering::Greater));
    assert_eq!(Decimal::new(i64::MIN, 0).partial_cmp(&Decimal::new(-1, 30)), Some(Ordering::Less));
}

#[test]
fn parse_kinds_of_error() {
    assert_eq!(Decimal::parse(""), Err(ParseDecimalError { kind: DecimalErrorKind::Empty }));
    assert_eq!(Decimal::parse("2g"), Err(ParseDecimalError { kind: DecimalErrorKind::InvalidDigit }));
    assert_eq!(Decimal::parse("1-"), Err(ParseDecimalError { kind: DecimalErrorKind::InvalidDigit }));
    assert_eq!(Decimal::parse("1.5é"), Err(ParseDecimalError { kind: DecimalErrorKind::InvalidDigit }));
    assert_eq!(
        Decimal::parse("9223372036854775808"),
        Err(ParseDecimalError { kind: DecimalErrorKind::Overflow })
    );
    assert_eq!(
        Decimal::parse("99999999999999999999x"),
        Err(ParseDecimalError { kind: DecimalErrorKind::InvalidDigit })
    );
    assert_eq!(
        "99999999999999999999".parse::<Decimal>().err().unwrap().description(),
        "number too large to fit in a decimal"
    );
}

#[test]
fn parse_reaches_both_ends_of_i64() {
    assert_eq!(Decimal::parse("9223372036854775807"), Ok(Decimal::new(i64::MAX, 0)));
    assert_eq!(Decimal::parse("-9223372036854775808"), Ok(Decimal::new(i64::MIN, 0)));
    assert_eq!(Decimal::parse("-922337203685477580.8"), Ok(Decimal::new(i64::MIN, 1)));
    assert_eq!(Decimal::parse("1.2.3"), Ok(Decimal::new(123, 2)));
}

#[test]
fn renders_edge_cases() {
    assert_eq!(Decimal::new(0, 0).to_string(), "0");
    assert_eq!(Decimal::new(0, 3).to_string(), "0.000");
    assert_eq!(Decimal::new(-42, 0).to_string(), "-42");
    assert_eq!(Decimal::new(12345, 3).to_string(), "12.345");
    assert_eq!(Decimal::new(123, 3).to_string(), "0.123");
    assert_eq!(Decimal::new(i64::MIN, 0).to_string(), "-9223372036854775808");
    assert_eq!(Decimal::new(i64::MIN, 19).to_string(), "-0.9223372036854775808");
    assert_eq!(Decimal::new(i64::MAX, 2).to_string(), "92233720368547758.07");
}

#[test]
fn rendered_text_reads_back_as_same_value() {
    let cases = [
        Decimal::new(0, 0),
        Decimal::new(150, 2),
        Decimal::new(10, 4),
        Decimal::new(-1, 1),
        Decimal::new(i64::MIN, 0),
        Decimal::new(i64::MIN, 25),
        Decimal::new(i64::MAX, 7),
        Decimal::new(-7, 0),
        Decimal::new(0, 5),
    ];
    for d in cases {
        assert_eq!(d.to_string().parse::<Decimal>(), Ok(d));
    }
}

#[test]
fn quotient_times_divisor_plus_remainder_is_dividend() {
    let pairs = [(425i64, 200i64, 2u32), (-425, 200, 2), (425, -3, 1), (-7, -2, 0), (i64::MIN, 7, 3), (1, i64::MAX, 4)];
    for (a, b, s) in pairs {
        let dividend = Decimal::new(a, s);
        let divisor = Decimal::new(b, s);
        let quotient = dividend / divisor;
        let remainder = dividend % divisor;
        assert_eq!(((quotient * divisor) + remainder).adjust_scale(s), dividend);
    }
}

#[test]
fn remainder_keeps_dividend_scale() {
    assert_eq!(Decimal::new(-425, 2) % Decimal::new(2, 0), Decimal::new(-1, 2));
    assert_eq!(Decimal::new(5, 0) % Decimal::new(3, 1), Decimal::new(2, 1));
    assert_eq!(Decimal::new(5, 0) / Decimal::new(3, 1), Decimal::new(16, 0));
    assert_eq!(Decimal::new(-7, 0) / Decimal::new(2, 0), Decimal::new(-3, 0));
}
