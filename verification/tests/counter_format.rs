use idle_core::counter::BigCounter;
use idle_core::format::format_number;
use num_bigint::BigUint;

#[test]
fn zero_and_one_render_exactly() {
    assert_eq!(BigCounter::zero().to_decimal_string(), "0");
    assert_eq!(BigCounter::one().to_decimal_string(), "1");
    assert_eq!(BigCounter::from_u64(18446744073709551615).to_decimal_string(), "18446744073709551615");
}

#[test]
fn addition_is_exact() {
    let a = BigCounter::from_u64(999);
    let b = BigCounter::from_u64(1);
    assert_eq!(a.add(&b).to_decimal_string(), "1000");
}

#[test]
fn scaling_is_exact() {
    let a = BigCounter::from_u64(7);
    assert_eq!(a.scale(6).to_decimal_string(), "42");
    assert_eq!(a.scale(0).to_decimal_string(), "0");
}

#[test]
fn decimal_string_round_trips() {
    let c = BigCounter::from_decimal_str("12345678901234567890123456789").unwrap();
    assert_eq!(c.to_decimal_string(), "12345678901234567890123456789");
}

#[test]
fn parse_drops_leading_zeros() {
    let c = BigCounter::from_decimal_str("007").unwrap();
    assert_eq!(c.to_decimal_string(), "7");
    let z = BigCounter::from_decimal_str("000").unwrap();
    assert_eq!(z.to_decimal_string(), "0");
}

#[test]
fn parse_rejects_non_digits() {
    assert!(BigCounter::from_decimal_str("").is_err());
    assert!(BigCounter::from_decimal_str("12a").is_err());
    assert!(BigCounter::from_decimal_str("-5").is_err());
    assert!(BigCounter::from_decimal_str("1 2").is_err());
}

#[test]
fn rendering_matches_the_arithmetic_crate() {
    let big = BigUint::from(2u32).pow(200);
    let s = big.to_string();
    let c = BigCounter::from_decimal_str(&s).unwrap();
    assert_eq!(c.to_decimal_string(), s);
    let doubled = (&big + &big).to_string();
    assert_eq!(c.add(&c).to_decimal_string(), doubled);
}

#[test]
fn format_three_digits_or_fewer_is_exact() {
    assert_eq!(format_number(&BigCounter::from_u64(0)), "0");
    assert_eq!(format_number(&BigCounter::from_u64(42)), "42");
    assert_eq!(format_number(&BigCounter::from_u64(999)), "999");
}

#[test]
fn format_uses_magnitude_suffixes() {
    assert_eq!(format_number(&BigCounter::from_u64(1000)), "1K");
    assert_eq!(format_number(&BigCounter::from_u64(1500)), "1.50K");
    assert_eq!(format_number(&BigCounter::from_u64(999999)), "999.99K");
    assert_eq!(format_number(&BigCounter::from_u64(1000000)), "1M");
    assert_eq!(format_number(&BigCounter::from_u64(1234567)), "1.23M");
    assert_eq!(format_number(&BigCounter::from_u64(1000000000)), "1B");
    assert_eq!(format_number(&BigCounter::from_u64(1000000000000)), "1T");
}

#[test]
fn format_reaches_the_last_suffix() {
    // 28 digits still use the last suffix of the list.
    let oc = BigCounter::from_decimal_str("1230000000000000000000000000").unwrap();
    assert_eq!(format_number(&oc), "1.23Oc");
}

#[test]
fn format_falls_back_to_scientific_notation() {
    // A number with 30 digits is shown as D.DDe29.
    let c = BigCounter::from_decimal_str("100000000000000000000000000000").unwrap();
    assert_eq!(format_number(&c), "1.00e29");
    let big = BigUint::from(2u32).pow(200);
    let c2 = BigCounter::from_decimal_str(&big.to_string()).unwrap();
    // 2^200 = 1.6069...e60
    assert_eq!(format_number(&c2), "1.60e60");
}
