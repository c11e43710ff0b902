use poppk::decimal::isqrt_u128;
use poppk::decimal::Decimal;

#[test]
fn test_parse_plain_and_fractional() {
    assert_eq!(Decimal::parse("0".as_bytes()), Some(Decimal::from_int(0)));
    assert_eq!(Decimal::parse("100".as_bytes()), Some(Decimal::from_int(100)));
    assert_eq!(Decimal::parse("0.09".as_bytes()), Some(Decimal::from_nanos(90_000_000)));
    assert_eq!(Decimal::parse("2.5".as_bytes()), Some(Decimal::from_nanos(2_500_000_000)));
    assert_eq!(Decimal::parse("-1.5".as_bytes()), Some(Decimal::from_nanos(-1_500_000_000)));
    assert_eq!(Decimal::parse("+3".as_bytes()), Some(Decimal::from_int(3)));
    assert_eq!(Decimal::parse(".5".as_bytes()), Some(Decimal::from_nanos(500_000_000)));
    assert_eq!(Decimal::parse("7.".as_bytes()), Some(Decimal::from_int(7)));
    // trailing zeros beyond nano precision are exact
    assert_eq!(
        Decimal::parse("0.250000000000".as_bytes()),
        Some(Decimal::from_nanos(250_000_000))
    );
}

#[test]
fn test_parse_rejects_malformed() {
    assert_eq!(Decimal::parse("".as_bytes()), None);
    assert_eq!(Decimal::parse("-".as_bytes()), None);
    assert_eq!(Decimal::parse(".".as_bytes()), None);
    assert_eq!(Decimal::parse("1.2.3".as_bytes()), None);
    assert_eq!(Decimal::parse("12a".as_bytes()), None);
    assert_eq!(Decimal::parse("1 2".as_bytes()), None);
    // a non-zero digit beyond nano precision is not representable
    assert_eq!(Decimal::parse("0.0000000001".as_bytes()), None);
}

#[test]
fn test_isqrt_exact_and_floor() {
    assert_eq!(isqrt_u128(0), 0);
    assert_eq!(isqrt_u128(1), 1);
    assert_eq!(isqrt_u128(2), 1);
    assert_eq!(isqrt_u128(9), 3);
    assert_eq!(isqrt_u128(10), 3);
    assert_eq!(isqrt_u128(144), 12);
    assert_eq!(isqrt_u128(900_000_000_000_000_000_000), 30_000_000_000);
}

#[test]
fn test_variance_conversions() {
    // CV% = sqrt(variance) * 100
    let cv = Decimal::from_nanos(90_000_000).cv_percent_from_variance().unwrap();
    assert_eq!(cv, Decimal::from_int(30));
    let cv = Decimal::from_nanos(160_000_000).cv_percent_from_variance().unwrap();
    assert_eq!(cv, Decimal::from_int(40));
    // sigma = sqrt(variance)
    let sd = Decimal::from_nanos(22_500_000).sd_from_variance().unwrap();
    assert_eq!(sd, Decimal::from_nanos(150_000_000));
    let sd = Decimal::from_nanos(2_500_000).sd_from_variance().unwrap();
    assert_eq!(sd, Decimal::from_nanos(50_000_000));
    // negative variances have no conversion
    assert_eq!(Decimal::from_int(-1).cv_percent_from_variance(), None);
    assert_eq!(Decimal::from_int(-1).sd_from_variance(), None);
}
