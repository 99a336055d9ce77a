use napoli::millicents::divide_and_round;
use napoli::Millicents;
use napoli::MillicentsError;

#[test]
fn test_millicent_to_euro() {
    let mc_price: i64 = 13 * 100000 + 37 * 1000; // 13.37 EUR
    assert_eq!(Millicents::millicents_to_euro(mc_price), (13, 37));
    assert_eq!(Millicents::millicents_to_euro(133736999), (1337, 37));
    assert_eq!(Millicents::millicents_to_euro(1337000), (13, 37));
}

#[test]
fn from_raw_accepts_nonnegative() {
    let m = Millicents::from_raw(1337000).unwrap();
    assert_eq!(m.raw(), 1337000);
    assert!(!m.is_zero());
}

#[test]
fn from_raw_rejects_negative() {
    let r = Millicents::from_raw(-1);
    assert!(matches!(r, Err(MillicentsError::Negative)));
}

#[test]
fn zero_is_zero() {
    let z = Millicents::zero();
    assert_eq!(z.raw(), 0);
    assert!(z.is_zero());
}

#[test]
fn to_euro_tuple_splits_euros_and_cents() {
    assert_eq!(Millicents::from_raw(1337000).unwrap().to_euro_tuple(), (13, 37));
    assert_eq!(Millicents::from_raw(0).unwrap().to_euro_tuple(), (0, 0));
    // a single leftover millicent is already one cent on the bill
    assert_eq!(Millicents::from_raw(100001).unwrap().to_euro_tuple(), (1, 1));
}

#[test]
fn divide_and_round_rounds_positive_up() {
    assert_eq!(divide_and_round(1, 1000), 1);
    assert_eq!(divide_and_round(36999, 1000), 37);
    assert_eq!(divide_and_round(37000, 1000), 37);
    assert_eq!(divide_and_round(0, 1000), 0);
}

#[test]
fn divide_and_round_rounds_negative_half_away() {
    assert_eq!(divide_and_round(-1500, 1000), -2);
    assert_eq!(divide_and_round(-1400, 1000), -1);
    assert_eq!(divide_and_round(-1, 1000), 0);
    assert_eq!(divide_and_round(1500, -1000), -2);
    assert_eq!(divide_and_round(-1500, -1000), 2);
}

#[test]
fn from_euro_human_reads_decimal_euros() {
    assert_eq!(Millicents::from_euro_human("13.37").unwrap().raw(), 1337000);
    assert_eq!(Millicents::from_euro_human("1").unwrap().raw(), 100000);
    assert_eq!(Millicents::from_euro_human(".5").unwrap().raw(), 50000);
    assert_eq!(Millicents::from_euro_human("1.").unwrap().raw(), 100000);
    assert_eq!(Millicents::from_euro_human("0.00001").unwrap().raw(), 1);
    assert_eq!(Millicents::from_euro_human("+2.5").unwrap().raw(), 250000);
    // digits beyond the fifth fractional place are cut off
    assert_eq!(Millicents::from_euro_human("1.234567").unwrap().raw(), 123456);
}

#[test]
fn from_euro_human_rejects_negative_amounts() {
    assert!(matches!(Millicents::from_euro_human("-1"), Err(MillicentsError::Negative)));
    assert!(matches!(Millicents::from_euro_human("-0.01"), Err(MillicentsError::Negative)));
    // a negative zero is still zero
    assert_eq!(Millicents::from_euro_human("-0").unwrap().raw(), 0);
}

#[test]
fn from_euro_human_rejects_malformed_text() {
    assert!(matches!(Millicents::from_euro_human(""), Err(MillicentsError::ParseError)));
    assert!(matches!(Millicents::from_euro_human("abc"), Err(MillicentsError::ParseError)));
    assert!(matches!(Millicents::from_euro_human("1.2.3"), Err(MillicentsError::ParseError)));
    assert!(matches!(Millicents::from_euro_human("."), Err(MillicentsError::ParseError)));
    assert!(matches!(Millicents::from_euro_human("-"), Err(MillicentsError::ParseError)));
    assert!(matches!(Millicents::from_euro_human("12x3"), Err(MillicentsError::ParseError)));
    assert!(matches!(Millicents::from_euro_human("1.2x"), Err(MillicentsError::ParseError)));
}

#[test]
fn from_euro_human_caps_huge_amounts() {
    let m = Millicents::from_euro_human("99999999999999999999").unwrap();
    assert_eq!(m.raw(), i64::MAX);
}
