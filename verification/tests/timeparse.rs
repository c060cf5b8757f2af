//! Relative-time strings and the quantity parser behind them.

use std::str::FromStr;

use gnunet::time::Relative;
use gnunet::util::{parse_quantity_with_units, ParseQuantityWithUnitsError};

#[test]
fn from_str_works() {
    let r = Relative::from_str(" 3   min  10 s   ").unwrap();
    assert_eq!(r.micros(), 190_000_000);
}

#[test]
#[should_panic]
fn parse_invalid_unit() {
    Relative::from_str("3 balls").unwrap();
}

#[test]
#[should_panic]
fn parse_no_unit() {
    Relative::from_str("12").unwrap();
}

#[test]
#[should_panic]
fn parse_empty_string() {
    Relative::from_str("").unwrap();
}

#[test]
#[should_panic]
fn empty_string() {
    Relative::from_str("").unwrap();
}

#[test]
#[should_panic]
fn parse_no_coefficient() {
    Relative::from_str("days").unwrap();
}

#[test]
fn quantity_error_variants() {
    let units: Vec<(&str, u64)> = vec![("s", 1_000_000), ("min", 60_000_000)];
    assert!(matches!(
        parse_quantity_with_units("   ", &units),
        Err(ParseQuantityWithUnitsError::EmptyString)
    ));
    assert!(matches!(
        parse_quantity_with_units("x s", &units),
        Err(ParseQuantityWithUnitsError::ParseInt)
    ));
    assert!(matches!(
        parse_quantity_with_units("3", &units),
        Err(ParseQuantityWithUnitsError::MissingUnit)
    ));
    match parse_quantity_with_units("3 parsecs", &units) {
        Err(ParseQuantityWithUnitsError::NoSuchUnit { unit }) => assert_eq!(unit, "parsecs"),
        _ => panic!("an unknown unit must be named in the error"),
    }
    assert_eq!(parse_quantity_with_units("2 min 5 s", &units).unwrap(), 125_000_000);
    // a total past the 64-bit range reads as a number error
    assert!(matches!(
        parse_quantity_with_units("18446744073709551615 s", &units),
        Err(ParseQuantityWithUnitsError::ParseInt)
    ));
}

#[test]
fn relative_units_table() {
    assert_eq!(Relative::from_str("1 us").unwrap().micros(), 1);
    assert_eq!(Relative::from_str("1 \"").unwrap().micros(), 1_000_000);
    assert_eq!(Relative::from_str("1 '").unwrap().micros(), 60_000_000);
    assert_eq!(Relative::from_str("2 h").unwrap().micros(), 7_200_000_000);
    assert_eq!(Relative::from_str("1 week").unwrap().micros(), 604_800_000_000);
    assert_eq!(Relative::from_str("1 a").unwrap().micros(), 31_536_000_000_000);
    assert_eq!(Relative::from_str("+5 ms").unwrap().micros(), 5_000);
}
