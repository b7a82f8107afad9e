use tzlookup::coord::{parse, Coordinate, Field};
use tzlookup::number::{read_scaled, NumberError};

#[test]
fn parses_paris() {
    let c = parse("48.8566", "2.3522").unwrap();
    assert_eq!(c.latitude_e7(), 488_566_000);
    assert_eq!(c.longitude_e7(), 23_522_000);
}

#[test]
fn parses_signs_and_bounds() {
    let c = parse("-33.8688", "+151.2093").unwrap();
    assert_eq!(c, Coordinate { lat_e7: -338_688_000, lon_e7: 1_512_093_000 });
    let c = parse("90", "-180").unwrap();
    assert_eq!(c, Coordinate { lat_e7: 900_000_000, lon_e7: -1_800_000_000 });
    let c = parse("-90.000", "180.0").unwrap();
    assert_eq!(c, Coordinate { lat_e7: -900_000_000, lon_e7: 1_800_000_000 });
}

#[test]
fn parses_partial_forms() {
    assert_eq!(read_scaled(".5", 90), Ok(5_000_000));
    assert_eq!(read_scaled("5.", 90), Ok(50_000_000));
    assert_eq!(read_scaled("-0", 90), Ok(0));
    assert_eq!(read_scaled("007", 90), Ok(70_000_000));
}

#[test]
fn truncates_beyond_seven_digits() {
    assert_eq!(read_scaled("1.123456789", 90), Ok(11_234_567));
    assert_eq!(read_scaled("-1.123456789", 90), Ok(-11_234_567));
}

#[test]
fn rejects_out_of_range_latitude() {
    let e = parse("90.0000001", "0").unwrap_err();
    assert_eq!(e.field, Field::Latitude);
    assert_eq!(e.kind, NumberError::OutOfRange);
    assert_eq!(e.raw_value, "90.0000001");
    let e = parse("-91", "0").unwrap_err();
    assert_eq!(e.kind, NumberError::OutOfRange);
    assert_eq!(read_scaled("100000000000000000000000", 90), Err(NumberError::OutOfRange));
}

#[test]
fn rejects_out_of_range_longitude() {
    let e = parse("10", "180.5").unwrap_err();
    assert_eq!(e.field, Field::Longitude);
    assert_eq!(e.kind, NumberError::OutOfRange);
    assert_eq!(e.raw_value, "180.5");
}

#[test]
fn rejects_non_numeric_with_field() {
    let e = parse("abc", "1").unwrap_err();
    assert_eq!(e.field, Field::Latitude);
    assert_eq!(e.kind, NumberError::NotANumber);
    assert_eq!(e.raw_value, "abc");
    let e = parse("12", "x").unwrap_err();
    assert_eq!(e.field, Field::Longitude);
    assert_eq!(e.kind, NumberError::NotANumber);
    assert_eq!(e.raw_value, "x");
    let e = parse("abc", "x").unwrap_err();
    assert_eq!(e.field, Field::Latitude);
}

#[test]
fn rejects_malformed_texts() {
    for s in [
        "", ".", "-", "+", "1.2.3", " 1", "1 ", "--1", "NaN", "inf", "-inf", "infinity", "1,5",
        "٣", "1e", "1e+", "1E-", "e5", ".e1", "1.5e3.2", "1e5x", "1ee5", "1e 5",
    ] {
        assert_eq!(read_scaled(s, 90), Err(NumberError::NotANumber), "{}", s);
    }
}

#[test]
fn coordinate_new_checks_ranges() {
    assert!(Coordinate::new(900_000_000, -1_800_000_000).is_some());
    assert!(Coordinate::new(900_000_001, 0).is_none());
    assert!(Coordinate::new(0, -1_800_000_001).is_none());
}

#[test]
fn accepts_exponent_notation() {
    assert_eq!(read_scaled("1e1", 90), Ok(100_000_000));
    assert_eq!(read_scaled("4.88566e1", 90), Ok(488_566_000));
    assert_eq!(read_scaled("1e-7", 90), Ok(1));
    assert_eq!(read_scaled("1E-8", 90), Ok(0));
    assert_eq!(read_scaled("-2.5E+1", 90), Ok(-250_000_000));
    assert_eq!(read_scaled("9e1", 90), Ok(900_000_000));
    assert_eq!(read_scaled("900e-1", 90), Ok(900_000_000));
    assert_eq!(read_scaled("123456789e-7", 90), Ok(123_456_789));
    assert_eq!(read_scaled("000000000000001e-15", 90), Ok(0));
    assert_eq!(read_scaled("0e999999999999999999999999", 90), Ok(0));
    assert_eq!(read_scaled("1e-99999999999999999999999", 90), Ok(0));
    assert_eq!(read_scaled("1.8e2", 180), Ok(1_800_000_000));
    let c = parse("4.88566e1", "2.3522E0").unwrap();
    assert_eq!(c, Coordinate { lat_e7: 488_566_000, lon_e7: 23_522_000 });
}

#[test]
fn rejects_exponent_out_of_range() {
    assert_eq!(read_scaled("1e5", 90), Err(NumberError::OutOfRange));
    assert_eq!(read_scaled("9.0000001e1", 90), Err(NumberError::OutOfRange));
    assert_eq!(read_scaled("1e99999999999999999999999", 180), Err(NumberError::OutOfRange));
    assert_eq!(read_scaled("1.81e2", 180), Err(NumberError::OutOfRange));
    let e = parse("1e5", "0").unwrap_err();
    assert_eq!(e.field, Field::Latitude);
    assert_eq!(e.kind, NumberError::OutOfRange);
}

#[test]
fn exponent_latitude_with_bad_longitude_names_longitude() {
    let e = parse("1e1", "x").unwrap_err();
    assert_eq!(e.field, Field::Longitude);
    assert_eq!(e.kind, NumberError::NotANumber);
    assert_eq!(e.raw_value, "x");
}
