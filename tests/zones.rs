use tzlookup::coord::{parse, Coordinate};
use tzlookup::number::NumberError;
use tzlookup::zone::{fixed_zone, nautical_offset, get_tz_name, zone_for};

fn finder_lookup(finder: &tzf_rs::DefaultFinder, c: Coordinate) -> String {
    let lon = c.longitude_e7() as f64 / 1e7;
    let lat = c.latitude_e7() as f64 / 1e7;
    finder.get_tz_name(lon, lat).to_string()
}

#[test]
fn nautical_offsets() {
    assert_eq!(nautical_offset(0), 0);
    assert_eq!(nautical_offset(74_999_999), 0);
    assert_eq!(nautical_offset(75_000_000), 1);
    assert_eq!(nautical_offset(-75_000_000), 0);
    assert_eq!(nautical_offset(-75_000_001), -1);
    assert_eq!(nautical_offset(1_800_000_000), 12);
    assert_eq!(nautical_offset(-1_800_000_000), -12);
    assert_eq!(nautical_offset(-1_050_000_000), -7);
}

#[test]
fn fixed_zone_names() {
    assert_eq!(fixed_zone(0).as_str(), "Etc/GMT");
    assert_eq!(fixed_zone(1).as_str(), "Etc/GMT-1");
    assert_eq!(fixed_zone(-5).as_str(), "Etc/GMT+5");
    assert_eq!(fixed_zone(12).as_str(), "Etc/GMT-12");
    assert_eq!(fixed_zone(-10).as_str(), "Etc/GMT+10");
    assert_eq!(fixed_zone(-12).as_str(), "Etc/GMT+12");
}

#[test]
fn zone_keeps_found_name() {
    let c = parse("48.8566", "2.3522").unwrap();
    assert_eq!(zone_for(&c, "Europe/Paris").as_str(), "Europe/Paris");
}

#[test]
fn zone_falls_back_where_nothing_found() {
    let c = parse("0", "0").unwrap();
    assert_eq!(zone_for(&c, "").as_str(), "Etc/GMT");
    let c = parse("-40", "-150").unwrap();
    assert_eq!(zone_for(&c, "").as_str(), "Etc/GMT+10");
}

#[test]
fn resolve_uses_lookup_then_fallback() {
    let z = get_tz_name("0", "0", |_c: Coordinate| String::new()).unwrap();
    assert_eq!(z.as_str(), "Etc/GMT");
    let z = get_tz_name("35", "139.7", |c: Coordinate| {
        assert_eq!(c.lon_e7, 1_397_000_000);
        "Asia/Tokyo".to_string()
    })
    .unwrap();
    assert_eq!(z.as_str(), "Asia/Tokyo");
}

#[test]
fn resolve_reports_parse_errors_without_lookup() {
    let e = get_tz_name("95", "0", |_c: Coordinate| -> String { panic!("no lookup expected") })
        .unwrap_err();
    assert_eq!(e.kind, NumberError::OutOfRange);
}

#[test]
fn resolve_paris_with_index() {
    let finder = tzf_rs::DefaultFinder::new();
    let z = get_tz_name("48.8566", "2.3522", |c: Coordinate| finder_lookup(&finder, c)).unwrap();
    assert_eq!(z.as_str(), "Europe/Paris");
}

#[test]
fn resolve_mid_atlantic_with_index() {
    let finder = tzf_rs::DefaultFinder::new();
    let z = get_tz_name("0", "0", |c: Coordinate| finder_lookup(&finder, c)).unwrap();
    assert!(!z.as_str().is_empty());
    assert!(z.as_str().starts_with("Etc/GMT") || z.as_str().contains('/'));
}

#[test]
fn lookup_is_repeatable() {
    let finder = tzf_rs::DefaultFinder::new();
    let a = get_tz_name("40.7128", "-74.0060", |c: Coordinate| finder_lookup(&finder, c)).unwrap();
    let b = get_tz_name("40.7128", "-74.0060", |c: Coordinate| finder_lookup(&finder, c)).unwrap();
    assert_eq!(a.as_str(), b.as_str());
    assert_eq!(a.as_str(), "America/New_York");
}

#[test]
fn resolve_error_carries_field_text() {
    let e = get_tz_name("1e1", "east", |_c: Coordinate| String::new()).unwrap_err();
    assert_eq!(e.kind, NumberError::NotANumber);
    assert_eq!(e.raw_value, "east");
    let z = get_tz_name("1e1", "0", |_c: Coordinate| String::new()).unwrap();
    assert_eq!(z.as_str(), "Etc/GMT");
}
