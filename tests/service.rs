use tzlookup::coord::{parse, Field};
use tzlookup::json::single_member_object;
use tzlookup::number::NumberError;
use tzlookup::service::{
    check_place_query, select_place, tz_found_response, tz_request, Coordinates, PlaceCandidate,
    PlaceError, QueryError,
};

#[test]
fn missing_both_params_is_bad_request() {
    let r = tz_request(None, None).unwrap_err();
    assert_eq!(r.status, 400);
    assert_eq!(r.body, "{\"error\":\"Missing query params\"}");
}

#[test]
fn missing_one_param_is_named() {
    let r = tz_request(None, Some("2")).unwrap_err();
    assert_eq!(r.status, 400);
    assert_eq!(r.body, "{\"error\":\"Missing 'lat' param\"}");
    let r = tz_request(Some("2"), None).unwrap_err();
    assert_eq!(r.body, "{\"error\":\"Missing 'lon' param\"}");
    assert!(matches!(Coordinates::from_params(None, None), Err(QueryError::MissingBoth)));
    let c = Coordinates::from_params(Some("1"), Some("2")).unwrap();
    assert_eq!((c.lat.as_str(), c.lon.as_str()), ("1", "2"));
}

#[test]
fn malformed_params_are_bad_request() {
    let r = tz_request(Some("abc"), Some("1")).unwrap_err();
    assert_eq!(r.status, 400);
    assert_eq!(r.body, "{\"error\":\"'lat' is not a number\"}");
    let r = tz_request(Some("1"), Some("181")).unwrap_err();
    assert_eq!(r.body, "{\"error\":\"'lon' is out of range\"}");
}

#[test]
fn valid_params_give_point() {
    let c = tz_request(Some("48.8566"), Some("2.3522")).unwrap();
    assert_eq!((c.lat_e7, c.lon_e7), (488_566_000, 23_522_000));
}

#[test]
fn found_zone_response() {
    let c = parse("48.8566", "2.3522").unwrap();
    let r = tz_found_response(&c, "Europe/Paris");
    assert_eq!(r.status, 200);
    assert_eq!(r.body, "{\"timezone\":\"Europe/Paris\"}");
    let r = tz_found_response(&c, "");
    assert_eq!(r.body, "{\"timezone\":\"Etc/GMT\"}");
}

#[test]
fn json_text_is_escaped() {
    assert_eq!(single_member_object("a", "x\"y\\z"), "{\"a\":\"x\\\"y\\\\z\"}");
}

#[test]
fn place_not_found() {
    let none: Vec<PlaceCandidate> = vec![];
    let e = select_place(Some(&none)).unwrap_err();
    assert_eq!(e, PlaceError::NotFound);
    assert_eq!(e.status(), 404);
}

#[test]
fn place_upstream_failure() {
    let e = select_place(None).unwrap_err();
    assert_eq!(e, PlaceError::UpstreamFailure);
    assert_eq!(e.status(), 502);
}

#[test]
fn place_invalid_upstream_data() {
    let v = vec![PlaceCandidate { lat: "north".to_string(), lon: "2".to_string() }];
    let e = select_place(Some(&v)).unwrap_err();
    assert_eq!(e, PlaceError::InvalidUpstreamData(Field::Latitude, NumberError::NotANumber));
    assert_eq!(e.status(), 502);
}

#[test]
fn place_first_result_wins() {
    let v = vec![
        PlaceCandidate { lat: "48.8588897".to_string(), lon: "2.3200410".to_string() },
        PlaceCandidate { lat: "33.66".to_string(), lon: "-95.55".to_string() },
    ];
    let c = select_place(Some(&v)).unwrap();
    assert_eq!((c.lat_e7, c.lon_e7), (488_588_897, 23_200_410));
}

#[test]
fn empty_place_query() {
    let e = check_place_query("").unwrap_err();
    assert_eq!(e, PlaceError::EmptyQuery);
    assert_eq!(e.status(), 400);
    assert!(check_place_query("Paris").is_ok());
}

#[test]
fn exponent_latitude_with_bad_longitude_is_reported_for_lon() {
    let r = tz_request(Some("1e1"), Some("x")).unwrap_err();
    assert_eq!(r.status, 400);
    assert_eq!(r.body, "{\"error\":\"'lon' is not a number\"}");
    let c = tz_request(Some("1e1"), Some("-1.5e2")).unwrap();
    assert_eq!((c.lat_e7, c.lon_e7), (100_000_000, -1_500_000_000));
}
