use vstd::prelude::*;

use crate::coord::{parse, parse_outcome, Coordinate, Field, ParseError};
use crate::json::{json_object, single_member_object};
use crate::number::NumberError;
use crate::zone::{zone_for, zone_name};

verus! {

/// Status of a successful answer.
pub const STATUS_OK: u16 = 200;

/// Status of an answer to a request whose input is wrong.
pub const STATUS_BAD_REQUEST: u16 = 400;

/// Status of an answer when the place is unknown.
pub const STATUS_NOT_FOUND: u16 = 404;

/// Status of an answer when the geocoding service failed.
pub const STATUS_BAD_GATEWAY: u16 = 502;

/// The raw coordinate parameters of a query, both present.
#[derive(Clone, Debug)]
pub struct Coordinates {
    pub lat: String,
    pub lon: String,
}

/// Which coordinate parameters a query lacks.
#[derive(Clone, Copy, Debug, PartialEq, Eq, Structural)]
pub enum QueryError {
    MissingBoth,
    MissingLat,
    MissingLon,
}

/// The message that names the missing parameters.
pub open spec fn query_error_text(e: QueryError) -> Seq<char> {
    match e {
        QueryError::MissingBoth => "Missing query params"@,
        QueryError::MissingLat => "Missing 'lat' param"@,
        QueryError::MissingLon => "Missing 'lon' param"@,
    }
}

/// The message that names a field that could not be read, and why.
pub open spec fn parse_error_text(field: Field, kind: NumberError) -> Seq<char> {
    match (field, kind) {
        (Field::Latitude, NumberError::NotANumber) => "'lat' is not a number"@,
        (Field::Latitude, NumberError::OutOfRange) => "'lat' is out of range"@,
        (Field::Longitude, NumberError::NotANumber) => "'lon' is not a number"@,
        (Field::Longitude, NumberError::OutOfRange) => "'lon' is out of range"@,
    }
}

impl QueryError {
    /// The message that names the missing parameters.
    pub fn message(&self) -> (r: &'static str)
        ensures
            r@ == query_error_text(*self),
    {
        match self {
            QueryError::MissingBoth => "Missing query params",
            QueryError::MissingLat => "Missing 'lat' param",
            QueryError::MissingLon => "Missing 'lon' param",
        }
    }
}

impl ParseError {
    /// The message that names the field and why it was refused.
    pub fn message(&self) -> (r: &'static str)
        ensures
            r@ == parse_error_text(self.field, self.kind),
    {
        match (self.field, self.kind) {
            (Field::Latitude, NumberError::NotANumber) => "'lat' is not a number",
            (Field::Latitude, NumberError::OutOfRange) => "'lat' is out of range",
            (Field::Longitude, NumberError::NotANumber) => "'lon' is not a number",
            (Field::Longitude, NumberError::OutOfRange) => "'lon' is out of range",
        }
    }
}

/// The parameters of a query, or which of them are missing.
pub open spec fn query_outcome(lat: Option<Seq<char>>, lon: Option<Seq<char>>) -> Result<
    (Seq<char>, Seq<char>),
    QueryError,
> {
    match (lat, lon) {
        (Some(a), Some(b)) => Ok((a, b)),
        (None, None) => Err(QueryError::MissingBoth),
        (None, _) => Err(QueryError::MissingLat),
        (_, None) => Err(QueryError::MissingLon),
    }
}

/// The view of an optional text parameter.
pub open spec fn opt_view(p: Option<&str>) -> Option<Seq<char>> {
    match p {
        Some(s) => Some(s@),
        None => None,
    }
}

impl Coordinates {
    /// Takes the `lat` and `lon` parameters of a query, both required.
    pub fn from_params(lat: Option<&str>, lon: Option<&str>) -> (r: Result<Coordinates, QueryError>)
        ensures
            match r {
                Ok(c) => query_outcome(opt_view(lat), opt_view(lon)) == Ok::<
                    (Seq<char>, Seq<char>),
                    QueryError,
                >((c.lat@, c.lon@)),
                Err(e) => query_outcome(opt_view(lat), opt_view(lon)) == Err::<
                    (Seq<char>, Seq<char>),
                    QueryError,
                >(e),
            },
    {
        match (lat, lon) {
            (Some(a), Some(b)) => Ok(Coordinates { lat: a.to_owned(), lon: b.to_owned() }),
            (None, None) => Err(QueryError::MissingBoth),
            (None, _) => Err(QueryError::MissingLat),
            (_, None) => Err(QueryError::MissingLon),
        }
    }
}

/// An answer to a request: a status code and a JSON body.
#[derive(Clone, Debug)]
pub struct Response {
    pub status: u16,
    pub body: String,
}

/// The first half of a coordinate request, before the index is consulted: the
/// point to look up, or the error message for the caller.
pub open spec fn tz_request_outcome(lat: Option<Seq<char>>, lon: Option<Seq<char>>) -> Result<
    (int, int),
    Seq<char>,
> {
    match query_outcome(lat, lon) {
        Err(e) => Err(query_error_text(e)),
        Ok((a, b)) => match parse_outcome(a, b) {
            Err((f, k)) => Err(parse_error_text(f, k)),
            Ok(p) => Ok(p),
        },
    }
}

/// Validates the parameters of a coordinate request. Where they are missing
/// or malformed, the answer is a `400` whose body names the problem.
pub fn tz_request(lat: Option<&str>, lon: Option<&str>) -> (r: Result<Coordinate, Response>)
    ensures
        match r {
            Ok(c) => c.wf() && tz_request_outcome(opt_view(lat), opt_view(lon)) == Ok::<
                (int, int),
                Seq<char>,
            >((c.lat_e7 as int, c.lon_e7 as int)),
            Err(resp) => {
                &&& resp.status == STATUS_BAD_REQUEST
                &&& tz_request_outcome(opt_view(lat), opt_view(lon)) is Err
                &&& resp.body@ == json_object(
                    "error"@,
                    tz_request_outcome(opt_view(lat), opt_view(lon))->Err_0,
                )
            },
        },
{
    let q = match Coordinates::from_params(lat, lon) {
        Ok(q) => q,
        Err(e) => {
            let m = e.message();
            return Err(
                Response {
                    status: STATUS_BAD_REQUEST,
                    body: single_member_object("error", m),
                },
            );
        },
    };
    match parse(q.lat.as_str(), q.lon.as_str()) {
        Ok(c) => Ok(c),
        Err(e) => {
            let m = e.message();
            Err(Response { status: STATUS_BAD_REQUEST, body: single_member_object("error", m) })
        },
    }
}

/// The answer to a coordinate request once the index has been consulted:
/// `found` is what it returned for `c`, empty where no region covers it.
pub fn tz_found_response(c: &Coordinate, found: &str) -> (r: Response)
    requires
        c.wf(),
    ensures
        r.status == STATUS_OK,
        r.body@ == json_object("timezone"@, zone_name(c.lon_e7 as int, found@)),
{
    let zone = zone_for(c, found);
    Response { status: STATUS_OK, body: single_member_object("timezone", zone.as_str()) }
}

/// The coordinate texts of one geocoding result.
#[derive(Clone, Debug)]
pub struct PlaceCandidate {
    pub lat: String,
    pub lon: String,
}

/// Why a place search gave no point.
#[derive(Clone, Copy, Debug, PartialEq, Eq, Structural)]
pub enum PlaceError {
    EmptyQuery,
    NotFound,
    UpstreamFailure,
    InvalidUpstreamData(Field, NumberError),
}

/// The answer status for a failed place search.
pub open spec fn place_error_status_spec(e: PlaceError) -> u16 {
    match e {
        PlaceError::EmptyQuery => STATUS_BAD_REQUEST,
        PlaceError::NotFound => STATUS_NOT_FOUND,
        _ => STATUS_BAD_GATEWAY,
    }
}

impl PlaceError {
    /// The answer status: the caller's fault, an unknown place, or the
    /// geocoding service's fault.
    pub fn status(&self) -> (r: u16)
        ensures
            r == place_error_status_spec(*self),
    {
        match self {
            PlaceError::EmptyQuery => STATUS_BAD_REQUEST,
            PlaceError::NotFound => STATUS_NOT_FOUND,
            _ => STATUS_BAD_GATEWAY,
        }
    }
}

/// Checks the text of a place search before the geocoding service is asked.
pub fn check_place_query(query: &str) -> (r: Result<(), PlaceError>)
    ensures
        r is Err <==> query@.len() == 0,
        r matches Err(e) ==> e == PlaceError::EmptyQuery,
{
    if query.is_empty() {
        Err(PlaceError::EmptyQuery)
    } else {
        Ok(())
    }
}

/// The point of a place search, from what the geocoding service answered:
/// `None` where the call failed, else its results, best first.
pub open spec fn place_outcome(results: Option<Seq<(Seq<char>, Seq<char>)>>) -> Result<
    (int, int),
    PlaceError,
> {
    match results {
        None => Err(PlaceError::UpstreamFailure),
        Some(v) => if v.len() == 0 {
            Err(PlaceError::NotFound)
        } else {
            match parse_outcome(v[0].0, v[0].1) {
                Ok(p) => Ok(p),
                Err((f, k)) => Err(PlaceError::InvalidUpstreamData(f, k)),
            }
        },
    }
}

/// The coordinate texts of each geocoding result.
pub open spec fn candidates_view(v: Seq<PlaceCandidate>) -> Seq<(Seq<char>, Seq<char>)> {
    v.map_values(|p: PlaceCandidate| (p.lat@, p.lon@))
}

/// Picks the point of a place search from the geocoding answer: the first
/// result is authoritative.
pub fn select_place(results: Option<&Vec<PlaceCandidate>>) -> (r: Result<Coordinate, PlaceError>)
    ensures
        match results {
            None => r == Err::<Coordinate, PlaceError>(PlaceError::UpstreamFailure),
            Some(v) => match r {
                Ok(c) => c.wf() && place_outcome(Some(candidates_view(v@))) == Ok::<
                    (int, int),
                    PlaceError,
                >((c.lat_e7 as int, c.lon_e7 as int)),
                Err(e) => place_outcome(Some(candidates_view(v@))) == Err::<(int, int), PlaceError>(
                    e,
                ),
            },
        },
{
    match results {
        None => Err(PlaceError::UpstreamFailure),
        Some(v) => {
            if v.len() == 0 {
                return Err(PlaceError::NotFound);
            }
            let first = &v[0];
            match parse(first.lat.as_str(), first.lon.as_str()) {
                Ok(c) => Ok(c),
                Err(e) => Err(PlaceError::InvalidUpstreamData(e.field, e.kind)),
            }
        },
    }
}

} // verus!
