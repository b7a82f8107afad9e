use vstd::prelude::*;

use crate::number::{is_decimal, read_outcome, read_scaled, within, NumberError, SCALE};

verus! {

/// Largest latitude, in degrees.
pub const LAT_LIMIT: u64 = 90;

/// Largest longitude, in degrees.
pub const LON_LIMIT: u64 = 180;

/// Largest latitude in units of `1 / SCALE` degree.
pub const LAT_MAX_E7: i64 = 900_000_000;

/// Largest longitude in units of `1 / SCALE` degree.
pub const LON_MAX_E7: i64 = 1_800_000_000;

/// A validated point on the globe, in units of one ten-millionth of a degree.
#[derive(Clone, Copy, Debug, PartialEq, Eq, Structural)]
pub struct Coordinate {
    pub lat_e7: i64,
    pub lon_e7: i64,
}

/// The two fields of a coordinate query.
#[derive(Clone, Copy, Debug, PartialEq, Eq, Structural)]
pub enum Field {
    Latitude,
    Longitude,
}

/// A field that could not be read as a coordinate value, with its text.
#[derive(Clone, Debug)]
pub struct ParseError {
    pub field: Field,
    pub raw_value: String,
    pub kind: NumberError,
}

impl Coordinate {
    /// Both components lie in their ranges.
    pub open spec fn wf(&self) -> bool {
        &&& -LAT_MAX_E7 <= self.lat_e7 <= LAT_MAX_E7
        &&& -LON_MAX_E7 <= self.lon_e7 <= LON_MAX_E7
    }

    /// Builds a coordinate from fixed-point components, when both are in range.
    pub fn new(lat_e7: i64, lon_e7: i64) -> (r: Option<Coordinate>)
        ensures
            r matches Some(c) ==> c.wf() && c.lat_e7 == lat_e7 && c.lon_e7 == lon_e7,
            r is None <==> !(-LAT_MAX_E7 <= lat_e7 <= LAT_MAX_E7 && -LON_MAX_E7 <= lon_e7
                <= LON_MAX_E7),
    {
        if -LAT_MAX_E7 <= lat_e7 && lat_e7 <= LAT_MAX_E7 && -LON_MAX_E7 <= lon_e7 && lon_e7
            <= LON_MAX_E7 {
            Some(Coordinate { lat_e7, lon_e7 })
        } else {
            None
        }
    }

    /// Latitude in units of one ten-millionth of a degree.
    pub fn latitude_e7(&self) -> (r: i64)
        ensures
            r == self.lat_e7,
    {
        self.lat_e7
    }

    /// Longitude in units of one ten-millionth of a degree.
    pub fn longitude_e7(&self) -> (r: i64)
        ensures
            r == self.lon_e7,
    {
        self.lon_e7
    }
}

/// The outcome of parsing a latitude text and a longitude text: the two
/// fixed-point values, or the first field that fails with its reason.
pub open spec fn parse_outcome(lat: Seq<char>, lon: Seq<char>) -> Result<
    (int, int),
    (Field, NumberError),
> {
    match read_outcome(lat, LAT_LIMIT as nat) {
        Err(e) => Err((Field::Latitude, e)),
        Ok(a) => match read_outcome(lon, LON_LIMIT as nat) {
            Err(e) => Err((Field::Longitude, e)),
            Ok(b) => Ok((a, b)),
        },
    }
}

/// What a parse result says, in the terms of `parse_outcome`.
pub open spec fn parse_result_view(r: Result<Coordinate, ParseError>) -> Result<
    (int, int),
    (Field, NumberError),
> {
    match r {
        Ok(c) => Ok((c.lat_e7 as int, c.lon_e7 as int)),
        Err(e) => Err((e.field, e.kind)),
    }
}

/// Parses a latitude and a longitude given as decimal texts.
pub fn parse(lat_raw: &str, lon_raw: &str) -> (r: Result<Coordinate, ParseError>)
    ensures
        parse_result_view(r) == parse_outcome(lat_raw@, lon_raw@),
        r matches Ok(c) ==> c.wf(),
        r matches Err(e) ==> e.raw_value@ == (if e.field == Field::Latitude {
            lat_raw@
        } else {
            lon_raw@
        }),
{
    let lat = match read_scaled(lat_raw, LAT_LIMIT) {
        Ok(v) => v,
        Err(kind) => {
            return Err(ParseError { field: Field::Latitude, raw_value: lat_raw.to_owned(), kind });
        },
    };
    let lon = match read_scaled(lon_raw, LON_LIMIT) {
        Ok(v) => v,
        Err(kind) => {
            return Err(
                ParseError { field: Field::Longitude, raw_value: lon_raw.to_owned(), kind },
            );
        },
    };
    assert(LAT_LIMIT * SCALE == LAT_MAX_E7 && LON_LIMIT * SCALE == LON_MAX_E7);
    Ok(Coordinate { lat_e7: lat, lon_e7: lon })
}

/// A latitude beyond 90° or a longitude beyond 180° in absolute value is
/// refused as out of range, so no such point is ever produced.
pub proof fn out_of_range_is_rejected(lat: Seq<char>, lon: Seq<char>)
    requires
        is_decimal(lat),
        is_decimal(lon),
        !within(lat, LAT_LIMIT as nat) || !within(lon, LON_LIMIT as nat),
    ensures
        parse_outcome(lat, lon) is Err,
        parse_outcome(lat, lon)->Err_0.1 == NumberError::OutOfRange,
        !within(lat, LAT_LIMIT as nat) ==> parse_outcome(lat, lon)->Err_0.0 == Field::Latitude,
{
}

/// A text that is not a decimal number is refused, and the error names the
/// field it was given for.
pub proof fn non_numeric_is_rejected(lat: Seq<char>, lon: Seq<char>)
    requires
        !is_decimal(lat) || !is_decimal(lon),
    ensures
        parse_outcome(lat, lon) is Err,
        !is_decimal(lat) ==> parse_outcome(lat, lon) == Err::<(int, int), (Field, NumberError)>(
            (Field::Latitude, NumberError::NotANumber),
        ),
        read_outcome(lat, LAT_LIMIT as nat) is Ok ==> parse_outcome(lat, lon) == Err::<
            (int, int),
            (Field, NumberError),
        >((Field::Longitude, NumberError::NotANumber)),
{
}

} // verus!
