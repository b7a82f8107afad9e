use vstd::prelude::*;

use crate::coord::{parse, parse_outcome, Coordinate, Field, ParseError, LON_MAX_E7};
use crate::number::NumberError;

verus! {

/// Width of one nautical time zone, in units of `1 / SCALE` degree (15°).
pub const ZONE_WIDTH_E7: u64 = 150_000_000;

/// An IANA time zone identifier.
#[derive(Clone, Debug)]
pub struct TimezoneId {
    pub name: String,
}

impl View for TimezoneId {
    type V = Seq<char>;

    open spec fn view(&self) -> Seq<char> {
        self.name@
    }
}

impl TimezoneId {
    /// The identifier as text.
    pub fn as_str(&self) -> (r: &str)
        ensures
            r@ == self@,
    {
        self.name.as_str()
    }
}

/// The nautical zone of a longitude: whole hours east of Greenwich, each zone
/// 15° wide and centred on a multiple of 15°.
pub open spec fn offset_hours(lon_e7: int) -> int {
    (lon_e7 + ZONE_WIDTH_E7 / 2) / (ZONE_WIDTH_E7 as int)
}

/// The text of a decimal digit.
pub open spec fn digit_char(d: nat) -> char {
    seq!['0', '1', '2', '3', '4', '5', '6', '7', '8', '9'][d as int]
}

/// The decimal text of an hour count below twenty.
pub open spec fn hours_text(n: nat) -> Seq<char> {
    if n < 10 {
        seq![digit_char(n)]
    } else {
        seq!['1', digit_char((n - 10) as nat)]
    }
}

/// The `Etc/GMT` prefix shared by the fixed-offset zones.
pub open spec fn gmt_prefix() -> Seq<char> {
    seq!['E', 't', 'c', '/', 'G', 'M', 'T']
}

/// The fixed-offset zone for `h` hours east of Greenwich. The database
/// writes the sign inverted: `Etc/GMT-1` is one hour ahead of UTC.
pub open spec fn fixed_zone_name(h: int) -> Seq<char> {
    if h == 0 {
        gmt_prefix()
    } else if h > 0 {
        gmt_prefix() + seq!['-'] + hours_text(h as nat)
    } else {
        gmt_prefix() + seq!['+'] + hours_text((-h) as nat)
    }
}

/// The zone of a point: the one the index found, or the nautical zone of its
/// longitude where the index found none.
pub open spec fn zone_name(lon_e7: int, found: Seq<char>) -> Seq<char> {
    if found.len() == 0 {
        fixed_zone_name(offset_hours(lon_e7))
    } else {
        found
    }
}

fn digit_str(d: u64) -> (r: &'static str)
    requires
        d < 10,
    ensures
        r@ == seq![digit_char(d as nat)],
{
    let r = match d {
        0 => "0",
        1 => "1",
        2 => "2",
        3 => "3",
        4 => "4",
        5 => "5",
        6 => "6",
        7 => "7",
        8 => "8",
        _ => "9",
    };
    proof {
        reveal_strlit("0");
        reveal_strlit("1");
        reveal_strlit("2");
        reveal_strlit("3");
        reveal_strlit("4");
        reveal_strlit("5");
        reveal_strlit("6");
        reveal_strlit("7");
        reveal_strlit("8");
        reveal_strlit("9");
        assert(r@ =~= seq![digit_char(d as nat)]);
    }
    r
}

/// The nautical zone hours of a longitude; always in `-12..=12`.
pub fn nautical_offset(lon_e7: i64) -> (r: i64)
    requires
        -LON_MAX_E7 <= lon_e7 <= LON_MAX_E7,
    ensures
        r == offset_hours(lon_e7 as int),
        -12 <= r <= 12,
{
    let shifted: u64 = (lon_e7 + LON_MAX_E7) as u64 + ZONE_WIDTH_E7 / 2;
    let q: u64 = shifted / ZONE_WIDTH_E7;
    proof {
        let x = lon_e7 as int + ZONE_WIDTH_E7 / 2;
        assert((x + 12 * ZONE_WIDTH_E7) / (ZONE_WIDTH_E7 as int) == x / (ZONE_WIDTH_E7 as int)
            + 12) by (nonlinear_arith);
    }
    q as i64 - 12
}

/// The fixed-offset zone for `h` hours east of Greenwich.
pub fn fixed_zone(h: i64) -> (r: TimezoneId)
    requires
        -12 <= h <= 12,
    ensures
        r@ == fixed_zone_name(h as int),
{
    let mut name = String::from_str("Etc/GMT");
    proof {
        reveal_strlit("Etc/GMT");
        reveal_strlit("-");
        reveal_strlit("+");
        assert(name@ =~= gmt_prefix());
    }
    if h == 0 {
        return TimezoneId { name };
    }
    let n: u64 = if h > 0 {
        name.append("-");
        h as u64
    } else {
        name.append("+");
        (-h) as u64
    };
    if n >= 10 {
        name.append("1");
        name.append(digit_str(n - 10));
        proof {
            reveal_strlit("1");
        }
    } else {
        name.append(digit_str(n));
    }
    let r = TimezoneId { name };
    assert(r@ =~= fixed_zone_name(h as int));
    r
}

/// The zone of `c` given what the index returned for it (empty where no
/// region covers the point).
pub fn zone_for(c: &Coordinate, found: &str) -> (r: TimezoneId)
    requires
        c.wf(),
    ensures
        r@ == zone_name(c.lon_e7 as int, found@),
{
    if found.is_empty() {
        fixed_zone(nautical_offset(c.lon_e7))
    } else {
        TimezoneId { name: found.to_owned() }
    }
}

/// Resolves a latitude text and a longitude text to a time zone: parses them,
/// asks `lookup` (the spatial index) for the zone of the point, and falls back
/// to the nautical zone where it returns an empty name. Parse errors are
/// returned as they are; `lookup` is then not called.
pub fn get_tz_name<F: Fn(Coordinate) -> String>(lat_raw: &str, lon_raw: &str, lookup: F) -> (r: Result<
    TimezoneId,
    ParseError,
>)
    requires
        forall|c: Coordinate| c.wf() ==> lookup.requires((c,)),
    ensures
        match parse_outcome(lat_raw@, lon_raw@) {
            Err((f, k)) => r matches Err(e) && e.field == f && e.kind == k && e.raw_value@ == (
            if f == Field::Latitude {
                lat_raw@
            } else {
                lon_raw@
            }),
            Ok((a, b)) => r matches Ok(z) && exists|found: String|
                lookup.ensures(
                    (Coordinate { lat_e7: a as i64, lon_e7: b as i64 },),
                    found,
                ) && z@ == zone_name(b, found@),
        },
{
    let c = parse(lat_raw, lon_raw)?;
    let found = lookup(c);
    Ok(zone_for(&c, found.as_str()))
}

/// The resolved zone is a function of the point and of the index's answer
/// alone: equal inputs give equal identifiers.
pub proof fn zone_is_deterministic(c1: Coordinate, c2: Coordinate, f1: Seq<char>, f2: Seq<char>)
    requires
        c1 == c2,
        f1 == f2,
    ensures
        zone_name(c1.lon_e7 as int, f1) == zone_name(c2.lon_e7 as int, f2),
{
}

/// Every point gets a non-empty zone name, whatever the index answered.
pub proof fn zone_is_never_empty(c: Coordinate, found: Seq<char>)
    requires
        c.wf(),
    ensures
        zone_name(c.lon_e7 as int, found).len() > 0,
{
}

/// Where the index finds no region, the zone is a fixed-offset zone of at
/// most twelve hours, as the time zone database provides.
pub proof fn fallback_is_fixed_zone(c: Coordinate)
    requires
        c.wf(),
    ensures
        -12 <= offset_hours(c.lon_e7 as int) <= 12,
        zone_name(c.lon_e7 as int, Seq::empty()) == fixed_zone_name(offset_hours(c.lon_e7 as int)),
{
    assert(-12 <= offset_hours(c.lon_e7 as int) <= 12) by (nonlinear_arith)
        requires
            -LON_MAX_E7 <= c.lon_e7 <= LON_MAX_E7,
    ;
}

} // verus!
