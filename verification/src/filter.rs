use vstd::prelude::*;
use crate::datetime::DateTime;
use crate::datetime::weekday_of;

verus! {

/// The fixed set of midtown pickup location identifiers.
pub open spec fn midtown_spec(loc: u16) -> bool {
    loc == 90 || loc == 100 || loc == 161 || loc == 162 || loc == 163 || loc == 164 || loc == 186
        || loc == 230 || loc == 234
}

/// The JFK airport dropoff location identifier.
pub open spec fn jfk_spec(loc: u16) -> bool {
    loc == 132
}

/// The day of the week of the date-time is Monday through Friday.
pub open spec fn weekday_spec(dt: DateTime) -> bool {
    weekday_of(dt) <= 5
}

/// Decides whether a pickup location lies in the midtown set.
pub fn is_in_middtown(loc: u16) -> (r: bool)
    ensures
        r == midtown_spec(loc),
{
    loc == 90 || loc == 100 || loc == 161 || loc == 162 || loc == 163 || loc == 164 || loc == 186
        || loc == 230 || loc == 234
}

/// Decides whether a dropoff location is JFK airport.
pub fn is_jfk_airport(loc: u16) -> (r: bool)
    ensures
        r == jfk_spec(loc),
{
    loc == 132
}

/// Decides whether a date-time falls on a weekday (Monday = 1 ... Sunday = 7,
/// weekdays are the days numbered at most 5).
pub fn is_weekday(datetime: &DateTime) -> (r: bool)
    requires
        datetime.valid(),
    ensures
        r == weekday_spec(*datetime),
{
    datetime.number_from_monday() <= 5
}

} // verus!
