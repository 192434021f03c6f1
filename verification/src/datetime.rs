use vstd::prelude::*;

verus! {

/// Error for a timestamp that is not of the form `YYYY-MM-DD HH:MM:SS`
/// or does not name a real calendar date-time.
#[derive(Clone, Copy, Debug, PartialEq, Eq, Structural)]
pub struct ParseError;

/// A naive local date-time with second precision.
#[derive(Clone, Copy, Debug, PartialEq, Eq, Structural)]
pub struct DateTime {
    pub year: u16,
    pub month: u8,
    pub day: u8,
    pub hour: u8,
    pub minute: u8,
    pub second: u8,
}

pub open spec fn leap_year(y: int) -> bool {
    y % 4 == 0 && (y % 100 != 0 || y % 400 == 0)
}

pub open spec fn days_in_month(y: int, m: int) -> int {
    if m == 2 {
        if leap_year(y) {
            29
        } else {
            28
        }
    } else if m == 4 || m == 6 || m == 9 || m == 11 {
        30
    } else {
        31
    }
}

/// Count of days from a fixed origin to the given proleptic-Gregorian date.
/// The year is shifted by 2800 (a whole number of 400-year cycles, which
/// leaves both leap years and weekdays unchanged) so that every intermediate
/// quantity stays non-negative for years 0 through 9999.
pub open spec fn day_number_of(y: int, m: int, d: int) -> int {
    let yc = y + 2800;
    let yp = if m <= 2 {
        yc - 1
    } else {
        yc
    };
    let era = yp / 400;
    let yoe = yp % 400;
    let mp = if m <= 2 {
        m + 9
    } else {
        m - 3
    };
    let doy = (153 * mp + 2) / 5 + d - 1;
    let doe = yoe * 365 + yoe / 4 - yoe / 100 + doy;
    era * 146097 + doe
}

/// Seconds from the fixed origin to the given date-time.
pub open spec fn epoch_secs_of(dt: DateTime) -> int {
    day_number_of(dt.year as int, dt.month as int, dt.day as int) * 86400 + dt.hour as int * 3600
        + dt.minute as int * 60 + dt.second as int
}

/// Day of the week, Monday = 1 through Sunday = 7.
pub open spec fn weekday_of(dt: DateTime) -> int {
    (day_number_of(dt.year as int, dt.month as int, dt.day as int) + 2) % 7 + 1
}

/// `b - a` reduced to an unsigned 64-bit value, as a two's-complement
/// subtraction of second counts would produce.
pub open spec fn wrapped_diff(a: int, b: int) -> u64 {
    ((b - a) % 0x1_0000_0000_0000_0000) as u64
}

/// Trip duration in whole seconds as an unsigned value: negative spans wrap.
pub open spec fn duration_of(pickup: DateTime, dropoff: DateTime) -> u64 {
    wrapped_diff(epoch_secs_of(pickup), epoch_secs_of(dropoff))
}

impl DateTime {
    /// The components name a real calendar date-time with a four-digit year.
    pub open spec fn valid(self) -> bool {
        self.year <= 9999 && 1 <= self.month <= 12 && 1 <= self.day && self.day as int
            <= days_in_month(self.year as int, self.month as int) && self.hour <= 23 && self.minute
            <= 59 && self.second <= 59
    }

    /// Day count of this date; see `day_number_of`.
    pub fn day_number(&self) -> (n: u64)
        requires
            self.valid(),
        ensures
            n as int == day_number_of(self.year as int, self.month as int, self.day as int),
            n <= 4675106,
    {
        let yc: u64 = self.year as u64 + 2800;
        let yp: u64 = if self.month <= 2 {
            yc - 1
        } else {
            yc
        };
        let era: u64 = yp / 400;
        let yoe: u64 = yp % 400;
        let mp: u64 = if self.month <= 2 {
            self.month as u64 + 9
        } else {
            self.month as u64 - 3
        };
        let doy: u64 = (153 * mp + 2) / 5 + self.day as u64 - 1;
        let doe: u64 = yoe * 365 + yoe / 4 - yoe / 100 + doy;
        era * 146097 + doe
    }

    /// Seconds from the fixed origin to this date-time.
    pub fn epoch_seconds(&self) -> (s: u64)
        requires
            self.valid(),
        ensures
            s as int == epoch_secs_of(*self),
            s <= 403929302399,
    {
        self.day_number() * 86400 + self.hour as u64 * 3600 + self.minute as u64 * 60
            + self.second as u64
    }

    /// Day of the week of this date, Monday = 1 through Sunday = 7.
    pub fn number_from_monday(&self) -> (w: u8)
        requires
            self.valid(),
        ensures
            w as int == weekday_of(*self),
            1 <= w <= 7,
    {
        (((self.day_number() + 2) % 7) + 1) as u8
    }
}

/// Seconds from `pickup` to `dropoff` as an unsigned value; a dropoff before
/// the pickup wraps around to a huge value.
pub fn duration_seconds(pickup: &DateTime, dropoff: &DateTime) -> (d: u64)
    requires
        pickup.valid(),
        dropoff.valid(),
    ensures
        d == duration_of(*pickup, *dropoff),
{
    let p: u64 = pickup.epoch_seconds();
    let q: u64 = dropoff.epoch_seconds();
    if q >= p {
        q - p
    } else {
        u64::MAX - (p - q) + 1
    }
}

pub open spec fn is_digit(c: char) -> bool {
    48 <= c as int <= 57
}

pub open spec fn digit_val(c: char) -> int {
    c as int - 48
}

pub open spec fn two_digits(s: Seq<char>, i: int) -> int {
    digit_val(s[i]) * 10 + digit_val(s[i + 1])
}

/// The nineteen characters have digits and separators exactly where the
/// format `YYYY-MM-DD HH:MM:SS` puts them.
pub open spec fn ts_shape_ok(s: Seq<char>) -> bool {
    s.len() == 19 && is_digit(s[0]) && is_digit(s[1]) && is_digit(s[2]) && is_digit(s[3]) && s[4]
        == '-' && is_digit(s[5]) && is_digit(s[6]) && s[7] == '-' && is_digit(s[8]) && is_digit(
        s[9],
    ) && s[10] == ' ' && is_digit(s[11]) && is_digit(s[12]) && s[13] == ':' && is_digit(s[14])
        && is_digit(s[15]) && s[16] == ':' && is_digit(s[17]) && is_digit(s[18])
}

/// The date-time spelled by a well-shaped timestamp.
pub open spec fn ts_fields(s: Seq<char>) -> DateTime {
    DateTime {
        year: (two_digits(s, 0) * 100 + two_digits(s, 2)) as u16,
        month: two_digits(s, 5) as u8,
        day: two_digits(s, 8) as u8,
        hour: two_digits(s, 11) as u8,
        minute: two_digits(s, 14) as u8,
        second: two_digits(s, 17) as u8,
    }
}

/// What parsing a textual timestamp yields: the spelled date-time when the
/// text has the exact shape and names a real calendar date-time, else nothing.
pub open spec fn parse_timestamp(s: Seq<char>) -> Option<DateTime> {
    if ts_shape_ok(s) && ts_fields(s).valid() {
        Some(ts_fields(s))
    } else {
        None
    }
}

/// Reads the two-digit number at positions `i` and `i + 1`.
fn read_two(s: &str, i: usize) -> (r: Option<u8>)
    requires
        i <= 17,
        i + 1 < s@.len(),
    ensures
        (match r {
            Some(v) => is_digit(s@[i as int]) && is_digit(s@[i as int + 1]) && v as int
                == two_digits(s@, i as int),
            None => !(is_digit(s@[i as int]) && is_digit(s@[i as int + 1])),
        }),
{
    let hi: u32 = s.get_char(i) as u32;
    let lo: u32 = s.get_char(i + 1) as u32;
    if 48 <= hi && hi <= 57 && 48 <= lo && lo <= 57 {
        Some(((hi - 48) * 10 + (lo - 48)) as u8)
    } else {
        None
    }
}

fn days_in_month_exec(y: u16, m: u8) -> (n: u8)
    requires
        1 <= m <= 12,
    ensures
        n as int == days_in_month(y as int, m as int),
{
    if m == 2 {
        if y % 4 == 0 && (y % 100 != 0 || y % 400 == 0) {
            29
        } else {
            28
        }
    } else if m == 4 || m == 6 || m == 9 || m == 11 {
        30
    } else {
        31
    }
}

/// Parses a textual timestamp in the exact format `YYYY-MM-DD HH:MM:SS`
/// (zero-padded components, 24-hour clock, no timezone).
pub fn parse_datetime(s: &str) -> (r: Result<DateTime, ParseError>)
    ensures
        (match r {
            Ok(dt) => parse_timestamp(s@) == Some(dt),
            Err(_) => parse_timestamp(s@) is None,
        }),
{
    if s.unicode_len() != 19 {
        return Err(ParseError);
    }
    if !(s.get_char(4) == '-' && s.get_char(7) == '-' && s.get_char(10) == ' ' && s.get_char(13)
        == ':' && s.get_char(16) == ':') {
        return Err(ParseError);
    }
    let parts: (Option<u8>, Option<u8>, Option<u8>, Option<u8>, Option<u8>, Option<u8>, Option<
        u8,
    >) = (
        read_two(s, 0),
        read_two(s, 2),
        read_two(s, 5),
        read_two(s, 8),
        read_two(s, 11),
        read_two(s, 14),
        read_two(s, 17),
    );
    match parts {
        (Some(yh), Some(yl), Some(mo), Some(da), Some(ho), Some(mi), Some(se)) => {
            let dt = DateTime {
                year: yh as u16 * 100 + yl as u16,
                month: mo,
                day: da,
                hour: ho,
                minute: mi,
                second: se,
            };
            if !(1 <= dt.month && dt.month <= 12) {
                return Err(ParseError);
            }
            if !(1 <= dt.day && dt.day <= days_in_month_exec(dt.year, dt.month)) {
                return Err(ParseError);
            }
            if !(dt.hour <= 23 && dt.minute <= 59 && dt.second <= 59) {
                return Err(ParseError);
            }
            Ok(dt)
        },
        _ => Err(ParseError),
    }
}

} // verus!
