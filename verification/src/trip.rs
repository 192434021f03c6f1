use vstd::prelude::*;
use vstd::multiset::Multiset;
use crate::datetime::DateTime;
use crate::datetime::digit_val;
use crate::datetime::duration_of;
use crate::datetime::is_digit;
use crate::datetime::parse_timestamp;
use crate::filter::jfk_spec;
use crate::filter::midtown_spec;
use crate::filter::weekday_spec;

verus! {

/// One data row of the input, reduced to the four required columns.
#[derive(Clone, Debug)]
pub struct Trip {
    pub pickup_datetime: String,
    pub dropoff_datetime: String,
    pub pickup_loc: u16,
    pub dropoff_loc: u16,
}

/// The mathematical view of a trip row.
pub struct TripView {
    pub pickup_datetime: Seq<char>,
    pub dropoff_datetime: Seq<char>,
    pub pickup_loc: u16,
    pub dropoff_loc: u16,
}

impl View for Trip {
    type V = TripView;

    open spec fn view(&self) -> TripView {
        TripView {
            pickup_datetime: self.pickup_datetime@,
            dropoff_datetime: self.dropoff_datetime@,
            pickup_loc: self.pickup_loc,
            dropoff_loc: self.dropoff_loc,
        }
    }
}

/// The trip's locations lie on the corridor: midtown pickup, JFK dropoff.
pub open spec fn trip_corridor(t: TripView) -> bool {
    jfk_spec(t.dropoff_loc) && midtown_spec(t.pickup_loc)
}

/// The row passes the full filter: corridor locations and a weekday pickup.
pub open spec fn trip_matched(t: TripView) -> bool {
    trip_corridor(t) && (match parse_timestamp(t.pickup_datetime) {
        Some(p) => weekday_spec(p),
        None => false,
    })
}

/// Processing the row does not abort the run: a timestamp is only read once
/// the cheaper checks before it have passed, and then it must parse.
pub open spec fn trip_processable(t: TripView) -> bool {
    !trip_corridor(t) || (match parse_timestamp(t.pickup_datetime) {
        Some(p) => !weekday_spec(p) || (match parse_timestamp(t.dropoff_datetime) {
            Some(_) => true,
            None => false,
        }),
        None => false,
    })
}

/// The pickup hour of day; meaningful only for a parseable pickup.
pub open spec fn trip_hour(t: TripView) -> int {
    match parse_timestamp(t.pickup_datetime) {
        Some(p) => p.hour as int,
        None => 24,
    }
}

/// The trip duration in seconds; meaningful only when both timestamps parse.
pub open spec fn trip_duration(t: TripView) -> u64 {
    match (parse_timestamp(t.pickup_datetime), parse_timestamp(t.dropoff_datetime)) {
        (Some(p), Some(q)) => duration_of(p, q),
        _ => 0,
    }
}

/// A duration the histograms accept.
pub open spec fn duration_ok(d: u64) -> bool {
    1200 <= d <= 10800
}

/// A matched row whose duration failed validation.
pub open spec fn trip_skipped(t: TripView) -> bool {
    trip_matched(t) && (match parse_timestamp(t.dropoff_datetime) {
        Some(_) => !duration_ok(trip_duration(t)),
        None => false,
    })
}

/// A matched row whose duration entered a histogram.
pub open spec fn trip_recorded(t: TripView) -> bool {
    trip_matched(t) && (match parse_timestamp(t.dropoff_datetime) {
        Some(_) => duration_ok(trip_duration(t)),
        None => false,
    })
}

pub open spec fn matched_pred() -> spec_fn(TripView) -> bool {
    |t: TripView| trip_matched(t)
}

pub open spec fn skipped_pred() -> spec_fn(TripView) -> bool {
    |t: TripView| trip_skipped(t)
}

pub open spec fn hour_pred(h: int) -> spec_fn(TripView) -> bool {
    |t: TripView| trip_recorded(t) && trip_hour(t) == h
}

/// Count of rows passing the full filter; order-free by construction.
pub open spec fn matched_count(rows: Seq<TripView>) -> nat {
    rows.to_multiset().filter(matched_pred()).len()
}

/// Count of matched rows whose duration failed validation.
pub open spec fn skipped_count(rows: Seq<TripView>) -> nat {
    rows.to_multiset().filter(skipped_pred()).len()
}

/// Count of rows recorded under the given hour.
pub open spec fn hour_count(rows: Seq<TripView>, h: int) -> nat {
    rows.to_multiset().filter(hour_pred(h)).len()
}

/// The multiset of durations recorded under the given hour.
pub open spec fn hour_durations(rows: Seq<TripView>, h: int) -> Multiset<u64>
    decreases rows.len(),
{
    if rows.len() == 0 {
        Multiset::empty()
    } else {
        let m = hour_durations(rows.drop_last(), h);
        let t = rows.last();
        if trip_recorded(t) && trip_hour(t) == h {
            m.insert(trip_duration(t))
        } else {
            m
        }
    }
}

/// No row of the sequence aborts the run.
pub open spec fn processable_all(rows: Seq<TripView>) -> bool {
    forall|i: int| 0 <= i < rows.len() ==> trip_processable(#[trigger] rows[i])
}

/// Appending a row raises a filtered count by one exactly when the row
/// satisfies the predicate.
pub proof fn lemma_filter_count_push(rows: Seq<TripView>, t: TripView, f: spec_fn(TripView) -> bool)
    ensures
        rows.push(t).to_multiset().filter(f).len() == rows.to_multiset().filter(f).len() + (if f(t) {
            1nat
        } else {
            0nat
        }),
{
    broadcast use vstd::multiset::group_multiset_axioms;
    broadcast use vstd::seq_lib::group_to_multiset_ensures;

    let m = rows.to_multiset();
    assert(rows.push(t).to_multiset() =~= m.insert(t));
    if f(t) {
        assert(m.insert(t).filter(f) =~= m.filter(f).insert(t));
    } else {
        assert(m.insert(t).filter(f) =~= m.filter(f));
    }
}

/// Which required column an error is about.
#[derive(Clone, Copy, Debug, PartialEq, Eq, Structural)]
pub enum Column {
    PickupDatetime,
    DropoffDatetime,
    PickupLocation,
    DropoffLocation,
}

/// The header name of a required column.
pub open spec fn col_name(c: Column) -> Seq<char> {
    match c {
        Column::PickupDatetime => "tpep_pickup_datetime"@,
        Column::DropoffDatetime => "tpep_dropoff_datetime"@,
        Column::PickupLocation => "PULocationID"@,
        Column::DropoffLocation => "DOLocationID"@,
    }
}

/// A structural fault of the input: the run aborts on it.
#[derive(Clone, Debug, PartialEq, Eq)]
pub enum DecodeError {
    /// The row-oriented decoder itself rejected the input.
    Csv(String),
    /// The header lacks a required column.
    MissingColumn(Column),
    /// A location field is not an unsigned integer of at most 65535.
    BadLocation(Column),
}

/// Indexes of the four required columns within a header.
#[derive(Clone, Copy, Debug, PartialEq, Eq, Structural)]
pub struct ColumnMap {
    pub pickup_dt: usize,
    pub dropoff_dt: usize,
    pub pickup_loc: usize,
    pub dropoff_loc: usize,
}

impl ColumnMap {
    pub open spec fn within(self, n: int) -> bool {
        self.pickup_dt < n && self.dropoff_dt < n && self.pickup_loc < n && self.dropoff_loc < n
    }
}

/// `i` is the first index at which `name` stands in the header.
pub open spec fn found_at(hdr: Seq<Seq<char>>, name: Seq<char>, i: int) -> bool {
    &&& 0 <= i < hdr.len()
    &&& hdr[i] == name
    &&& forall|j: int| 0 <= j < i ==> hdr[j] != name
}

/// `hdr` holds no field named after the column.
pub open spec fn no_column(hdr: Seq<Seq<char>>, c: Column) -> bool {
    forall|i: int| 0 <= i < hdr.len() ==> hdr[i] != col_name(c)
}

/// The map names the first occurrence of each required column in the header.
pub open spec fn cols_resolved(hdr: Seq<Seq<char>>, cols: ColumnMap) -> bool {
    &&& found_at(hdr, col_name(Column::PickupDatetime), cols.pickup_dt as int)
    &&& found_at(hdr, col_name(Column::DropoffDatetime), cols.dropoff_dt as int)
    &&& found_at(hdr, col_name(Column::PickupLocation), cols.pickup_loc as int)
    &&& found_at(hdr, col_name(Column::DropoffLocation), cols.dropoff_loc as int)
}

/// Law: a header resolves to at most one column map, since a first
/// occurrence is unique.
pub proof fn lemma_cols_resolved_unique(hdr: Seq<Seq<char>>, a: ColumnMap, b: ColumnMap)
    requires
        cols_resolved(hdr, a),
        cols_resolved(hdr, b),
    ensures
        a == b,
{
    assert(a.pickup_dt == b.pickup_dt);
    assert(a.dropoff_dt == b.dropoff_dt);
    assert(a.pickup_loc == b.pickup_loc);
    assert(a.dropoff_loc == b.dropoff_loc);
}

/// The trip a record spells under a column map: nothing where the map
/// reaches past the record or a location field fails to parse.
pub open spec fn row_trip(fields: Seq<Seq<char>>, cols: ColumnMap) -> Option<TripView> {
    if !cols.within(fields.len() as int) {
        None
    } else {
        match (parse_loc(fields[cols.pickup_loc as int]), parse_loc(
            fields[cols.dropoff_loc as int],
        )) {
            (Some(pu), Some(dl)) => Some(
                TripView {
                    pickup_datetime: fields[cols.pickup_dt as int],
                    dropoff_datetime: fields[cols.dropoff_dt as int],
                    pickup_loc: pu,
                    dropoff_loc: dl,
                },
            ),
            _ => None,
        }
    }
}

/// The record decodes and its trip does not abort the run.
pub open spec fn row_ok(fields: Seq<Seq<char>>, cols: ColumnMap) -> bool {
    match row_trip(fields, cols) {
        Some(t) => trip_processable(t),
        None => false,
    }
}

/// The record decodes but its trip aborts the run on a timestamp.
pub open spec fn unprocessable_at(fields: Seq<Seq<char>>, cols: ColumnMap) -> bool {
    match row_trip(fields, cols) {
        Some(t) => !trip_processable(t),
        None => false,
    }
}

/// The decoded trip, or a placeholder where the record does not decode.
pub open spec fn row_view(fields: Seq<Seq<char>>, cols: ColumnMap) -> TripView {
    match row_trip(fields, cols) {
        Some(t) => t,
        None => TripView {
            pickup_datetime: Seq::empty(),
            dropoff_datetime: Seq::empty(),
            pickup_loc: 0,
            dropoff_loc: 0,
        },
    }
}

/// First index whose header field equals `name`.
fn find_column(hdrs: &Vec<String>, name: &String) -> (r: Option<usize>)
    ensures
        (match r {
            Some(i) => found_at(hdrs.deep_view(), name@, i as int),
            None => forall|i: int| 0 <= i < hdrs@.len() ==> (#[trigger] hdrs@[i])@ != name@,
        }),
{
    let n: usize = hdrs.len();
    let mut i: usize = 0;
    while i < n
        invariant
            n == hdrs@.len(),
            i <= n,
            forall|j: int| 0 <= j < i ==> (#[trigger] hdrs@[j])@ != name@,
        decreases n - i,
    {
        if hdrs[i] == *name {
            return Some(i);
        }
        i = i + 1;
    }
    None
}

/// A name absent under the element view is absent under the deep view.
proof fn lemma_absent(hdrs: &Vec<String>, name: Seq<char>)
    requires
        forall|i: int| 0 <= i < hdrs@.len() ==> (#[trigger] hdrs@[i])@ != name,
    ensures
        forall|i: int| 0 <= i < hdrs.deep_view().len() ==> #[trigger] hdrs.deep_view()[i] != name,
{
    assert forall|i: int|
        0 <= i < hdrs.deep_view().len() implies #[trigger] hdrs.deep_view()[i] != name by {
        assert(hdrs.deep_view()[i] == hdrs@[i]@);
    }
}

/// Locates the first occurrence of each of the four required columns in
/// the header, naming the first one missing otherwise.
pub fn resolve_columns(hdrs: &Vec<String>) -> (r: Result<ColumnMap, DecodeError>)
    ensures
        (match r {
            Ok(map) => cols_resolved(hdrs.deep_view(), map),
            Err(e) => (exists|c: Column|
                e == DecodeError::MissingColumn(c) && no_column(hdrs.deep_view(), c)),
        }),
{
    let pickup_name: String = "tpep_pickup_datetime".to_owned();
    let dropoff_name: String = "tpep_dropoff_datetime".to_owned();
    let pu_name: String = "PULocationID".to_owned();
    let do_name: String = "DOLocationID".to_owned();
    let pickup_dt: usize = match find_column(hdrs, &pickup_name) {
        Some(i) => i,
        None => {
            proof {
                lemma_absent(hdrs, col_name(Column::PickupDatetime));
                assert(no_column(hdrs.deep_view(), Column::PickupDatetime));
            }
            return Err(DecodeError::MissingColumn(Column::PickupDatetime));
        },
    };
    let dropoff_dt: usize = match find_column(hdrs, &dropoff_name) {
        Some(i) => i,
        None => {
            proof {
                lemma_absent(hdrs, col_name(Column::DropoffDatetime));
                assert(no_column(hdrs.deep_view(), Column::DropoffDatetime));
            }
            return Err(DecodeError::MissingColumn(Column::DropoffDatetime));
        },
    };
    let pickup_loc: usize = match find_column(hdrs, &pu_name) {
        Some(i) => i,
        None => {
            proof {
                lemma_absent(hdrs, col_name(Column::PickupLocation));
                assert(no_column(hdrs.deep_view(), Column::PickupLocation));
            }
            return Err(DecodeError::MissingColumn(Column::PickupLocation));
        },
    };
    let dropoff_loc: usize = match find_column(hdrs, &do_name) {
        Some(i) => i,
        None => {
            proof {
                lemma_absent(hdrs, col_name(Column::DropoffLocation));
                assert(no_column(hdrs.deep_view(), Column::DropoffLocation));
            }
            return Err(DecodeError::MissingColumn(Column::DropoffLocation));
        },
    };
    Ok(ColumnMap { pickup_dt, dropoff_dt, pickup_loc, dropoff_loc })
}

/// The text is one or more decimal digits.
pub open spec fn loc_digits_ok(s: Seq<char>) -> bool {
    s.len() >= 1 && forall|i: int| 0 <= i < s.len() ==> is_digit(#[trigger] s[i])
}

pub open spec fn digits_value(s: Seq<char>) -> int
    decreases s.len(),
{
    if s.len() == 0 {
        0
    } else {
        digits_value(s.drop_last()) * 10 + digit_val(s.last())
    }
}

/// What parsing a location field yields: its value when the text is all
/// digits and fits, else nothing.
pub open spec fn parse_loc(s: Seq<char>) -> Option<u16> {
    if loc_digits_ok(s) && digits_value(s) <= 65535 {
        Some(digits_value(s) as u16)
    } else {
        None
    }
}

/// A digit string's value is non-negative.
proof fn lemma_digits_nonneg(s: Seq<char>)
    requires
        forall|i: int| 0 <= i < s.len() ==> is_digit(#[trigger] s[i]),
    ensures
        0 <= digits_value(s),
    decreases s.len(),
{
    if s.len() > 0 {
        lemma_digits_nonneg(s.drop_last());
    }
}

/// A digit string's value only grows as digits are appended.
proof fn lemma_digits_prefix(s: Seq<char>, j: int)
    requires
        0 <= j <= s.len(),
        forall|i: int| 0 <= i < s.len() ==> is_digit(#[trigger] s[i]),
    ensures
        digits_value(s.take(j)) <= digits_value(s),
    decreases s.len() - j,
{
    if j == s.len() {
        assert(s.take(j) =~= s);
    } else {
        lemma_digits_prefix(s, j + 1);
        assert(s.take(j + 1).drop_last() =~= s.take(j));
        assert(s.take(j + 1).last() == s[j]);
        assert(forall|i: int| 0 <= i < j ==> is_digit(#[trigger] s.take(j)[i]));
        lemma_digits_nonneg(s.take(j));
        assert(digits_value(s.take(j + 1)) == digits_value(s.take(j)) * 10 + digit_val(s[j]));
    }
}

/// Parses a location field: one or more decimal digits valuing at most
/// 65535.
pub fn parse_u16(s: &str) -> (r: Option<u16>)
    ensures
        r == parse_loc(s@),
{
    let n: usize = s.unicode_len();
    if n == 0 {
        return None;
    }
    let mut i: usize = 0;
    let mut acc: u32 = 0;
    while i < n
        invariant
            n == s@.len(),
            i <= n,
            forall|j: int| 0 <= j < i ==> is_digit(#[trigger] s@[j]),
            acc as int == digits_value(s@.take(i as int)),
            acc <= 65535,
        decreases n - i,
    {
        let c: char = s.get_char(i);
        let v: u32 = c as u32;
        if v < 48 || v > 57 {
            return None;
        }
        proof {
            assert(s@.take(i as int + 1).drop_last() =~= s@.take(i as int));
            assert(s@.take(i as int + 1).last() == s@[i as int]);
        }
        let acc2: u32 = acc * 10 + (v - 48);
        if acc2 > 65535 {
            proof {
                if loc_digits_ok(s@) {
                    lemma_digits_prefix(s@, i as int + 1);
                }
            }
            return None;
        }
        acc = acc2;
        i = i + 1;
    }
    proof {
        assert(s@.take(n as int) =~= s@);
    }
    Some(acc as u16)
}

/// Decodes one row into a trip, taking the four fields the column map names;
/// a row too short for the map or a malformed location aborts the run.
pub fn decode_trip(fields: &Vec<String>, cols: &ColumnMap) -> (r: Result<Trip, DecodeError>)
    ensures
        (match r {
            Ok(t) => cols.within(fields@.len() as int) && t@.pickup_datetime
                == fields@[cols.pickup_dt as int]@ && t@.dropoff_datetime
                == fields@[cols.dropoff_dt as int]@ && Some(t@.pickup_loc) == parse_loc(
                fields@[cols.pickup_loc as int]@,
            ) && Some(t@.dropoff_loc) == parse_loc(fields@[cols.dropoff_loc as int]@),
            Err(e) => (match e {
                DecodeError::Csv(_) => false,
                DecodeError::MissingColumn(_) => !cols.within(fields@.len() as int),
                DecodeError::BadLocation(c) => cols.within(fields@.len() as int) && ((c
                    == Column::PickupLocation && parse_loc(fields@[cols.pickup_loc as int]@)
                    is None) || (c == Column::DropoffLocation && parse_loc(
                    fields@[cols.dropoff_loc as int]@,
                ) is None)),
            }),
        }),
{
    let n: usize = fields.len();
    if !(cols.pickup_dt < n && cols.dropoff_dt < n && cols.pickup_loc < n && cols.dropoff_loc
        < n) {
        return Err(DecodeError::MissingColumn(Column::PickupDatetime));
    }
    let pickup_loc: u16 = match parse_u16(fields[cols.pickup_loc].as_str()) {
        Some(v) => v,
        None => {
            return Err(DecodeError::BadLocation(Column::PickupLocation));
        },
    };
    let dropoff_loc: u16 = match parse_u16(fields[cols.dropoff_loc].as_str()) {
        Some(v) => v,
        None => {
            return Err(DecodeError::BadLocation(Column::DropoffLocation));
        },
    };
    let pickup_datetime: String = fields[cols.pickup_dt].clone();
    let dropoff_datetime: String = fields[cols.dropoff_dt].clone();
    Ok(Trip { pickup_datetime, dropoff_datetime, pickup_loc, dropoff_loc })
}

} // verus!
