use vstd::prelude::*;
use crate::datetime::DateTime;
use crate::datetime::ParseError;
use crate::datetime::parse_datetime;
use crate::filter::is_in_middtown;
use crate::filter::is_jfk_airport;
use crate::filter::is_weekday;
use crate::hist::DurationError;
use crate::hist::DurationHistograms;
use crate::laws::lemma_counts_ordered;
use crate::laws::lemma_filter_le_len;
use crate::laws::lemma_hour_durations_len;
use crate::laws::summary_matches;
use crate::stats::DisplayStats;
use crate::stats::RecordCounts;
use crate::trip::Column;
use crate::trip::ColumnMap;
use crate::trip::DecodeError;
use crate::trip::Trip;
use crate::trip::TripView;
use crate::trip::col_name;
use crate::trip::cols_resolved;
use crate::trip::decode_trip;
use crate::trip::hour_durations;
use crate::trip::lemma_cols_resolved_unique;
use crate::trip::lemma_filter_count_push;
use crate::trip::matched_count;
use crate::trip::matched_pred;
use crate::trip::no_column;
use crate::trip::parse_loc;
use crate::trip::processable_all;
use crate::trip::resolve_columns;
use crate::trip::row_ok;
use crate::trip::row_trip;
use crate::trip::row_view;
use crate::trip::skipped_count;
use crate::trip::skipped_pred;
use crate::trip::trip_duration;
use crate::trip::trip_hour;
use crate::trip::trip_processable;
use crate::trip::trip_recorded;
use crate::trip::trip_skipped;
use crate::trip::unprocessable_at;

verus! {

#[verifier::external_type_specification]
#[verifier::external_body]
#[verifier::reject_recursive_types(R)]
pub struct ExCsvReader<R>(csv::Reader<R>);

#[verifier::external_type_specification]
#[verifier::external_body]
pub struct ExCsvError(csv::Error);

/// What the row decoder makes of a byte document: the header's fields (or
/// nothing where the decoder rejects the header), the data records it
/// yields before the end or its first fault, and whether such a fault cuts
/// the document short (a rejected header counts as a fault).
pub uninterp spec fn csv_doc_of(data: Seq<u8>) -> (
    Option<Seq<Seq<char>>>,
    Seq<Seq<Seq<char>>>,
    bool,
);

/// The bytes a reader was created over.
pub uninterp spec fn reader_data(r: csv::Reader<&[u8]>) -> Seq<u8>;

/// Count of data records the reader has yielded so far.
pub uninterp spec fn reader_pos(r: csv::Reader<&[u8]>) -> int;

pub open spec fn csv_header_of(data: Seq<u8>) -> Option<Seq<Seq<char>>> {
    csv_doc_of(data).0
}

pub open spec fn csv_records_of(data: Seq<u8>) -> Seq<Seq<Seq<char>>> {
    csv_doc_of(data).1
}

pub open spec fn csv_faulted(data: Seq<u8>) -> bool {
    csv_doc_of(data).2
}

pub open spec fn header_width(data: Seq<u8>) -> int {
    match csv_header_of(data) {
        Some(h) => h.len() as int,
        None => 0,
    }
}

/// Relies on csv::Reader::from_reader: a fresh row-oriented reader over the
/// bytes with the default configuration (first row is the header, fields
/// comma-separated with the conventional quoting, every row as wide as the
/// header).
#[verifier::external_body]
fn csv_from_bytes<'a>(data: &'a [u8]) -> (r: csv::Reader<&'a [u8]>)
    ensures
        reader_data(r) == data@,
        reader_pos(r) == 0,
{
    csv::Reader::from_reader(data)
}

/// Relies on csv::Reader::headers: the header record, one owned field each,
/// or the decoder's fault with it; reading the header consumes no data
/// record.
#[verifier::external_body]
fn csv_headers(rdr: &mut csv::Reader<&[u8]>) -> (res: Result<Vec<String>, csv::Error>)
    requires
        reader_pos(*old(rdr)) == 0,
    ensures
        reader_data(*final(rdr)) == reader_data(*old(rdr)),
        reader_pos(*final(rdr)) == 0,
        ({
            let data = reader_data(*old(rdr));
            match res {
                Ok(h) => csv_doc_of(data).0 == Some(h.deep_view()),
                Err(_) => csv_doc_of(data).0 is None && csv_doc_of(data).2,
            }
        }),
{
    match rdr.headers() {
        Ok(h) => Ok(h.iter().map(|f| f.to_string()).collect()),
        Err(e) => Err(e),
    }
}

/// Relies on csv::Reader::read_record: before the end of the decoded
/// records it yields the record at the current position (as wide as the
/// header) and advances; at the end it reports end of input, or the
/// decoder's first fault.
#[verifier::external_body]
fn csv_next_record(rdr: &mut csv::Reader<&[u8]>) -> (res: Result<Option<Vec<String>>, csv::Error>)
    requires
        csv_doc_of(reader_data(*old(rdr))).0 is Some,
        0 <= reader_pos(*old(rdr)) <= csv_doc_of(reader_data(*old(rdr))).1.len(),
    ensures
        reader_data(*final(rdr)) == reader_data(*old(rdr)),
        ({
            let data = reader_data(*old(rdr));
            let recs = csv_doc_of(data).1;
            let pos = reader_pos(*old(rdr));
            match res {
                Ok(Some(f)) => pos < recs.len() && f.deep_view() == recs[pos] && f@.len() as int
                    == header_width(data) && reader_pos(*final(rdr)) == pos + 1,
                Ok(None) => pos == recs.len() && !csv_doc_of(data).2 && reader_pos(*final(rdr))
                    == pos,
                Err(_) => pos == recs.len() && csv_doc_of(data).2 && reader_pos(*final(rdr)) == pos
                    + 1,
            }
        }),
{
    let mut rec = csv::StringRecord::new();
    match rdr.read_record(&mut rec) {
        Ok(true) => Ok(Some(rec.iter().map(|f| f.to_string()).collect())),
        Ok(false) => Ok(None),
        Err(e) => Err(e),
    }
}

/// Relies on the Display implementation of csv::Error for a readable
/// message.
#[verifier::external_body]
fn csv_error_message(e: &csv::Error) -> String {
    format!("{}", e)
}

/// A fatal fault: the run aborts and no summary is produced.
#[derive(Clone, Debug, PartialEq, Eq)]
pub enum AnalyzeError {
    /// The input is structurally bad (see `DecodeError`).
    Decode(DecodeError),
    /// A timestamp of a row under consideration did not parse.
    Parse(ParseError),
    /// More rows than the 32-bit counters can number.
    TooManyRows,
}

/// One warning line's worth of information about a skipped row.
#[derive(Clone, Debug)]
pub struct Warning {
    /// 1-based input line, counting the header as line 1.
    pub line: u64,
    pub error: DurationError,
    pub trip: Trip,
}

/// The header of the document resolves to this column map.
pub open spec fn header_resolves(data: Seq<u8>, cols: ColumnMap) -> bool {
    match csv_header_of(data) {
        Some(hdr) => cols_resolved(hdr, cols),
        None => false,
    }
}

/// Every data record of the document decodes to a processable trip.
pub open spec fn rows_all_ok(data: Seq<u8>, cols: ColumnMap) -> bool {
    forall|i: int|
        0 <= i < csv_records_of(data).len() ==> row_ok(#[trigger] csv_records_of(data)[i], cols)
}

/// The trips spelled by the document's first `k` records.
pub open spec fn doc_rows_upto(data: Seq<u8>, cols: ColumnMap, k: int) -> Seq<TripView>
    recommends
        0 <= k <= csv_records_of(data).len(),
{
    Seq::new(k as nat, |i: int| row_view(csv_records_of(data)[i], cols))
}

/// The trips spelled by all of the document's records.
pub open spec fn doc_rows(data: Seq<u8>, cols: ColumnMap) -> Seq<TripView> {
    doc_rows_upto(data, cols, csv_records_of(data).len() as int)
}

/// The run accepts the document: the decoder takes all of it, the header
/// resolves, every record spells a processable trip, and the rows fit the
/// counters.
pub open spec fn doc_accepted(data: Seq<u8>, cols: ColumnMap) -> bool {
    &&& header_resolves(data, cols)
    &&& !csv_faulted(data)
    &&& csv_records_of(data).len() <= u32::MAX
    &&& rows_all_ok(data, cols)
}

/// The record's field for the location column fails to parse.
pub open spec fn bad_location_at(fields: Seq<Seq<char>>, cols: ColumnMap, c: Column) -> bool {
    &&& cols.within(fields.len() as int)
    &&& ((c == Column::PickupLocation && parse_loc(fields[cols.pickup_loc as int]) is None) || (c
        == Column::DropoffLocation && parse_loc(fields[cols.dropoff_loc as int]) is None))
}

/// What each error value says of the document it was raised on.
pub open spec fn error_cause(data: Seq<u8>, e: AnalyzeError) -> bool {
    match e {
        AnalyzeError::Decode(d) => match d {
            DecodeError::Csv(_) => csv_header_of(data) is None || (csv_faulted(data) && (exists|
                cols: ColumnMap,
            |
                #[trigger] header_resolves(data, cols) && rows_all_ok(data, cols))),
            DecodeError::MissingColumn(c) => match csv_header_of(data) {
                Some(hdr) => no_column(hdr, c),
                None => false,
            },
            DecodeError::BadLocation(c) => exists|cols: ColumnMap, i: int|
                header_resolves(data, cols) && 0 <= i < csv_records_of(data).len()
                    && #[trigger] bad_location_at(csv_records_of(data)[i], cols, c) && (forall|
                    j: int,
                |
                    0 <= j < i ==> row_ok(#[trigger] csv_records_of(data)[j], cols)),
        },
        AnalyzeError::Parse(_) => exists|cols: ColumnMap, i: int|
            header_resolves(data, cols) && 0 <= i < csv_records_of(data).len()
                && #[trigger] unprocessable_at(csv_records_of(data)[i], cols) && (forall|j: int|
                0 <= j < i ==> row_ok(#[trigger] csv_records_of(data)[j], cols)),
        AnalyzeError::TooManyRows => csv_records_of(data).len() > u32::MAX,
    }
}

/// The warning belongs to a skipped row: its line names that row and its
/// error carries the row's out-of-range duration.
pub open spec fn warning_matches(w: Warning, rows: Seq<TripView>) -> bool {
    &&& 2 <= w.line
    &&& w.line as int - 2 < rows.len()
    &&& trip_skipped(rows[w.line as int - 2])
    &&& w.error == (if trip_duration(rows[w.line as int - 2]) < 1200 {
        DurationError::TooShort(trip_duration(rows[w.line as int - 2]))
    } else {
        DurationError::TooLong(trip_duration(rows[w.line as int - 2]))
    })
}

/// One warning per skipped row, in input order.
pub open spec fn warnings_ok(ws: Seq<Warning>, rows: Seq<TripView>) -> bool {
    &&& ws.len() == skipped_count(rows)
    &&& forall|k: int, l: int| 0 <= k < l < ws.len() ==> ws[k].line < ws[l].line
    &&& forall|k: int| 0 <= k < ws.len() ==> warning_matches(#[trigger] ws[k], rows)
}

/// The streaming state of a run: the counters and the histograms, fed one
/// decoded row at a time.
pub struct Analyzer {
    counts: RecordCounts,
    hists: DurationHistograms,
    history: Ghost<Seq<TripView>>,
}

impl Analyzer {
    /// The rows processed so far.
    pub closed spec fn rows(self) -> Seq<TripView> {
        self.history@
    }

    pub closed spec fn wf(self) -> bool {
        &&& self.hists.wf()
        &&& processable_all(self.rows())
        &&& self.counts.read as nat == self.rows().len()
        &&& self.counts.matched as nat == matched_count(self.rows())
        &&& self.counts.skipped as nat == skipped_count(self.rows())
        &&& forall|h: int|
            0 <= h < 24 ==> #[trigger] self.hists.contents(h) == hour_durations(self.rows(), h)
    }

    pub fn new() -> (r: Self)
        ensures
            r.wf(),
            r.rows() == Seq::<TripView>::empty(),
    {
        let r = Analyzer {
            counts: RecordCounts::default(),
            hists: DurationHistograms::new(),
            history: Ghost(Seq::empty()),
        };
        proof {
            broadcast use vstd::seq_lib::group_to_multiset_ensures;

            let rows = Seq::<TripView>::empty();
            lemma_filter_le_len(rows.to_multiset(), matched_pred());
            lemma_filter_le_len(rows.to_multiset(), skipped_pred());
        }
        r
    }

    /// Runs one decoded row through the filter and, when it matches, the
    /// duration validation and histograms; a warning reports a skipped row.
    /// An unparseable timestamp aborts: the state is left as it was.
    pub fn process_trip(&mut self, trip: &Trip) -> (res: Result<Option<Warning>, ParseError>)
        requires
            old(self).wf(),
            old(self).rows().len() < u32::MAX,
        ensures
            final(self).wf(),
            (match res {
                Ok(w) => trip_processable(trip@) && final(self).rows() == old(self).rows().push(
                    trip@,
                ) && (match w {
                    Some(warning) => trip_skipped(trip@) && warning.line == old(
                        self,
                    ).rows().len() as u64 + 2 && warning.error == (if trip_duration(trip@) < 1200 {
                        DurationError::TooShort(trip_duration(trip@))
                    } else {
                        DurationError::TooLong(trip_duration(trip@))
                    }),
                    None => !trip_skipped(trip@),
                }),
                Err(_) => !trip_processable(trip@) && *final(self) == *old(self),
            }),
    {
        let ghost prev = self.history@;
        let ghost t = trip@;
        proof {
            lemma_counts_ordered(prev);
            lemma_filter_count_push(prev, t, matched_pred());
            lemma_filter_count_push(prev, t, skipped_pred());
            assert(prev.push(t).drop_last() =~= prev);
        }
        if !(is_jfk_airport(trip.dropoff_loc) && is_in_middtown(trip.pickup_loc)) {
            self.counts.read = self.counts.read + 1;
            proof {
                self.history@ = prev.push(t);
            }
            return Ok(None);
        }
        let pickup: DateTime = match parse_datetime(trip.pickup_datetime.as_str()) {
            Ok(p) => p,
            Err(e) => {
                return Err(e);
            },
        };
        if !is_weekday(&pickup) {
            self.counts.read = self.counts.read + 1;
            proof {
                self.history@ = prev.push(t);
            }
            return Ok(None);
        }
        let dropoff: DateTime = match parse_datetime(trip.dropoff_datetime.as_str()) {
            Ok(q) => q,
            Err(e) => {
                return Err(e);
            },
        };
        self.counts.read = self.counts.read + 1;
        self.counts.matched = self.counts.matched + 1;
        proof {
            lemma_hour_durations_len(prev, pickup.hour as int);
        }
        match self.hists.record_duration(&pickup, &dropoff) {
            Ok(()) => {
                proof {
                    self.history@ = prev.push(t);
                    assert(trip_recorded(t) && trip_hour(t) == pickup.hour as int && trip_duration(
                        t,
                    ) == crate::datetime::duration_of(pickup, dropoff));
                }
                Ok(None)
            },
            Err(e) => {
                self.counts.skipped = self.counts.skipped + 1;
                let line: u64 = self.counts.read as u64 + 1;
                proof {
                    self.history@ = prev.push(t);
                    assert(trip_skipped(t) && !trip_recorded(t));
                }
                Ok(Some(Warning { line, error: e, trip: trip.clone() }))
            },
        }
    }

    /// The count of rows read so far.
    pub fn counts_read(&self) -> (n: u32)
        requires
            self.wf(),
        ensures
            n as nat == self.rows().len(),
    {
        self.counts.read
    }

    /// Projects the state to the output document.
    pub fn finalize(&self) -> (out: DisplayStats)
        requires
            self.wf(),
        ensures
            summary_matches(self.rows(), out),
    {
        DisplayStats::new(self.counts, &self.hists)
    }
}

/// A field list's deep view indexes to the views of its fields.
proof fn lemma_fields_deep(fields: &Vec<String>)
    ensures
        fields.deep_view().len() == fields@.len(),
        forall|i: int| 0 <= i < fields@.len() ==> #[trigger] fields.deep_view()[i] == fields@[i]@,
{
}

/// Analyzes a whole comma-separated document held in memory: decodes the
/// header and each row in turn, streams them through an `Analyzer`, and
/// returns the summary of exactly the document's rows with the warnings of
/// the skipped ones; it fails if and only if the document is not accepted,
/// with the error naming the first fault found.
pub fn analyze(data: &[u8]) -> (res: Result<(DisplayStats, Vec<Warning>), AnalyzeError>)
    ensures
        (match res {
            Ok(out) => exists|cols: ColumnMap|
                #[trigger] doc_accepted(data@, cols) && summary_matches(
                    doc_rows(data@, cols),
                    out.0,
                ) && warnings_ok(out.1@, doc_rows(data@, cols)),
            Err(e) => (forall|cols: ColumnMap| !#[trigger] doc_accepted(data@, cols))
                && error_cause(data@, e),
        }),
{
    let mut rdr: csv::Reader<&[u8]> = csv_from_bytes(data);
    let hdrs: Vec<String> = match csv_headers(&mut rdr) {
        Ok(h) => h,
        Err(e) => {
            return Err(AnalyzeError::Decode(DecodeError::Csv(csv_error_message(&e))));
        },
    };
    let ghost hdrv = hdrs.deep_view();
    let cols: ColumnMap = match resolve_columns(&hdrs) {
        Ok(c) => c,
        Err(e) => {
            proof {
                let c = choose|c: Column|
                    e == DecodeError::MissingColumn(c) && no_column(hdrv, c);
                assert forall|c2: ColumnMap| !#[trigger] doc_accepted(data@, c2) by {
                    if header_resolves(data@, c2) {
                        match c {
                            Column::PickupDatetime => {
                                assert(hdrv[c2.pickup_dt as int] == col_name(c));
                            },
                            Column::DropoffDatetime => {
                                assert(hdrv[c2.dropoff_dt as int] == col_name(c));
                            },
                            Column::PickupLocation => {
                                assert(hdrv[c2.pickup_loc as int] == col_name(c));
                            },
                            Column::DropoffLocation => {
                                assert(hdrv[c2.dropoff_loc as int] == col_name(c));
                            },
                        }
                    }
                }
            }
            return Err(AnalyzeError::Decode(e));
        },
    };
    proof {
        assert(header_resolves(data@, cols));
    }
    let mut state: Analyzer = Analyzer::new();
    let mut warnings: Vec<Warning> = Vec::new();
    proof {
        broadcast use vstd::seq_lib::group_to_multiset_ensures;

        lemma_filter_le_len(Seq::<TripView>::empty().to_multiset(), skipped_pred());
        assert(state.rows() =~= doc_rows_upto(data@, cols, 0));
    }
    loop
        invariant
            reader_data(rdr) == data@,
            csv_header_of(data@) == Some(hdrv),
            cols_resolved(hdrv, cols),
            0 <= reader_pos(rdr) <= csv_records_of(data@).len(),
            state.wf(),
            state.rows().len() == reader_pos(rdr),
            state.rows() == doc_rows_upto(data@, cols, reader_pos(rdr)),
            forall|i: int|
                0 <= i < reader_pos(rdr) ==> row_ok(#[trigger] csv_records_of(data@)[i], cols),
            warnings_ok(warnings@, state.rows()),
        decreases csv_records_of(data@).len() - reader_pos(rdr),
    {
        let ghost pos = reader_pos(rdr);
        let ghost recs = csv_records_of(data@);
        let fields: Vec<String> = match csv_next_record(&mut rdr) {
            Ok(Some(f)) => f,
            Ok(None) => {
                let out: DisplayStats = state.finalize();
                let result: (DisplayStats, Vec<Warning>) = (out, warnings);
                proof {
                    assert(state.rows() =~= doc_rows(data@, cols));
                    assert(doc_accepted(data@, cols));
                    assert(summary_matches(doc_rows(data@, cols), result.0));
                    assert(warnings_ok(result.1@, doc_rows(data@, cols)));
                }
                return Ok(result);
            },
            Err(e) => {
                proof {
                    assert(header_resolves(data@, cols) && rows_all_ok(data@, cols));
                    assert forall|c2: ColumnMap| !#[trigger] doc_accepted(data@, c2) by {}
                }
                return Err(AnalyzeError::Decode(DecodeError::Csv(csv_error_message(&e))));
            },
        };
        proof {
            lemma_fields_deep(&fields);
            assert(cols.within(fields@.len() as int));
            assert(recs[pos][cols.pickup_dt as int] == fields@[cols.pickup_dt as int]@);
            assert(recs[pos][cols.dropoff_dt as int] == fields@[cols.dropoff_dt as int]@);
            assert(recs[pos][cols.pickup_loc as int] == fields@[cols.pickup_loc as int]@);
            assert(recs[pos][cols.dropoff_loc as int] == fields@[cols.dropoff_loc as int]@);
        }
        let trip: Trip = match decode_trip(&fields, &cols) {
            Ok(t) => t,
            Err(e) => {
                match e {
                    DecodeError::BadLocation(c) => {
                        proof {
                            assert(bad_location_at(recs[pos], cols, c));
                            assert(row_trip(recs[pos], cols) is None);
                            assert(error_cause(
                                data@,
                                AnalyzeError::Decode(DecodeError::BadLocation(c)),
                            ));
                            assert forall|c2: ColumnMap| !#[trigger] doc_accepted(data@, c2) by {
                                if header_resolves(data@, c2) {
                                    lemma_cols_resolved_unique(hdrv, cols, c2);
                                    assert(!row_ok(recs[pos], c2));
                                }
                            }
                        }
                        return Err(AnalyzeError::Decode(DecodeError::BadLocation(c)));
                    },
                    other => {
                        proof {
                            assert(false);
                        }
                        return Err(AnalyzeError::Decode(other));
                    },
                }
            },
        };
        proof {
            assert(row_trip(recs[pos], cols) == Some(trip@));
        }
        if state.counts_read() == u32::MAX {
            proof {
                assert(recs.len() > u32::MAX);
                assert forall|c2: ColumnMap| !#[trigger] doc_accepted(data@, c2) by {}
            }
            return Err(AnalyzeError::TooManyRows);
        }
        let ghost prev_rows = state.rows();
        match state.process_trip(&trip) {
            Ok(w) => {
                proof {
                    lemma_filter_count_push(prev_rows, trip@, skipped_pred());
                    assert(state.rows() =~= doc_rows_upto(data@, cols, pos + 1));
                    assert(row_ok(recs[pos], cols));
                    assert forall|k: int|
                        0 <= k < warnings@.len() implies warning_matches(
                        #[trigger] warnings@[k],
                        state.rows(),
                    ) by {
                        assert(state.rows()[warnings@[k].line as int - 2] == prev_rows[warnings@[k].line
                            as int - 2]);
                    }
                }
                match w {
                    Some(warning) => {
                        proof {
                            assert(warning_matches(warning, state.rows()));
                            assert forall|k: int|
                                0 <= k < warnings@.len() implies #[trigger] warnings@[k].line
                                < warning.line by {}
                        }
                        warnings.push(warning);
                    },
                    None => {},
                }
            },
            Err(e) => {
                proof {
                    assert(unprocessable_at(recs[pos], cols));
                    assert(error_cause(data@, AnalyzeError::Parse(e)));
                    assert forall|c2: ColumnMap| !#[trigger] doc_accepted(data@, c2) by {
                        if header_resolves(data@, c2) {
                            lemma_cols_resolved_unique(hdrv, cols, c2);
                            assert(!row_ok(recs[pos], c2));
                        }
                    }
                }
                return Err(AnalyzeError::Parse(e));
            },
        }
    }
}

/// Law: two accepted runs over the same bytes yield the same counters and
/// entries -- the summary is a function of the input document alone.
pub proof fn lemma_analyze_deterministic(
    data: Seq<u8>,
    c1: ColumnMap,
    c2: ColumnMap,
    a: DisplayStats,
    b: DisplayStats,
)
    requires
        doc_accepted(data, c1),
        summary_matches(doc_rows(data, c1), a),
        doc_accepted(data, c2),
        summary_matches(doc_rows(data, c2), b),
    ensures
        a.record_counts == b.record_counts,
        a.stats@ == b.stats@,
{
    match csv_header_of(data) {
        Some(hdr) => {
            lemma_cols_resolved_unique(hdr, c1, c2);
        },
        None => {
            assert(false);
        },
    }
    crate::laws::lemma_deterministic(doc_rows(data, c1), a, b);
}

} // verus!
