use trip_analyzer::analyzer::analyze;
use trip_analyzer::analyzer::AnalyzeError;
use trip_analyzer::hist::DurationError;
use trip_analyzer::trip::Column;
use trip_analyzer::trip::DecodeError;

const HEADER: &str = "tpep_pickup_datetime,tpep_dropoff_datetime,PULocationID,DOLocationID\n";

fn doc(rows: &[&str]) -> Vec<u8> {
    let mut s = String::from(HEADER);
    for r in rows {
        s.push_str(r);
        s.push('\n');
    }
    s.into_bytes()
}

#[test]
fn minimal_accept() {
    let data = doc(&["2020-01-06 08:00:00,2020-01-06 08:30:00,161,132"]);
    let (out, warnings) = analyze(&data).unwrap();
    assert_eq!(out.record_counts.read, 1);
    assert_eq!(out.record_counts.matched, 1);
    assert_eq!(out.record_counts.skipped, 0);
    assert!(warnings.is_empty());
    let e = &out.stats[8];
    assert_eq!((e.minimum_s, e.median_s, e.p95_s), (1800, 1800, 1800));
}

#[test]
fn wrong_corridor_is_not_matched() {
    let data = doc(&["2020-01-06 08:00:00,2020-01-06 08:30:00,100,200"]);
    let (out, warnings) = analyze(&data).unwrap();
    assert_eq!(out.record_counts.read, 1);
    assert_eq!(out.record_counts.matched, 0);
    assert_eq!(out.record_counts.skipped, 0);
    assert!(warnings.is_empty());
    for e in &out.stats {
        assert_eq!((e.minimum_s, e.median_s, e.p95_s), (0, 0, 0));
    }
}

#[test]
fn weekend_pickup_is_filtered_out() {
    let sat = doc(&["2020-01-04 08:00:00,2020-01-04 08:30:00,161,132"]);
    let (out, _) = analyze(&sat).unwrap();
    assert_eq!(out.record_counts.read, 1);
    assert_eq!(out.record_counts.matched, 0);
    assert_eq!(out.record_counts.skipped, 0);
    let sun = doc(&["2020-01-05 08:00:00,2020-01-05 08:30:00,161,132"]);
    let (out2, _) = analyze(&sun).unwrap();
    assert_eq!(out2.record_counts.matched, 0);
}

#[test]
fn too_short_trip_is_skipped_with_a_warning() {
    let data = doc(&["2020-01-06 08:00:00,2020-01-06 08:10:00,161,132"]);
    let (out, warnings) = analyze(&data).unwrap();
    assert_eq!(out.record_counts.read, 1);
    assert_eq!(out.record_counts.matched, 1);
    assert_eq!(out.record_counts.skipped, 1);
    assert_eq!(warnings.len(), 1);
    assert_eq!(warnings[0].line, 2);
    assert_eq!(warnings[0].error, DurationError::TooShort(600));
    for e in &out.stats {
        assert_eq!((e.minimum_s, e.median_s, e.p95_s), (0, 0, 0));
    }
}

#[test]
fn too_long_trip_is_skipped() {
    let data = doc(&["2020-01-06 08:00:00,2020-01-06 12:00:00,161,132"]);
    let (out, warnings) = analyze(&data).unwrap();
    assert_eq!(out.record_counts.read, 1);
    assert_eq!(out.record_counts.matched, 1);
    assert_eq!(out.record_counts.skipped, 1);
    assert_eq!(warnings.len(), 1);
    assert_eq!(warnings[0].error, DurationError::TooLong(14400));
}

#[test]
fn three_hour_boundary_is_accepted() {
    let data = doc(&["2020-01-06 08:00:00,2020-01-06 11:00:00,161,132"]);
    let (out, warnings) = analyze(&data).unwrap();
    assert_eq!(out.record_counts.skipped, 0);
    assert!(warnings.is_empty());
    let e = &out.stats[8];
    assert_eq!((e.minimum_s, e.median_s, e.p95_s), (10800, 10800, 10800));
}

#[test]
fn dropoff_before_pickup_wraps_to_too_long() {
    let data = doc(&["2020-01-06 08:30:00,2020-01-06 08:00:00,161,132"]);
    let (out, warnings) = analyze(&data).unwrap();
    assert_eq!(out.record_counts.skipped, 1);
    assert_eq!(warnings[0].error, DurationError::TooLong(u64::MAX - 1800 + 1));
    assert_eq!(out.record_counts.matched, 1);
}

#[test]
fn stats_always_has_24_hours_in_ascending_order() {
    let data = doc(&["2020-01-06 23:00:00,2020-01-06 23:30:00,161,132"]);
    let (out, _) = analyze(&data).unwrap();
    assert_eq!(out.stats.len(), 24);
    for (i, e) in out.stats.iter().enumerate() {
        assert_eq!(e.hour_of_day as usize, i);
    }
    assert_eq!(out.stats[23].minimum_s, 1800);
}

#[test]
fn running_twice_gives_identical_output() {
    let data = doc(&[
        "2020-01-06 08:00:00,2020-01-06 08:30:00,161,132",
        "2020-01-06 08:05:00,2020-01-06 08:50:00,234,132",
        "2020-01-06 09:00:00,2020-01-06 09:10:00,90,132",
        "2020-01-06 10:00:00,2020-01-06 10:30:00,50,132",
    ]);
    let (out1, w1) = analyze(&data).unwrap();
    let (out2, w2) = analyze(&data).unwrap();
    assert_eq!(out1, out2);
    assert_eq!(w1.len(), w2.len());
    for (a, b) in w1.iter().zip(w2.iter()) {
        assert_eq!(a.line, b.line);
        assert_eq!(a.error, b.error);
    }
}

#[test]
fn shuffling_rows_does_not_change_the_summary() {
    let rows = [
        "2020-01-06 08:00:00,2020-01-06 08:30:00,161,132",
        "2020-01-06 08:05:00,2020-01-06 08:50:00,234,132",
        "2020-01-07 17:00:00,2020-01-07 18:10:00,163,132",
        "2020-01-06 09:00:00,2020-01-06 09:10:00,90,132",
        "2020-01-04 08:00:00,2020-01-04 08:30:00,161,132",
        "2020-01-06 10:00:00,2020-01-06 10:30:00,50,60",
    ];
    let shuffled = [rows[3], rows[5], rows[0], rows[4], rows[2], rows[1]];
    let (out1, _) = analyze(&doc(&rows)).unwrap();
    let (out2, _) = analyze(&doc(&shuffled)).unwrap();
    assert_eq!(out1, out2);
}

#[test]
fn extra_columns_and_any_order_are_accepted() {
    let mut s = String::from(
        "VendorID,DOLocationID,fare,tpep_dropoff_datetime,PULocationID,tpep_pickup_datetime\n",
    );
    s.push_str("1,132,10.5,2020-01-06 08:30:00,161,2020-01-06 08:00:00\n");
    let (out, _) = analyze(s.as_bytes()).unwrap();
    assert_eq!(out.record_counts.matched, 1);
    assert_eq!(out.stats[8].median_s, 1800);
}

#[test]
fn quoted_fields_are_decoded() {
    let mut s = String::from(HEADER);
    s.push_str("\"2020-01-06 08:00:00\",\"2020-01-06 08:30:00\",\"161\",\"132\"\n");
    let (out, _) = analyze(s.as_bytes()).unwrap();
    assert_eq!(out.record_counts.matched, 1);
}

#[test]
fn missing_column_is_a_decode_error() {
    let mut s = String::from("tpep_pickup_datetime,tpep_dropoff_datetime,PULocationID\n");
    s.push_str("2020-01-06 08:00:00,2020-01-06 08:30:00,161\n");
    let err = analyze(s.as_bytes()).unwrap_err();
    assert_eq!(
        err,
        AnalyzeError::Decode(DecodeError::MissingColumn(Column::DropoffLocation))
    );
}

#[test]
fn malformed_location_is_a_decode_error() {
    let data = doc(&["2020-01-06 08:00:00,2020-01-06 08:30:00,abc,132"]);
    let err = analyze(&data).unwrap_err();
    assert_eq!(
        err,
        AnalyzeError::Decode(DecodeError::BadLocation(Column::PickupLocation))
    );
    let data2 = doc(&["2020-01-06 08:00:00,2020-01-06 08:30:00,161,70000"]);
    let err2 = analyze(&data2).unwrap_err();
    assert_eq!(
        err2,
        AnalyzeError::Decode(DecodeError::BadLocation(Column::DropoffLocation))
    );
}

#[test]
fn ragged_row_is_a_decode_error() {
    let data = doc(&["2020-01-06 08:00:00,2020-01-06 08:30:00,161"]);
    let err = analyze(&data).unwrap_err();
    assert!(matches!(err, AnalyzeError::Decode(DecodeError::Csv(_))));
}

#[test]
fn bad_timestamp_on_a_corridor_row_aborts() {
    let data = doc(&["not-a-time,2020-01-06 08:30:00,161,132"]);
    let err = analyze(&data).unwrap_err();
    assert!(matches!(err, AnalyzeError::Parse(_)));
    let data2 = doc(&["2020-01-06 08:00:00,nope,161,132"]);
    let err2 = analyze(&data2).unwrap_err();
    assert!(matches!(err2, AnalyzeError::Parse(_)));
}

#[test]
fn bad_timestamp_off_the_corridor_is_never_read() {
    let data = doc(&["not-a-time,also-not,1,2"]);
    let (out, _) = analyze(&data).unwrap();
    assert_eq!(out.record_counts.read, 1);
    assert_eq!(out.record_counts.matched, 0);
}

#[test]
fn dropoff_timestamp_off_weekday_is_never_read() {
    // Saturday pickup: the dropoff field is not parsed, so a bad one passes.
    let data = doc(&["2020-01-04 08:00:00,garbage,161,132"]);
    let (out, _) = analyze(&data).unwrap();
    assert_eq!(out.record_counts.read, 1);
    assert_eq!(out.record_counts.matched, 0);
}

#[test]
fn counters_keep_their_ordering_on_a_mixed_document() {
    let data = doc(&[
        "2020-01-06 08:00:00,2020-01-06 08:30:00,161,132",
        "2020-01-06 08:00:00,2020-01-06 08:10:00,161,132",
        "2020-01-06 08:00:00,2020-01-06 13:00:00,161,132",
        "2020-01-05 08:00:00,2020-01-05 08:30:00,161,132",
        "2020-01-06 08:00:00,2020-01-06 08:30:00,7,7",
    ]);
    let (out, warnings) = analyze(&data).unwrap();
    assert_eq!(out.record_counts.read, 5);
    assert_eq!(out.record_counts.matched, 3);
    assert_eq!(out.record_counts.skipped, 2);
    assert!(out.record_counts.skipped <= out.record_counts.matched);
    assert!(out.record_counts.matched <= out.record_counts.read);
    assert_eq!(warnings.len(), 2);
    assert_eq!(warnings[0].line, 3);
    assert_eq!(warnings[1].line, 4);
}

#[test]
fn empty_input_is_a_decode_error() {
    assert!(analyze(b"").is_err());
}

#[test]
fn carriage_return_line_endings_are_accepted() {
    let s = "tpep_pickup_datetime,tpep_dropoff_datetime,PULocationID,DOLocationID\r\n2020-01-06 08:00:00,2020-01-06 08:30:00,161,132\r\n";
    let (out, _) = analyze(s.as_bytes()).unwrap();
    assert_eq!(out.record_counts.matched, 1);
}

#[test]
fn whitespace_in_a_location_field_is_rejected() {
    let data = doc(&["2020-01-06 08:00:00,2020-01-06 08:30:00, 161,132"]);
    let err = analyze(&data).unwrap_err();
    assert_eq!(
        err,
        AnalyzeError::Decode(DecodeError::BadLocation(Column::PickupLocation))
    );
}
