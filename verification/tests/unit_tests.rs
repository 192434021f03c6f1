use chrono::Datelike;
use chrono::Timelike;
use trip_analyzer::datetime::DateTime;
use trip_analyzer::datetime::duration_seconds;
use trip_analyzer::datetime::parse_datetime;
use trip_analyzer::filter::is_in_middtown;
use trip_analyzer::filter::is_jfk_airport;
use trip_analyzer::filter::is_weekday;
use trip_analyzer::hist::DurationError;
use trip_analyzer::hist::DurationHistograms;
use trip_analyzer::stats::DisplayStats;
use trip_analyzer::stats::RecordCounts;
use trip_analyzer::trip::parse_u16;

fn dt(year: u16, month: u8, day: u8, hour: u8, minute: u8, second: u8) -> DateTime {
    DateTime { year, month, day, hour, minute, second }
}

#[test]
fn parse_datetime_accepts_the_exact_format() {
    let d = parse_datetime("2020-01-06 08:30:59").unwrap();
    assert_eq!(d, dt(2020, 1, 6, 8, 30, 59));
}

#[test]
fn parse_datetime_rejects_malformed_text() {
    assert!(parse_datetime("").is_err());
    assert!(parse_datetime("2020-01-06").is_err());
    assert!(parse_datetime("2020-01-06T08:30:59").is_err());
    assert!(parse_datetime("2020-01-06 08:30:59 ").is_err());
    assert!(parse_datetime("20-01-06 08:30:59").is_err());
    assert!(parse_datetime("2020/01/06 08:30:59").is_err());
    assert!(parse_datetime("2020-1-06 08:30:59").is_err());
    assert!(parse_datetime("2020-01-06 8:30:59").is_err());
}

#[test]
fn parse_datetime_rejects_impossible_components() {
    assert!(parse_datetime("2020-00-06 08:30:59").is_err());
    assert!(parse_datetime("2020-13-06 08:30:59").is_err());
    assert!(parse_datetime("2020-01-00 08:30:59").is_err());
    assert!(parse_datetime("2020-01-32 08:30:59").is_err());
    assert!(parse_datetime("2020-04-31 08:30:59").is_err());
    assert!(parse_datetime("2020-02-30 08:30:59").is_err());
    assert!(parse_datetime("2019-02-29 08:30:59").is_err());
    assert!(parse_datetime("2020-01-06 24:00:00").is_err());
    assert!(parse_datetime("2020-01-06 08:60:00").is_err());
    assert!(parse_datetime("2020-01-06 08:30:60").is_err());
}

#[test]
fn parse_datetime_accepts_leap_day() {
    assert!(parse_datetime("2020-02-29 00:00:00").is_ok());
    assert!(parse_datetime("2000-02-29 00:00:00").is_ok());
    assert!(parse_datetime("1900-02-29 00:00:00").is_err());
}

#[test]
fn datetime_agrees_with_chrono() {
    let samples = [
        "2020-01-06 08:00:00",
        "2020-01-04 23:59:59",
        "2020-02-29 12:00:00",
        "1999-12-31 00:00:01",
        "2000-03-01 06:30:00",
        "2023-06-15 17:45:12",
        "1970-01-01 00:00:00",
        "2100-02-28 09:10:11",
    ];
    for s in samples {
        let ours = parse_datetime(s).unwrap();
        let theirs = chrono::NaiveDateTime::parse_from_str(s, "%Y-%m-%d %H:%M:%S").unwrap();
        assert_eq!(ours.year as i32, theirs.year());
        assert_eq!(ours.month as u32, theirs.month());
        assert_eq!(ours.day as u32, theirs.day());
        assert_eq!(ours.hour as u32, theirs.hour());
        assert_eq!(ours.minute as u32, theirs.minute());
        assert_eq!(ours.second as u32, theirs.second());
        assert_eq!(
            ours.number_from_monday() as u32,
            theirs.weekday().number_from_monday()
        );
    }
}

#[test]
fn duration_agrees_with_chrono() {
    let pairs = [
        ("2020-01-06 08:00:00", "2020-01-06 08:30:00"),
        ("2019-12-31 23:59:00", "2020-01-01 00:29:00"),
        ("2020-02-28 23:00:00", "2020-02-29 01:30:00"),
        ("2020-01-06 08:00:00", "2020-01-07 08:00:00"),
    ];
    for (a, b) in pairs {
        let p = parse_datetime(a).unwrap();
        let q = parse_datetime(b).unwrap();
        let cp = chrono::NaiveDateTime::parse_from_str(a, "%Y-%m-%d %H:%M:%S").unwrap();
        let cq = chrono::NaiveDateTime::parse_from_str(b, "%Y-%m-%d %H:%M:%S").unwrap();
        assert_eq!(
            duration_seconds(&p, &q),
            (cq - cp).num_seconds() as u64
        );
    }
}

#[test]
fn negative_span_wraps_like_an_unsigned_subtraction() {
    let p = parse_datetime("2020-01-06 08:30:00").unwrap();
    let q = parse_datetime("2020-01-06 08:00:00").unwrap();
    assert_eq!(duration_seconds(&p, &q), u64::MAX - 1800 + 1);
}

#[test]
fn midtown_set_has_exactly_the_nine_members() {
    let members = [90u16, 100, 161, 162, 163, 164, 186, 230, 234];
    for m in members {
        assert!(is_in_middtown(m));
    }
    for other in [0u16, 89, 91, 101, 132, 160, 165, 187, 229, 231, 235, 65535] {
        assert!(!is_in_middtown(other));
    }
}

#[test]
fn jfk_is_location_132_only() {
    assert!(is_jfk_airport(132));
    assert!(!is_jfk_airport(0));
    assert!(!is_jfk_airport(131));
    assert!(!is_jfk_airport(133));
}

#[test]
fn weekdays_are_monday_through_friday() {
    // 2020-01-06 is a Monday.
    for day in 6..=10u8 {
        let d = parse_datetime(&format!("2020-01-{:02} 12:00:00", day)).unwrap();
        assert!(is_weekday(&d));
    }
    let sat = parse_datetime("2020-01-04 12:00:00").unwrap();
    let sun = parse_datetime("2020-01-05 12:00:00").unwrap();
    assert!(!is_weekday(&sat));
    assert!(!is_weekday(&sun));
}

#[test]
fn parse_u16_reads_plain_decimal_only() {
    assert_eq!(parse_u16("0"), Some(0));
    assert_eq!(parse_u16("132"), Some(132));
    assert_eq!(parse_u16("65535"), Some(65535));
    assert_eq!(parse_u16("65536"), None);
    assert_eq!(parse_u16("99999999999"), None);
    assert_eq!(parse_u16(""), None);
    assert_eq!(parse_u16("+1"), None);
    assert_eq!(parse_u16("-1"), None);
    assert_eq!(parse_u16("1 "), None);
    assert_eq!(parse_u16("1a"), None);
}

#[test]
fn duration_boundaries_short_side() {
    let mut h = DurationHistograms::new();
    let p = dt(2020, 1, 6, 8, 0, 0);
    let short = dt(2020, 1, 6, 8, 19, 59); // 1199 s
    let ok = dt(2020, 1, 6, 8, 20, 0); // 1200 s
    assert_eq!(
        h.record_duration(&p, &short),
        Err(DurationError::TooShort(1199))
    );
    assert_eq!(h.record_duration(&p, &ok), Ok(()));
}

#[test]
fn duration_boundaries_long_side() {
    let mut h = DurationHistograms::new();
    let p = dt(2020, 1, 6, 8, 0, 0);
    let ok = dt(2020, 1, 6, 11, 0, 0); // 10800 s
    let long = dt(2020, 1, 6, 11, 0, 1); // 10801 s
    assert_eq!(h.record_duration(&p, &ok), Ok(()));
    assert_eq!(
        h.record_duration(&p, &long),
        Err(DurationError::TooLong(10801))
    );
}

#[test]
fn empty_histograms_project_to_zero_entries() {
    let h = DurationHistograms::new();
    let counts = RecordCounts::default();
    let out = DisplayStats::new(counts, &h);
    assert_eq!(out.stats.len(), 24);
    for (i, e) in out.stats.iter().enumerate() {
        assert_eq!(e.hour_of_day as usize, i);
        assert_eq!(e.minimum_s, 0);
        assert_eq!(e.median_s, 0);
        assert_eq!(e.p95_s, 0);
    }
}

#[test]
fn single_observation_is_every_statistic() {
    let mut h = DurationHistograms::new();
    let p = dt(2020, 1, 6, 8, 0, 0);
    let q = dt(2020, 1, 6, 8, 30, 0);
    h.record_duration(&p, &q).unwrap();
    let out = DisplayStats::new(RecordCounts::default(), &h);
    let e = &out.stats[8];
    assert_eq!(e.minimum_s, 1800);
    assert_eq!(e.median_s, 1800);
    assert_eq!(e.p95_s, 1800);
}

#[test]
fn bucket_floors_follow_the_three_figure_widths() {
    // 2049, 4098 and 8201 s fall in buckets of widths 2, 4 and 8.
    let mut h = DurationHistograms::new();
    h.record_duration(&dt(2020, 1, 6, 1, 0, 0), &dt(2020, 1, 6, 1, 34, 9))
        .unwrap();
    h.record_duration(&dt(2020, 1, 6, 2, 0, 0), &dt(2020, 1, 6, 3, 8, 18))
        .unwrap();
    h.record_duration(&dt(2020, 1, 6, 3, 0, 0), &dt(2020, 1, 6, 5, 16, 41))
        .unwrap();
    let out = DisplayStats::new(RecordCounts::default(), &h);
    assert_eq!(out.stats[1].minimum_s, 2048);
    assert_eq!(out.stats[2].minimum_s, 4096);
    assert_eq!(out.stats[3].minimum_s, 8200);
}

#[test]
fn quantiles_walk_the_recorded_values() {
    let mut h = DurationHistograms::new();
    let p = dt(2020, 1, 6, 9, 0, 0);
    for secs in [1300u64, 1400, 3000] {
        let q = dt(
            2020,
            1,
            6,
            9 + (secs / 3600) as u8,
            ((secs % 3600) / 60) as u8,
            (secs % 60) as u8,
        );
        h.record_duration(&p, &q).unwrap();
    }
    let out = DisplayStats::new(RecordCounts::default(), &h);
    let e = &out.stats[9];
    assert_eq!(e.minimum_s, 1300);
    assert_eq!(e.median_s, 1400);
    assert_eq!(e.p95_s, 3000);
}
