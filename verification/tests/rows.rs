use sponsor_sync::numeric::{is_numeric_field, is_zero_field};
use sponsor_sync::sponsor_time_error::SyncError;
use sponsor_sync::sponsor_times::{parse_data_line, SponsorTimes};

fn lines(v: &[&str]) -> Vec<String> {
    v.iter().map(|s| s.to_string()).collect()
}

#[test]
fn numeric_literals_are_recognized() {
    assert!(is_numeric_field("1.5"));
    assert!(is_numeric_field("0"));
    assert!(is_numeric_field("-12.25"));
    assert!(is_numeric_field("+3."));
    assert!(is_numeric_field(".5"));
    assert!(is_numeric_field("2e10"));
    assert!(is_numeric_field("2E-3"));
    assert!(is_numeric_field("6.02e+23"));
    assert!(is_numeric_field("inf"));
    assert!(is_numeric_field("-Infinity"));
    assert!(is_numeric_field("NaN"));
}

#[test]
fn non_numeric_text_is_refused() {
    assert!(!is_numeric_field(""));
    assert!(!is_numeric_field("."));
    assert!(!is_numeric_field("+"));
    assert!(!is_numeric_field("1.2.3"));
    assert!(!is_numeric_field("abc"));
    assert!(!is_numeric_field("1e"));
    assert!(!is_numeric_field("e5"));
    assert!(!is_numeric_field("1e2.5"));
    assert!(!is_numeric_field("1 "));
    assert!(!is_numeric_field("in"));
}

#[test]
fn the_recognizer_agrees_with_the_standard_parser() {
    let samples = [
        "1.5", "0", "-12.25", "+3.", ".5", "2e10", "2E-3", "6.02e+23", "inf", "-Infinity", "NaN",
        "", ".", "+", "1.2.3", "abc", "1e", "e5", "1e2.5", "1 ", "in", "0.0", "-0", "00.000e-5",
        "0e99", "InFiNiTy", "nan", "-.0", "+.000E+1",
    ];
    for s in samples {
        assert_eq!(
            is_numeric_field(s),
            s.parse::<f32>().is_ok(),
            "disagreement on {:?}",
            s
        );
    }
}

#[test]
fn zero_literals_are_recognized() {
    assert!(is_zero_field("0"));
    assert!(is_zero_field("0.0"));
    assert!(is_zero_field("-0"));
    assert!(is_zero_field("00.000e-5"));
    assert!(is_zero_field("0e99"));
    assert!(!is_zero_field("0.1"));
    assert!(!is_zero_field("1"));
    assert!(!is_zero_field("inf"));
    assert!(!is_zero_field("nan"));
    assert!(!is_zero_field("abc"));
}

#[test]
fn construction_resolves_the_header_first() {
    let r = SponsorTimes::new(lines(&["videoID,startTime", "a,1.0"]));
    match r {
        Err(SyncError::SchemaMismatch(names)) => {
            assert_eq!(names, vec!["id".to_string(), "end_time".to_string()]);
        }
        _ => panic!("expected a schema mismatch"),
    }
}

#[test]
fn total_entries_counts_every_line() {
    let t = SponsorTimes::new(lines(&[
        "videoID,startTime,endTime,UUID",
        "a,1.0,2.0,u1",
        "short",
    ]))
    .unwrap();
    assert_eq!(t.total_entries(), 3);
}

#[test]
fn short_lines_are_skipped_not_fatal() {
    let mut t = SponsorTimes::new(lines(&[
        "videoID,startTime,endTime,UUID",
        "a,1.0,2.0,u1",
        "too,short",
        "",
        "b,3.5,4.5,u2",
    ]))
    .unwrap();
    let r1 = t.next().unwrap();
    assert_eq!(r1.id, "u1");
    assert_eq!(r1.video_id, "a");
    assert_eq!(r1.start_time, "1.0");
    assert_eq!(r1.end_time, "2.0");
    let r2 = t.next().unwrap();
    assert_eq!(r2.id, "u2");
    assert!(t.next().is_none());
    assert!(t.next().is_none());
}

#[test]
fn unparseable_numeric_fields_skip_the_line() {
    let mut t = SponsorTimes::new(lines(&[
        "videoID,startTime,endTime,UUID",
        "a,not-a-number,2.0,u1",
        "b,1.0,also-bad,u2",
        "c,1.0,2.0,u3",
    ]))
    .unwrap();
    let r = t.next().unwrap();
    assert_eq!(r.id, "u3");
    assert!(t.next().is_none());
}

#[test]
fn record_count_equals_sufficient_lines() {
    let mut t = SponsorTimes::new(lines(&[
        "videoID,startTime,endTime,UUID",
        "a,1.0,2.0,u1",
        "x",
        "b,2.0,3.0,u2",
        "y,z",
        "c,3.0,4.0,u3",
    ]))
    .unwrap();
    let mut produced = 0;
    while let Some(_) = t.next() {
        produced += 1;
    }
    assert_eq!(produced, 3);
}

#[test]
fn a_data_line_parses_against_resolved_positions() {
    let ix = sponsor_sync::indexes::Indexes::new("UUID,videoID,startTime,endTime").unwrap();
    let t = parse_data_line("u9,v9,0.5,9.25,extra", &ix).unwrap();
    assert_eq!(t.id, "u9");
    assert_eq!(t.video_id, "v9");
    assert_eq!(t.start_time, "0.5");
    assert_eq!(t.end_time, "9.25");
    assert!(parse_data_line("u9,v9,0.5", &ix).is_none());
    assert!(parse_data_line("u9,v9,bad,9.25", &ix).is_none());
}
