use logline::attributes::extract;
use logline::classify::{classify, Level};
use logline::record::{parse_line, validate_path, PathError, RunSummary};
use logline::timestamp::{
    date_time_exists, local_fields, parse_raw, reconstruct, resolve, LocalResolution, TimeFields, TimestampError,
};

fn value(attrs: &logline::attributes::Attributes, key: &str) -> Option<String> {
    attrs.get(key).map(|v| v.clone())
}

#[test]
fn extract_overwrites_duplicates_and_unquotes() {
    let a = extract("a=1 b=\"x y\" a=2");
    assert_eq!(a.len(), 2);
    assert_eq!(value(&a, "a"), Some("2".to_string()));
    assert_eq!(value(&a, "b"), Some("x y".to_string()));
}

#[test]
fn extract_without_pairs_is_empty() {
    let a = extract("no kv pairs here");
    assert_eq!(a.len(), 0);
    assert_eq!(value(&a, "no"), None);
}

#[test]
fn extract_round_trip_of_one_attribute() {
    let a = extract("user=alice");
    assert_eq!(a.len(), 1);
    assert_eq!(value(&a, "user"), Some("alice".to_string()));
    let b = extract("path=/a/b=c");
    assert_eq!(b.len(), 1);
    assert_eq!(value(&b, "path"), Some("/a/b=c".to_string()));
}

#[test]
fn extract_quoted_value_may_hold_equals() {
    let a = extract("q=\"x=1 y\" r=2");
    assert_eq!(a.len(), 2);
    assert_eq!(value(&a, "q"), Some("x=1 y".to_string()));
    assert_eq!(value(&a, "r"), Some("2".to_string()));
}

#[test]
fn extract_unterminated_quote_is_bare() {
    let a = extract("a=\"x y");
    assert_eq!(a.len(), 1);
    assert_eq!(value(&a, "a"), Some("\"x".to_string()));
}

#[test]
fn extract_key_starts_after_non_word_character() {
    let a = extract("foo-bar=1 =2 x= y");
    assert_eq!(a.len(), 1);
    assert_eq!(value(&a, "bar"), Some("1".to_string()));
}

#[test]
fn extract_non_ascii_letters_and_spaces() {
    let a = extract("clé=v\u{a0}n=ü");
    assert_eq!(a.len(), 2);
    assert_eq!(value(&a, "clé"), Some("v".to_string()));
    assert_eq!(value(&a, "n"), Some("ü".to_string()));
    let b = extract("é+=1");
    assert_eq!(b.len(), 0);
}

#[test]
fn end_to_end_record() {
    let line = "INFO [03-15|14:22:05.123] user=alice action=\"log in\" status=ok";
    let r = parse_line(line, 2024).expect("a record");
    assert_eq!(r.level, Level::Info);
    assert_eq!(r.message, "user=alice action=\"log in\" status=ok");
    assert_eq!(r.timestamp.year, 2024);
    assert_eq!(r.timestamp.month, 3);
    assert_eq!(r.timestamp.day, 15);
    assert_eq!(r.timestamp.hour, 14);
    assert_eq!(r.timestamp.minute, 22);
    assert_eq!(r.timestamp.second, 5);
    assert_eq!(r.timestamp.nanosecond, 123_000_000);
    assert_eq!(r.attributes.len(), 3);
    assert_eq!(value(&r.attributes, "user"), Some("alice".to_string()));
    assert_eq!(value(&r.attributes, "action"), Some("log in".to_string()));
    assert_eq!(value(&r.attributes, "status"), Some("ok".to_string()));
}

#[test]
fn empty_run_has_no_division_by_zero() {
    let s = RunSummary::new();
    assert_eq!(s.total_lines, 0);
    assert_eq!(s.valid_lines, 0);
    assert_eq!(s.invalid_lines(), 0);
    assert_eq!(s.invalid_percent_hundredths(), 0);
}

#[test]
fn garbage_line_counts_invalid() {
    let mut s = RunSummary::new();
    assert!(s.process_line("garbage text no structure\n", 2024).is_none());
    assert_eq!(s.total_lines, 1);
    assert_eq!(s.valid_lines, 0);
    assert_eq!(s.invalid_lines(), 1);
    assert_eq!(s.invalid_percent_hundredths(), 10000);
}

#[test]
fn nonexistent_date_is_rejected_and_run_goes_on() {
    assert_eq!(reconstruct("02-30|10:00:00", 2024), Err(TimestampError::InvalidDate));
    let mut s = RunSummary::new();
    assert!(s.process_line("WARN [02-30|10:00:00] late", 2024).is_none());
    assert!(s.process_line("WARN [02-28|10:00:00] fine\n", 2024).is_some());
    assert_eq!(s.total_lines, 2);
    assert_eq!(s.valid_lines, 1);
    assert_eq!(s.invalid_percent_hundredths(), 5000);
}

#[test]
fn percent_rounds_half_up() {
    let mut s = RunSummary::new();
    s.process_line("x", 2024);
    s.process_line("ERROR [01-01|00:00:00] a", 2024);
    s.process_line("DEBUG [01-01|00:00:00] b", 2024);
    assert_eq!(s.invalid_percent_hundredths(), 3333);
    s.process_line("y", 2024);
    s.process_line("z", 2024);
    s.process_line("w", 2024);
    assert_eq!(s.invalid_lines(), 4);
    assert_eq!(s.invalid_percent_hundredths(), 6667);
}

#[test]
fn reconstruct_keeps_written_fields() {
    let t = reconstruct("12-31|23:59:59", 1999).expect("a timestamp");
    assert_eq!((t.year, t.month, t.day, t.hour, t.minute, t.second, t.nanosecond), (1999, 12, 31, 23, 59, 59, 0));
}

#[test]
fn reconstruct_rejects_bad_times_and_shapes() {
    assert_eq!(reconstruct("03-15|25:00:00", 2024), Err(TimestampError::InvalidDate));
    assert_eq!(reconstruct("04-31|10:00:00", 2024), Err(TimestampError::InvalidDate));
    assert_eq!(reconstruct("02-29|10:00:00", 2023), Err(TimestampError::InvalidDate));
    assert_eq!(reconstruct("00-10|10:00:00", 2024), Err(TimestampError::InvalidDate));
    assert_eq!(reconstruct("03-15|10:60:00", 2024), Err(TimestampError::InvalidDate));
    assert_eq!(reconstruct("01-01|00:00:00", 300000), Err(TimestampError::InvalidDate));
    assert_eq!(reconstruct("3-15|10:00:00", 2024), Err(TimestampError::Malformed));
    assert_eq!(reconstruct("03-15 10:00:00", 2024), Err(TimestampError::Malformed));
    assert_eq!(reconstruct("03-15|10:00:00.", 2024), Err(TimestampError::Malformed));
    assert_eq!(reconstruct("03-15|10:00:00x", 2024), Err(TimestampError::Malformed));
    assert!(reconstruct("02-29|10:00:00", 2024).is_ok());
}

#[test]
fn fraction_digits() {
    let f = parse_raw("03-15|14:22:05.5").expect("fields");
    assert_eq!(f.nanosecond, 500_000_000);
    let g = parse_raw("03-15|14:22:05.1234567899").expect("fields");
    assert_eq!(g.nanosecond, 123_456_789);
    let h = parse_raw("03-15|14:22:05").expect("fields");
    assert_eq!(h, TimeFields { month: 3, day: 15, hour: 14, minute: 22, second: 5, nanosecond: 0 });
}

#[test]
fn resolution_decides_outcome() {
    let f = parse_raw("03-15|14:22:05.123").expect("fields");
    let t = resolve(2024, f, LocalResolution::Single(3600)).expect("a timestamp");
    assert_eq!((t.year, t.month, t.day, t.hour, t.minute, t.second), (2024, 3, 15, 14, 22, 5));
    assert_eq!(t.offset_seconds, 3600);
    assert_eq!(resolve(2024, f, LocalResolution::Ambiguous), Err(TimestampError::AmbiguousLocalTime));
    assert_eq!(resolve(2024, f, LocalResolution::Nonexistent), Err(TimestampError::NonexistentLocalTime));
}

#[test]
fn classify_shapes() {
    assert!(classify("hello [03-15|14:22:05] x").is_none());
    assert!(classify("INFO no timestamp here").is_none());
    assert!(classify("INFO [] empty").is_none());
    assert!(classify("INFO [x]nospace").is_none());
    assert!(classify("INFO [x").is_none());
    let c = classify("TRACE[ts]   message  kept \r\n").expect("classified");
    assert_eq!(c.level, Level::Trace);
    assert_eq!(c.timestamp, "ts");
    assert_eq!(c.message, "message  kept ");
    let d = classify("ERROR  [a b] \n").expect("classified");
    assert_eq!(d.level, Level::Error);
    assert_eq!(d.timestamp, "a b");
    assert_eq!(d.message, "");
    assert_eq!(Level::Warn.as_str(), "WARN");
    assert_eq!(Level::Debug.as_str(), "DEBUG");
}

#[test]
fn path_checks() {
    assert_eq!(validate_path(false, false), Err(PathError::NotFound));
    assert_eq!(validate_path(true, false), Err(PathError::NotAFile));
    assert_eq!(validate_path(true, true), Ok(()));
}

#[test]
fn extract_round_trip_inside_text() {
    let a = extract("request done k=v2 in time");
    assert_eq!(a.len(), 1);
    assert_eq!(value(&a, "k"), Some("v2".to_string()));
    let b = extract("\u{3000}key=\"abc\tx");
    assert_eq!(b.len(), 1);
    assert_eq!(value(&b, "key"), Some("\"abc".to_string()));
}

#[test]
fn unclassified_without_keyword_or_bracket() {
    assert!(parse_line("info [03-15|14:22:05] x", 2024).is_none());
    assert!(parse_line("INFO 03-15|14:22:05 x", 2024).is_none());
    assert!(classify("INFOX [03-15|14:22:05] x").is_none());
    assert!(classify("INFO [03-15|14:22:05]").is_none());
}

#[test]
fn local_fields_checks_calendar() {
    let f = local_fields("02-29|23:59:59.9", 2024).expect("fields");
    assert_eq!(f, TimeFields { month: 2, day: 29, hour: 23, minute: 59, second: 59, nanosecond: 900_000_000 });
    assert_eq!(local_fields("02-29|23:59:59", 2100), Err(TimestampError::InvalidDate));
    assert_eq!(local_fields("02-29|00:00:00", 2000).map(|f| f.day), Ok(29));
    assert_eq!(local_fields("02-29|00:00:00", -4).map(|f| f.day), Ok(29));
    assert_eq!(local_fields("02-29|00:00:00", -100), Err(TimestampError::InvalidDate));
    assert_eq!(local_fields("x", 2024), Err(TimestampError::Malformed));
    let g = TimeFields { month: 6, day: 30, hour: 0, minute: 0, second: 0, nanosecond: 0 };
    assert!(date_time_exists(262142, g));
    assert!(!date_time_exists(262143, g));
    assert!(date_time_exists(-262143, g));
    assert!(!date_time_exists(-262144, g));
    assert!(!date_time_exists(2024, TimeFields { day: 31, ..g }));
}

#[test]
fn offset_is_within_a_day() {
    let t = reconstruct("07-01|12:00:00", 2024).expect("a timestamp");
    assert!(t.offset_seconds > -86_400 && t.offset_seconds < 86_400);
}
