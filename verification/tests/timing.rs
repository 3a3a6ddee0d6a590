use appimage_finder::downloader::generate_hourly_urls;
use appimage_finder::timestamp::{parse_wire_ts, published_ts, Timestamp};
use appimage_finder::utils::{adjust_end_time, parse_time_str, Precision, TimeError};

fn ts(year: u32, month: u32, day: u32, hour: u32) -> Timestamp {
    Timestamp { year, month, day, hour, minute: 0, second: 0 }
}

#[test]
fn parse_year_only() {
    let (t, p) = parse_time_str("2023").unwrap();
    assert_eq!(t, ts(2023, 1, 1, 0));
    assert_eq!(p, Precision::Year);
}

#[test]
fn parse_down_to_hour() {
    let (t, p) = parse_time_str("2023-02-28-17").unwrap();
    assert_eq!(t, ts(2023, 2, 28, 17));
    assert_eq!(p, Precision::Hour);
}

#[test]
fn parse_rejects_bad_input() {
    assert_eq!(parse_time_str("abc"), Err(TimeError::BadNumber));
    assert_eq!(parse_time_str("2023-1-1-0-5"), Err(TimeError::BadFormat));
    assert_eq!(parse_time_str("2023-13"), Err(TimeError::BadDate));
    assert_eq!(parse_time_str("2023-02-30"), Err(TimeError::BadDate));
}

#[test]
fn adjust_end_widens_periods() {
    let (t, p) = parse_time_str("2022").unwrap();
    assert_eq!(adjust_end_time(&t, &p), ts(2022, 12, 31, 23));
    let (t, p) = parse_time_str("2024-02").unwrap();
    assert_eq!(adjust_end_time(&t, &p), ts(2024, 2, 29, 23));
    let (t, p) = parse_time_str("2023-02").unwrap();
    assert_eq!(adjust_end_time(&t, &p), ts(2023, 2, 28, 23));
    let (t, p) = parse_time_str("2023-05-06").unwrap();
    assert_eq!(adjust_end_time(&t, &p), ts(2023, 5, 6, 23));
    let (t, p) = parse_time_str("2023-05-06-07").unwrap();
    assert_eq!(adjust_end_time(&t, &p), ts(2023, 5, 6, 7));
}

#[test]
fn hourly_urls_cover_the_window() {
    let urls = generate_hourly_urls(&ts(2023, 1, 31, 22), &ts(2023, 2, 1, 1));
    let names: Vec<&str> = urls.iter().map(|(_, f)| f.as_str()).collect();
    assert_eq!(
        names,
        vec![
            "2023-01-31-22.json.gz",
            "2023-01-31-23.json.gz",
            "2023-02-01-0.json.gz",
            "2023-02-01-1.json.gz",
        ]
    );
    assert_eq!(urls[0].0, "https://data.gharchive.org/2023-01-31-22.json.gz");
}

#[test]
fn hourly_urls_empty_when_window_inverted() {
    let urls = generate_hourly_urls(&ts(2023, 2, 1, 0), &ts(2023, 1, 1, 0));
    assert!(urls.is_empty());
}

#[test]
fn wire_timestamp_parses_strictly() {
    let expected = Timestamp { year: 2023, month: 3, day: 5, hour: 10, minute: 15, second: 42 };
    assert_eq!(parse_wire_ts("2023-03-05T10:15:42Z"), Some(expected));
    assert_eq!(parse_wire_ts("2023-02-30T00:00:00Z"), None);
    assert_eq!(parse_wire_ts("2023-03-05 10:15:00"), None);
    assert_eq!(parse_wire_ts(""), None);
}

#[test]
fn unparseable_published_at_gets_sentinel() {
    let t = published_ts("garbage");
    assert_eq!(t, ts(2015, 1, 1, 0));
}
