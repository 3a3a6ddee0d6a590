use std::io::Write;

use appimage_finder::extractor::{process_file, ProcessError};
use appimage_finder::model::{AppImageRelease, Arch};
use appimage_finder::output::group_by_architecture;
use appimage_finder::timestamp::Timestamp;

fn ts(year: u32, month: u32, day: u32, hour: u32) -> Timestamp {
    Timestamp { year, month, day, hour, minute: 0, second: 0 }
}

fn gzip(data: &[u8]) -> Vec<u8> {
    let mut enc = flate2::write::GzEncoder::new(Vec::new(), flate2::Compression::default());
    enc.write_all(data).unwrap();
    enc.finish().unwrap()
}

const RELEASE_LINE: &str = r#"{"type":"ReleaseEvent","created_at":"2023-03-05T10:15:00Z","repo":{"name":"Owner/Tool"},"payload":{"release":{"name":"Release 1.2","tag_name":"v1.2.3","published_at":"2023-03-05T10:00:00Z","assets":[{"name":"tool-x86_64.AppImage","browser_download_url":"https://example.com/tool-x86_64.AppImage"}]}}}"#;

#[test]
fn empty_window_gives_empty_results() {
    let data = gzip(b"");
    let mut results: Vec<AppImageRelease> = Vec::new();
    let r = process_file(&data, &ts(2023, 1, 1, 0), &ts(2023, 1, 1, 23), false, &Arch::All,
        &mut results);
    assert!(r.is_ok());
    assert!(results.is_empty());
}

#[test]
fn release_event_becomes_entity() {
    let data = gzip(format!("{}\n", RELEASE_LINE).as_bytes());
    let mut results: Vec<AppImageRelease> = Vec::new();
    let r = process_file(&data, &ts(2023, 3, 1, 0), &ts(2023, 3, 31, 23), false, &Arch::All,
        &mut results);
    assert!(r.is_ok());
    assert_eq!(results.len(), 1);
    let e = &results[0];
    assert_eq!(e.repo, "Owner/Tool");
    assert_eq!(e.release_name.as_deref(), Some("Release 1.2"));
    assert_eq!(e.tag_name.as_deref(), Some("v1.2.3"));
    assert_eq!(e.published_at, "2023-03-05T10:00:00Z");
    assert_eq!(e.appimage_name, "tool-x86_64.AppImage");
    assert_eq!(e.download_url, "https://example.com/tool-x86_64.AppImage");
    assert_eq!(e.architecture.as_deref(), Some("x86_64"));
    assert_eq!(e.package_name, "io.github.owner.tool");
    assert_eq!(e.version, "1.2.3.0");
}

#[test]
fn event_outside_window_skipped() {
    let data = gzip(format!("{}\n", RELEASE_LINE).as_bytes());
    let mut results: Vec<AppImageRelease> = Vec::new();
    let r = process_file(&data, &ts(2024, 1, 1, 0), &ts(2024, 12, 31, 23), false, &Arch::All,
        &mut results);
    assert!(r.is_ok());
    assert!(results.is_empty());
}

#[test]
fn non_release_event_skipped() {
    let line = r#"{"type":"PushEvent","created_at":"2023-03-05T10:15:00Z","repo":{"name":"a/b"}}"#;
    let data = gzip(format!("{}\n", line).as_bytes());
    let mut results: Vec<AppImageRelease> = Vec::new();
    let r = process_file(&data, &ts(2023, 3, 1, 0), &ts(2023, 3, 31, 23), false, &Arch::All,
        &mut results);
    assert!(r.is_ok());
    assert!(results.is_empty());
}

#[test]
fn unparseable_created_at_skipped() {
    let line = RELEASE_LINE.replace("2023-03-05T10:15:00Z", "whenever");
    let data = gzip(format!("{}\n", line).as_bytes());
    let mut results: Vec<AppImageRelease> = Vec::new();
    let r = process_file(&data, &ts(2023, 1, 1, 0), &ts(2023, 12, 31, 23), false, &Arch::All,
        &mut results);
    assert!(r.is_ok());
    assert!(results.is_empty());
}

#[test]
fn missing_assets_skipped() {
    let line = r#"{"type":"ReleaseEvent","created_at":"2023-03-05T10:15:00Z","repo":{"name":"a/b"},"payload":{"release":{"name":"r","tag_name":"v1"}}}"#;
    let data = gzip(format!("{}\n", line).as_bytes());
    let mut results: Vec<AppImageRelease> = Vec::new();
    let r = process_file(&data, &ts(2023, 3, 1, 0), &ts(2023, 3, 31, 23), false, &Arch::All,
        &mut results);
    assert!(r.is_ok());
    assert!(results.is_empty());
}

#[test]
fn nightly_release_excluded_by_pipeline() {
    let line = RELEASE_LINE.replace("Release 1.2", "v1.2.3 Nightly Build");
    let data = gzip(format!("{}\n", line).as_bytes());
    let mut results: Vec<AppImageRelease> = Vec::new();
    let r = process_file(&data, &ts(2023, 3, 1, 0), &ts(2023, 3, 31, 23), false, &Arch::All,
        &mut results);
    assert!(r.is_ok());
    assert!(results.is_empty());
}

#[test]
fn corrupt_stream_is_fatal() {
    let mut results: Vec<AppImageRelease> = Vec::new();
    let r = process_file(b"not gzip at all", &ts(2023, 1, 1, 0), &ts(2023, 1, 1, 23), false,
        &Arch::All, &mut results);
    assert_eq!(r, Err(ProcessError::Decompress));
    assert!(results.is_empty());
}

#[test]
fn malformed_line_is_fatal() {
    let data = gzip(b"this is not json\n");
    let mut results: Vec<AppImageRelease> = Vec::new();
    let r = process_file(&data, &ts(2023, 1, 1, 0), &ts(2023, 1, 1, 23), false, &Arch::All,
        &mut results);
    assert_eq!(r, Err(ProcessError::MalformedLine));
}

#[test]
fn entities_before_bad_line_stay() {
    let data = gzip(format!("{}\nnot json\n", RELEASE_LINE).as_bytes());
    let mut results: Vec<AppImageRelease> = Vec::new();
    let r = process_file(&data, &ts(2023, 3, 1, 0), &ts(2023, 3, 31, 23), false, &Arch::All,
        &mut results);
    assert_eq!(r, Err(ProcessError::MalformedLine));
    assert_eq!(results.len(), 1);
    assert_eq!(results[0].repo, "Owner/Tool");
}

#[test]
fn odd_shaped_json_lines_are_not_errors() {
    let data = gzip(b"{}\n[1,2,3]\n\"just a string\"\n");
    let mut results: Vec<AppImageRelease> = Vec::new();
    let r = process_file(&data, &ts(2023, 1, 1, 0), &ts(2023, 1, 1, 23), false, &Arch::All,
        &mut results);
    assert!(r.is_ok());
    assert!(results.is_empty());
}

#[test]
fn untagged_asset_defaults_to_x86_64() {
    let line = RELEASE_LINE.replace("tool-x86_64.AppImage", "tool.AppImage");
    let data = gzip(format!("{}\n", line).as_bytes());
    let mut results: Vec<AppImageRelease> = Vec::new();
    let r = process_file(&data, &ts(2023, 3, 1, 0), &ts(2023, 3, 31, 23), false, &Arch::All,
        &mut results);
    assert!(r.is_ok());
    assert_eq!(results.len(), 1);
    assert_eq!(results[0].architecture.as_deref(), Some("x86_64"));
}

fn entity(repo: &str, arch: Option<&str>) -> AppImageRelease {
    AppImageRelease {
        repo: repo.to_string(),
        release_name: None,
        tag_name: None,
        published_at: "2023-01-01T00:00:00Z".to_string(),
        appimage_name: "a.AppImage".to_string(),
        download_url: "https://example.com/a.AppImage".to_string(),
        architecture: arch.map(|s| s.to_string()),
        package_name: "io.github.a.b".to_string(),
        version: "1.0.0.0".to_string(),
    }
}

#[test]
fn grouping_by_architecture() {
    let items = vec![
        entity("a/b", Some("x86_64")),
        entity("c/d", Some("aarch64")),
        entity("e/f", Some("x86_64")),
        entity("g/h", None),
    ];
    let groups = group_by_architecture(&items);
    assert_eq!(groups.len(), 3);
    assert_eq!(groups[0].0, "x86_64");
    assert_eq!(groups[0].1.len(), 2);
    assert_eq!(groups[1].0, "aarch64");
    assert_eq!(groups[1].1.len(), 1);
    assert_eq!(groups[2].0, "unknown");
    assert_eq!(groups[2].1.len(), 1);
}
