use appimage_finder::filter::{
    extract_architecture, extract_version_4digit, extract_version_from_filename, filter_appimages,
    get_package_name, is_continuous_release, keep_latest_versions,
};
use appimage_finder::model::{AppImageRelease, Arch, Asset};

fn asset(name: &str) -> Asset {
    Asset { name: name.to_string(), download_url: format!("https://example.com/{}", name) }
}

#[test]
fn architecture_x86_tokens() {
    assert_eq!(extract_architecture("app-x86_64.AppImage"), Some("x86_64".to_string()));
    assert_eq!(extract_architecture("app-x86-64.AppImage"), Some("x86_64".to_string()));
    assert_eq!(extract_architecture("app-amd64.AppImage"), Some("x86_64".to_string()));
    assert_eq!(extract_architecture("app-64bit.AppImage"), Some("x86_64".to_string()));
    assert_eq!(extract_architecture("app-x64.AppImage"), Some("x86_64".to_string()));
    assert_eq!(extract_architecture("app-x86.AppImage"), Some("x86_64".to_string()));
}

#[test]
fn architecture_arm_tokens() {
    assert_eq!(extract_architecture("app-aarch64.AppImage"), Some("aarch64".to_string()));
    assert_eq!(extract_architecture("app-arm64.AppImage"), Some("aarch64".to_string()));
    assert_eq!(extract_architecture("app-ARM64.AppImage"), Some("aarch64".to_string()));
}

#[test]
fn architecture_x86_takes_precedence() {
    assert_eq!(extract_architecture("app-x86_64-arm64.AppImage"), Some("x86_64".to_string()));
}

#[test]
fn architecture_unknown() {
    assert_eq!(extract_architecture("app.AppImage"), None);
    assert_eq!(extract_architecture("app-Arm64.AppImage"), None);
}

#[test]
fn version_three_groups_padded() {
    assert_eq!(extract_version_4digit(Some("v1.2.3"), None), "1.2.3.0");
}

#[test]
fn version_four_groups_exact() {
    assert_eq!(extract_version_4digit(Some("2.10.3.7"), None), "2.10.3.7");
}

#[test]
fn version_falls_back_to_filename() {
    assert_eq!(
        extract_version_4digit(Some("stable"), Some("app-2.3.4-x86_64.AppImage")),
        "2.3.4.0"
    );
}

#[test]
fn version_tag_wins_over_filename() {
    assert_eq!(
        extract_version_4digit(Some("v9.8.7"), Some("app-2.3.4.AppImage")),
        "9.8.7.0"
    );
}

#[test]
fn version_default_when_nothing_matches() {
    assert_eq!(extract_version_4digit(Some("latest"), Some("app.AppImage")), "1.0.0.0");
    assert_eq!(extract_version_4digit(None, None), "1.0.0.0");
}

#[test]
fn loose_version_token() {
    assert_eq!(extract_version_from_filename("app-v1.2.AppImage"), Some("1.2".to_string()));
    assert_eq!(extract_version_from_filename("app-1.2.3.4.AppImage"), Some("1.2.3.4".to_string()));
    assert_eq!(extract_version_from_filename("app.AppImage"), None);
}

#[test]
fn package_name_reverse_dns() {
    assert_eq!(get_package_name("Foo/Bar"), "io.github.foo.bar");
}

#[test]
fn package_name_fold_is_idempotent() {
    assert_eq!(get_package_name("foo/bar"), get_package_name("Foo/Bar"));
}

#[test]
fn package_name_without_slash() {
    assert_eq!(get_package_name("Solo"), "io.github.solo.");
}

#[test]
fn nightly_keyword_excludes_release() {
    let assets = vec![asset("app-1.2.3.AppImage")];
    assert!(is_continuous_release("v1.2.3 Nightly Build", &assets));
}

#[test]
fn keyword_match_is_case_insensitive() {
    let assets = vec![asset("app-1.2.3.AppImage")];
    assert!(is_continuous_release("CONTINUOUS build", &assets));
    assert!(!is_continuous_release("Release 2.0.0", &assets));
}

#[test]
fn version_spread_excludes_release() {
    let assets = vec![
        asset("app-1.0.AppImage"),
        asset("app-1.1.AppImage"),
        asset("app-1.2.AppImage"),
    ];
    assert!(is_continuous_release("Release 2.0.0", &assets));
}

#[test]
fn two_distinct_versions_do_not_exclude() {
    let assets = vec![
        asset("app-1.0.AppImage"),
        asset("app-1.1.AppImage"),
        asset("other-1.1.AppImage"),
    ];
    assert!(!is_continuous_release("Release 2.0.0", &assets));
}

#[test]
fn checksum_kept_with_its_binary() {
    let assets = vec![asset("app.AppImage"), asset("app.sha256sum")];
    let kept = filter_appimages(&assets, true, &Arch::All);
    let names: Vec<&str> = kept.iter().map(|a| a.name.as_str()).collect();
    assert_eq!(names, vec!["app.AppImage", "app.sha256sum"]);
}

#[test]
fn checksum_dropped_when_disabled() {
    let assets = vec![asset("app.AppImage"), asset("app.sha256sum")];
    let kept = filter_appimages(&assets, false, &Arch::All);
    let names: Vec<&str> = kept.iter().map(|a| a.name.as_str()).collect();
    assert_eq!(names, vec!["app.AppImage"]);
}

#[test]
fn checksum_without_binary_dropped() {
    let assets = vec![asset("app.sha256sum"), asset("other.AppImage")];
    let kept = filter_appimages(&assets, true, &Arch::All);
    let names: Vec<&str> = kept.iter().map(|a| a.name.as_str()).collect();
    assert_eq!(names, vec!["other.AppImage"]);
}

#[test]
fn arch_filter_modes() {
    let assets = vec![
        asset("app-x86_64.AppImage"),
        asset("app-aarch64.AppImage"),
        asset("app-plain.AppImage"),
    ];
    let all = filter_appimages(&assets, false, &Arch::All);
    assert_eq!(all.len(), 3);
    let x86 = filter_appimages(&assets, false, &Arch::X86_64);
    let names: Vec<&str> = x86.iter().map(|a| a.name.as_str()).collect();
    assert_eq!(names, vec!["app-x86_64.AppImage", "app-plain.AppImage"]);
    let arm = filter_appimages(&assets, false, &Arch::Aarch64);
    let names: Vec<&str> = arm.iter().map(|a| a.name.as_str()).collect();
    assert_eq!(names, vec!["app-aarch64.AppImage"]);
}

fn entity(repo: &str, arch: Option<&str>, published_at: &str, version: &str) -> AppImageRelease {
    AppImageRelease {
        repo: repo.to_string(),
        release_name: Some("Release".to_string()),
        tag_name: Some(format!("v{}", version)),
        published_at: published_at.to_string(),
        appimage_name: "app.AppImage".to_string(),
        download_url: "https://example.com/app.AppImage".to_string(),
        architecture: arch.map(|s| s.to_string()),
        package_name: "io.github.owner.repo".to_string(),
        version: version.to_string(),
    }
}

#[test]
fn dedup_keeps_latest_per_key() {
    let older = entity("owner/repo", Some("x86_64"), "2023-01-01T00:00:00Z", "1.0.0.0");
    let newer = entity("owner/repo", Some("x86_64"), "2023-06-01T00:00:00Z", "2.0.0.0");
    let kept = keep_latest_versions(&vec![older, newer]);
    assert_eq!(kept.len(), 1);
    assert_eq!(kept[0].published_at, "2023-06-01T00:00:00Z");
}

#[test]
fn dedup_tie_keeps_first_inserted() {
    let first = entity("owner/repo", Some("x86_64"), "2023-01-01T00:00:00Z", "1.0.0.0");
    let second = entity("owner/repo", Some("x86_64"), "2023-01-01T00:00:00Z", "2.0.0.0");
    let kept = keep_latest_versions(&vec![first, second]);
    assert_eq!(kept.len(), 1);
    assert_eq!(kept[0].version, "1.0.0.0");
}

#[test]
fn dedup_malformed_timestamp_loses() {
    let malformed = entity("owner/repo", Some("x86_64"), "not a timestamp", "9.0.0.0");
    let valid = entity("owner/repo", Some("x86_64"), "2016-01-01T00:00:00Z", "1.0.0.0");
    let kept = keep_latest_versions(&vec![malformed, valid]);
    assert_eq!(kept.len(), 1);
    assert_eq!(kept[0].version, "1.0.0.0");
}

#[test]
fn dedup_separates_keys() {
    let a = entity("owner/repo", Some("x86_64"), "2023-01-01T00:00:00Z", "1.0.0.0");
    let b = entity("owner/repo", Some("aarch64"), "2023-01-01T00:00:00Z", "1.0.0.0");
    let c = entity("owner/other", Some("x86_64"), "2023-01-01T00:00:00Z", "1.0.0.0");
    let kept = keep_latest_versions(&vec![a, b, c]);
    assert_eq!(kept.len(), 3);
}

#[test]
fn dedup_of_nothing_is_nothing() {
    let kept = keep_latest_versions(&vec![]);
    assert!(kept.is_empty());
}
