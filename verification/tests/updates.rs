use htop_win::installer::TargetArch;
use htop_win::release::parse_latest_release;
use htop_win::update::{metadata_version, newest_pending_update, update_metadata};

const RELEASE: &str = r#"{
  "url": "https://api.github.com/repos/faratech/htop-win/releases/1",
  "tag_name": "v1.4.2",
  "assets": [
    { "name": "htop-win-arm64.exe",
      "browser_download_url": "https://github.com/faratech/htop-win/releases/download/v1.4.2/htop-win-arm64.exe" },
    { "name": "htop-win-amd64.exe",
      "browser_download_url":   "https://github.com/faratech/htop-win/releases/download/v1.4.2/htop-win-amd64.exe" }
  ]
}"#;

#[test]
fn latest_release_picks_the_asset_of_the_architecture() {
    let (version, url) = parse_latest_release(RELEASE, TargetArch::Amd64).unwrap();
    assert_eq!(version, "1.4.2");
    assert_eq!(
        url,
        "https://github.com/faratech/htop-win/releases/download/v1.4.2/htop-win-amd64.exe"
    );
    let (_, arm) = parse_latest_release(RELEASE, TargetArch::Arm64).unwrap();
    assert!(arm.ends_with("htop-win-arm64.exe"));
}

#[test]
fn latest_release_errors_name_the_problem() {
    assert_eq!(
        parse_latest_release("{}", TargetArch::Amd64).unwrap_err(),
        "Failed to parse tag_name from GitHub API response (body length: 2 bytes)"
    );
    assert_eq!(
        parse_latest_release(r#"{"tag_name": "1.0.0"}"#, TargetArch::Amd64).unwrap_err(),
        "Release tag must start with 'v': 1.0.0"
    );
    assert_eq!(
        parse_latest_release(r#"{"tag_name": "v1.0"}"#, TargetArch::Amd64).unwrap_err(),
        "Release tag is not strict SemVer: v1.0"
    );
    assert_eq!(
        parse_latest_release(r#"{"tag_name": "v1.0.0"}"#, TargetArch::Amd64).unwrap_err(),
        "Could not find download URL for this architecture (version=1.0.0, url_empty=true)"
    );
}

#[test]
fn staged_metadata_reads_back() {
    let text = update_metadata("1.2.3-beta.1+build.7", TargetArch::Amd64);
    assert_eq!(text, "version=1.2.3-beta.1+build.7\narch=amd64\n");
    assert_eq!(metadata_version(&text, TargetArch::Amd64).unwrap(), "1.2.3-beta.1+build.7");
    assert_eq!(
        metadata_version(&text, TargetArch::Arm64).unwrap_err(),
        "update metadata architecture does not match arm64"
    );
    assert_eq!(
        metadata_version("arch=amd64\r\nversion=2.0.0\r\n", TargetArch::Amd64).unwrap(),
        "2.0.0"
    );
    assert_eq!(
        metadata_version("arch=amd64\n", TargetArch::Amd64).unwrap_err(),
        "update metadata is missing a version"
    );
    assert_eq!(
        metadata_version("version=truncated\narch=amd64", TargetArch::Amd64).unwrap_err(),
        "update metadata has invalid SemVer: truncated"
    );
}

#[test]
fn newest_pending_update_prefers_the_highest_newer_version() {
    let versions: Vec<String> = ["1.2.3", "1.2.4", "0.9.0", "1.2.4", "1.2.4-rc.1"]
        .iter()
        .map(|v| v.to_string())
        .collect();
    assert_eq!(newest_pending_update(&versions, "1.2.3"), Some(3));
    assert_eq!(newest_pending_update(&versions, "1.2.4"), None);
    assert_eq!(newest_pending_update(&[], "1.0.0"), None);
}

#[test]
fn release_body_must_be_utf8() {
    let (version, url) =
        htop_win::release::latest_release_from_body(RELEASE.as_bytes(), TargetArch::Amd64).unwrap();
    assert_eq!(version, "1.4.2");
    assert!(url.ends_with("htop-win-amd64.exe"));
    let mut bad = RELEASE.as_bytes().to_vec();
    bad[3] = 0xff;
    assert_eq!(
        htop_win::release::latest_release_from_body(&bad, TargetArch::Amd64),
        Err("GitHub API returned invalid UTF-8".to_string())
    );
    assert_eq!(
        htop_win::release::latest_release_from_body(b"{}", TargetArch::Amd64),
        parse_latest_release("{}", TargetArch::Amd64)
    );
}
