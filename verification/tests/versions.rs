use htop_win::installer::{
    is_newer_version, parse_version, target_machine, validate_pe_executable,
    validate_target_pe_executable, TargetArch, MIN_UPDATE_SIZE,
};
use htop_win::resource_version::windows_resource_version;

fn synthetic_pe() -> Vec<u8> {
    let mut body = vec![0u8; MIN_UPDATE_SIZE + 1024];
    body[0] = b'M';
    body[1] = b'Z';
    body[0x3c..0x40].copy_from_slice(&0x80u32.to_le_bytes());
    body[0x80..0x84].copy_from_slice(b"PE\0\0");
    body[0x84..0x86].copy_from_slice(&target_machine(TargetArch::Amd64).to_le_bytes());
    body
}

#[test]
fn resource_version_uses_semver_core() {
    assert_eq!(windows_resource_version("1.2.3").unwrap(), "1,2,3,0");
    assert_eq!(
        windows_resource_version("1.2.3-beta.1+build.7").unwrap(),
        "1,2,3,0"
    );
}

#[test]
fn resource_version_rejects_oversized_components() {
    let error = windows_resource_version("1.65536.3").unwrap_err();
    assert!(error.contains("65535"));
}

#[test]
fn resource_version_reports_each_problem_exactly() {
    assert_eq!(windows_resource_version("007.0.65535").unwrap(), "7,0,65535,0");
    assert_eq!(
        windows_resource_version("1.2").unwrap_err(),
        "package version '1.2' does not have a three-part SemVer core"
    );
    assert_eq!(
        windows_resource_version("1..3").unwrap_err(),
        "package version '1..3' does not have a three-part SemVer core"
    );
    assert_eq!(
        windows_resource_version("1.x.3").unwrap_err(),
        "SemVer core component 'x' in '1.x.3' exceeds the Windows resource limit of 65535"
    );
}

#[test]
fn test_validate_pe_accepts_synthetic_pe() {
    assert!(validate_pe_executable(&synthetic_pe()).is_ok());
}

#[test]
fn test_validate_pe_rejects_empty() {
    assert!(validate_pe_executable(&[]).is_err());
}

#[test]
fn test_validate_pe_rejects_missing_mz() {
    let body = vec![b'A'; MIN_UPDATE_SIZE + 1024];
    assert!(validate_pe_executable(&body).is_err());
}

#[test]
fn test_validate_pe_rejects_too_small() {
    let mut body = synthetic_pe();
    body.truncate(MIN_UPDATE_SIZE / 2);
    assert!(validate_pe_executable(&body).is_err());
}

#[test]
fn test_validate_pe_rejects_missing_pe_signature() {
    let mut body = synthetic_pe();
    body[0x80..0x84].copy_from_slice(b"XX\0\0");
    assert!(validate_pe_executable(&body).is_err());
}

#[test]
fn test_validate_pe_rejects_out_of_bounds_e_lfanew() {
    let mut body = synthetic_pe();
    let oob = (body.len() as u32).to_le_bytes();
    body[0x3c..0x40].copy_from_slice(&oob);
    assert!(validate_pe_executable(&body).is_err());
}

#[test]
fn test_validate_pe_rejects_html_error_page() {
    let mut body = b"<html><body>404 Not Found</body></html>".to_vec();
    body.resize(MIN_UPDATE_SIZE + 1024, b' ');
    assert!(validate_pe_executable(&body).is_err());
}

#[test]
fn target_pe_must_match_the_running_architecture() {
    let body = synthetic_pe();
    assert!(validate_target_pe_executable(&body, TargetArch::Amd64).is_ok());
    assert!(validate_target_pe_executable(&body, TargetArch::Arm64).is_err());
}

#[test]
fn test_is_newer_version() {
    assert!(is_newer_version("0.2.0", "0.1.10"));
    assert!(is_newer_version("0.10.0", "0.9.9"));
    assert!(is_newer_version("1.0.0", "1.0.0-rc.1"));
    assert!(is_newer_version("1.0.0-beta.11", "1.0.0-beta.2"));
    assert!(!is_newer_version("0.1.10", "0.2.0"));
    assert!(!is_newer_version("1.0.0", "1.0.0"));
    assert!(!is_newer_version("1.0.0+build.2", "1.0.0+build.1"));
    assert!(!is_newer_version("garbage", "1.0.0"));

    let precedence = [
        "1.0.0-alpha",
        "1.0.0-alpha.1",
        "1.0.0-alpha.beta",
        "1.0.0-beta",
        "1.0.0-beta.2",
        "1.0.0-beta.11",
        "1.0.0-rc.1",
        "1.0.0",
    ];
    for versions in precedence.windows(2) {
        assert!(is_newer_version(versions[1], versions[0]));
    }
}

#[test]
fn test_parse_version_rejects_malformed_semver() {
    for version in [
        "1.2.3junk",
        "01.2.3",
        "1.02.3",
        "1.2.03",
        "1.2",
        "1.2.3-01",
        "1.2.3-",
        "1.2.3+",
        "vv1.2.3",
    ] {
        assert!(parse_version(version).is_none(), "accepted {version}");
    }
}

#[test]
fn test_parse_version_accepts_prerelease_and_build_metadata() {
    assert!(parse_version("1.2.3-beta.1+build.7").is_some());
    assert!(parse_version("v1.2.3-rc.1").is_some());
}
