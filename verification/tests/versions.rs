use prek::deno::version::{DenoRequest, DenoVersion};
use prek::hook::InstallInfo;
use prek::path::PathBuf;
use prek::platform::Platform;
use prek::rust::version::{RustRequest, RustVersion};
use prek::version::{
    InvalidVersion, ParseVersionError, RequestError, Version, VersionReq, newest_first, newest_of,
    sort_newest_first, try_into_u64_slice,
};
use std::cmp::Ordering;

fn deno(text: &str) -> Result<DenoRequest, RequestError> {
    DenoRequest::from_str(text, Platform::Unix, false)
}

fn rust(text: &str) -> Result<RustRequest, RequestError> {
    RustRequest::from_str(text, Platform::Unix, false)
}

fn version(text: &str) -> Version {
    Version::parse(text).unwrap()
}

#[test]
fn test_deno_request_from_str() {
    assert_eq!(deno("deno").unwrap(), DenoRequest::Any);
    assert_eq!(deno("deno@1").unwrap(), DenoRequest::Major(1));
    assert_eq!(deno("deno@1.40").unwrap(), DenoRequest::MajorMinor(1, 40));
    assert_eq!(deno("deno@1.40.0").unwrap(), DenoRequest::MajorMinorPatch(1, 40, 0));
    assert_eq!(deno("deno@latest").unwrap(), DenoRequest::Any);
    assert_eq!(deno("").unwrap(), DenoRequest::Any);
    assert_eq!(deno("1").unwrap(), DenoRequest::Major(1));
    assert_eq!(deno("1.40").unwrap(), DenoRequest::MajorMinor(1, 40));
    assert_eq!(deno("1.40.0").unwrap(), DenoRequest::MajorMinorPatch(1, 40, 0));
}

#[test]
fn test_deno_request_invalid() {
    assert!(deno("deno@1.40.0.1").is_err());
    assert!(deno("deno@1.40a").is_err());
    assert!(deno("invalid").is_err());
}

#[test]
fn deno_requests_at_the_edges() {
    assert_eq!(deno("LATEST").unwrap(), DenoRequest::Any);
    assert_eq!(deno("deno1.40").unwrap(), DenoRequest::MajorMinor(1, 40));
    let range = ">=1.40, <1.50";
    assert_eq!(
        deno(range).unwrap(),
        DenoRequest::Range(VersionReq::parse(range).unwrap(), range.to_string())
    );
    assert_eq!(
        deno("deno@^1.40").unwrap(),
        DenoRequest::Range(VersionReq::parse("^1.40").unwrap(), "deno@^1.40".to_string())
    );
    assert_eq!(
        DenoRequest::from_str("local/deno", Platform::Unix, true).unwrap(),
        DenoRequest::Path(PathBuf::unix("local/deno"))
    );
    assert_eq!(deno("local/deno"), Err(RequestError::InvalidVersion("local/deno".to_string())));
    assert!(deno("").unwrap().is_any());
    assert!(!deno("1").unwrap().is_any());
}

#[test]
fn deno_requests_match_versions() {
    let v = DenoVersion::from_str("v1.40.2").unwrap();
    assert_eq!(v.to_string(), "1.40.2");
    assert!(DenoRequest::Any.matches(&v, None));
    assert!(DenoRequest::Major(1).matches(&v, None));
    assert!(DenoRequest::MajorMinor(1, 40).matches(&v, None));
    assert!(!DenoRequest::MajorMinor(1, 41).matches(&v, None));
    assert!(DenoRequest::MajorMinorPatch(1, 40, 2).matches(&v, None));
    assert!(!DenoRequest::MajorMinorPatch(1, 40, 1).matches(&v, None));
    assert!(deno(">=1.40, <1.41").unwrap().matches(&v, None));
    assert!(!deno(">=1.41").unwrap().matches(&v, None));
    let path = PathBuf::unix("/usr/bin/deno");
    let request = DenoRequest::Path(PathBuf::unix("/usr//bin/deno"));
    assert!(request.matches(&v, Some(&path)));
    assert!(!request.matches(&v, None));
}

#[test]
fn deno_requests_are_satisfied_by_environments() {
    let mut info = InstallInfo::new(PathBuf::unix("/env"));
    info.with_language_version(Version::new(1, 40, 0));
    info.with_toolchain(PathBuf::unix("/usr/bin/deno"));
    assert!(DenoRequest::Any.satisfied_by(&info));
    assert!(DenoRequest::MajorMinor(1, 40).satisfied_by(&info));
    assert!(!DenoRequest::Major(2).satisfied_by(&info));
    assert!(DenoRequest::Path(PathBuf::unix("/usr/bin/deno")).satisfied_by(&info));
}

#[test]
fn test_request_from_str() {
    assert_eq!(rust("").unwrap(), RustRequest::Any);
    assert_eq!(rust("stable").unwrap(), RustRequest::Channel("stable".into()));
    assert_eq!(rust("beta").unwrap(), RustRequest::Channel("beta".into()));
    assert_eq!(rust("nightly").unwrap(), RustRequest::Channel("nightly".into()));
    assert_eq!(rust("1").unwrap(), RustRequest::Major(1));
    assert_eq!(rust("1.70").unwrap(), RustRequest::MajorMinor(1, 70));
    assert_eq!(rust("1.70.1").unwrap(), RustRequest::MajorMinorPatch(1, 70, 1));

    let range_str = ">=1.70, <1.72";
    assert_eq!(
        rust(range_str).unwrap(),
        RustRequest::Range(VersionReq::parse(range_str).unwrap(), range_str.into())
    );

    let toolchain_path = "/tmp/toolchains/rust-toolchain";
    let path_request = RustRequest::from_str(toolchain_path, Platform::Unix, true).unwrap();
    assert_eq!(path_request, RustRequest::Path(PathBuf::unix(toolchain_path)));
}

#[test]
fn test_invalid_requests() {
    assert!(rust("unknown-channel").is_err());
    assert!(rust("1.2.3.4").is_err());
    assert!(rust("1.2.a").is_err());
    assert!(rust("/non/existent/path/to/rust").is_err());
}

#[test]
fn test_request_matches() {
    let version = RustVersion::from_str("1.71.0").unwrap();
    let other_version = RustVersion::from_str("1.72.1").unwrap();

    assert!(RustRequest::Any.matches(&version, None));
    assert!(!RustRequest::Channel("stable".into()).matches(&version, None));
    assert!(RustRequest::Major(1).matches(&version, None));
    assert!(!RustRequest::Major(2).matches(&version, None));
    assert!(RustRequest::MajorMinor(1, 71).matches(&version, None));
    assert!(!RustRequest::MajorMinor(1, 72).matches(&version, None));
    assert!(RustRequest::MajorMinorPatch(1, 71, 0).matches(&version, None));
    assert!(!RustRequest::MajorMinorPatch(1, 71, 1).matches(&version, None));

    let toolchain_path = PathBuf::unix("/tmp/toolchains/rust-toolchain");
    let request = RustRequest::Path(toolchain_path.duplicate());
    assert!(request.matches(&version, Some(&toolchain_path)));
    assert!(!request.matches(&version, None));

    let req = || VersionReq::parse(">=1.70, <1.72").unwrap();
    assert!(RustRequest::Range(req(), ">=1.70, <1.72".into()).matches(&version, None));
    assert!(!RustRequest::Range(req(), ">=1.70, <1.72".into()).matches(&other_version, None));
}

#[test]
fn test_request_satisfied_by_install_info() {
    let toolchain_path = PathBuf::unix("/tmp/toolchains/rust-toolchain");

    let mut install_info = InstallInfo::new(PathBuf::unix("/tmp/toolchains"));
    install_info.with_language_version(Version::new(1, 71, 0));
    install_info.with_toolchain(toolchain_path.duplicate());

    assert!(RustRequest::Any.satisfied_by(&install_info));
    assert!(RustRequest::Major(1).satisfied_by(&install_info));
    assert!(RustRequest::MajorMinor(1, 71).satisfied_by(&install_info));
    assert!(RustRequest::MajorMinorPatch(1, 71, 0).satisfied_by(&install_info));
    assert!(!RustRequest::MajorMinorPatch(1, 71, 1).satisfied_by(&install_info));
    assert!(RustRequest::Path(toolchain_path.duplicate()).satisfied_by(&install_info));

    let req = RustRequest::Range(
        VersionReq::parse(">=1.70, <1.72").unwrap(),
        ">=1.70, <1.72".into(),
    );
    assert!(req.satisfied_by(&install_info));

    let req = RustRequest::Range(VersionReq::parse(">=1.72").unwrap(), ">=1.72".into());
    assert!(!req.satisfied_by(&install_info));
}

fn channel_info(channel: Option<&str>) -> InstallInfo {
    let mut install_info = InstallInfo::new(PathBuf::unix("/tmp/env"));
    install_info.with_language_version(Version::new(1, 75, 0));
    install_info.with_toolchain(PathBuf::unix("/some/path"));
    if let Some(channel) = channel {
        install_info.with_extra("rust_channel", channel);
    }
    install_info
}

#[test]
fn test_satisfied_by_channel() {
    let install_info = channel_info(Some("stable"));

    // Channel request should match when extra is set
    assert!(RustRequest::Channel("stable".into()).satisfied_by(&install_info));
    assert!(!RustRequest::Channel("nightly".into()).satisfied_by(&install_info));
    assert!(!RustRequest::Channel("beta".into()).satisfied_by(&install_info));
}

#[test]
fn test_satisfied_by_any_with_stable_channel() {
    let install_info = channel_info(Some("stable"));

    // Any request should match stable channel
    assert!(RustRequest::Any.satisfied_by(&install_info));
}

#[test]
fn test_satisfied_by_any_without_channel() {
    let install_info = channel_info(None);
    // No channel set - should still match Any if version > 0

    assert!(RustRequest::Any.satisfied_by(&install_info));
}

#[test]
fn any_is_not_satisfied_by_an_unknown_version() {
    let mut info = InstallInfo::new(PathBuf::unix("/tmp/env"));
    assert!(!RustRequest::Any.satisfied_by(&info));
    info.with_extra("rust_channel", "nightly");
    assert!(!RustRequest::Any.satisfied_by(&info));
    info.with_extra("rust_channel", "stable");
    assert!(RustRequest::Any.satisfied_by(&info));
    assert_eq!(info.get_extra("rust_channel"), Some(&"stable".to_string()));
    assert_eq!(info.get_extra("other"), None);
}

#[test]
fn versions_are_read_and_written() {
    for text in ["0.0.0", "1.70.0", "1.2.3-alpha.1", "1.2.3+build.5", "1.2.3-rc.1+x.007"] {
        let v = version(text);
        assert_eq!(v.to_string(), text);
        assert_eq!(Version::parse(&v.to_string()).unwrap(), v);
    }
    assert_eq!(version("1.70.3"), Version::new(1, 70, 3));
    assert_eq!((version("4.5.6").major(), version("4.5.6").minor()), (4, 5));
    assert_eq!(version("4.5.6").patch(), 6);
    assert_ne!(version("1.2.3"), version("1.2.3-a"));
    for text in ["", "1", "1.2", "01.2.3", "1.2.3-", "v1.2.3", " 1.2.3", "1.2.3.4"] {
        assert_eq!(Version::parse(text).unwrap_err().text, text);
    }
    assert_eq!(
        Version::parse("1.2"),
        Err(InvalidVersion {
            text: "1.2".to_string(),
            message: "unexpected end of input while parsing minor version number".to_string(),
        })
    );
    assert_eq!(
        RustVersion::from_str(" 01.2.3").unwrap_err().message,
        "invalid leading zero in major version number"
    );
    assert_eq!(
        DenoVersion::from_str("v").unwrap_err().message,
        "empty string, expected a semver version"
    );
    assert_eq!(RustVersion::default().to_string(), "0.0.0");
    assert_eq!(DenoVersion::default().to_string(), "0.0.0");
    assert_eq!(RustVersion::from_str(" 1.70.0\n").unwrap().to_string(), "1.70.0");
    assert!(RustVersion::from_str("v1.70.0").is_err());
    assert_eq!(DenoVersion::from_str("v 1.40.0").unwrap().to_string(), "1.40.0");
}

#[test]
fn requirements_are_read() {
    assert!(VersionReq::parse(">=1.70, <1.72").unwrap().matches(&version("1.71.5")));
    assert!(!VersionReq::parse("^2").unwrap().matches(&version("1.71.5")));
    assert!(VersionReq::parse("*").unwrap().matches(&version("1.71.5")));
    assert!(!VersionReq::parse("*").unwrap().matches(&version("1.71.5-beta")));
    assert_eq!(VersionReq::parse("no"), Err(ParseVersionError { text: "no".to_string() }));
}

#[test]
fn newer_versions_come_first() {
    let order = |a: &str, b: &str| newest_first(&version(a), &version(b));
    assert_eq!(order("1.10.0", "1.9.0"), Ordering::Less);
    assert_eq!(order("1.9.9", "2.0.0"), Ordering::Greater);
    assert_eq!(order("1.0.0", "1.0.0"), Ordering::Equal);
    assert_eq!(order("1.0.0", "1.0.0-rc.1"), Ordering::Less);
    assert_eq!(order("1.0.0-rc.2", "1.0.0-rc.10"), Ordering::Greater);
    assert_eq!(order("1.0.0+b", "1.0.0+a"), Ordering::Less);

    let list: Vec<Version> =
        ["1.2.0", "1.10.0", "0.9.0", "1.10.0-rc.1"].iter().map(|t| version(t)).collect();
    let sorted: Vec<String> = sort_newest_first(&list).iter().map(|v| v.to_string()).collect();
    assert_eq!(sorted, vec!["1.10.0", "1.10.0-rc.1", "1.2.0", "0.9.0"]);

    let candidates = vec![None, Some(version("1.2.0")), None, Some(version("1.3.0"))];
    assert_eq!(newest_of(&candidates), Some(3));
    assert_eq!(newest_of(&vec![None, None]), None);
    assert_eq!(newest_of(&vec![]), None);
}

#[test]
fn numbers_between_dots() {
    assert_eq!(try_into_u64_slice("1.70.0").unwrap(), vec![1, 70, 0]);
    assert_eq!(try_into_u64_slice("7").unwrap(), vec![7]);
    assert!(try_into_u64_slice("").is_err());
    assert!(try_into_u64_slice("1..2").is_err());
    assert!(try_into_u64_slice("1.x").is_err());
}

#[test]
fn the_text_of_a_version_requests_it() {
    for v in [Version::new(1, 70, 0), Version::new(0, 0, 0), Version::new(u64::MAX, 1, 2)] {
        let text = v.to_string();
        let (a, b, c) = (v.major(), v.minor(), v.patch());
        assert_eq!(rust(&text).unwrap(), RustRequest::MajorMinorPatch(a, b, c));
        assert_eq!(deno(&text).unwrap(), DenoRequest::MajorMinorPatch(a, b, c));
        assert!(rust(&text).unwrap().matches(&RustVersion(v.duplicate()), None));
    }
}

#[test]
fn more_numbers_ask_for_less() {
    let v = RustVersion(Version::new(1, 70, 5));
    let d = DenoVersion(Version::new(1, 70, 5));
    for patch in [4, 5] {
        for minor in [70, 71] {
            if RustRequest::MajorMinorPatch(1, minor, patch).matches(&v, None) {
                assert!(RustRequest::MajorMinor(1, minor).matches(&v, None));
            }
            if DenoRequest::MajorMinor(1, minor).matches(&d, None) {
                assert!(DenoRequest::Major(1).matches(&d, None));
            }
        }
    }
}

#[test]
fn versions_are_written_in_one_way() {
    let written = [
        "0.0.0",
        "1.2.3",
        "18446744073709551615.0.0",
        "1.2.3-0",
        "1.2.3-a.b-c.0",
        "1.2.3-00a",
        "1.2.3+01",
        "1.2.3-rc.1+build.007",
        "1.2.3+-",
    ];
    for text in written {
        assert_eq!(Version::parse(text).unwrap().to_string(), text);
    }
    let refused = [
        "",
        "1",
        "1.2",
        "1.2.3.4",
        "01.2.3",
        "1.2.3-",
        "1.2.3+",
        "1.2.3-+a",
        "1.2.3-a..b",
        "1.2.3-.a",
        "1.2.3-01",
        "1.2.3-a_b",
        "1.2.3+a+b",
        "1.2.3 ",
        " 1.2.3",
        "v1.2.3",
        "18446744073709551616.0.0",
        "*",
    ];
    for text in refused {
        assert_eq!(Version::parse(text).unwrap_err().text, text);
    }
}
