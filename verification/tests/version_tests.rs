use jpm::version::{parse_version, parse_version_req, strip_range_markers, Version, VersionReq};

#[test]
fn parses_plain_version() {
    assert_eq!(parse_version("1.2.3"), Some(Version { major: 1, minor: 2, patch: 3 }));
    assert_eq!(parse_version("0.0.0"), Some(Version { major: 0, minor: 0, patch: 0 }));
    assert_eq!(
        parse_version("10.200.3000"),
        Some(Version { major: 10, minor: 200, patch: 3000 })
    );
}

#[test]
fn parses_huge_components() {
    assert_eq!(
        parse_version("18446744073709551615.0.1"),
        Some(Version { major: u64::MAX, minor: 0, patch: 1 })
    );
    // One past u64::MAX must be rejected, not wrapped.
    assert_eq!(parse_version("18446744073709551616.0.1"), None);
}

#[test]
fn rejects_malformed_versions() {
    assert_eq!(parse_version(""), None);
    assert_eq!(parse_version("1"), None);
    assert_eq!(parse_version("1.2"), None);
    assert_eq!(parse_version("1.2.3.4"), None);
    assert_eq!(parse_version("01.2.3"), None);
    assert_eq!(parse_version("1.02.3"), None);
    assert_eq!(parse_version("a.b.c"), None);
    assert_eq!(parse_version("1.2.x"), None);
    assert_eq!(parse_version("latest"), None);
    assert_eq!(parse_version("1..3"), None);
    assert_eq!(parse_version(".2.3"), None);
    assert_eq!(parse_version("1.2."), None);
}

#[test]
fn orders_versions() {
    let a = Version { major: 1, minor: 2, patch: 3 };
    let b = Version { major: 1, minor: 3, patch: 0 };
    let c = Version { major: 2, minor: 0, patch: 0 };
    assert!(a.le(&a));
    assert!(a.le(&b));
    assert!(b.le(&c));
    assert!(!c.le(&a));
    assert!(!b.le(&a));
}

#[test]
fn parses_requests() {
    assert_eq!(parse_version_req("latest"), Some(VersionReq::Latest));
    assert_eq!(
        parse_version_req("1.2.3"),
        Some(VersionReq::Exact(Version { major: 1, minor: 2, patch: 3 }))
    );
    assert_eq!(
        parse_version_req("^1.2.3"),
        Some(VersionReq::Caret(Version { major: 1, minor: 2, patch: 3 }))
    );
    assert_eq!(
        parse_version_req("~0.4.1"),
        Some(VersionReq::Tilde(Version { major: 0, minor: 4, patch: 1 }))
    );
    assert_eq!(parse_version_req("newest"), None);
    assert_eq!(parse_version_req("^1.2"), None);
    assert_eq!(parse_version_req(""), None);
}

#[test]
fn strips_range_markers() {
    assert_eq!(strip_range_markers("^1.2.3"), "1.2.3");
    assert_eq!(strip_range_markers("~1.2.3"), "1.2.3");
    assert_eq!(strip_range_markers("1.2.3"), "1.2.3");
    assert_eq!(strip_range_markers("^^~1.0.0"), "1.0.0");
    assert_eq!(strip_range_markers("latest"), "latest");
    assert_eq!(strip_range_markers(""), "");
}
