use jpm::resolver::{
    DependencyResolver, PackageDist, RegistryDoc, ResolverError, VersionEntry,
};
use jpm::version::Version;

fn v(major: u64, minor: u64, patch: u64) -> Version {
    Version { major, minor, patch }
}

fn entry(ver: Version, tarball: &str, shasum: &str) -> VersionEntry {
    VersionEntry {
        version: ver,
        dist: PackageDist { tarball: tarball.to_string(), shasum: shasum.to_string() },
        dependencies: Vec::new(),
    }
}

fn doc() -> RegistryDoc {
    RegistryDoc {
        name: "left-pad".to_string(),
        latest: Some(v(2, 0, 0)),
        versions: vec![
            entry(v(1, 0, 0), "https://registry.example/lp-1.0.0.tgz", "aa"),
            entry(v(1, 2, 0), "https://registry.example/lp-1.2.0.tgz", "bb"),
            entry(v(1, 2, 9), "https://registry.example/lp-1.2.9.tgz", "cc"),
            entry(v(2, 0, 0), "https://registry.example/lp-2.0.0.tgz", "dd"),
        ],
    }
}

#[test]
fn resolves_latest_from_dist_tag() {
    let r = DependencyResolver::new("https://registry.example".to_string());
    let m = r.resolve(&doc(), "latest").unwrap();
    assert_eq!(m.name, "left-pad");
    assert_eq!(m.version, v(2, 0, 0));
    assert_eq!(m.dist.tarball, "https://registry.example/lp-2.0.0.tgz");
    assert_eq!(m.dist.shasum, "dd");
}

#[test]
fn resolves_exact_version_literally() {
    let r = DependencyResolver::new("https://registry.example".to_string());
    let m = r.resolve(&doc(), "1.2.0").unwrap();
    assert_eq!(m.version, v(1, 2, 0));
    assert_eq!(m.dist.shasum, "bb");
}

#[test]
fn caret_takes_highest_in_major_line() {
    let r = DependencyResolver::new("https://registry.example".to_string());
    let m = r.resolve(&doc(), "^1.0.0").unwrap();
    assert_eq!(m.version, v(1, 2, 9));
}

#[test]
fn tilde_stays_in_minor_line() {
    let r = DependencyResolver::new("https://registry.example".to_string());
    let m = r.resolve(&doc(), "~1.2.0").unwrap();
    assert_eq!(m.version, v(1, 2, 9));
    let m = r.resolve(&doc(), "~1.0.0").unwrap();
    assert_eq!(m.version, v(1, 0, 0));
}

#[test]
fn caret_on_zero_major_stays_in_minor_line() {
    let r = DependencyResolver::new("https://registry.example".to_string());
    let d = RegistryDoc {
        name: "tiny".to_string(),
        latest: None,
        versions: vec![entry(v(0, 2, 3), "t1", "s1"), entry(v(0, 2, 9), "t2", "s2"), entry(
            v(0, 3, 1),
            "t3",
            "s3",
        )],
    };
    let m = r.resolve(&d, "^0.2.3").unwrap();
    assert_eq!(m.version, v(0, 2, 9));
}

#[test]
fn unsatisfiable_requests_fail() {
    let r = DependencyResolver::new("https://registry.example".to_string());
    assert!(matches!(
        r.resolve(&doc(), "3.0.0"),
        Err(ResolverError::VersionResolutionFailed(_))
    ));
    assert!(matches!(
        r.resolve(&doc(), "^3.0.0"),
        Err(ResolverError::VersionResolutionFailed(_))
    ));
    assert!(matches!(
        r.resolve(&doc(), "not-a-version"),
        Err(ResolverError::VersionResolutionFailed(_))
    ));
    let untagged = RegistryDoc { name: "left-pad".to_string(), latest: None, versions: Vec::new() };
    assert!(matches!(
        r.resolve(&untagged, "latest"),
        Err(ResolverError::VersionResolutionFailed(_))
    ));
}

#[test]
fn builds_flat_dependency_tree() {
    let r = DependencyResolver::new("https://registry.example".to_string());
    let other = RegistryDoc {
        name: "is-even".to_string(),
        latest: Some(v(0, 1, 2)),
        versions: vec![entry(v(0, 1, 2), "ie", "ee")],
    };
    let docs = vec![doc(), other];
    let deps = vec![
        ("left-pad".to_string(), "^1.0.0".to_string()),
        ("is-even".to_string(), "latest".to_string()),
    ];
    let tree = r.build_dependency_tree(&deps, &docs).unwrap();
    assert_eq!(tree.len(), 2);
    assert_eq!(tree[0].0, "left-pad");
    assert_eq!(tree[0].1.version, v(1, 2, 9));
    assert_eq!(tree[1].0, "is-even");
    assert_eq!(tree[1].1.version, v(0, 1, 2));
}

#[test]
fn missing_package_is_not_found() {
    let r = DependencyResolver::new("https://registry.example".to_string());
    let docs = vec![doc()];
    let deps = vec![("no-such-package".to_string(), "latest".to_string())];
    match r.build_dependency_tree(&deps, &docs) {
        Err(ResolverError::PackageNotFound(n)) => assert_eq!(n, "no-such-package"),
        _ => panic!("expected a package-not-found error"),
    }
}
