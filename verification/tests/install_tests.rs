use std::io::Write;

use jpm::archive::FileAction;
use jpm::downloader::{compute_sha256, verify_checksum, verify_download, DownloadError};
use jpm::installer::{install_dir_segments, BinSpec, PackageInstaller};
use jpm::util::normalize_package_name;

/// Builds a gzipped tar archive holding the given files.
fn make_tarball(files: &[(&str, &[u8])]) -> Vec<u8> {
    let mut builder = tar::Builder::new(Vec::new());
    for (path, data) in files {
        let mut header = tar::Header::new_gnu();
        header.set_size(data.len() as u64);
        header.set_mode(0o644);
        header.set_cksum();
        builder.append_data(&mut header, path, *data).unwrap();
    }
    let tar_bytes = builder.into_inner().unwrap();
    let mut gz = flate2::write::GzEncoder::new(Vec::new(), flate2::Compression::default());
    gz.write_all(&tar_bytes).unwrap();
    gz.finish().unwrap()
}

fn plan_paths(actions: &[FileAction]) -> Vec<String> {
    actions
        .iter()
        .map(|a| match a {
            FileAction::Dir { path, .. } => path.clone(),
            FileAction::File { path, .. } => path.clone(),
        })
        .collect()
}

#[test]
fn hashes_known_vectors() {
    assert_eq!(
        compute_sha256(b"hello"),
        "2cf24dba5fb0a30e26e83b2ac5b9e29e1b161e5c1fa7425e73043362938b9824"
    );
    assert_eq!(
        compute_sha256(b""),
        "e3b0c44298fc1c149afbf4c8996fb92427ae41e4649b934ca495991b7852b855"
    );
}

#[test]
fn checksum_comparison_ignores_case() {
    let hex_upper = "2CF24DBA5FB0A30E26E83B2AC5B9E29E1B161E5C1FA7425E73043362938B9824";
    assert!(verify_checksum(b"hello", hex_upper));
    assert!(verify_checksum(
        b"hello",
        "2cf24dba5fb0a30e26e83b2ac5b9e29e1b161e5c1fa7425e73043362938b9824"
    ));
    assert!(!verify_checksum(b"hello!", hex_upper));
    assert!(!verify_checksum(b"hello", "2cf24dba"));
}

#[test]
fn mismatched_checksum_is_rejected() {
    let bytes: Vec<u8> = b"tarball bytes".to_vec();
    let declared = compute_sha256(b"entirely different bytes");
    match verify_download(&bytes, &declared) {
        Err(DownloadError::ChecksumError) => {},
        _ => panic!("corrupt bytes must be rejected with a checksum error"),
    }
    let good = compute_sha256(&bytes);
    assert!(verify_download(&bytes, &good).is_ok());
}

#[test]
fn strips_the_common_package_prefix() {
    let tgz = make_tarball(&[
        ("package/package.json", b"{}".as_slice()),
        ("package/index.js", b"module.exports = 1;".as_slice()),
        ("package/lib/util.js", b"// util".as_slice()),
    ]);
    let installer = PackageInstaller::new(".".to_string());
    let plan = installer.install_from_tarball(&tgz, "demo").unwrap();
    let paths = plan_paths(&plan.actions);
    assert_eq!(paths, vec!["package.json", "index.js", "lib/util.js"]);
}

#[test]
fn extracts_verbatim_without_a_common_prefix() {
    let tgz = make_tarball(&[
        ("index.js", b"1".as_slice()),
        ("lib/util.js", b"2".as_slice()),
    ]);
    let installer = PackageInstaller::new(".".to_string());
    let plan = installer.install_from_tarball(&tgz, "demo").unwrap();
    let paths = plan_paths(&plan.actions);
    assert_eq!(paths, vec!["index.js", "lib/util.js"]);
}

#[test]
fn keeps_file_contents_and_modes() {
    let tgz = make_tarball(&[("package/cli.js", b"#!/usr/bin/env node".as_slice())]);
    let installer = PackageInstaller::new(".".to_string());
    let plan = installer.install_from_tarball(&tgz, "demo").unwrap();
    assert_eq!(plan.actions.len(), 1);
    match &plan.actions[0] {
        FileAction::File { path, data, mode } => {
            assert_eq!(path, "cli.js");
            assert_eq!(data.as_slice(), b"#!/usr/bin/env node");
            assert_eq!(*mode, 0o644);
        },
        FileAction::Dir { .. } => panic!("expected a file action"),
    }
}

#[test]
fn rejects_bytes_that_are_no_archive() {
    let installer = PackageInstaller::new(".".to_string());
    let garbage: Vec<u8> = vec![1, 2, 3, 4, 5];
    assert!(installer.install_from_tarball(&garbage, "demo").is_err());
}

#[test]
fn scoped_packages_install_under_two_segments() {
    assert_eq!(install_dir_segments("@scope/name"), vec!["@scope", "name"]);
    assert_eq!(install_dir_segments("plain"), vec!["plain"]);
    assert_eq!(install_dir_segments("@weird"), vec!["@weird"]);
    assert_eq!(install_dir_segments("@a/b/c"), vec!["@a/b/c"]);

    let tgz = make_tarball(&[("package/index.js", b"1".as_slice())]);
    let installer = PackageInstaller::new(".".to_string());
    let plan = installer.install_from_tarball(&tgz, "@scope/name").unwrap();
    assert_eq!(plan.package_dir, vec!["@scope", "name"]);
}

#[test]
fn normalizes_scoped_names_only() {
    assert_eq!(normalize_package_name("@scope/name"), "@scope%2fname");
    assert_eq!(normalize_package_name("plain"), "plain");
    assert_eq!(normalize_package_name("a/b"), "a/b");
}

#[test]
fn plans_one_link_for_a_single_bin() {
    let installer = PackageInstaller::new(".".to_string());
    let links = installer.plan_bin_links("mypkg", &BinSpec::Single("cli.js".to_string()));
    assert_eq!(links.len(), 1);
    assert_eq!(links[0].name, "mypkg");
    assert_eq!(links[0].target, "cli.js");
}

#[test]
fn plans_one_link_per_bin_entry() {
    let installer = PackageInstaller::new(".".to_string());
    let bin = BinSpec::Entries(vec![
        ("foo".to_string(), "a.js".to_string()),
        ("bar".to_string(), "b.js".to_string()),
    ]);
    let links = installer.plan_bin_links("mypkg", &bin);
    assert_eq!(links.len(), 2);
    assert_eq!(links[0].name, "foo");
    assert_eq!(links[0].target, "a.js");
    assert_eq!(links[1].name, "bar");
    assert_eq!(links[1].target, "b.js");
}

#[test]
fn no_bin_field_plans_nothing() {
    let installer = PackageInstaller::new(".".to_string());
    assert!(installer.plan_bin_links("mypkg", &BinSpec::Missing).is_empty());
}

#[test]
fn empty_archive_plans_nothing() {
    let tgz = make_tarball(&[]);
    let installer = PackageInstaller::new(".".to_string());
    let plan = installer.install_from_tarball(&tgz, "demo").unwrap();
    assert!(plan.actions.is_empty());
    assert_eq!(plan.package_dir, vec!["demo"]);
}
