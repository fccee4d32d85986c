use jpm::package::{PackageManager, PackageManifest};

fn deps_of(m: &PackageManifest) -> Vec<(String, String)> {
    m.dependencies.clone()
}

#[test]
fn default_manifest_is_empty() {
    let m = PackageManifest::default();
    assert_eq!(m.name, "");
    assert_eq!(m.version, "0.1.0");
    assert!(m.description.is_none());
    assert!(m.dependencies.is_empty());
    assert!(m.dev_dependencies.is_empty());
}

#[test]
fn init_names_the_package_after_the_directory() {
    let pm = PackageManager::new("/home/user/projects/my-tool".to_string());
    let m = pm.init_package();
    assert_eq!(m.name, "my-tool");
    assert_eq!(m.version, "0.1.0");

    let pm = PackageManager::new("".to_string());
    assert_eq!(pm.init_package().name, "my-package");

    let pm = PackageManager::new("/trailing/".to_string());
    assert_eq!(pm.init_package().name, "my-package");

    let pm = PackageManager::new("relative-dir".to_string());
    assert_eq!(pm.init_package().name, "relative-dir");
}

#[test]
fn adds_and_replaces_dependencies() {
    let pm = PackageManager::new(".".to_string());
    let mut m = PackageManifest::default();
    pm.add_dependency(&mut m, "left-pad", "^1.0.0", false);
    pm.add_dependency(&mut m, "is-even", "~2.0.0", false);
    assert_eq!(
        deps_of(&m),
        vec![
            ("left-pad".to_string(), "^1.0.0".to_string()),
            ("is-even".to_string(), "~2.0.0".to_string()),
        ]
    );
    // Re-adding a name replaces its version in place.
    pm.add_dependency(&mut m, "left-pad", "^1.3.0", false);
    assert_eq!(
        deps_of(&m),
        vec![
            ("left-pad".to_string(), "^1.3.0".to_string()),
            ("is-even".to_string(), "~2.0.0".to_string()),
        ]
    );
    assert!(m.dev_dependencies.is_empty());
}

#[test]
fn dev_dependencies_are_kept_apart() {
    let pm = PackageManager::new(".".to_string());
    let mut m = PackageManifest::default();
    pm.add_dependency(&mut m, "mocha", "^10.0.0", true);
    assert!(m.dependencies.is_empty());
    assert_eq!(m.dev_dependencies.len(), 1);
    assert_eq!(m.dev_dependencies[0].0, "mocha");
}

#[test]
fn removes_dependencies_from_both_maps() {
    let pm = PackageManager::new(".".to_string());
    let mut m = PackageManifest::default();
    pm.add_dependency(&mut m, "left-pad", "^1.0.0", false);
    pm.add_dependency(&mut m, "mocha", "^10.0.0", true);
    assert!(pm.remove_dependency(&mut m, "left-pad"));
    assert!(m.dependencies.is_empty());
    assert!(pm.remove_dependency(&mut m, "mocha"));
    assert!(m.dev_dependencies.is_empty());
    assert!(!pm.remove_dependency(&mut m, "absent"));
}
