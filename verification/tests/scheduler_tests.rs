use jpm::scheduler::{parse_package_spec, Action, PackageRequest, Scheduler};
use jpm::version::Version;

fn v(major: u64, minor: u64, patch: u64) -> Version {
    Version { major, minor, patch }
}

fn req(name: &str, version_request: &str) -> PackageRequest {
    PackageRequest { name: name.to_string(), version_request: version_request.to_string() }
}

fn expect_dispatch(s: &mut Scheduler) -> PackageRequest {
    match s.next_action() {
        Action::Dispatch(r) => r,
        Action::Wait => panic!("expected a dispatch, got a wait"),
        Action::Done => panic!("expected a dispatch, got done"),
    }
}

#[test]
fn parses_package_specs() {
    let r = parse_package_spec("left-pad");
    assert_eq!(r.name, "left-pad");
    assert_eq!(r.version_request, "latest");

    let r = parse_package_spec("left-pad@1.3.0");
    assert_eq!(r.name, "left-pad");
    assert_eq!(r.version_request, "1.3.0");

    let r = parse_package_spec("@scope/pkg");
    assert_eq!(r.name, "@scope/pkg");
    assert_eq!(r.version_request, "latest");

    let r = parse_package_spec("@scope/pkg@^2.0.0");
    assert_eq!(r.name, "@scope/pkg");
    assert_eq!(r.version_request, "^2.0.0");
}

#[test]
fn runs_one_package_to_done() {
    let mut s = Scheduler::new(8, vec![req("alpha", "latest")]);
    let d = expect_dispatch(&mut s);
    assert_eq!(d.name, "alpha");
    s.on_success(d.name, v(1, 0, 0), &Vec::new());
    assert!(matches!(s.next_action(), Action::Done));
    let map = s.final_map();
    assert_eq!(map.len(), 1);
    assert_eq!(map[0].0, "alpha");
    assert_eq!(map[0].1, v(1, 0, 0));
}

#[test]
fn deduplicates_concurrent_requests() {
    // Two roots both ask for the same package; only one install may run.
    let mut s = Scheduler::new(8, vec![req("shared", "latest"), req("shared", "^1.0.0")]);
    let d = expect_dispatch(&mut s);
    assert_eq!(d.name, "shared");
    // The second request is dropped while the first is still in flight.
    assert!(matches!(s.next_action(), Action::Wait));
    s.on_success(d.name, v(1, 2, 0), &Vec::new());
    assert!(matches!(s.next_action(), Action::Done));
    let map = s.final_map();
    assert_eq!(map.len(), 1);
    assert_eq!(map[0].0, "shared");
}

#[test]
fn enqueues_discovered_dependencies_with_markers_stripped() {
    let mut s = Scheduler::new(8, vec![req("top", "latest")]);
    let d = expect_dispatch(&mut s);
    let deps = vec![
        ("mid".to_string(), "^2.1.0".to_string()),
        ("leaf".to_string(), "~0.3.0".to_string()),
    ];
    s.on_success(d.name, v(1, 0, 0), &deps);
    let d2 = expect_dispatch(&mut s);
    let d3 = expect_dispatch(&mut s);
    let mut names = vec![d2.name.clone(), d3.name.clone()];
    names.sort();
    assert_eq!(names, vec!["leaf".to_string(), "mid".to_string()]);
    let stripped = if d2.name == "mid" { &d2.version_request } else { &d3.version_request };
    assert_eq!(stripped, "2.1.0");
    s.on_success(d2.name, v(2, 1, 4), &Vec::new());
    s.on_success(d3.name, v(0, 3, 9), &Vec::new());
    assert!(matches!(s.next_action(), Action::Done));
    assert_eq!(s.final_map().len(), 3);
}

#[test]
fn reinstalling_an_installed_package_is_a_noop() {
    // An already-installed name coming around again is dropped, the run ends,
    // and the final map is unchanged: a second pass installs nothing.
    let mut s = Scheduler::new(8, vec![req("again", "latest")]);
    let d = expect_dispatch(&mut s);
    let deps = vec![("again".to_string(), "^1.0.0".to_string())];
    s.on_success(d.name, v(1, 0, 0), &deps);
    assert!(matches!(s.next_action(), Action::Done));
    let map = s.final_map();
    assert_eq!(map.len(), 1);
    assert_eq!(map[0].0, "again");
    assert_eq!(map[0].1, v(1, 0, 0));
}

#[test]
fn failure_skips_the_package_without_aborting() {
    let mut s = Scheduler::new(8, vec![req("bad", "latest"), req("good", "latest")]);
    let d1 = expect_dispatch(&mut s);
    let d2 = expect_dispatch(&mut s);
    s.on_failure(&d1.name);
    s.on_success(d2.name, v(3, 0, 0), &Vec::new());
    assert!(matches!(s.next_action(), Action::Done));
    let map = s.final_map();
    assert_eq!(map.len(), 1);
    assert_eq!(map[0].1, v(3, 0, 0));
}

#[test]
fn bounds_concurrent_installs() {
    // Capacity 2: a third task is never dispatched while two are in flight.
    let mut s = Scheduler::new(2, vec![req("a", "latest"), req("b", "latest"), req("c", "latest")]);
    let d1 = expect_dispatch(&mut s);
    let d2 = expect_dispatch(&mut s);
    assert!(matches!(s.next_action(), Action::Wait));
    s.on_success(d1.name, v(1, 0, 0), &Vec::new());
    let d3 = expect_dispatch(&mut s);
    s.on_success(d2.name, v(1, 0, 0), &Vec::new());
    s.on_success(d3.name, v(1, 0, 0), &Vec::new());
    assert!(matches!(s.next_action(), Action::Done));
    assert_eq!(s.final_map().len(), 3);
}

#[test]
fn final_map_is_sorted_whatever_the_completion_order() {
    let roots = || {
        vec![req("zeta", "latest"), req("alpha", "latest"), req("mint", "latest")]
    };

    // First run: tasks complete in dispatch order.
    let mut s1 = Scheduler::new(8, roots());
    let a = expect_dispatch(&mut s1);
    let b = expect_dispatch(&mut s1);
    let c = expect_dispatch(&mut s1);
    let (an, bn, cn) = (a.name.clone(), b.name.clone(), c.name.clone());
    s1.on_success(a.name, v(1, 0, 0), &Vec::new());
    s1.on_success(b.name, v(2, 0, 0), &Vec::new());
    s1.on_success(c.name, v(3, 0, 0), &Vec::new());

    // Second run: the same tasks complete in the opposite order.
    let mut s2 = Scheduler::new(8, roots());
    let a2 = expect_dispatch(&mut s2);
    let b2 = expect_dispatch(&mut s2);
    let c2 = expect_dispatch(&mut s2);
    let ver = |n: &str| {
        if n == an {
            v(1, 0, 0)
        } else if n == bn {
            v(2, 0, 0)
        } else {
            assert_eq!(n, cn);
            v(3, 0, 0)
        }
    };
    let vc = ver(&c2.name);
    let vb = ver(&b2.name);
    let va = ver(&a2.name);
    s2.on_success(c2.name, vc, &Vec::new());
    s2.on_success(b2.name, vb, &Vec::new());
    s2.on_success(a2.name, va, &Vec::new());

    let m1 = s1.final_map();
    let m2 = s2.final_map();
    let names1: Vec<&str> = m1.iter().map(|p| p.0.as_str()).collect();
    assert_eq!(names1, vec!["alpha", "mint", "zeta"]);
    assert_eq!(m1.len(), m2.len());
    for i in 0..m1.len() {
        assert_eq!(m1[i].0, m2[i].0);
        assert_eq!(m1[i].1, m2[i].1);
    }
}

#[test]
fn empty_roots_finish_at_once() {
    let mut s = Scheduler::new(8, Vec::new());
    assert!(matches!(s.next_action(), Action::Done));
    assert!(s.final_map().is_empty());
}
