use pypackage::lock::{exact_constraint, lock_from_resolved, lock_package, pin_to_lock, Lock, LockPackage};
use pypackage::package::{is_listed, Pin};
use pypackage::req::Req;
use pypackage::os::Os;
use pypackage::release::{PackageType, Release};
use pypackage::sync::{plan_install, plan_sync, SyncError};
use pypackage::version::Version;

fn pin(name: &str, version: &str) -> Pin {
    Pin::new(name.to_string(), Version::from_str(version).unwrap())
}

fn names(pins: &[Pin]) -> Vec<String> {
    pins.iter().map(|p| format!("{}={}", p.name, p.version.to_string())).collect()
}

#[test]
fn installs_what_is_missing_and_removes_what_is_not_resolved() {
    let resolved = vec![pin("requests", "2.22.0"), pin("idna", "2.8"), pin("urllib3", "1.25.3")];
    let installed = vec![pin("Requests", "2.22"), pin("idna", "2.7"), pin("flask", "1.1.1")];
    let plan = plan_sync(&resolved, &installed);
    assert_eq!(names(&plan.install), vec!["idna=2.8", "urllib3=1.25.3"]);
    assert_eq!(names(&plan.remove), vec!["idna=2.7", "flask=1.1.1"]);
}

#[test]
fn names_match_without_regard_to_case() {
    assert!(pin("Flask", "1.0").is_match(&pin("flask", "1.0.0")));
    assert!(!pin("Flask", "1.0").is_match(&pin("flask", "1.0.1")));
    assert!(!pin("Flask", "1.0").is_match(&pin("flash", "1.0")));
    assert!(is_listed(&vec![pin("a", "1"), pin("B", "2")], &pin("b", "2.0")));
    assert!(!is_listed(&vec![pin("a", "1"), pin("B", "2")], &pin("b", "1")));
    assert!(!is_listed(&Vec::new(), &pin("b", "1")));
}

fn carry_out(installed: &[Pin], plan: &pypackage::sync::SyncPlan) -> Vec<Pin> {
    let mut after: Vec<Pin> = installed
        .iter()
        .filter(|p| !is_listed(&plan.remove, p))
        .map(|p| p.duplicate())
        .collect();
    after.extend(plan.install.iter().map(|p| p.duplicate()));
    after
}

#[test]
fn a_second_sync_does_nothing() {
    let resolved = vec![pin("a", "1.0"), pin("b", "2.0"), pin("c", "3.0")];
    let installed = vec![pin("A", "1"), pin("b", "1.9"), pin("d", "4")];
    let plan = plan_sync(&resolved, &installed);
    let after = carry_out(&installed, &plan);
    let again = plan_sync(&resolved, &after);
    assert!(again.install.is_empty());
    assert!(again.remove.is_empty());
}

#[test]
fn after_a_sync_the_inventory_is_the_resolved_set() {
    let resolved = vec![pin("a", "1.0"), pin("b", "2.0"), pin("c", "3.0")];
    let installed = vec![pin("A", "1"), pin("b", "1.9"), pin("d", "4"), pin("c", "3")];
    let after = carry_out(&installed, &plan_sync(&resolved, &installed));
    let key = |p: &Pin| (p.name.to_lowercase(), Version::from_str(&p.version.to_string()).unwrap());
    for r in &resolved {
        assert!(after.iter().any(|p| key(p).0 == key(r).0 && key(p).1 == key(r).1));
    }
    for p in &after {
        assert!(resolved.iter().any(|r| key(p).0 == key(r).0 && key(p).1 == key(r).1));
    }
}

#[test]
fn nothing_installed_means_install_everything() {
    let resolved = vec![pin("a", "1.0"), pin("b", "2.0")];
    let plan = plan_sync(&resolved, &Vec::new());
    assert_eq!(names(&plan.install), vec!["a=1.0", "b=2.0"]);
    assert!(plan.remove.is_empty());
    let plan = plan_sync(&Vec::new(), &resolved);
    assert!(plan.install.is_empty());
    assert_eq!(names(&plan.remove), vec!["a=1.0", "b=2.0"]);
}

#[test]
fn lock_lists_every_resolved_package() {
    let resolved = vec![pin("requests", "2.22.0"), pin("idna", "2.8")];
    let lock = lock_from_resolved(&resolved);
    assert!(lock.metadata.is_none());
    let packages = lock.package.unwrap();
    assert_eq!(packages.len(), 2);
    assert_eq!(packages[0].name, "requests");
    assert_eq!(packages[0].version, "2.22.0");
    assert_eq!(
        packages[0].source.as_deref(),
        Some("pypi+https://pypi.org/pypi/requests/2.22.0/json")
    );
    assert!(packages[0].dependencies.is_none());
    assert_eq!(packages[1].name, "idna");
    assert_eq!(packages[1].source.as_deref(), Some("pypi+https://pypi.org/pypi/idna/2.8/json"));
    let one = lock_package(&pin("Six", "1.12.0rc1"));
    assert_eq!(one.version, "1.12.0rc1");
    assert_eq!(one.source.as_deref(), Some("pypi+https://pypi.org/pypi/Six/1.12.0rc1/json"));
    let empty = Lock::default();
    assert!(empty.package.is_none() && empty.metadata.is_none());
}

fn locked(name: &str, version: &str) -> LockPackage {
    LockPackage { name: name.to_string(), version: version.to_string(), source: None, dependencies: None }
}

#[test]
fn requirements_are_tied_to_the_lock_where_it_satisfies_them() {
    let mut reqs = vec![
        Req::from_str("numpy = \"^1.20\"", false).unwrap(),
        Req::from_str("scipy = \"^1.8\"", false).unwrap(),
        Req::from_str("Flask = \"^2\"", false).unwrap(),
        Req::from_str("six", false).unwrap(),
    ];
    let packages = vec![
        locked("numpy", "1.22.0"),
        locked("flask", "1.1.4"),
        locked("six", "not a version"),
        locked("SIX", "1.16"),
    ];
    pin_to_lock(&mut reqs, &packages);
    assert_eq!(reqs[0].to_cfg_string(), "numpy = \"==1.22.0\"");
    assert_eq!(reqs[1].to_cfg_string(), "scipy = \"^1.8\"");
    assert_eq!(reqs[2].to_cfg_string(), "Flask = \"^2\"");
    assert_eq!(reqs[3].to_cfg_string(), "six = \"==1.16.0\"");
}

#[test]
fn an_exact_constraint_admits_only_its_version() {
    let c = exact_constraint(&Version::new_short(1, 22));
    assert!(c.is_compatible(&Version::new(1, 22, 0)));
    assert!(c.is_compatible(&Version::new_short(1, 22)));
    assert!(!c.is_compatible(&Version::new(1, 22, 1)));
    assert!(!c.is_compatible(&Version::from_str("1.22rc1").unwrap()));
}

fn file(filename: &str, kind: &str, tag: &str) -> Release {
    Release {
        filename: filename.to_string(),
        url: format!("https://files.example/{}", filename),
        sha256: format!("sha-{}", filename),
        packagetype: kind.to_string(),
        requires_python: None,
        python_version: tag.to_string(),
    }
}

#[test]
fn the_installer_is_handed_the_chosen_file() {
    let releases = vec![
        file("numpy-1.17.0.tar.gz", "sdist", "source"),
        file("numpy-1.17.0-cp37-cp37m-win32.whl", "bdist_wheel", "cp37"),
        file("numpy-1.17.0-cp37-cp37m-manylinux1_x86_64.whl", "bdist_wheel", "cp37"),
    ];
    let got = plan_install(&pin("numpy", "1.17.0"), &releases, Os::Linux, &Version::new_short(3, 7)).unwrap();
    assert_eq!(got.name, "numpy");
    assert!(got.version == Version::new(1, 17, 0));
    assert_eq!(got.release, 2);
    assert_eq!(got.kind, PackageType::Wheel);
    assert_eq!(got.filename, "numpy-1.17.0-cp37-cp37m-manylinux1_x86_64.whl");
    assert_eq!(got.url, "https://files.example/numpy-1.17.0-cp37-cp37m-manylinux1_x86_64.whl");
    assert_eq!(got.sha256, "sha-numpy-1.17.0-cp37-cp37m-manylinux1_x86_64.whl");
    let built = plan_install(&pin("numpy", "1.17.0"), &releases, Os::Mac, &Version::new_short(3, 7)).unwrap();
    assert_eq!(built.release, 0);
    assert_eq!(built.kind, PackageType::Source);
}

#[test]
fn a_package_without_a_usable_file_stops_the_sync() {
    let releases = vec![file("numpy-1.17.0-cp37-cp37m-win32.whl", "bdist_wheel", "cp37")];
    match plan_install(&pin("numpy", "1.17.0"), &releases, Os::Linux, &Version::new_short(3, 7)) {
        Err(SyncError::NoCompatibleRelease { name, version }) => {
            assert_eq!(name, "numpy");
            assert!(version == Version::new(1, 17, 0));
        }
        Ok(_) => panic!("chose a file"),
    }
}
