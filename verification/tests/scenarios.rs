use pypackage::config::Config;
use pypackage::lock::{lock_from_resolved, pin_to_lock};
use pypackage::os::Os;
use pypackage::package::{is_listed, Pin};
use pypackage::release::{select_release, PackageType, Release};
use pypackage::req::Req;
use pypackage::resolution::{resolve, IndexEntry};
use pypackage::resolve::{Candidate, Dependency, ResolveError};
use pypackage::sync::plan_sync;
use pypackage::version::Version;

fn candidate(version: &str, deps: &[&str]) -> Candidate {
    Candidate {
        version: Version::from_str(version).unwrap(),
        requires_python: Vec::new(),
        dependencies: deps
            .iter()
            .map(|d| Dependency { req: Req::from_str(d, true).unwrap(), extra: None })
            .collect(),
    }
}

fn entry(name: &str, candidates: Vec<Candidate>) -> IndexEntry {
    IndexEntry { name: name.to_string(), candidates }
}

fn pin(name: &str, version: &str) -> Pin {
    Pin::new(name.to_string(), Version::from_str(version).unwrap())
}

fn shown(pins: &[Pin]) -> Vec<String> {
    pins.iter().map(|p| format!("{}={}", p.name, p.version.to_string())).collect()
}

fn index() -> Vec<IndexEntry> {
    vec![
        entry(
            "requests",
            vec![
                candidate("1.2.3", &[]),
                candidate("2.21.0", &["idna (<2.9,>=2.5)"]),
                candidate("2.22.0", &["chardet (<3.1.0,>=3.0.2)", "idna (<2.9,>=2.5)", "urllib3 (>=1.21.1)"]),
                candidate("3.0.0", &[]),
            ],
        ),
        entry("chardet", vec![candidate("3.0.4", &[])]),
        entry("idna", vec![candidate("2.8", &[]), candidate("2.9", &[])]),
        entry("urllib3", vec![candidate("1.25.3", &[])]),
        entry("flask", vec![candidate("1.1.1", &["werkzeug (>=0.15)", "click (>=5.1)"])]),
        entry("werkzeug", vec![candidate("0.15.5", &[])]),
        entry("click", vec![candidate("7.0", &[])]),
        entry("numpy", vec![candidate("1.21.0", &[]), candidate("1.22.0", &[]), candidate("1.23.1", &[])]),
        entry("scipy", vec![candidate("1.8.0", &["numpy (>=1.17)"])]),
    ]
}

fn py() -> Version {
    Version::new_short(3, 7)
}

#[test]
fn fresh_install() {
    let cfg = Config::from_lines(&vec![
        "[tool.pypackage.dependencies]".to_string(),
        "requests = \"^2\"".to_string(),
    ])
    .unwrap();
    let resolved = resolve(&cfg.reqs, &index(), &py(), &Vec::new()).unwrap();
    assert_eq!(shown(&resolved), vec!["requests=2.22.0", "chardet=3.0.4", "idna=2.8", "urllib3=1.25.3"]);
    let plan = plan_sync(&resolved, &Vec::new());
    assert_eq!(shown(&plan.install), shown(&resolved));
    assert!(plan.remove.is_empty());
    let lock = lock_from_resolved(&resolved).package.unwrap();
    let locked: Vec<String> = lock.iter().map(|p| format!("{}={}", p.name, p.version)).collect();
    assert_eq!(locked, shown(&resolved));
}

#[test]
fn add_package_via_cli() {
    let lock = lock_from_resolved(&vec![pin("numpy", "1.22.0")]).package.unwrap();
    let installed = vec![pin("numpy", "1.22.0")];
    let mut reqs = vec![Req::from_str("numpy = \"^1.20\"", false).unwrap(), Req::from_str("scipy = \"^1.8.0\"", false).unwrap()];
    pin_to_lock(&mut reqs, &lock);
    assert_eq!(reqs[0].to_cfg_string(), "numpy = \"==1.22.0\"");
    let resolved = resolve(&reqs, &index(), &py(), &Vec::new()).unwrap();
    assert_eq!(shown(&resolved), vec!["numpy=1.22.0", "scipy=1.8.0"]);
    let plan = plan_sync(&resolved, &installed);
    assert_eq!(shown(&plan.install), vec!["scipy=1.8.0"]);
    assert!(plan.remove.is_empty());
}

#[test]
fn remove_package() {
    let before = resolve(
        &vec![Req::from_str("flask", false).unwrap(), Req::from_str("requests = \"~2.21.0\"", false).unwrap()],
        &index(),
        &py(),
        &Vec::new(),
    )
    .unwrap();
    assert_eq!(shown(&before), vec!["flask=1.1.1", "click=7.0", "requests=2.21.0", "idna=2.8", "werkzeug=0.15.5"]);
    let installed = before;
    let resolved =
        resolve(&vec![Req::from_str("requests = \"~2.21.0\"", false).unwrap()], &index(), &py(), &Vec::new()).unwrap();
    let plan = plan_sync(&resolved, &installed);
    assert!(plan.install.is_empty());
    assert_eq!(shown(&plan.remove), vec!["flask=1.1.1", "click=7.0", "werkzeug=0.15.5"]);
    let lock = lock_from_resolved(&resolved).package.unwrap();
    assert!(lock.iter().all(|p| p.name != "flask"));
    assert_eq!(lock.len(), 2);
    assert!(is_listed(&resolved, &pin("IDNA", "2.8")));
}

#[test]
fn source_only_package_is_built() {
    let idx = vec![entry("obscure", vec![candidate("0.1.0", &[])])];
    let resolved = resolve(&vec![Req::from_str("obscure", false).unwrap()], &idx, &py(), &Vec::new()).unwrap();
    assert_eq!(shown(&resolved), vec!["obscure=0.1.0"]);
    let releases = vec![Release {
        filename: "obscure-0.1.0.tar.gz".to_string(),
        url: "https://files.example/obscure-0.1.0.tar.gz".to_string(),
        sha256: "ab".to_string(),
        packagetype: "sdist".to_string(),
        requires_python: None,
        python_version: "source".to_string(),
    }];
    assert_eq!(select_release(&releases, Os::Linux, &py()), Ok((0, PackageType::Source)));
}

#[test]
fn conflict_is_found_before_anything_is_planned() {
    let idx = vec![entry("a", vec![candidate("1.4", &[]), candidate("2.3", &[])])];
    let reqs = vec![Req::from_str("a = \"^1\"", false).unwrap(), Req::from_str("a = \"^2\"", false).unwrap()];
    match resolve(&reqs, &idx, &py(), &Vec::new()) {
        Err(ResolveError::Conflict { name, .. }) => assert_eq!(name, "a"),
        other => panic!("{:?}", other),
    }
}
