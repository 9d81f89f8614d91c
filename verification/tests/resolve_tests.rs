use pypackage::constraint::constraints_from_str;
use pypackage::package::Pin;
use pypackage::req::Req;
use pypackage::resolution::{find_entry, resolve, IndexEntry};
use pypackage::resolve::{
    applicable_reqs, is_name_before, pick_best, Candidate, Dependency, ResolveError, Resolver,
};
use pypackage::version::Version;

fn v(s: &str) -> Version {
    Version::from_str(s).unwrap()
}

fn req(line: &str) -> Req {
    Req::from_str(line, false).unwrap()
}

fn dep(entry: &str) -> Dependency {
    Dependency { req: Req::from_str(entry, true).unwrap(), extra: None }
}

fn candidate(version: &str, deps: &[&str]) -> Candidate {
    Candidate {
        version: v(version),
        requires_python: Vec::new(),
        dependencies: deps.iter().map(|d| dep(d)).collect(),
    }
}

fn entry(name: &str, candidates: Vec<Candidate>) -> IndexEntry {
    IndexEntry { name: name.to_string(), candidates }
}

fn shown(pins: &[Pin]) -> Vec<String> {
    pins.iter().map(|p| format!("{}={}", p.name, p.version.to_string())).collect()
}

fn py37() -> Version {
    Version::new_short(3, 7)
}

#[test]
fn picks_the_highest_version_that_satisfies() {
    let index = vec![entry(
        "requests",
        vec![candidate("2.21.0", &[]), candidate("3.0.0", &[]), candidate("2.22.0", &[]), candidate("1.9", &[])],
    )];
    let got = resolve(&vec![req("requests = \"^2\"")], &index, &py37(), &Vec::new()).unwrap();
    assert_eq!(shown(&got), vec!["requests=2.22.0"]);
}

#[test]
fn pulls_in_transitive_dependencies() {
    let index = vec![
        entry("requests", vec![candidate("2.22.0", &["chardet (<3.1.0,>=3.0.2)", "idna (<2.9,>=2.5)", "urllib3"])]),
        entry("chardet", vec![candidate("3.0.4", &[]), candidate("3.1.0", &[])]),
        entry("idna", vec![candidate("2.8", &[]), candidate("2.9", &[])]),
        entry("urllib3", vec![candidate("1.25.3", &["idna (>=2.0)"])]),
    ];
    let got = resolve(&vec![req("requests = \"^2\"")], &index, &py37(), &Vec::new()).unwrap();
    assert_eq!(shown(&got), vec!["requests=2.22.0", "chardet=3.0.4", "idna=2.8", "urllib3=1.25.3"]);
}

#[test]
fn requirements_are_looked_at_in_name_order() {
    let index = vec![
        entry("zeta", vec![candidate("1.0", &[])]),
        entry("Alpha", vec![candidate("1.0", &[])]),
        entry("mid", vec![candidate("1.0", &[])]),
    ];
    let one = resolve(&vec![req("zeta"), req("alpha"), req("Mid")], &index, &py37(), &Vec::new()).unwrap();
    let two = resolve(&vec![req("Mid"), req("zeta"), req("alpha")], &index, &py37(), &Vec::new()).unwrap();
    assert_eq!(shown(&one), vec!["alpha=1.0", "Mid=1.0", "zeta=1.0"]);
    assert_eq!(shown(&two), shown(&one));
    assert!(is_name_before("Alpha", "beta"));
    assert!(!is_name_before("beta", "Alpha"));
    assert!(!is_name_before("same", "SAME"));
    assert!(is_name_before("ab", "abc"));
}

#[test]
fn names_are_unique_and_every_requirement_is_satisfied() {
    let index = vec![
        entry("a", vec![candidate("1.0", &["C (>=1)"]), candidate("1.1", &["c (>=1.2)"])]),
        entry("b", vec![candidate("2.0", &["c (<2)"])]),
        entry("c", vec![candidate("1.0", &[]), candidate("1.5", &[]), candidate("2.0", &[])]),
    ];
    let reqs = vec![req("a = \"^1\""), req("B = \">=1\""), req("c"), req("A = \"<3\"")];
    let got = resolve(&reqs, &index, &py37(), &Vec::new()).unwrap();
    for i in 0..got.len() {
        for j in 0..i {
            assert_ne!(got[i].name.to_lowercase(), got[j].name.to_lowercase());
        }
    }
    for r in &reqs {
        let chosen = got.iter().find(|p| p.name.to_lowercase() == r.name.to_lowercase()).unwrap();
        assert!(r.constraints.iter().all(|c| c.is_compatible(&chosen.version)));
    }
    assert_eq!(shown(&got), vec!["a=1.1", "B=2.0", "c=1.5"]);
}

#[test]
fn constraint_conflict() {
    let index = vec![entry("a", vec![candidate("1.0", &[]), candidate("1.5", &[]), candidate("2.1", &[])])];
    let got = resolve(&vec![req("a = \"^1\""), req("a = \"^2\"")], &index, &py37(), &Vec::new());
    match got {
        Err(ResolveError::Conflict { name, constraints, first, second }) => {
            assert_eq!(name, "a");
            assert_eq!(constraints.len(), 2);
            assert!(first == v("1.5"));
            assert!(second == v("2.1"));
        }
        other => panic!("{:?}", other),
    }
}

#[test]
fn unsatisfiable_requirement() {
    let index = vec![entry("a", vec![candidate("1.0", &[]), candidate("1.5", &[])])];
    match resolve(&vec![req("a = \"^3\"")], &index, &py37(), &Vec::new()) {
        Err(ResolveError::Unsatisfiable { name, constraints }) => {
            assert_eq!(name, "a");
            assert_eq!(constraints.len(), 1);
        }
        other => panic!("{:?}", other),
    }
    match resolve(&vec![req("a = \"^1\""), req("a = \"^3\"")], &index, &py37(), &Vec::new()) {
        Err(ResolveError::Unsatisfiable { name, .. }) => assert_eq!(name, "a"),
        other => panic!("{:?}", other),
    }
    match resolve(&vec![req("a")], &vec![entry("a", Vec::new())], &py37(), &Vec::new()) {
        Err(ResolveError::Unsatisfiable { name, .. }) => assert_eq!(name, "a"),
        other => panic!("{:?}", other),
    }
}

#[test]
fn package_missing_from_the_index() {
    let index = vec![entry("a", vec![candidate("1.0", &["ghost (>=1)"])])];
    match resolve(&vec![req("a")], &index, &py37(), &Vec::new()) {
        Err(ResolveError::Missing { name }) => assert_eq!(name, "ghost"),
        other => panic!("{:?}", other),
    }
    assert_eq!(find_entry(&index, "A"), Some(0));
    assert_eq!(find_entry(&index, "b"), None);
}

#[test]
fn interpreter_requirements_filter_versions() {
    let mut new = candidate("2.0", &[]);
    new.requires_python = constraints_from_str(">=3.8").unwrap();
    let mut old = candidate("1.0", &[]);
    old.requires_python = constraints_from_str(">=2.7, !=3.0.*").unwrap();
    let index = vec![entry("a", vec![old, new])];
    let got = resolve(&vec![req("a")], &index, &py37(), &Vec::new()).unwrap();
    assert_eq!(shown(&got), vec!["a=1.0"]);
    let got = resolve(&vec![req("a")], &index, &Version::new_short(3, 8), &Vec::new()).unwrap();
    assert_eq!(shown(&got), vec!["a=2.0"]);
    assert!(resolve(&vec![req("a")], &index, &Version::new_short(2, 6), &Vec::new()).is_err());
}

#[test]
fn a_prerelease_wins_only_without_a_stable_release() {
    let index = vec![entry("a", vec![candidate("1.0", &[]), candidate("2.0rc1", &[]), candidate("1.1dev3", &[])])];
    let got = resolve(&vec![req("a = \"^1\"")], &index, &py37(), &Vec::new()).unwrap();
    assert_eq!(shown(&got), vec!["a=1.1dev3"]);
    let got = resolve(&vec![req("a = \">=1, <1.1dev1\"")], &index, &py37(), &Vec::new()).unwrap();
    assert_eq!(shown(&got), vec!["a=1.0"]);
    let got = resolve(&vec![req("a = \">=1.5\"")], &index, &py37(), &Vec::new()).unwrap();
    assert_eq!(shown(&got), vec!["a=2.0rc1"]);
    let candidates = vec![candidate("1.0", &[]), candidate("1.0.0", &[]), candidate("0.9", &[])];
    assert_eq!(pick_best(&candidates, &Vec::new(), &py37()), Some(0));
    assert_eq!(pick_best(&Vec::new(), &Vec::new(), &py37()), None);
}

#[test]
fn a_selection_is_revised_once() {
    let index = vec![
        entry("c", vec![candidate("1.0", &[]), candidate("1.3", &[]), candidate("1.5", &[]), candidate("2.0", &[])]),
        entry("y", vec![candidate("1.0", &["c (<1.5)"])]),
        entry("z", vec![candidate("1.0", &["c (<1.3)"])]),
    ];
    let got = resolve(&vec![req("c = \">=1\""), req("y")], &index, &py37(), &Vec::new()).unwrap();
    assert_eq!(shown(&got), vec!["c=1.3", "y=1.0"]);
    match resolve(&vec![req("c = \">=1\""), req("y"), req("z")], &index, &py37(), &Vec::new()) {
        Err(ResolveError::Conflict { name, constraints, first, second }) => {
            assert_eq!(name, "c");
            assert_eq!(constraints.len(), 3);
            assert!(first == v("1.3"));
            assert!(second == v("1.0"));
        }
        other => panic!("{:?}", other),
    }
}

#[test]
fn dependency_cycles_end() {
    let index = vec![
        entry("a", vec![candidate("1.0", &["b (>=1)"])]),
        entry("b", vec![candidate("1.0", &["a (>=1)"])]),
    ];
    let got = resolve(&vec![req("a")], &index, &py37(), &Vec::new()).unwrap();
    assert_eq!(shown(&got), vec!["a=1.0", "b=1.0"]);
}

#[test]
fn dependencies_of_optional_groups_need_the_group() {
    let mut with_extra = candidate("1.0", &["base (>=1)"]);
    with_extra.dependencies.push(Dependency {
        req: Req::from_str("pysocks (>=1.5)", true).unwrap(),
        extra: Some("socks".to_string()),
    });
    let index = vec![
        entry("a", vec![with_extra.clone()]),
        entry("base", vec![candidate("1.0", &[])]),
        entry("pysocks", vec![candidate("1.7", &[])]),
    ];
    let plain = resolve(&vec![req("a")], &index, &py37(), &Vec::new()).unwrap();
    assert_eq!(shown(&plain), vec!["a=1.0", "base=1.0"]);
    let socks = resolve(&vec![req("a")], &index, &py37(), &vec!["socks".to_string()]).unwrap();
    assert_eq!(shown(&socks), vec!["a=1.0", "base=1.0", "pysocks=1.7"]);
    let other = applicable_reqs(&with_extra.dependencies, &vec!["tests".to_string()]);
    assert_eq!(other.len(), 1);
    assert_eq!(other[0].name, "base");
}

#[test]
fn the_machine_can_be_driven_step_by_step() {
    let mut machine = Resolver::new(&vec![req("b = \"^1\""), req("a")], py37(), &Vec::new());
    assert!(!machine.is_done());
    assert_eq!(machine.next_name(), "a");
    machine.feed(&vec![candidate("0.3", &["b (<1.5)"])]).unwrap();
    assert_eq!(machine.next_name(), "b");
    machine.feed(&vec![candidate("1.4", &[]), candidate("1.6", &[])]).unwrap();
    assert_eq!(shown(&machine.resolved()), vec!["a=0.3", "b=1.6"]);
    assert_eq!(machine.next_name(), "b");
    machine.feed(&vec![candidate("1.4", &[]), candidate("1.6", &[])]).unwrap();
    assert!(machine.is_done());
    assert_eq!(shown(&machine.resolved()), vec!["a=0.3", "b=1.4"]);
}

#[test]
fn a_failed_step_leaves_the_machine_as_it_was() {
    let mut machine = Resolver::new(&vec![req("a = \"^2\"")], py37(), &Vec::new());
    assert!(machine.feed(&vec![candidate("1.0", &[])]).is_err());
    assert_eq!(machine.next_name(), "a");
    assert!(machine.resolved().is_empty());
    machine.feed(&vec![candidate("2.0", &[])]).unwrap();
    assert!(machine.is_done());
}

#[test]
fn nothing_required_resolves_to_nothing() {
    let got = resolve(&Vec::new(), &Vec::new(), &py37(), &Vec::new()).unwrap();
    assert!(got.is_empty());
}
