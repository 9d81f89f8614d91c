use pypackage::engine::{Phase, SyncAction, SyncEngine};
use pypackage::package::{is_listed, Pin};
use pypackage::version::Version;

fn pin(name: &str, version: &str) -> Pin {
    Pin::new(name.to_string(), Version::from_str(version).unwrap())
}

fn shown(action: &SyncAction) -> String {
    match action {
        SyncAction::Install(p) => format!("install {}={}", p.name, p.version.to_string()),
        SyncAction::Remove(p) => format!("remove {}={}", p.name, p.version.to_string()),
        SyncAction::WriteLock(lock) => format!("lock {}", lock.package.as_ref().map(|p| p.len()).unwrap_or(0)),
        SyncAction::Nothing => "nothing".to_string(),
    }
}

fn run(engine: &mut SyncEngine, fail_at: Option<usize>) -> Vec<String> {
    let mut log = Vec::new();
    loop {
        let action = engine.next_action();
        if let SyncAction::Nothing = action {
            return log;
        }
        log.push(shown(&action));
        engine.record(Some(log.len()) != fail_at);
    }
}

#[test]
fn installs_come_before_removals_and_the_lock_is_last() {
    let resolved = vec![pin("a", "1.0"), pin("b", "2.0"), pin("c", "3.0")];
    let installed = vec![pin("x", "9"), pin("B", "2"), pin("c", "2.9")];
    let mut engine = SyncEngine::start(resolved, &installed);
    assert_eq!(engine.phase, Phase::Installing);
    let log = run(&mut engine, None);
    assert_eq!(log, vec!["install a=1.0", "install c=3.0", "remove x=9", "remove c=2.9", "lock 3"]);
    assert!(engine.is_finished());
    assert!(matches!(engine.next_action(), SyncAction::Nothing));
}

#[test]
fn a_failed_installation_stops_everything() {
    let resolved = vec![pin("a", "1.0"), pin("b", "2.0")];
    let installed = vec![pin("x", "9")];
    let mut engine = SyncEngine::start(resolved, &installed);
    let log = run(&mut engine, Some(2));
    assert_eq!(log, vec!["install a=1.0", "install b=2.0"]);
    assert!(engine.failed);
    assert!(!engine.is_finished());
    assert_eq!(engine.phase, Phase::Installing);
    engine.record(true);
    assert!(engine.failed);
    assert!(matches!(engine.next_action(), SyncAction::Nothing));
}

#[test]
fn a_failed_lock_is_no_finish() {
    let mut engine = SyncEngine::start(vec![pin("a", "1.0")], &vec![pin("a", "1")]);
    assert_eq!(engine.phase, Phase::Locking);
    let log = run(&mut engine, Some(1));
    assert_eq!(log, vec!["lock 1"]);
    assert!(engine.failed && !engine.is_finished());
}

#[test]
fn nothing_to_do_but_write_the_lock() {
    let mut engine = SyncEngine::start(Vec::new(), &Vec::new());
    assert_eq!(run(&mut engine, None), vec!["lock 0"]);
    assert!(engine.is_finished());
    engine.record(false);
    assert!(engine.is_finished());
}

#[test]
fn only_removals() {
    let mut engine = SyncEngine::start(Vec::new(), &vec![pin("x", "9"), pin("y", "1")]);
    assert_eq!(engine.phase, Phase::Removing);
    assert_eq!(run(&mut engine, None), vec!["remove x=9", "remove y=1", "lock 0"]);
}

#[test]
fn carrying_out_every_action_leaves_the_resolved_set() {
    let resolved = vec![pin("a", "1.0"), pin("b", "2.0"), pin("c", "3.0")];
    let installed = vec![pin("x", "9"), pin("B", "2"), pin("c", "2.9"), pin("X", "9.0")];
    let mut inventory: Vec<Pin> = installed.iter().map(|p| p.duplicate()).collect();
    let mut engine = SyncEngine::start(resolved.iter().map(|p| p.duplicate()).collect(), &installed);
    loop {
        match engine.next_action() {
            SyncAction::Install(p) => inventory.push(p),
            SyncAction::Remove(p) => inventory.retain(|q| !q.is_match(&p)),
            SyncAction::WriteLock(_) => {}
            SyncAction::Nothing => break,
        }
        engine.record(true);
    }
    assert!(engine.is_finished());
    assert!(resolved.iter().all(|r| is_listed(&inventory, r)));
    assert!(inventory.iter().all(|p| is_listed(&resolved, p)));
    assert_eq!(inventory.len(), 3);
}
