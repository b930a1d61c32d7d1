use devenv_tasks::task_cache::contract_error;
use devenv_tasks::{
    snapshot_executable, CacheError, CachePath, CachedRun, DeclaredPathSnapshot, ExecutableLookup,
    PathSnapshot, PathState,
};

fn state(path: &str, hash: &str) -> PathState {
    PathState {
        path: path.to_string(),
        kind: "file".to_string(),
        content_hash: hash.to_string(),
    }
}

fn declared(path: &str, optional: bool, matches: Vec<PathState>) -> DeclaredPathSnapshot {
    DeclaredPathSnapshot {
        declaration: CachePath { path: path.to_string(), optional },
        matches,
    }
}

fn snapshot(declarations: Vec<DeclaredPathSnapshot>) -> PathSnapshot {
    PathSnapshot { declarations }
}

#[test]
fn only_required_paths_can_be_missing() {
    let s = snapshot(vec![
        declared("b", false, Vec::new()),
        declared("opt", true, Vec::new()),
        declared("there", false, vec![state("there", "1")]),
        declared("a", false, Vec::new()),
    ]);
    assert_eq!(s.missing_required(), vec!["b", "a"]);
    assert!(!s.is_complete());
    let complete = snapshot(vec![declared("opt", true, Vec::new())]);
    assert!(complete.missing_required().is_empty());
    assert!(complete.is_complete());
}

#[test]
fn snapshots_are_the_same_in_every_part() {
    let base = || snapshot(vec![declared("a", false, vec![state("a/1", "x"), state("a/2", "y")])]);
    assert!(base().same(&base()));
    assert_eq!(base(), base());
    let others = vec![
        snapshot(Vec::new()),
        snapshot(vec![declared("b", false, vec![state("a/1", "x"), state("a/2", "y")])]),
        snapshot(vec![declared("a", true, vec![state("a/1", "x"), state("a/2", "y")])]),
        snapshot(vec![declared("a", false, vec![state("a/1", "x")])]),
        snapshot(vec![declared("a", false, vec![state("a/1", "x"), state("a/2", "z")])]),
        snapshot(vec![declared("a", false, vec![state("a/2", "y"), state("a/1", "x")])]),
    ];
    for other in others {
        assert!(!base().same(&other));
        assert_ne!(base(), other);
    }
}

#[test]
fn snapshot_pairs_declarations_with_matches() {
    let declarations = vec![
        CachePath { path: "a".to_string(), optional: true },
        CachePath { path: "b".to_string(), optional: false },
    ];
    let s = PathSnapshot::new(&declarations, vec![vec![state("a", "1")], Vec::new()]);
    assert_eq!(
        s,
        snapshot(vec![
            declared("a", true, vec![state("a", "1")]),
            declared("b", false, Vec::new()),
        ])
    );
    assert_eq!(PathSnapshot::new(&Vec::new(), Vec::new()), snapshot(Vec::new()));
}

fn entry() -> CachedRun {
    CachedRun {
        definition_hash: "definition".to_string(),
        input_snapshot: snapshot(vec![declared("in", false, vec![state("in", "1")])]),
        output_snapshot: snapshot(vec![declared("out", false, vec![state("out", "2")])]),
        output: None,
    }
}

#[test]
fn entry_matches_its_definition_and_inputs() {
    let inputs = || snapshot(vec![declared("in", false, vec![state("in", "1")])]);
    assert!(entry().matches(&"definition".to_string(), &inputs()));
    assert!(!entry().matches(&"other".to_string(), &inputs()));
    let changed = snapshot(vec![declared("in", false, vec![state("in", "changed")])]);
    assert!(!entry().matches(&"definition".to_string(), &changed));
}

#[test]
fn entry_holds_while_its_outputs_are_there() {
    assert!(entry().outputs_hold(&entry().output_snapshot));
    let changed = snapshot(vec![declared("out", false, vec![state("out", "3")])]);
    assert!(!entry().outputs_hold(&changed));
    // An entry whose outputs were missing from the start never holds.
    let mut incomplete = entry();
    incomplete.output_snapshot = snapshot(vec![declared("out", false, Vec::new())]);
    let same = snapshot(vec![declared("out", false, Vec::new())]);
    assert!(!incomplete.outputs_hold(&same));
}

#[test]
fn breaches_of_the_contract_are_told() {
    let there = || snapshot(vec![declared("in", false, vec![state("in", "1")])]);
    let gone = || snapshot(vec![declared("in", false, Vec::new()), declared("in2", false, Vec::new())]);
    let changed = || snapshot(vec![declared("in", false, vec![state("in", "2")])]);
    assert_eq!(contract_error(&there(), &there(), &there()), None);
    assert_eq!(
        contract_error(&there(), &gone(), &gone()).as_deref(),
        Some("required cache inputs are missing after task success: in, in2")
    );
    assert_eq!(
        contract_error(&there(), &changed(), &gone()).as_deref(),
        Some("required cache outputs are missing after task success: in, in2")
    );
    assert_eq!(
        contract_error(&there(), &changed(), &there()).as_deref(),
        Some("cache inputs changed while the task was running")
    );
}

#[test]
fn executable_that_is_no_path_has_no_state() {
    let found = snapshot_executable(ExecutableLookup::Found(state("/bin/x", "h"))).unwrap();
    assert_eq!(found, Some(state("/bin/x", "h")));
    assert_eq!(snapshot_executable(ExecutableLookup::NotFound).unwrap(), None);
    let error = snapshot_executable(ExecutableLookup::Failed("denied".to_string())).unwrap_err();
    assert!(matches!(error, CacheError::Reported(_)));
    assert_eq!(error.message(), "denied");
}
