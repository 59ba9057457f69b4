use craft::json::Json;
use craft::replay::{diff, snapshot_at, validate_module_records, InputFrame, ModuleRecord, ReplayEvent, SignalRecord, TickReport};
use craft::strmap::StrMap;

fn frame(tick: u64, state_hash: u64, signals: &[&str]) -> TickReport {
    TickReport {
        tick,
        input: InputFrame::empty(),
        state_hash,
        signals_emitted: signals.iter().map(|s| SignalRecord { name: s.to_string(), args: StrMap::new() }).collect(),
    }
}

fn module(name: &str, version: &str, sha256: &str) -> ModuleRecord {
    ModuleRecord { name: name.to_string(), version: version.to_string(), sha256: sha256.to_string() }
}

#[test]
fn snapshot_at_returns_frame() {
    let frames = vec![frame(0, 111, &[]), frame(5, 555, &[])];
    assert_eq!(snapshot_at(&frames, 5).map(|f| f.state_hash), Some(555));
    assert_eq!(snapshot_at(&frames, 0).map(|f| f.state_hash), Some(111));
    assert!(snapshot_at(&frames, 3).is_none());
}

#[test]
fn diff_returns_identical_for_same_hash() {
    let frames = vec![frame(0, 100, &[]), frame(1, 100, &[])];
    let d = diff(&frames, 0, 1).expect("diff");
    assert!(d.identical);
}

#[test]
fn diff_computes_signal_added_and_removed() {
    let frames = vec![frame(0, 100, &["tower_fire"]), frame(1, 200, &["tower_fire", "enemy_died"])];
    let d = diff(&frames, 0, 1).expect("diff");
    assert!(!d.identical, "different hashes must not be identical");
    assert_eq!(d.nodes_added, 1, "enemy_died is new");
    assert_eq!(d.nodes_removed, 0);
    assert_eq!((d.tick_a, d.tick_b, d.a_hash, d.b_hash), (0, 1, 100, 200));
    assert!(diff(&frames, 0, 7).is_none());
}

#[test]
fn replay_runner_validates_module_records_returns_no_mismatches_on_match() {
    let modules = vec![module("lib.foo", "1.0.0", "abc")];
    let mismatches = validate_module_records(&modules, &modules);
    assert!(mismatches.is_empty(), "no mismatches expected: {mismatches:?}");
}

#[test]
fn replay_runner_detects_version_drift() {
    let recorded = vec![module("lib.foo", "1.0.0", "abc")];
    let current = vec![module("lib.foo", "2.0.0", "abc")];
    let mismatches = validate_module_records(&recorded, &current);
    assert_eq!(mismatches.len(), 1, "{mismatches:?}");
    assert!(mismatches[0].contains("version drift"));
}

#[test]
fn replay_runner_detects_source_hash_drift() {
    let recorded = vec![module("lib.bar", "1.0.0", "aaa")];
    let current = vec![module("lib.bar", "1.0.0", "bbb")];
    let mismatches = validate_module_records(&recorded, &current);
    assert_eq!(mismatches.len(), 1);
    assert!(mismatches[0].contains("hash drift"));
}

#[test]
fn replay_runner_detects_added_and_removed_modules() {
    let recorded = vec![module("lib.used", "1.0.0", "x")];
    let current = vec![module("lib.used", "1.0.0", "x"), module("lib.added", "1.0.0", "y")];
    let mismatches = validate_module_records(&recorded, &current);
    assert_eq!(mismatches.len(), 1);
    assert!(mismatches[0].contains("not used during recording"), "{mismatches:?}");
}

#[test]
fn replay_event_checks_recorded_hash() {
    let ok = ReplayEvent::new(3, 20, 20, 21);
    assert!(ok.hash_ok);
    let bad = ReplayEvent::new(3, 10, 20, 21);
    assert!(!bad.hash_ok);
    assert_eq!((bad.tick, bad.pre_hash, bad.recorded_hash, bad.post_hash), (3, 10, 20, 21));
    let _ = Json::Null;
}
