use std::path::PathBuf;

use craft::determinism::{DeterminismMode, DeterminismSwitches, RecordingLog};
use craft::modules::{eq_ignore_ascii_case, hex_encode, sha256_of_str, LockEntry, Lockfile, ModuleLoader};

#[test]
fn lockfile_empty_default() {
    let lf = Lockfile::empty();
    assert!(lf.is_empty());
    assert_eq!(lf.len(), 0);
    let d = Lockfile::default();
    assert!(d.is_empty());
}

#[test]
fn determinism_switches_compose_independently() {
    let s1 = DeterminismSwitches { rng: true, float: false, order: false };
    let s2 = s1;
    assert_eq!(s1, s2);
    let mode = DeterminismMode::Recording;
    assert!(mode.switches().rng);
    assert!(!mode.switches().float);
    assert!(!mode.switches().order);
}

#[test]
fn lockfile_lookup_finds_entry() {
    let lf = Lockfile {
        entries: vec![LockEntry {
            name: "foo".to_string(),
            version: "1.0.0".to_string(),
            path: PathBuf::from("foo.lua"),
            sha256: "abc".to_string(),
        }],
    };
    assert!(lf.lookup("foo").is_some());
    assert!(lf.lookup("bar").is_none());
}

fn entry(name: &str, path: &str, sha: &str) -> LockEntry {
    LockEntry { name: name.to_string(), version: "1.0.0".to_string(), path: PathBuf::from(path), sha256: sha.to_string() }
}

#[test]
fn lookup_takes_the_first_entry_of_a_name() {
    let lf = Lockfile { entries: vec![entry("a", "one.lua", "1"), entry("a", "two.lua", "2")] };
    assert_eq!(lf.lookup("a").unwrap().sha256, "1");
}

#[test]
fn sha256_of_str_is_lowercase_hex() {
    assert_eq!(sha256_of_str(""), "e3b0c44298fc1c149afbf4c8996fb92427ae41e4649b934ca495991b7852b855");
    assert_eq!(sha256_of_str("abc"), "ba7816bf8f01cfea414140de5dae2223b00361a396177a9cb410ff61f20015ad");
    assert_eq!(hex_encode(&[0x00, 0xab, 0x10]), "00ab10");
}

#[test]
fn hash_comparison_ignores_ascii_case() {
    assert!(eq_ignore_ascii_case("ABCdef", "abcDEF"));
    assert!(!eq_ignore_ascii_case("abc", "abd"));
    assert!(!eq_ignore_ascii_case("abc", "ab"));
}

#[test]
fn validate_lockfile_for_checks_presence_path_and_hash() {
    let empty = ModuleLoader::new(PathBuf::from("/mods"));
    assert!(empty.validate_lockfile_for("x", &PathBuf::from("/anything.lua"), Err("unread".to_string())).is_ok());

    let loader = ModuleLoader::with_lockfile(
        PathBuf::from("/mods"),
        Lockfile { entries: vec![entry("lib.vec2", "lib/vec2.lua", "ABCD")] },
    );
    let missing = loader.validate_lockfile_for("other", &PathBuf::from("/mods/other.lua"), Ok("abcd".to_string()));
    assert_eq!(missing.unwrap_err(), "luarocks.lock: module \"other\" is not in the lockfile");

    let moved = loader.validate_lockfile_for("lib.vec2", &PathBuf::from("/elsewhere/vec2.lua"), Ok("abcd".to_string()));
    assert_eq!(
        moved.unwrap_err(),
        "luarocks.lock: module \"lib.vec2\" path drift (recorded /mods/lib/vec2.lua, actual /elsewhere/vec2.lua)"
    );

    assert!(loader.validate_lockfile_for("lib.vec2", &PathBuf::from("lib/vec2.lua"), Ok("abcd".to_string())).is_ok());
    let drift = loader.validate_lockfile_for("lib.vec2", &PathBuf::from("/mods/lib/vec2.lua"), Ok("ffff".to_string()));
    assert_eq!(drift.unwrap_err(), "luarocks.lock: hash drift for \"lib.vec2\" (recorded ABCD, actual ffff)");
    let unread = loader.validate_lockfile_for("lib.vec2", &PathBuf::from("/mods/lib/vec2.lua"), Err("gone".to_string()));
    assert_eq!(unread.unwrap_err(), "luarocks.lock: cannot hash \"lib.vec2\": gone");
}

#[test]
fn resolve_file_maps_dots_to_directories() {
    let loader = ModuleLoader::new(PathBuf::from("/mods"));
    assert_eq!(loader.resolve_file("lib.vec2"), PathBuf::from("/mods/lib/vec2.lua"));
    assert_eq!(loader.resolve_file("main"), PathBuf::from("/mods/main.lua"));
}

#[test]
fn build_lockfile_pins_sources() {
    let loader = ModuleLoader::new(PathBuf::from("/mods"));
    let lf = loader.build_lockfile(&vec![("lib.vec2".to_string(), "2.0".to_string(), "abc".to_string())]);
    assert_eq!(lf.len(), 1);
    let e = &lf.entries[0];
    assert_eq!(e.name, "lib.vec2");
    assert_eq!(e.version, "2.0");
    assert_eq!(e.path, PathBuf::from("lib/vec2.lua"));
    assert_eq!(e.sha256, sha256_of_str("abc"));
}

#[test]
fn validate_lockfile_reports_first_failure() {
    let loader = ModuleLoader::with_lockfile(
        PathBuf::from("/m"),
        Lockfile { entries: vec![entry("a", "a.lua", "AA"), entry("b", "b.lua", "bb")] },
    );
    assert!(loader.validate_lockfile(&vec![Ok("aa".to_string()), Ok("BB".to_string())]).is_ok());
    let err = loader.validate_lockfile(&vec![Ok("aa".to_string()), Ok("cc".to_string())]).unwrap_err();
    assert_eq!(err, "luarocks.lock drift for module \"b\": expected sha256 bb but found cc at /m/b.lua");
    let err = loader.validate_lockfile(&vec![Err("denied".to_string()), Ok("cc".to_string())]).unwrap_err();
    assert_eq!(err, "luarocks.lock entry \"a\": cannot read /m/a.lua: denied");
    assert_eq!(loader.entry_paths(), vec![PathBuf::from("/m/a.lua"), PathBuf::from("/m/b.lua")]);
}

#[test]
fn recording_log_counts_and_clears() {
    let mut log = RecordingLog::new();
    log.record_call("spawn", "Enemy".to_string());
    log.record_dropped_write();
    log.record_dropped_write();
    assert_eq!(log.calls.len(), 1);
    assert_eq!(log.calls[0].api, "spawn");
    assert_eq!(log.dropped_writes, 2);
    log.dropped_writes = u64::MAX;
    log.record_dropped_write();
    assert_eq!(log.dropped_writes, 0);
    log.clear();
    assert!(log.calls.is_empty());
}

#[test]
fn modes_map_to_fixed_switches() {
    assert_eq!(DeterminismMode::Development.switches(), DeterminismSwitches::default());
    assert_eq!(DeterminismMode::Replay.switches(), DeterminismSwitches { rng: true, float: true, order: true });
}
