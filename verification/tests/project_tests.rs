use craft::error::EngineError;
use craft::project::{PathsSection, Project, ProjectSection};
use std::path::PathBuf;

fn project(name: &str, entry_scene: Option<&str>, res_root: Option<&str>) -> Project {
    Project {
        project: ProjectSection {
            name: name.to_string(),
            entry_scene: entry_scene.map(|s| s.to_string()),
            seed: None,
            tick_hz: None,
        },
        paths: PathsSection { res_root: res_root.map(|s| s.to_string()) },
    }
}

fn manifest() -> PathBuf {
    PathBuf::from("/proj/craft.toml")
}

#[test]
fn resolves_res_root_relative_to_manifest() {
    let resolved = project("x", None, Some("assets")).resolve(&manifest()).expect("resolve");
    assert_eq!(resolved.res_root, PathBuf::from("/proj/assets"));
    assert_eq!(resolved.root, PathBuf::from("/proj"));
}

#[test]
fn rejects_absolute_res_root() {
    let err = project("x", None, Some("/etc/passwd")).resolve(&manifest()).expect_err("must fail");
    assert!(matches!(err, EngineError::Internal(_)));
    match err {
        EngineError::Internal(m) => {
            assert_eq!(m, "paths.res_root must be relative (absolute paths are forbidden): /etc/passwd")
        }
        _ => unreachable!(),
    }
}

#[test]
fn resolve_res_decodes_uri() {
    let resolved = project("x", None, Some("assets")).resolve(&manifest()).expect("resolve");
    let path = resolved.resolve_res("res://sprites/foo.json").expect("resolve");
    assert_eq!(path, PathBuf::from("/proj/assets/sprites/foo.json"));
}

#[test]
fn resolve_res_rejects_non_res_uri() {
    let resolved = project("x", None, None).resolve(&manifest()).expect("resolve");
    assert_eq!(resolved.resolve_res("/etc/passwd"), None);
    assert_eq!(resolved.resolve_res(""), None);
    assert_eq!(resolved.resolve_res("res://"), None);
}

#[test]
fn resolve_res_normalizes_parent_traversal() {
    let resolved = project("x", None, None).resolve(&manifest()).expect("resolve");
    let path = resolved.resolve_res("res://a/b/../c.json").expect("resolve");
    assert_eq!(path, PathBuf::from("/proj/a/c.json"));
}

#[test]
fn entry_scene_must_use_res_scheme() {
    let err = project("x", Some("scenes/main.json"), None).resolve(&manifest()).expect_err("must fail");
    assert!(matches!(err, EngineError::Internal(_)));
    match err {
        EngineError::Internal(m) => assert_eq!(m, "project.entry_scene must start with \"res://\": got scenes/main.json"),
        _ => unreachable!(),
    }
}

#[test]
fn resolved_defaults_tick_hz_to_60() {
    let resolved = project("x", None, None).resolve(&manifest()).expect("resolve");
    assert_eq!(resolved.tick_hz, 60);
    assert_eq!(resolved.seed, 0);
}

#[test]
fn resolved_keeps_explicit_seed_and_rate() {
    let mut p = project("tower_defense", Some("res://games/tower_defense/scene.json"), Some("."));
    p.project.seed = Some(42);
    p.project.tick_hz = Some(30);
    let resolved = p.resolve(&manifest()).expect("resolve");
    assert_eq!(resolved.seed, 42);
    assert_eq!(resolved.tick_hz, 30);
    assert_eq!(resolved.project.name, "tower_defense");
    assert_eq!(resolved.project.entry_scene.as_deref(), Some("res://games/tower_defense/scene.json"));
}
