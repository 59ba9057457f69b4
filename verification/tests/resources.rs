use craft::json::{parse_json, to_json_text, Json};
use craft::resource::{ResourceRef, ResourceRegistry};

fn doc(text: &str) -> Json {
    parse_json(text).expect("test JSON parses")
}

#[test]
fn register_assigns_unique_ids() {
    let mut r = ResourceRegistry::new();
    let a = r.register("res://sprites/player.json", doc(r#"{"hp": 100}"#));
    let b = r.register("res://sprites/enemy.json", doc(r#"{"hp": 50}"#));
    assert_ne!(a, b);
}

#[test]
fn register_is_idempotent_on_uri() {
    let mut r = ResourceRegistry::new();
    let a = r.register("res://x.json", doc("1"));
    let b = r.register("res://x.json", doc("2"));
    assert_eq!(a, b);
    assert_eq!(to_json_text(&r.get(a).unwrap().data), "1");
}

#[test]
fn resolve_uri_returns_id_after_register() {
    let mut r = ResourceRegistry::new();
    let id = r.register("res://data/foo.json", doc(r#"{"k": "v"}"#));
    assert_eq!(r.resolve("res://data/foo.json"), Some(id));
    assert_eq!(r.resolve("res://data/missing.json"), None);
}

#[test]
fn resource_ref_carries_uri_and_version() {
    let r = ResourceRef::new("res://a.json", 7);
    assert_eq!(r.uri, "res://a.json");
    assert_eq!(r.snapshot_version, 7);
}

#[test]
fn candidate_paths_follow_base_dirs_in_order() {
    let mut r = ResourceRegistry::new();
    r.add_base_dir(std::path::PathBuf::from("/a"));
    r.add_base_dir(std::path::PathBuf::from("/b"));
    let paths = r.candidate_paths("res://x/y.json").expect("res uri");
    assert_eq!(paths, vec![std::path::PathBuf::from("/a/x/y.json"), std::path::PathBuf::from("/b/x/y.json")]);
    assert!(r.candidate_paths("/etc/passwd").is_err());
}

#[test]
fn registry_counts_resources() {
    let mut r = ResourceRegistry::new();
    assert!(r.is_empty());
    r.register("res://a.json", doc("1"));
    r.register("res://b.json", doc("2"));
    r.register("res://a.json", doc("3"));
    assert_eq!(r.len(), 2);
}

#[test]
fn register_gives_newer_resources_higher_versions() {
    let mut reg = ResourceRegistry::new();
    let a = reg.register("res://a", Json::Int(1));
    let b = reg.register("res://b", Json::Int(2));
    let a2 = reg.register("res://a", Json::Int(3));
    assert_eq!(a, a2);
    assert!(reg.version(b).unwrap() > reg.version(a).unwrap());
}
