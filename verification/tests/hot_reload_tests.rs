use craft::behavior::Behavior;
use craft::hot_reload::{
    apply_component_changes, apply_scene_diff, compute_component_changes, compute_scene_diff, hot_reload_scene,
    snapshot_count, snapshot_node_value, ComponentChange,
};
use craft::json::{parse_json, Json};
use craft::resource::ResourceRegistry;
use craft::scene::{Component, ComponentKind, ComponentSpec, ComponentType, ComponentValue, Node, NodeDef, NodeRegistry, Scene};
use craft::strmap::StrMap;

struct Player;

impl Default for Player {
    fn default() -> Self {
        Player
    }
}

impl NodeDef for Player {
    fn node_type(&self) -> &'static str {
        "Player"
    }
    fn component_specs(&self) -> Vec<ComponentSpec> {
        vec![
            ComponentSpec::new("position", ComponentType::Vec2, doc("[0.0, 0.0]")),
            ComponentSpec::new("health", ComponentType::Int, Json::Int(100)),
        ]
    }
}

struct Enemy;

impl Default for Enemy {
    fn default() -> Self {
        Enemy
    }
}

impl NodeDef for Enemy {
    fn node_type(&self) -> &'static str {
        "Enemy"
    }
    fn component_specs(&self) -> Vec<ComponentSpec> {
        vec![ComponentSpec::new("position", ComponentType::Vec2, doc("[0.0, 0.0]"))]
    }
}

fn doc(text: &str) -> Json {
    parse_json(text).expect("test JSON parses")
}

fn registry() -> NodeRegistry {
    let mut r = NodeRegistry::new();
    r.register::<Player>();
    r.register::<Enemy>();
    r
}

fn num(x: f64) -> serde_json::Number {
    serde_json::Number::from_f64(x).unwrap()
}

fn make_node(id: &str, node_type: &str, health: i64) -> Node {
    let mut components = StrMap::new();
    components.insert(
        "position".to_string(),
        Component { value: ComponentValue::Vec2([num(0.0), num(0.0)]), kind: ComponentKind::Regular },
    );
    components.insert("health".to_string(), Component { value: ComponentValue::Int(health), kind: ComponentKind::Regular });
    Node {
        id: id.to_string(),
        node_type: node_type.to_string(),
        parent: None,
        components,
        behaviors: vec![],
        active_state: None,
        lua_class: None,
        destroyed: false,
    }
}

fn make_scene(nodes: Vec<Node>) -> Scene {
    Scene { kind: "scene".to_string(), name: "t".to_string(), nodes, spawn_counter: 0 }
}

fn set_health(scene: &mut Scene, index: usize, value: i64) {
    scene.nodes[index]
        .components
        .insert("health".to_string(), Component { value: ComponentValue::Int(value), kind: ComponentKind::Regular });
}

#[test]
fn diff_detects_component_change() {
    let current = make_scene(vec![make_node("p1", "Player", 100)]);
    let mut new = make_scene(vec![make_node("p1", "Player", 100)]);
    set_health(&mut new, 0, 50);
    let diff = compute_scene_diff(&current, &new);
    let changes = diff.component_changes.get("p1").expect("changes");
    assert!(changes.contains_key("health"));
}

#[test]
fn diff_detects_added_node() {
    let current = make_scene(vec![make_node("p1", "Player", 100)]);
    let new = make_scene(vec![make_node("p1", "Player", 100), make_node("e1", "Enemy", 0)]);
    let diff = compute_scene_diff(&current, &new);
    assert_eq!(diff.added_nodes.len(), 1);
    assert_eq!(diff.added_nodes[0].id, "e1");
}

#[test]
fn diff_detects_removed_node() {
    let mut current = make_scene(vec![make_node("p1", "Player", 100), make_node("e1", "Enemy", 0)]);
    let new = make_scene(vec![make_node("p1", "Player", 100)]);
    let diff = compute_scene_diff(&current, &new);
    assert_eq!(diff.removed_node_ids, vec!["e1".to_string()]);
    current.nodes.retain(|n| n.id != "e1");
    apply_scene_diff(&mut current, &registry(), &diff).expect("apply");
    assert_eq!(current.nodes.len(), 1);
}

#[test]
fn diff_detects_behavior_change() {
    let current = make_scene(vec![make_node("p1", "Player", 100)]);
    let mut new = make_scene(vec![make_node("p1", "Player", 100)]);
    new.nodes[0].behaviors = vec![Behavior::OnTick { actions: vec![] }];
    let diff = compute_scene_diff(&current, &new);
    assert!(diff.behavior_changes.contains_key("p1"));
}

#[test]
fn diff_detects_type_change() {
    let current = make_scene(vec![make_node("p1", "Player", 100)]);
    let mut new = make_scene(vec![make_node("p1", "Player", 100)]);
    new.nodes[0].node_type = "Enemy".to_string();
    let diff = compute_scene_diff(&current, &new);
    assert_eq!(diff.type_changes.get("p1"), Some(&"Enemy".to_string()));
}

#[test]
fn apply_preserves_node_ids() {
    let mut current = make_scene(vec![make_node("p1", "Player", 100)]);
    let mut new = make_scene(vec![make_node("p1", "Player", 100)]);
    set_health(&mut new, 0, 50);
    let diff = compute_scene_diff(&current, &new);
    apply_scene_diff(&mut current, &registry(), &diff).expect("apply");
    assert_eq!(current.nodes[0].id, "p1");
}

#[test]
fn empty_diff_when_unchanged() {
    let current = make_scene(vec![make_node("p1", "Player", 100)]);
    let new = make_scene(vec![make_node("p1", "Player", 100)]);
    let diff = compute_scene_diff(&current, &new);
    assert!(diff.is_empty());
}

#[test]
fn hot_reload_returns_applied_false_when_unchanged() {
    let mut current = make_scene(vec![make_node("p1", "Player", 100)]);
    let new = make_scene(vec![make_node("p1", "Player", 100)]);
    let result = hot_reload_scene(&mut current, &registry(), &new).expect("hot reload");
    assert!(!result.applied);
}

#[test]
fn hot_reload_applies_changes() {
    let mut current = make_scene(vec![make_node("p1", "Player", 100)]);
    let mut new = make_scene(vec![make_node("p1", "Player", 100)]);
    set_health(&mut new, 0, 50);
    let result = hot_reload_scene(&mut current, &registry(), &new).expect("hot reload");
    assert!(result.applied);
    assert_eq!(result.affected_node_ids, vec!["p1".to_string()]);
    let health = current.nodes[0].components.get("health").expect("health").value.clone();
    assert_eq!(health, ComponentValue::Int(50));
}

#[test]
fn resource_ref_snapshot_version_preserved() {
    let mut r = ResourceRegistry::new();
    let id1 = r.register("res://foo.json", doc(r#"{"hp": 100}"#));
    let v1 = r.version(id1).expect("version");
    let _id_again = r.register("res://foo.json", doc(r#"{"hp": 150}"#));
    let v_after = r.version(id1).expect("version after");
    assert_eq!(v1, v_after, "re-registering does not bump the existing version");
    let ref1 = r.resolve_ref("res://foo.json").expect("ref");
    assert_eq!(ref1.snapshot_version, v1);
}

#[test]
fn new_resource_gets_higher_version() {
    let mut r = ResourceRegistry::new();
    let id1 = r.register("res://a.json", doc("{}"));
    let v1 = r.version(id1).expect("v1");
    let id2 = r.register("res://b.json", doc("{}"));
    let v2 = r.version(id2).expect("v2");
    assert!(v2 > v1, "new resources get strictly higher versions");
}

#[test]
fn reload_skips_unregistered_types_and_keeps_later_duplicates() {
    let mut current = make_scene(vec![make_node("a", "Player", 1), make_node("b", "Player", 2), make_node("a", "Player", 3)]);
    let mut new = make_scene(vec![make_node("a", "Enemy", 9), make_node("c", "Ghost", 0), make_node("d", "Enemy", 4)]);
    new.nodes[0].behaviors = vec![Behavior::OnSignal { signal: "hit".to_string(), actions: vec![] }];
    let result = hot_reload_scene(&mut current, &registry(), &new).expect("hot reload");
    assert!(result.applied);
    assert_eq!(result.diff.removed_node_ids, vec!["b".to_string()]);
    let added: Vec<&str> = result.diff.added_nodes.iter().map(|n| n.id.as_str()).collect();
    assert_eq!(added, vec!["c", "d"]);
    assert_eq!(result.affected_node_ids, vec!["a".to_string(), "b".to_string(), "c".to_string(), "d".to_string()]);
    // "b" is gone; both "a" nodes stay, only the first is updated; "Ghost" is not registered.
    let ids: Vec<&str> = current.nodes.iter().map(|n| n.id.as_str()).collect();
    assert_eq!(ids, vec!["a", "a", "d"]);
    assert_eq!(current.nodes[0].node_type, "Enemy");
    assert_eq!(current.nodes[1].node_type, "Player");
    assert_eq!(current.nodes[0].behaviors.len(), 1);
    assert!(current.nodes[1].behaviors.is_empty());
    assert_eq!(current.nodes[0].components.get("health").unwrap().value, ComponentValue::Int(9));
    assert_eq!(current.nodes[1].components.get("health").unwrap().value, ComponentValue::Int(3));
    assert_eq!(snapshot_count(&current), 3);
    assert_eq!(snapshot_node_value(&current, "a", "health"), Some(ComponentValue::Int(9)));
    assert_eq!(snapshot_node_value(&current, "a", "mana"), None);
    assert_eq!(snapshot_node_value(&current, "zz", "health"), None);
}

#[test]
fn component_changes_round_trip() {
    let mut cur = StrMap::new();
    cur.insert("a".to_string(), Component { value: ComponentValue::Int(1), kind: ComponentKind::Transient });
    cur.insert("b".to_string(), Component { value: ComponentValue::Bool(true), kind: ComponentKind::Regular });
    let mut new = StrMap::new();
    new.insert("a".to_string(), Component { value: ComponentValue::Int(2), kind: ComponentKind::Regular });
    new.insert("c".to_string(), Component { value: ComponentValue::String("x".to_string()), kind: ComponentKind::Regular });
    let changes = compute_component_changes(&cur, &new);
    assert!(matches!(changes.get("a"), Some(ComponentChange::Updated { .. })));
    assert!(matches!(changes.get("b"), Some(ComponentChange::Removed { .. })));
    assert!(matches!(changes.get("c"), Some(ComponentChange::Added { .. })));
    apply_component_changes(&mut cur, &changes);
    assert_eq!(cur.get("a").unwrap().value, ComponentValue::Int(2));
    assert_eq!(cur.get("a").unwrap().kind, ComponentKind::Regular);
    assert!(cur.get("b").is_none());
    assert_eq!(cur.get("c").unwrap().value, ComponentValue::String("x".to_string()));
}

#[test]
fn reload_reaches_the_new_ids_types_and_behaviors() {
    let mut current = make_scene(vec![make_node("p1", "Player", 100), make_node("e1", "Enemy", 10)]);
    let mut changed = make_node("p1", "Enemy", 100);
    changed.behaviors = vec![craft::load_actions::decode_behavior(doc(r#"{"kind": "on_tick", "actions": []}"#)).unwrap()];
    let new = make_scene(vec![changed, make_node("n2", "Player", 5)]);
    let diff = compute_scene_diff(&current, &new);
    apply_scene_diff(&mut current, &registry(), &diff).expect("apply");
    let mut ids: Vec<&str> = current.nodes.iter().map(|n| n.id.as_str()).collect();
    ids.sort();
    assert_eq!(ids, vec!["n2", "p1"]);
    let p1 = current.nodes.iter().find(|n| n.id == "p1").unwrap();
    assert_eq!(p1.node_type, "Enemy");
    assert_eq!(p1.behaviors.len(), 1);
    let n2 = current.nodes.iter().find(|n| n.id == "n2").unwrap();
    assert_eq!(n2.node_type, "Player");
}

#[test]
fn diff_of_a_scene_with_itself_changes_no_component() {
    let scene = make_scene(vec![make_node("p1", "Player", 100), make_node("e1", "Enemy", 10)]);
    let diff = compute_scene_diff(&scene, &scene);
    assert!(diff.component_changes.is_empty());
    assert!(diff.is_empty());
}
