use craft::error::{AutoFix, EngineError};
use craft::json::{parse_json, Json};
use craft::scene::{
    Component, ComponentKind, ComponentSpec, ComponentType, ComponentValue, Node, NodeDef, NodeRegistry, Scene,
};
use craft::strmap::StrMap;

fn doc(text: &str) -> Json {
    parse_json(text).expect("test JSON parses")
}

struct Player;
impl Default for Player {
    fn default() -> Self {
        Player
    }
}
impl NodeDef for Player {
    fn node_type(&self) -> &'static str {
        "Player"
    }
    fn component_specs(&self) -> Vec<ComponentSpec> {
        vec![
            ComponentSpec::new("position", ComponentType::Vec2, doc("[0.0, 0.0]")),
            ComponentSpec::new("health", ComponentType::Int, doc("100")),
        ]
    }
}

struct Enemy;
impl Default for Enemy {
    fn default() -> Self {
        Enemy
    }
}
impl NodeDef for Enemy {
    fn node_type(&self) -> &'static str {
        "Enemy"
    }
    fn component_specs(&self) -> Vec<ComponentSpec> {
        vec![ComponentSpec::new("position", ComponentType::Vec2, doc("[0.0, 0.0]"))]
    }
}

struct Wizard;
impl Default for Wizard {
    fn default() -> Self {
        Wizard
    }
}
impl NodeDef for Wizard {
    fn node_type(&self) -> &'static str {
        "Wizard"
    }
    fn component_specs(&self) -> Vec<ComponentSpec> {
        vec![
            ComponentSpec::new("position", ComponentType::Vec2, doc("[0.0, 0.0]")),
            ComponentSpec::new("health", ComponentType::Int, doc("100")),
            ComponentSpec::new("flash", ComponentType::String, doc("\"normal\"")),
        ]
    }
}

fn registry() -> NodeRegistry {
    let mut r = NodeRegistry::new();
    r.register::<Player>();
    r.register::<Enemy>();
    r
}

fn registry_with_wizard() -> NodeRegistry {
    let mut r = registry();
    r.register::<Wizard>();
    r
}

fn validation_errors(err: EngineError) -> Vec<craft::error::ValidationError> {
    match err {
        EngineError::Validation { errors, .. } => errors,
        other => panic!("expected validation error, got {other:?}"),
    }
}

#[test]
fn loads_valid_scene() {
    let json = r#"{
        "kind": "scene",
        "name": "main",
        "nodes": [
            {
                "id": "player_1",
                "type": "Player",
                "components": {
                    "position": [10.0, 20.0],
                    "health": 100
                }
            }
        ]
    }"#;
    let scene = Scene::parse(json, "scene.json", &registry()).expect("parse");
    assert_eq!(scene.kind, "scene");
    assert_eq!(scene.name, "main");
    assert_eq!(scene.nodes.len(), 1);
    assert_eq!(scene.nodes[0].id, "player_1");
    assert_eq!(scene.nodes[0].node_type, "Player");
}

#[test]
fn rejects_missing_kind() {
    let json = r#"{
        "name": "main",
        "nodes": []
    }"#;
    let errors = validation_errors(Scene::parse(json, "scene.json", &registry()).expect_err("must fail"));
    assert!(errors.iter().any(|e| e.json_path == "$.kind"));
}

#[test]
fn rejects_wrong_kind() {
    let json = r#"{
        "kind": "level",
        "name": "main",
        "nodes": []
    }"#;
    let errors = validation_errors(Scene::parse(json, "scene.json", &registry()).expect_err("must fail"));
    let e = errors.iter().find(|e| e.json_path == "$.kind").unwrap();
    assert_eq!(e.expected_type, "string literal \"scene\"");
    assert_eq!(e.auto_fixable, AutoFix::Safe);
    assert!(e.suggestion.is_some());
}

#[test]
fn rejects_unknown_node_type_with_typo_suggestion() {
    let json = r#"{
        "kind": "scene",
        "name": "main",
        "nodes": [
            { "id": "p1", "type": "Plyer", "components": {"position": [0.0, 0.0], "health": 100} }
        ]
    }"#;
    let errors = validation_errors(Scene::parse(json, "scene.json", &registry()).expect_err("must fail"));
    let e = errors.iter().find(|e| e.json_path == "$.nodes[0].type").unwrap();
    assert!(e.suggestion.as_deref().unwrap().contains("Player"));
    assert_eq!(e.auto_fixable, AutoFix::Suggested);
}

#[test]
fn unknown_component_key_uses_needs_review() {
    let json = r#"{
        "kind": "scene",
        "name": "main",
        "nodes": [
            { "id": "p1", "type": "Player", "components": { "position": [0.0, 0.0], "health": 100, "helth": 100 } }
        ]
    }"#;
    let errors = validation_errors(Scene::parse(json, "scene.json", &registry()).expect_err("must fail"));
    let e = errors.iter().find(|e| e.json_path == "$.nodes[0].components.helth").unwrap();
    assert_eq!(e.auto_fixable, AutoFix::NeedsReview, "a typo may be intended; never auto-delete without review");
    assert!(e.suggestion.as_deref().unwrap().contains("health"));
}

#[test]
fn rejects_wrong_component_type() {
    let json = r#"{
        "kind": "scene",
        "name": "main",
        "nodes": [
            { "id": "p1", "type": "Player", "components": { "position": [0.0, 0.0], "health": "fast" } }
        ]
    }"#;
    let errors = validation_errors(Scene::parse(json, "scene.json", &registry()).expect_err("must fail"));
    let e = errors.iter().find(|e| e.json_path == "$.nodes[0].components.health").unwrap();
    assert_eq!(e.expected_type, "int");
}

#[test]
fn reports_missing_required_component() {
    let json = r#"{
        "kind": "scene",
        "name": "main",
        "nodes": [
            { "id": "p1", "type": "Player", "components": { "position": [0.0, 0.0] } }
        ]
    }"#;
    let errors = validation_errors(Scene::parse(json, "scene.json", &registry()).expect_err("must fail"));
    let e = errors.iter().find(|e| e.json_path == "$.nodes[0].components.health").unwrap();
    assert_eq!(e.auto_fixable, AutoFix::Safe);
    assert!(e.suggestion.as_deref().unwrap().contains("100"));
}

#[test]
fn rejects_unknown_top_level_field() {
    let json = r#"{
        "kind": "scene",
        "name": "main",
        "nodez": [],
        "nodes": []
    }"#;
    let errors = validation_errors(Scene::parse(json, "scene.json", &registry()).expect_err("must fail"));
    let e = errors.iter().find(|e| e.json_path == "$.nodez").unwrap();
    assert_eq!(e.auto_fixable, AutoFix::Safe);
}

#[test]
fn rejects_duplicate_node_ids() {
    let json = r#"{
        "kind": "scene",
        "name": "main",
        "nodes": [
            { "id": "p1", "type": "Player", "components": { "position": [0.0, 0.0], "health": 100 } },
            { "id": "p1", "type": "Player", "components": { "position": [1.0, 1.0], "health": 50 } }
        ]
    }"#;
    let errors = validation_errors(Scene::parse(json, "scene.json", &registry()).expect_err("must fail"));
    let e = errors.iter().find(|e| e.json_path == "$.nodes[1].id").unwrap();
    assert!(e.message.contains("duplicate"));
}

#[test]
fn collects_multiple_errors() {
    let json = r#"{
        "kind": "level",
        "name": "main",
        "nodez": [],
        "nodes": [
            { "id": "p1", "type": "Player", "components": { "position": [0.0, 0.0], "health": "fast" } },
            { "id": "p2", "type": "Plyer", "components": {} }
        ]
    }"#;
    let errors = validation_errors(Scene::parse(json, "scene.json", &registry()).expect_err("must fail"));
    assert!(errors.len() >= 4, "expected >=4 errors, got {}: {:#?}", errors.len(), errors);
}

#[test]
fn accepts_empty_node_components() {
    let json = r#"{
        "kind": "scene",
        "name": "empty",
        "nodes": []
    }"#;
    let scene = Scene::parse(json, "scene.json", &registry()).expect("parse");
    assert_eq!(scene.kind, "scene");
    assert!(scene.nodes.is_empty());
}

fn make_node(id: &str, node_type: &str, components: &[(&str, ComponentValue)]) -> Node {
    let mut map = StrMap::new();
    for (k, v) in components {
        map.insert((*k).to_string(), Component { value: v.clone(), kind: ComponentKind::Regular });
    }
    Node {
        id: id.to_string(),
        node_type: node_type.to_string(),
        parent: None,
        components: map,
        behaviors: Vec::new(),
        active_state: None,
        lua_class: None,
        destroyed: false,
    }
}

fn empty_scene() -> Scene {
    Scene { kind: "scene".to_string(), name: "s".to_string(), nodes: Vec::new(), spawn_counter: 0 }
}

#[test]
fn find_node_returns_matching_node() {
    let mut scene = empty_scene();
    scene.add_node(make_node("a", "X", &[("hp", ComponentValue::Int(10))]));
    scene.add_node(make_node("b", "Y", &[("hp", ComponentValue::Int(20))]));
    assert_eq!(scene.find_node("a").map(|n| n.node_type.as_str()), Some("X"));
    assert!(scene.find_node("missing").is_none());
}

#[test]
fn next_spawn_id_increments_counter() {
    let mut scene = empty_scene();
    assert_eq!(scene.next_spawn_id("Enemy"), "__spawn_Enemy_0");
    assert_eq!(scene.next_spawn_id("Enemy"), "__spawn_Enemy_1");
    assert_eq!(scene.next_spawn_id("Tower"), "__spawn_Tower_2");
}

#[test]
fn set_and_get_component_value_round_trips() {
    let mut node = make_node("a", "X", &[("hp", ComponentValue::Int(10))]);
    assert_eq!(node.get_component_value("hp"), Some(&ComponentValue::Int(10)));
    node.set_component_value("hp", ComponentValue::Int(99)).unwrap();
    assert_eq!(node.get_component_value("hp"), Some(&ComponentValue::Int(99)));
}

#[test]
fn set_component_value_errors_on_missing_key() {
    let mut node = make_node("a", "X", &[("hp", ComponentValue::Int(10))]);
    let err = node.set_component_value("mana", ComponentValue::Int(5)).unwrap_err();
    assert!(matches!(err, EngineError::Validation { .. }));
}

#[test]
fn find_node_skips_destroyed_nodes() {
    let mut scene = empty_scene();
    scene.add_node(make_node("a", "X", &[("hp", ComponentValue::Int(10))]));
    scene.add_node(make_node("b", "Y", &[("hp", ComponentValue::Int(20))]));
    assert!(scene.find_node("a").is_some());
    if let Some(i) = scene.find_node_index_raw("a") {
        scene.nodes[i].mark_destroyed();
    }
    assert!(scene.find_node("a").is_none(), "find_node must skip destroyed nodes");
    assert!(scene.find_node_index("a").is_none(), "find_node_index must skip destroyed nodes");
    assert!(scene.find_node_index_raw("a").is_some(), "find_node_index_raw ignores destroyed flag");
}

#[test]
fn purge_destroyed_physically_removes_marked_nodes() {
    let mut scene = empty_scene();
    scene.add_node(make_node("a", "X", &[("hp", ComponentValue::Int(10))]));
    scene.add_node(make_node("b", "Y", &[("hp", ComponentValue::Int(20))]));
    scene.add_node(make_node("c", "Z", &[("hp", ComponentValue::Int(30))]));
    let a = scene.find_node_index_raw("a").unwrap();
    scene.nodes[a].mark_destroyed();
    let c = scene.find_node_index_raw("c").unwrap();
    scene.nodes[c].mark_destroyed();
    let removed = scene.purge_destroyed();
    assert_eq!(removed, 2);
    assert_eq!(scene.nodes.len(), 1);
    assert_eq!(scene.nodes[0].id, "b");
}

#[test]
fn set_component_value_succeeds_on_existing_key() {
    let mut node = make_node("a", "X", &[("hp", ComponentValue::Int(10))]);
    node.set_component_value("hp", ComponentValue::Int(99)).unwrap();
    assert_eq!(node.get_component_value("hp"), Some(&ComponentValue::Int(99)));
}

// ---- further cases

#[test]
fn structured_component_form_is_decoded() {
    let json = r#"{
        "kind": "scene",
        "name": "main",
        "nodes": [
            {
                "id": "w1",
                "type": "Wizard",
                "components": {
                    "position": [1.0, 2.0],
                    "health": 75,
                    "flash": { "type": "String", "value": "hit", "kind": "transient" }
                }
            }
        ]
    }"#;
    let scene = Scene::parse(json, "scene.json", &registry_with_wizard()).expect("parse");
    let flash = scene.nodes[0].components.get("flash").unwrap();
    assert_eq!(flash.value, ComponentValue::String("hit".to_string()));
    assert_eq!(flash.kind, ComponentKind::Transient);
    assert_eq!(scene.nodes[0].components.get("health").unwrap().kind, ComponentKind::Regular);
}

#[test]
fn report_order_and_texts_are_exact() {
    let json = r#"{
        "kind": "level",
        "name": "main",
        "zeta": 1,
        "alpha": 2,
        "nodes": [
            { "id": "p1", "type": "Player", "components": { "position": [0.0, 0.0], "helth": 1 } },
            { "id": "p1", "type": "Plyer" }
        ]
    }"#;
    let errors = validation_errors(Scene::parse(json, "lvl.json", &registry()).expect_err("must fail"));
    let paths: Vec<&str> = errors.iter().map(|e| e.json_path.as_str()).collect();
    assert_eq!(
        paths,
        vec![
            "$.kind",
            "$.alpha",
            "$.zeta",
            "$.nodes[0].components.helth",
            "$.nodes[0].components.health",
            "$.nodes[1].id",
            "$.nodes[1].type",
        ]
    );
    assert_eq!(errors[0].message, "expected kind \"scene\", got \"level\"");
    assert_eq!(errors[1].message, "unknown top-level field \"alpha\"");
    assert_eq!(errors[3].message, "unknown component \"helth\" for node type \"Player\"");
    assert_eq!(errors[3].expected_type, "one of [health, position]");
    assert_eq!(errors[3].suggestion.as_deref(), Some("Did you mean \"health\"?"));
    assert_eq!(errors[4].suggestion.as_deref(), Some("Add \"health\": 100 (default)"));
    assert_eq!(errors[4].expected_type, "present int value");
    assert_eq!(errors[5].message, "duplicate node id \"p1\"");
    assert_eq!(errors[6].suggestion.as_deref(), Some("Did you mean \"Player\"?"));
    assert!(errors.iter().all(|e| e.file == "lvl.json"));
}

#[test]
fn wrong_type_reports_the_value_and_a_default() {
    let json = r#"{"kind": "scene", "name": "m", "nodes": [
        { "id": "p1", "type": "Player", "components": { "position": [0.0, 0.0], "health": "fast" } } ]}"#;
    let errors = validation_errors(Scene::parse(json, "scene.json", &registry()).expect_err("must fail"));
    assert_eq!(errors.len(), 1);
    assert_eq!(errors[0].message, "component \"health\" has wrong type, expected int");
    assert_eq!(errors[0].suggestion.as_deref(), Some("Replace with a int value, e.g. 100"));
    let actual = errors[0].actual_value.as_ref().unwrap();
    assert_eq!(craft::json::to_json_text(actual), "{\"type\":\"String\",\"value\":\"fast\"}");
}

#[test]
fn unknown_type_without_close_match_lists_known_types() {
    let json = r#"{"kind": "scene", "name": "m", "nodes": [ { "id": "q", "type": "Dragonfly" } ]}"#;
    let errors = validation_errors(Scene::parse(json, "scene.json", &registry()).expect_err("must fail"));
    assert_eq!(errors[0].suggestion.as_deref(), Some("Known node types: Enemy, Player"));
}

#[test]
fn undecodable_document_is_a_parse_error() {
    let json = r#"{"kind": "scene", "nodes": []}"#;
    match Scene::parse(json, "scene.json", &registry()) {
        Err(EngineError::Parse(p)) => {
            assert_eq!(p.line, Some(0));
            assert_eq!(p.column, Some(0));
            assert!(p.snippet.is_none());
        }
        other => panic!("expected parse error, got {other:?}"),
    }
}

#[test]
fn bad_json_text_reports_position_and_snippet() {
    let text = "{\n  \"kind\": \"scene\",\n  \"name\": oops\n}\n";
    match Scene::parse(text, "scene.json", &registry()) {
        Err(EngineError::Parse(p)) => {
            assert_eq!(p.line, Some(3));
            assert_eq!(p.file, "scene.json");
            assert_eq!(p.snippet.as_deref(), Some("  \"name\": oops\n}"));
        }
        other => panic!("expected parse error, got {other:?}"),
    }
}

#[test]
fn vec2_components_take_integers_as_floats() {
    let json = r#"{"kind": "scene", "name": "m", "nodes": [
        { "id": "p1", "type": "Player", "components": { "position": [3, -4], "health": 7 } } ]}"#;
    let scene = Scene::parse(json, "scene.json", &registry()).expect("parse");
    let pos = scene.nodes[0].get_component_value("position").unwrap();
    match pos {
        ComponentValue::Vec2([x, y]) => {
            assert_eq!(x.as_f64(), Some(3.0));
            assert_eq!(y.as_f64(), Some(-4.0));
        }
        other => panic!("expected vec2, got {other:?}"),
    }
    assert_eq!(scene.nodes[0].get_component_value("health"), Some(&ComponentValue::Int(7)));
}
