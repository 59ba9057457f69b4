use craft::canonical::{canonicalize, hash_document};
use craft::json::Json;
use craft::strmap::StrMap;

#[test]
fn canonical_null_and_bools() {
    assert_eq!(canonicalize(&Json::Null), vec![0u8]);
    assert_eq!(canonicalize(&Json::Bool(true)), vec![1u8, 1]);
    assert_eq!(canonicalize(&Json::Bool(false)), vec![1u8, 0]);
}

#[test]
fn canonical_integers_are_little_endian_twos_complement() {
    assert_eq!(canonicalize(&Json::Int(1)), vec![2u8, 1, 0, 0, 0, 0, 0, 0, 0]);
    assert_eq!(canonicalize(&Json::Int(-1)), vec![2u8, 255, 255, 255, 255, 255, 255, 255, 255]);
    assert_eq!(canonicalize(&Json::Int(258)), vec![2u8, 2, 1, 0, 0, 0, 0, 0, 0]);
}

#[test]
fn canonical_float_uses_its_bits() {
    let n = serde_json::Number::from_f64(1.5).unwrap();
    let bits = 1.5f64.to_bits().to_le_bytes();
    let mut expected = vec![2u8];
    expected.extend_from_slice(&bits);
    assert_eq!(canonicalize(&Json::Float(n)), expected);
}

#[test]
fn canonical_integral_number_uses_its_i64_value() {
    let n = serde_json::Number::from(5i64);
    assert_eq!(canonicalize(&Json::Float(n)), canonicalize(&Json::Int(5)));
}

#[test]
fn canonical_string_has_utf8_length_prefix() {
    assert_eq!(canonicalize(&Json::Str("ab".to_string())), vec![3u8, 2, 0, 0, 0, 97, 98]);
    assert_eq!(canonicalize(&Json::Str("é".to_string())), vec![3u8, 2, 0, 0, 0, 0xc3, 0xa9]);
}

#[test]
fn canonical_array_and_object() {
    let arr = Json::Array(vec![Json::Null, Json::Bool(true)]);
    assert_eq!(canonicalize(&arr), vec![4u8, 2, 0, 0, 0, 0, 1, 1]);
    let mut m = StrMap::new();
    m.insert("b".to_string(), Json::Null);
    m.insert("a".to_string(), Json::Bool(false));
    let obj = Json::Object(m);
    assert_eq!(
        canonicalize(&obj),
        vec![5u8, 2, 0, 0, 0, 1, 0, 0, 0, 97, 1, 0, 1, 0, 0, 0, 98, 0]
    );
}

#[test]
fn canonical_is_same_for_equal_documents() {
    let mut m1 = StrMap::new();
    m1.insert("x".to_string(), Json::Int(3));
    m1.insert("y".to_string(), Json::Str("s".to_string()));
    let mut m2 = StrMap::new();
    m2.insert("y".to_string(), Json::Str("s".to_string()));
    m2.insert("x".to_string(), Json::Int(3));
    assert_eq!(canonicalize(&Json::Object(m1)), canonicalize(&Json::Object(m2)));
}

#[test]
fn document_hash_is_deterministic_and_tells_documents_apart() {
    let mut a = StrMap::new();
    a.insert("name".to_string(), Json::Str("arena".to_string()));
    a.insert("spawn_counter".to_string(), Json::Int(3));
    let mut b = StrMap::new();
    b.insert("name".to_string(), Json::Str("arena".to_string()));
    b.insert("spawn_counter".to_string(), Json::Int(4));
    let doc_a = Json::Object(a);
    let doc_b = Json::Object(b);
    assert_eq!(hash_document(&doc_a), hash_document(&doc_a));
    assert_ne!(hash_document(&doc_a), hash_document(&doc_b));
    let mut hasher = std::collections::hash_map::DefaultHasher::new();
    std::hash::Hash::hash(&canonicalize(&doc_a), &mut hasher);
    assert_eq!(hash_document(&doc_a), std::hash::Hasher::finish(&hasher));
}

fn player(id: &str, health: i64) -> craft::scene::Node {
    let mut components = StrMap::new();
    components.insert(
        "health".to_string(),
        craft::scene::Component { value: craft::scene::ComponentValue::Int(health), kind: craft::scene::ComponentKind::Regular },
    );
    components.insert(
        "position".to_string(),
        craft::scene::Component {
            value: craft::scene::ComponentValue::Vec2([
                serde_json::Number::from_f64(1.5).unwrap(),
                serde_json::Number::from_f64(0.0).unwrap(),
            ]),
            kind: craft::scene::ComponentKind::Transient,
        },
    );
    craft::scene::Node {
        id: id.to_string(),
        node_type: "Player".to_string(),
        parent: Some("root".to_string()),
        components,
        behaviors: vec![craft::load_actions::decode_behavior(
            craft::json::parse_json(r#"{"kind": "on_signal", "signal": "hit", "actions": [
                {"kind": "move", "target": "self", "key": "health", "by": -1},
                {"kind": "if", "cond": {"lt": [{"ref": "self.health"}, 1]},
                 "then": [{"kind": "destroy", "target": {"kind": "node", "id": "p1"}}]}
            ]}"#)
            .unwrap(),
        )
        .unwrap()],
        active_state: None,
        lua_class: None,
        destroyed: false,
    }
}

#[test]
fn scene_bytes_are_the_canonical_bytes_of_the_scene_document() {
    let scene = craft::scene::Scene {
        kind: "scene".to_string(),
        name: "arena".to_string(),
        nodes: vec![player("p1", 5)],
        spawn_counter: 2,
    };
    let doc = craft::json::parse_json(r#"{
        "kind": "scene",
        "name": "arena",
        "nodes": [{
            "id": "p1",
            "type": "Player",
            "parent": "root",
            "components": {
                "health": {"type": "Int", "value": 5},
                "position": {"type": "Vec2", "value": [1.5, 0.0], "kind": "transient"}
            },
            "behaviors": [{"kind": "on_signal", "signal": "hit", "actions": [
                {"kind": "move", "target": {"kind": "self"}, "key": "health", "by": -1},
                {"kind": "if", "cond": {"lt": [{"ref": "self.health"}, 1]},
                 "then": [{"kind": "destroy", "target": {"kind": "node", "id": "p1"}}], "else": []}
            ]}]
        }],
        "spawn_counter": 2
    }"#)
    .unwrap();
    assert_eq!(craft::state_hash::scene_canonical_bytes(&scene), canonicalize(&doc));
    assert_eq!(craft::state_hash::hash_scene_state(&scene), hash_document(&doc));
}

#[test]
fn scene_state_hash_changes_with_the_state() {
    let a = craft::scene::Scene {
        kind: "scene".to_string(),
        name: "arena".to_string(),
        nodes: vec![player("p1", 5)],
        spawn_counter: 0,
    };
    let b = craft::scene::Scene {
        kind: "scene".to_string(),
        name: "arena".to_string(),
        nodes: vec![player("p1", 4)],
        spawn_counter: 0,
    };
    assert_eq!(craft::state_hash::hash_scene_state(&a), craft::state_hash::hash_scene_state(&a));
    assert_ne!(craft::state_hash::hash_scene_state(&a), craft::state_hash::hash_scene_state(&b));
}

#[test]
fn scene_state_hash_ignores_the_order_components_were_added() {
    let a = player("p1", 5);
    let mut b = player("p1", 5);
    let mut reordered = StrMap::new();
    for key in ["position", "health"] {
        let c = b.components.get(key).unwrap();
        let copy = craft::scene::Component {
            value: match &c.value {
                craft::scene::ComponentValue::Int(i) => craft::scene::ComponentValue::Int(*i),
                craft::scene::ComponentValue::Vec2(xs) => craft::scene::ComponentValue::Vec2([xs[0].clone(), xs[1].clone()]),
                _ => panic!("unexpected component"),
            },
            kind: c.kind,
        };
        reordered.insert(key.to_string(), copy);
    }
    b.components = reordered;
    let s1 = craft::scene::Scene { kind: "scene".to_string(), name: "arena".to_string(), nodes: vec![a], spawn_counter: 1 };
    let s2 = craft::scene::Scene { kind: "scene".to_string(), name: "arena".to_string(), nodes: vec![b], spawn_counter: 1 };
    assert_eq!(craft::state_hash::hash_scene_state(&s1), craft::state_hash::hash_scene_state(&s2));
}

#[test]
fn node_registry_reports_the_registered_type_name() {
    let mut r = craft::scene::NodeRegistry::new();
    r.register_specs("Hero", "Hero", vec![]);
    assert_eq!(r.get("Hero").unwrap().node_type, "Hero");
    assert!(r.get("Villain").is_none());
}
