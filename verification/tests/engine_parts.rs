use craft::behavior::{Action, Behavior, Expression, StateDef, Target, Transition};
use craft::engine::EngineConfig;
use craft::evaluator::{resolve_target, resolve_target_for_command, target_allowed_for_tick};
use craft::games::{dungeon_crawler, float_doc, tower_defense, vec2_doc};
use craft::json::{json_equal, parse_json, to_json_text, Json};
use craft::same::{action_copy, behaviors_copy, behaviors_equal, expr_copy, expr_equal, node_copy};
use craft::scene::{Component, ComponentKind, ComponentType, ComponentValue, Node, Scene};
use craft::strmap::StrMap;

fn node(id: &str, parent: Option<&str>) -> Node {
    Node {
        id: id.to_string(),
        node_type: "T".to_string(),
        parent: parent.map(|p| p.to_string()),
        components: StrMap::new(),
        behaviors: vec![],
        active_state: None,
        lua_class: None,
        destroyed: false,
    }
}

fn doc(text: &str) -> Json {
    parse_json(text).expect("test JSON parses")
}

#[test]
fn new_engine_config_defaults_to_sixty_hz() {
    let c = EngineConfig::default();
    assert_eq!(c.seed, 0);
    assert_eq!(c.tick_hz, 0);
    assert_eq!(c.effective_tick_hz(), 60);
    assert_eq!(EngineConfig { seed: 42, tick_hz: 30 }.effective_tick_hz(), 30);
}

#[test]
fn targets_resolve_to_scene_nodes() {
    let scene = Scene {
        kind: "scene".to_string(),
        name: "s".to_string(),
        nodes: vec![node("root", None), node("kid", Some("root")), node("kid2", Some("root"))],
        spawn_counter: 0,
    };
    let me = &scene.nodes[0];
    assert_eq!(resolve_target(&scene, me, &Target::This).map(|n| n.id.as_str()), Some("root"));
    assert_eq!(resolve_target(&scene, me, &Target::Node { id: "kid2".to_string() }).map(|n| n.id.as_str()), Some("kid2"));
    assert_eq!(resolve_target(&scene, me, &Target::Children { filter: None }).map(|n| n.id.as_str()), Some("kid"));
    assert_eq!(
        resolve_target(&scene, me, &Target::Children { filter: Some("kid2".to_string()) }).map(|n| n.id.as_str()),
        Some("kid2")
    );
    assert!(resolve_target(&scene, me, &Target::Parent).is_none());
    let kid = &scene.nodes[1];
    assert_eq!(resolve_target(&scene, kid, &Target::Parent).map(|n| n.id.as_str()), Some("root"));
    assert_eq!(resolve_target_for_command(&scene, kid, &Target::This), Target::Node { id: "kid".to_string() });
    assert_eq!(resolve_target_for_command(&scene, kid, &Target::Parent), Target::Node { id: "root".to_string() });
    assert_eq!(
        resolve_target_for_command(&scene, kid, &Target::Node { id: "ghost".to_string() }),
        Target::Node { id: "ghost".to_string() }
    );
    assert!(target_allowed_for_tick(kid, &Target::Node { id: "kid".to_string() }));
    assert!(!target_allowed_for_tick(kid, &Target::Node { id: "root".to_string() }));
    assert!(target_allowed_for_tick(kid, &Target::Parent));
}

#[test]
fn tower_defense_registry_declares_its_schemas() {
    let r = tower_defense::build_node_registry();
    let mut names = r.type_names();
    names.sort();
    assert_eq!(names, vec!["Camera2D", "Enemy", "Spawner", "Tower"]);
    let tower = r.get("Tower").expect("Tower");
    let specs = tower.component_specs();
    assert_eq!(specs.len(), 6);
    assert_eq!(specs[1].name, "fire_rate");
    assert_eq!(specs[1].ty, ComponentType::Int);
    assert_eq!(to_json_text(&specs[1].default), "10");
    assert_eq!(to_json_text(&specs[5].default), "[10.0,0.0]");
    let enemy = r.get("Enemy").expect("Enemy");
    assert_eq!(to_json_text(&enemy.component_specs()[2].default), "0.5");
}

#[test]
fn dungeon_crawler_registry_declares_its_types() {
    let r = dungeon_crawler::build_node_registry();
    let mut names = r.type_names();
    names.sort();
    assert_eq!(names, vec!["Enemy", "Exit", "HealthPotion", "Input", "Player", "Wall"]);
    assert!(r.contains("Player"));
    assert!(!r.contains("Tower"));
}

#[test]
fn number_texts_make_float_documents() {
    assert_eq!(to_json_text(&float_doc("1.5")), "1.5");
    assert!(matches!(float_doc("not a number"), Json::Null));
    assert_eq!(to_json_text(&vec2_doc("0.0", "2.25")), "[0.0,2.25]");
}

#[test]
fn documents_compare_and_copy_by_value() {
    let a = doc(r#"{"b": [1, 2.5, "x", null, true], "a": {"k": -3}}"#);
    let b = doc(r#"{"a": {"k": -3}, "b": [1, 2.5, "x", null, true]}"#);
    let c = doc(r#"{"a": {"k": -3}, "b": [1, 2.5, "x", null, false]}"#);
    assert!(json_equal(&a, &b));
    assert!(!json_equal(&a, &c));
    assert!(!json_equal(&doc("1"), &doc("1.0")));
    let copy = a.deep_clone();
    assert!(json_equal(&copy, &a));
    assert_eq!(to_json_text(&copy), to_json_text(&a));
}

#[test]
fn behaviors_compare_and_copy_structurally() {
    let mut states = StrMap::new();
    states.insert(
        "idle".to_string(),
        StateDef {
            on_enter: vec![Action::Emit { signal: "hello".to_string(), args: StrMap::new() }],
            on_tick: vec![],
            transitions: vec![Transition {
                to: "run".to_string(),
                when: Expression::Gt { gt: vec![Expression::Ref { path: "self.speed".to_string() }, Expression::Literal(Json::Int(0))] },
            }],
        },
    );
    let bs = vec![
        Behavior::StateMachine { initial: "idle".to_string(), states },
        Behavior::OnTick {
            actions: vec![Action::If {
                cond: Expression::Bare("true".to_string()),
                then_: vec![Action::Destroy { target: Target::This }],
                else_: vec![],
            }],
        },
    ];
    let copy = behaviors_copy(&bs);
    assert!(behaviors_equal(&bs, &copy));
    let other = vec![Behavior::OnTick { actions: vec![] }];
    assert!(!behaviors_equal(&bs, &other));
    let e = Expression::Add { add: vec![Expression::Literal(doc("1.5")), Expression::Ref { path: "self.x".to_string() }] };
    assert!(expr_equal(&e, &expr_copy(&e)));
    assert!(!expr_equal(&e, &Expression::Bare("none".to_string())));
    let a = Action::SetState { target: Target::Parent, key: "hp".to_string(), value: Json::Int(3) };
    match action_copy(&a) {
        Action::SetState { target, key, value } => {
            assert_eq!(target, Target::Parent);
            assert_eq!(key, "hp");
            assert!(json_equal(&value, &Json::Int(3)));
        }
        other => panic!("unexpected copy {other:?}"),
    }
    let mut n = node("n", Some("p"));
    n.components.insert("hp".to_string(), Component { value: ComponentValue::Int(7), kind: ComponentKind::Transient });
    n.behaviors = behaviors_copy(&bs);
    let m = node_copy(&n);
    assert_eq!(m.id, "n");
    assert_eq!(m.parent.as_deref(), Some("p"));
    assert_eq!(m.components.get("hp").unwrap().value, ComponentValue::Int(7));
    assert_eq!(m.components.get("hp").unwrap().kind, ComponentKind::Transient);
    assert!(behaviors_equal(&m.behaviors, &n.behaviors));
}
