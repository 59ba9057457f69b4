use craft::behavior::{Action, Behavior, Expression, LogLevel, Target};
use craft::json::{parse_json, to_json_text, Json};
use craft::load::{decode_expr, decode_target};
use craft::load_actions::{decode_action, decode_behavior};

fn doc(text: &str) -> Json {
    parse_json(text).expect("test JSON parses")
}

#[test]
fn expression_bare_string_is_ref() {
    let e = Expression::from_value(doc("\"self.position\""));
    assert!(matches!(e, Expression::Ref { .. }));
}

#[test]
fn expression_bare_self_reserved() {
    let e = Expression::from_value(doc("\"self\""));
    assert!(matches!(e, Expression::Bare(ref s) if s == "self"));
}

#[test]
fn expression_eq_form() {
    let e = Expression::from_value(doc(r#"{"eq": [{"ref": "a"}, 5]}"#));
    match e {
        Expression::Eq { eq } => {
            assert_eq!(eq.len(), 2);
            assert!(matches!(eq[0], Expression::Ref { ref path } if path == "a"));
            assert!(matches!(eq[1], Expression::Literal(Json::Int(5))));
        }
        other => panic!("expected eq, got {other:?}"),
    }
}

#[test]
fn expression_add_form() {
    let e = Expression::from_value(doc(r#"{"add": [1, 2]}"#));
    assert!(matches!(e, Expression::Add { ref add } if add.len() == 2));
}

#[test]
fn action_set_state_deserializes() {
    let a = decode_action(doc(r#"{"kind": "set_state", "target": "self", "key": "health", "value": 50}"#)).unwrap();
    assert!(matches!(a, Action::SetState { ref key, .. } if key == "health"));
}

#[test]
fn action_if_deserializes() {
    let a = decode_action(doc(r#"{
        "kind": "if",
        "cond": {"lt": [{"ref": "self.hp"}, 0]},
        "then": [{"kind": "emit", "signal": "died"}],
        "else": []
    }"#))
    .unwrap();
    match a {
        Action::If { then_, else_, .. } => {
            assert_eq!(then_.len(), 1);
            assert!(else_.is_empty());
        }
        _ => panic!("wrong variant"),
    }
}

#[test]
fn action_call_system_with_result_target() {
    let a = decode_action(doc(r#"{
        "kind": "call_system",
        "system": "compute_damage",
        "args": {"base": 10},
        "result_in": {"key": "damage", "on": "self"}
    }"#))
    .unwrap();
    match a {
        Action::CallSystem { result_in, .. } => {
            let r = result_in.unwrap();
            assert_eq!(r.key, "damage");
        }
        _ => panic!("wrong variant"),
    }
}

#[test]
fn behavior_state_machine_deserializes() {
    let b = decode_behavior(doc(r#"{
        "kind": "state_machine",
        "initial": "idle",
        "states": {
            "idle": {"on_tick": [{"kind": "log", "level": "info", "message": "idle"}]},
            "attacking": {"transitions": [{"to": "idle", "when": "self.target"}]}
        }
    }"#))
    .unwrap();
    match b {
        Behavior::StateMachine { initial, states } => {
            assert_eq!(initial, "idle");
            assert!(states.contains_key("attacking"));
        }
        _ => panic!("wrong variant"),
    }
}

#[test]
fn behavior_on_signal_deserializes() {
    let b = decode_behavior(doc(r#"{
        "kind": "on_signal",
        "signal": "hit",
        "actions": [{"kind": "destroy", "target": "self"}]
    }"#))
    .unwrap();
    assert!(matches!(b, Behavior::OnSignal { ref signal, .. } if signal == "hit"));
}

#[test]
fn target_labels() {
    assert_eq!(Target::This.label(), "self");
    assert_eq!(Target::Node { id: "n1".to_string() }.label(), "node:n1");
    assert_eq!(Target::Parent.label(), "parent");
    assert_eq!(Target::Children { filter: Some("x".to_string()) }.label(), "children:x");
    assert_eq!(Target::Children { filter: None }.label(), "children");
}

#[test]
fn targets_decode_from_strings_and_objects() {
    assert_eq!(decode_target(&doc("\"self\"")).unwrap(), Target::This);
    assert_eq!(decode_target(&doc("\"boss\"")).unwrap(), Target::Node { id: "boss".to_string() });
    assert_eq!(
        decode_target(&doc(r#"{"kind": "children", "filter": "c1"}"#)).unwrap(),
        Target::Children { filter: Some("c1".to_string()) }
    );
    assert!(decode_target(&doc(r#"{"kind": "node"}"#)).is_err());
    assert!(decode_target(&doc(r#"{"kind": "sibling"}"#)).is_err());
    assert!(decode_target(&doc("3")).is_err());
}

#[test]
fn decoded_expressions_keep_strings_bare() {
    assert!(matches!(decode_expr(doc("\"self.hp\"")), Expression::Bare(ref s) if s == "self.hp"));
    assert!(matches!(decode_expr(doc(r#"{"ref": "self.hp"}"#)), Expression::Ref { ref path } if path == "self.hp"));
    match decode_expr(doc(r#"{"other": 1}"#)) {
        Expression::Literal(l) => assert_eq!(to_json_text(&l), "{\"other\":1}"),
        other => panic!("expected literal, got {other:?}"),
    }
}

#[test]
fn actions_reject_bad_documents() {
    assert!(decode_action(doc(r#"{"kind": "teleport"}"#)).is_err());
    assert!(decode_action(doc(r#"{"kind": "set_state", "target": "self", "key": "hp"}"#)).is_err());
    assert!(decode_action(doc(r#"{"kind": "animate", "target": "self", "key": "x", "to": 1, "duration": -1}"#)).is_err());
    assert!(decode_action(doc(r#"{"kind": "log", "level": "loud", "message": "m"}"#)).is_err());
    assert!(decode_action(doc(r#"{"kind": "if", "cond": true}"#)).is_err());
    assert!(decode_action(doc("[]")).is_err());
    let log = decode_action(doc(r#"{"kind": "log", "level": "warning", "message": "m", "extra": 1}"#)).unwrap();
    assert!(matches!(log, Action::Log { level: LogLevel::Warning, .. }));
}

#[test]
fn distinct_targets_have_distinct_labels() {
    let targets = vec![
        Target::This,
        Target::Node { id: "self".to_string() },
        Target::Node { id: "parent".to_string() },
        Target::Parent,
        Target::Children { filter: None },
        Target::Children { filter: Some(String::new()) },
        Target::Children { filter: Some("a".to_string()) },
        Target::Node { id: "children".to_string() },
    ];
    for (i, a) in targets.iter().enumerate() {
        for (j, b) in targets.iter().enumerate() {
            assert_eq!(a.label() == b.label(), i == j, "{} vs {}", a.label(), b.label());
        }
    }
}
