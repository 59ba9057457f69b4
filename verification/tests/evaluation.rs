use craft::behavior::{Action, ActionCommand, Behavior, Expression, Target};
use craft::engine::{dispatch_signal, tick_animations, tick_behaviors, EngineConfig};
use craft::evaluate::{evaluate_action, evaluate_behaviors, evaluate_dry_run};
use craft::evaluator::{Animation, ComponentChange, EvalError, SceneState, Trigger};
use craft::expression::{component_value_to_json, eval_expression, interpolate, json_to_component_value, numeric_add, PendingWrites};
use craft::json::{parse_json, Json};
use craft::load_actions::{decode_action, decode_behavior};
use craft::scene::{Component, ComponentKind, ComponentSpec, ComponentType, ComponentValue, Node, NodeDef, NodeRegistry, Scene};
use craft::strmap::StrMap;

fn doc(text: &str) -> Json {
    parse_json(text).expect("test JSON parses")
}

fn num(x: f64) -> serde_json::Number {
    serde_json::Number::from_f64(x).unwrap()
}

struct Player;

impl Default for Player {
    fn default() -> Self {
        Player
    }
}

impl NodeDef for Player {
    fn node_type(&self) -> &'static str {
        "Player"
    }
    fn component_specs(&self) -> Vec<ComponentSpec> {
        vec![ComponentSpec::new("health", ComponentType::Int, Json::Int(100))]
    }
}

fn registry() -> NodeRegistry {
    let mut r = NodeRegistry::new();
    r.register::<Player>();
    r
}

fn player_node(health: i64) -> Node {
    let mut components = StrMap::new();
    components.insert(
        "position".to_string(),
        Component { value: ComponentValue::Vec2([num(0.0), num(0.0)]), kind: ComponentKind::Regular },
    );
    components.insert("health".to_string(), Component { value: ComponentValue::Int(health), kind: ComponentKind::Regular });
    Node {
        id: "p1".to_string(),
        node_type: "Player".to_string(),
        parent: None,
        components,
        behaviors: vec![],
        active_state: None,
        lua_class: None,
        destroyed: false,
    }
}

fn scene_of(nodes: Vec<Node>) -> Scene {
    Scene { kind: "scene".to_string(), name: "t".to_string(), nodes, spawn_counter: 0 }
}

fn eval(scene: &Scene, e: &Expression) -> Result<Json, EvalError> {
    eval_expression(scene, &registry(), &scene.nodes[0], e, &PendingWrites::new(), 0).expect("no overflow")
}

#[test]
fn eval_self_dot_health() {
    let scene = scene_of(vec![player_node(0)]);
    let e = Expression::from_value(doc(r#"{"eq": ["self.health", 0]}"#));
    let v = eval(&scene, &e).unwrap();
    assert!(matches!(v, Json::Bool(true)));
}

#[test]
fn eval_add_two_numbers() {
    let scene = scene_of(vec![player_node(0)]);
    let e = Expression::from_value(doc(r#"{"add": [3, 4]}"#));
    let v = eval(&scene, &e).unwrap();
    assert!(matches!(v, Json::Int(7)));
}

#[test]
fn eval_compares_numbers_and_strings() {
    let scene = scene_of(vec![player_node(5)]);
    let lt = Expression::from_value(doc(r#"{"lt": ["self.health", 6.5]}"#));
    assert!(matches!(eval(&scene, &lt).unwrap(), Json::Bool(true)));
    let gt = Expression::from_value(doc(r#"{"gt": ["self.health", 6.5]}"#));
    assert!(matches!(eval(&scene, &gt).unwrap(), Json::Bool(false)));
    let strs = Expression::from_value(doc(r#"{"lt": [{"ref": "self"}, "q"]}"#));
    assert!(matches!(eval(&scene, &strs).unwrap(), Json::Bool(true)));
    let mixed = Expression::from_value(doc(r#"{"gt": [1, "a"]}"#));
    assert!(matches!(eval(&scene, &mixed).unwrap(), Json::Bool(false)));
    let neq = Expression::from_value(doc(r#"{"neq": ["self.health", 5]}"#));
    assert!(matches!(eval(&scene, &neq).unwrap(), Json::Bool(false)));
}

#[test]
fn eval_normalizes_tagged_values() {
    let scene = scene_of(vec![player_node(5)]);
    let e = Expression::from_value(doc(r#"{"eq": [{"type": "Int", "value": 5}, "self.health"]}"#));
    assert!(matches!(eval(&scene, &e).unwrap(), Json::Bool(true)));
}

#[test]
fn eval_vector_component_equals_array_of_floats() {
    let scene = scene_of(vec![player_node(5)]);
    let e = Expression::from_value(doc(r#"{"eq": ["self.position", [0.0, 0.0]]}"#));
    assert!(matches!(eval(&scene, &e).unwrap(), Json::Bool(true)));
    let ints = Expression::from_value(doc(r#"{"eq": ["self.position", [0, 0]]}"#));
    assert!(matches!(eval(&scene, &ints).unwrap(), Json::Bool(false)));
}

#[test]
fn eval_subtracts_and_adds_floats() {
    let scene = scene_of(vec![player_node(5)]);
    let sub = Expression::from_value(doc(r#"{"sub": ["self.health", 7]}"#));
    assert!(matches!(eval(&scene, &sub).unwrap(), Json::Int(-2)));
    let fadd = Expression::from_value(doc(r#"{"add": [1.5, 2]}"#));
    match eval(&scene, &fadd).unwrap() {
        Json::Float(n) => assert_eq!(n.as_f64(), Some(3.5)),
        other => panic!("expected a float, got {other:?}"),
    }
}

#[test]
fn eval_errors_carry_messages() {
    let scene = scene_of(vec![player_node(5)]);
    let bad = Expression::from_value(doc(r#"{"add": ["self", 1]}"#));
    match eval(&scene, &bad) {
        Err(EvalError::BadNumeric(m)) => assert_eq!(m, "add: not numeric (\"p1\", 1)"),
        other => panic!("unexpected {other:?}"),
    }
    let arity = Expression::Add { add: vec![Expression::Literal(Json::Int(1))] };
    match eval(&scene, &arity) {
        Err(EvalError::WrongType(m)) => assert_eq!(m, "binary op expects 2 args, got 1"),
        other => panic!("unexpected {other:?}"),
    }
    let token = Expression::Bare("maybe".to_string());
    match eval(&scene, &token) {
        Err(EvalError::BadRef(m)) => assert_eq!(m, "reserved token expected: maybe"),
        other => panic!("unexpected {other:?}"),
    }
    let parent = Expression::Ref { path: "parent.hp".to_string() };
    assert!(matches!(eval(&scene, &parent), Err(EvalError::UnknownNode(ref n)) if n == "parent"));
    let ghost = Expression::Ref { path: "ghost.hp".to_string() };
    assert!(matches!(eval(&scene, &ghost), Err(EvalError::UnknownNode(ref n)) if n == "ghost"));
    let missing = Expression::Ref { path: "self.mana".to_string() };
    assert!(matches!(eval(&scene, &missing), Err(EvalError::UnknownComponent { ref node, ref key }) if node == "p1" && key == "mana"));
}

#[test]
fn eval_integer_overflow_is_reported() {
    let scene = scene_of(vec![player_node(5)]);
    let e = Expression::from_value(doc(r#"{"add": [9223372036854775807, 1]}"#));
    let r = eval_expression(&scene, &registry(), &scene.nodes[0], &e, &PendingWrites::new(), 0);
    assert!(r.is_none());
}

#[test]
fn documents_convert_to_component_values() {
    assert!(matches!(json_to_component_value(doc("3")), Ok(ComponentValue::Int(3))));
    assert!(matches!(json_to_component_value(doc(r#"{"type": "Bool", "value": true}"#)), Ok(ComponentValue::Bool(true))));
    assert!(matches!(json_to_component_value(doc("[1, 2.5]")), Ok(ComponentValue::Vec2(_))));
    assert_eq!(json_to_component_value(doc("[1]")).unwrap_err(), "expected [x, y] for vec2, got length 1");
    assert_eq!(json_to_component_value(doc(r#"[1, "a"]"#)).unwrap_err(), "vec2[1] must be a number, got String(\"a\")");
    assert_eq!(json_to_component_value(doc(r#"{"type": "Int", "value": "x"}"#)).unwrap_err(), "Int value not int: String(\"x\")");
    assert_eq!(json_to_component_value(doc(r#"{"type": "Vec9", "value": 1}"#)).unwrap_err(), "unknown tagged component type: Vec9");
    assert_eq!(json_to_component_value(doc(r#"{"type": "Int"}"#)).unwrap_err(), "tagged Int missing 'value' field");
    assert_eq!(
        json_to_component_value(doc(r#"{"a": 1}"#)).unwrap_err(),
        "object value not a tagged component: {\"a\": Number(1)}"
    );
}

#[test]
fn component_values_convert_to_documents() {
    assert!(matches!(component_value_to_json(&ComponentValue::Int(4)), Json::Int(4)));
    match component_value_to_json(&ComponentValue::Vec2([num(1.5), num(2.0)])) {
        Json::Array(items) => assert_eq!(items.len(), 2),
        other => panic!("expected an array, got {other:?}"),
    }
}

#[test]
fn numeric_add_follows_component_kinds() {
    assert!(matches!(numeric_add(&ComponentValue::Int(2), &ComponentValue::Int(3)), Some(Some(ComponentValue::Int(5)))));
    match numeric_add(&ComponentValue::Int(2), &ComponentValue::Float(num(0.5))) {
        Some(Some(ComponentValue::Float(n))) => assert_eq!(n.as_f64(), Some(2.5)),
        other => panic!("unexpected {other:?}"),
    }
    assert!(matches!(numeric_add(&ComponentValue::Bool(true), &ComponentValue::Int(1)), Some(None)));
    assert!(numeric_add(&ComponentValue::Int(i64::MAX), &ComponentValue::Int(1)).is_none());
}

#[test]
fn later_actions_read_earlier_writes() {
    let scene = scene_of(vec![player_node(5)]);
    let set = decode_action(doc(r#"{"kind": "set_state", "target": "self", "key": "health", "value": 1}"#)).unwrap();
    let check = decode_action(doc(r#"{
        "kind": "if",
        "cond": {"eq": [{"ref": "self.health"}, 1]},
        "then": [{"kind": "emit", "signal": "low"}],
        "else": []
    }"#))
    .unwrap();
    let mut out = Vec::new();
    let mut pw = PendingWrites::new();
    assert!(evaluate_action(&scene, &registry(), &scene.nodes[0], &set, &mut out, &mut pw, 0));
    assert!(evaluate_action(&scene, &registry(), &scene.nodes[0], &check, &mut out, &mut pw, 0));
    assert_eq!(out.len(), 2);
    assert!(matches!(out[0], ActionCommand::SetState { target: Target::Node { ref id }, .. } if id == "p1"));
    assert!(matches!(out[1], ActionCommand::Emit { ref signal, .. } if signal == "low"));
}

#[test]
fn writes_to_other_nodes_are_skipped_during_a_tick() {
    let mut other = player_node(3);
    other.id = "p2".to_string();
    let scene = scene_of(vec![player_node(5), other]);
    let a = decode_action(doc(r#"{"kind": "set_state", "target": "p2", "key": "health", "value": 1}"#)).unwrap();
    let mut out = Vec::new();
    assert!(evaluate_action(&scene, &registry(), &scene.nodes[0], &a, &mut out, &mut PendingWrites::new(), 0));
    assert!(out.is_empty());
}

#[test]
fn move_adds_its_delta() {
    let scene = scene_of(vec![player_node(5)]);
    let a = decode_action(doc(r#"{"kind": "move", "target": "self", "key": "health", "by": -2}"#)).unwrap();
    let mut out = Vec::new();
    assert!(evaluate_action(&scene, &registry(), &scene.nodes[0], &a, &mut out, &mut PendingWrites::new(), 0));
    assert!(matches!(out[0], ActionCommand::SetState { value: ComponentValue::Int(3), .. }));
}

fn machine() -> Behavior {
    decode_behavior(doc(r#"{
        "kind": "state_machine",
        "initial": "idle",
        "states": {
            "idle": {
                "on_tick": [{"kind": "log", "level": "info", "message": "idle"}],
                "transitions": [{"to": "hurt", "when": {"lt": [{"ref": "self.health"}, 3]}}]
            },
            "hurt": {"on_enter": [{"kind": "emit", "signal": "ouch"}]}
        }
    }"#))
    .unwrap()
}

#[test]
fn state_machine_stays_or_transitions() {
    let mut healthy = player_node(10);
    healthy.behaviors = vec![machine()];
    let scene = scene_of(vec![healthy]);
    let cmds = evaluate_behaviors(&scene, &registry(), &scene.nodes[0], Trigger::Tick, 0).unwrap();
    assert_eq!(cmds.len(), 2);
    assert!(matches!(cmds[0], ActionCommand::SetState { target: Target::Node { ref id }, ref key, .. } if key == "_active_state" && id == "p1"));
    assert!(matches!(cmds[1], ActionCommand::Log { ref message, .. } if message == "idle"));

    let mut hurt = player_node(1);
    hurt.behaviors = vec![machine()];
    hurt.active_state = Some("idle".to_string());
    let scene = scene_of(vec![hurt]);
    let cmds = evaluate_behaviors(&scene, &registry(), &scene.nodes[0], Trigger::Tick, 0).unwrap();
    let names: Vec<String> = cmds
        .iter()
        .map(|c| match c {
            ActionCommand::Emit { signal, .. } => signal.clone(),
            ActionCommand::SetState { key, .. } => format!("set:{key}"),
            _ => "other".to_string(),
        })
        .collect();
    assert_eq!(names, vec!["state:exit:idle", "set:_active_state", "state:enter:hurt", "ouch"]);
}

#[test]
fn on_signal_behaviors_run_for_their_signal_only() {
    let mut n = player_node(1);
    n.behaviors = vec![decode_behavior(doc(r#"{"kind": "on_signal", "signal": "hit", "actions": [{"kind": "destroy", "target": "self"}]}"#)).unwrap()];
    let scene = scene_of(vec![n]);
    let hit = evaluate_behaviors(&scene, &registry(), &scene.nodes[0], Trigger::Signal("hit".to_string()), 0).unwrap();
    assert_eq!(hit.len(), 1);
    let other = evaluate_behaviors(&scene, &registry(), &scene.nodes[0], Trigger::Signal("miss".to_string()), 0).unwrap();
    assert!(other.is_empty());
    let tick = evaluate_behaviors(&scene, &registry(), &scene.nodes[0], Trigger::Tick, 0).unwrap();
    assert!(tick.is_empty());
}

#[test]
fn dry_run_reports_changes_and_missing_nodes() {
    let scene = scene_of(vec![player_node(5)]);
    let actions: Vec<Action> = vec![
        decode_action(doc(r#"{"kind": "set_state", "target": "self", "key": "health", "value": 9}"#)).unwrap(),
        decode_action(doc(r#"{"kind": "set_state", "target": "self", "key": "mana", "value": 2}"#)).unwrap(),
    ];
    let changes = evaluate_dry_run(&scene, &registry(), "p1", &actions).unwrap().unwrap();
    assert_eq!(changes.len(), 2);
    assert!(matches!(changes[0], ComponentChange::Updated { ref key, from: ComponentValue::Int(5), to: ComponentValue::Int(9) } if key == "health"));
    assert!(matches!(changes[1], ComponentChange::Added { ref key, value: ComponentValue::Int(2) } if key == "mana"));
    let err = evaluate_dry_run(&scene, &registry(), "missing", &actions).unwrap().unwrap_err();
    assert_eq!(err.message(), "internal error: dryRun: node \"missing\" not found");
}

fn anim(key: &str, to: i64, remaining: u32) -> Animation {
    Animation { key: key.to_string(), from: ComponentValue::Int(0), to: ComponentValue::Int(to), remaining }
}

#[test]
fn animations_write_their_end_values_and_finish() {
    let mut scene = scene_of(vec![player_node(5)]);
    let mut state = SceneState::default();
    state.animations.insert("p1".to_string(), vec![anim("health", 7, 2), anim("glow", 1, 1), anim("gone", 3, 0)]);
    tick_animations(&mut state, &mut scene);
    assert!(matches!(scene.nodes[0].components.get("health").unwrap().value, ComponentValue::Int(3)));
    assert!(matches!(scene.nodes[0].components.get("glow").unwrap().value, ComponentValue::Int(1)));
    assert!(scene.nodes[0].components.get("gone").is_none());
    let left = state.animations.get("p1").unwrap();
    assert_eq!(left.len(), 2);
    assert_eq!(left[0].key, "health");
    assert_eq!(left[0].remaining, 1);
    assert!(matches!(left[0].from, ComponentValue::Int(3)));
    assert_eq!(left[1].key, "gone");
    tick_animations(&mut state, &mut scene);
    assert!(matches!(scene.nodes[0].components.get("health").unwrap().value, ComponentValue::Int(7)));
}

#[test]
fn interpolation_steps_towards_the_end_value() {
    assert!(matches!(interpolate(&ComponentValue::Int(0), &ComponentValue::Int(10), 4), ComponentValue::Int(2)));
    assert!(matches!(interpolate(&ComponentValue::Int(0), &ComponentValue::Int(-10), 4), ComponentValue::Int(-2)));
    assert!(matches!(interpolate(&ComponentValue::Int(5), &ComponentValue::Int(9), 1), ComponentValue::Int(9)));
    match interpolate(&ComponentValue::Float(num(1.0)), &ComponentValue::Float(num(3.0)), 2) {
        ComponentValue::Float(n) => assert_eq!(n.as_f64(), Some(2.0)),
        other => panic!("unexpected {other:?}"),
    }
    assert!(matches!(interpolate(&ComponentValue::Bool(false), &ComponentValue::Bool(true), 3), ComponentValue::Bool(true)));
}

#[test]
fn bare_dotted_strings_read_references() {
    let scene = scene_of(vec![player_node(5)]);
    let bare = Expression::Bare("self.health".to_string());
    assert!(matches!(eval(&scene, &bare).unwrap(), Json::Int(5)));
}

#[test]
fn state_machine_bookkeeping_lands_on_its_own_node() {
    let plain = player_node(5);
    let mut owner = player_node(10);
    owner.id = "p2".to_string();
    owner.behaviors = vec![machine()];
    let mut scene = scene_of(vec![plain, owner]);
    let mut state = SceneState::default();
    tick_behaviors(&mut scene, &registry(), 0, &mut state).unwrap();
    assert!(scene.nodes[0].active_state.is_none());
    assert_eq!(scene.nodes[1].active_state.as_deref(), Some("idle"));
}

#[test]
fn rng_steps_are_seeded_and_bounded() {
    let (s1, v1) = craft::determinism::rng_step(42, 1, 6).unwrap();
    let expected = 42u64.wrapping_mul(6364136223846793005).wrapping_add(1442695040888963407);
    assert_eq!(s1, expected);
    assert_eq!(v1, 1 + (expected % 6) as i64);
    assert_eq!(craft::determinism::rng_step(0, 5, 1).unwrap_err(), "engine.rng(lo, hi) requires lo <= hi, got lo=5 hi=1");
    assert_eq!(
        craft::determinism::rng_step(0, i64::MIN, i64::MAX).unwrap_err(),
        format!("engine.rng range [{}, {}] exceeds u64 span", i64::MIN, i64::MAX)
    );
}

#[test]
fn tick_applies_behaviors_and_reports_emits() {
    let mut n = player_node(5);
    n.behaviors = vec![decode_behavior(doc(r#"{"kind": "on_tick", "actions": [
        {"kind": "move", "target": "self", "key": "health", "by": 1},
        {"kind": "emit", "signal": "beat"}
    ]}"#))
    .unwrap()];
    let mut scene = scene_of(vec![n]);
    let mut state = SceneState::default();
    let (logs, emitted) = tick_behaviors(&mut scene, &registry(), 0, &mut state).unwrap();
    assert!(logs.is_empty());
    assert_eq!(emitted, vec!["beat".to_string()]);
    assert!(matches!(scene.nodes[0].components.get("health").unwrap().value, ComponentValue::Int(6)));
}

#[test]
fn signals_reach_only_handlers() {
    let mut a = player_node(5);
    a.behaviors = vec![decode_behavior(doc(r#"{"kind": "on_signal", "signal": "hit", "actions": [
        {"kind": "set_state", "target": "self", "key": "health", "value": 0}
    ]}"#))
    .unwrap()];
    let mut b = player_node(5);
    b.id = "p2".to_string();
    b.behaviors = vec![machine()];
    let mut scene = scene_of(vec![a, b]);
    dispatch_signal(&mut scene, &registry(), "hit", 0).unwrap();
    assert!(matches!(scene.nodes[0].components.get("health").unwrap().value, ComponentValue::Int(0)));
    assert!(scene.nodes[1].active_state.is_none());
}

struct Counter(u64);

impl craft::system::System for Counter {
    fn phase_of(&self) -> craft::system::SystemPhase {
        craft::system::SystemPhase::Tick
    }
    fn ran_at<H>(&self, after: &Self, _tick: u64, _bus: &craft::signal::SignalBus<H>, _bus_after: &craft::signal::SignalBus<H>) -> bool {
        after.0 == self.0 + 1
    }
    fn info(&self) -> craft::system::SystemInfo {
        craft::system::SystemInfo { name: "counter", phase: craft::system::SystemPhase::Tick }
    }
    fn run<H>(&mut self, bus: &mut craft::signal::SignalBus<H>, _resources: &craft::resource::ResourceRegistry, _tick: u64) {
        self.0 += 1;
        bus.emit_by_name("counted", &Json::Int(self.0 as i64));
    }
}

#[test]
fn engine_tick_resolves_emitted_signals_on_the_next_tick() {
    let mut a = player_node(5);
    a.behaviors = vec![decode_behavior(doc(r#"{"kind": "on_tick", "actions": [
        {"kind": "emit", "signal": "beat"}
    ]}"#))
    .unwrap()];
    let mut b = player_node(5);
    b.id = "p2".to_string();
    b.behaviors = vec![decode_behavior(doc(r#"{"kind": "on_signal", "signal": "beat", "actions": [
        {"kind": "move", "target": "self", "key": "health", "by": 10}
    ]}"#))
    .unwrap()];
    let mut systems = craft::system::SystemRegistry::new();
    systems.push(Counter(0));
    let config = EngineConfig { seed: 7, tick_hz: 0 };
    let mut engine: craft::engine::Engine<Counter, fn(&Json)> =
        craft::engine::Engine::with_config(&config, systems, registry());
    assert_eq!(engine.tick_hz, 60);
    engine.load_scene(scene_of(vec![a, b]));
    let health = |e: &craft::engine::Engine<Counter, fn(&Json)>| {
        match e.scene.as_ref().unwrap().nodes[1].components.get("health").unwrap().value {
            ComponentValue::Int(h) => h,
            _ => panic!("health is an integer"),
        }
    };
    engine.tick();
    assert_eq!(engine.tick, 1);
    assert_eq!(engine.pending_signals, vec!["beat".to_string()]);
    assert_eq!(health(&engine), 5);
    engine.tick();
    assert_eq!(engine.tick, 2);
    assert_eq!(health(&engine), 15);
    assert_eq!(engine.take_last_signals(), vec!["beat".to_string()]);
    assert!(engine.pending_signals.is_empty());
    assert_eq!(engine.state_hash(), craft::state_hash::hash_scene_state(engine.scene.as_ref().unwrap()));
}

#[test]
fn component_values_survive_the_json_round_trip() {
    let values = vec![
        ComponentValue::Nil,
        ComponentValue::Bool(true),
        ComponentValue::Int(-42),
        ComponentValue::String("hi".to_string()),
        ComponentValue::Float(num(2.5)),
        ComponentValue::Float(num(3.0)),
        ComponentValue::Vec2([num(1.0), num(-0.5)]),
    ];
    for v in values {
        let back = json_to_component_value(component_value_to_json(&v)).unwrap();
        assert_eq!(format!("{:?}", back), format!("{:?}", v));
    }
}

#[test]
fn pending_writes_hold_the_last_set_state_of_each_key() {
    let scene = scene_of(vec![player_node(5)]);
    let action = decode_action(doc(r#"{
        "kind": "if",
        "cond": true,
        "then": [
            {"kind": "set_state", "target": "self", "key": "health", "value": 1},
            {"kind": "emit", "signal": "mid"},
            {"kind": "set_state", "target": "self", "key": "health", "value": 2}
        ],
        "else": []
    }"#))
    .unwrap();
    let mut out = Vec::new();
    let mut pw = PendingWrites::new();
    assert!(evaluate_action(&scene, &registry(), &scene.nodes[0], &action, &mut out, &mut pw, 0));
    assert_eq!(out.len(), 3);
    assert!(matches!(pw.get("p1", "health"), Some(ComponentValue::Int(2))));
}

#[test]
fn interpolation_step_is_a_plus_difference_over_remaining() {
    let step = interpolate(&ComponentValue::Float(num(1.0)), &ComponentValue::Float(num(3.0)), 4);
    assert!(matches!(step, ComponentValue::Float(ref n) if n.as_f64() == Some(1.5)));
    let v = interpolate(&ComponentValue::Vec2([num(0.0), num(8.0)]), &ComponentValue::Vec2([num(4.0), num(0.0)]), 4);
    assert!(matches!(v, ComponentValue::Vec2(ref xs) if xs[0].as_f64() == Some(1.0) && xs[1].as_f64() == Some(6.0)));
}
