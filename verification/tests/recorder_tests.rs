use craft::behavior::{Action, Behavior, Expression, StateDef, Target, Transition};
use craft::json::{json_equal, parse_json, Json};
use craft::replay::{collect_signal_names_from_scene, InputFrame, ModuleRecord, Recorder};
use craft::resource::ResourceRegistry;
use craft::scene::{Component, ComponentKind, ComponentValue, Node, Scene};
use craft::strmap::StrMap;

type Handler = fn(&Json);

fn doc(text: &str) -> Json {
    parse_json(text).expect("test JSON parses")
}

fn empty_scene() -> Scene {
    Scene { kind: "scene".to_string(), name: "t".to_string(), nodes: Vec::new(), spawn_counter: 0 }
}

fn simple_scene() -> Scene {
    let mut components = StrMap::new();
    components.insert("count".to_string(), Component { value: ComponentValue::Int(0), kind: ComponentKind::Regular });
    let node = Node {
        id: "p1".to_string(),
        node_type: "Probe".to_string(),
        parent: None,
        components,
        behaviors: vec![Behavior::OnTick {
            actions: vec![Action::Move { target: Target::This, key: "count".to_string(), by: Json::Int(1) }],
        }],
        active_state: None,
        lua_class: None,
        destroyed: false,
    };
    Scene { kind: "scene".to_string(), name: "t".to_string(), nodes: vec![node], spawn_counter: 0 }
}

fn module(name: &str, version: &str, sha256: &str) -> ModuleRecord {
    ModuleRecord { name: name.to_string(), version: version.to_string(), sha256: sha256.to_string() }
}

#[test]
fn recording_contains_meta_and_frames() {
    let scene = simple_scene();
    let resources = ResourceRegistry::new();
    let mut recorder: Recorder<Handler> = Recorder::start(&scene, 42, &resources, Json::Null).expect("start");
    recorder.record_tick(0, &InputFrame::empty(), 100, vec![("hello".to_string(), Json::Null)]);
    recorder.record_tick(1, &InputFrame::empty(), 200, vec![]);
    let recording = recorder.finish();
    assert_eq!(recording.meta.seed, 42);
    assert_eq!(recording.meta.total_ticks, 2);
    assert_eq!(recording.frames.len(), 2);
    assert_eq!(recording.frames[0].state_hash, 100);
    assert_eq!(recording.frames[1].state_hash, 200);
    assert_eq!(recording.frames[0].signals_emitted.len(), 1);
}

#[test]
fn recording_embeds_resource_snapshots() {
    let scene = simple_scene();
    let mut resources = ResourceRegistry::new();
    resources.register("res://foo.json", doc(r#"{"hp": 100}"#));
    resources.register("res://bar.json", doc(r#"{"name": "alice"}"#));
    let recorder: Recorder<Handler> = Recorder::start(&scene, 0, &resources, Json::Null).expect("start");
    let recording = recorder.finish();
    assert_eq!(recording.meta.resource_snapshots.len(), 2);
    assert!(json_equal(recording.meta.resource_snapshots.get("res://foo.json").unwrap(), &doc(r#"{"hp": 100}"#)));
    assert!(json_equal(recording.meta.resource_snapshots.get("res://bar.json").unwrap(), &doc(r#"{"name": "alice"}"#)));
}

#[test]
fn recording_embeds_full_resource_snapshots() {
    let scene = simple_scene();
    let mut resources = ResourceRegistry::new();
    resources.register("res://data/sprite.json", doc(r#"{"texture": "hero.png"}"#));
    resources.register("res://data/audio.json", doc(r#"{"volume": 0.8}"#));
    let recorder: Recorder<Handler> = Recorder::start(&scene, 0, &resources, Json::Null).expect("start");
    let recording = recorder.finish();
    assert_eq!(recording.meta.resource_snapshots.len(), 2);
    assert!(json_equal(
        recording.meta.resource_snapshots.get("res://data/sprite.json").unwrap(),
        &doc(r#"{"texture": "hero.png"}"#)
    ));
    assert!(json_equal(recording.meta.resource_snapshots.get("res://data/audio.json").unwrap(), &doc(r#"{"volume": 0.8}"#)));
}

#[test]
fn recorder_start_carries_empty_module_records() {
    let recorder: Recorder<Handler> = Recorder::start(&empty_scene(), 0, &ResourceRegistry::new(), Json::Null).unwrap();
    assert!(recorder.module_records().is_empty());
    assert!(!recorder.rng_locked());
    assert!(recorder.is_recording());
    assert_eq!(recorder.recording().meta.tick_hz, 60);
}

#[test]
fn recorder_start_validated_stores_module_records_and_rng_locked_flag() {
    let modules = vec![module("lib.vec2", "1.0.0", "abc"), module("lib.math3d", "0.2.0", "def")];
    let recorder: Recorder<Handler> =
        Recorder::start_validated(&empty_scene(), 42, &ResourceRegistry::new(), &modules, true, Json::Null).unwrap();
    assert_eq!(recorder.module_records().len(), 2);
    assert!(recorder.rng_locked());
    assert_eq!(recorder.recording().meta.module_records, modules);
    assert!(recorder.recording().meta.rng_locked);
}

#[test]
fn recorder_start_validated_rejects_empty_module_names_when_rng_locked() {
    let modules = vec![module("", "1.0.0", "x")];
    let result: Result<Recorder<Handler>, _> =
        Recorder::start_validated(&empty_scene(), 0, &ResourceRegistry::new(), &modules, true, Json::Null);
    assert!(result.is_err(), "rng_locked recording must reject empty module names");
    match result {
        Err(craft::error::EngineError::Internal(m)) => assert_eq!(m, "module record \"\" missing name or version"),
        _ => panic!("expected an internal error"),
    }
    let unlocked: Result<Recorder<Handler>, _> =
        Recorder::start_validated(&empty_scene(), 0, &ResourceRegistry::new(), &modules, false, Json::Null);
    assert!(unlocked.is_ok());
}

#[test]
fn scene_signals_are_declared_in_name_order() {
    let mut scene = simple_scene();
    let mut states = StrMap::new();
    states.insert(
        "idle".to_string(),
        StateDef {
            on_enter: vec![],
            on_tick: vec![],
            transitions: vec![Transition {
                to: "run".to_string(),
                when: Expression::Eq {
                    eq: vec![Expression::Ref { path: "signals.go.now".to_string() }, Expression::Bare("true".to_string())],
                },
            }],
        },
    );
    scene.nodes[0].behaviors.push(Behavior::StateMachine { initial: "idle".to_string(), states });
    scene.nodes[0].behaviors.push(Behavior::OnSignal { signal: "alarm".to_string(), actions: vec![] });
    assert_eq!(collect_signal_names_from_scene(&scene), vec!["alarm".to_string(), "go.now".to_string()]);
    let recorder: Recorder<Handler> = Recorder::start(&scene, 0, &ResourceRegistry::new(), Json::Null).unwrap();
    let alarm = recorder.signal_id("alarm").expect("alarm declared");
    let go = recorder.signal_id("go.now").expect("go.now declared");
    assert_eq!((alarm.0, go.0), (0, 1));
    assert!(recorder.signal_id("missing").is_none());
    assert_eq!(recorder.bus().name_of(go), Some("go.now"));
}
