use craft::behavior::{ActionCommand, Behavior, LogLevel, Target};
use craft::evaluator::{
    apply_commands, apply_commands_with_animations, compute_dry_run_diff, resolve_target_mut, ComponentChange, SceneState,
};
use craft::json::Json;
use craft::scene::{Component, ComponentKind, ComponentSpec, ComponentType, ComponentValue, Node, NodeDef, NodeRegistry, Scene};
use craft::strmap::StrMap;

struct Orb;

impl Default for Orb {
    fn default() -> Self {
        Orb
    }
}

impl NodeDef for Orb {
    fn node_type(&self) -> &'static str {
        "Orb"
    }
    fn component_specs(&self) -> Vec<ComponentSpec> {
        vec![ComponentSpec::new("hp", ComponentType::Int, Json::Int(1))]
    }
}

fn registry() -> NodeRegistry {
    let mut r = NodeRegistry::new();
    r.register::<Orb>();
    r
}

fn node(id: &str, hp: i64) -> Node {
    let mut components = StrMap::new();
    components.insert("hp".to_string(), Component { value: ComponentValue::Int(hp), kind: ComponentKind::Transient });
    Node {
        id: id.to_string(),
        node_type: "Orb".to_string(),
        parent: None,
        components,
        behaviors: vec![],
        active_state: None,
        lua_class: None,
        destroyed: false,
    }
}

fn scene(nodes: Vec<Node>) -> Scene {
    Scene { kind: "scene".to_string(), name: "s".to_string(), nodes, spawn_counter: 3 }
}

fn node_target(id: &str) -> Target {
    Target::Node { id: id.to_string() }
}

#[test]
fn commands_write_destroy_spawn_and_log() {
    let mut s = scene(vec![node("a", 1), node("b", 2), node("a", 3)]);
    let mut comps = StrMap::new();
    comps.insert("hp".to_string(), ComponentValue::Int(9));
    let cmds = vec![
        ActionCommand::SetState { target: node_target("b"), key: "hp".to_string(), value: ComponentValue::Int(20) },
        ActionCommand::SetState { target: node_target("b"), key: "_active_state".to_string(), value: ComponentValue::String("run".to_string()) },
        ActionCommand::SetState { target: node_target("ghost"), key: "hp".to_string(), value: ComponentValue::Int(0) },
        ActionCommand::Destroy { target: node_target("a") },
        ActionCommand::Spawn { node_type: "Orb".to_string(), parent: node_target("b"), components: comps, behaviors: vec![Behavior::OnTick { actions: vec![] }] },
        ActionCommand::Spawn { node_type: "Ghost".to_string(), parent: Target::This, components: StrMap::new(), behaviors: vec![] },
        ActionCommand::Log { level: LogLevel::Info, message: "done".to_string(), fields: StrMap::new() },
        ActionCommand::Emit { signal: "x".to_string(), args: StrMap::new() },
    ];
    let logs = apply_commands(&mut s, &registry(), cmds);
    let ids: Vec<&str> = s.nodes.iter().map(|n| n.id.as_str()).collect();
    assert_eq!(ids, vec!["b", "__spawn_Orb_3"]);
    assert_eq!(s.spawn_counter, 4);
    assert_eq!(s.nodes[0].components.get("hp").unwrap().value, ComponentValue::Int(20));
    assert_eq!(s.nodes[0].components.get("hp").unwrap().kind, ComponentKind::Regular);
    assert_eq!(s.nodes[0].active_state.as_deref(), Some("run"));
    assert!(s.nodes[0].components.get("_active_state").is_none());
    assert_eq!(s.nodes[1].parent.as_deref(), Some("b"));
    assert_eq!(s.nodes[1].components.get("hp").unwrap().value, ComponentValue::Int(9));
    assert_eq!(s.nodes[1].behaviors.len(), 1);
    assert_eq!(logs.len(), 1);
    assert_eq!(logs[0].message, "done");
    assert_eq!(logs[0].level, LogLevel::Info);
}

#[test]
fn animations_record_start_values() {
    let mut s = scene(vec![node("a", 5)]);
    let mut anims = SceneState::default();
    let cmds = vec![
        ActionCommand::StartAnimation { target: Target::This, key: "hp".to_string(), to: ComponentValue::Int(10), remaining: 4 },
        ActionCommand::StartAnimation { target: node_target("a"), key: "mana".to_string(), to: ComponentValue::Int(1), remaining: 2 },
    ];
    let logs = apply_commands_with_animations(&mut s, &registry(), cmds, &mut anims);
    assert!(logs.is_empty());
    let list = anims.animations.get("a").expect("animations of a");
    assert_eq!(list.len(), 1);
    assert_eq!(list[0].key, "hp");
    assert_eq!(list[0].from, ComponentValue::Int(5));
    assert_eq!(list[0].to, ComponentValue::Int(10));
    assert_eq!(list[0].remaining, 4);
}

#[test]
fn resolve_target_mut_edits_the_named_node() {
    let mut s = scene(vec![node("a", 1), node("b", 2)]);
    if let Some(n) = resolve_target_mut(&mut s, &node_target("b")) {
        n.destroyed = true;
    }
    assert!(s.nodes[1].destroyed);
    assert!(resolve_target_mut(&mut s, &Target::Parent).is_none());
    assert_eq!(resolve_target_mut(&mut s, &Target::This).map(|n| n.id.clone()), Some("a".to_string()));
}

#[test]
fn dry_run_reports_last_write_per_component() {
    let mut n = node("a", 5);
    n.components.insert("nil".to_string(), Component { value: ComponentValue::Nil, kind: ComponentKind::Regular });
    let s = scene(vec![n, node("b", 1)]);
    let cmds = vec![
        ActionCommand::SetState { target: Target::This, key: "hp".to_string(), value: ComponentValue::Int(6) },
        ActionCommand::SetState { target: node_target("a"), key: "hp".to_string(), value: ComponentValue::Int(7) },
        ActionCommand::SetState { target: node_target("b"), key: "hp".to_string(), value: ComponentValue::Int(8) },
        ActionCommand::StartAnimation { target: Target::Parent, key: "speed".to_string(), to: ComponentValue::Int(3), remaining: 1 },
        ActionCommand::SetState { target: Target::This, key: "nil".to_string(), value: ComponentValue::Bool(true) },
    ];
    let changes = compute_dry_run_diff(&s, "a", &cmds);
    assert_eq!(changes.len(), 3);
    match &changes[0] {
        ComponentChange::Updated { key, from, to } => {
            assert_eq!(key, "hp");
            assert_eq!(*from, ComponentValue::Int(5));
            assert_eq!(*to, ComponentValue::Int(7));
        }
        other => panic!("unexpected {other:?}"),
    }
    match &changes[1] {
        ComponentChange::Added { key, value } => {
            assert_eq!(key, "nil");
            assert_eq!(*value, ComponentValue::Bool(true));
        }
        other => panic!("unexpected {other:?}"),
    }
    assert!(matches!(&changes[2], ComponentChange::Added { key, .. } if key == "speed"));
}
