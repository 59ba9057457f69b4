use craft::behavior::{Action, Behavior, Expression, StateDef, Target, Transition};
use craft::json::{int_as_float, Json};
use craft::lint::{lint, LintCode, LintSeverity, LintWarning};
use craft::scene::{Component, ComponentKind, ComponentSpec, ComponentType, ComponentValue, Node, NodeDef, NodeRegistry, Scene};
use craft::strmap::StrMap;

struct TestNode;

impl Default for TestNode {
    fn default() -> Self {
        TestNode
    }
}

impl NodeDef for TestNode {
    fn node_type(&self) -> &'static str {
        "TestNode"
    }
    fn component_specs(&self) -> Vec<ComponentSpec> {
        vec![
            ComponentSpec::new("hp", ComponentType::Int, Json::Int(100)),
            ComponentSpec::new("position", ComponentType::Vec2, Json::Array(vec![Json::Float(int_as_float(0)), Json::Float(int_as_float(0))])),
        ]
    }
}

fn registry() -> NodeRegistry {
    let mut r = NodeRegistry::new();
    r.register::<TestNode>();
    r
}

fn num(x: f64) -> serde_json::Number {
    serde_json::Number::from_f64(x).unwrap()
}

fn node_with_behaviors(id: &str, behaviors: Vec<Behavior>) -> Node {
    let mut components = StrMap::new();
    components.insert("hp".to_string(), Component { value: ComponentValue::Int(100), kind: ComponentKind::Regular });
    components.insert(
        "position".to_string(),
        Component { value: ComponentValue::Vec2([num(0.0), num(0.0)]), kind: ComponentKind::Regular },
    );
    Node {
        id: id.to_string(),
        node_type: "TestNode".to_string(),
        parent: None,
        components,
        behaviors,
        active_state: None,
        lua_class: None,
        destroyed: false,
    }
}

fn scene_of(nodes: Vec<Node>) -> Scene {
    Scene { kind: "scene".to_string(), name: "s".to_string(), nodes, spawn_counter: 0 }
}

fn state(transitions: Vec<Transition>) -> StateDef {
    StateDef { on_enter: vec![], on_tick: vec![], transitions }
}

fn states(entries: Vec<(&str, StateDef)>) -> StrMap<StateDef> {
    let mut m = StrMap::new();
    for (k, v) in entries {
        m.insert(k.to_string(), v);
    }
    m
}

fn emit(signal: &str) -> Action {
    Action::Emit { signal: signal.to_string(), args: StrMap::new() }
}

fn codes(ws: &[LintWarning]) -> Vec<&'static str> {
    ws.iter().map(|w| w.code.as_str()).collect()
}

#[test]
fn detects_signal_with_no_subscribers() {
    let node = node_with_behaviors("a", vec![Behavior::OnTick { actions: vec![emit("ghost")] }]);
    let warnings = lint(&scene_of(vec![node]), &registry());
    assert!(
        warnings.iter().any(|w| w.code == LintCode::SignalWithNoSubscribers),
        "expected signal_with_no_subscribers, got: {warnings:?}"
    );
}

#[test]
fn detects_unreachable_state() {
    let node = node_with_behaviors(
        "a",
        vec![Behavior::StateMachine {
            initial: "idle".to_string(),
            states: states(vec![("idle", state(vec![])), ("dead", state(vec![]))]),
        }],
    );
    let warnings = lint(&scene_of(vec![node]), &registry());
    assert!(warnings.iter().any(|w| w.code == LintCode::StateUnreachable), "expected state_unreachable");
}

#[test]
fn detects_undefined_parent() {
    let mut node = node_with_behaviors("a", vec![]);
    node.parent = Some("missing".to_string());
    let warnings = lint(&scene_of(vec![node]), &registry());
    assert!(warnings
        .iter()
        .any(|w| w.code == LintCode::UndefinedNodeReference && w.severity == LintSeverity::Error));
}

#[test]
fn detects_undefined_action_target() {
    let node = node_with_behaviors(
        "a",
        vec![Behavior::OnTick {
            actions: vec![Action::SetState {
                target: Target::Node { id: "missing".to_string() },
                key: "hp".to_string(),
                value: Json::Int(1),
            }],
        }],
    );
    let warnings = lint(&scene_of(vec![node]), &registry());
    assert!(warnings
        .iter()
        .any(|w| w.code == LintCode::ActionReferencesMissing && w.severity == LintSeverity::Error));
}

#[test]
fn detects_unused_component() {
    let node = node_with_behaviors("a", vec![]);
    let warnings = lint(&scene_of(vec![node]), &registry());
    assert!(warnings.iter().any(|w| w.code == LintCode::UnusedComponent));
}

#[test]
fn detects_missing_resource_uri_is_stubbed() {
    let warnings = lint(&scene_of(vec![]), &registry());
    let n = warnings.iter().filter(|w| w.code == LintCode::ResourcePathUnresolved).count();
    assert_eq!(n, 0);
}

#[test]
fn clean_scene_has_no_warnings() {
    let node = node_with_behaviors(
        "a",
        vec![Behavior::OnSignal {
            signal: "hit".to_string(),
            actions: vec![
                Action::SetState { target: Target::This, key: "hp".to_string(), value: Json::Int(50) },
                Action::SetState {
                    target: Target::This,
                    key: "position".to_string(),
                    value: Json::Array(vec![Json::Float(int_as_float(1)), Json::Float(int_as_float(2))]),
                },
            ],
        }],
    );
    let warnings = lint(&scene_of(vec![node]), &registry());
    let real = warnings.iter().filter(|w| w.code != LintCode::ResourcePathUnresolved).collect::<Vec<_>>();
    assert!(real.is_empty(), "expected no warnings, got: {real:?}");
}

#[test]
fn reachable_transitions_are_not_flagged() {
    let node = node_with_behaviors(
        "a",
        vec![Behavior::StateMachine {
            initial: "a".to_string(),
            states: states(vec![
                ("a", state(vec![Transition { to: "b".to_string(), when: Expression::Literal(Json::Bool(true)) }])),
                ("b", state(vec![])),
            ]),
        }],
    );
    let warnings = lint(&scene_of(vec![node]), &registry());
    assert!(!warnings.iter().any(|w| w.code == LintCode::StateUnreachable), "a and b are both reachable");
}

#[test]
fn lint_codes_have_snake_case_names() {
    assert_eq!(LintCode::SignalWithNoSubscribers.as_str(), "signal_with_no_subscribers");
    assert_eq!(LintCode::StateUnreachable.as_str(), "state_unreachable");
    assert_eq!(LintCode::UnusedComponent.as_str(), "unused_component");
    assert_eq!(LintCode::UndefinedNodeReference.as_str(), "undefined_node_reference");
    assert_eq!(LintCode::ActionReferencesMissing.as_str(), "action_references_missing");
    assert_eq!(LintCode::ResourcePathUnresolved.as_str(), "resource_path_unresolved");
}

#[test]
fn signal_finding_names_first_emitter_and_texts() {
    let a = node_with_behaviors("b_node", vec![Behavior::OnTick { actions: vec![emit("ping"), emit("heard")] }]);
    let b = node_with_behaviors(
        "a_node",
        vec![
            Behavior::OnTick { actions: vec![emit("ping")] },
            Behavior::OnSignal { signal: "heard".to_string(), actions: vec![] },
        ],
    );
    let warnings = lint(&scene_of(vec![a, b]), &registry());
    let sig: Vec<&LintWarning> = warnings.iter().filter(|w| w.code == LintCode::SignalWithNoSubscribers).collect();
    assert_eq!(sig.len(), 1);
    assert_eq!(sig[0].node.as_deref(), Some("b_node"));
    assert_eq!(sig[0].message, "signal \"ping\" is emitted but has no on_signal subscribers");
    assert_eq!(sig[0].suggestion.as_deref(), Some("Add an on_signal handler for \"ping\" or remove the emit"));
    assert_eq!(sig[0].severity, LintSeverity::Warning);
}

#[test]
fn unreachable_states_follow_transition_chains() {
    let t = |to: &str| Transition { to: to.to_string(), when: Expression::Literal(Json::Bool(true)) };
    let node = node_with_behaviors(
        "m",
        vec![Behavior::StateMachine {
            initial: "a".to_string(),
            states: states(vec![
                ("a", state(vec![t("b")])),
                ("b", state(vec![t("c"), t("a")])),
                ("c", state(vec![])),
                ("d", state(vec![t("a")])),
                ("e", state(vec![t("e")])),
            ]),
        }],
    );
    let warnings = lint(&scene_of(vec![node]), &registry());
    let msgs: Vec<&str> =
        warnings.iter().filter(|w| w.code == LintCode::StateUnreachable).map(|w| w.message.as_str()).collect();
    assert_eq!(
        msgs,
        vec![
            "state \"d\" in node \"m\" is never reached from initial \"a\"",
            "state \"e\" in node \"m\" is never reached from initial \"a\"",
        ]
    );
}

#[test]
fn findings_are_sorted_by_code_then_node() {
    let mut z = node_with_behaviors(
        "z",
        vec![Behavior::OnTick {
            actions: vec![
                Action::Destroy { target: Target::Node { id: "nowhere".to_string() } },
                Action::CallSystem { system: "physics".to_string(), args: StrMap::new(), result_in: None },
                emit(""),
            ],
        }],
    );
    z.parent = Some("gone".to_string());
    let a = node_with_behaviors("a", vec![Behavior::OnTick { actions: vec![emit("lonely")] }]);
    let warnings = lint(&scene_of(vec![z, a]), &registry());
    assert_eq!(
        codes(&warnings),
        vec![
            "action_references_missing",
            "action_references_missing",
            "action_references_missing",
            "signal_with_no_subscribers",
            "signal_with_no_subscribers",
            "undefined_node_reference",
            "unused_component",
            "unused_component",
            "unused_component",
            "unused_component",
        ]
    );
    // Ties keep check order: the target check runs before the system and emit checks.
    assert_eq!(warnings[0].message, "action references node \"nowhere\" but no node with that id exists");
    assert_eq!(
        warnings[1].message,
        "call_system references system \"physics\" \u{2014} registry lookup not yet implemented for lint"
    );
    assert_eq!(warnings[1].severity, LintSeverity::Warning);
    assert_eq!(warnings[2].message, "emit action has an empty signal name");
    // Signals: "" then "lonely" by name, sorted by node: a before z.
    assert_eq!(warnings[3].node.as_deref(), Some("a"));
    assert_eq!(warnings[4].node.as_deref(), Some("z"));
    assert_eq!(warnings[5].message, "node \"z\" has parent \"gone\" but no node with that id exists");
    assert_eq!(warnings[6].node.as_deref(), Some("a"));
    assert_eq!(
        warnings[6].message,
        "component \"hp\" on node \"a\" is declared but never read by any action"
    );
    assert_eq!(warnings[7].message, "component \"position\" on node \"a\" is declared but never read by any action");
    assert_eq!(warnings[8].node.as_deref(), Some("z"));
}

#[test]
fn conditions_reading_self_count_as_reads() {
    let node = node_with_behaviors(
        "a",
        vec![Behavior::OnTick {
            actions: vec![Action::If {
                cond: Expression::Lt {
                    lt: vec![
                        Expression::Ref { path: "self.hp.current".to_string() },
                        Expression::Ref { path: "other.position".to_string() },
                    ],
                },
                then_: vec![],
                else_: vec![],
            }],
        }],
    );
    let warnings = lint(&scene_of(vec![node]), &registry());
    let unused: Vec<&str> =
        warnings.iter().filter(|w| w.code == LintCode::UnusedComponent).map(|w| w.message.as_str()).collect();
    assert_eq!(unused, vec!["component \"position\" on node \"a\" is declared but never read by any action"]);
}
