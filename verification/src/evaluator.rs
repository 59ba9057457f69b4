//! Targets and commands: which node an action's target
//! names, applying the commands actions evaluate to, and the component
//! changes a dry run reports.

use vstd::prelude::*;
use crate::behavior::{ActionCommand, Behavior, LogLevel, Target};
use crate::json::Json;
use crate::load::opt_view;
use crate::scene::{Component, ComponentKind, ComponentSpec, ComponentValue, Node, NodeRegistry, Scene, ValueView, first_node, lemma_first_node};
use crate::strmap::{StrMap, keys_ascending};
use crate::text::{str_eq, push_str, push_decimal, decimal, seq_lt};
use crate::hot_reload::lists_in_order;

verus! {

broadcast use vstd::string::group_string_axioms;

/// Why an expression could not be evaluated.
#[derive(Debug, Clone)]
pub enum EvalError {
    UnknownNode(String),
    UnknownComponent { node: String, key: String },
    BadRef(String),
    BadNumeric(String),
    WrongType(String),
}

/// What runs a node's behaviors: a tick, or a delivered signal.
#[derive(Debug, Clone, PartialEq, Eq)]
pub enum Trigger {
    Tick,
    Signal(String),
}

/// Why a command could not be applied.
#[derive(Debug, Clone, Copy, PartialEq, Eq)]
pub enum ApplyError {
    UnknownNode,
    BadComponentType,
}

/// Whether a node may write through a target during its own tick: any
/// target but another named node.
pub open spec fn target_allowed(node: Node, target: Target) -> bool {
    match target {
        Target::Node { id } => id@ == node.id@,
        _ => true,
    }
}

/// Whether a node may write through `target` during its own tick.
pub fn target_allowed_for_tick(node: &Node, target: &Target) -> (r: bool)
    ensures
        r == target_allowed(*node, *target),
{
    match target {
        Target::Node { id } => str_eq(id.as_str(), node.id.as_str()),
        _ => true,
    }
}

/// The first node whose parent is `parent` (and, with a filter, whose id
/// is the filter).
pub open spec fn first_child(nodes: Seq<Node>, parent: Seq<char>, filter: Option<Seq<char>>) -> Option<int>
    decreases nodes.len(),
{
    if nodes.len() == 0 {
        None
    } else {
        match first_child(nodes.drop_last(), parent, filter) {
            Some(i) => Some(i),
            None => if is_child(nodes.last(), parent, filter) { Some(nodes.len() - 1) } else { None },
        }
    }
}

/// Whether `n` is a child of `parent` matching `filter`.
pub open spec fn is_child(n: Node, parent: Seq<char>, filter: Option<Seq<char>>) -> bool {
    opt_view(n.parent) == Some(parent) && match filter {
        Some(f) => n.id@ == f,
        None => true,
    }
}

/// The scene node a target names from `node`'s point of view, as an
/// index into the scene's nodes; `None` for the node itself (`This`)
/// and for a target naming no node.
pub open spec fn target_index(nodes: Seq<Node>, node: Node, target: Target) -> Option<int> {
    match target {
        Target::This => None,
        Target::Node { id } => first_node(nodes, id@, false),
        Target::Parent => match node.parent {
            Some(p) => first_node(nodes, p@, false),
            None => None,
        },
        Target::Children { filter } => first_child(nodes, node.id@, opt_view(filter)),
    }
}

fn find_child(nodes: &Vec<Node>, parent: &str, filter: &Option<String>) -> (r: Option<usize>)
    ensures
        match r {
            Some(i) => first_child(nodes@, parent@, opt_view(*filter)) == Some(i as int),
            None => first_child(nodes@, parent@, opt_view(*filter)) is None,
        },
{
    let mut i: usize = 0;
    while i < nodes.len()
        invariant
            i <= nodes@.len(),
            first_child(nodes@.take(i as int), parent@, opt_view(*filter)) is None,
        decreases nodes.len() - i,
    {
        assert(nodes@.take(i + 1).drop_last() =~= nodes@.take(i as int));
        let n = &nodes[i];
        let parent_ok = match &n.parent {
            Some(p) => str_eq(p.as_str(), parent),
            None => false,
        };
        let hit = parent_ok && match filter {
            Some(f) => str_eq(n.id.as_str(), f.as_str()),
            None => true,
        };
        if hit {
            proof { lemma_first_child_extend(nodes@, parent@, opt_view(*filter), i as int + 1); }
            return Some(i);
        }
        i += 1;
    }
    assert(nodes@.take(nodes@.len() as int) =~= nodes@);
    None
}

proof fn lemma_first_child_extend(nodes: Seq<Node>, parent: Seq<char>, filter: Option<Seq<char>>, k: int)
    requires
        0 < k <= nodes.len(),
        first_child(nodes.take(k - 1), parent, filter) is None,
        is_child(nodes[k - 1], parent, filter),
    ensures
        first_child(nodes, parent, filter) == Some(k - 1),
    decreases nodes.len(),
{
    if nodes.len() == k {
        assert(nodes.drop_last() =~= nodes.take(k - 1));
    } else {
        assert(nodes.drop_last().take(k - 1) =~= nodes.take(k - 1));
        lemma_first_child_extend(nodes.drop_last(), parent, filter, k);
    }
}

/// The node a target names from `node`: `node` itself for `This`; for a
/// named node, the parent or a child, the first such node of the scene
/// (destroyed nodes included).
pub fn resolve_target<'a>(scene: &'a Scene, node: &'a Node, target: &Target) -> (r: Option<&'a Node>)
    ensures
        target is This ==> r == Some(node),
        !(target is This) ==> match target_index(scene.nodes@, *node, *target) {
            Some(i) => r matches Some(n) && *n == scene.nodes@[i],
            None => r is None,
        },
{
    let idx = match target {
        Target::This => return Some(node),
        Target::Node { id } => scene.find_index(id.as_str(), false),
        Target::Parent => match &node.parent {
            Some(p) => scene.find_index(p.as_str(), false),
            None => None,
        },
        Target::Children { filter } => find_child(&scene.nodes, node.id.as_str(), filter),
    };
    match idx {
        Some(i) => {
            proof { crate::scene::lemma_first_node(scene.nodes@, ""@, false); }
            assert(i < scene.nodes@.len()) by {
                match target {
                    Target::Node { id } => crate::scene::lemma_first_node(scene.nodes@, id@, false),
                    Target::Parent => crate::scene::lemma_first_node(scene.nodes@, node.parent->0@, false),
                    Target::Children { filter } => lemma_first_child_range(scene.nodes@, node.id@, opt_view(*filter)),
                    Target::This => {},
                }
            }
            Some(&scene.nodes[i])
        },
        None => None,
    }
}

proof fn lemma_first_child_range(nodes: Seq<Node>, parent: Seq<char>, filter: Option<Seq<char>>)
    ensures
        first_child(nodes, parent, filter) matches Some(i) ==> 0 <= i < nodes.len() && is_child(nodes[i], parent, filter),
    decreases nodes.len(),
{
    if nodes.len() > 0 {
        lemma_first_child_range(nodes.drop_last(), parent, filter);
    }
}

/// The target a command is issued for: `This` becomes the node itself by
/// id; a target naming a scene node becomes that node by id; a target
/// naming none is kept as it is.
pub fn resolve_target_for_command(scene: &Scene, node: &Node, target: &Target) -> (r: Target)
    ensures
        target is This ==> (r matches Target::Node { id } && id@ == node.id@),
        !(target is This) ==> match target_index(scene.nodes@, *node, *target) {
            Some(i) => r matches Target::Node { id } && id@ == scene.nodes@[i].id@,
            None => r == *target,
        },
{
    match target {
        Target::This => Target::Node { id: node.id.clone() },
        other => match resolve_target(scene, node, other) {
            Some(n) => Target::Node { id: n.id.clone() },
            None => other.copied(),
        },
    }
}

// ------------------------------------------------------------- commands

/// An animation in progress on a component.
#[derive(Debug, Clone)]
pub struct Animation {
    pub key: String,
    pub from: ComponentValue,
    pub to: ComponentValue,
    pub remaining: u32,
}

/// The animations in progress, by node id.
#[derive(Debug)]
pub struct SceneState {
    pub animations: StrMap<Vec<Animation>>,
}

impl Default for SceneState {
    fn default() -> (r: Self)
        ensures
            r.animations@ == Map::<Seq<char>, Vec<Animation>>::empty(),
    {
        SceneState { animations: StrMap::new() }
    }
}

/// What a `log` action wrote.
#[derive(Debug)]
pub struct LogEntry {
    pub level: LogLevel,
    pub message: String,
    pub fields: StrMap<Json>,
}

/// An animation by its plain values: key, start and end values, ticks left.
pub open spec fn anim_view(a: Animation) -> (Seq<char>, ValueView, ValueView, u32) {
    (a.key@, a.from@, a.to@, a.remaining)
}

/// The animations in progress, by plain values.
pub open spec fn anims_view(m: Map<Seq<char>, Vec<Animation>>) -> Map<Seq<char>, Seq<(Seq<char>, ValueView, ValueView, u32)>> {
    m.map_values(|v: Vec<Animation>| v@.map_values(|a: Animation| anim_view(a)))
}

/// The node a command's target names: the scene's first node for `This`,
/// the first node with the id for a named node, none otherwise.
pub open spec fn command_target(nodes: Seq<Node>, target: Target) -> Option<int> {
    match target {
        Target::This => if nodes.len() > 0 { Some(0) } else { None },
        Target::Node { id } => first_node(nodes, id@, false),
        _ => None,
    }
}

fn command_target_index(scene: &Scene, target: &Target) -> (r: Option<usize>)
    ensures
        match r {
            Some(k) => command_target(scene.nodes@, *target) == Some(k as int) && k < scene.nodes@.len(),
            None => command_target(scene.nodes@, *target) is None,
        },
{
    match target {
        Target::This => if scene.nodes.len() > 0 { Some(0) } else { None },
        Target::Node { id } => {
            proof { lemma_first_node(scene.nodes@, id@, false); }
            scene.find_node_index_raw(id.as_str())
        },
        _ => None,
    }
}

/// The node a command's target names, for changing it.
pub fn resolve_target_mut<'a>(scene: &'a mut Scene, target: &Target) -> (r: Option<&'a mut Node>)
    ensures
        match command_target(old(scene).nodes@, *target) {
            Some(i) => r matches Some(n) && *n == old(scene).nodes@[i]
                && final(scene).nodes@ == old(scene).nodes@.update(i, *final(n)),
            None => r is None && final(scene).nodes == old(scene).nodes,
        },
        final(scene).kind == old(scene).kind,
        final(scene).name == old(scene).name,
        final(scene).spawn_counter == old(scene).spawn_counter,
{
    match command_target_index(scene, target) {
        Some(i) => Some(&mut scene.nodes[i]),
        None => None,
    }
}

/// Node `b` is node `a` after a state write of `value` under `key`:
/// `_active_state` sets the active state (from a string), any other key
/// sets that component, as a regular one.
pub open spec fn state_written(a: Node, b: Node, key: Seq<char>, value: ComponentValue) -> bool {
    &&& b.id == a.id
    &&& b.node_type == a.node_type
    &&& b.parent == a.parent
    &&& b.behaviors == a.behaviors
    &&& b.lua_class == a.lua_class
    &&& b.destroyed == a.destroyed
    &&& if key == "_active_state"@ {
        &&& b.components == a.components
        &&& match value {
            ComponentValue::String(s) => b.active_state == Some(s),
            _ => b.active_state == a.active_state,
        }
    } else {
        &&& b.active_state == a.active_state
        &&& b.components@ == a.components@.insert(key, Component { value, kind: ComponentKind::Regular })
    }
}

/// The id a spawned node gets: the reserved `__spawn_` prefix, its type
/// and the spawn counter (`Scene::next_spawn_id`).
pub open spec fn spawned_id(node_type: Seq<char>, counter: u64) -> Seq<char> {
    crate::scene::spawn_id_text(node_type, counter)
}

/// The component of a spawned node made from a value.
pub open spec fn regular(v: ComponentValue) -> Component {
    Component { value: v, kind: ComponentKind::Regular }
}

/// Node `n` is the node a spawn command makes when the counter is `counter`.
pub open spec fn spawned_node(n: Node, node_type: String, parent: Target, components: StrMap<ComponentValue>,
    behaviors: Vec<Behavior>, counter: u64) -> bool {
    &&& n.id@ == spawned_id(node_type@, counter)
    &&& n.node_type == node_type
    &&& n.parent == match parent {
        Target::Node { id } => Some(id),
        _ => None,
    }
    &&& n.components@ == components@.map_values(|v: ComponentValue| regular(v))
    &&& n.behaviors == behaviors
    &&& n.active_state is None
    &&& n.lua_class is None
    &&& !n.destroyed
}

/// The nodes without id `id`, in order.
pub open spec fn without_id(nodes: Seq<Node>, id: Seq<char>) -> Seq<Node> {
    nodes.filter(|n: Node| n.id@ != id)
}

/// The effect of one command: nodes `pre` with spawn counter `pc` become
/// `post` with `qc`; animations (recorded only when `record`) go from
/// `ap` to `aq`; log entries from `lp` to `lq`.
pub open spec fn command_effect(pre: Seq<Node>, pc: u64, reg: Map<Seq<char>, Seq<ComponentSpec>>, cmd: ActionCommand,
    post: Seq<Node>, qc: u64, record: bool,
    ap: Map<Seq<char>, Seq<(Seq<char>, ValueView, ValueView, u32)>>, aq: Map<Seq<char>, Seq<(Seq<char>, ValueView, ValueView, u32)>>,
    lp: Seq<LogEntry>, lq: Seq<LogEntry>) -> bool {
    match cmd {
        ActionCommand::SetState { target, key, value } => qc == pc && aq == ap && lq == lp
            && match command_target(pre, target) {
                Some(i) => post.len() == pre.len()
                    && (forall|j: int| 0 <= j < pre.len() && j != i ==> post[j] == pre[j])
                    && state_written(pre[i], post[i], key@, value),
                None => post == pre,
            },
        ActionCommand::Destroy { target } => qc == pc && aq == ap && lq == lp
            && match target {
                Target::Node { id } => post == without_id(pre, id@),
                _ => post == pre,
            },
        ActionCommand::Spawn { node_type, parent, components, behaviors } => aq == ap && lq == lp
            && if reg.contains_key(node_type@) {
                qc == pc + 1 && post.len() == pre.len() + 1 && post.drop_last() == pre
                    && spawned_node(post.last(), node_type, parent, components, behaviors, pc)
            } else {
                qc == pc && post == pre
            },
        ActionCommand::StartAnimation { target, key, to, remaining } => qc == pc && lq == lp && post == pre
            && match command_target(pre, target) {
                Some(i) => if record && pre[i].components@.contains_key(key@) {
                    aq == ap.insert(pre[i].id@, (if ap.contains_key(pre[i].id@) { ap[pre[i].id@] } else { seq![] })
                        .push((key@, pre[i].components@[key@].value@, to@, remaining)))
                } else {
                    aq == ap
                },
                None => aq == ap,
            },
        ActionCommand::Log { level, message, fields } => qc == pc && aq == ap && post == pre
            && lq == lp.push(LogEntry { level, message, fields }),
        _ => qc == pc && aq == ap && lq == lp && post == pre,
    }
}

fn regular_components(components: StrMap<ComponentValue>) -> (r: StrMap<Component>)
    ensures
        r@ == components@.map_values(|v: ComponentValue| regular(v)),
{
    components.proof_keys();
    let ghost src = components;
    let entries = components.into_entries();
    let mut out: StrMap<Component> = StrMap::new();
    let mut rest = entries;
    let n = rest.len();
    let ghost es = rest@;
    let mut i: usize = 0;
    out.proof_keys();
    assert(out.key_seq() =~= src.key_seq().take(0));
    assert(out.value_seq().len() == 0);
    assert(rest@ =~= es.skip(0));
    assert(es.map_values(|e: (String, ComponentValue)| e.0@).len() == es.len());
    while i < n
        invariant
            n == es.len() == src.key_seq().len() == src.value_seq().len(),
            i <= n,
            rest@ == es.skip(i as int),
            es.map_values(|e: (String, ComponentValue)| e.0@) == src.key_seq(),
            es.map_values(|e: (String, ComponentValue)| e.1) == src.value_seq(),
            keys_ascending(src.key_seq()),
            out.key_seq() == src.key_seq().take(i as int),
            out.value_seq().len() == i,
            forall|j: int| 0 <= j < i ==> out.value_seq()[j] == regular(#[trigger] src.value_seq()[j]),
        decreases n - i,
    {
        let (k, v) = rest.remove(0);
        assert(rest@ =~= es.skip(i + 1));
        assert(k@ == es.map_values(|e: (String, ComponentValue)| e.0@)[i as int]);
        assert(v == es.map_values(|e: (String, ComponentValue)| e.1)[i as int]);
        proof {
            assert forall|j: int| 0 <= j < out.key_seq().len() implies seq_lt(#[trigger] out.key_seq()[j], k@) by {
                assert(src.key_seq()[j] == out.key_seq()[j]);
            }
        }
        let ghost vs0 = out.value_seq();
        out.push_last(k, Component { value: v, kind: ComponentKind::Regular });
        assert(out.key_seq() =~= src.key_seq().take(i + 1));
        proof {
            assert forall|j: int| 0 <= j < i + 1 implies out.value_seq()[j] == regular(#[trigger] src.value_seq()[j]) by {
                if j < i { assert(out.value_seq()[j] == vs0[j]); }
            }
        }
        i += 1;
    }
    assert(src.key_seq().take(n as int) =~= src.key_seq());
    proof { src.lemma_mapped(out, |v: ComponentValue| regular(v)); }
    out
}

fn push_animation(anims: &mut SceneState, id: &String, a: Animation)
    ensures
        anims_view(final(anims).animations@) == anims_view(old(anims).animations@).insert(id@,
            (if anims_view(old(anims).animations@).contains_key(id@) { anims_view(old(anims).animations@)[id@] } else { seq![] })
                .push(anim_view(a))),
{
    let ghost start = anims.animations@;
    let ghost av = anim_view(a);
    let mut v = match anims.animations.remove(id.as_str()) {
        Some(v) => v,
        None => Vec::new(),
    };
    let ghost v0 = v@;
    v.push(a);
    let ghost vv = v;
    anims.animations.insert(id.clone(), v);
    proof {
        assert(anims.animations@ == start.remove(id@).insert(id@, vv));
        assert(vv@.map_values(|x: Animation| anim_view(x)) =~= v0.map_values(|x: Animation| anim_view(x)).push(av));
        if start.contains_key(id@) {
            assert(v0 == start[id@]@);
        } else {
            assert(v0.map_values(|x: Animation| anim_view(x)) =~= seq![]);
        }
        assert(anims_view(anims.animations@) =~= anims_view(start).insert(id@,
            (if anims_view(start).contains_key(id@) { anims_view(start)[id@] } else { seq![] }).push(av)));
    }
}

/// Applies one command.
/// How many spawn commands a list holds: each advances the spawn
/// counter by at most one.
pub open spec fn spawn_count(cmds: Seq<ActionCommand>) -> nat
    decreases cmds.len(),
{
    if cmds.len() == 0 {
        0
    } else {
        spawn_count(cmds.drop_last()) + if cmds.last() is Spawn { 1nat } else { 0nat }
    }
}

proof fn lemma_spawn_count_prefix(cmds: Seq<ActionCommand>, i: int)
    requires
        0 <= i < cmds.len(),
    ensures
        spawn_count(cmds.take(i + 1)) == spawn_count(cmds.take(i)) + if cmds[i] is Spawn { 1nat } else { 0nat },
        spawn_count(cmds.take(i + 1)) <= spawn_count(cmds),
    decreases cmds.len(),
{
    assert(cmds.take(i + 1).drop_last() =~= cmds.take(i));
    if i + 1 < cmds.len() {
        lemma_spawn_count_prefix(cmds.drop_last(), i);
        assert(cmds.drop_last().take(i + 1) =~= cmds.take(i + 1));
        assert(cmds.drop_last().take(i) =~= cmds.take(i));
    } else {
        assert(cmds.take(i + 1) =~= cmds);
    }
}

fn apply_command(scene: &mut Scene, registry: &NodeRegistry, cmd: ActionCommand, record: bool,
    anims: &mut SceneState, logs: &mut Vec<LogEntry>)
    requires
        cmd is Spawn ==> old(scene).spawn_counter < u64::MAX,
    ensures
        command_effect(old(scene).nodes@, old(scene).spawn_counter, registry@, cmd, final(scene).nodes@,
            final(scene).spawn_counter, record, anims_view(old(anims).animations@), anims_view(final(anims).animations@),
            old(logs)@, final(logs)@),
        final(scene).kind == old(scene).kind,
        final(scene).name == old(scene).name,
{
    let ghost cmd0 = cmd;
    let ghost p0 = scene.nodes@;
    let ghost c0 = scene.spawn_counter;
    let ghost a0 = anims_view(anims.animations@);
    let ghost l0 = logs@;
    match cmd {
        ActionCommand::SetState { target, key, value } => {
            match command_target_index(scene, &target) {
                Some(i) => {
                    let ghost pre = scene.nodes@;
                    let mut node = scene.nodes.remove(i);
                    let ghost n0 = node;
                    if str_eq(key.as_str(), "_active_state") {
                        match &value {
                            ComponentValue::String(s) => {
                                node.active_state = Some(s.clone());
                            },
                            _ => {},
                        }
                    } else {
                        node.components.insert(key, Component { value, kind: ComponentKind::Regular });
                    }
                    let ghost n1 = node;
                    scene.nodes.insert(i, node);
                    proof {
                        assert(scene.nodes@ =~= pre.update(i as int, n1));
                        assert(n0 == pre[i as int]);
                        assert(state_written(n0, n1, key@, value));
                    }
                },
                None => {},
            }
            assert(command_effect(p0, c0, registry@, cmd0, scene.nodes@, scene.spawn_counter, record, a0, anims_view(anims.animations@), l0, logs@));
        },
        ActionCommand::Destroy { target } => {
            match &target {
                Target::Node { id } => {
                    let mut nodes: Vec<Node> = Vec::new();
                    std::mem::swap(&mut nodes, &mut scene.nodes);
                    let ghost all = nodes@;
                    let mut kept: Vec<Node> = Vec::new();
                    let n = nodes.len();
                    let mut i: usize = 0;
                    proof { reveal(Seq::filter); }
                    assert(nodes@ =~= all.skip(0));
                    assert(without_id(all.take(0), id@) =~= seq![]);
                    while i < n
                        invariant
                            n == all.len(),
                            i <= n,
                            nodes@ == all.skip(i as int),
                            kept@ == without_id(all.take(i as int), id@),
                        decreases n - i,
                    {
                        proof { reveal(Seq::filter); }
                        let node = nodes.remove(0);
                        assert(node == all[i as int]);
                        assert(nodes@ =~= all.skip(i + 1));
                        assert(all.take(i + 1).drop_last() =~= all.take(i as int));
                        assert(all.take(i + 1).last() == all[i as int]);
                        if !str_eq(node.id.as_str(), id.as_str()) {
                            kept.push(node);
                        }
                        i += 1;
                    }
                    assert(all.take(n as int) =~= all);
                    scene.nodes = kept;
                },
                _ => {},
            }
            assert(command_effect(p0, c0, registry@, cmd0, scene.nodes@, scene.spawn_counter, record, a0, anims_view(anims.animations@), l0, logs@));
        },
        ActionCommand::Spawn { node_type, parent, components, behaviors } => {
            if registry.get(node_type.as_str()).is_some() {
                let mut id = String::new();
                push_str(&mut id, "__spawn_");
                push_str(&mut id, node_type.as_str());
                push_str(&mut id, "_");
                push_decimal(&mut id, scene.spawn_counter);
                assert(id@ =~= spawned_id(node_type@, scene.spawn_counter));
                scene.spawn_counter = scene.spawn_counter + 1;
                let parent_id = match parent {
                    Target::Node { id } => Some(id),
                    _ => None,
                };
                let comps = regular_components(components);
                let ghost pre = scene.nodes@;
                let node = Node {
                    id,
                    node_type,
                    parent: parent_id,
                    components: comps,
                    behaviors,
                    active_state: None,
                    lua_class: None,
                    destroyed: false,
                };
                let ghost nv = node;
                scene.nodes.push(node);
                assert(scene.nodes@.drop_last() =~= pre);
                assert(scene.nodes@.last() == nv);
            }
            assert(command_effect(p0, c0, registry@, cmd0, scene.nodes@, scene.spawn_counter, record, a0, anims_view(anims.animations@), l0, logs@));
        },
        ActionCommand::StartAnimation { target, key, to, remaining } => {
            if record {
                match command_target_index(scene, &target) {
                    Some(i) => {
                        match scene.nodes[i].components.get(key.as_str()) {
                            Some(c) => {
                                let from = c.value.clone();
                                let nid = scene.nodes[i].id.clone();
                                let a = Animation { key, from, to, remaining };
                                assert(anim_view(a) == (key@, p0[i as int].components@[key@].value@, to@, remaining));
                                assert(nid@ == p0[i as int].id@);
                                push_animation(anims, &nid, a);
                            },
                            None => {},
                        }
                    },
                    None => {},
                }
            }
            assert(command_effect(p0, c0, registry@, cmd0, scene.nodes@, scene.spawn_counter, record, a0, anims_view(anims.animations@), l0, logs@));
        },
        ActionCommand::Log { level, message, fields } => {
            logs.push(LogEntry { level, message, fields });
            assert(command_effect(p0, c0, registry@, cmd0, scene.nodes@, scene.spawn_counter, record, a0, anims_view(anims.animations@), l0, logs@));
        },
        _ => {},
    }
}

/// Applies commands in order (animations not recorded); returns what
/// `log` commands wrote.
pub fn apply_commands(scene: &mut Scene, registry: &NodeRegistry, cmds: Vec<ActionCommand>) -> (r: Vec<LogEntry>)
    requires
        old(scene).spawn_counter + spawn_count(cmds@) <= u64::MAX,
    ensures
        commands_effect(old(scene).nodes@, old(scene).spawn_counter, registry@, cmds@, final(scene).nodes@,
            final(scene).spawn_counter, false, Map::empty(), Map::empty(), r@),
        final(scene).kind == old(scene).kind,
        final(scene).name == old(scene).name,
{
    let mut none = SceneState::default();
    assert(anims_view(none.animations@) =~= Map::empty());
    let r = apply_all(scene, registry, cmds, false, &mut none);
    proof { lemma_no_record_keeps_anims(old(scene).nodes@, old(scene).spawn_counter, registry@, cmds@, scene.nodes@, scene.spawn_counter, anims_view(none.animations@), r@); }
    r
}

/// Applies commands in order, recording the animations they start in
/// `animations`; returns what `log` commands wrote.
pub fn apply_commands_with_animations(scene: &mut Scene, registry: &NodeRegistry, cmds: Vec<ActionCommand>,
    animations: &mut SceneState) -> (r: Vec<LogEntry>)
    requires
        old(scene).spawn_counter + spawn_count(cmds@) <= u64::MAX,
    ensures
        commands_effect(old(scene).nodes@, old(scene).spawn_counter, registry@, cmds@, final(scene).nodes@,
            final(scene).spawn_counter, true, anims_view(old(animations).animations@), anims_view(final(animations).animations@), r@),
        final(scene).kind == old(scene).kind,
        final(scene).name == old(scene).name,
{
    apply_all(scene, registry, cmds, true, animations)
}

/// The commands' effects chained: `ns`, `cs`, `am`, `ls` are the nodes,
/// counters, animations and log entries before and after each command.
pub open spec fn trace_ok(pre: Seq<Node>, pc: u64, reg: Map<Seq<char>, Seq<ComponentSpec>>, cmds: Seq<ActionCommand>,
    post: Seq<Node>, qc: u64, record: bool,
    ap: Map<Seq<char>, Seq<(Seq<char>, ValueView, ValueView, u32)>>, aq: Map<Seq<char>, Seq<(Seq<char>, ValueView, ValueView, u32)>>,
    logs: Seq<LogEntry>,
    ns: Seq<Seq<Node>>, cs: Seq<u64>, am: Seq<Map<Seq<char>, Seq<(Seq<char>, ValueView, ValueView, u32)>>>, ls: Seq<Seq<LogEntry>>) -> bool {
    &&& ns.len() == cmds.len() + 1
    &&& cs.len() == cmds.len() + 1
    &&& am.len() == cmds.len() + 1
    &&& ls.len() == cmds.len() + 1
    &&& ns[0] == pre && cs[0] == pc && am[0] == ap && ls[0] == Seq::<LogEntry>::empty()
    &&& ns.last() == post && cs.last() == qc && am.last() == aq && ls.last() == logs
    &&& forall|i: int| 0 <= i < cmds.len() ==> command_effect(ns[i], cs[i], reg, #[trigger] cmds[i], ns[i + 1], cs[i + 1],
        record, am[i], am[i + 1], ls[i], ls[i + 1])
}

/// Applying `cmds` in order takes nodes `pre` (counter `pc`) to `post`
/// (counter `qc`), animations `ap` to `aq`, and writes `logs`.
pub open spec fn commands_effect(pre: Seq<Node>, pc: u64, reg: Map<Seq<char>, Seq<ComponentSpec>>, cmds: Seq<ActionCommand>,
    post: Seq<Node>, qc: u64, record: bool,
    ap: Map<Seq<char>, Seq<(Seq<char>, ValueView, ValueView, u32)>>, aq: Map<Seq<char>, Seq<(Seq<char>, ValueView, ValueView, u32)>>,
    logs: Seq<LogEntry>) -> bool {
    exists|ns: Seq<Seq<Node>>, cs: Seq<u64>, am: Seq<Map<Seq<char>, Seq<(Seq<char>, ValueView, ValueView, u32)>>>, ls: Seq<Seq<LogEntry>>|
        trace_ok(pre, pc, reg, cmds, post, qc, record, ap, aq, logs, ns, cs, am, ls)
}

proof fn lemma_no_record_keeps_anims(pre: Seq<Node>, pc: u64, reg: Map<Seq<char>, Seq<ComponentSpec>>, cmds: Seq<ActionCommand>,
    post: Seq<Node>, qc: u64, a: Map<Seq<char>, Seq<(Seq<char>, ValueView, ValueView, u32)>>, logs: Seq<LogEntry>)
    requires
        commands_effect(pre, pc, reg, cmds, post, qc, false, Map::empty(), a, logs),
    ensures
        commands_effect(pre, pc, reg, cmds, post, qc, false, Map::empty(), Map::empty(), logs),
{
    let (ns, cs, am, ls) = choose|ns: Seq<Seq<Node>>, cs: Seq<u64>, am: Seq<Map<Seq<char>, Seq<(Seq<char>, ValueView, ValueView, u32)>>>, ls: Seq<Seq<LogEntry>>|
        trace_ok(pre, pc, reg, cmds, post, qc, false, Map::empty(), a, logs, ns, cs, am, ls);
    assert forall|i: int| 0 <= i < am.len() implies am[i] == Map::<Seq<char>, Seq<(Seq<char>, ValueView, ValueView, u32)>>::empty() by {
        lemma_no_record_trace(pre, pc, reg, cmds, post, qc, a, logs, ns, cs, am, ls, i);
    }
    assert(trace_ok(pre, pc, reg, cmds, post, qc, false, Map::empty(), Map::empty(), logs, ns, cs, am, ls));
}

proof fn lemma_no_record_trace(pre: Seq<Node>, pc: u64, reg: Map<Seq<char>, Seq<ComponentSpec>>, cmds: Seq<ActionCommand>,
    post: Seq<Node>, qc: u64, a: Map<Seq<char>, Seq<(Seq<char>, ValueView, ValueView, u32)>>, logs: Seq<LogEntry>,
    ns: Seq<Seq<Node>>, cs: Seq<u64>, am: Seq<Map<Seq<char>, Seq<(Seq<char>, ValueView, ValueView, u32)>>>, ls: Seq<Seq<LogEntry>>, i: int)
    requires
        trace_ok(pre, pc, reg, cmds, post, qc, false, Map::empty(), a, logs, ns, cs, am, ls),
        0 <= i < am.len(),
    ensures
        am[i] == Map::<Seq<char>, Seq<(Seq<char>, ValueView, ValueView, u32)>>::empty(),
    decreases i,
{
    if i > 0 {
        lemma_no_record_trace(pre, pc, reg, cmds, post, qc, a, logs, ns, cs, am, ls, i - 1);
        assert(command_effect(ns[i - 1], cs[i - 1], reg, cmds[i - 1], ns[i], cs[i], false, am[i - 1], am[i], ls[i - 1], ls[i]));
    }
}

fn apply_all(scene: &mut Scene, registry: &NodeRegistry, cmds: Vec<ActionCommand>, record: bool,
    anims: &mut SceneState) -> (r: Vec<LogEntry>)
    requires
        old(scene).spawn_counter + spawn_count(cmds@) <= u64::MAX,
    ensures
        commands_effect(old(scene).nodes@, old(scene).spawn_counter, registry@, cmds@, final(scene).nodes@,
            final(scene).spawn_counter, record, anims_view(old(anims).animations@), anims_view(final(anims).animations@), r@),
        final(scene).kind == old(scene).kind,
        final(scene).name == old(scene).name,
{
    let ghost all = cmds@;
    let ghost pre = scene.nodes@;
    let ghost pc = scene.spawn_counter;
    let ghost ap = anims_view(anims.animations@);
    let mut logs: Vec<LogEntry> = Vec::new();
    let mut rest = cmds;
    let n = rest.len();
    let mut i: usize = 0;
    let ghost mut ns: Seq<Seq<Node>> = seq![pre];
    let ghost mut cs: Seq<u64> = seq![pc];
    let ghost mut am: Seq<Map<Seq<char>, Seq<(Seq<char>, ValueView, ValueView, u32)>>> = seq![ap];
    let ghost mut ls: Seq<Seq<LogEntry>> = seq![Seq::<LogEntry>::empty()];
    assert(rest@ =~= all.skip(0));
    while i < n
        invariant
            n == all.len(),
            i <= n,
            rest@ == all.skip(i as int),
            pc + spawn_count(all) <= u64::MAX,
            scene.spawn_counter <= pc + spawn_count(all.take(i as int)),
            scene.kind == old(scene).kind,
            scene.name == old(scene).name,
            trace_ok(pre, pc, registry@, all.take(i as int), scene.nodes@, scene.spawn_counter, record, ap,
                anims_view(anims.animations@), logs@, ns, cs, am, ls),
        decreases n - i,
    {
        let cmd = rest.remove(0);
        assert(cmd == all[i as int]);
        assert(rest@ =~= all.skip(i + 1));
        let ghost n0 = scene.nodes@;
        let ghost c0 = scene.spawn_counter;
        let ghost a0 = anims_view(anims.animations@);
        let ghost l0 = logs@;
        proof { lemma_spawn_count_prefix(all, i as int); }
        apply_command(scene, registry, cmd, record, anims, &mut logs);
        proof {
            assert(command_effect(n0, c0, registry@, all[i as int], scene.nodes@, scene.spawn_counter, record, a0,
                anims_view(anims.animations@), l0, logs@));
            ns = ns.push(scene.nodes@);
            cs = cs.push(scene.spawn_counter);
            am = am.push(anims_view(anims.animations@));
            ls = ls.push(logs@);
            let t = all.take(i + 1);
            assert forall|j: int| 0 <= j < t.len() implies command_effect(ns[j], cs[j], registry@, #[trigger] t[j], ns[j + 1], cs[j + 1],
                record, am[j], am[j + 1], ls[j], ls[j + 1]) by {
                if j < i {
                    assert(t[j] == all.take(i as int)[j]);
                }
            }
            assert(trace_ok(pre, pc, registry@, t, scene.nodes@, scene.spawn_counter, record, ap,
                anims_view(anims.animations@), logs@, ns, cs, am, ls));
        }
        i += 1;
    }
    assert(all.take(n as int) =~= all);
    logs
}

// -------------------------------------------------------------- dry run

/// How a dry run would change one component of the node.
#[derive(Debug)]
pub enum ComponentChange {
    Added { key: String, value: ComponentValue },
    Updated { key: String, from: ComponentValue, to: ComponentValue },
    Removed { key: String, previous: ComponentValue },
}

/// The component a change is about.
pub open spec fn change_key(c: ComponentChange) -> Seq<char> {
    match c {
        ComponentChange::Added { key, .. } => key@,
        ComponentChange::Updated { key, .. } => key@,
        ComponentChange::Removed { key, .. } => key@,
    }
}

/// Whether a command's target stands for node `node_id` in a dry run: a
/// named node when it is that node, any other target always.
pub open spec fn writes_to(t: Target, node_id: Seq<char>) -> bool {
    match t {
        Target::Node { id } => id@ == node_id,
        _ => true,
    }
}

/// The value each component of node `node_id` is last written with by
/// the state writes and animations among `cmds`.
pub open spec fn dry_writes(cmds: Seq<ActionCommand>, node_id: Seq<char>) -> Map<Seq<char>, ValueView>
    decreases cmds.len(),
{
    if cmds.len() == 0 {
        Map::empty()
    } else {
        let m = dry_writes(cmds.drop_last(), node_id);
        match cmds.last() {
            ActionCommand::SetState { target, key, value } => if writes_to(target, node_id) { m.insert(key@, value@) } else { m },
            ActionCommand::StartAnimation { target, key, to, .. } => if writes_to(target, node_id) { m.insert(key@, to@) } else { m },
            _ => m,
        }
    }
}

/// The value component `key` of the first node with id `node_id` has
/// before the run.
pub open spec fn prior_value(nodes: Seq<Node>, node_id: Seq<char>, key: Seq<char>) -> Option<ValueView> {
    match first_node(nodes, node_id, false) {
        Some(i) => if nodes[i].components@.contains_key(key) { Some(nodes[i].components@[key].value@) } else { None },
        None => None,
    }
}

/// Whether `c` reports component `key` ending at `v`: an update from its
/// prior value, or an addition when it had none (or nil).
pub open spec fn dry_change_is(c: ComponentChange, key: Seq<char>, v: ValueView, prior: Option<ValueView>) -> bool {
    if prior is Some && !(prior->0 is Nil) {
        c matches ComponentChange::Updated { key: k, from, to } && k@ == key && from@ == prior->0 && to@ == v
    } else {
        c matches ComponentChange::Added { key: k, value } && k@ == key && value@ == v
    }
}

fn dry_record(scene: &Scene, node_id: &str, target: &Target, key: &String, v: ComponentValue, changes: &mut StrMap<ComponentChange>)
    ensures
        writes_to(*target, node_id@) ==> final(changes)@.dom() == old(changes)@.dom().insert(key@)
            && dry_change_is(final(changes)@[key@], key@, v@, prior_value(scene.nodes@, node_id@, key@))
            && forall|k: Seq<char>| k != key@ && #[trigger] old(changes)@.contains_key(k) ==> final(changes)@[k] == old(changes)@[k],
        !writes_to(*target, node_id@) ==> final(changes)@ == old(changes)@,
{
    let hit = match target {
        Target::Node { id } => str_eq(id.as_str(), node_id),
        _ => true,
    };
    if !hit {
        return;
    }
    let ghost vv = v@;
    proof { lemma_first_node(scene.nodes@, node_id@, false); }
    let change = match scene.find_node_index_raw(node_id) {
        Some(i) => match scene.nodes[i].components.get(key.as_str()) {
            Some(c) => match &c.value {
                ComponentValue::Nil => ComponentChange::Added { key: key.clone(), value: v },
                other => ComponentChange::Updated { key: key.clone(), from: other.clone(), to: v },
            },
            None => ComponentChange::Added { key: key.clone(), value: v },
        },
        None => ComponentChange::Added { key: key.clone(), value: v },
    };
    assert(dry_change_is(change, key@, vv, prior_value(scene.nodes@, node_id@, key@)));
    changes.insert(key.clone(), change);
}

/// The component changes of node `node_id` that `cmds` would make, one
/// per component written (its last written value), in component order.
pub fn compute_dry_run_diff(scene: &Scene, node_id: &str, cmds: &[ActionCommand]) -> (r: Vec<ComponentChange>)
    ensures
        lists_in_order(r@.map_values(|c: ComponentChange| change_key(c)), dry_writes(cmds@, node_id@).dom()),
        forall|i: int| 0 <= i < r@.len() ==> dry_change_is(#[trigger] r@[i], change_key(r@[i]),
            dry_writes(cmds@, node_id@)[change_key(r@[i])], prior_value(scene.nodes@, node_id@, change_key(r@[i]))),
{
    let mut changes: StrMap<ComponentChange> = StrMap::new();
    let mut i: usize = 0;
    assert(changes@.dom() =~= dry_writes(cmds@.take(0), node_id@).dom());
    while i < cmds.len()
        invariant
            i <= cmds@.len(),
            changes@.dom() == dry_writes(cmds@.take(i as int), node_id@).dom(),
            forall|k: Seq<char>| #[trigger] changes@.contains_key(k) ==> dry_change_is(changes@[k], k,
                dry_writes(cmds@.take(i as int), node_id@)[k], prior_value(scene.nodes@, node_id@, k)),
        decreases cmds.len() - i,
    {
        assert(cmds@.take(i + 1).drop_last() =~= cmds@.take(i as int));
        assert(cmds@.take(i + 1).last() == cmds@[i as int]);
        match &cmds[i] {
            ActionCommand::SetState { target, key, value } => dry_record(scene, node_id, target, key, value.clone(), &mut changes),
            ActionCommand::StartAnimation { target, key, to, .. } => dry_record(scene, node_id, target, key, to.clone(), &mut changes),
            _ => {},
        }
        assert(changes@.dom() =~= dry_writes(cmds@.take(i + 1), node_id@).dom());
        i += 1;
    }
    assert(cmds@.take(cmds@.len() as int) =~= cmds@);
    changes.proof_keys();
    let ghost ks = changes.key_seq();
    let ghost vs = changes.value_seq();
    let ghost m = changes@;
    assert(forall|t: int| 0 <= t < ks.len() ==> m.contains_key(#[trigger] ks[t])) by {
        assert forall|t: int| 0 <= t < ks.len() implies m.contains_key(#[trigger] ks[t]) by {
            assert(ks.contains(ks[t]));
        }
    }
    let entries = changes.into_entries();
    let mut out: Vec<ComponentChange> = Vec::new();
    let mut rest = entries;
    let n = rest.len();
    let ghost es = rest@;
    let mut j: usize = 0;
    assert(rest@ =~= es.skip(0));
    assert(es.map_values(|e: (String, ComponentChange)| e.0@).len() == es.len());
    while j < n
        invariant
            n == es.len() == ks.len() == vs.len(),
            j <= n,
            rest@ == es.skip(j as int),
            es.map_values(|e: (String, ComponentChange)| e.0@) == ks,
            es.map_values(|e: (String, ComponentChange)| e.1) == vs,
            forall|t: int| 0 <= t < ks.len() ==> m[#[trigger] ks[t]] == vs[t],
            forall|t: int| 0 <= t < ks.len() ==> m.contains_key(#[trigger] ks[t]),
            out@ == vs.take(j as int),
        decreases n - j,
    {
        let (_k, c) = rest.remove(0);
        assert(rest@ =~= es.skip(j + 1));
        assert(c == es.map_values(|e: (String, ComponentChange)| e.1)[j as int]);
        out.push(c);
        assert(out@ =~= vs.take(j + 1));
        j += 1;
    }
    proof {
        assert(vs.take(n as int) =~= vs);
        assert forall|t: int| 0 <= t < vs.len() implies change_key(#[trigger] vs[t]) == ks[t] by {
            assert(m.contains_key(ks[t]));
            assert(m[ks[t]] == vs[t]);
        }
        assert(out@.map_values(|c: ComponentChange| change_key(c)) =~= ks);
        assert forall|t: int| 0 <= t < out@.len() implies dry_change_is(#[trigger] out@[t], change_key(out@[t]),
            dry_writes(cmds@, node_id@)[change_key(out@[t])], prior_value(scene.nodes@, node_id@, change_key(out@[t]))) by {
            assert(m.contains_key(ks[t]));
        }
    }
    out
}

} // verus!
