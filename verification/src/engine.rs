//! The engine: its settings, the tick loop, and the per-tick steps of
//! signals, behaviors and animations.

use vstd::prelude::*;
use crate::behavior::{ActionCommand, Behavior};
use crate::evaluate::{CommandView, appended, behaviors_commands, commands_match, command_matches, evaluate_behaviors_inner, trigger_view};
use crate::evaluator::{spawn_count, Animation, SceneState, LogEntry, Trigger, anim_view, anims_view, apply_commands, apply_commands_with_animations, commands_effect};
use crate::expression::{PendingWrites, WriteMap, step_value, interpolate};
use crate::scene::NodeRegistry;
use crate::text::str_eq;
use crate::scene::{Component, ComponentKind, Node, Scene, ValueView, first_node, lemma_first_node};
use crate::strmap::{StrMap, keys_ascending};
use crate::json::Json;
use crate::resource::ResourceRegistry;
use crate::signal::{SignalBus, handlers_accept};
use crate::hot_reload::texts;
use crate::canonical::default_hash;
use crate::state_hash::{hash_scene_state, scene_bytes};
use crate::system::{System, SystemPhase, SystemRegistry, phase_run};

verus! {

/// How an engine is started: the random seed and the tick rate (0 picks
/// the default rate).
#[derive(Debug, Clone)]
pub struct EngineConfig {
    pub seed: u64,
    pub tick_hz: u32,
}

impl Default for EngineConfig {
    fn default() -> (r: Self)
        ensures
            r.seed == 0,
            r.tick_hz == 0,
    {
        EngineConfig { seed: 0, tick_hz: 0 }
    }
}

impl EngineConfig {
    /// The tick rate an engine started with this configuration runs at:
    /// the configured rate, or 60 when it is 0.
    pub fn effective_tick_hz(&self) -> (r: u32)
        ensures
            r == if self.tick_hz == 0 { 60 } else { self.tick_hz },
    {
        if self.tick_hz == 0 {
            60
        } else {
            self.tick_hz
        }
    }
}


/// An animation by its plain values: key, start and end values, ticks left.
pub type AnimView = (Seq<char>, ValueView, ValueView, u32);

/// One tick of a list of animations: each running one moves its start
/// value to the value it writes on this tick and counts down.
pub open spec fn ticked(l: Seq<AnimView>) -> Seq<AnimView> {
    l.map_values(|a: AnimView| if a.3 > 0 { (a.0, step_value(a.1, a.2, a.3), a.2, (a.3 - 1) as u32) } else { a })
}

/// The positions, ascending, of the animations that are done after this
/// tick: those with at most one tick left.
pub open spec fn finished(l: Seq<AnimView>) -> Seq<int>
    decreases l.len(),
{
    if l.len() == 0 {
        Seq::empty()
    } else {
        finished(l.drop_last()) + if l.last().3 <= 1 { seq![l.len() - 1] } else { Seq::empty() }
    }
}

/// Removes the positions one after another, each from the list the
/// previous removals left (a position past its end removes nothing).
pub open spec fn remove_in_turn(l: Seq<AnimView>, idxs: Seq<int>) -> Seq<AnimView>
    decreases idxs.len(),
{
    if idxs.len() == 0 {
        l
    } else {
        let m = remove_in_turn(l, idxs.drop_last());
        let i = idxs.last();
        if 0 <= i < m.len() { m.remove(i) } else { m }
    }
}

/// A list of animations after a tick: counted down, and the finished
/// positions removed in turn.
pub open spec fn after_tick(l: Seq<AnimView>) -> Seq<AnimView> {
    remove_in_turn(ticked(l), finished(l))
}

/// The component values a list of animations writes on a tick: each
/// running animation writes its next interpolated value (`step_value`,
/// the end value on its last tick), later ones over earlier ones.
pub open spec fn anim_writes(l: Seq<AnimView>) -> Map<Seq<char>, ValueView>
    decreases l.len(),
{
    if l.len() == 0 {
        Map::empty()
    } else {
        let m = anim_writes(l.drop_last());
        if l.last().3 > 0 { m.insert(l.last().0, step_value(l.last().1, l.last().2, l.last().3)) } else { m }
    }
}

/// The writes node `j` receives on a tick: those of the animations kept
/// under its id, when it is the first node with that id.
pub open spec fn node_anim_writes(nodes: Seq<Node>, j: int, anims: Map<Seq<char>, Seq<AnimView>>) -> Map<Seq<char>, ValueView> {
    let id = nodes[j].id@;
    if anims.contains_key(id) && first_node(nodes, id, false) == Some(j) { anim_writes(anims[id]) } else { Map::empty() }
}

/// Node `b` is node `a` with the component writes `w`, as regular
/// components; nothing else differs.
pub open spec fn written_with(a: Node, b: Node, w: Map<Seq<char>, ValueView>) -> bool {
    &&& b.id == a.id
    &&& b.node_type == a.node_type
    &&& b.parent == a.parent
    &&& b.behaviors == a.behaviors
    &&& b.active_state == a.active_state
    &&& b.lua_class == a.lua_class
    &&& b.destroyed == a.destroyed
    &&& forall|k: Seq<char>| #[trigger] b.components@.contains_key(k) <==> (a.components@.contains_key(k) || w.contains_key(k))
    &&& forall|k: Seq<char>| #[trigger] w.contains_key(k) ==> b.components@[k].value@ == w[k] && b.components@[k].kind == ComponentKind::Regular
    &&& forall|k: Seq<char>| !w.contains_key(k) && #[trigger] a.components@.contains_key(k) ==> b.components@[k] == a.components@[k]
}

fn copy_animation(a: &Animation) -> (r: Animation)
    ensures
        anim_view(r) == anim_view(*a),
{
    Animation { key: a.key.clone(), from: a.from.clone(), to: a.to.clone(), remaining: a.remaining }
}

/// Writes the step values of the running animations of `list` into `node`.
fn write_animations(node: &mut Node, list: &Vec<Animation>)
    ensures
        written_with(*old(node), *final(node), anim_writes(list@.map_values(|a: Animation| anim_view(a)))),
{
    let ghost lv = list@.map_values(|a: Animation| anim_view(a));
    let ghost start = *node;
    let mut i: usize = 0;
    assert(lv.take(0) =~= Seq::<AnimView>::empty());
    while i < list.len()
        invariant
            i <= list@.len(),
            lv == list@.map_values(|a: Animation| anim_view(a)),
            start == *old(node),
            written_with(start, *node, anim_writes(lv.take(i as int))),
        decreases list.len() - i,
    {
        let a = &list[i];
        assert(lv.take(i + 1).drop_last() =~= lv.take(i as int));
        assert(lv.take(i + 1).last() == anim_view(*a));
        if a.remaining > 0 {
            node.components.insert(a.key.clone(), Component { value: interpolate(&a.from, &a.to, a.remaining), kind: ComponentKind::Regular });
        }
        i += 1;
    }
    assert(lv.take(list@.len() as int) =~= lv);
}

/// The animation list after a tick (see `after_tick`).
fn advance_list(list: &Vec<Animation>) -> (r: Vec<Animation>)
    ensures
        r@.map_values(|a: Animation| anim_view(a)) == after_tick(list@.map_values(|a: Animation| anim_view(a))),
{
    let ghost lv = list@.map_values(|a: Animation| anim_view(a));
    let mut out: Vec<Animation> = Vec::new();
    let mut done: Vec<usize> = Vec::new();
    let mut i: usize = 0;
    assert(lv.take(0) =~= Seq::<AnimView>::empty());
    while i < list.len()
        invariant
            i <= list@.len(),
            lv == list@.map_values(|a: Animation| anim_view(a)),
            out@.map_values(|a: Animation| anim_view(a)) == ticked(lv.take(i as int)),
            done@.map_values(|x: usize| x as int) == finished(lv.take(i as int)),
        decreases list.len() - i,
    {
        let a = &list[i];
        let mut b = copy_animation(a);
        if b.remaining > 0 {
            b.from = interpolate(&a.from, &a.to, a.remaining);
            b.remaining = b.remaining - 1;
        }
        let ghost before_out = out@;
        let ghost before_done = done@;
        out.push(b);
        if a.remaining <= 1 {
            done.push(i);
        }
        proof {
            assert(lv.take(i + 1).drop_last() =~= lv.take(i as int));
            assert(lv.take(i + 1).last() == anim_view(*a));
            let av = anim_view(*a);
            let tick_one = if av.3 > 0 { (av.0, step_value(av.1, av.2, av.3), av.2, (av.3 - 1) as u32) } else { av };
            assert(anim_view(b) == tick_one);
            assert(out@.map_values(|a: Animation| anim_view(a)) =~= before_out.map_values(|a: Animation| anim_view(a)).push(anim_view(b)));
            assert(ticked(lv.take(i + 1)) =~= ticked(lv.take(i as int)).push(tick_one));
            assert(out@.map_values(|a: Animation| anim_view(a)) =~= ticked(lv.take(i + 1)));
            assert(done@.map_values(|x: usize| x as int) =~= finished(lv.take(i + 1)));
        }
        i += 1;
    }
    assert(lv.take(list@.len() as int) =~= lv);
    let ghost tv = ticked(lv);
    let ghost fv = finished(lv);
    let mut k: usize = 0;
    assert(fv.take(0) =~= Seq::<int>::empty());
    while k < done.len()
        invariant
            k <= done@.len(),
            done@.map_values(|x: usize| x as int) == fv,
            out@.map_values(|a: Animation| anim_view(a)) == remove_in_turn(tv, fv.take(k as int)),
        decreases done.len() - k,
    {
        let idx = done[k];
        assert(fv.take(k + 1).drop_last() =~= fv.take(k as int));
        assert(fv.take(k + 1).last() == idx as int);
        if idx < out.len() {
            let ghost before = out@;
            out.remove(idx);
            assert(out@.map_values(|a: Animation| anim_view(a)) =~= before.map_values(|a: Animation| anim_view(a)).remove(idx as int));
        }
        k += 1;
    }
    assert(fv.take(done@.len() as int) =~= fv);
    out
}


proof fn lemma_written_trans(a: Node, b: Node, c: Node, w: Map<Seq<char>, ValueView>)
    requires
        written_with(a, b, Map::empty()),
        written_with(b, c, w),
    ensures
        written_with(a, c, w),
{
    assert forall|k: Seq<char>| !w.contains_key(k) && #[trigger] a.components@.contains_key(k) implies c.components@[k] == a.components@[k] by {
        assert(b.components@.contains_key(k));
    }
}

proof fn lemma_first_node_same_ids(a: Seq<Node>, b: Seq<Node>, id: Seq<char>)
    requires
        a.len() == b.len(),
        forall|j: int| 0 <= j < a.len() ==> a[j].id == b[j].id && a[j].destroyed == b[j].destroyed,
    ensures
        first_node(a, id, false) == first_node(b, id, false),
    decreases a.len(),
{
    if a.len() > 0 {
        lemma_first_node_same_ids(a.drop_last(), b.drop_last(), id);
    }
}

/// The writes node `j` has received once the animations under `keys`
/// have run.
pub open spec fn writes_so_far(nodes: Seq<Node>, j: int, anims: Map<Seq<char>, Seq<AnimView>>, keys: Seq<Seq<char>>) -> Map<Seq<char>, ValueView> {
    if keys.contains(nodes[j].id@) { node_anim_writes(nodes, j, anims) } else { Map::empty() }
}

/// Advances the animations one tick. Each running animation writes its
/// next interpolated value (`step_value`; the end value on its last tick),
/// as a regular component, into the first node (destroyed or not) with the
/// id it is kept under, starts from that value next time, and counts
/// down; animations that are
/// done are then removed, position by position in ascending order, each
/// removal from the list the previous ones left.
pub fn tick_animations(state: &mut SceneState, scene: &mut Scene)
    ensures
        anims_view(final(state).animations@) == anims_view(old(state).animations@).map_values(|l: Seq<AnimView>| after_tick(l)),
        final(scene).kind == old(scene).kind,
        final(scene).name == old(scene).name,
        final(scene).spawn_counter == old(scene).spawn_counter,
        final(scene).nodes@.len() == old(scene).nodes@.len(),
        forall|j: int| 0 <= j < old(scene).nodes@.len() ==> written_with(old(scene).nodes@[j], #[trigger] final(scene).nodes@[j],
            node_anim_writes(old(scene).nodes@, j, anims_view(old(state).animations@))),
{
    state.animations.proof_keys();
    let ghost av = anims_view(state.animations@);
    let ghost nodes0 = scene.nodes@;
    let ghost ks = state.animations.key_seq();
    let mut next: StrMap<Vec<Animation>> = StrMap::new();
    let n = state.animations.len();
    let mut i: usize = 0;
    assert(ks.take(0) =~= Seq::<Seq<char>>::empty());
    while i < n
        invariant
            i <= n,
            n == ks.len() == state.animations.value_seq().len(),
            ks == state.animations.key_seq(),
            keys_ascending(ks),
            forall|k: Seq<char>| state.animations@.contains_key(k) <==> ks.contains(k),
            forall|t: int| 0 <= t < ks.len() ==> state.animations@[#[trigger] ks[t]] == state.animations.value_seq()[t],
            av == anims_view(state.animations@),
            nodes0 == old(scene).nodes@,
            scene.kind == old(scene).kind,
            scene.name == old(scene).name,
            scene.spawn_counter == old(scene).spawn_counter,
            scene.nodes@.len() == nodes0.len(),
            forall|j: int| 0 <= j < nodes0.len() ==> written_with(nodes0[j], #[trigger] scene.nodes@[j],
                writes_so_far(nodes0, j, av, ks.take(i as int))),
            forall|k: Seq<char>| #[trigger] next@.contains_key(k) <==> ks.take(i as int).contains(k),
            forall|k: Seq<char>| #[trigger] next@.contains_key(k) ==> next@[k]@.map_values(|a: Animation| anim_view(a)) == after_tick(av[k]),
        decreases n - i,
    {
        let key = state.animations.key_at(i);
        let list = state.animations.value_at(i);
        let ghost kv = key@;
        proof {
            assert(ks.take(i + 1) =~= ks.take(i as int).push(kv));
            assert(!ks.take(i as int).contains(kv)) by {
                if ks.take(i as int).contains(kv) {
                    let t = ks.take(i as int).index_of(kv);
                    crate::text::lemma_seq_lt_irreflexive(kv);
                }
            }
            assert(av[kv] == list@.map_values(|a: Animation| anim_view(a)));
            assert(av.contains_key(kv));
            assert forall|x: Seq<char>| ks.take(i + 1).contains(x) <==> (ks.take(i as int).contains(x) || x == kv) by {
                if ks.take(i + 1).contains(x) {
                    let t = ks.take(i + 1).index_of(x);
                    if t < i {
                        assert(ks.take(i as int)[t] == x);
                    }
                }
                if ks.take(i as int).contains(x) {
                    let t = ks.take(i as int).index_of(x);
                    assert(ks.take(i + 1)[t] == x);
                }
                if x == kv {
                    assert(ks.take(i + 1)[i as int] == x);
                }
            }
            lemma_first_node_same_ids(nodes0, scene.nodes@, kv);
            lemma_first_node(nodes0, kv, false);
        }
        let ghost cur = scene.nodes@;
        match scene.find_index(key.as_str(), false) {
            Some(j) => {
                write_animations(&mut scene.nodes[j], list);
                proof {
                    assert(nodes0[j as int].id@ == kv);
                    assert(writes_so_far(nodes0, j as int, av, ks.take(i as int)) == Map::<Seq<char>, ValueView>::empty());
                    lemma_written_trans(nodes0[j as int], cur[j as int], scene.nodes@[j as int], anim_writes(av[kv]));
                    assert forall|jj: int| 0 <= jj < nodes0.len() implies written_with(nodes0[jj], #[trigger] scene.nodes@[jj],
                        writes_so_far(nodes0, jj, av, ks.take(i + 1))) by {
                        if jj != j {
                            assert(scene.nodes@[jj] == cur[jj]);
                            if nodes0[jj].id@ == kv {
                                assert(first_node(nodes0, kv, false) == Some(j as int));
                            }
                        }
                    }
                }
            },
            None => {
                proof {
                    assert forall|jj: int| 0 <= jj < nodes0.len() implies written_with(nodes0[jj], #[trigger] scene.nodes@[jj],
                        writes_so_far(nodes0, jj, av, ks.take(i + 1))) by {
                        if nodes0[jj].id@ == kv {
                            assert(first_node(nodes0, kv, false) is None);
                        }
                    }
                }
            },
        }
        let new_list = advance_list(list);
        next.insert(key.clone(), new_list);
        i += 1;
    }
    proof {
        assert(ks.take(n as int) =~= ks);
        assert forall|j: int| 0 <= j < nodes0.len() implies writes_so_far(nodes0, j, av, ks) == node_anim_writes(nodes0, j, av) by {
            if !ks.contains(nodes0[j].id@) {
                assert(!av.contains_key(nodes0[j].id@));
            }
        }
        assert(anims_view(next@) =~= av.map_values(|l: Seq<AnimView>| after_tick(l)));
    }
    state.animations = next;
}


// ------------------------------------------------------ behaviors per tick

/// Whether `node` has an `on_signal` behavior for `signal`.
pub open spec fn has_handler(node: Node, signal: Seq<char>) -> bool {
    exists|i: int| 0 <= i < node.behaviors@.len()
        && (#[trigger] node.behaviors@[i] matches Behavior::OnSignal { signal: s, .. } && s@ == signal)
}

/// The commands the first `k` nodes' behaviors issue on `trigger`, node
/// by node, each node evaluated against the scene as it is: on a tick
/// every node, on a signal only the nodes with a handler for it.
pub open spec fn nodes_commands(nodes: Seq<Node>, trigger: Option<Seq<char>>, k: nat) -> Option<Seq<CommandView>>
    decreases k,
{
    if k == 0 || k > nodes.len() {
        Some(Seq::empty())
    } else {
        match nodes_commands(nodes, trigger, (k - 1) as nat) {
            None => None,
            Some(c) => {
                let n = nodes[k - 1];
                let runs = match trigger {
                    None => true,
                    Some(s) => has_handler(n, s),
                };
                if runs {
                    match behaviors_commands(nodes, n, n.behaviors@, trigger, WriteMap::empty()) {
                        None => None,
                        Some((c2, _)) => Some(c + c2),
                    }
                } else {
                    Some(c)
                }
            },
        }
    }
}

fn node_has_handler(node: &Node, signal: &str) -> (r: bool)
    ensures
        r == has_handler(*node, signal@),
{
    let mut i: usize = 0;
    while i < node.behaviors.len()
        invariant
            i <= node.behaviors@.len(),
            forall|j: int| 0 <= j < i ==> !(#[trigger] node.behaviors@[j] matches Behavior::OnSignal { signal: s, .. } && s@ == signal@),
        decreases node.behaviors.len() - i,
    {
        match &node.behaviors[i] {
            Behavior::OnSignal { signal: s, .. } => {
                if str_eq(s.as_str(), signal) {
                    assert(node.behaviors@[i as int] matches Behavior::OnSignal { signal: s2, .. } && s2@ == signal@);
                    return true;
                }
            },
            _ => {},
        }
        i += 1;
    }
    false
}

proof fn lemma_nodes_none_extends(nodes: Seq<Node>, trigger: Option<Seq<char>>, k: nat, m: nat)
    requires
        k <= m <= nodes.len(),
        nodes_commands(nodes, trigger, k) is None,
    ensures
        nodes_commands(nodes, trigger, m) is None,
    decreases m,
{
    if k < m {
        lemma_nodes_none_extends(nodes, trigger, k, (m - 1) as nat);
    }
}

/// The commands every node's behaviors issue on `trigger`, in node order
/// (see `nodes_commands`); `None` where an integer addition overflows.
pub fn scene_commands(scene: &Scene, registry: &NodeRegistry, trigger: &Trigger, tick: u64) -> (r: Option<Vec<ActionCommand>>)
    ensures
        match nodes_commands(scene.nodes@, trigger_view(*trigger), scene.nodes@.len()) {
            None => r is None,
            Some(vs) => r matches Some(v) && commands_match(v@, vs),
        },
{
    let mut all: Vec<ActionCommand> = Vec::new();
    let ghost mut vs: Seq<CommandView> = Seq::empty();
    let mut i: usize = 0;
    proof { assert(all@.skip(0) =~= all@); }
    while i < scene.nodes.len()
        invariant
            i <= scene.nodes@.len(),
            nodes_commands(scene.nodes@, trigger_view(*trigger), i as nat) == Some(vs),
            appended(Seq::empty(), all@, vs),
        decreases scene.nodes.len() - i,
    {
        let node = &scene.nodes[i];
        let runs = match trigger {
            Trigger::Tick => true,
            Trigger::Signal(s) => node_has_handler(node, s.as_str()),
        };
        if runs {
            let ghost before = all@;
            let mut pw = PendingWrites::new();
            if !evaluate_behaviors_inner(scene, registry, node, trigger, tick, &mut pw, &mut all) {
                proof { lemma_nodes_none_extends(scene.nodes@, trigger_view(*trigger), (i + 1) as nat, scene.nodes@.len()); }
                return None;
            }
            proof {
                let c2 = (behaviors_commands(scene.nodes@, *node, node.behaviors@, trigger_view(*trigger), WriteMap::empty())->0).0;
                crate::evaluate::lemma_appended_trans(Seq::empty(), before, all@, vs, c2);
                vs = vs + c2;
            }
        }
        i += 1;
    }
    proof { assert(all@.skip(0) =~= all@); }
    Some(all)
}

/// How many spawn commands the specified commands hold.
pub open spec fn view_spawns(vs: Seq<CommandView>) -> nat
    decreases vs.len(),
{
    if vs.len() == 0 {
        0
    } else {
        view_spawns(vs.drop_last()) + if vs.last() is Spawn { 1nat } else { 0nat }
    }
}

proof fn lemma_spawn_counts_match(cmds: Seq<ActionCommand>, vs: Seq<CommandView>)
    requires
        commands_match(cmds, vs),
    ensures
        spawn_count(cmds) == view_spawns(vs),
    decreases cmds.len(),
{
    if cmds.len() > 0 {
        assert(commands_match(cmds.drop_last(), vs.drop_last())) by {
            assert forall|i: int| 0 <= i < cmds.drop_last().len() implies command_matches(#[trigger] cmds.drop_last()[i], vs.drop_last()[i]) by {
                assert(command_matches(cmds[i], vs[i]));
            }
        }
        lemma_spawn_counts_match(cmds.drop_last(), vs.drop_last());
        assert(command_matches(cmds[cmds.len() - 1], vs[vs.len() - 1]));
    }
}

/// Counts the spawn commands of a list.
fn count_spawns(cmds: &Vec<ActionCommand>) -> (n: usize)
    ensures
        n == spawn_count(cmds@),
{
    let mut n: usize = 0;
    let mut i: usize = 0;
    while i < cmds.len()
        invariant
            i <= cmds@.len(),
            n == spawn_count(cmds@.take(i as int)),
            n <= i,
        decreases cmds.len() - i,
    {
        assert(cmds@.take(i + 1).drop_last() =~= cmds@.take(i as int));
        match &cmds[i] {
            ActionCommand::Spawn { .. } => {
                n = n + 1;
            },
            _ => {},
        }
        i += 1;
    }
    assert(cmds@.take(cmds@.len() as int) =~= cmds@);
    n
}

/// The signals of the emit commands, in order.
pub open spec fn emitted_names(vs: Seq<CommandView>) -> Seq<Seq<char>>
    decreases vs.len(),
{
    if vs.len() == 0 {
        Seq::empty()
    } else {
        emitted_names(vs.drop_last()) + match vs.last() {
            CommandView::Emit(s, _) => seq![s],
            CommandView::EmitBare(s) => seq![s],
            _ => Seq::empty(),
        }
    }
}

fn emitted_signals(cmds: &Vec<ActionCommand>, Ghost(vs): Ghost<Seq<CommandView>>) -> (r: Vec<String>)
    requires
        commands_match(cmds@, vs),
    ensures
        r@.map_values(|s: String| s@) == emitted_names(vs),
{
    let mut out: Vec<String> = Vec::new();
    let mut i: usize = 0;
    assert(vs.take(0) =~= Seq::<CommandView>::empty());
    while i < cmds.len()
        invariant
            i <= cmds@.len(),
            commands_match(cmds@, vs),
            out@.map_values(|s: String| s@) == emitted_names(vs.take(i as int)),
        decreases cmds.len() - i,
    {
        let ghost before = out@;
        assert(command_matches(cmds@[i as int], vs[i as int]));
        match &cmds[i] {
            ActionCommand::Emit { signal, .. } => {
                out.push(signal.clone());
            },
            _ => {},
        }
        proof {
            assert(vs.take(i + 1).drop_last() =~= vs.take(i as int));
            assert(vs.take(i + 1).last() == vs[i as int]);
            assert(out@.map_values(|s: String| s@) =~= emitted_names(vs.take(i + 1)));
        }
        i += 1;
    }
    assert(vs.take(cmds@.len() as int) =~= vs);
    out
}

/// Commands `cmds` (as specified by `vs`) applied to nodes `pre` give
/// nodes `mid` and animations `mid_anims`, which one animation tick takes
/// to `post` and `aq`.
pub open spec fn tick_outcome(pre: Seq<Node>, pc: u64, reg: Map<Seq<char>, Seq<crate::scene::ComponentSpec>>, vs: Seq<CommandView>,
    ap: Map<Seq<char>, Seq<AnimView>>, post: Seq<Node>, qc: u64, aq: Map<Seq<char>, Seq<AnimView>>, logs: Seq<LogEntry>,
    cmds: Seq<ActionCommand>, mid: Seq<Node>, mid_anims: Map<Seq<char>, Seq<AnimView>>) -> bool {
    &&& commands_match(cmds, vs)
    &&& commands_effect(pre, pc, reg, cmds, mid, qc, true, ap, mid_anims, logs)
    &&& aq == mid_anims.map_values(|l: Seq<AnimView>| after_tick(l))
    &&& post.len() == mid.len()
    &&& forall|j: int| 0 <= j < mid.len() ==> written_with(mid[j], #[trigger] post[j], node_anim_writes(mid, j, mid_anims))
}

/// The commands specified by `vs`, applied to nodes `pre` (counter `pc`)
/// and animations `ap`, then one animation tick, give nodes `post`
/// (counter `qc`), animations `aq` and log entries `logs`.
pub open spec fn tick_step(pre: Seq<Node>, pc: u64, reg: Map<Seq<char>, Seq<crate::scene::ComponentSpec>>, vs: Seq<CommandView>,
    ap: Map<Seq<char>, Seq<AnimView>>, post: Seq<Node>, qc: u64, aq: Map<Seq<char>, Seq<AnimView>>, logs: Seq<LogEntry>) -> bool {
    exists|cmds: Seq<ActionCommand>, mid: Seq<Node>, mid_anims: Map<Seq<char>, Seq<AnimView>>|
        #[trigger] tick_outcome(pre, pc, reg, vs, ap, post, qc, aq, logs, cmds, mid, mid_anims)
}

/// What one tick of the behaviors of scene `pre` (registry `reg`, with
/// animations `ap`) gives: the scene `post`, animations `aq` and the
/// outcome `r` (log entries and emitted signal names), as
/// `tick_behaviors` states it.
pub open spec fn behaviors_ticked(pre: Scene, post: Scene, reg: Map<Seq<char>, Seq<crate::scene::ComponentSpec>>,
    ap: SceneState, aq: SceneState, r: Option<(Vec<LogEntry>, Vec<String>)>) -> bool {
    match nodes_commands(pre.nodes@, None, pre.nodes@.len()) {
        Some(vs) => if pre.spawn_counter + view_spawns(vs) <= u64::MAX {
            r matches Some((logs, emitted))
            && emitted@.map_values(|s: String| s@) == emitted_names(vs)
            && post.kind == pre.kind
            && post.name == pre.name
            && tick_step(pre.nodes@, pre.spawn_counter, reg, vs,
                anims_view(ap.animations@), post.nodes@, post.spawn_counter,
                anims_view(aq.animations@), logs@)
        } else {
            r is None && post == pre && aq == ap
        },
        None => r is None && post == pre && aq == ap,
    }
}

/// One tick of the scene's behaviors: every node's behaviors are
/// evaluated against the scene as it is; the commands are then applied
/// in order (recording the animations they start), and the animations
/// advance one tick. Returns the log entries and the emitted signal
/// names; `None`, with nothing changed, where an integer addition
/// overflows or where the spawn counter would pass `u64::MAX`.
#[verifier::spinoff_prover]
pub fn tick_behaviors(scene: &mut Scene, registry: &NodeRegistry, tick: u64, animations: &mut SceneState)
    -> (r: Option<(Vec<LogEntry>, Vec<String>)>)
    ensures
        behaviors_ticked(*old(scene), *final(scene), registry@, *old(animations), *final(animations), r),
{
    let trigger = Trigger::Tick;
    assert(trigger_view(trigger) == None::<Seq<char>>);
    let cmds = match scene_commands(scene, registry, &trigger, tick) {
        Some(c) => c,
        None => return None,
    };
    let ghost vs = nodes_commands(scene.nodes@, None, scene.nodes@.len())->0;
    assert(nodes_commands(old(scene).nodes@, None, old(scene).nodes@.len()) == Some(vs));
    assert(cmds@.len() == vs.len());
    proof { lemma_spawn_counts_match(cmds@, vs); }
    let spawns = count_spawns(&cmds);
    if scene.spawn_counter > u64::MAX - (spawns as u64) {
        return None;
    }
    let emitted = emitted_signals(&cmds, Ghost(vs));
    let ghost cv = cmds@;
    let logs = apply_commands_with_animations(scene, registry, cmds, animations);
    let ghost mid = scene.nodes@;
    let ghost mid_anims = anims_view(animations.animations@);
    let ghost mid_counter = scene.spawn_counter;
    tick_animations(animations, scene);
    proof {
        assert(commands_match(cv, vs));
        assert(commands_effect(old(scene).nodes@, old(scene).spawn_counter, registry@, cv, mid,
            scene.spawn_counter, true, anims_view(old(animations).animations@), mid_anims, logs@));
        assert(forall|j: int| 0 <= j < mid.len() ==> written_with(mid[j], #[trigger] scene.nodes@[j],
            node_anim_writes(mid, j, mid_anims)));
        assert(tick_outcome(old(scene).nodes@, old(scene).spawn_counter, registry@, vs,
            anims_view(old(animations).animations@), scene.nodes@, scene.spawn_counter,
            anims_view(animations.animations@), logs@, cv, mid, mid_anims));
        assert(tick_step(old(scene).nodes@, old(scene).spawn_counter, registry@, vs,
            anims_view(old(animations).animations@), scene.nodes@, scene.spawn_counter,
            anims_view(animations.animations@), logs@));
    }
    Some((logs, emitted))
}

/// What delivering signal `signal` to the behaviors of scene `pre`
/// (registry `reg`) gives: the scene `post` and the log entries `r`, as
/// `dispatch_signal` states it.
pub open spec fn dispatched(pre: Scene, post: Scene, reg: Map<Seq<char>, Seq<crate::scene::ComponentSpec>>,
    signal: Seq<char>, r: Option<Vec<LogEntry>>) -> bool {
    match nodes_commands(pre.nodes@, Some(signal), pre.nodes@.len()) {
        Some(vs) => if pre.spawn_counter + view_spawns(vs) <= u64::MAX {
            r matches Some(logs)
            && post.kind == pre.kind
            && post.name == pre.name
            && exists|cmds: Seq<ActionCommand>| commands_match(cmds, vs)
                && commands_effect(pre.nodes@, pre.spawn_counter, reg, cmds, post.nodes@,
                    post.spawn_counter, false, Map::empty(), Map::empty(), logs@)
        } else {
            r is None && post == pre
        },
        None => r is None && post == pre,
    }
}

/// Delivers a signal to the scene's behaviors: the nodes with a handler
/// for it are evaluated against the scene as it is, and the commands then
/// applied in order. Returns the log entries; `None`, with nothing
/// changed, where an integer addition overflows or where the spawn
/// counter would pass `u64::MAX`.
pub fn dispatch_signal(scene: &mut Scene, registry: &NodeRegistry, signal: &str, tick: u64) -> (r: Option<Vec<LogEntry>>)
    ensures
        dispatched(*old(scene), *final(scene), registry@, signal@, r),
{
    let trigger = Trigger::Signal(signal.to_string());
    let cmds = match scene_commands(scene, registry, &trigger, tick) {
        Some(c) => c,
        None => return None,
    };
    let ghost vs = nodes_commands(scene.nodes@, Some(signal@), scene.nodes@.len())->0;
    proof { lemma_spawn_counts_match(cmds@, vs); }
    let spawns = count_spawns(&cmds);
    if scene.spawn_counter > u64::MAX - (spawns as u64) {
        return None;
    }
    let ghost cv = cmds@;
    let logs = apply_commands(scene, registry, cmds);
    assert(commands_match(cv, vs));
    Some(logs)
}


/// The log entries of a run of dispatches, in order.
pub open spec fn dispatch_logs(outs: Seq<Option<Vec<LogEntry>>>) -> Seq<LogEntry>
    decreases outs.len(),
{
    if outs.len() == 0 {
        Seq::empty()
    } else {
        dispatch_logs(outs.drop_last()) + match outs.last() {
            Some(l) => l@,
            None => Seq::empty(),
        }
    }
}

/// The signals `names` delivered in turn to the scene's behaviors:
/// `scenes[i]` is the scene before the `i`-th delivery, `scenes[i + 1]`
/// after it, and `outs[i]` its outcome.
pub open spec fn signals_dispatched(scenes: Seq<Scene>, outs: Seq<Option<Vec<LogEntry>>>,
    reg: Map<Seq<char>, Seq<crate::scene::ComponentSpec>>, names: Seq<Seq<char>>) -> bool {
    &&& scenes.len() == names.len() + 1
    &&& outs.len() == names.len()
    &&& forall|i: int| 0 <= i < names.len() ==> dispatched(scenes[i], scenes[i + 1], reg, names[i], #[trigger] outs[i])
}

/// The systems `before` run once phase by phase at `tick` (pre-tick,
/// tick, post-tick; see `phase_run`), starting from the bus `bus` with
/// its pending signals delivered, and become `after`, leaving the bus
/// as `bus_after`.
pub open spec fn systems_ticked<S: System, H>(before: Seq<S>, bus: SignalBus<H>, after: Seq<S>, bus_after: SignalBus<H>,
    tick: u64) -> bool {
    exists|s1: Seq<S>, s2: Seq<S>, b1: Seq<SignalBus<H>>, b2: Seq<SignalBus<H>>, b3: Seq<SignalBus<H>>| {
        &&& b1[0].pending().len() == 0
        &&& b1[0].names() == bus.names()
        &&& b1[0].subscriber_ids() == bus.subscriber_ids()
        &&& #[trigger] phase_run(before, s1, SystemPhase::PreTick, tick, b1)
        &&& b2[0] == b1.last()
        &&& #[trigger] phase_run(s1, s2, SystemPhase::Tick, tick, b2)
        &&& b3[0] == b2.last()
        &&& #[trigger] phase_run(s2, after, SystemPhase::PostTick, tick, b3)
        &&& bus_after == b3.last()
    }
}

/// The scene's part of a tick: the signals `names` delivered in turn to
/// the behaviors of scene `scene` (registry `reg`), then one tick of its
/// behaviors with animations `anims`, give the scene `scene2`, animations
/// `anims2`, the log `logs2` (the log `logs` with the new entries after
/// it) and the emitted signal names `pending2`; without a scene nothing
/// changes and no signal waits.
pub open spec fn scene_stepped(scene: Option<Scene>, names: Seq<Seq<char>>, reg: Map<Seq<char>, Seq<crate::scene::ComponentSpec>>,
    anims: SceneState, logs: Vec<LogEntry>, scene2: Option<Scene>, anims2: SceneState, logs2: Vec<LogEntry>,
    pending2: Vec<String>) -> bool {
    match scene {
        None => {
            &&& scene2 is None
            &&& logs2 == logs
            &&& anims2 == anims
            &&& pending2@.len() == 0
        },
        Some(sc) => exists|scenes: Seq<Scene>, outs: Seq<Option<Vec<LogEntry>>>, end: Scene,
            t: Option<(Vec<LogEntry>, Vec<String>)>| {
            &&& scenes[0] == sc
            &&& #[trigger] signals_dispatched(scenes, outs, reg, names)
            &&& #[trigger] behaviors_ticked(scenes.last(), end, reg, anims, anims2, t)
            &&& scene2 == Some(end)
            &&& logs2@ == logs@ + dispatch_logs(outs) + match t {
                Some((l, _)) => l@,
                None => Seq::empty(),
            }
            &&& pending2@ == match t {
                Some((_, e)) => e@,
                None => Seq::empty(),
            }
        },
    }
}

/// The tick counter after `t`: one more, wrapping to 0 after `u64::MAX`.
pub open spec fn next_tick(t: u64) -> u64 {
    if t == u64::MAX { 0 } else { (t + 1) as u64 }
}

/// A running game: the signal bus, the resources, the registered node
/// types and systems, the loaded scene with its animations, the log, the
/// signals its behaviors emitted on the last tick, and the tick counter.
/// Drawing is left to the caller, between ticks.
pub struct Engine<S, H> {
    pub bus: SignalBus<H>,
    pub resources: ResourceRegistry,
    pub nodes: NodeRegistry,
    pub systems: SystemRegistry<S>,
    pub rng_seed: u64,
    pub tick_hz: u32,
    pub tick: u64,
    pub scene: Option<Scene>,
    pub logs: Vec<LogEntry>,
    pub animations: SceneState,
    pub pending_signals: Vec<String>,
}

impl<S: System, H: Fn(&Json)> Engine<S, H> {
    /// An engine with the given settings, systems and node types, an empty
    /// bus and resource registry, no scene, at tick 0.
    pub fn with_config(config: &EngineConfig, systems: SystemRegistry<S>, nodes: NodeRegistry) -> (r: Self)
        ensures
            r.rng_seed == config.seed,
            r.tick_hz == (if config.tick_hz == 0 { 60 } else { config.tick_hz }),
            r.tick == 0,
            r.scene is None,
            r.systems == systems,
            r.nodes == nodes,
            r.logs@.len() == 0,
            r.pending_signals@.len() == 0,
            r.animations.animations@ == Map::<Seq<char>, Vec<Animation>>::empty(),
            r.bus.names().len() == 0,
            r.bus.subscriber_ids().len() == 0,
            r.bus.pending().len() == 0,
            r.resources.entries().len() == 0,
    {
        Engine {
            bus: SignalBus::new(),
            resources: ResourceRegistry::new(),
            nodes,
            systems,
            rng_seed: config.seed,
            tick_hz: config.effective_tick_hz(),
            tick: 0,
            scene: None,
            logs: Vec::new(),
            animations: SceneState::default(),
            pending_signals: Vec::new(),
        }
    }

    /// Makes `scene` the engine's scene.
    pub fn load_scene(&mut self, scene: Scene)
        ensures
            final(self).scene == Some(scene),
            final(self).tick == old(self).tick,
            final(self).pending_signals == old(self).pending_signals,
            final(self).animations == old(self).animations,
    {
        self.scene = Some(scene);
    }

    /// The state hash of the loaded scene (see `hash_scene_state`); 0
    /// without a scene.
    pub fn state_hash(&self) -> (r: u64)
        ensures
            r == match self.scene {
                Some(sc) => default_hash(scene_bytes(sc)),
                None => 0,
            },
    {
        match &self.scene {
            Some(sc) => hash_scene_state(sc),
            None => 0,
        }
    }

    /// Hands out the signals the behaviors emitted on the last tick,
    /// leaving none.
    pub fn take_last_signals(&mut self) -> (r: Vec<String>)
        ensures
            r == old(self).pending_signals,
            final(self).pending_signals@.len() == 0,
            final(self).scene == old(self).scene,
    {
        let mut out: Vec<String> = Vec::new();
        std::mem::swap(&mut out, &mut self.pending_signals);
        out
    }

    /// The scene's part of a tick (see `tick`): the signals the behaviors
    /// emitted on the previous tick are delivered, in order, to the scene's
    /// behaviors, then the behaviors tick once at `tick`.
    #[verifier::rlimit(40)]
    fn run_scene_tick(&mut self, tick: u64)
        ensures
            final(self).tick == old(self).tick,
            final(self).bus == old(self).bus,
            final(self).systems == old(self).systems,
            final(self).nodes == old(self).nodes,
            final(self).resources == old(self).resources,
            final(self).rng_seed == old(self).rng_seed,
            final(self).tick_hz == old(self).tick_hz,
            scene_stepped(old(self).scene, texts(old(self).pending_signals@), old(self).nodes@, old(self).animations,
                old(self).logs, final(self).scene, final(self).animations, final(self).logs, final(self).pending_signals),
    {
        let mut pending: Vec<String> = Vec::new();
        std::mem::swap(&mut pending, &mut self.pending_signals);
        let mut current: Option<Scene> = None;
        std::mem::swap(&mut current, &mut self.scene);
        match current {
            None => {},
            Some(mut scene) => {
                let ghost names = texts(pending@);
                let ghost mut scenes: Seq<Scene> = seq![scene];
                let ghost mut outs: Seq<Option<Vec<LogEntry>>> = Seq::empty();
                let ghost logs0 = self.logs@;
                let mut i: usize = 0;
                while i < pending.len()
                    invariant
                        i <= pending@.len(),
                        names == texts(pending@),
                        scenes[0] == old(self).scene->0,
                        scenes.last() == scene,
                        scenes.len() == i + 1,
                        outs.len() == i,
                        forall|q: int| 0 <= q < i ==> dispatched(scenes[q], scenes[q + 1], self.nodes@, names[q], #[trigger] outs[q]),
                        self.logs@ == logs0 + dispatch_logs(outs),
                        self.tick == old(self).tick,
                        self.bus == old(self).bus,
                        self.systems == old(self).systems,
                        self.nodes == old(self).nodes,
                        self.resources == old(self).resources,
                        self.rng_seed == old(self).rng_seed,
                        self.tick_hz == old(self).tick_hz,
                        self.animations == old(self).animations,
                        self.pending_signals@.len() == 0,
                        self.scene is None,
                    decreases pending.len() - i,
                {
                    let out = dispatch_signal(&mut scene, &self.nodes, pending[i].as_str(), tick);
                    proof {
                        let prev = outs;
                        scenes = scenes.push(scene);
                        outs = outs.push(out);
                        assert(outs.drop_last() =~= prev);
                    }
                    match out {
                        Some(mut l) => {
                            self.logs.append(&mut l);
                        },
                        None => {},
                    }
                    i += 1;
                }
                let ghost before_tick = scene;
                let ghost logs1 = self.logs@;
                let t = tick_behaviors(&mut scene, &self.nodes, tick, &mut self.animations);
                let ghost tg = t;
                match t {
                    Some((mut l, e)) => {
                        self.logs.append(&mut l);
                        self.pending_signals = e;
                    },
                    None => {},
                }
                self.scene = Some(scene);
                proof {
                    assert(scenes.last() == before_tick);
                    assert(signals_dispatched(scenes, outs, old(self).nodes@, texts(old(self).pending_signals@)));
                    assert(behaviors_ticked(scenes.last(), scene, old(self).nodes@, old(self).animations,
                        self.animations, tg));
                    assert(logs0 == old(self).logs@);
                    assert(self.logs@ == old(self).logs@ + dispatch_logs(outs) + match tg {
                        Some((l, _)) => l@,
                        None => Seq::empty(),
                    });
                    assert(self.pending_signals@ == match tg {
                        Some((_, e)) => e@,
                        None => Seq::<String>::empty(),
                    });
                }
            },
        }
    }

    /// One tick. The bus delivers the signals pending on it to their
    /// handlers; the systems run phase by phase (pre-tick, tick,
    /// post-tick), in registration order within a phase; the signals the
    /// behaviors emitted on the previous tick are delivered, in order, to
    /// the scene's behaviors; the behaviors tick once, and the signals they
    /// emit now wait for the next tick. The counter then moves on, wrapping
    /// after `u64::MAX`.
    pub fn tick(&mut self)
        requires
            handlers_accept(old(self).bus.subscriber_handlers(), old(self).bus.pending()),
        ensures
            final(self).tick == next_tick(old(self).tick),
            forall|i: int, k: int| 0 <= i < old(self).bus.pending().len() && 0 <= k < old(self).bus.subscriber_ids().len()
                && old(self).bus.subscriber_ids()[k] == old(self).bus.pending()[i].id.0
                ==> call_ensures(#[trigger] old(self).bus.subscriber_handlers()[k], (&(#[trigger] old(self).bus.pending()[i]).payload,), ()),
            systems_ticked(old(self).systems.systems(), old(self).bus, final(self).systems.systems(), final(self).bus,
                old(self).tick),
            final(self).systems.index() == old(self).systems.index(),
            final(self).nodes == old(self).nodes,
            final(self).resources == old(self).resources,
            final(self).rng_seed == old(self).rng_seed,
            final(self).tick_hz == old(self).tick_hz,
            scene_stepped(old(self).scene, texts(old(self).pending_signals@), old(self).nodes@, old(self).animations,
                old(self).logs, final(self).scene, final(self).animations, final(self).logs, final(self).pending_signals),
    {
        let tick = self.tick;
        self.bus.deliver_pending();
        let ghost b0 = self.bus;
        self.systems.run_phase(SystemPhase::PreTick, &mut self.bus, &self.resources, tick);
        let ghost s1 = self.systems.systems();
        let ghost bb1 = self.bus;
        self.systems.run_phase(SystemPhase::Tick, &mut self.bus, &self.resources, tick);
        let ghost s2 = self.systems.systems();
        let ghost bb2 = self.bus;
        self.systems.run_phase(SystemPhase::PostTick, &mut self.bus, &self.resources, tick);
        proof {
            let b1 = choose|b: Seq<SignalBus<H>>| b[0] == b0 && b.last() == bb1 && #[trigger] phase_run(old(self).systems.systems(), s1, SystemPhase::PreTick, tick, b);
            let b2 = choose|b: Seq<SignalBus<H>>| b[0] == bb1 && b.last() == bb2 && #[trigger] phase_run(s1, s2, SystemPhase::Tick, tick, b);
            let b3 = choose|b: Seq<SignalBus<H>>| b[0] == bb2 && b.last() == self.bus && #[trigger] phase_run(s2, self.systems.systems(), SystemPhase::PostTick, tick, b);
            assert({
                &&& b1[0].pending().len() == 0
                &&& b1[0].names() == old(self).bus.names()
                &&& b1[0].subscriber_ids() == old(self).bus.subscriber_ids()
                &&& phase_run(old(self).systems.systems(), s1, SystemPhase::PreTick, old(self).tick, b1)
                &&& b2[0] == b1.last()
                &&& phase_run(s1, s2, SystemPhase::Tick, old(self).tick, b2)
                &&& b3[0] == b2.last()
                &&& phase_run(s2, self.systems.systems(), SystemPhase::PostTick, old(self).tick, b3)
                &&& self.bus == b3.last()
            });
            assert(systems_ticked(old(self).systems.systems(), old(self).bus, self.systems.systems(), self.bus, tick));
        }
        self.run_scene_tick(tick);
        if self.tick == u64::MAX {
            self.tick = 0;
        } else {
            self.tick = self.tick + 1;
        }
    }
}

} // verus!
