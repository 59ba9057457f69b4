//! Evaluating actions and behaviors into commands: which commands a
//! node's behaviors issue on a tick or a signal, with component writes
//! seen by later reads in the same evaluation.

use vstd::prelude::*;
use crate::behavior::{Action, ActionCommand, Behavior, LogLevel, ResultTarget, StateDef, Target, Transition};
use crate::evaluator::{Trigger, target_allowed, target_allowed_for_tick, target_index, resolve_target, resolve_target_for_command,
    ComponentChange, change_key, writes_to, dry_writes, prior_value, dry_change_is, compute_dry_run_diff};
use crate::error::{EngineError, EngineResult};
use crate::hot_reload::lists_in_order;
use crate::scene::{first_node, lemma_first_node};
use crate::expression::{
    PendingWrites, WriteMap, Val, eval_spec, eval_value, truthy, truthy_val, doc_component_value, component_of_doc,
    add_component, numeric_add,
};
use crate::json::{Json, clone_members};
use crate::same::{target_same, jmap_same, result_same, behaviors_same, behaviors_copy, result_copy};
use crate::scene::{ComponentValue, Node, NodeRegistry, Scene, ValueView};
use crate::strmap::{StrMap, keys_ascending};
use crate::text::{push_str, str_eq};

verus! {

broadcast use vstd::string::group_string_axioms;

/// A command as its specification gives it: documents and behaviors as
/// the action holds them (the command holds equal copies).
pub enum CommandView {
    SetState(Target, Seq<char>, ValueView),
    Emit(Seq<char>, StrMap<Json>),
    /// An `Emit` with no arguments.
    EmitBare(Seq<char>),
    Destroy(Target),
    Spawn(Seq<char>, Target, Map<Seq<char>, ValueView>, Seq<Behavior>),
    StartAnimation(Target, Seq<char>, ValueView, u32),
    Log(LogLevel, Seq<char>, StrMap<Json>),
    CallSystem(Seq<char>, StrMap<Json>, Option<ResultTarget>),
}

/// A command is the one specified.
pub open spec fn command_matches(c: ActionCommand, v: CommandView) -> bool {
    match v {
        CommandView::SetState(t, k, x) => c matches ActionCommand::SetState { target, key, value }
            && target_same(target, t) && key@ == k && value@ == x,
        CommandView::Emit(s, a) => c matches ActionCommand::Emit { signal, args }
            && signal@ == s && jmap_same(args, a),
        CommandView::EmitBare(s) => c matches ActionCommand::Emit { signal, args }
            && signal@ == s && args.key_seq().len() == 0,
        CommandView::Destroy(t) => c matches ActionCommand::Destroy { target } && target_same(target, t),
        CommandView::Spawn(nt, p, comps, bs) => c matches ActionCommand::Spawn { node_type, parent, components, behaviors }
            && node_type@ == nt && target_same(parent, p) && components@.dom() == comps.dom()
            && (forall|k: Seq<char>| #[trigger] comps.contains_key(k) ==> components@[k]@ == comps[k])
            && behaviors_same(behaviors@, bs),
        CommandView::StartAnimation(t, k, x, n) => c matches ActionCommand::StartAnimation { target, key, to, remaining }
            && target_same(target, t) && key@ == k && to@ == x && remaining == n,
        CommandView::Log(l, m, f) => c matches ActionCommand::Log { level, message, fields }
            && level == l && message@ == m && jmap_same(fields, f),
        CommandView::CallSystem(s, a, r) => c matches ActionCommand::CallSystem { system, args, result_target }
            && system@ == s && jmap_same(args, a) && result_same(result_target, r),
    }
}

/// Commands are the ones specified, in order.
pub open spec fn commands_match(cs: Seq<ActionCommand>, vs: Seq<CommandView>) -> bool {
    cs.len() == vs.len() && forall|i: int| 0 <= i < cs.len() ==> command_matches(#[trigger] cs[i], vs[i])
}

/// `post` starts with `pre`.
pub open spec fn keeps_prefix(pre: Seq<ActionCommand>, post: Seq<ActionCommand>) -> bool {
    post.len() >= pre.len() && post.take(pre.len() as int) == pre
}

proof fn lemma_keeps_prefix_trans(a: Seq<ActionCommand>, b: Seq<ActionCommand>, c: Seq<ActionCommand>)
    requires
        keeps_prefix(a, b),
        keeps_prefix(b, c),
    ensures
        keeps_prefix(a, c),
{
    assert(c.take(a.len() as int) =~= c.take(b.len() as int).take(a.len() as int));
}

/// `post` is `pre` followed by the specified commands.
pub open spec fn appended(pre: Seq<ActionCommand>, post: Seq<ActionCommand>, vs: Seq<CommandView>) -> bool {
    &&& post.len() == pre.len() + vs.len()
    &&& post.take(pre.len() as int) == pre
    &&& commands_match(post.skip(pre.len() as int), vs)
}

proof fn lemma_appended_nothing(s: Seq<ActionCommand>)
    ensures
        appended(s, s, Seq::empty()),
{
    assert(s.take(s.len() as int) =~= s);
    assert(s.skip(s.len() as int) =~= Seq::<ActionCommand>::empty());
}

pub(crate) proof fn lemma_appended_trans(a: Seq<ActionCommand>, b: Seq<ActionCommand>, d: Seq<ActionCommand>, v1: Seq<CommandView>, v2: Seq<CommandView>)
    requires
        appended(a, b, v1),
        appended(b, d, v2),
    ensures
        appended(a, d, v1 + v2),
{
    assert(d.take(a.len() as int) =~= b.take(a.len() as int));
    assert forall|i: int| 0 <= i < d.skip(a.len() as int).len() implies command_matches(#[trigger] d.skip(a.len() as int)[i], (v1 + v2)[i]) by {
        if i < v1.len() {
            assert(d.skip(a.len() as int)[i] == b.skip(a.len() as int)[i]);
        } else {
            assert(d.skip(a.len() as int)[i] == d.skip(b.len() as int)[i - v1.len()]);
        }
    }
}

proof fn lemma_appended_push(s: Seq<ActionCommand>, c: ActionCommand, v: CommandView)
    requires
        command_matches(c, v),
    ensures
        appended(s, s.push(c), seq![v]),
{
    assert(s.push(c).take(s.len() as int) =~= s);
    assert(s.push(c).skip(s.len() as int) =~= seq![c]);
}

/// The target a command is issued for (see `resolve_target_for_command`).
pub open spec fn cmd_target(nodes: Seq<Node>, node: Node, t: Target) -> Target {
    match t {
        Target::This => Target::Node { id: node.id },
        _ => match target_index(nodes, node, t) {
            Some(i) => Target::Node { id: nodes[i].id },
            None => t,
        },
    }
}

/// The node a target names (see `resolve_target`).
pub open spec fn target_node(nodes: Seq<Node>, node: Node, t: Target) -> Option<Node> {
    match t {
        Target::This => Some(node),
        _ => match target_index(nodes, node, t) {
            Some(i) => Some(nodes[i]),
            None => None,
        },
    }
}

/// The writes after a command writes `v` to component `key` through the
/// resolved target `t`: recorded when `t` names a node by id.
pub open spec fn note_write(pw: WriteMap, t: Target, key: Seq<char>, v: ValueView) -> WriteMap {
    match t {
        Target::Node { id } => pw.insert((id@, key), v),
        _ => pw,
    }
}

/// The components a spawn gives its node: the documents that convert.
pub open spec fn spawn_components(m: StrMap<Json>) -> Map<Seq<char>, ValueView> {
    Map::new(
        |k: Seq<char>| m@.contains_key(k) && doc_component_value(m@[k]) is Ok,
        |k: Seq<char>| doc_component_value(m@[k])->Ok_0,
    )
}

/// The commands one action issues for `node`, and the writes after it
/// (`None` where evaluating it overflows an integer). Writes through a
/// target naming another node by id are skipped; documents that do not
/// convert to component values issue nothing.
pub open spec fn action_commands(nodes: Seq<Node>, node: Node, a: Action, pw: WriteMap) -> Option<(Seq<CommandView>, WriteMap)>
    decreases a,
{
    match a {
        Action::SetState { target, key, value } =>
            if !target_allowed(node, target) {
                Some((Seq::empty(), pw))
            } else {
                match doc_component_value(value) {
                    Ok(v) => {
                        let t = cmd_target(nodes, node, target);
                        Some((seq![CommandView::SetState(t, key@, v)], note_write(pw, t, key@, v)))
                    },
                    Err(_) => Some((Seq::empty(), pw)),
                }
            },
        Action::Emit { signal, args } => Some((seq![CommandView::Emit(signal@, args)], pw)),
        Action::Destroy { target } => Some((seq![CommandView::Destroy(cmd_target(nodes, node, target))], pw)),
        Action::Spawn { node_type, parent, components, behaviors } =>
            Some((seq![CommandView::Spawn(node_type@, cmd_target(nodes, node, parent), spawn_components(components), behaviors@)], pw)),
        Action::If { cond, then_, else_ } => {
            proof {
                vstd::std_specs::vec::axiom_vec_decreases_to_view(then_);
                vstd::std_specs::vec::axiom_vec_decreases_to_view(else_);
            }
            match eval_spec(nodes, node, cond, pw) {
                None => None,
                Some(r) => if r matches Ok(v) && truthy_val(v) {
                    actions_commands(nodes, node, then_@, pw)
                } else {
                    actions_commands(nodes, node, else_@, pw)
                },
            }
        },
        Action::Move { target, key, by } =>
            if !target_allowed(node, target) {
                Some((Seq::empty(), pw))
            } else {
                match (doc_component_value(by), target_node(nodes, node, target)) {
                    (Ok(delta), Some(n)) => if n.components@.contains_key(key@) {
                        match add_component(n.components@[key@].value@, delta) {
                            None => None,
                            Some(None) => Some((Seq::empty(), pw)),
                            Some(Some(next)) => {
                                let t = cmd_target(nodes, node, target);
                                Some((seq![CommandView::SetState(t, key@, next)], note_write(pw, t, key@, next)))
                            },
                        }
                    } else {
                        Some((Seq::empty(), pw))
                    },
                    _ => Some((Seq::empty(), pw)),
                }
            },
        Action::Animate { target, key, to, duration } =>
            if !target_allowed(node, target) {
                Some((Seq::empty(), pw))
            } else {
                match doc_component_value(to) {
                    Ok(v) => Some((seq![CommandView::StartAnimation(cmd_target(nodes, node, target), key@, v, duration)], pw)),
                    Err(_) => Some((Seq::empty(), pw)),
                }
            },
        Action::Log { level, message, fields } => Some((seq![CommandView::Log(level, message@, fields)], pw)),
        Action::CallSystem { system, args, result_in } => Some((seq![CommandView::CallSystem(system@, args, result_in)], pw)),
    }
}

/// The commands a list of actions issues, in order, each action seeing
/// the writes of those before it.
pub open spec fn actions_commands(nodes: Seq<Node>, node: Node, xs: Seq<Action>, pw: WriteMap) -> Option<(Seq<CommandView>, WriteMap)>
    decreases xs,
{
    if xs.len() == 0 {
        Some((Seq::empty(), pw))
    } else {
        match actions_commands(nodes, node, xs.drop_last(), pw) {
            None => None,
            Some((c1, p1)) => match action_commands(nodes, node, xs.last(), p1) {
                None => None,
                Some((c2, p2)) => Some((c1 + c2, p2)),
            },
        }
    }
}

proof fn lemma_actions_none_extends(nodes: Seq<Node>, node: Node, xs: Seq<Action>, j: int, pw: WriteMap)
    requires
        0 <= j <= xs.len(),
        actions_commands(nodes, node, xs.take(j), pw) is None,
    ensures
        actions_commands(nodes, node, xs, pw) is None,
    decreases xs.len(),
{
    if j < xs.len() {
        assert(xs.drop_last().take(j) =~= xs.take(j));
        lemma_actions_none_extends(nodes, node, xs.drop_last(), j, pw);
    } else {
        assert(xs.take(j) =~= xs);
    }
}

fn copy_target(scene: &Scene, node: &Node, target: &Target) -> (r: Target)
    ensures
        target_same(r, cmd_target(scene.nodes@, *node, *target)),
{
    resolve_target_for_command(scene, node, target)
}

fn note_write_exec(pw: &mut PendingWrites, t: &Target, key: &String, v: &ComponentValue)
    ensures
        final(pw)@ == note_write(old(pw)@, *t, key@, v@),
{
    match t {
        Target::Node { id } => pw.insert(id.clone(), key.clone(), v.clone()),
        _ => {},
    }
}

fn convert_components(m: &StrMap<Json>) -> (r: StrMap<ComponentValue>)
    ensures
        r@.dom() == spawn_components(*m).dom(),
        forall|k: Seq<char>| #[trigger] spawn_components(*m).contains_key(k) ==> r@[k]@ == spawn_components(*m)[k],
{
    m.proof_keys();
    let mut out: StrMap<ComponentValue> = StrMap::new();
    let n = m.len();
    let mut i: usize = 0;
    while i < n
        invariant
            i <= n,
            n == m.key_seq().len() == m.value_seq().len(),
            keys_ascending(m.key_seq()),
            forall|t: int| 0 <= t < m.key_seq().len() ==> m@[#[trigger] m.key_seq()[t]] == m.value_seq()[t],
            forall|k: Seq<char>| m@.contains_key(k) <==> m.key_seq().contains(k),
            forall|k: Seq<char>| #[trigger] out@.contains_key(k) <==>
                (m.key_seq().take(i as int).contains(k) && doc_component_value(m@[k]) is Ok),
            forall|k: Seq<char>| #[trigger] out@.contains_key(k) ==> out@[k]@ == doc_component_value(m@[k])->Ok_0,
        decreases n - i,
    {
        let k = m.key_at(i);
        let v = m.value_at(i);
        let ghost ks = m.key_seq();
        proof {
            assert(ks.take(i + 1) =~= ks.take(i as int).push(ks[i as int]));
            assert(!ks.take(i as int).contains(ks[i as int])) by {
                if ks.take(i as int).contains(ks[i as int]) {
                    let j = ks.take(i as int).index_of(ks[i as int]);
                    crate::text::lemma_seq_lt_irreflexive(ks[i as int]);
                }
            }
        }
        match component_of_doc(v) {
            Ok(cv) => {
                out.insert(k.clone(), cv);
            },
            Err(_) => {},
        }
        proof {
            assert forall|x: Seq<char>| ks.take(i + 1).contains(x) <==> (ks.take(i as int).contains(x) || x == ks[i as int]) by {
                if ks.take(i + 1).contains(x) {
                    let j = ks.take(i + 1).index_of(x);
                    if j < i {
                        assert(ks.take(i as int)[j] == x);
                    }
                }
                if ks.take(i as int).contains(x) {
                    let j = ks.take(i as int).index_of(x);
                    assert(ks.take(i + 1)[j] == x);
                }
                if x == ks[i as int] {
                    assert(ks.take(i + 1)[i as int] == x);
                }
            }
        }
        i += 1;
    }
    proof {
        assert(m.key_seq().take(n as int) =~= m.key_seq());
        assert(out@.dom() =~= spawn_components(*m).dom());
    }
    out
}

/// Evaluates one action for `node`, appending the commands it issues to
/// `out` and recording its writes in `pending_writes`; `false` where an
/// integer addition overflows (and `out` is then unspecified).
pub fn evaluate_action(scene: &Scene, registry: &NodeRegistry, node: &Node, action: &Action,
    out: &mut Vec<ActionCommand>, pending_writes: &mut PendingWrites, tick: u64) -> (ok: bool)
    ensures
        keeps_prefix(old(out)@, final(out)@),
        match action_commands(scene.nodes@, *node, *action, old(pending_writes)@) {
            None => !ok,
            Some((cs, pw)) => ok && appended(old(out)@, final(out)@, cs) && final(pending_writes)@ == pw,
        },
    decreases action,
{
    let ghost start = out@;
    proof { lemma_appended_nothing(out@); }
    match action {
        Action::SetState { target, key, value } => {
            if !target_allowed_for_tick(node, target) {
                return true;
            }
            match component_of_doc(value) {
                Ok(v) => {
                    let t = copy_target(scene, node, target);
                    note_write_exec(pending_writes, &t, key, &v);
                    let ghost tv = cmd_target(scene.nodes@, *node, *target);
                    assert(note_write(old(pending_writes)@, t, key@, v@) == note_write(old(pending_writes)@, tv, key@, v@));
                    let c = ActionCommand::SetState { target: t, key: key.clone(), value: v };
                    proof { lemma_appended_push(out@, c, CommandView::SetState(tv, key@, v@)); }
                    out.push(c);
                },
                Err(_) => {},
            }
            true
        },
        Action::Emit { signal, args } => {
            let c = ActionCommand::Emit { signal: signal.clone(), args: clone_members(args) };
            proof { lemma_appended_push(out@, c, CommandView::Emit(signal@, *args)); }
            out.push(c);
            true
        },
        Action::Destroy { target } => {
            let c = ActionCommand::Destroy { target: copy_target(scene, node, target) };
            proof { lemma_appended_push(out@, c, CommandView::Destroy(cmd_target(scene.nodes@, *node, *target))); }
            out.push(c);
            true
        },
        Action::Spawn { node_type, parent, components, behaviors } => {
            let c = ActionCommand::Spawn {
                node_type: node_type.clone(),
                parent: copy_target(scene, node, parent),
                components: convert_components(components),
                behaviors: behaviors_copy(behaviors),
            };
            proof {
                lemma_appended_push(out@, c, CommandView::Spawn(node_type@, cmd_target(scene.nodes@, *node, *parent),
                    spawn_components(*components), behaviors@));
            }
            out.push(c);
            true
        },
        Action::If { cond, then_, else_ } => {
            let taken = match eval_value(scene, node, cond, pending_writes) {
                None => return false,
                Some(Ok(v)) => truthy(&v),
                Some(Err(_)) => false,
            };
            if taken {
                evaluate_actions(scene, registry, node, then_, out, pending_writes, tick)
            } else {
                evaluate_actions(scene, registry, node, else_, out, pending_writes, tick)
            }
        },
        Action::Move { target, key, by } => {
            if !target_allowed_for_tick(node, target) {
                return true;
            }
            let delta = match component_of_doc(by) {
                Ok(d) => d,
                Err(_) => return true,
            };
            let target_node = match resolve_target(scene, node, target) {
                Some(n) => n,
                None => return true,
            };
            let current = match target_node.components.get(key.as_str()) {
                Some(c) => &c.value,
                None => return true,
            };
            let next = match numeric_add(current, &delta) {
                None => return false,
                Some(None) => return true,
                Some(Some(x)) => x,
            };
            let t = copy_target(scene, node, target);
            note_write_exec(pending_writes, &t, key, &next);
            let ghost tv = cmd_target(scene.nodes@, *node, *target);
            assert(note_write(old(pending_writes)@, t, key@, next@) == note_write(old(pending_writes)@, tv, key@, next@));
            let c = ActionCommand::SetState { target: t, key: key.clone(), value: next };
            proof { lemma_appended_push(out@, c, CommandView::SetState(tv, key@, next@)); }
            out.push(c);
            true
        },
        Action::Animate { target, key, to, duration } => {
            if !target_allowed_for_tick(node, target) {
                return true;
            }
            match component_of_doc(to) {
                Ok(v) => {
                    let c = ActionCommand::StartAnimation {
                        target: copy_target(scene, node, target),
                        key: key.clone(),
                        to: v,
                        remaining: *duration,
                    };
                    proof {
                        lemma_appended_push(out@, c, CommandView::StartAnimation(cmd_target(scene.nodes@, *node, *target), key@, v@, *duration));
                    }
                    out.push(c);
                },
                Err(_) => {},
            }
            true
        },
        Action::Log { level, message, fields } => {
            let c = ActionCommand::Log { level: *level, message: message.clone(), fields: clone_members(fields) };
            proof { lemma_appended_push(out@, c, CommandView::Log(*level, message@, *fields)); }
            out.push(c);
            true
        },
        Action::CallSystem { system, args, result_in } => {
            let c = ActionCommand::CallSystem {
                system: system.clone(),
                args: clone_members(args),
                result_target: result_copy(result_in),
            };
            proof { lemma_appended_push(out@, c, CommandView::CallSystem(system@, *args, *result_in)); }
            out.push(c);
            true
        },
    }
}

/// Evaluates a list of actions in order (see `actions_commands`).
pub fn evaluate_actions(scene: &Scene, registry: &NodeRegistry, node: &Node, actions: &Vec<Action>,
    out: &mut Vec<ActionCommand>, pending_writes: &mut PendingWrites, tick: u64) -> (ok: bool)
    ensures
        keeps_prefix(old(out)@, final(out)@),
        match actions_commands(scene.nodes@, *node, actions@, old(pending_writes)@) {
            None => !ok,
            Some((cs, pw)) => ok && appended(old(out)@, final(out)@, cs) && final(pending_writes)@ == pw,
        },
    decreases actions,
{
    let ghost start = out@;
    let ghost pw0 = pending_writes@;
    let ghost mut cs: Seq<CommandView> = Seq::empty();
    proof {
        lemma_appended_nothing(out@);
        assert(actions@.take(0) =~= Seq::<Action>::empty());
    }
    let mut i: usize = 0;
    while i < actions.len()
        invariant
            i <= actions@.len(),
            pw0 == old(pending_writes)@,
            start == old(out)@,
            actions_commands(scene.nodes@, *node, actions@.take(i as int), pw0) == Some((cs, pending_writes@)),
            appended(start, out@, cs),
            keeps_prefix(start, out@),
        decreases actions.len() - i,
    {
        proof { vstd::std_specs::vec::axiom_vec_index_decreases(*actions, i as int); }
        let ghost before = out@;
        let ghost pw_before = pending_writes@;
        let ok = evaluate_action(scene, registry, node, &actions[i], out, pending_writes, tick);
        proof {
            assert(actions@.take(i + 1).drop_last() =~= actions@.take(i as int));
            assert(actions@.take(i + 1).last() == actions@[i as int]);
        }
        proof { lemma_keeps_prefix_trans(start, before, out@); }
        if !ok {
            proof { lemma_actions_none_extends(scene.nodes@, *node, actions@, i + 1, pw0); }
            return false;
        }
        proof {
            let (c2, p2) = action_commands(scene.nodes@, *node, actions@[i as int], pw_before)->0;
            lemma_appended_trans(start, before, out@, cs, c2);
            cs = cs + c2;
        }
        i += 1;
    }
    proof { assert(actions@.take(actions@.len() as int) =~= actions@); }
    true
}


// ------------------------------------------------------------- behaviors

/// The first transition, from index `k` on, whose condition evaluates to
/// a true value (conditions that fail to evaluate are passed over);
/// `None` where evaluating one overflows an integer.
pub open spec fn first_transition(nodes: Seq<Node>, node: Node, trs: Seq<Transition>, k: nat, pw: WriteMap) -> Option<Option<int>>
    decreases trs.len() - k,
{
    if k >= trs.len() {
        Some(None)
    } else {
        match eval_spec(nodes, node, trs[k as int].when, pw) {
            None => None,
            Some(Ok(v)) => if truthy_val(v) {
                Some(Some(k as int))
            } else {
                first_transition(nodes, node, trs, k + 1, pw)
            },
            Some(Err(_)) => first_transition(nodes, node, trs, k + 1, pw),
        }
    }
}

/// A trigger by its plain values: `None` for a tick, the signal's name
/// for a signal.
pub open spec fn trigger_view(t: Trigger) -> Option<Seq<char>> {
    match t {
        Trigger::Tick => None,
        Trigger::Signal(s) => Some(s@),
    }
}

/// The commands one behavior issues for `node` on `trigger`.
///
/// A state machine whose node has no active state first sets it (a write
/// naming the node by id, as every active-state write does) to the
/// initial state. On a tick, in a known active state, the first
/// transition that holds is taken: exit signal, new active state, and,
/// if the target state exists, its enter signal, `on_enter` and `on_tick`
/// actions; with no transition taken, the state's `on_tick` actions run.
/// `on_tick` behaviors run on ticks; `on_signal` ones on their signal.
pub open spec fn behavior_commands(nodes: Seq<Node>, node: Node, b: Behavior, trigger: Option<Seq<char>>, pw: WriteMap) -> Option<(Seq<CommandView>, WriteMap)> {
    match b {
        Behavior::StateMachine { initial, states } => {
            let active = match node.active_state {
                Some(a) => a@,
                None => initial@,
            };
            let pre: Seq<CommandView> = if node.active_state is None {
                seq![CommandView::SetState(Target::Node { id: node.id }, "_active_state"@, ValueView::String(active))]
            } else {
                Seq::empty()
            };
            if states@.contains_key(active) && trigger is None {
                let state = states@[active];
                match first_transition(nodes, node, state.transitions@, 0, pw) {
                    None => None,
                    Some(None) => match actions_commands(nodes, node, state.on_tick@, pw) {
                        None => None,
                        Some((cs, p)) => Some((pre + cs, p)),
                    },
                    Some(Some(k)) => {
                        let to = state.transitions@[k].to@;
                        let head = pre + seq![
                            CommandView::EmitBare("state:exit:"@ + active),
                            CommandView::SetState(Target::Node { id: node.id }, "_active_state"@, ValueView::String(to)),
                        ];
                        if states@.contains_key(to) {
                            let next = states@[to];
                            match actions_commands(nodes, node, next.on_enter@, pw) {
                                None => None,
                                Some((c1, p1)) => match actions_commands(nodes, node, next.on_tick@, p1) {
                                    None => None,
                                    Some((c2, p2)) => Some((head + seq![CommandView::EmitBare("state:enter:"@ + to)] + c1 + c2, p2)),
                                },
                            }
                        } else {
                            Some((head, pw))
                        }
                    },
                }
            } else {
                Some((pre, pw))
            }
        },
        Behavior::OnTick { actions } =>
            if trigger is None { actions_commands(nodes, node, actions@, pw) } else { Some((Seq::empty(), pw)) },
        Behavior::OnSignal { signal, actions } =>
            if trigger == Some(signal@) {
                actions_commands(nodes, node, actions@, pw)
            } else {
                Some((Seq::empty(), pw))
            },
    }
}

/// The commands a list of behaviors issues, in order.
pub open spec fn behaviors_commands(nodes: Seq<Node>, node: Node, bs: Seq<Behavior>, trigger: Option<Seq<char>>, pw: WriteMap) -> Option<(Seq<CommandView>, WriteMap)>
    decreases bs.len(),
{
    if bs.len() == 0 {
        Some((Seq::empty(), pw))
    } else {
        match behaviors_commands(nodes, node, bs.drop_last(), trigger, pw) {
            None => None,
            Some((c1, p1)) => match behavior_commands(nodes, node, bs.last(), trigger, p1) {
                None => None,
                Some((c2, p2)) => Some((c1 + c2, p2)),
            },
        }
    }
}

proof fn lemma_first_transition_range(nodes: Seq<Node>, node: Node, trs: Seq<Transition>, k0: nat, pw: WriteMap)
    ensures
        first_transition(nodes, node, trs, k0, pw) matches Some(Some(k)) ==> k0 <= k < trs.len(),
    decreases trs.len() - k0,
{
    if k0 < trs.len() {
        lemma_first_transition_range(nodes, node, trs, k0 + 1, pw);
    }
}

fn pick_transition(scene: &Scene, node: &Node, trs: &Vec<Transition>, pw: &PendingWrites) -> (r: Option<Option<usize>>)
    ensures
        match first_transition(scene.nodes@, *node, trs@, 0, pw@) {
            None => r is None,
            Some(None) => r == Some(None::<usize>),
            Some(Some(k)) => r matches Some(Some(j)) && j == k,
        },
{
    let mut k: usize = 0;
    while k < trs.len()
        invariant
            k <= trs@.len(),
            first_transition(scene.nodes@, *node, trs@, 0, pw@) == first_transition(scene.nodes@, *node, trs@, k as nat, pw@),
        decreases trs.len() - k,
    {
        match eval_value(scene, node, &trs[k].when, pw) {
            None => return None,
            Some(Ok(v)) => {
                if truthy(&v) {
                    return Some(Some(k));
                }
            },
            Some(Err(_)) => {},
        }
        k += 1;
    }
    Some(None)
}

fn signal_text(prefix: &str, name: &str) -> (r: String)
    ensures
        r@ == prefix@ + name@,
{
    let mut s = prefix.to_string();
    push_str(&mut s, name);
    s
}

fn push_command(out: &mut Vec<ActionCommand>, c: ActionCommand, Ghost(v): Ghost<CommandView>)
    requires
        command_matches(c, v),
    ensures
        appended(old(out)@, final(out)@, seq![v]),
{
    proof { lemma_appended_push(out@, c, v); }
    out.push(c);
}

/// Evaluates one behavior of `node` (see `behavior_commands`).
fn evaluate_behavior(scene: &Scene, registry: &NodeRegistry, node: &Node, behavior: &Behavior, trigger: &Trigger, tick: u64,
    pending_writes: &mut PendingWrites, out: &mut Vec<ActionCommand>) -> (ok: bool)
    ensures
        match behavior_commands(scene.nodes@, *node, *behavior, trigger_view(*trigger), old(pending_writes)@) {
            None => !ok,
            Some((cs, pw)) => ok && appended(old(out)@, final(out)@, cs) && final(pending_writes)@ == pw,
        },
{
    proof { lemma_appended_nothing(out@); }
    match behavior {
        Behavior::StateMachine { initial, states } => {
            let active: String = match &node.active_state {
                Some(a) => a.clone(),
                None => initial.clone(),
            };
            let ghost pre: Seq<CommandView> = if node.active_state is None {
                seq![CommandView::SetState(Target::Node { id: node.id }, "_active_state"@, ValueView::String(active@))]
            } else {
                Seq::empty()
            };
            let ghost start = out@;
            if node.active_state.is_none() {
                let c = ActionCommand::SetState {
                    target: Target::Node { id: node.id.clone() },
                    key: "_active_state".to_string(),
                    value: ComponentValue::String(active.clone()),
                };
                push_command(out, c, Ghost(CommandView::SetState(Target::Node { id: node.id }, "_active_state"@, ValueView::String(active@))));
            }
            assert(appended(start, out@, pre));
            let is_tick = match trigger {
                Trigger::Tick => true,
                _ => false,
            };
            let state = match states.get(active.as_str()) {
                Some(s) => s,
                None => return true,
            };
            if !is_tick {
                return true;
            }
            proof { lemma_first_transition_range(scene.nodes@, *node, state.transitions@, 0, pending_writes@); }
            match pick_transition(scene, node, &state.transitions, pending_writes) {
                None => false,
                Some(None) => {
                    let ghost mid = out@;
                    let ok = evaluate_actions(scene, registry, node, &state.on_tick, out, pending_writes, tick);
                    if ok {
                        proof {
                            let (cs, p) = actions_commands(scene.nodes@, *node, state.on_tick@, old(pending_writes)@)->0;
                            lemma_appended_trans(start, mid, out@, pre, cs);
                        }
                    }
                    ok
                },
                Some(Some(k)) => {
                    let to = &state.transitions[k].to;
                    let exit = ActionCommand::Emit { signal: signal_text("state:exit:", active.as_str()), args: StrMap::new() };
                    let ghost m1 = out@;
                    push_command(out, exit, Ghost(CommandView::EmitBare("state:exit:"@ + active@)));
                    let set = ActionCommand::SetState {
                        target: Target::Node { id: node.id.clone() },
                        key: "_active_state".to_string(),
                        value: ComponentValue::String(to.clone()),
                    };
                    let ghost m2 = out@;
                    push_command(out, set, Ghost(CommandView::SetState(Target::Node { id: node.id }, "_active_state"@, ValueView::String(to@))));
                    let ghost head = pre + seq![
                        CommandView::EmitBare("state:exit:"@ + active@),
                        CommandView::SetState(Target::Node { id: node.id }, "_active_state"@, ValueView::String(to@)),
                    ];
                    proof {
                        lemma_appended_trans(start, m1, m2, pre, seq![CommandView::EmitBare("state:exit:"@ + active@)]);
                        lemma_appended_trans(start, m2, out@, pre + seq![CommandView::EmitBare("state:exit:"@ + active@)],
                            seq![CommandView::SetState(Target::Node { id: node.id }, "_active_state"@, ValueView::String(to@))]);
                        assert(pre + seq![CommandView::EmitBare("state:exit:"@ + active@)]
                            + seq![CommandView::SetState(Target::Node { id: node.id }, "_active_state"@, ValueView::String(to@))] =~= head);
                    }
                    match states.get(to.as_str()) {
                        None => true,
                        Some(next) => {
                            let enter = ActionCommand::Emit { signal: signal_text("state:enter:", to.as_str()), args: StrMap::new() };
                            let ghost m3 = out@;
                            push_command(out, enter, Ghost(CommandView::EmitBare("state:enter:"@ + to@)));
                            proof { lemma_appended_trans(start, m3, out@, head, seq![CommandView::EmitBare("state:enter:"@ + to@)]); }
                            let ghost m4 = out@;
                            let ghost pw4 = pending_writes@;
                            if !evaluate_actions(scene, registry, node, &next.on_enter, out, pending_writes, tick) {
                                return false;
                            }
                            let ghost c1 = (actions_commands(scene.nodes@, *node, next.on_enter@, pw4)->0).0;
                            proof { lemma_appended_trans(start, m4, out@, head + seq![CommandView::EmitBare("state:enter:"@ + to@)], c1); }
                            let ghost m5 = out@;
                            let ghost pw5 = pending_writes@;
                            if !evaluate_actions(scene, registry, node, &next.on_tick, out, pending_writes, tick) {
                                return false;
                            }
                            let ghost c2 = (actions_commands(scene.nodes@, *node, next.on_tick@, pw5)->0).0;
                            proof { lemma_appended_trans(start, m5, out@, head + seq![CommandView::EmitBare("state:enter:"@ + to@)] + c1, c2); }
                            true
                        },
                    }
                },
            }
        },
        Behavior::OnTick { actions } => match trigger {
            Trigger::Tick => evaluate_actions(scene, registry, node, actions, out, pending_writes, tick),
            _ => true,
        },
        Behavior::OnSignal { signal, actions } => match trigger {
            Trigger::Signal(s) => if str_eq(s.as_str(), signal.as_str()) {
                evaluate_actions(scene, registry, node, actions, out, pending_writes, tick)
            } else {
                true
            },
            _ => true,
        },
    }
}

proof fn lemma_behaviors_none_extends(nodes: Seq<Node>, node: Node, bs: Seq<Behavior>, j: int, trigger: Option<Seq<char>>, pw: WriteMap)
    requires
        0 <= j <= bs.len(),
        behaviors_commands(nodes, node, bs.take(j), trigger, pw) is None,
    ensures
        behaviors_commands(nodes, node, bs, trigger, pw) is None,
    decreases bs.len(),
{
    if j < bs.len() {
        assert(bs.drop_last().take(j) =~= bs.take(j));
        lemma_behaviors_none_extends(nodes, node, bs.drop_last(), j, trigger, pw);
    } else {
        assert(bs.take(j) =~= bs);
    }
}

pub(crate) fn evaluate_behaviors_inner(scene: &Scene, registry: &NodeRegistry, node: &Node, trigger: &Trigger, tick: u64,
    pending_writes: &mut PendingWrites, cmds: &mut Vec<ActionCommand>) -> (ok: bool)
    ensures
        match behaviors_commands(scene.nodes@, *node, node.behaviors@, trigger_view(*trigger), old(pending_writes)@) {
            None => !ok,
            Some((cs, pw)) => ok && appended(old(cmds)@, final(cmds)@, cs) && final(pending_writes)@ == pw,
        },
{
    let ghost start = cmds@;
    let ghost pw0 = pending_writes@;
    let ghost mut cs: Seq<CommandView> = Seq::empty();
    proof {
        lemma_appended_nothing(cmds@);
        assert(node.behaviors@.take(0) =~= Seq::<Behavior>::empty());
    }
    let mut i: usize = 0;
    while i < node.behaviors.len()
        invariant
            i <= node.behaviors@.len(),
            pw0 == old(pending_writes)@,
            start == old(cmds)@,
            behaviors_commands(scene.nodes@, *node, node.behaviors@.take(i as int), trigger_view(*trigger), pw0) == Some((cs, pending_writes@)),
            appended(start, cmds@, cs),
        decreases node.behaviors.len() - i,
    {
        let ghost before = cmds@;
        let ghost pw_before = pending_writes@;
        let ok = evaluate_behavior(scene, registry, node, &node.behaviors[i], trigger, tick, pending_writes, cmds);
        proof {
            assert(node.behaviors@.take(i + 1).drop_last() =~= node.behaviors@.take(i as int));
            assert(node.behaviors@.take(i + 1).last() == node.behaviors@[i as int]);
        }
        if !ok {
            proof { lemma_behaviors_none_extends(scene.nodes@, *node, node.behaviors@, i + 1, trigger_view(*trigger), pw0); }
            return false;
        }
        proof {
            let (c2, p2) = behavior_commands(scene.nodes@, *node, node.behaviors@[i as int], trigger_view(*trigger), pw_before)->0;
            lemma_appended_trans(start, before, cmds@, cs, c2);
            cs = cs + c2;
        }
        i += 1;
    }
    proof { assert(node.behaviors@.take(node.behaviors@.len() as int) =~= node.behaviors@); }
    true
}

/// The commands `node`'s behaviors issue on `trigger`, in behavior order
/// (see `behaviors_commands`); `None` where an integer addition
/// overflows.
pub fn evaluate_behaviors(scene: &Scene, registry: &NodeRegistry, node: &Node, trigger: Trigger, tick: u64)
    -> (r: Option<Vec<ActionCommand>>)
    ensures
        match behaviors_commands(scene.nodes@, *node, node.behaviors@, trigger_view(trigger), WriteMap::empty()) {
            None => r is None,
            Some((cs, _)) => r matches Some(v) && commands_match(v@, cs),
        },
{
    let mut pending_writes = PendingWrites::new();
    let mut cmds: Vec<ActionCommand> = Vec::new();
    let ok = evaluate_behaviors_inner(scene, registry, node, &trigger, tick, &mut pending_writes, &mut cmds);
    if ok {
        proof { assert(cmds@.skip(0) =~= cmds@); }
        Some(cmds)
    } else {
        None
    }
}


// --------------------------------------------------------------- dry run

/// The value each component of node `node_id` is last written with by
/// the specified commands (state writes and animations through targets
/// that stand for the node; see `writes_to`).
pub open spec fn view_writes(vs: Seq<CommandView>, node_id: Seq<char>) -> Map<Seq<char>, ValueView>
    decreases vs.len(),
{
    if vs.len() == 0 {
        Map::empty()
    } else {
        let m = view_writes(vs.drop_last(), node_id);
        match vs.last() {
            CommandView::SetState(t, k, v) => if writes_to(t, node_id) { m.insert(k, v) } else { m },
            CommandView::StartAnimation(t, k, v, _) => if writes_to(t, node_id) { m.insert(k, v) } else { m },
            _ => m,
        }
    }
}

proof fn lemma_view_writes(cmds: Seq<ActionCommand>, vs: Seq<CommandView>, node_id: Seq<char>)
    requires
        commands_match(cmds, vs),
    ensures
        dry_writes(cmds, node_id) == view_writes(vs, node_id),
    decreases cmds.len(),
{
    if cmds.len() > 0 {
        let n = (cmds.len() - 1) as int;
        assert(commands_match(cmds.drop_last(), vs.drop_last())) by {
            assert forall|i: int| 0 <= i < cmds.drop_last().len() implies command_matches(#[trigger] cmds.drop_last()[i], vs.drop_last()[i]) by {
                assert(command_matches(cmds[i], vs[i]));
            }
        }
        lemma_view_writes(cmds.drop_last(), vs.drop_last(), node_id);
        assert(command_matches(cmds[n], vs[n]));
    }
}

/// The message of a dry run for a node that is not in the scene.
pub open spec fn dry_run_missing(node_id: Seq<char>) -> Seq<char> {
    "dryRun: node \""@ + node_id + "\" not found"@
}

/// The component changes that running `actions` for node `node_id` (the
/// first node with that id, destroyed or not) would make to that node:
/// one per component written, with its last written value, in component
/// order, against the scene as it is. An error when no node has the id;
/// `None` where an integer addition overflows.
pub fn evaluate_dry_run(scene: &Scene, registry: &NodeRegistry, node_id: &str, actions: &[Action])
    -> (r: Option<EngineResult<Vec<ComponentChange>>>)
    ensures
        match first_node(scene.nodes@, node_id@, false) {
            None => r matches Some(Err(EngineError::Internal(m))) && m@ == dry_run_missing(node_id@),
            Some(i) => match actions_commands(scene.nodes@, scene.nodes@[i], actions@, WriteMap::empty()) {
                None => r is None,
                Some((cs, _)) => r matches Some(Ok(changes))
                    && lists_in_order(changes@.map_values(|c: ComponentChange| change_key(c)), view_writes(cs, node_id@).dom())
                    && forall|j: int| 0 <= j < changes@.len() ==> dry_change_is(#[trigger] changes@[j], change_key(changes@[j]),
                        view_writes(cs, node_id@)[change_key(changes@[j])], prior_value(scene.nodes@, node_id@, change_key(changes@[j]))),
            },
        },
{
    proof { lemma_first_node(scene.nodes@, node_id@, false); }
    let idx = match scene.find_index(node_id, false) {
        Some(i) => i,
        None => {
            let mut msg = "dryRun: node \"".to_string();
            push_str(&mut msg, node_id);
            push_str(&mut msg, "\" not found");
            proof { reveal_strlit("dryRun: node \""); reveal_strlit("\" not found"); }
            return Some(Err(EngineError::Internal(msg)));
        },
    };
    let node = &scene.nodes[idx];
    let mut cmds: Vec<ActionCommand> = Vec::new();
    let mut pending_writes = PendingWrites::new();
    let ghost pw0 = pending_writes@;
    let ghost mut cs: Seq<CommandView> = Seq::empty();
    proof {
        lemma_appended_nothing(cmds@);
        assert(actions@.take(0) =~= Seq::<Action>::empty());
    }
    let mut i: usize = 0;
    while i < actions.len()
        invariant
            i <= actions@.len(),
            pw0 == WriteMap::empty(),
            *node == scene.nodes@[idx as int],
            first_node(scene.nodes@, node_id@, false) == Some(idx as int),
            actions_commands(scene.nodes@, *node, actions@.take(i as int), pw0) == Some((cs, pending_writes@)),
            appended(Seq::empty(), cmds@, cs),
        decreases actions.len() - i,
    {
        let ghost before = cmds@;
        let ghost pw_before = pending_writes@;
        let ok = evaluate_action(scene, registry, node, &actions[i], &mut cmds, &mut pending_writes, 0);
        proof {
            assert(actions@.take(i + 1).drop_last() =~= actions@.take(i as int));
            assert(actions@.take(i + 1).last() == actions@[i as int]);
        }
        if !ok {
            proof { lemma_actions_none_extends(scene.nodes@, *node, actions@, i + 1, pw0); }
            return None;
        }
        proof {
            let (c2, p2) = action_commands(scene.nodes@, *node, actions@[i as int], pw_before)->0;
            lemma_appended_trans(Seq::empty(), before, cmds@, cs, c2);
            cs = cs + c2;
        }
        i += 1;
    }
    proof {
        assert(actions@.take(actions@.len() as int) =~= actions@);
        assert(cmds@.skip(0) =~= cmds@);
        lemma_view_writes(cmds@, cs, node_id@);
    }
    let changes = compute_dry_run_diff(scene, node_id, cmds.as_slice());
    Some(Ok(changes))
}


// ------------------------------------------------------------------ laws

/// What a read gives back of a write within one evaluation: after a node
/// writes a converting document to its own component `key`, a reference
/// `self.key` evaluated later in the same evaluation reads the written
/// value, whatever the scene holds.
pub proof fn law_write_then_read_self(nodes: Seq<Node>, node: Node, a: Action, path: Seq<char>, pw: WriteMap)
    requires
        a matches Action::SetState { target: Target::This, key, value } && path == "self."@ + key@
            && doc_component_value(value) is Ok,
    ensures
        action_commands(nodes, node, a, pw) matches Some((_, pw2))
            && crate::expression::ref_value(nodes, node, path, pw2)
                == Ok::<Val, crate::expression::EvalErrorView>(crate::expression::cv_val(doc_component_value(a->SetState_value)->Ok_0)),
{
    reveal_strlit("self.");
    reveal_strlit("self");
    let key = a->SetState_key@;
    assert(path.take(4) =~= "self"@);
    assert(crate::lint::is_first_dot(path, 4)) by {
        assert(path[4] == '.');
        assert(crate::lint::dot_free(path.take(4)));
    }
    crate::lint::lemma_first_dot(path, 4);
    assert(path.skip(5) =~= key);
}

/// The writes `pw` with the set-state commands of `cs` noted in order:
/// each (node id, key) a command sets through a node target takes the
/// value of the last such command.
pub open spec fn writes_after(pw: WriteMap, cs: Seq<CommandView>) -> WriteMap
    decreases cs.len(),
{
    if cs.len() == 0 {
        pw
    } else {
        let p = writes_after(pw, cs.drop_last());
        match cs.last() {
            CommandView::SetState(t, k, v) => note_write(p, t, k, v),
            _ => p,
        }
    }
}

proof fn lemma_writes_after_concat(pw: WriteMap, a: Seq<CommandView>, b: Seq<CommandView>)
    ensures
        writes_after(pw, a + b) == writes_after(writes_after(pw, a), b),
    decreases b.len(),
{
    if b.len() == 0 {
        assert(a + b =~= a);
    } else {
        lemma_writes_after_concat(pw, a, b.drop_last());
        assert((a + b).drop_last() =~= a + b.drop_last());
        assert((a + b).last() == b.last());
    }
}

/// The writes an action leaves are its set-state commands noted in order
/// over the writes it started from: every pending write it changes holds
/// the value of the last command that sets that node's key.
pub proof fn law_action_writes_follow_its_commands(nodes: Seq<Node>, node: Node, a: Action, pw: WriteMap)
    requires
        action_commands(nodes, node, a, pw) is Some,
    ensures
        action_commands(nodes, node, a, pw).unwrap().1 == writes_after(pw, action_commands(nodes, node, a, pw).unwrap().0),
    decreases a, 1nat,
{
    reveal_with_fuel(writes_after, 2);
    match a {
        Action::If { cond, then_, else_ } => {
            vstd::std_specs::vec::axiom_vec_decreases_to_view(then_);
            vstd::std_specs::vec::axiom_vec_decreases_to_view(else_);
            let r = eval_spec(nodes, node, cond, pw)->0;
            if r matches Ok(v) && truthy_val(v) {
                law_actions_writes_follow_their_commands(nodes, node, then_@, pw);
            } else {
                law_actions_writes_follow_their_commands(nodes, node, else_@, pw);
            }
        },
        _ => {},
    }
}

/// `law_action_writes_follow_its_commands` for a list of actions run in
/// order.
pub proof fn law_actions_writes_follow_their_commands(nodes: Seq<Node>, node: Node, xs: Seq<Action>, pw: WriteMap)
    requires
        actions_commands(nodes, node, xs, pw) is Some,
    ensures
        actions_commands(nodes, node, xs, pw).unwrap().1 == writes_after(pw, actions_commands(nodes, node, xs, pw).unwrap().0),
    decreases xs, 0nat,
{
    if xs.len() > 0 {
        let (c1, p1) = actions_commands(nodes, node, xs.drop_last(), pw)->0;
        law_actions_writes_follow_their_commands(nodes, node, xs.drop_last(), pw);
        law_action_writes_follow_its_commands(nodes, node, xs.last(), p1);
        let (c2, p2) = action_commands(nodes, node, xs.last(), p1)->0;
        lemma_writes_after_concat(pw, c1, c2);
    }
}

/// An emit, log, call-system, destroy or spawn action issues exactly one
/// command and leaves the pending writes as they were.
pub proof fn law_plain_action_issues_one_command(nodes: Seq<Node>, node: Node, a: Action, pw: WriteMap)
    requires
        a is Emit || a is Log || a is CallSystem || a is Destroy || a is Spawn,
    ensures
        action_commands(nodes, node, a, pw) matches Some((cs, pw2)) && cs.len() == 1 && pw2 == pw,
{
}

/// A transition taken on a tick to a declared state runs that state's
/// `on_enter` actions and then, in the same tick, its `on_tick` actions:
/// the behavior's commands end with the `on_enter` commands followed by
/// the `on_tick` commands (the latter evaluated against the writes of the
/// former), and the pending writes are those the `on_tick` actions leave.
/// The behavior issues commands exactly when both lists evaluate.
pub proof fn law_transition_runs_enter_then_tick(nodes: Seq<Node>, node: Node, initial: String,
    states: StrMap<StateDef>, k: int, pw: WriteMap)
    requires
        ({
            let active = match node.active_state { Some(a) => a@, None => initial@ };
            states@.contains_key(active)
                && first_transition(nodes, node, states@[active].transitions@, 0, pw) == Some(Some(k))
                && states@.contains_key(states@[active].transitions@[k].to@)
        }),
    ensures
        ({
            let active = match node.active_state { Some(a) => a@, None => initial@ };
            let next = states@[states@[active].transitions@[k].to@];
            let b = Behavior::StateMachine { initial, states };
            (behavior_commands(nodes, node, b, None, pw) is Some <==>
                (actions_commands(nodes, node, next.on_enter@, pw) matches Some((_, p1))
                    && actions_commands(nodes, node, next.on_tick@, p1) is Some))
            && (behavior_commands(nodes, node, b, None, pw) matches Some((cs, p)) ==> {
                let (c1, p1) = actions_commands(nodes, node, next.on_enter@, pw)->0;
                let (c2, p2) = actions_commands(nodes, node, next.on_tick@, p1)->0;
                &&& c1.len() + c2.len() <= cs.len()
                &&& cs.subrange(cs.len() - c2.len(), cs.len() as int) == c2
                &&& cs.subrange(cs.len() - c2.len() - c1.len(), cs.len() - c2.len()) == c1
                &&& p == p2
            })
        }),
{
    let active = match node.active_state { Some(a) => a@, None => initial@ };
    let next = states@[states@[active].transitions@[k].to@];
    let b = Behavior::StateMachine { initial, states };
    if let Some((cs, p)) = behavior_commands(nodes, node, b, None, pw) {
        let (c1, p1) = actions_commands(nodes, node, next.on_enter@, pw)->0;
        let (c2, p2) = actions_commands(nodes, node, next.on_tick@, p1)->0;
        assert(cs.subrange(cs.len() - c2.len(), cs.len() as int) =~= c2);
        assert(cs.subrange(cs.len() - c2.len() - c1.len(), cs.len() - c2.len()) =~= c1);
    }
}

} // verus!
