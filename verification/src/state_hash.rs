//! The scene state hash: the canonical bytes of a scene's JSON document,
//! written straight from the scene, and their `DefaultHasher` digest.
//!
//! A scene serializes as serde derives it: structs as objects of their
//! fields, behaviors, actions and targets tagged by `kind`, components
//! tagged by `type` (with `kind` when transient), expressions untagged, and
//! absent optional node fields left out. The canonical encoding then lists
//! every object's members in ascending key order.

use vstd::prelude::*;
use crate::behavior::{Action, Behavior, Expression, LogLevel, ResultTarget, StateDef, Target, Transition};
use crate::canonical::{canonical, default_hash, hash_bytes, le_bytes, text_bytes, push_le, push_i64, push_text, write_canonical};
use crate::json::{Json, clone_number};
use crate::scene::{Component, ComponentKind, ComponentValue, Node, Scene};
use crate::strmap::{StrMap, keys_ascending};
use crate::lint::opt_text;

verus! {

broadcast use vstd::string::group_string_axioms;

// ------------------------------------------------------------ byte shapes

/// The start of an object of `n` members.
pub open spec fn obj_head(n: nat) -> Seq<u8> {
    seq![5u8] + le_bytes(n, 4)
}

/// The start of an array of `n` items.
pub open spec fn arr_head(n: nat) -> Seq<u8> {
    seq![4u8] + le_bytes(n, 4)
}

/// A string value.
pub open spec fn str_val(s: Seq<char>) -> Seq<u8> {
    seq![3u8] + text_bytes(s)
}

/// A member: its key, then its value.
pub open spec fn field(k: Seq<char>, v: Seq<u8>) -> Seq<u8> {
    text_bytes(k) + v
}

/// An optional string: the string, or `null`.
pub open spec fn opt_str_val(o: Option<String>) -> Seq<u8> {
    match o {
        Some(s) => str_val(s@),
        None => seq![0u8],
    }
}

// ------------------------------------------------------------- targets

/// A target: `{"kind": ...}` with its id or filter.
#[verifier::opaque]
pub open spec fn target_val(t: Target) -> Seq<u8> {
    match t {
        Target::This => obj_head(1) + field("kind"@, str_val("self"@)),
        Target::Node { id } => obj_head(2) + field("id"@, str_val(id@)) + field("kind"@, str_val("node"@)),
        Target::Parent => obj_head(1) + field("kind"@, str_val("parent"@)),
        Target::Children { filter } => obj_head(2) + field("filter"@, opt_str_val(filter)) + field("kind"@, str_val("children"@)),
    }
}

/// A log level, by its lowercase name.
pub open spec fn level_val(l: LogLevel) -> Seq<u8> {
    match l {
        LogLevel::Debug => str_val("debug"@),
        LogLevel::Info => str_val("info"@),
        LogLevel::Warning => str_val("warning"@),
        LogLevel::Error => str_val("error"@),
    }
}

/// Where a system's result goes, or `null`.
pub open spec fn result_val(r: Option<ResultTarget>) -> Seq<u8> {
    match r {
        Some(t) => obj_head(2) + field("key"@, str_val(t.key@)) + field("on"@, target_val(t.on)),
        None => seq![0u8],
    }
}

/// A map of documents, as an object.
pub open spec fn docs_val(m: StrMap<Json>) -> Seq<u8> {
    canonical(Json::Object(m))
}

// --------------------------------------------------------- expressions

/// The operator key of an operator expression.
pub open spec fn op_key(e: Expression) -> Seq<char> {
    match e {
        Expression::Eq { .. } => "eq"@,
        Expression::Neq { .. } => "neq"@,
        Expression::Lt { .. } => "lt"@,
        Expression::Gt { .. } => "gt"@,
        Expression::Add { .. } => "add"@,
        Expression::Sub { .. } => "sub"@,
        _ => Seq::empty(),
    }
}

/// An expression: a bare token as a string, a reference as `{"ref": ..}`,
/// an operator as `{op: [operands]}`, a literal as itself.
#[verifier::opaque]
pub open spec fn expr_val(e: Expression) -> Seq<u8>
    decreases e, 1nat, 0nat,
{
    match e {
        Expression::Bare(s) => str_val(s@),
        Expression::Ref { path } => obj_head(1) + field("ref"@, str_val(path@)),
        Expression::Literal(j) => canonical(j),
        Expression::Eq { eq: xs } => obj_head(1) + field(op_key(e), arr_head(xs@.len()) + operands_val(e, xs@.len())),
        Expression::Neq { neq: xs } => obj_head(1) + field(op_key(e), arr_head(xs@.len()) + operands_val(e, xs@.len())),
        Expression::Lt { lt: xs } => obj_head(1) + field(op_key(e), arr_head(xs@.len()) + operands_val(e, xs@.len())),
        Expression::Gt { gt: xs } => obj_head(1) + field(op_key(e), arr_head(xs@.len()) + operands_val(e, xs@.len())),
        Expression::Add { add: xs } => obj_head(1) + field(op_key(e), arr_head(xs@.len()) + operands_val(e, xs@.len())),
        Expression::Sub { sub: xs } => obj_head(1) + field(op_key(e), arr_head(xs@.len()) + operands_val(e, xs@.len())),
    }
}

/// The first `k` operands of an operator expression.
pub open spec fn operands_val(owner: Expression, k: nat) -> Seq<u8>
    decreases owner, 0nat, k,
{
    match owner {
        Expression::Eq { eq: xs } | Expression::Neq { neq: xs } | Expression::Lt { lt: xs }
        | Expression::Gt { gt: xs } | Expression::Add { add: xs } | Expression::Sub { sub: xs } => {
            if k == 0 || k > xs@.len() {
                Seq::empty()
            } else {
                proof { vstd::std_specs::vec::axiom_vec_index_decreases(xs, k - 1); }
                operands_val(owner, (k - 1) as nat) + expr_val(xs@[k - 1])
            }
        },
        _ => Seq::empty(),
    }
}

/// A transition: `{"to": .., "when": ..}`.
#[verifier::opaque]
pub open spec fn transition_val(t: Transition) -> Seq<u8> {
    obj_head(2) + field("to"@, str_val(t.to@)) + field("when"@, expr_val(t.when))
}

/// The first `k` transitions of a list.
pub open spec fn transitions_val(ts: Seq<Transition>, k: nat) -> Seq<u8>
    decreases k,
{
    if k == 0 || k > ts.len() {
        Seq::empty()
    } else {
        transitions_val(ts, (k - 1) as nat) + transition_val(ts[k - 1])
    }
}

// ----------------------------------------------- actions and behaviors

/// An action: its fields and its `kind`, in key order.
#[verifier::opaque]
pub open spec fn action_val(a: Action) -> Seq<u8>
    decreases a, 1nat, 0nat,
{
    match a {
        Action::SetState { target, key, value } => obj_head(4) + field("key"@, str_val(key@))
            + field("kind"@, str_val("set_state"@)) + field("target"@, target_val(target)) + field("value"@, canonical(value)),
        Action::Emit { signal, args } => obj_head(3) + field("args"@, docs_val(args))
            + field("kind"@, str_val("emit"@)) + field("signal"@, str_val(signal@)),
        Action::Destroy { target } => obj_head(2) + field("kind"@, str_val("destroy"@)) + field("target"@, target_val(target)),
        Action::Spawn { node_type, parent, components, behaviors } => obj_head(5)
            + field("behaviors"@, arr_head(behaviors@.len()) + action_list_val(a, 2, behaviors@.len()))
            + field("components"@, docs_val(components)) + field("kind"@, str_val("spawn"@))
            + field("parent"@, target_val(parent)) + field("type"@, str_val(node_type@)),
        Action::If { cond, then_, else_ } => obj_head(4) + field("cond"@, expr_val(cond))
            + field("else"@, arr_head(else_@.len()) + action_list_val(a, 1, else_@.len()))
            + field("kind"@, str_val("if"@))
            + field("then"@, arr_head(then_@.len()) + action_list_val(a, 0, then_@.len())),
        Action::Move { target, key, by } => obj_head(4) + field("by"@, canonical(by)) + field("key"@, str_val(key@))
            + field("kind"@, str_val("move"@)) + field("target"@, target_val(target)),
        Action::Animate { target, key, to, duration } => obj_head(5)
            + field("duration"@, canonical(Json::Int(duration as i64))) + field("key"@, str_val(key@))
            + field("kind"@, str_val("animate"@)) + field("target"@, target_val(target)) + field("to"@, canonical(to)),
        Action::Log { level, message, fields } => obj_head(4) + field("fields"@, docs_val(fields))
            + field("kind"@, str_val("log"@)) + field("level"@, level_val(level)) + field("message"@, str_val(message@)),
        Action::CallSystem { system, args, result_in } => obj_head(4) + field("args"@, docs_val(args))
            + field("kind"@, str_val("call_system"@)) + field("result_in"@, result_val(result_in))
            + field("system"@, str_val(system@)),
    }
}

/// The first `k` items of a list inside an action: `then` (0), `else` (1)
/// of an `if`, or the behaviors (2) of a `spawn`.
pub open spec fn action_list_val(owner: Action, which: nat, k: nat) -> Seq<u8>
    decreases owner, 0nat, k,
{
    match owner {
        Action::If { then_, else_, .. } => {
            if which == 0 {
                if k == 0 || k > then_@.len() {
                    Seq::empty()
                } else {
                    proof { vstd::std_specs::vec::axiom_vec_index_decreases(then_, k - 1); }
                    action_list_val(owner, which, (k - 1) as nat) + action_val(then_@[k - 1])
                }
            } else if which == 1 {
                if k == 0 || k > else_@.len() {
                    Seq::empty()
                } else {
                    proof { vstd::std_specs::vec::axiom_vec_index_decreases(else_, k - 1); }
                    action_list_val(owner, which, (k - 1) as nat) + action_val(else_@[k - 1])
                }
            } else {
                Seq::empty()
            }
        },
        Action::Spawn { behaviors, .. } => {
            if which != 2 || k == 0 || k > behaviors@.len() {
                Seq::empty()
            } else {
                proof { vstd::std_specs::vec::axiom_vec_index_decreases(behaviors, k - 1); }
                action_list_val(owner, which, (k - 1) as nat) + behavior_val(behaviors@[k - 1])
            }
        },
        _ => Seq::empty(),
    }
}

/// A behavior: its fields and its `kind`, in key order.
#[verifier::opaque]
pub open spec fn behavior_val(b: Behavior) -> Seq<u8>
    decreases b, 1nat, 0nat,
{
    match b {
        Behavior::StateMachine { initial, states } => obj_head(3) + field("initial"@, str_val(initial@))
            + field("kind"@, str_val("state_machine"@))
            + field("states"@, obj_head(states.key_seq().len()) + behavior_list_val(b, states.key_seq().len())),
        Behavior::OnTick { actions } => obj_head(2)
            + field("actions"@, arr_head(actions@.len()) + behavior_list_val(b, actions@.len()))
            + field("kind"@, str_val("on_tick"@)),
        Behavior::OnSignal { signal, actions } => obj_head(3)
            + field("actions"@, arr_head(actions@.len()) + behavior_list_val(b, actions@.len()))
            + field("kind"@, str_val("on_signal"@)) + field("signal"@, str_val(signal@)),
    }
}

/// The first `k` states (name, then state) of a state machine, or the
/// first `k` actions of a behavior's action list.
pub open spec fn behavior_list_val(owner: Behavior, k: nat) -> Seq<u8>
    decreases owner, 0nat, k,
{
    match owner {
        Behavior::StateMachine { states, .. } => {
            if k == 0 || k > states.key_seq().len() {
                Seq::empty()
            } else {
                proof { states.lemma_value_decreases(k - 1); }
                behavior_list_val(owner, (k - 1) as nat) + field(states.key_seq()[k - 1], state_val(states.value_seq()[k - 1]))
            }
        },
        Behavior::OnTick { actions } | Behavior::OnSignal { actions, .. } => {
            if k == 0 || k > actions@.len() {
                Seq::empty()
            } else {
                proof { vstd::std_specs::vec::axiom_vec_index_decreases(actions, k - 1); }
                behavior_list_val(owner, (k - 1) as nat) + action_val(actions@[k - 1])
            }
        },
    }
}

/// A state: `{"on_enter": [..], "on_tick": [..], "transitions": [..]}`.
#[verifier::opaque]
pub open spec fn state_val(s: StateDef) -> Seq<u8>
    decreases s, 1nat, 0nat,
{
    obj_head(3)
        + field("on_enter"@, arr_head(s.on_enter@.len()) + state_list_val(s, 0, s.on_enter@.len()))
        + field("on_tick"@, arr_head(s.on_tick@.len()) + state_list_val(s, 1, s.on_tick@.len()))
        + field("transitions"@, arr_head(s.transitions@.len()) + transitions_val(s.transitions@, s.transitions@.len()))
}

/// The first `k` actions of a state's `on_enter` (0) or `on_tick` (1).
pub open spec fn state_list_val(owner: StateDef, which: nat, k: nat) -> Seq<u8>
    decreases owner, 0nat, k,
{
    let xs = if which == 0 { owner.on_enter } else { owner.on_tick };
    if which > 1 || k == 0 || k > xs@.len() {
        Seq::empty()
    } else {
        proof {
            if which == 0 {
                vstd::std_specs::vec::axiom_vec_index_decreases(owner.on_enter, k - 1);
            } else {
                vstd::std_specs::vec::axiom_vec_index_decreases(owner.on_tick, k - 1);
            }
        }
        state_list_val(owner, which, (k - 1) as nat) + action_val(xs@[k - 1])
    }
}

// ------------------------------------------------------- nodes, scenes

/// The first `k` numbers of a vector, each as a number.
pub open spec fn numbers_val(xs: Seq<serde_json::Number>, k: nat) -> Seq<u8>
    decreases k,
{
    if k == 0 || k > xs.len() {
        Seq::empty()
    } else {
        numbers_val(xs, (k - 1) as nat) + canonical(Json::Float(xs[k - 1]))
    }
}

/// The members a component value gives: `type`, then `value` (none for
/// `Nil`).
pub open spec fn tagged_val(v: ComponentValue) -> Seq<u8> {
    match v {
        ComponentValue::Nil => field("type"@, str_val("Nil"@)),
        ComponentValue::Bool(b) => field("type"@, str_val("Bool"@)) + field("value"@, canonical(Json::Bool(b))),
        ComponentValue::Int(i) => field("type"@, str_val("Int"@)) + field("value"@, canonical(Json::Int(i))),
        ComponentValue::Float(n) => field("type"@, str_val("Float"@)) + field("value"@, canonical(Json::Float(n))),
        ComponentValue::String(s) => field("type"@, str_val("String"@)) + field("value"@, str_val(s@)),
        ComponentValue::Vec2(xs) => field("type"@, str_val("Vec2"@)) + field("value"@, arr_head(2) + numbers_val(xs@, 2)),
        ComponentValue::Vec3(xs) => field("type"@, str_val("Vec3"@)) + field("value"@, arr_head(3) + numbers_val(xs@, 3)),
        ComponentValue::Rect(xs) => field("type"@, str_val("Rect"@)) + field("value"@, arr_head(4) + numbers_val(xs@, 4)),
    }
}

/// A component: its value's members, after `"kind": "transient"` when
/// it is transient.
#[verifier::opaque]
pub open spec fn component_val(c: Component) -> Seq<u8> {
    let n: nat = if c.value is Nil { 1 } else { 2 };
    match c.kind {
        ComponentKind::Regular => obj_head(n) + tagged_val(c.value),
        ComponentKind::Transient => obj_head(n + 1) + field("kind"@, str_val("transient"@)) + tagged_val(c.value),
    }
}

/// The first `k` components of a table (key, then component).
pub open spec fn components_val(m: StrMap<Component>, k: nat) -> Seq<u8>
    decreases k,
{
    if k == 0 || k > m.key_seq().len() {
        Seq::empty()
    } else {
        components_val(m, (k - 1) as nat) + field(m.key_seq()[k - 1], component_val(m.value_seq()[k - 1]))
    }
}

/// The first `k` behaviors of a list.
pub open spec fn behaviors_val(bs: Seq<Behavior>, k: nat) -> Seq<u8>
    decreases k,
{
    if k == 0 || k > bs.len() {
        Seq::empty()
    } else {
        behaviors_val(bs, (k - 1) as nat) + behavior_val(bs[k - 1])
    }
}

/// A member for an optional string field: nothing when absent.
pub open spec fn opt_field(k: Seq<char>, o: Option<String>) -> Seq<u8> {
    match o {
        Some(s) => field(k, str_val(s@)),
        None => Seq::empty(),
    }
}

/// How many of a node's optional fields are present.
pub open spec fn present(o: Option<String>) -> nat {
    if o is Some { 1 } else { 0 }
}

/// A node: its fields in key order, the absent optional ones left out
/// (and the destroyed flag never written).
#[verifier::opaque]
pub open spec fn node_val(n: Node) -> Seq<u8> {
    obj_head(4 + present(n.active_state) + present(n.lua_class) + present(n.parent))
        + opt_field("active_state"@, n.active_state)
        + field("behaviors"@, arr_head(n.behaviors@.len()) + behaviors_val(n.behaviors@, n.behaviors@.len()))
        + field("components"@, obj_head(n.components.key_seq().len()) + components_val(n.components, n.components.key_seq().len()))
        + field("id"@, str_val(n.id@))
        + opt_field("lua_class"@, n.lua_class)
        + opt_field("parent"@, n.parent)
        + field("type"@, str_val(n.node_type@))
}

/// The first `k` nodes of a list.
pub open spec fn nodes_val(ns: Seq<Node>, k: nat) -> Seq<u8>
    decreases k,
{
    if k == 0 || k > ns.len() {
        Seq::empty()
    } else {
        nodes_val(ns, (k - 1) as nat) + node_val(ns[k - 1])
    }
}

/// The `serde_json::Number` that `From<u64>` makes of `n`.
pub uninterp spec fn number_of_u64(n: u64) -> serde_json::Number;

/// `serde_json::Number::from(n)` for a `u64`.
#[verifier::external_body]
fn number_from_u64(n: u64) -> (r: serde_json::Number)
    ensures
        r == number_of_u64(n),
{
    serde_json::Number::from(n)
}

/// The canonical bytes of a scene's JSON document.
pub open spec fn scene_bytes(s: Scene) -> Seq<u8> {
    obj_head(4) + field("kind"@, str_val(s.kind@)) + field("name"@, str_val(s.name@))
        + field("nodes"@, arr_head(s.nodes@.len()) + nodes_val(s.nodes@, s.nodes@.len()))
        + field("spawn_counter"@, canonical(Json::Float(number_of_u64(s.spawn_counter))))
}

// ------------------------------------------------------------- writers

fn put_obj_head(out: &mut Vec<u8>, n: u64)
    ensures
        final(out)@ == old(out)@ + obj_head(n as nat),
{
    out.push(5u8);
    push_le(out, n, 4);
    assert(out@ =~= old(out)@ + obj_head(n as nat));
}

fn put_arr_head(out: &mut Vec<u8>, n: usize)
    ensures
        final(out)@ == old(out)@ + arr_head(n as nat),
{
    out.push(4u8);
    push_le(out, n as u64, 4);
    assert(out@ =~= old(out)@ + arr_head(n as nat));
}

fn put_str(out: &mut Vec<u8>, s: &str)
    ensures
        final(out)@ == old(out)@ + str_val(s@),
{
    out.push(3u8);
    push_text(out, s);
    assert(out@ =~= old(out)@ + str_val(s@));
}

fn put_field_str(out: &mut Vec<u8>, k: &str, s: &str)
    ensures
        final(out)@ == old(out)@ + field(k@, str_val(s@)),
{
    push_text(out, k);
    put_str(out, s);
    assert(out@ =~= old(out)@ + field(k@, str_val(s@)));
}

fn put_opt_str(out: &mut Vec<u8>, o: &Option<String>)
    ensures
        final(out)@ == old(out)@ + opt_str_val(*o),
{
    match o {
        Some(s) => put_str(out, s.as_str()),
        None => out.push(0u8),
    }
    assert(out@ =~= old(out)@ + opt_str_val(*o));
}

fn put_target(out: &mut Vec<u8>, t: &Target)
    ensures
        final(out)@ == old(out)@ + target_val(*t),
{
    match t {
        Target::This => {
            put_obj_head(out, 1);
            put_field_str(out, "kind", "self");
        },
        Target::Node { id } => {
            put_obj_head(out, 2);
            put_field_str(out, "id", id.as_str());
            put_field_str(out, "kind", "node");
        },
        Target::Parent => {
            put_obj_head(out, 1);
            put_field_str(out, "kind", "parent");
        },
        Target::Children { filter } => {
            put_obj_head(out, 2);
            push_text(out, "filter");
            put_opt_str(out, filter);
            put_field_str(out, "kind", "children");
        },
    }
    proof { reveal(target_val); }
    assert(out@ =~= old(out)@ + target_val(*t));
}

fn put_level(out: &mut Vec<u8>, l: LogLevel)
    ensures
        final(out)@ == old(out)@ + level_val(l),
{
    match l {
        LogLevel::Debug => put_str(out, "debug"),
        LogLevel::Info => put_str(out, "info"),
        LogLevel::Warning => put_str(out, "warning"),
        LogLevel::Error => put_str(out, "error"),
    }
}

fn put_result(out: &mut Vec<u8>, r: &Option<ResultTarget>)
    ensures
        final(out)@ == old(out)@ + result_val(*r),
{
    match r {
        Some(t) => {
            put_obj_head(out, 2);
            put_field_str(out, "key", t.key.as_str());
            push_text(out, "on");
            put_target(out, &t.on);
        },
        None => out.push(0u8),
    }
    assert(out@ =~= old(out)@ + result_val(*r));
}

#[verifier::loop_isolation(false)]
fn put_docs(out: &mut Vec<u8>, m: &StrMap<Json>)
    ensures
        final(out)@ == old(out)@ + docs_val(*m),
{
    let ghost owner = Json::Object(*m);
    out.push(5u8);
    let n = m.len();
    push_le(out, n as u64, 4);
    let ghost start = out@;
    let mut i: usize = 0;
    while i < n
        invariant
            i <= n,
            n == m.key_seq().len(),
            out@ == start + crate::canonical::members_bytes(owner, i as nat),
        decreases n - i,
    {
        push_text(out, m.key_at(i).as_str());
        write_canonical(out, m.value_at(i));
        assert(out@ =~= start + crate::canonical::members_bytes(owner, (i + 1) as nat));
        i += 1;
    }
    assert(out@ =~= old(out)@ + docs_val(*m));
}

/// The operator key of an operator expression.
fn op_name(e: &Expression) -> (r: &'static str)
    ensures
        r@ == op_key(*e),
{
    proof {
        reveal_strlit("eq"); reveal_strlit("neq"); reveal_strlit("lt"); reveal_strlit("gt");
        reveal_strlit("add"); reveal_strlit("sub"); reveal_strlit("");
    }
    match e {
        Expression::Eq { .. } => "eq",
        Expression::Neq { .. } => "neq",
        Expression::Lt { .. } => "lt",
        Expression::Gt { .. } => "gt",
        Expression::Add { .. } => "add",
        Expression::Sub { .. } => "sub",
        _ => "",
    }
}

#[verifier::loop_isolation(false)]
fn put_expr(out: &mut Vec<u8>, e: &Expression)
    ensures
        final(out)@ == old(out)@ + expr_val(*e),
    decreases e,
{
    proof { reveal(expr_val); }
    match e {
        Expression::Bare(s) => put_str(out, s.as_str()),
        Expression::Ref { path } => {
            put_obj_head(out, 1);
            put_field_str(out, "ref", path.as_str());
            assert(out@ =~= old(out)@ + expr_val(*e));
        },
        Expression::Literal(j) => write_canonical(out, j),
        Expression::Eq { eq: xs } | Expression::Neq { neq: xs } | Expression::Lt { lt: xs }
        | Expression::Gt { gt: xs } | Expression::Add { add: xs } | Expression::Sub { sub: xs } => {
            put_obj_head(out, 1);
            push_text(out, op_name(e));
            put_arr_head(out, xs.len());
            let ghost start = out@;
            let mut i: usize = 0;
            while i < xs.len()
                invariant
                    i <= xs@.len(),
                    out@ == start + operands_val(*e, i as nat),
                decreases xs.len() - i,
            {
                proof { vstd::std_specs::vec::axiom_vec_index_decreases(*xs, i as int); }
                put_expr(out, &xs[i]);
                assert(out@ =~= start + operands_val(*e, (i + 1) as nat));
                i += 1;
            }
            assert(out@ =~= old(out)@ + expr_val(*e));
        },
    }
}

fn put_transition(out: &mut Vec<u8>, t: &Transition)
    ensures
        final(out)@ == old(out)@ + transition_val(*t),
{
    put_obj_head(out, 2);
    put_field_str(out, "to", t.to.as_str());
    push_text(out, "when");
    put_expr(out, &t.when);
    proof { reveal(transition_val); }
    assert(out@ =~= old(out)@ + transition_val(*t));
}

#[verifier::loop_isolation(false)]
#[verifier::spinoff_prover]
#[verifier::rlimit(80)]
fn put_action(out: &mut Vec<u8>, a: &Action)
    ensures
        final(out)@ == old(out)@ + action_val(*a),
    decreases a, 1nat,
{
    match a {
        Action::SetState { target, key, value } => {
            put_obj_head(out, 4);
            put_field_str(out, "key", key.as_str());
            put_field_str(out, "kind", "set_state");
            push_text(out, "target");
            put_target(out, target);
            push_text(out, "value");
            write_canonical(out, value);
        },
        Action::Emit { signal, args } => {
            put_obj_head(out, 3);
            push_text(out, "args");
            put_docs(out, args);
            put_field_str(out, "kind", "emit");
            put_field_str(out, "signal", signal.as_str());
        },
        Action::Destroy { target } => {
            put_obj_head(out, 2);
            put_field_str(out, "kind", "destroy");
            push_text(out, "target");
            put_target(out, target);
        },
        Action::Spawn { node_type, parent, components, behaviors } => {
            put_obj_head(out, 5);
            push_text(out, "behaviors");
            put_arr_head(out, behaviors.len());
            let ghost start = out@;
            let mut i: usize = 0;
            while i < behaviors.len()
                invariant
                    i <= behaviors@.len(),
                    out@ == start + action_list_val(*a, 2, i as nat),
                decreases behaviors.len() - i,
            {
                proof { vstd::std_specs::vec::axiom_vec_index_decreases(*behaviors, i as int); }
                put_behavior(out, &behaviors[i]);
                assert(out@ =~= start + action_list_val(*a, 2, (i + 1) as nat)) by { reveal(action_val); }
                i += 1;
            }
            push_text(out, "components");
            put_docs(out, components);
            put_field_str(out, "kind", "spawn");
            push_text(out, "parent");
            put_target(out, parent);
            put_field_str(out, "type", node_type.as_str());
        },
        Action::If { cond, then_, else_ } => {
            put_obj_head(out, 4);
            push_text(out, "cond");
            put_expr(out, cond);
            push_text(out, "else");
            put_arr_head(out, else_.len());
            let ghost start = out@;
            let mut i: usize = 0;
            while i < else_.len()
                invariant
                    i <= else_@.len(),
                    out@ == start + action_list_val(*a, 1, i as nat),
                decreases else_.len() - i,
            {
                proof { vstd::std_specs::vec::axiom_vec_index_decreases(*else_, i as int); }
                put_action(out, &else_[i]);
                assert(out@ =~= start + action_list_val(*a, 1, (i + 1) as nat)) by { reveal(action_val); }
                i += 1;
            }
            put_field_str(out, "kind", "if");
            push_text(out, "then");
            put_arr_head(out, then_.len());
            let ghost start2 = out@;
            let mut j: usize = 0;
            while j < then_.len()
                invariant
                    j <= then_@.len(),
                    out@ == start2 + action_list_val(*a, 0, j as nat),
                decreases then_.len() - j,
            {
                proof { vstd::std_specs::vec::axiom_vec_index_decreases(*then_, j as int); }
                put_action(out, &then_[j]);
                assert(out@ =~= start2 + action_list_val(*a, 0, (j + 1) as nat)) by { reveal(action_val); }
                j += 1;
            }
        },
        Action::Move { target, key, by } => {
            put_obj_head(out, 4);
            push_text(out, "by");
            write_canonical(out, by);
            put_field_str(out, "key", key.as_str());
            put_field_str(out, "kind", "move");
            push_text(out, "target");
            put_target(out, target);
        },
        Action::Animate { target, key, to, duration } => {
            put_obj_head(out, 5);
            push_text(out, "duration");
            write_canonical(out, &Json::Int(*duration as i64));
            put_field_str(out, "key", key.as_str());
            put_field_str(out, "kind", "animate");
            push_text(out, "target");
            put_target(out, target);
            push_text(out, "to");
            write_canonical(out, to);
        },
        Action::Log { level, message, fields } => {
            put_obj_head(out, 4);
            push_text(out, "fields");
            put_docs(out, fields);
            put_field_str(out, "kind", "log");
            push_text(out, "level");
            put_level(out, *level);
            put_field_str(out, "message", message.as_str());
        },
        Action::CallSystem { system, args, result_in } => {
            put_obj_head(out, 4);
            push_text(out, "args");
            put_docs(out, args);
            put_field_str(out, "kind", "call_system");
            push_text(out, "result_in");
            put_result(out, result_in);
            put_field_str(out, "system", system.as_str());
        },
    }
    proof { reveal(action_val); }
    assert(out@ =~= old(out)@ + action_val(*a));
}

#[verifier::loop_isolation(false)]
#[verifier::spinoff_prover]
#[verifier::rlimit(80)]
fn put_behavior(out: &mut Vec<u8>, b: &Behavior)
    ensures
        final(out)@ == old(out)@ + behavior_val(*b),
    decreases b, 1nat,
{
    match b {
        Behavior::StateMachine { initial, states } => {
            put_obj_head(out, 3);
            put_field_str(out, "initial", initial.as_str());
            put_field_str(out, "kind", "state_machine");
            push_text(out, "states");
            let n = states.len();
            put_obj_head(out, n as u64);
            let ghost start = out@;
            let mut i: usize = 0;
            while i < n
                invariant
                    i <= n,
                    n == states.key_seq().len(),
                    out@ == start + behavior_list_val(*b, i as nat),
                decreases n - i,
            {
                push_text(out, states.key_at(i).as_str());
                proof { states.lemma_value_decreases(i as int); }
                put_state(out, states.value_at(i));
                assert(out@ =~= start + behavior_list_val(*b, (i + 1) as nat)) by { reveal(action_val); }
                i += 1;
            }
        },
        Behavior::OnTick { actions } => {
            put_obj_head(out, 2);
            push_text(out, "actions");
            put_arr_head(out, actions.len());
            let ghost start = out@;
            let mut i: usize = 0;
            while i < actions.len()
                invariant
                    i <= actions@.len(),
                    out@ == start + behavior_list_val(*b, i as nat),
                decreases actions.len() - i,
            {
                proof { vstd::std_specs::vec::axiom_vec_index_decreases(*actions, i as int); }
                put_action(out, &actions[i]);
                assert(out@ =~= start + behavior_list_val(*b, (i + 1) as nat)) by { reveal(action_val); }
                i += 1;
            }
            put_field_str(out, "kind", "on_tick");
        },
        Behavior::OnSignal { signal, actions } => {
            put_obj_head(out, 3);
            push_text(out, "actions");
            put_arr_head(out, actions.len());
            let ghost start = out@;
            let mut i: usize = 0;
            while i < actions.len()
                invariant
                    i <= actions@.len(),
                    out@ == start + behavior_list_val(*b, i as nat),
                decreases actions.len() - i,
            {
                proof { vstd::std_specs::vec::axiom_vec_index_decreases(*actions, i as int); }
                put_action(out, &actions[i]);
                assert(out@ =~= start + behavior_list_val(*b, (i + 1) as nat)) by { reveal(action_val); }
                i += 1;
            }
            put_field_str(out, "kind", "on_signal");
            put_field_str(out, "signal", signal.as_str());
        },
    }
    proof { reveal(behavior_val); }
    assert(out@ =~= old(out)@ + behavior_val(*b));
}

/// Writes a state's `on_enter` (0) or `on_tick` (1) list.
#[verifier::loop_isolation(false)]
fn put_state_actions(out: &mut Vec<u8>, s: &StateDef, which: usize)
    requires
        which <= 1,
    ensures
        final(out)@ == old(out)@ + arr_head((if which == 0 { s.on_enter@.len() } else { s.on_tick@.len() }) as nat)
            + state_list_val(*s, which as nat, (if which == 0 { s.on_enter@.len() } else { s.on_tick@.len() }) as nat),
    decreases s, 0nat,
{
    let xs = if which == 0 { &s.on_enter } else { &s.on_tick };
    put_arr_head(out, xs.len());
    let ghost start = out@;
    let mut i: usize = 0;
    while i < xs.len()
        invariant
            i <= xs@.len(),
            out@ == start + state_list_val(*s, which as nat, i as nat),
        decreases xs.len() - i,
    {
        proof {
            if which == 0 {
                vstd::std_specs::vec::axiom_vec_index_decreases(s.on_enter, i as int);
            } else {
                vstd::std_specs::vec::axiom_vec_index_decreases(s.on_tick, i as int);
            }
        }
        put_action(out, &xs[i]);
        assert(out@ =~= start + state_list_val(*s, which as nat, (i + 1) as nat)) by { reveal(action_val); }
        i += 1;
    }
}

/// Writes a list of transitions.
fn put_transitions(out: &mut Vec<u8>, ts: &Vec<Transition>)
    ensures
        final(out)@ == old(out)@ + arr_head(ts@.len()) + transitions_val(ts@, ts@.len()),
{
    put_arr_head(out, ts.len());
    let ghost start = out@;
    let mut k: usize = 0;
    while k < ts.len()
        invariant
            k <= ts@.len(),
            out@ == start + transitions_val(ts@, k as nat),
        decreases ts.len() - k,
    {
        put_transition(out, &ts[k]);
        assert(out@ =~= start + transitions_val(ts@, (k + 1) as nat));
        k += 1;
    }
}

fn put_state(out: &mut Vec<u8>, s: &StateDef)
    ensures
        final(out)@ == old(out)@ + state_val(*s),
    decreases s, 1nat,
{
    put_obj_head(out, 3);
    push_text(out, "on_enter");
    put_state_actions(out, s, 0);
    push_text(out, "on_tick");
    put_state_actions(out, s, 1);
    push_text(out, "transitions");
    put_transitions(out, &s.transitions);
    proof { lemma_state_val(*s); }
    assert(out@ =~= old(out)@ + state_val(*s));
}

proof fn lemma_state_val(s: StateDef)
    ensures
        state_val(s) == obj_head(3)
            + field("on_enter"@, arr_head(s.on_enter@.len()) + state_list_val(s, 0, s.on_enter@.len()))
            + field("on_tick"@, arr_head(s.on_tick@.len()) + state_list_val(s, 1, s.on_tick@.len()))
            + field("transitions"@, arr_head(s.transitions@.len()) + transitions_val(s.transitions@, s.transitions@.len())),
{
    reveal(state_val);
}

fn put_numbers(out: &mut Vec<u8>, xs: &[serde_json::Number])
    ensures
        final(out)@ == old(out)@ + arr_head(xs@.len()) + numbers_val(xs@, xs@.len()),
{
    put_arr_head(out, xs.len());
    let ghost start = out@;
    let mut i: usize = 0;
    while i < xs.len()
        invariant
            i <= xs@.len(),
            out@ == start + numbers_val(xs@, i as nat),
        decreases xs.len() - i,
    {
        write_canonical(out, &Json::Float(clone_number(&xs[i])));
        assert(out@ =~= start + numbers_val(xs@, (i + 1) as nat));
        i += 1;
    }
}

fn put_tagged(out: &mut Vec<u8>, v: &ComponentValue)
    ensures
        final(out)@ == old(out)@ + tagged_val(*v),
{
    match v {
        ComponentValue::Nil => put_field_str(out, "type", "Nil"),
        ComponentValue::Bool(b) => {
            put_field_str(out, "type", "Bool");
            push_text(out, "value");
            write_canonical(out, &Json::Bool(*b));
        },
        ComponentValue::Int(i) => {
            put_field_str(out, "type", "Int");
            push_text(out, "value");
            write_canonical(out, &Json::Int(*i));
        },
        ComponentValue::Float(n) => {
            put_field_str(out, "type", "Float");
            push_text(out, "value");
            write_canonical(out, &Json::Float(clone_number(n)));
        },
        ComponentValue::String(t) => {
            put_field_str(out, "type", "String");
            push_text(out, "value");
            put_str(out, t.as_str());
        },
        ComponentValue::Vec2(xs) => {
            put_field_str(out, "type", "Vec2");
            push_text(out, "value");
            put_numbers(out, xs.as_slice());
        },
        ComponentValue::Vec3(xs) => {
            put_field_str(out, "type", "Vec3");
            push_text(out, "value");
            put_numbers(out, xs.as_slice());
        },
        ComponentValue::Rect(xs) => {
            put_field_str(out, "type", "Rect");
            push_text(out, "value");
            put_numbers(out, xs.as_slice());
        },
    }
    assert(out@ =~= old(out)@ + tagged_val(*v));
}

fn put_component(out: &mut Vec<u8>, c: &Component)
    ensures
        final(out)@ == old(out)@ + component_val(*c),
{
    let n: u64 = match c.value {
        ComponentValue::Nil => 1,
        _ => 2,
    };
    match c.kind {
        ComponentKind::Regular => {
            put_obj_head(out, n);
        },
        ComponentKind::Transient => {
            put_obj_head(out, n + 1);
            put_field_str(out, "kind", "transient");
        },
    }
    put_tagged(out, &c.value);
    proof { reveal(component_val); }
    assert(out@ =~= old(out)@ + component_val(*c));
}

fn put_opt_field(out: &mut Vec<u8>, k: &str, o: &Option<String>)
    ensures
        final(out)@ == old(out)@ + opt_field(k@, *o),
{
    match o {
        Some(s) => put_field_str(out, k, s.as_str()),
        None => {},
    }
    assert(out@ =~= old(out)@ + opt_field(k@, *o));
}

fn put_behavior_list(out: &mut Vec<u8>, bs: &Vec<Behavior>)
    ensures
        final(out)@ == old(out)@ + arr_head(bs@.len()) + behaviors_val(bs@, bs@.len()),
{
    put_arr_head(out, bs.len());
    let ghost start = out@;
    let mut i: usize = 0;
    while i < bs.len()
        invariant
            i <= bs@.len(),
            out@ == start + behaviors_val(bs@, i as nat),
        decreases bs.len() - i,
    {
        put_behavior(out, &bs[i]);
        assert(out@ =~= start + behaviors_val(bs@, (i + 1) as nat));
        i += 1;
    }
}

fn put_components(out: &mut Vec<u8>, m: &StrMap<Component>)
    ensures
        final(out)@ == old(out)@ + obj_head(m.key_seq().len()) + components_val(*m, m.key_seq().len()),
{
    let k = m.len();
    put_obj_head(out, k as u64);
    let ghost start = out@;
    let mut j: usize = 0;
    while j < k
        invariant
            j <= k,
            k == m.key_seq().len(),
            out@ == start + components_val(*m, j as nat),
        decreases k - j,
    {
        push_text(out, m.key_at(j).as_str());
        put_component(out, m.value_at(j));
        assert(out@ =~= start + components_val(*m, (j + 1) as nat));
        j += 1;
    }
}

#[verifier::spinoff_prover]
#[verifier::rlimit(80)]
fn put_node(out: &mut Vec<u8>, n: &Node)
    ensures
        final(out)@ == old(out)@ + node_val(*n),
{
    let count: u64 = 4 + (if n.active_state.is_some() { 1u64 } else { 0u64 })
        + (if n.lua_class.is_some() { 1u64 } else { 0u64 }) + (if n.parent.is_some() { 1u64 } else { 0u64 });
    put_obj_head(out, count);
    put_opt_field(out, "active_state", &n.active_state);
    push_text(out, "behaviors");
    put_behavior_list(out, &n.behaviors);
    push_text(out, "components");
    put_components(out, &n.components);
    put_field_str(out, "id", n.id.as_str());
    put_opt_field(out, "lua_class", &n.lua_class);
    put_opt_field(out, "parent", &n.parent);
    put_field_str(out, "type", n.node_type.as_str());
    proof { lemma_node_val(*n); }
    assert(out@ =~= old(out)@ + node_val(*n));
}

proof fn lemma_node_val(n: Node)
    ensures
        node_val(n) == obj_head(4 + present(n.active_state) + present(n.lua_class) + present(n.parent))
            + opt_field("active_state"@, n.active_state)
            + field("behaviors"@, arr_head(n.behaviors@.len()) + behaviors_val(n.behaviors@, n.behaviors@.len()))
            + field("components"@, obj_head(n.components.key_seq().len()) + components_val(n.components, n.components.key_seq().len()))
            + field("id"@, str_val(n.id@))
            + opt_field("lua_class"@, n.lua_class)
            + opt_field("parent"@, n.parent)
            + field("type"@, str_val(n.node_type@)),
{
    reveal(node_val);
}

/// Writes the canonical bytes of a scene's JSON document.
#[verifier::loop_isolation(false)]
pub fn scene_canonical_bytes(scene: &Scene) -> (r: Vec<u8>)
    ensures
        r@ == scene_bytes(*scene),
{
    let mut out: Vec<u8> = Vec::new();
    put_obj_head(&mut out, 4);
    put_field_str(&mut out, "kind", scene.kind.as_str());
    put_field_str(&mut out, "name", scene.name.as_str());
    push_text(&mut out, "nodes");
    put_arr_head(&mut out, scene.nodes.len());
    let ghost start = out@;
    let mut i: usize = 0;
    while i < scene.nodes.len()
        invariant
            i <= scene.nodes@.len(),
            out@ == start + nodes_val(scene.nodes@, i as nat),
        decreases scene.nodes.len() - i,
    {
        put_node(&mut out, &scene.nodes[i]);
        assert(out@ =~= start + nodes_val(scene.nodes@, (i + 1) as nat));
        i += 1;
    }
    push_text(&mut out, "spawn_counter");
    write_canonical(&mut out, &Json::Float(number_from_u64(scene.spawn_counter)));
    assert(out@ =~= scene_bytes(*scene));
    out
}

/// The scene state hash that deterministic replay compares: the
/// `DefaultHasher` digest of the canonical encoding of the scene's JSON
/// document.
pub fn hash_scene_state(scene: &Scene) -> (r: u64)
    ensures
        r == default_hash(scene_bytes(*scene)),
{
    let bytes = scene_canonical_bytes(scene);
    hash_bytes(&bytes)
}

// ----------------------------------------------------------------- laws

/// Two nodes hold the same state: the same id, type, parent, state,
/// class and behaviors, and component tables with the same contents (in
/// whatever order they were filled).
pub open spec fn node_state_eq(a: Node, b: Node) -> bool {
    &&& a.id@ == b.id@
    &&& a.node_type@ == b.node_type@
    &&& opt_text(a.parent) == opt_text(b.parent)
    &&& opt_text(a.active_state) == opt_text(b.active_state)
    &&& opt_text(a.lua_class) == opt_text(b.lua_class)
    &&& a.behaviors@ == b.behaviors@
    &&& a.components@ == b.components@
    &&& keys_ascending(a.components.key_seq())
    &&& keys_ascending(b.components.key_seq())
}

proof fn lemma_opt_field_eq(k: Seq<char>, a: Option<String>, b: Option<String>)
    requires
        opt_text(a) == opt_text(b),
    ensures
        opt_field(k, a) == opt_field(k, b),
        present(a) == present(b),
{
}

proof fn lemma_components_val_eq(m1: StrMap<Component>, m2: StrMap<Component>, k: nat)
    requires
        m1.key_seq() == m2.key_seq(),
        m1.value_seq() == m2.value_seq(),
    ensures
        components_val(m1, k) == components_val(m2, k),
    decreases k,
{
    if k > 0 {
        lemma_components_val_eq(m1, m2, (k - 1) as nat);
    }
}

proof fn lemma_node_val_eq(a: Node, b: Node)
    requires
        node_state_eq(a, b),
    ensures
        node_val(a) == node_val(b),
{
    a.components.lemma_same_view_same_entries(b.components);
    lemma_components_val_eq(a.components, b.components, a.components.key_seq().len());
    lemma_opt_field_eq("active_state"@, a.active_state, b.active_state);
    lemma_opt_field_eq("lua_class"@, a.lua_class, b.lua_class);
    lemma_opt_field_eq("parent"@, a.parent, b.parent);
    lemma_node_val(a);
    lemma_node_val(b);
}

proof fn lemma_nodes_val_eq(xs: Seq<Node>, ys: Seq<Node>, k: nat)
    requires
        xs.len() == ys.len(),
        forall|i: int| 0 <= i < xs.len() ==> node_state_eq(#[trigger] xs[i], ys[i]),
    ensures
        nodes_val(xs, k) == nodes_val(ys, k),
    decreases k,
{
    if k > 0 && k <= xs.len() {
        lemma_nodes_val_eq(xs, ys, (k - 1) as nat);
        lemma_node_val_eq(xs[k - 1], ys[k - 1]);
    }
}

/// Scenes that hold the same state (the same kind, name and spawn
/// counter, and nodes that pair up by `node_state_eq`) have the same state
/// hash, however their component tables were filled.
pub proof fn law_equal_scene_states_hash_equal(s1: Scene, s2: Scene)
    requires
        s1.kind@ == s2.kind@,
        s1.name@ == s2.name@,
        s1.spawn_counter == s2.spawn_counter,
        s1.nodes@.len() == s2.nodes@.len(),
        forall|i: int| 0 <= i < s1.nodes@.len() ==> node_state_eq(#[trigger] s1.nodes@[i], s2.nodes@[i]),
    ensures
        scene_bytes(s1) == scene_bytes(s2),
        default_hash(scene_bytes(s1)) == default_hash(scene_bytes(s2)),
{
    lemma_nodes_val_eq(s1.nodes@, s2.nodes@, s1.nodes@.len());
}

} // verus!
