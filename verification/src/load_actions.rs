//! Decoding actions, behaviors and state machines from JSON documents.
//! Objects carry a `kind` tag; members marked optional may be absent,
//! and everything else is required. Unknown members are ignored.

use vstd::prelude::*;
use crate::json::{Json, obj_get, str_member};
use crate::strmap::StrMap;
use crate::behavior::{Action, Behavior, StateDef, Transition, ResultTarget, LogLevel, Expression};
use crate::load::{
    target_member_ok, target_member_of, map_member_ok, map_member_of, u32_member, level_of,
    result_in_ok, result_in_of, expr_of, decode_expr, decode_target, member, member_str, take_map,
    take_list, take_value, str_is, member_target,
};

verus! {

broadcast use vstd::string::group_string_axioms;

/// A member holding an array is structurally smaller than its object.
pub proof fn lemma_member_items_decrease(j: Json, key: Seq<char>, v: Vec<Json>)
    requires
        obj_get(j, key) == Some(Json::Array(v)),
    ensures
        decreases_to!(j => v@),
{
    if let Json::Object(m) = j {
        m.lemma_map_value_decreases(key);
        vstd::std_specs::vec::axiom_vec_decreases_to_view(v);
        assert(decreases_to!(j => m));
        assert(decreases_to!(m@[key] => (m@[key])->Array_0));
    }
}

/// A member holding an object is structurally smaller than its object.
pub proof fn lemma_member_map_decreases(j: Json, key: Seq<char>, sm: StrMap<Json>)
    requires
        obj_get(j, key) == Some(Json::Object(sm)),
    ensures
        decreases_to!(j => sm),
{
    if let Json::Object(m) = j {
        m.lemma_map_value_decreases(key);
        assert(decreases_to!(j => m));
        assert(decreases_to!(m@[key] => (m@[key])->Object_0));
    }
}

/// The `kind` tag of an object.
pub open spec fn kind_of(j: Json) -> Option<Seq<char>> {
    str_member(j, "kind"@)
}

// ------------------------------------------------------------- validity

/// Whether a document decodes as an action.
pub open spec fn action_ok(j: Json) -> bool
    decreases j, 0nat,
{
    match kind_of(j) {
        None => false,
        Some(k) => if k == "set_state"@ {
            target_member_ok(j, "target"@) && str_member(j, "key"@) is Some && obj_get(j, "value"@) is Some
        } else if k == "emit"@ {
            str_member(j, "signal"@) is Some && map_member_ok(j, "args"@)
        } else if k == "destroy"@ {
            target_member_ok(j, "target"@)
        } else if k == "spawn"@ {
            &&& str_member(j, "type"@) is Some
            &&& target_member_ok(j, "parent"@)
            &&& map_member_ok(j, "components"@)
            &&& match obj_get(j, "behaviors"@) {
                None => true,
                Some(Json::Array(v)) => {
                    proof { lemma_member_items_decrease(j, "behaviors"@, v); }
                    behaviors_ok(v@)
                },
                _ => false,
            }
        } else if k == "if"@ {
            &&& obj_get(j, "cond"@) is Some
            &&& match obj_get(j, "then"@) {
                Some(Json::Array(v)) => {
                    proof { lemma_member_items_decrease(j, "then"@, v); }
                    actions_ok(v@)
                },
                _ => false,
            }
            &&& match obj_get(j, "else"@) {
                None => true,
                Some(Json::Array(v)) => {
                    proof { lemma_member_items_decrease(j, "else"@, v); }
                    actions_ok(v@)
                },
                _ => false,
            }
        } else if k == "move"@ {
            target_member_ok(j, "target"@) && str_member(j, "key"@) is Some && obj_get(j, "by"@) is Some
        } else if k == "animate"@ {
            &&& target_member_ok(j, "target"@)
            &&& str_member(j, "key"@) is Some
            &&& obj_get(j, "to"@) is Some
            &&& u32_member(j, "duration"@) is Some
        } else if k == "log"@ {
            &&& (str_member(j, "level"@) matches Some(l) && level_of(l) is Some)
            &&& str_member(j, "message"@) is Some
            &&& map_member_ok(j, "fields"@)
        } else if k == "call_system"@ {
            str_member(j, "system"@) is Some && map_member_ok(j, "args"@) && result_in_ok(j)
        } else {
            false
        },
    }
}

/// Whether every document of a list decodes as an action.
pub open spec fn actions_ok(items: Seq<Json>) -> bool
    decreases items, 0nat,
{
    items.len() == 0 || (actions_ok(items.drop_last()) && action_ok(items.last()))
}

/// Whether a document decodes as a behavior.
pub open spec fn behavior_ok(j: Json) -> bool
    decreases j, 0nat,
{
    match kind_of(j) {
        None => false,
        Some(k) => if k == "state_machine"@ {
            &&& str_member(j, "initial"@) is Some
            &&& match obj_get(j, "states"@) {
                Some(Json::Object(sm)) => {
                    proof { lemma_member_map_decreases(j, "states"@, sm); }
                    states_ok(sm, sm.key_seq().len())
                },
                _ => false,
            }
        } else if k == "on_tick"@ {
            match obj_get(j, "actions"@) {
                Some(Json::Array(v)) => {
                    proof { lemma_member_items_decrease(j, "actions"@, v); }
                    actions_ok(v@)
                },
                _ => false,
            }
        } else if k == "on_signal"@ {
            &&& str_member(j, "signal"@) is Some
            &&& match obj_get(j, "actions"@) {
                Some(Json::Array(v)) => {
                    proof { lemma_member_items_decrease(j, "actions"@, v); }
                    actions_ok(v@)
                },
                _ => false,
            }
        } else {
            false
        },
    }
}

/// Whether every document of a list decodes as a behavior.
pub open spec fn behaviors_ok(items: Seq<Json>) -> bool
    decreases items, 0nat,
{
    items.len() == 0 || (behaviors_ok(items.drop_last()) && behavior_ok(items.last()))
}

/// Whether the first `n` states of a state table decode.
pub open spec fn states_ok(m: StrMap<Json>, n: nat) -> bool
    decreases m, n,
{
    if n == 0 {
        true
    } else if n <= m.key_seq().len() {
        proof { m.lemma_value_decreases(n - 1); }
        states_ok(m, (n - 1) as nat) && state_ok(m.value_seq()[n - 1])
    } else {
        false
    }
}

/// Whether a document decodes as a state: an object whose optional
/// `on_enter` and `on_tick` are action lists and whose optional
/// `transitions` is a list of transitions.
pub open spec fn state_ok(j: Json) -> bool
    decreases j, 0nat,
{
    &&& j is Object
    &&& match obj_get(j, "on_enter"@) {
        None => true,
        Some(Json::Array(v)) => {
            proof { lemma_member_items_decrease(j, "on_enter"@, v); }
            actions_ok(v@)
        },
        _ => false,
    }
    &&& match obj_get(j, "on_tick"@) {
        None => true,
        Some(Json::Array(v)) => {
            proof { lemma_member_items_decrease(j, "on_tick"@, v); }
            actions_ok(v@)
        },
        _ => false,
    }
    &&& match obj_get(j, "transitions"@) {
        None => true,
        Some(Json::Array(v)) => transitions_ok(v@),
        _ => false,
    }
}

/// Whether a document decodes as a transition: an object with a string
/// `to` and a `when` expression.
pub open spec fn transition_ok(j: Json) -> bool {
    str_member(j, "to"@) is Some && obj_get(j, "when"@) is Some
}

/// Whether every document of a list decodes as a transition.
pub open spec fn transitions_ok(items: Seq<Json>) -> bool {
    forall|i: int| 0 <= i < items.len() ==> transition_ok(#[trigger] items[i])
}

// ------------------------------------------------------------- meaning

/// An optional action list member: empty when absent.
pub open spec fn opt_actions_of(j: Json, key: Seq<char>, out: Seq<Action>) -> bool
    decreases j, 1nat,
{
    match obj_get(j, key) {
        None => out.len() == 0,
        Some(Json::Array(v)) => {
            proof { lemma_member_items_decrease(j, key, v); }
            actions_of(v@, out)
        },
        _ => false,
    }
}

/// The action a (valid) document denotes.
pub open spec fn action_of(j: Json, a: Action) -> bool
    decreases j, 2nat,
{
    let k = kind_of(j)->0;
    if k == "set_state"@ {
        a matches Action::SetState { target, key, value }
            && target_member_of(j, "target"@, target) && str_member(j, "key"@) == Some(key@)
            && obj_get(j, "value"@) == Some(value)
    } else if k == "emit"@ {
        a matches Action::Emit { signal, args }
            && str_member(j, "signal"@) == Some(signal@) && map_member_of(j, "args"@, args)
    } else if k == "destroy"@ {
        a matches Action::Destroy { target } && target_member_of(j, "target"@, target)
    } else if k == "spawn"@ {
        a matches Action::Spawn { node_type, parent, components, behaviors }
            && str_member(j, "type"@) == Some(node_type@) && target_member_of(j, "parent"@, parent)
            && map_member_of(j, "components"@, components)
            && match obj_get(j, "behaviors"@) {
                None => behaviors@.len() == 0,
                Some(Json::Array(v)) => {
                    proof { lemma_member_items_decrease(j, "behaviors"@, v); }
                    behaviors_of(v@, behaviors@)
                },
                _ => false,
            }
    } else if k == "if"@ {
        a matches Action::If { cond, then_, else_ }
            && expr_of(obj_get(j, "cond"@)->0, cond)
            && opt_actions_of(j, "then"@, then_@)
            && opt_actions_of(j, "else"@, else_@)
    } else if k == "move"@ {
        a matches Action::Move { target, key, by }
            && target_member_of(j, "target"@, target) && str_member(j, "key"@) == Some(key@)
            && obj_get(j, "by"@) == Some(by)
    } else if k == "animate"@ {
        a matches Action::Animate { target, key, to, duration }
            && target_member_of(j, "target"@, target) && str_member(j, "key"@) == Some(key@)
            && obj_get(j, "to"@) == Some(to) && u32_member(j, "duration"@) == Some(duration)
    } else if k == "log"@ {
        a matches Action::Log { level, message, fields }
            && level_of(str_member(j, "level"@)->0) == Some(level)
            && str_member(j, "message"@) == Some(message@) && map_member_of(j, "fields"@, fields)
    } else {
        a matches Action::CallSystem { system, args, result_in }
            && str_member(j, "system"@) == Some(system@) && map_member_of(j, "args"@, args)
            && result_in_of(j, result_in)
    }
}

/// Element-wise `action_of`.
pub open spec fn actions_of(items: Seq<Json>, out: Seq<Action>) -> bool
    decreases items, 2nat,
{
    items.len() == out.len() && (items.len() == 0 || (actions_of(items.drop_last(), out.drop_last())
        && action_of(items.last(), out.last())))
}

/// The behavior a (valid) document denotes.
pub open spec fn behavior_of(j: Json, b: Behavior) -> bool
    decreases j, 2nat,
{
    let k = kind_of(j)->0;
    if k == "state_machine"@ {
        b matches Behavior::StateMachine { initial, states }
            && str_member(j, "initial"@) == Some(initial@)
            && match obj_get(j, "states"@) {
                Some(Json::Object(sm)) => {
                    proof { lemma_member_map_decreases(j, "states"@, sm); }
                    states.key_seq() == sm.key_seq() && states_of(sm, sm.key_seq().len(), states.value_seq())
                },
                _ => false,
            }
    } else if k == "on_tick"@ {
        b matches Behavior::OnTick { actions } && opt_actions_of(j, "actions"@, actions@)
    } else {
        b matches Behavior::OnSignal { signal, actions }
            && str_member(j, "signal"@) == Some(signal@) && opt_actions_of(j, "actions"@, actions@)
    }
}

/// Element-wise `behavior_of`.
pub open spec fn behaviors_of(items: Seq<Json>, out: Seq<Behavior>) -> bool
    decreases items, 2nat,
{
    items.len() == out.len() && (items.len() == 0 || (behaviors_of(items.drop_last(), out.drop_last())
        && behavior_of(items.last(), out.last())))
}

/// The first `n` states of a table, decoded in key order.
pub open spec fn states_of(m: StrMap<Json>, n: nat, out: Seq<StateDef>) -> bool
    decreases m, n,
{
    if n == 0 {
        out.len() == 0
    } else if n <= m.key_seq().len() {
        proof { m.lemma_value_decreases(n - 1); }
        out.len() == n && states_of(m, (n - 1) as nat, out.drop_last())
            && state_of(m.value_seq()[n - 1], out.last())
    } else {
        false
    }
}

/// The state a (valid) document denotes.
pub open spec fn state_of(j: Json, s: StateDef) -> bool
    decreases j, 2nat,
{
    &&& opt_actions_of(j, "on_enter"@, s.on_enter@)
    &&& opt_actions_of(j, "on_tick"@, s.on_tick@)
    &&& match obj_get(j, "transitions"@) {
        None => s.transitions@.len() == 0,
        Some(Json::Array(v)) => transitions_of(v@, s.transitions@),
        _ => false,
    }
}

/// The transition a (valid) document denotes.
pub open spec fn transition_of(j: Json, t: Transition) -> bool {
    str_member(j, "to"@) == Some(t.to@) && expr_of(obj_get(j, "when"@)->0, t.when)
}

/// Element-wise `transition_of`.
pub open spec fn transitions_of(items: Seq<Json>, out: Seq<Transition>) -> bool {
    items.len() == out.len() && forall|i: int| 0 <= i < items.len() ==> transition_of(#[trigger] items[i], out[i])
}


// ------------------------------------------------------------- decoders

fn level_from(s: &str) -> (r: Option<LogLevel>)
    ensures
        r == level_of(s@),
{
    proof {
        reveal_strlit("debug"); reveal_strlit("info"); reveal_strlit("warning"); reveal_strlit("error");
    }
    if str_is(s, "debug") {
        Some(LogLevel::Debug)
    } else if str_is(s, "info") {
        Some(LogLevel::Info)
    } else if str_is(s, "warning") {
        Some(LogLevel::Warning)
    } else if str_is(s, "error") {
        Some(LogLevel::Error)
    } else {
        None
    }
}

fn member_u32(m: &StrMap<Json>, key: &str) -> (r: Option<u32>)
    ensures
        r == u32_member(Json::Object(*m), key@),
{
    match m.get(key) {
        Some(Json::Int(i)) => if 0 <= *i && *i <= 4294967295 { Some(*i as u32) } else { None },
        _ => None,
    }
}

fn member_result_in(m: &StrMap<Json>) -> (r: Result<Option<ResultTarget>, String>)
    ensures
        r is Ok == result_in_ok(Json::Object(*m)),
        r matches Ok(x) ==> result_in_of(Json::Object(*m), x),
{
    proof { reveal_strlit("result_in"); reveal_strlit("key"); reveal_strlit("on"); }
    match m.get("result_in") {
        None => Ok(None),
        Some(Json::Null) => Ok(None),
        Some(x) => {
            let key = match crate::json::get_str(x, "key") {
                Some(k) => k.clone(),
                None => return Err("result_in requires a string `key`".to_string()),
            };
            let on = match crate::json::get(x, "on") {
                Some(t) => match decode_target(t) {
                    Ok(t) => t,
                    Err(e) => return Err(e),
                },
                None => return Err("result_in requires a target `on`".to_string()),
            };
            Ok(Some(ResultTarget { key, on }))
        },
    }
}

/// Takes an action list member out of an object being decoded.
fn take_actions(m: &mut StrMap<Json>, key: &str, required: bool, Ghost(j0): Ghost<Json>) -> (r: Result<Vec<Action>, String>)
    requires
        old(m)@.contains_key(key@) ==> obj_get(j0, key@) == Some(old(m)@[key@]),
        !old(m)@.contains_key(key@) ==> obj_get(j0, key@) is None,
    ensures
        final(m)@ == old(m)@.remove(key@),
        r is Ok == match obj_get(j0, key@) {
            None => !required,
            Some(Json::Array(v)) => actions_ok(v@),
            _ => false,
        },
        r matches Ok(out) ==> opt_actions_of(j0, key@, out@),
    decreases j0, 1nat,
{
    if m.contains_key(key) {
        match take_list(m, key, true) {
            Ok(v) => {
                proof { lemma_member_items_decrease(j0, key@, v); }
                decode_actions(v)
            },
            Err(e) => Err(e),
        }
    } else {
        let ghost m1 = *m;
        proof { assert(m1@.remove(key@) =~= m1@); }
        if required {
            Err("missing action list".to_string())
        } else {
            Ok(Vec::new())
        }
    }
}

/// Decodes an action.
pub fn decode_action(j: Json) -> (r: Result<Action, String>)
    ensures
        r is Ok == action_ok(j),
        r matches Ok(a) ==> action_of(j, a),
    decreases j, 2nat,
{
    let ghost j0 = j;
    proof {
        reveal_strlit("kind"); reveal_strlit("set_state"); reveal_strlit("emit"); reveal_strlit("destroy");
        reveal_strlit("spawn"); reveal_strlit("if"); reveal_strlit("move"); reveal_strlit("animate");
        reveal_strlit("log"); reveal_strlit("call_system"); reveal_strlit("target"); reveal_strlit("key");
        reveal_strlit("value"); reveal_strlit("signal"); reveal_strlit("args"); reveal_strlit("type");
        reveal_strlit("parent"); reveal_strlit("components"); reveal_strlit("behaviors"); reveal_strlit("cond");
        reveal_strlit("then"); reveal_strlit("else"); reveal_strlit("by"); reveal_strlit("to");
        reveal_strlit("duration"); reveal_strlit("level"); reveal_strlit("message"); reveal_strlit("fields");
        reveal_strlit("system"); reveal_strlit("result_in");
    }
    let mut m = match j {
        Json::Object(m) => m,
        _ => return Err("action must be an object".to_string()),
    };
    let ghost m0 = m;
    assert(j0 == Json::Object(m0));
    let kind = match member_str(&m, "kind") {
        Ok(k) => k,
        Err(e) => return Err(e),
    };
    if str_is(kind.as_str(), "set_state") {
        let target = match member_target(&m, "target") { Ok(t) => t, Err(e) => return Err(e) };
        let key = match member_str(&m, "key") { Ok(k) => k, Err(e) => return Err(e) };
        let value = match take_value(&mut m, "value") { Ok(v) => v, Err(e) => return Err(e) };
        Ok(Action::SetState { target, key, value })
    } else if str_is(kind.as_str(), "emit") {
        let signal = match member_str(&m, "signal") { Ok(k) => k, Err(e) => return Err(e) };
        let args = match take_map(&mut m, "args") { Ok(x) => x, Err(e) => return Err(e) };
        Ok(Action::Emit { signal, args })
    } else if str_is(kind.as_str(), "destroy") {
        let target = match member_target(&m, "target") { Ok(t) => t, Err(e) => return Err(e) };
        Ok(Action::Destroy { target })
    } else if str_is(kind.as_str(), "spawn") {
        let node_type = match member_str(&m, "type") { Ok(k) => k, Err(e) => return Err(e) };
        let parent = match member_target(&m, "parent") { Ok(t) => t, Err(e) => return Err(e) };
        let components = match take_map(&mut m, "components") { Ok(x) => x, Err(e) => return Err(e) };
        assert("behaviors"@[0] == 'b' && "components"@[0] == 'c');
        let behaviors = if m.contains_key("behaviors") {
            match take_list(&mut m, "behaviors", true) {
                Ok(v) => {
                    proof { lemma_member_items_decrease(j0, "behaviors"@, v); }
                    match decode_behaviors(v) { Ok(b) => b, Err(e) => return Err(e) }
                },
                Err(e) => return Err(e),
            }
        } else {
            Vec::new()
        };
        Ok(Action::Spawn { node_type, parent, components, behaviors })
    } else if str_is(kind.as_str(), "if") {
        assert(j0 == Json::Object(m0));
        assert("then"@[0] == 't' && "cond"@[0] == 'c' && "else"@[0] == 'e');
        let cond_doc = match take_value(&mut m, "cond") { Ok(v) => v, Err(e) => return Err(e) };
        let then_ = match take_actions(&mut m, "then", true, Ghost(j0)) { Ok(x) => x, Err(e) => return Err(e) };
        let else_ = match take_actions(&mut m, "else", false, Ghost(j0)) { Ok(x) => x, Err(e) => return Err(e) };
        let cond = decode_expr(cond_doc);
        Ok(Action::If { cond, then_, else_ })
    } else if str_is(kind.as_str(), "move") {
        let target = match member_target(&m, "target") { Ok(t) => t, Err(e) => return Err(e) };
        let key = match member_str(&m, "key") { Ok(k) => k, Err(e) => return Err(e) };
        let by = match take_value(&mut m, "by") { Ok(v) => v, Err(e) => return Err(e) };
        Ok(Action::Move { target, key, by })
    } else if str_is(kind.as_str(), "animate") {
        let target = match member_target(&m, "target") { Ok(t) => t, Err(e) => return Err(e) };
        let key = match member_str(&m, "key") { Ok(k) => k, Err(e) => return Err(e) };
        let duration = match member_u32(&m, "duration") {
            Some(d) => d,
            None => return Err("animate requires a u32 `duration`".to_string()),
        };
        let to = match take_value(&mut m, "to") { Ok(v) => v, Err(e) => return Err(e) };
        Ok(Action::Animate { target, key, to, duration })
    } else if str_is(kind.as_str(), "log") {
        let level_name = match member_str(&m, "level") { Ok(k) => k, Err(e) => return Err(e) };
        let level = match level_from(level_name.as_str()) {
            Some(l) => l,
            None => return Err("unknown log level".to_string()),
        };
        let message = match member_str(&m, "message") { Ok(k) => k, Err(e) => return Err(e) };
        let fields = match take_map(&mut m, "fields") { Ok(x) => x, Err(e) => return Err(e) };
        Ok(Action::Log { level, message, fields })
    } else if str_is(kind.as_str(), "call_system") {
        let result_in = match member_result_in(&m) { Ok(x) => x, Err(e) => return Err(e) };
        let system = match member_str(&m, "system") { Ok(k) => k, Err(e) => return Err(e) };
        let args = match take_map(&mut m, "args") { Ok(x) => x, Err(e) => return Err(e) };
        Ok(Action::CallSystem { system, args, result_in })
    } else {
        Err("unknown action kind".to_string())
    }
}

/// Decodes each document of a list as an action; fails if any fails.
#[verifier::loop_isolation(false)]
pub fn decode_actions(items: Vec<Json>) -> (r: Result<Vec<Action>, String>)
    ensures
        r is Ok == actions_ok(items@),
        r matches Ok(out) ==> actions_of(items@, out@),
    decreases items@, 2nat,
{
    let ghost all = items@;
    let mut rest = items;
    let mut out: Vec<Action> = Vec::new();
    let n = rest.len();
    let mut i: usize = 0;
    assert(rest@ =~= all.skip(0));
    assert(all.take(0).len() == 0);
    while i < n
        invariant
            n == all.len(),
            i <= n,
            rest@ == all.skip(i as int),
            actions_ok(all.take(i as int)),
            actions_of(all.take(i as int), out@),
        decreases n - i,
    {
        let item = rest.remove(0);
        assert(item == all[i as int]);
        assert(decreases_to!(all => all[i as int]));
        assert(rest@ =~= all.skip(i + 1));
        assert(all.take(i + 1).drop_last() =~= all.take(i as int));
        match decode_action(item) {
            Ok(a) => {
                let ghost before = out@;
                out.push(a);
                assert(out@.drop_last() =~= before);
            },
            Err(e) => {
                proof {
                    if actions_ok(all) {
                        lemma_actions_ok_prefix(all, i as int + 1, n as int);
                    }
                }
                return Err(e);
            },
        }
        i += 1;
    }
    assert(all.take(n as int) =~= all);
    Ok(out)
}

/// Validity of an action list holds of each of its prefixes.
pub proof fn lemma_actions_ok_prefix(s: Seq<Json>, i: int, n: int)
    requires
        0 <= i <= n == s.len(),
        actions_ok(s),
    ensures
        actions_ok(s.take(i)),
    decreases n - i,
{
    if i < n {
        lemma_actions_ok_prefix(s, i + 1, n);
        assert(s.take(i + 1).drop_last() =~= s.take(i));
    } else {
        assert(s.take(i) =~= s);
    }
}


/// Validity of a behavior list holds of each of its prefixes.
pub proof fn lemma_behaviors_ok_prefix(s: Seq<Json>, i: int, n: int)
    requires
        0 <= i <= n == s.len(),
        behaviors_ok(s),
    ensures
        behaviors_ok(s.take(i)),
    decreases n - i,
{
    if i < n {
        lemma_behaviors_ok_prefix(s, i + 1, n);
        assert(s.take(i + 1).drop_last() =~= s.take(i));
    } else {
        assert(s.take(i) =~= s);
    }
}

/// Validity of a state table's first `n` states holds of fewer.
pub proof fn lemma_states_ok_prefix(m: StrMap<Json>, i: nat, n: nat)
    requires
        i <= n,
        states_ok(m, n),
    ensures
        states_ok(m, i),
    decreases n - i,
{
    if i < n {
        lemma_states_ok_prefix(m, i, (n - 1) as nat);
    }
}

/// Decodes each document of a list as a behavior; fails if any fails.
#[verifier::loop_isolation(false)]
pub fn decode_behaviors(items: Vec<Json>) -> (r: Result<Vec<Behavior>, String>)
    ensures
        r is Ok == behaviors_ok(items@),
        r matches Ok(out) ==> behaviors_of(items@, out@),
    decreases items@, 2nat,
{
    let ghost all = items@;
    let mut rest = items;
    let mut out: Vec<Behavior> = Vec::new();
    let n = rest.len();
    let mut i: usize = 0;
    assert(rest@ =~= all.skip(0));
    assert(all.take(0).len() == 0);
    while i < n
        invariant
            n == all.len(),
            i <= n,
            rest@ == all.skip(i as int),
            behaviors_ok(all.take(i as int)),
            behaviors_of(all.take(i as int), out@),
        decreases n - i,
    {
        let item = rest.remove(0);
        assert(item == all[i as int]);
        assert(decreases_to!(all => all[i as int]));
        assert(rest@ =~= all.skip(i + 1));
        assert(all.take(i + 1).drop_last() =~= all.take(i as int));
        match decode_behavior(item) {
            Ok(b) => {
                let ghost before = out@;
                out.push(b);
                assert(out@.drop_last() =~= before);
            },
            Err(e) => {
                proof {
                    if behaviors_ok(all) {
                        lemma_behaviors_ok_prefix(all, i as int + 1, n as int);
                    }
                }
                return Err(e);
            },
        }
        i += 1;
    }
    assert(all.take(n as int) =~= all);
    Ok(out)
}

/// Decodes a behavior.
pub fn decode_behavior(j: Json) -> (r: Result<Behavior, String>)
    ensures
        r is Ok == behavior_ok(j),
        r matches Ok(b) ==> behavior_of(j, b),
    decreases j, 2nat,
{
    let ghost j0 = j;
    proof {
        reveal_strlit("kind"); reveal_strlit("state_machine"); reveal_strlit("on_tick");
        reveal_strlit("on_signal"); reveal_strlit("initial"); reveal_strlit("states");
        reveal_strlit("actions"); reveal_strlit("signal");
    }
    let mut m = match j {
        Json::Object(m) => m,
        _ => return Err("behavior must be an object".to_string()),
    };
    let ghost m0 = m;
    let kind = match member_str(&m, "kind") {
        Ok(k) => k,
        Err(e) => return Err(e),
    };
    if str_is(kind.as_str(), "state_machine") {
        let initial = match member_str(&m, "initial") { Ok(k) => k, Err(e) => return Err(e) };
        let sm = match take_value(&mut m, "states") {
            Ok(Json::Object(sm)) => sm,
            Ok(_) => return Err("`states` must be an object".to_string()),
            Err(e) => return Err(e),
        };
        proof { lemma_member_map_decreases(j0, "states"@, sm); }
        let states = match decode_states(sm) { Ok(x) => x, Err(e) => return Err(e) };
        Ok(Behavior::StateMachine { initial, states })
    } else if str_is(kind.as_str(), "on_tick") {
        let actions = match take_actions(&mut m, "actions", true, Ghost(j0)) { Ok(x) => x, Err(e) => return Err(e) };
        Ok(Behavior::OnTick { actions })
    } else if str_is(kind.as_str(), "on_signal") {
        let signal = match member_str(&m, "signal") { Ok(k) => k, Err(e) => return Err(e) };
        let actions = match take_actions(&mut m, "actions", true, Ghost(j0)) { Ok(x) => x, Err(e) => return Err(e) };
        Ok(Behavior::OnSignal { signal, actions })
    } else {
        Err("unknown behavior kind".to_string())
    }
}

/// Decodes a state table, keeping its keys and their order.
#[verifier::loop_isolation(false)]
pub fn decode_states(m: StrMap<Json>) -> (r: Result<StrMap<StateDef>, String>)
    ensures
        r is Ok == states_ok(m, m.key_seq().len()),
        r matches Ok(out) ==> out.key_seq() == m.key_seq() && states_of(m, m.key_seq().len(), out.value_seq()),
    decreases m, 1nat,
{
    let ghost m0 = m;
    m.proof_keys();
    let entries = m.into_entries();
    let ghost keys = m0.key_seq();
    let ghost vals = m0.value_seq();
    let ghost es = entries@;
    let n = entries.len();
    assert(keys.len() == n) by { assert(keys == es.map_values(|e: (String, Json)| e.0@)); }
    let mut rest = entries;
    let mut out: StrMap<StateDef> = StrMap::new();
    let mut i: usize = 0;
    assert(rest@ =~= es.skip(0));
    while i < n
        invariant
            n == es.len() == keys.len() == vals.len(),
            i <= n,
            rest@ == es.skip(i as int),
            forall|t: int| 0 <= t < n ==> (#[trigger] es[t]).0@ == keys[t] && es[t].1 == vals[t],
            crate::strmap::keys_ascending(keys),
            out.key_seq() == keys.take(i as int),
            states_ok(m0, i as nat),
            states_of(m0, i as nat, out.value_seq()),
        decreases n - i,
    {
        let (k, v) = rest.remove(0);
        assert(es[i as int] == (k, v));
        assert(rest@ =~= es.skip(i + 1));
        proof { m0.lemma_value_decreases(i as int); }
        match decode_state(v) {
            Ok(sd) => {
                let ghost before = out.value_seq();
                out.push_last(k, sd);
                assert(out.key_seq() =~= keys.take(i + 1));
                assert(out.value_seq().drop_last() =~= before);
            },
            Err(e) => {
                proof {
                    if states_ok(m0, n as nat) {
                        lemma_states_ok_prefix(m0, i as nat + 1, n as nat);
                    }
                }
                return Err(e);
            },
        }
        i += 1;
    }
    assert(keys.take(n as int) =~= keys);
    Ok(out)
}

/// Decodes one state of a state machine.
pub fn decode_state(j: Json) -> (r: Result<StateDef, String>)
    ensures
        r is Ok == state_ok(j),
        r matches Ok(s) ==> state_of(j, s),
    decreases j, 2nat,
{
    let ghost j0 = j;
    proof { reveal_strlit("on_enter"); reveal_strlit("on_tick"); reveal_strlit("transitions"); }
    let mut m = match j {
        Json::Object(m) => m,
        _ => return Err("state must be an object".to_string()),
    };
    assert(j0 == Json::Object(m));
    assert("on_tick"@.len() == 7 && "on_enter"@.len() == 8 && "transitions"@[0] == 't' && "on_tick"@[0] == 'o');
    let on_enter = match take_actions(&mut m, "on_enter", false, Ghost(j0)) { Ok(x) => x, Err(e) => return Err(e) };
    let on_tick = match take_actions(&mut m, "on_tick", false, Ghost(j0)) { Ok(x) => x, Err(e) => return Err(e) };
    let items = match take_list(&mut m, "transitions", false) { Ok(x) => x, Err(e) => return Err(e) };
    let transitions = match decode_transitions(items) { Ok(x) => x, Err(e) => return Err(e) };
    Ok(StateDef { on_enter, on_tick, transitions })
}

/// Decodes a list of transitions.
#[verifier::loop_isolation(false)]
pub fn decode_transitions(items: Vec<Json>) -> (r: Result<Vec<Transition>, String>)
    ensures
        r is Ok == transitions_ok(items@),
        r matches Ok(out) ==> transitions_of(items@, out@),
{
    proof { reveal_strlit("to"); reveal_strlit("when"); }
    let ghost all = items@;
    let mut rest = items;
    let mut out: Vec<Transition> = Vec::new();
    let n = rest.len();
    let mut i: usize = 0;
    assert(rest@ =~= all.skip(0));
    while i < n
        invariant
            n == all.len(),
            i <= n,
            rest@ == all.skip(i as int),
            out@.len() == i,
            forall|t: int| 0 <= t < i ==> transition_ok(#[trigger] all[t]) && transition_of(all[t], out@[t]),
        decreases n - i,
    {
        let item = rest.remove(0);
        assert(item == all[i as int]);
        assert(rest@ =~= all.skip(i + 1));
        let mut tm = match item {
            Json::Object(tm) => tm,
            _ => {
                assert(!transition_ok(all[i as int]));
                assert(!transitions_ok(all));
                return Err("transition must be an object".to_string());
            },
        };
        assert(all[i as int] == Json::Object(tm));
        let to = match member_str(&tm, "to") {
            Ok(k) => k,
            Err(e) => {
                assert(!transition_ok(all[i as int]));
                assert(!transitions_ok(all));
                return Err(e);
            },
        };
        let when = match take_value(&mut tm, "when") {
            Ok(v) => decode_expr(v),
            Err(e) => {
                assert(!transition_ok(all[i as int]));
                assert(!transitions_ok(all));
                return Err(e);
            },
        };
        out.push(Transition { to, when });
        i += 1;
    }
    Ok(out)
}

} // verus!
