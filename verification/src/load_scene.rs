//! Decoding component values, nodes and scenes from JSON documents.

use vstd::prelude::*;
use crate::json::{Json, obj_get, str_member, float_of_int, float_of_number, u64_of_number, int_as_float, number_as_float, number_as_u64};
use crate::strmap::StrMap;
use crate::scene::{ComponentValue, ValueView, Component, ComponentKind, Node, Scene};
use crate::load::{opt_view, opt_str_member_ok, member_str, member_opt_str, take_list, str_is};
use crate::load_actions::{behaviors_ok, behaviors_of, decode_behaviors};

verus! {

broadcast use vstd::string::group_string_axioms;

// ------------------------------------------------------------- components

/// The number a document denotes as a float: integers and other numbers
/// alike, as serde_json's `as_f64` gives them.
pub open spec fn number_value(j: Json) -> Option<serde_json::Number> {
    match j {
        Json::Int(i) => Some(float_of_int(i)),
        Json::Float(n) => Some(float_of_number(n)),
        _ => None,
    }
}

/// The component value a bare document denotes: `null`, booleans,
/// integers, other numbers (as floats), strings, and two-number arrays
/// (as `vec2`); objects and other arrays denote none.
pub open spec fn component_value_of(j: Json) -> Option<ValueView> {
    match j {
        Json::Null => Some(ValueView::Nil),
        Json::Bool(b) => Some(ValueView::Bool(b)),
        Json::Int(i) => Some(ValueView::Int(i)),
        Json::Float(n) => Some(ValueView::Float(float_of_number(n))),
        Json::Str(s) => Some(ValueView::String(s@)),
        Json::Array(a) => if a@.len() == 2 && number_value(a@[0]) is Some && number_value(a@[1]) is Some {
            Some(ValueView::Vec2(seq![number_value(a@[0])->0, number_value(a@[1])->0]))
        } else {
            None
        },
        Json::Object(_) => None,
    }
}

/// The kind named by a structured component's `kind` member; a missing
/// or non-string `kind` means regular.
pub open spec fn component_kind_of(j: Json) -> Option<ComponentKind> {
    match str_member(j, "kind"@) {
        None => Some(ComponentKind::Regular),
        Some(k) => if k == "transient"@ {
            Some(ComponentKind::Transient)
        } else if k == "regular"@ {
            Some(ComponentKind::Regular)
        } else {
            None
        },
    }
}

/// The component a document denotes: an object is the structured form
/// `{"kind": .., "value": ..}`; anything else is a bare regular value.
pub open spec fn component_of(j: Json) -> Option<(ValueView, ComponentKind)> {
    match j {
        Json::Object(_) => match (component_kind_of(j), obj_get(j, "value"@)) {
            (Some(k), Some(v)) => match component_value_of(v) {
                Some(cv) => Some((cv, k)),
                None => None,
            },
            _ => None,
        },
        _ => match component_value_of(j) {
            Some(cv) => Some((cv, ComponentKind::Regular)),
            None => None,
        },
    }
}

fn number_from(j: &Json) -> (r: Option<serde_json::Number>)
    ensures
        r == number_value(*j),
{
    match j {
        Json::Int(i) => Some(int_as_float(*i)),
        Json::Float(n) => Some(number_as_float(n)),
        _ => None,
    }
}

/// Decodes a bare component value.
pub fn decode_component_value(j: Json) -> (r: Result<ComponentValue, String>)
    ensures
        match component_value_of(j) {
            Some(v) => r matches Ok(cv) && cv@ == v,
            None => r is Err,
        },
{
    match j {
        Json::Null => Ok(ComponentValue::Nil),
        Json::Bool(b) => Ok(ComponentValue::Bool(b)),
        Json::Int(i) => Ok(ComponentValue::Int(i)),
        Json::Float(n) => Ok(ComponentValue::Float(number_as_float(&n))),
        Json::Str(s) => Ok(ComponentValue::String(s)),
        Json::Array(a) => {
            if a.len() != 2 {
                let mut msg = "expected [x, y] for vec2, got array of length ".to_string();
                crate::text::push_decimal(&mut msg, a.len() as u64);
                return Err(msg);
            }
            let x = match number_from(&a[0]) {
                Some(x) => x,
                None => return Err("vec2[0] must be a number".to_string()),
            };
            let y = match number_from(&a[1]) {
                Some(y) => y,
                None => return Err("vec2[1] must be a number".to_string()),
            };
            let v = [x, y];
            assert(v@ =~= seq![number_value(a@[0])->0, number_value(a@[1])->0]);
            Ok(ComponentValue::Vec2(v))
        },
        Json::Object(_) => Err(
            "nested object is not a valid component value; use {\"type\": ..., \"value\": ...}".to_string(),
        ),
    }
}

/// Decodes a component in either form.
pub fn decode_component(j: Json) -> (r: Result<Component, String>)
    ensures
        match component_of(j) {
            Some((v, k)) => r matches Ok(c) && c.value@ == v && c.kind == k,
            None => r is Err,
        },
{
    proof { reveal_strlit("kind"); reveal_strlit("transient"); reveal_strlit("regular"); reveal_strlit("value"); }
    match j {
        Json::Object(m) => {
            let kind = match m.get("kind") {
                Some(Json::Str(k)) => {
                    if str_is(k.as_str(), "transient") {
                        ComponentKind::Transient
                    } else if str_is(k.as_str(), "regular") {
                        ComponentKind::Regular
                    } else {
                        let mut msg = "unknown component kind \"".to_string();
                        crate::text::push_str(&mut msg, k.as_str());
                        crate::text::push_str(&mut msg, "\"");
                        return Err(msg);
                    }
                },
                _ => ComponentKind::Regular,
            };
            let mut m = m;
            let v = match m.remove("value") {
                Some(v) => v,
                None => return Err("structured component requires a `value` field".to_string()),
            };
            match decode_component_value(v) {
                Ok(value) => Ok(Component { value, kind }),
                Err(e) => Err(e),
            }
        },
        other => match decode_component_value(other) {
            Ok(value) => Ok(Component { value, kind: ComponentKind::Regular }),
            Err(e) => Err(e),
        },
    }
}

/// Whether every entry of a component table decodes.
pub open spec fn components_ok(m: StrMap<Json>) -> bool {
    forall|i: int| 0 <= i < m.key_seq().len() ==> (#[trigger] component_of(m.value_seq()[i])) is Some
}

/// The decoded component table: same keys, each value decoded.
pub open spec fn components_of(m: StrMap<Json>, out: StrMap<Component>) -> bool {
    &&& out.key_seq() == m.key_seq()
    &&& out.value_seq().len() == m.key_seq().len()
    &&& forall|i: int| 0 <= i < m.key_seq().len() ==>
        (#[trigger] component_of(m.value_seq()[i])) == Some((out.value_seq()[i].value@, out.value_seq()[i].kind))
}

/// Decodes every entry of a component table.
#[verifier::loop_isolation(false)]
pub fn decode_components(m: StrMap<Json>) -> (r: Result<StrMap<Component>, String>)
    ensures
        r is Ok == components_ok(m),
        r matches Ok(out) ==> components_of(m, out),
{
    let ghost m0 = m;
    m.proof_keys();
    let entries = m.into_entries();
    let ghost keys = m0.key_seq();
    let ghost vals = m0.value_seq();
    let ghost es = entries@;
    let n = entries.len();
    assert(keys.len() == n) by { assert(keys == es.map_values(|e: (String, Json)| e.0@)); }
    assert forall|t: int| 0 <= t < n implies (#[trigger] es[t]).0@ == keys[t] && es[t].1 == vals[t] by {
        assert(keys == es.map_values(|e: (String, Json)| e.0@));
        assert(vals == es.map_values(|e: (String, Json)| e.1));
    }
    let mut rest = entries;
    let mut out: StrMap<Component> = StrMap::new();
    let mut i: usize = 0;
    assert(rest@ =~= es.skip(0));
    while i < n
        invariant
            n == es.len() == keys.len() == vals.len(),
            keys == m0.key_seq(),
            vals == m0.value_seq(),
            i <= n,
            rest@ == es.skip(i as int),
            forall|t: int| 0 <= t < n ==> (#[trigger] es[t]).0@ == keys[t] && es[t].1 == vals[t],
            crate::strmap::keys_ascending(keys),
            out.key_seq() == keys.take(i as int),
            out.value_seq().len() == i,
            forall|t: int| 0 <= t < i ==>
                (#[trigger] component_of(vals[t])) == Some((out.value_seq()[t].value@, out.value_seq()[t].kind)),
        decreases n - i,
    {
        let (k, v) = rest.remove(0);
        assert(es[i as int] == (k, v));
        assert(rest@ =~= es.skip(i + 1));
        match decode_component(v) {
            Ok(c) => {
                let ghost before = out.value_seq();
                out.push_last(k, c);
                assert(out.key_seq() =~= keys.take(i + 1));
                assert forall|t: int| 0 <= t < i + 1 implies
                    (#[trigger] component_of(vals[t])) == Some((out.value_seq()[t].value@, out.value_seq()[t].kind)) by {
                    if t < i {
                        assert(out.value_seq()[t] == before[t]);
                    }
                }
            },
            Err(e) => {
                assert(!(component_of(m0.value_seq()[i as int]) is Some));
                assert(!components_ok(m0));
                return Err(e);
            },
        }
        i += 1;
    }
    assert(keys.take(n as int) =~= keys);
    Ok(out)
}

// ------------------------------------------------------------------ nodes

/// An optional string member's value (absent or `null` is `None`).
pub open spec fn opt_str_member_of(j: Json, key: Seq<char>, o: Option<String>) -> bool {
    match obj_get(j, key) {
        Some(Json::Str(s)) => opt_view(o) == Some(s@),
        _ => o is None,
    }
}

/// Whether a document decodes as a node.
pub open spec fn node_ok(j: Json) -> bool {
    &&& j is Object
    &&& str_member(j, "id"@) is Some
    &&& str_member(j, "type"@) is Some
    &&& opt_str_member_ok(j, "parent"@)
    &&& match obj_get(j, "components"@) {
        None => true,
        Some(Json::Object(cm)) => components_ok(cm),
        _ => false,
    }
    &&& match obj_get(j, "behaviors"@) {
        None => true,
        Some(Json::Array(v)) => behaviors_ok(v@),
        _ => false,
    }
    &&& opt_str_member_ok(j, "active_state"@)
    &&& opt_str_member_ok(j, "lua_class"@)
}

/// The node a (valid) document denotes; decoded nodes are live.
pub open spec fn node_of(j: Json, n: Node) -> bool {
    &&& str_member(j, "id"@) == Some(n.id@)
    &&& str_member(j, "type"@) == Some(n.node_type@)
    &&& opt_str_member_of(j, "parent"@, n.parent)
    &&& match obj_get(j, "components"@) {
        Some(Json::Object(cm)) => components_of(cm, n.components),
        _ => n.components.key_seq().len() == 0 && n.components@ == Map::<Seq<char>, Component>::empty(),
    }
    &&& match obj_get(j, "behaviors"@) {
        Some(Json::Array(v)) => behaviors_of(v@, n.behaviors@),
        _ => n.behaviors@.len() == 0,
    }
    &&& opt_str_member_of(j, "active_state"@, n.active_state)
    &&& opt_str_member_of(j, "lua_class"@, n.lua_class)
    &&& !n.destroyed
}

/// Decodes a node.
pub fn decode_node(j: Json) -> (r: Result<Node, String>)
    ensures
        r is Ok == node_ok(j),
        r matches Ok(n) ==> node_of(j, n),
{
    let ghost j0 = j;
    proof {
        reveal_strlit("id"); reveal_strlit("type"); reveal_strlit("parent"); reveal_strlit("components");
        reveal_strlit("behaviors"); reveal_strlit("active_state"); reveal_strlit("lua_class");
    }
    let mut m = match j {
        Json::Object(m) => m,
        _ => return Err("node must be an object".to_string()),
    };
    let ghost m0 = m;
    assert(j0 == Json::Object(m0));
    let id = match member_str(&m, "id") { Ok(x) => x, Err(e) => return Err(e) };
    let node_type = match member_str(&m, "type") { Ok(x) => x, Err(e) => return Err(e) };
    let parent = match member_opt_str(&m, "parent") { Ok(x) => x, Err(e) => return Err(e) };
    let active_state = match member_opt_str(&m, "active_state") { Ok(x) => x, Err(e) => return Err(e) };
    let lua_class = match member_opt_str(&m, "lua_class") { Ok(x) => x, Err(e) => return Err(e) };
    assert("behaviors"@[0] == 'b' && "components"@[0] == 'c');
    let components = match m.remove("components") {
        None => StrMap::new(),
        Some(Json::Object(cm)) => match decode_components(cm) {
            Ok(c) => c,
            Err(e) => return Err(e),
        },
        Some(_) => return Err("`components` must be an object".to_string()),
    };
    let items = match take_list(&mut m, "behaviors", false) { Ok(x) => x, Err(e) => return Err(e) };
    let behaviors = match decode_behaviors(items) { Ok(x) => x, Err(e) => return Err(e) };
    Ok(Node { id, node_type, parent, components, behaviors, active_state, lua_class, destroyed: false })
}

// ----------------------------------------------------------------- scenes

/// A spawn counter document: a non-negative integer that fits `u64`.
pub open spec fn counter_of(j: Json) -> Option<u64> {
    match j {
        Json::Int(i) => if i >= 0 { Some(i as u64) } else { None },
        Json::Float(n) => u64_of_number(n),
        _ => None,
    }
}

/// Whether a document decodes as a scene.
pub open spec fn scene_doc_ok(j: Json) -> bool {
    &&& j is Object
    &&& (obj_get(j, "kind"@) is None || str_member(j, "kind"@) is Some)
    &&& str_member(j, "name"@) is Some
    &&& match obj_get(j, "nodes"@) {
        None => true,
        Some(Json::Array(v)) => forall|i: int| 0 <= i < v@.len() ==> node_ok(#[trigger] v@[i]),
        _ => false,
    }
    &&& match obj_get(j, "spawn_counter"@) {
        None => true,
        Some(c) => counter_of(c) is Some,
    }
}

/// The scene a (valid) document denotes.
pub open spec fn scene_of(j: Json, s: Scene) -> bool {
    &&& s.kind@ == match str_member(j, "kind"@) { Some(k) => k, None => Seq::<char>::empty() }
    &&& str_member(j, "name"@) == Some(s.name@)
    &&& match obj_get(j, "nodes"@) {
        Some(Json::Array(v)) => v@.len() == s.nodes@.len()
            && forall|i: int| 0 <= i < v@.len() ==> node_of(#[trigger] v@[i], s.nodes@[i]),
        _ => s.nodes@.len() == 0,
    }
    &&& s.spawn_counter == match obj_get(j, "spawn_counter"@) { Some(c) => counter_of(c)->0, None => 0 }
}

/// Decodes a list of nodes.
#[verifier::loop_isolation(false)]
pub fn decode_nodes(items: Vec<Json>) -> (r: Result<Vec<Node>, String>)
    ensures
        r is Ok == forall|i: int| 0 <= i < items@.len() ==> node_ok(#[trigger] items@[i]),
        r matches Ok(out) ==> out@.len() == items@.len()
            && forall|i: int| 0 <= i < items@.len() ==> node_of(#[trigger] items@[i], out@[i]),
{
    let ghost all = items@;
    let mut rest = items;
    let mut out: Vec<Node> = Vec::new();
    let n = rest.len();
    let mut i: usize = 0;
    assert(rest@ =~= all.skip(0));
    while i < n
        invariant
            n == all.len(),
            i <= n,
            rest@ == all.skip(i as int),
            out@.len() == i,
            forall|t: int| 0 <= t < i ==> node_ok(#[trigger] all[t]) && node_of(all[t], out@[t]),
        decreases n - i,
    {
        let item = rest.remove(0);
        assert(item == all[i as int]);
        assert(rest@ =~= all.skip(i + 1));
        match decode_node(item) {
            Ok(node) => out.push(node),
            Err(e) => {
                assert(!node_ok(all[i as int]));
                return Err(e);
            },
        }
        i += 1;
    }
    Ok(out)
}

/// Decodes a scene document.
pub fn decode_scene(j: Json) -> (r: Result<Scene, String>)
    ensures
        r is Ok == scene_doc_ok(j),
        r matches Ok(s) ==> scene_of(j, s),
{
    let ghost j0 = j;
    proof { reveal_strlit("kind"); reveal_strlit("name"); reveal_strlit("nodes"); reveal_strlit("spawn_counter"); }
    let mut m = match j {
        Json::Object(m) => m,
        _ => return Err("scene must be an object".to_string()),
    };
    let ghost m0 = m;
    assert(j0 == Json::Object(m0));
    let kind = match m.get("kind") {
        None => String::new(),
        Some(Json::Str(k)) => k.clone(),
        Some(_) => return Err("`kind` must be a string".to_string()),
    };
    let name = match member_str(&m, "name") { Ok(x) => x, Err(e) => return Err(e) };
    let spawn_counter: u64 = match m.get("spawn_counter") {
        None => 0,
        Some(Json::Int(i)) => if *i >= 0 { *i as u64 } else { return Err("`spawn_counter` must be a u64".to_string()) },
        Some(Json::Float(n)) => match number_as_u64(n) {
            Some(c) => c,
            None => return Err("`spawn_counter` must be a u64".to_string()),
        },
        Some(_) => return Err("`spawn_counter` must be a u64".to_string()),
    };
    let items = match take_list(&mut m, "nodes", false) { Ok(x) => x, Err(e) => return Err(e) };
    let ghost iv = items@;
    let nodes = match decode_nodes(items) {
        Ok(x) => x,
        Err(e) => {
            proof {
                assert(!(forall|i: int| 0 <= i < iv.len() ==> node_ok(#[trigger] iv[i])));
                if m0@.contains_key("nodes"@) {
                    assert(m0@["nodes"@] matches Json::Array(v) && v@ == iv);
                }
            }
            return Err(e);
        },
    };
    Ok(Scene { kind, name, nodes, spawn_counter })
}

} // verus!
