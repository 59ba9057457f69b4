//! Hot reload: the differences between two versions of a scene (nodes
//! added and removed, type, behavior and component changes), and applying
//! them to the running scene.

use vstd::prelude::*;
use crate::behavior::Behavior;
use crate::error::EngineResult;
use crate::lint::opt_text;
use crate::replay::ascending_set;
use crate::same::{behaviors_same, behaviors_equal, behaviors_copy, node_same, node_copy, numbers_reflexive,
    numbers_transitive, lemma_behaviors_refl, lemma_behaviors_trans};
use crate::scene::{Component, ComponentKind, ComponentSpec, ComponentValue, Node, NodeRegistry, Scene, ValueView, values_same, first_node, lemma_first_node};
use crate::strmap::{StrMap, keys_ascending};
use crate::text::str_eq;
use crate::validate::lemma_ascending_unique;

verus! {

broadcast use vstd::string::group_string_axioms;

/// How one component differs between two versions of a node.
#[derive(Debug, Clone)]
pub enum ComponentChange {
    Updated { from: ComponentValue, to: ComponentValue },
    Removed { previous: ComponentValue },
    Added { value: ComponentValue },
}

/// The change recorded for key `k` when a table goes from `cur` to `new`,
/// if any: new keys are added, keys whose value differs are updated,
/// dropped keys are removed.
pub open spec fn change_for(cur: Map<Seq<char>, Component>, new: Map<Seq<char>, Component>, k: Seq<char>) -> Option<(int, ValueView, ValueView)> {
    if new.contains_key(k) {
        if !cur.contains_key(k) {
            Some((0, new[k].value@, new[k].value@))
        } else if !values_same(cur[k].value@, new[k].value@) {
            Some((1, cur[k].value@, new[k].value@))
        } else {
            None
        }
    } else if cur.contains_key(k) {
        Some((2, cur[k].value@, cur[k].value@))
    } else {
        None
    }
}

/// Whether a change says what `change_for` gives: `(0, v, v)` is an
/// addition of `v`, `(1, a, b)` an update from `a` to `b`, `(2, v, v)` a
/// removal of `v`.
pub open spec fn change_is(c: ComponentChange, d: (int, ValueView, ValueView)) -> bool {
    match c {
        ComponentChange::Added { value } => d.0 == 0 && value@ == d.1,
        ComponentChange::Updated { from, to } => d.0 == 1 && from@ == d.1 && to@ == d.2,
        ComponentChange::Removed { previous } => d.0 == 2 && previous@ == d.1,
    }
}

/// Whether `changes` are exactly the changes from `cur` to `new`.
pub open spec fn changes_between(cur: Map<Seq<char>, Component>, new: Map<Seq<char>, Component>,
    changes: Map<Seq<char>, ComponentChange>) -> bool {
    forall|k: Seq<char>| #![trigger changes.contains_key(k)] #![trigger change_for(cur, new, k)]
        match change_for(cur, new, k) {
            Some(d) => changes.contains_key(k) && change_is(changes[k], d),
            None => !changes.contains_key(k),
        }
}

/// The changes turning component table `current` into `new`.
pub fn compute_component_changes(current: &StrMap<Component>, new: &StrMap<Component>) -> (r: StrMap<ComponentChange>)
    ensures
        changes_between(current@, new@, r@),
{
    let mut out: StrMap<ComponentChange> = StrMap::new();
    new.proof_keys();
    current.proof_keys();
    let n = new.len();
    let mut i: usize = 0;
    while i < n
        invariant
            i <= n == new.key_seq().len(),
            forall|k: Seq<char>| new@.contains_key(k) <==> new.key_seq().contains(k),
            forall|t: int| 0 <= t < new.key_seq().len() ==> new@[#[trigger] new.key_seq()[t]] == new.value_seq()[t],
            crate::strmap::keys_ascending(new.key_seq()),
            forall|k: Seq<char>| #[trigger] out@.contains_key(k) ==> new.key_seq().take(i as int).contains(k)
                && change_for(current@, new@, k) is Some && change_is(out@[k], change_for(current@, new@, k)->0),
            forall|t: int| 0 <= t < i ==> (change_for(current@, new@, #[trigger] new.key_seq()[t]) is Some
                ==> out@.contains_key(new.key_seq()[t])),
        decreases n - i,
    {
        let key = new.key_at(i);
        let nc = new.value_at(i);
        match current.get(key.as_str()) {
            None => {
                out.insert(key.clone(), ComponentChange::Added { value: nc.value.clone() });
            },
            Some(cc) => {
                if !cc.value.same_as(&nc.value) {
                    out.insert(key.clone(), ComponentChange::Updated { from: cc.value.clone(), to: nc.value.clone() });
                }
            },
        }
        proof {
            assert forall|k: Seq<char>| #[trigger] out@.contains_key(k) implies new.key_seq().take(i + 1).contains(k) by {
                if k == key@ {
                    assert(new.key_seq().take(i + 1)[i as int] == k);
                } else {
                    let t = choose|t: int| 0 <= t < i && #[trigger] new.key_seq().take(i as int)[t] == k;
                    assert(new.key_seq().take(i + 1)[t] == k);
                }
            }
        }
        i += 1;
    }
    proof {
        assert(new.key_seq().take(n as int) =~= new.key_seq());
        assert forall|k: Seq<char>| new@.contains_key(k) implies (change_for(current@, new@, k) is Some ==> #[trigger] out@.contains_key(k)) by {
            assert(new.key_seq().contains(k));
            let t = choose|t: int| 0 <= t < new.key_seq().len() && #[trigger] new.key_seq()[t] == k;
            assert(change_for(current@, new@, new.key_seq()[t]) is Some ==> out@.contains_key(new.key_seq()[t]));
        }
    }
    let m = current.len();
    let mut j: usize = 0;
    while j < m
        invariant
            j <= m == current.key_seq().len(),
            forall|k: Seq<char>| current@.contains_key(k) <==> current.key_seq().contains(k),
            forall|t: int| 0 <= t < current.key_seq().len() ==> current@[#[trigger] current.key_seq()[t]] == current.value_seq()[t],
            forall|k: Seq<char>| new@.contains_key(k) <==> new.key_seq().contains(k),
            forall|k: Seq<char>| #[trigger] out@.contains_key(k) ==>
                change_for(current@, new@, k) is Some && change_is(out@[k], change_for(current@, new@, k)->0),
            forall|k: Seq<char>| new@.contains_key(k) ==> (change_for(current@, new@, k) is Some ==> #[trigger] out@.contains_key(k)),
            forall|t: int| 0 <= t < j ==> (change_for(current@, new@, #[trigger] current.key_seq()[t]) is Some
                ==> out@.contains_key(current.key_seq()[t])),
        decreases m - j,
    {
        let key = current.key_at(j);
        if !new.contains_key(key.as_str()) {
            let prev = current.value_at(j);
            out.insert(key.clone(), ComponentChange::Removed { previous: prev.value.clone() });
        }
        j += 1;
    }
    proof {
        assert forall|k: Seq<char>| #![trigger out@.contains_key(k)] #![trigger change_for(current@, new@, k)]
            match change_for(current@, new@, k) {
                Some(d) => out@.contains_key(k) && change_is(out@[k], d),
                None => !out@.contains_key(k),
            } by {
            if change_for(current@, new@, k) is Some {
                if !new@.contains_key(k) {
                    assert(current@.contains_key(k));
                    assert(current.key_seq().contains(k));
                    let t = choose|t: int| 0 <= t < current.key_seq().len() && #[trigger] current.key_seq()[t] == k;
                    assert(change_for(current@, new@, current.key_seq()[t]) is Some ==> out@.contains_key(current.key_seq()[t]));
                }
            }
        }
    }
    out
}

/// What a table holds under `k` once `changes` are applied to `old`.
pub open spec fn applied_at(old: Map<Seq<char>, Component>, changes: Map<Seq<char>, ComponentChange>, k: Seq<char>) -> Option<(ValueView, ComponentKind)> {
    if changes.contains_key(k) {
        match changes[k] {
            ComponentChange::Updated { to, .. } => Some((to@, ComponentKind::Regular)),
            ComponentChange::Added { value } => Some((value@, ComponentKind::Regular)),
            ComponentChange::Removed { .. } => None,
        }
    } else if old.contains_key(k) {
        Some((old[k].value@, old[k].kind))
    } else {
        None
    }
}

/// Whether table `m` holds `o` under `k` (`None`: nothing).
pub open spec fn holds(m: Map<Seq<char>, Component>, k: Seq<char>, o: Option<(ValueView, ComponentKind)>) -> bool {
    match o {
        Some((v, kind)) => m.contains_key(k) && m[k].value@ == v && m[k].kind == kind,
        None => !m.contains_key(k),
    }
}

/// What a table holds under `k` once the changes of keys `done` are
/// applied to `old`.
pub open spec fn applied_upto(old: Map<Seq<char>, Component>, changes: Map<Seq<char>, ComponentChange>,
    done: Seq<Seq<char>>, k: Seq<char>) -> Option<(ValueView, ComponentKind)> {
    if done.contains(k) {
        applied_at(old, changes, k)
    } else if old.contains_key(k) {
        Some((old[k].value@, old[k].kind))
    } else {
        None
    }
}

/// Applies changes to a component table: updated and added components
/// take the new value (as regular components), removed ones go.
pub fn apply_component_changes(components: &mut StrMap<Component>, changes: &StrMap<ComponentChange>)
    ensures
        forall|k: Seq<char>| #[trigger] holds(final(components)@, k, applied_at(old(components)@, changes@, k)),
{
    let ghost start = components@;
    changes.proof_keys();
    let n = changes.len();
    let mut i: usize = 0;
    assert forall|k: Seq<char>| #[trigger] holds(components@, k, applied_upto(start, changes@, changes.key_seq().take(0), k)) by {
        assert(!changes.key_seq().take(0).contains(k));
    }
    while i < n
        invariant
            i <= n == changes.key_seq().len(),
            forall|k: Seq<char>| changes@.contains_key(k) <==> changes.key_seq().contains(k),
            forall|t: int| 0 <= t < changes.key_seq().len() ==> changes@[#[trigger] changes.key_seq()[t]] == changes.value_seq()[t],
            crate::strmap::keys_ascending(changes.key_seq()),
            start == old(components)@,
            forall|k: Seq<char>| #[trigger] holds(components@, k, applied_upto(start, changes@, changes.key_seq().take(i as int), k)),
        decreases n - i,
    {
        let key = changes.key_at(i);
        let change = changes.value_at(i);
        let ghost before = components@;
        match change {
            ComponentChange::Updated { to, .. } => {
                components.insert(key.clone(), Component { value: to.clone(), kind: ComponentKind::Regular });
            },
            ComponentChange::Added { value } => {
                components.insert(key.clone(), Component { value: value.clone(), kind: ComponentKind::Regular });
            },
            ComponentChange::Removed { .. } => {
                components.remove(key.as_str());
            },
        }
        proof {
            let ks = changes.key_seq();
            assert forall|k: Seq<char>| #[trigger] holds(components@, k, applied_upto(start, changes@, ks.take(i + 1), k)) by {
                if k == key@ {
                    assert(ks.take(i + 1)[i as int] == k);
                    assert(ks.take(i + 1).contains(k));
                } else {
                    assert(holds(before, k, applied_upto(start, changes@, ks.take(i as int), k)));
                    if ks.take(i + 1).contains(k) {
                        let t = choose|t: int| 0 <= t < i + 1 && #[trigger] ks.take(i + 1)[t] == k;
                        assert(t != i);
                        assert(ks.take(i as int)[t] == k);
                    }
                    if ks.take(i as int).contains(k) {
                        let t = choose|t: int| 0 <= t < i && #[trigger] ks.take(i as int)[t] == k;
                        assert(ks.take(i + 1)[t] == k);
                    }
                }
            }
        }
        i += 1;
    }
    proof {
        assert(changes.key_seq().take(n as int) =~= changes.key_seq());
        assert forall|k: Seq<char>| #[trigger] holds(components@, k, applied_at(old(components)@, changes@, k)) by {
            assert(holds(components@, k, applied_upto(start, changes@, changes.key_seq().take(n as int), k)));
        }
    }
}

/// Hot reload restores the new table: applying the changes from `cur` to
/// `new` to `cur` gives a table with `new`'s keys, each holding `new`'s
/// value (the very value, or one equal to it by value).
pub proof fn law_apply_changes_reaches_new(cur: Map<Seq<char>, Component>, new: Map<Seq<char>, Component>,
    changes: Map<Seq<char>, ComponentChange>, k: Seq<char>)
    requires
        changes_between(cur, new, changes),
    ensures
        match applied_at(cur, changes, k) {
            Some((v, _)) => new.contains_key(k) && (v == new[k].value@ || values_same(v, new[k].value@)),
            None => !new.contains_key(k),
        },
{
    let d = change_for(cur, new, k);
    if changes.contains_key(k) {
        assert(d is Some);
    }
}

/// Nothing changes between a table and itself, as far as equal-by-value
/// goes: a key is reported only if its value is not equal to itself.
pub proof fn law_no_added_or_removed_against_itself(t: Map<Seq<char>, Component>, changes: Map<Seq<char>, ComponentChange>, k: Seq<char>)
    requires
        changes_between(t, t, changes),
        changes.contains_key(k),
    ensures
        changes[k] is Updated,
        !values_same(t[k].value@, t[k].value@),
{
    assert(change_for(t, t, k) is Some);
}

// ------------------------------------------------------------ scene diff

/// The node each id names in a list: the last node with that id.
pub open spec fn by_id(nodes: Seq<Node>) -> Map<Seq<char>, Node>
    decreases nodes.len(),
{
    if nodes.len() == 0 {
        Map::empty()
    } else {
        by_id(nodes.drop_last()).insert(nodes.last().id@, nodes.last())
    }
}

proof fn lemma_by_id_member(nodes: Seq<Node>, k: Seq<char>)
    requires
        by_id(nodes).contains_key(k),
    ensures
        exists|j: int| 0 <= j < nodes.len() && nodes[j] == by_id(nodes)[k],
    decreases nodes.len(),
{
    if nodes.last().id@ != k {
        lemma_by_id_member(nodes.drop_last(), k);
        let j = choose|j: int| 0 <= j < nodes.drop_last().len() && nodes.drop_last()[j] == by_id(nodes.drop_last())[k];
        assert(nodes[j] == nodes.drop_last()[j]);
    } else {
        assert(nodes[nodes.len() - 1] == by_id(nodes)[k]);
    }
}

proof fn lemma_by_id_has(nodes: Seq<Node>, j: int)
    requires
        0 <= j < nodes.len(),
    ensures
        by_id(nodes).contains_key(nodes[j].id@),
    decreases nodes.len(),
{
    if j < nodes.len() - 1 {
        lemma_by_id_has(nodes.drop_last(), j);
        assert(nodes.drop_last()[j] == nodes[j]);
    }
}

proof fn lemma_by_id_ids(nodes: Seq<Node>)
    ensures
        forall|k: Seq<char>| #[trigger] by_id(nodes).contains_key(k) ==> by_id(nodes)[k].id@ == k,
    decreases nodes.len(),
{
    if nodes.len() > 0 {
        lemma_by_id_ids(nodes.drop_last());
    }
}

/// The ids of a list of nodes.
pub open spec fn ids_of(nodes: Seq<Node>) -> Seq<Seq<char>> {
    nodes.map_values(|n: Node| n.id@)
}

/// The characters of each string.
pub open spec fn texts(v: Seq<String>) -> Seq<Seq<char>> {
    v.map_values(|s: String| s@)
}

/// `s` lists the members of `set` once each, in ascending order.
pub open spec fn lists_in_order(s: Seq<Seq<char>>, set: Set<Seq<char>>) -> bool {
    keys_ascending(s) && forall|x: Seq<char>| s.contains(x) <==> set.contains(x)
}

/// Some component differs between two tables.
pub open spec fn has_changes(cur: Map<Seq<char>, Component>, new: Map<Seq<char>, Component>) -> bool {
    exists|k: Seq<char>| #[trigger] change_for(cur, new, k) is Some
}

/// The differences between two versions of a scene.
#[derive(Debug)]
pub struct SceneDiff {
    pub added_nodes: Vec<Node>,
    pub removed_node_ids: Vec<String>,
    pub type_changes: StrMap<String>,
    pub component_changes: StrMap<StrMap<ComponentChange>>,
    pub behavior_changes: StrMap<Vec<Behavior>>,
}

/// Whether `d` is the diff from nodes `cur` to nodes `new` (each id taken
/// by the last node that has it): nodes whose id is new (copies, in id
/// order), ids that are gone (in order), new types, new behaviors (when
/// not equal to the old ones) and component changes, by id.
pub open spec fn diff_matches(cur: Seq<Node>, new: Seq<Node>, d: SceneDiff) -> bool {
    let c = by_id(cur);
    let n = by_id(new);
    &&& lists_in_order(ids_of(d.added_nodes@), n.dom().difference(c.dom()))
    &&& forall|i: int| 0 <= i < d.added_nodes@.len() ==> node_same(#[trigger] d.added_nodes@[i], n[d.added_nodes@[i].id@])
    &&& lists_in_order(texts(d.removed_node_ids@), c.dom().difference(n.dom()))
    &&& forall|k: Seq<char>| #[trigger] d.type_changes@.contains_key(k)
        <==> (c.contains_key(k) && n.contains_key(k) && c[k].node_type@ != n[k].node_type@)
    &&& forall|k: Seq<char>| #[trigger] d.type_changes@.contains_key(k) ==> d.type_changes@[k]@ == n[k].node_type@
    &&& forall|k: Seq<char>| #[trigger] d.behavior_changes@.contains_key(k)
        <==> (c.contains_key(k) && n.contains_key(k) && !behaviors_same(c[k].behaviors@, n[k].behaviors@))
    &&& forall|k: Seq<char>| #[trigger] d.behavior_changes@.contains_key(k) ==> behaviors_same(d.behavior_changes@[k]@, n[k].behaviors@)
    &&& forall|k: Seq<char>| #[trigger] d.component_changes@.contains_key(k)
        <==> (c.contains_key(k) && n.contains_key(k) && has_changes(c[k].components@, n[k].components@))
    &&& forall|k: Seq<char>| #[trigger] d.component_changes@.contains_key(k)
        ==> changes_between(c[k].components@, n[k].components@, d.component_changes@[k]@)
}

/// Maps each id to the index of the last node with it.
fn index_by_id(nodes: &Vec<Node>) -> (r: StrMap<usize>)
    ensures
        forall|k: Seq<char>| #[trigger] r@.contains_key(k) <==> by_id(nodes@).contains_key(k),
        forall|k: Seq<char>| #[trigger] r@.contains_key(k) ==> r@[k] < nodes@.len() && nodes@[r@[k] as int] == by_id(nodes@)[k],
{
    let mut out: StrMap<usize> = StrMap::new();
    let mut i: usize = 0;
    assert(nodes@.take(0) =~= seq![]);
    while i < nodes.len()
        invariant
            i <= nodes@.len(),
            forall|k: Seq<char>| #[trigger] out@.contains_key(k) <==> by_id(nodes@.take(i as int)).contains_key(k),
            forall|k: Seq<char>| #[trigger] out@.contains_key(k) ==> out@[k] < i && nodes@[out@[k] as int] == by_id(nodes@.take(i as int))[k],
        decreases nodes.len() - i,
    {
        out.insert(nodes[i].id.clone(), i);
        assert(nodes@.take(i + 1).drop_last() =~= nodes@.take(i as int));
        i += 1;
    }
    assert(nodes@.take(nodes@.len() as int) =~= nodes@);
    out
}

/// The keys of `keys` not in `other`, in order.
pub open spec fn missing_from(keys: Seq<Seq<char>>, other: Set<Seq<char>>) -> Seq<Seq<char>>
    decreases keys.len(),
{
    if keys.len() == 0 {
        seq![]
    } else {
        let prev = missing_from(keys.drop_last(), other);
        if other.contains(keys.last()) { prev } else { prev.push(keys.last()) }
    }
}

proof fn lemma_missing_from(keys: Seq<Seq<char>>, other: Set<Seq<char>>)
    requires
        keys_ascending(keys),
    ensures
        keys_ascending(missing_from(keys, other)),
        forall|x: Seq<char>| missing_from(keys, other).contains(x) <==> (keys.contains(x) && !other.contains(x)),
        forall|i: int| 0 <= i < missing_from(keys, other).len() ==> keys.contains(#[trigger] missing_from(keys, other)[i]),
    decreases keys.len(),
{
    if keys.len() > 0 {
        let pre = keys.drop_last();
        assert(keys_ascending(pre));
        lemma_missing_from(pre, other);
        let m = missing_from(pre, other);
        assert forall|x: Seq<char>| pre.contains(x) implies keys.contains(x) by {
            let i = choose|i: int| 0 <= i < pre.len() && pre[i] == x;
            assert(keys[i] == x);
        }
        assert forall|x: Seq<char>| keys.contains(x) implies pre.contains(x) || x == keys.last() by {
            let i = choose|i: int| 0 <= i < keys.len() && keys[i] == x;
            if i < keys.len() - 1 {
                assert(pre[i] == x);
            }
        }
        if !other.contains(keys.last()) {
            let m2 = m.push(keys.last());
            assert forall|i: int, j: int| 0 <= i < j < m2.len() implies crate::text::seq_lt(#[trigger] m2[i], #[trigger] m2[j]) by {
                if j == m2.len() - 1 {
                    assert(pre.contains(m2[i]));
                    let t = choose|t: int| 0 <= t < pre.len() && pre[t] == m2[i];
                    assert(keys[t] == m2[i]);
                }
            }
            assert(m2.last() == keys.last());
            assert(keys.last() == keys[keys.len() - 1]);
            assert forall|x: Seq<char>| m2.contains(x) <==> (keys.contains(x) && !other.contains(x)) by {
                if m2.contains(x) {
                    let i = choose|i: int| 0 <= i < m2.len() && m2[i] == x;
                    if i < m.len() { assert(m[i] == x); }
                }
                if keys.contains(x) && !other.contains(x) && x != keys.last() {
                    assert(m.contains(x));
                    let i = choose|i: int| 0 <= i < m.len() && m[i] == x;
                    assert(m2[i] == x);
                }
                if x == keys.last() {
                    assert(m2[m2.len() - 1] == x);
                }
            }
            assert forall|i: int| 0 <= i < m2.len() implies keys.contains(#[trigger] m2[i]) by {
                if i < m.len() { assert(m2[i] == m[i]); } else { assert(keys[keys.len() - 1] == m2[i]); }
            }
        } else {
            assert forall|x: Seq<char>| m.contains(x) <==> (keys.contains(x) && !other.contains(x)) by {
                if keys.contains(x) && !other.contains(x) {
                    assert(x != keys.last());
                }
            }
        }
    }
}

/// The differences between the current scene and a new version of it.
pub fn compute_scene_diff(current: &Scene, new: &Scene) -> (r: SceneDiff)
    ensures
        diff_matches(current.nodes@, new.nodes@, r),
{
    let ghost c = by_id(current.nodes@);
    let ghost n = by_id(new.nodes@);
    let cur_idx = index_by_id(&current.nodes);
    let new_idx = index_by_id(&new.nodes);
    new_idx.proof_keys();
    cur_idx.proof_keys();
    let ghost nkeys = new_idx.key_seq();
    let ghost ckeys = cur_idx.key_seq();
    let mut added: Vec<Node> = Vec::new();
    let mut type_changes: StrMap<String> = StrMap::new();
    let mut component_changes: StrMap<StrMap<ComponentChange>> = StrMap::new();
    let mut behavior_changes: StrMap<Vec<Behavior>> = StrMap::new();
    let len = new_idx.len();
    let mut j: usize = 0;
    assert(nkeys.take(0) =~= seq![]);
    while j < len
        invariant
            len == nkeys.len(),
            nkeys == new_idx.key_seq(),
            j <= len,
            c == by_id(current.nodes@),
            n == by_id(new.nodes@),
            forall|k: Seq<char>| #[trigger] cur_idx@.contains_key(k) <==> c.contains_key(k),
            forall|k: Seq<char>| #[trigger] cur_idx@.contains_key(k) ==> cur_idx@[k] < current.nodes@.len() && current.nodes@[cur_idx@[k] as int] == c[k],
            forall|k: Seq<char>| #[trigger] new_idx@.contains_key(k) <==> n.contains_key(k),
            forall|k: Seq<char>| #[trigger] new_idx@.contains_key(k) ==> new_idx@[k] < new.nodes@.len() && new.nodes@[new_idx@[k] as int] == n[k],
            forall|k: Seq<char>| new_idx@.contains_key(k) <==> nkeys.contains(k),
            keys_ascending(nkeys),
            ids_of(added@) == missing_from(nkeys.take(j as int), c.dom()),
            forall|i: int| 0 <= i < added@.len() ==> node_same(#[trigger] added@[i], n[added@[i].id@]),
            forall|k: Seq<char>| #[trigger] type_changes@.contains_key(k)
                <==> (nkeys.take(j as int).contains(k) && c.contains_key(k) && n.contains_key(k) && c[k].node_type@ != n[k].node_type@),
            forall|k: Seq<char>| #[trigger] type_changes@.contains_key(k) ==> type_changes@[k]@ == n[k].node_type@,
            forall|k: Seq<char>| #[trigger] behavior_changes@.contains_key(k)
                <==> (nkeys.take(j as int).contains(k) && c.contains_key(k) && n.contains_key(k) && !behaviors_same(c[k].behaviors@, n[k].behaviors@)),
            forall|k: Seq<char>| #[trigger] behavior_changes@.contains_key(k) ==> behaviors_same(behavior_changes@[k]@, n[k].behaviors@),
            forall|k: Seq<char>| #[trigger] component_changes@.contains_key(k)
                <==> (nkeys.take(j as int).contains(k) && c.contains_key(k) && n.contains_key(k) && has_changes(c[k].components@, n[k].components@)),
            forall|k: Seq<char>| #[trigger] component_changes@.contains_key(k)
                ==> changes_between(c[k].components@, n[k].components@, component_changes@[k]@),
        decreases len - j,
    {
        let id = new_idx.key_at(j);
        let ni = *new_idx.value_at(j);
        let ghost kid = id@;
        assert(nkeys.take(j + 1).drop_last() =~= nkeys.take(j as int));
        assert(nkeys.take(j + 1).last() == kid);
        proof {
            assert forall|k: Seq<char>| nkeys.take(j + 1).contains(k) <==> (nkeys.take(j as int).contains(k) || k == kid) by {
                if nkeys.take(j + 1).contains(k) && k != kid {
                    let t = choose|t: int| 0 <= t < j + 1 && #[trigger] nkeys.take(j + 1)[t] == k;
                    assert(nkeys.take(j as int)[t] == k);
                }
                if nkeys.take(j as int).contains(k) {
                    let t = choose|t: int| 0 <= t < j && #[trigger] nkeys.take(j as int)[t] == k;
                    assert(nkeys.take(j + 1)[t] == k);
                }
                if k == kid {
                    assert(nkeys.take(j + 1)[j as int] == k);
                }
            }
            assert(!nkeys.take(j as int).contains(kid)) by {
                if nkeys.take(j as int).contains(kid) {
                    let t = choose|t: int| 0 <= t < j && #[trigger] nkeys.take(j as int)[t] == kid;
                    crate::text::lemma_seq_lt_irreflexive(kid);
                    assert(crate::text::seq_lt(nkeys[t], nkeys[j as int]));
                }
            }
        }
        let nn = &new.nodes[ni];
        match cur_idx.get(id.as_str()) {
            None => {
                let ghost before = added@;
                let cp = node_copy(nn);
                proof { lemma_by_id_ids(new.nodes@); }
                assert(nn == n[kid]);
                assert(cp.id@ == kid);
                let ghost cpv = cp;
                added.push(cp);
                assert(added@ == before.push(cpv));
                proof {
                    assert(ids_of(added@) =~= ids_of(before).push(kid));
                    assert forall|i: int| 0 <= i < added@.len() implies node_same(#[trigger] added@[i], n[added@[i].id@]) by {
                        if i < before.len() { assert(added@[i] == before[i]); }
                    }
                }
            },
            Some(ci) => {
                let cn = &current.nodes[*ci];
                if !str_eq(cn.node_type.as_str(), nn.node_type.as_str()) {
                    type_changes.insert(id.clone(), nn.node_type.clone());
                }
                if !behaviors_equal(&cn.behaviors, &nn.behaviors) {
                    behavior_changes.insert(id.clone(), behaviors_copy(&nn.behaviors));
                }
                let comp = compute_component_changes(&cn.components, &nn.components);
                comp.proof_keys();
                let empty = comp.is_empty();
                proof {
                    if has_changes(c[kid].components@, n[kid].components@) {
                        let k2 = choose|k2: Seq<char>| #[trigger] change_for(c[kid].components@, n[kid].components@, k2) is Some;
                        assert(comp@.contains_key(k2));
                        assert(comp.key_seq().contains(k2));
                    } else {
                        if comp.key_seq().len() > 0 {
                            let k2 = comp.key_seq()[0];
                            assert(comp.key_seq().contains(k2));
                            assert(comp@.contains_key(k2));
                            assert(change_for(c[kid].components@, n[kid].components@, k2) is Some);
                        }
                    }
                }
                if !empty {
                    component_changes.insert(id.clone(), comp);
                }
                assert(ids_of(added@) =~= missing_from(nkeys.take(j + 1), c.dom()));
            },
        }
        j += 1;
    }
    assert(nkeys.take(len as int) =~= nkeys);
    let mut removed: Vec<String> = Vec::new();
    let clen = cur_idx.len();
    let mut q: usize = 0;
    assert(ckeys.take(0) =~= seq![]);
    while q < clen
        invariant
            clen == ckeys.len(),
            ckeys == cur_idx.key_seq(),
            q <= clen,
            forall|k: Seq<char>| #[trigger] new_idx@.contains_key(k) <==> n.contains_key(k),
            texts(removed@) == missing_from(ckeys.take(q as int), n.dom()),
        decreases clen - q,
    {
        let id = cur_idx.key_at(q);
        assert(ckeys.take(q + 1).drop_last() =~= ckeys.take(q as int));
        assert(ckeys.take(q + 1).last() == id@);
        if !new_idx.contains_key(id.as_str()) {
            let ghost before = removed@;
            removed.push(id.clone());
            assert(texts(removed@) =~= texts(before).push(id@));
        }
        q += 1;
    }
    assert(ckeys.take(clen as int) =~= ckeys);
    proof {
        lemma_missing_from(nkeys, c.dom());
        lemma_missing_from(ckeys, n.dom());
    }
    SceneDiff { added_nodes: added, removed_node_ids: removed, type_changes, component_changes, behavior_changes }
}

// ------------------------------------------------------------- applying

/// The ids a diff removes.
pub open spec fn removed_ids(d: SceneDiff) -> Set<Seq<char>> {
    texts(d.removed_node_ids@).to_set()
}

/// The nodes whose id is not among `gone`, in order.
pub open spec fn kept(nodes: Seq<Node>, gone: Set<Seq<char>>) -> Seq<Node> {
    nodes.filter(|x: Node| !gone.contains(x.id@))
}

/// The added nodes whose type is registered, in order.
pub open spec fn registered_additions(d: SceneDiff, reg: Map<Seq<char>, Seq<ComponentSpec>>) -> Seq<Node> {
    d.added_nodes@.filter(|x: Node| reg.contains_key(x.node_type@))
}

/// Node `out` is kept node `i` of `k` with the diff applied: the first
/// node with an id takes the id's new type (when that type is
/// registered), new behaviors and component changes; every other field,
/// and every later node with the same id, stays as it was.
pub open spec fn reloaded_node(k: Seq<Node>, i: int, d: SceneDiff, reg: Map<Seq<char>, Seq<ComponentSpec>>, out: Node) -> bool {
    let old = k[i];
    let id = old.id@;
    let first = first_node(k, id, false) == Some(i);
    &&& out.id == old.id
    &&& out.parent == old.parent
    &&& out.active_state == old.active_state
    &&& out.lua_class == old.lua_class
    &&& out.destroyed == old.destroyed
    &&& out.node_type@ == (if first && d.type_changes@.contains_key(id) && reg.contains_key(d.type_changes@[id]@) {
            d.type_changes@[id]@
        } else {
            old.node_type@
        })
    &&& (if first && d.behavior_changes@.contains_key(id) {
            behaviors_same(out.behaviors@, d.behavior_changes@[id]@)
        } else {
            out.behaviors == old.behaviors
        })
    &&& (if first && d.component_changes@.contains_key(id) {
            forall|key: Seq<char>| #[trigger] holds(out.components@, key, applied_at(old.components@, d.component_changes@[id]@, key))
        } else {
            out.components == old.components
        })
}

/// `nodes` is `old` with diff `d` applied: nodes with a removed id are
/// gone, the others are updated in place, and copies of the added nodes
/// of registered types follow, in the diff's order.
pub open spec fn reloaded(old: Seq<Node>, d: SceneDiff, reg: Map<Seq<char>, Seq<ComponentSpec>>, nodes: Seq<Node>) -> bool {
    let k = kept(old, removed_ids(d));
    let a = registered_additions(d, reg);
    &&& nodes.len() == k.len() + a.len()
    &&& forall|i: int| 0 <= i < k.len() ==> reloaded_node(k, i, d, reg, #[trigger] nodes[i])
    &&& forall|j: int| 0 <= j < a.len() ==> node_same(#[trigger] nodes[k.len() + j], a[j])
}

fn contains_text(v: &Vec<String>, s: &str) -> (r: bool)
    ensures
        r == texts(v@).contains(s@),
{
    let mut i: usize = 0;
    while i < v.len()
        invariant
            i <= v@.len(),
            forall|j: int| 0 <= j < i ==> v@[j]@ != s@,
        decreases v.len() - i,
    {
        if str_eq(v[i].as_str(), s) {
            assert(texts(v@)[i as int] == s@);
            return true;
        }
        i += 1;
    }
    proof {
        if texts(v@).contains(s@) {
            let j = choose|j: int| 0 <= j < texts(v@).len() && texts(v@)[j] == s@;
            assert(v@[j]@ == s@);
        }
    }
    false
}

/// Applies a diff to the running scene: removes nodes with a removed id,
/// updates the first node with each changed id (types only to registered
/// types), and appends copies of added nodes of registered types.
pub fn apply_scene_diff(scene: &mut Scene, registry: &NodeRegistry, diff: &SceneDiff) -> (r: EngineResult<()>)
    ensures
        r is Ok,
        reloaded(old(scene).nodes@, *diff, registry@, final(scene).nodes@),
        final(scene).kind == old(scene).kind,
        final(scene).name == old(scene).name,
        final(scene).spawn_counter == old(scene).spawn_counter,
{
    let mut nodes: Vec<Node> = Vec::new();
    std::mem::swap(&mut nodes, &mut scene.nodes);
    let ghost all = nodes@;
    let ghost gone = removed_ids(*diff);
    let mut kept_v: Vec<Node> = Vec::new();
    let n = nodes.len();
    let mut i: usize = 0;
    assert(nodes@ =~= all.skip(0));
    proof { reveal(Seq::filter); }
    assert(kept(all.take(0), gone) =~= seq![]);
    while i < n
        invariant
            n == all.len(),
            i <= n,
            gone == removed_ids(*diff),
            nodes@ == all.skip(i as int),
            kept_v@ == kept(all.take(i as int), gone),
        decreases n - i,
    {
        proof { reveal(Seq::filter); }
        let ghost before = nodes@;
        let node = nodes.remove(0);
        assert(node == all[i as int]);
        assert(nodes@ =~= all.skip(i + 1));
        assert(all.take(i + 1).drop_last() =~= all.take(i as int));
        assert(all.take(i + 1).last() == all[i as int]);
        if !contains_text(&diff.removed_node_ids, node.id.as_str()) {
            kept_v.push(node);
        }
        i += 1;
    }
    assert(all.take(n as int) =~= all);
    let ghost k = kept_v@;
    let mut out: Vec<Node> = Vec::new();
    let mut seen: StrMap<bool> = StrMap::new();
    let m = kept_v.len();
    let mut rest = kept_v;
    let mut t: usize = 0;
    assert(rest@ =~= k.skip(0));
    assert(seen@.dom() =~= ids_of(k.take(0)).to_set());
    while t < m
        invariant
            m == k.len(),
            t <= m,
            rest@ == k.skip(t as int),
            out@.len() == t,
            seen@.dom() == ids_of(k.take(t as int)).to_set(),
            forall|q: int| 0 <= q < t ==> reloaded_node(k, q, *diff, registry@, #[trigger] out@[q]),
        decreases m - t,
    {
        let mut node = rest.remove(0);
        assert(node == k[t as int]);
        assert(rest@ =~= k.skip(t + 1));
        let ghost id = node.id@;
        let first = !seen.contains_key(node.id.as_str());
        proof {
            lemma_first_node(k, id, false);
            let ids = ids_of(k.take(t as int));
            if first {
                assert forall|j: int| 0 <= j < t implies k[j].id@ != id by {
                    assert(ids[j] == k[j].id@);
                    assert(ids.contains(k[j].id@));
                }
                match first_node(k, id, false) {
                    Some(f) => {
                        if f > t { assert(k[t as int].id@ == id); }
                    },
                    None => { assert(k[t as int].id@ == id); },
                }
                assert(first_node(k, id, false) == Some(t as int));
            } else {
                assert(ids.contains(id));
                let j = choose|j: int| 0 <= j < ids.len() && ids[j] == id;
                assert(k[j].id@ == id);
                assert(first_node(k, id, false) != Some(t as int));
            }
        }
        let ghost old_node = node;
        if first {
            seen.insert(node.id.clone(), true);
            match diff.type_changes.get(node.id.as_str()) {
                Some(nt) => {
                    if registry.get(nt.as_str()).is_some() {
                        node.node_type = nt.clone();
                    }
                },
                None => {},
            }
            match diff.behavior_changes.get(node.id.as_str()) {
                Some(b) => {
                    node.behaviors = behaviors_copy(b);
                },
                None => {},
            }
            match diff.component_changes.get(node.id.as_str()) {
                Some(c) => {
                    apply_component_changes(&mut node.components, c);
                },
                None => {},
            }
        }
        proof {
            assert(ids_of(k.take(t + 1)) =~= ids_of(k.take(t as int)).push(id));
            ids_of(k.take(t as int)).lemma_push_to_set_commute(id);
        }
        let ghost before = out@;
        let ghost nv = node;
        out.push(node);
        proof {
            assert(out@ == before.push(nv));
            assert(reloaded_node(k, t as int, *diff, registry@, nv));
            assert forall|q: int| 0 <= q < t + 1 implies reloaded_node(k, q, *diff, registry@, #[trigger] out@[q]) by {
                if q < t { assert(out@[q] == before[q]); }
            }
            assert(seen@.dom() =~= ids_of(k.take(t + 1)).to_set());
        }
        t += 1;
    }
    let ghost a = registered_additions(*diff, registry@);
    let ghost added = diff.added_nodes@;
    let alen = diff.added_nodes.len();
    let mut j: usize = 0;
    proof { reveal(Seq::filter); }
    assert(added.take(0).filter(|x: Node| registry@.contains_key(x.node_type@)) =~= seq![]);
    while j < alen
        invariant
            alen == added.len(),
            added == diff.added_nodes@,
            j <= alen,
            out@.len() == m + added.take(j as int).filter(|x: Node| registry@.contains_key(x.node_type@)).len(),
            forall|q: int| 0 <= q < m ==> reloaded_node(k, q, *diff, registry@, #[trigger] out@[q]),
            forall|q: int| 0 <= q < added.take(j as int).filter(|x: Node| registry@.contains_key(x.node_type@)).len()
                ==> node_same(#[trigger] out@[m + q], added.take(j as int).filter(|x: Node| registry@.contains_key(x.node_type@))[q]),
        decreases alen - j,
    {
        proof { reveal(Seq::filter); }
        let ghost f0 = added.take(j as int).filter(|x: Node| registry@.contains_key(x.node_type@));
        assert(added.take(j + 1).drop_last() =~= added.take(j as int));
        assert(added.take(j + 1).last() == added[j as int]);
        if registry.get(diff.added_nodes[j].node_type.as_str()).is_some() {
            let ghost before = out@;
            let c = node_copy(&diff.added_nodes[j]);
            let ghost cv = c;
            out.push(c);
            proof {
                let f1 = added.take(j + 1).filter(|x: Node| registry@.contains_key(x.node_type@));
                assert(f1 == f0.push(added[j as int]));
                assert forall|q: int| 0 <= q < f1.len() implies node_same(#[trigger] out@[m + q], f1[q]) by {
                    if q < f0.len() {
                        assert(out@[m + q] == before[m + q]);
                    } else {
                        assert(out@[m + q] == cv);
                    }
                }
                assert forall|q: int| 0 <= q < m implies reloaded_node(k, q, *diff, registry@, #[trigger] out@[q]) by {
                    assert(out@[q] == before[q]);
                }
            }
        }
        j += 1;
    }
    assert(added.take(alen as int) =~= added);
    scene.nodes = out;
    Ok(())
}

/// Whether a diff changes nothing.
pub open spec fn diff_empty(d: SceneDiff) -> bool {
    &&& d.added_nodes@.len() == 0
    &&& d.removed_node_ids@.len() == 0
    &&& d.type_changes@.dom().len() == 0
    &&& d.component_changes@.dom().len() == 0
    &&& d.behavior_changes@.dom().len() == 0
}

/// The ids a diff touches.
pub open spec fn affected_set(d: SceneDiff) -> Set<Seq<char>> {
    ids_of(d.added_nodes@).to_set()
        .union(texts(d.removed_node_ids@).to_set())
        .union(d.type_changes@.dom())
        .union(d.component_changes@.dom())
        .union(d.behavior_changes@.dom())
}

fn insert_all(set: &mut StrMap<bool>, v: &Vec<String>)
    ensures
        final(set)@.dom() == old(set)@.dom().union(texts(v@).to_set()),
{
    let ghost start = set@.dom();
    let mut i: usize = 0;
    assert(texts(v@).take(0).to_set() =~= Set::empty());
    assert(start.union(Set::empty()) =~= start);
    while i < v.len()
        invariant
            i <= v@.len(),
            set@.dom() == start.union(texts(v@).take(i as int).to_set()),
        decreases v.len() - i,
    {
        set.insert(v[i].clone(), true);
        proof {
            let ts = texts(v@);
            assert(ts.take(i + 1) =~= ts.take(i as int).push(ts[i as int]));
            ts.take(i as int).lemma_push_to_set_commute(ts[i as int]);
            assert(set@.dom() =~= start.union(ts.take(i + 1).to_set()));
        }
        i += 1;
    }
    assert(texts(v@).take(v@.len() as int) =~= texts(v@));
}

fn insert_keys<V>(set: &mut StrMap<bool>, m: &StrMap<V>)
    ensures
        final(set)@.dom() == old(set)@.dom().union(m@.dom()),
{
    m.proof_keys();
    let ghost start = set@.dom();
    let n = m.len();
    let mut i: usize = 0;
    assert(start.union(m.key_seq().take(0).to_set()) =~= start);
    while i < n
        invariant
            i <= n == m.key_seq().len(),
            forall|k: Seq<char>| m@.contains_key(k) <==> m.key_seq().contains(k),
            set@.dom() == start.union(m.key_seq().take(i as int).to_set()),
        decreases n - i,
    {
        let k = m.key_at(i).clone();
        set.insert(k, true);
        proof {
            let ks = m.key_seq();
            assert(ks.take(i + 1) =~= ks.take(i as int).push(ks[i as int]));
            ks.take(i as int).lemma_push_to_set_commute(ks[i as int]);
            assert(set@.dom() =~= start.union(ks.take(i + 1).to_set()));
        }
        i += 1;
    }
    proof {
        assert(m.key_seq().take(n as int) =~= m.key_seq());
        assert(m.key_seq().to_set() =~= m@.dom());
    }
}

impl SceneDiff {
    /// Whether the diff changes nothing.
    pub fn is_empty(&self) -> (r: bool)
        ensures
            r == diff_empty(*self),
    {
        self.added_nodes.len() == 0 && self.removed_node_ids.len() == 0 && self.type_changes.is_empty()
            && self.component_changes.is_empty() && self.behavior_changes.is_empty()
    }

    /// Every id the diff touches, once each, in ascending order.
    pub fn affected_node_ids(&self) -> (r: Vec<String>)
        ensures
            lists_in_order(texts(r@), affected_set(*self)),
    {
        let mut set: StrMap<bool> = StrMap::new();
        let mut i: usize = 0;
        let ghost ids = ids_of(self.added_nodes@);
        assert(set@.dom() =~= ids.take(0).to_set());
        while i < self.added_nodes.len()
            invariant
                i <= self.added_nodes@.len(),
                ids == ids_of(self.added_nodes@),
                set@.dom() == ids.take(i as int).to_set(),
            decreases self.added_nodes.len() - i,
        {
            set.insert(self.added_nodes[i].id.clone(), true);
            proof {
                assert(ids.take(i + 1) =~= ids.take(i as int).push(ids[i as int]));
                ids.take(i as int).lemma_push_to_set_commute(ids[i as int]);
                assert(set@.dom() =~= ids.take(i + 1).to_set());
            }
            i += 1;
        }
        assert(ids.take(ids.len() as int) =~= ids);
        insert_all(&mut set, &self.removed_node_ids);
        insert_keys(&mut set, &self.type_changes);
        insert_keys(&mut set, &self.component_changes);
        insert_keys(&mut set, &self.behavior_changes);
        set.proof_keys();
        let mut out: Vec<String> = Vec::new();
        let n = set.len();
        let mut j: usize = 0;
        while j < n
            invariant
                j <= n == set.key_seq().len(),
                texts(out@) == set.key_seq().take(j as int),
            decreases n - j,
        {
            let ghost before = out@;
            let kc = set.key_at(j).clone();
            let ghost kv = kc;
            out.push(kc);
            assert(out@ == before.push(kv));
            assert(kv@ == set.key_seq()[j as int]);
            assert(texts(out@) =~= texts(before).push(kv@));
            assert(set.key_seq().take(j + 1) =~= set.key_seq().take(j as int).push(set.key_seq()[j as int]));
            assert(texts(out@) =~= set.key_seq().take(j + 1));
            j += 1;
        }
        proof {
            let ks = set.key_seq();
            assert(ks.take(n as int) =~= ks);
            assert(set@.dom() =~= affected_set(*self));
        }
        out
    }
}

/// The outcome of a hot reload.
#[derive(Debug)]
pub struct HotReloadResult {
    pub diff: SceneDiff,
    pub affected_node_ids: Vec<String>,
    pub applied: bool,
}

/// Reloads the scene from a new version: computes the diff and, unless it
/// is empty, applies it.
pub fn hot_reload_scene(scene: &mut Scene, registry: &NodeRegistry, new_scene: &Scene) -> (r: EngineResult<HotReloadResult>)
    ensures
        r matches Ok(res) && {
            &&& diff_matches(old(scene).nodes@, new_scene.nodes@, res.diff)
            &&& lists_in_order(texts(res.affected_node_ids@), affected_set(res.diff))
            &&& res.applied == !diff_empty(res.diff)
            &&& if res.applied {
                reloaded(old(scene).nodes@, res.diff, registry@, final(scene).nodes@)
            } else {
                final(scene).nodes == old(scene).nodes
            }
        },
        final(scene).kind == old(scene).kind,
        final(scene).name == old(scene).name,
        final(scene).spawn_counter == old(scene).spawn_counter,
{
    let diff = compute_scene_diff(scene, new_scene);
    let affected = diff.affected_node_ids();
    if diff.is_empty() {
        return Ok(HotReloadResult { diff, affected_node_ids: affected, applied: false });
    }
    match apply_scene_diff(scene, registry, &diff) {
        Ok(()) => {},
        Err(e) => { return Err(e); },
    }
    Ok(HotReloadResult { diff, affected_node_ids: affected, applied: true })
}

/// The value of component `key` of the first node with id `node_id`.
pub fn snapshot_node_value(current: &Scene, node_id: &str, key: &str) -> (r: Option<ComponentValue>)
    ensures
        match first_node(current.nodes@, node_id@, false) {
            Some(i) => match r {
                Some(v) => current.nodes@[i].components@.contains_key(key@) && v@ == current.nodes@[i].components@[key@].value@,
                None => !current.nodes@[i].components@.contains_key(key@),
            },
            None => r is None,
        },
{
    proof { lemma_first_node(current.nodes@, node_id@, false); }
    match current.find_node_index_raw(node_id) {
        Some(i) => match current.nodes[i].components.get(key) {
            Some(c) => Some(c.value.clone()),
            None => None,
        },
        None => None,
    }
}

/// The number of nodes in the scene.
pub fn snapshot_count(scene: &Scene) -> (r: usize)
    ensures
        r == scene.nodes@.len(),
{
    scene.nodes.len()
}

// ------------------------------------------------------------------ laws

/// A diff of a scene against itself adds no node, removes no node and
/// changes no type.
pub proof fn law_diff_of_same_scene(nodes: Seq<Node>, d: SceneDiff)
    requires
        diff_matches(nodes, nodes, d),
    ensures
        d.added_nodes@.len() == 0,
        d.removed_node_ids@.len() == 0,
        d.type_changes@.dom() == Set::<Seq<char>>::empty(),
{
    let ids = ids_of(d.added_nodes@);
    if ids.len() > 0 {
        assert(ids.contains(ids[0]));
    }
    let rs = texts(d.removed_node_ids@);
    if rs.len() > 0 {
        assert(rs.contains(rs[0]));
    }
    assert(d.type_changes@.dom() =~= Set::<Seq<char>>::empty());
}

/// A diff of a scene against itself records no component change, where
/// each component value equals itself (numbers compare by
/// `serde_json::Number::as_f64`, a name here, so that is not known of
/// every float).
pub proof fn law_diff_of_same_scene_changes_no_component(nodes: Seq<Node>, d: SceneDiff)
    requires
        diff_matches(nodes, nodes, d),
        forall|j: int, k: Seq<char>| 0 <= j < nodes.len() && #[trigger] nodes[j].components@.contains_key(k)
            ==> values_same(nodes[j].components@[k].value@, nodes[j].components@[k].value@),
    ensures
        d.component_changes@.dom() == Set::<Seq<char>>::empty(),
{
    let c = by_id(nodes);
    assert forall|k: Seq<char>| !(#[trigger] d.component_changes@.contains_key(k)) by {
        if d.component_changes@.contains_key(k) {
            let m = c[k].components@;
            let w = choose|q: Seq<char>| #[trigger] change_for(m, m, q) is Some;
            lemma_by_id_member(nodes, k);
            let j = choose|j: int| 0 <= j < nodes.len() && nodes[j] == c[k];
            assert(nodes[j].components@.contains_key(w));
        }
    }
    assert(d.component_changes@.dom() =~= Set::<Seq<char>>::empty());
}

/// A diff of a scene against itself records no behavior change, numbers
/// comparing as `serde_json::Number`'s `Eq` promises.
pub proof fn law_diff_of_same_scene_changes_no_behaviors(nodes: Seq<Node>, d: SceneDiff)
    requires
        diff_matches(nodes, nodes, d),
        numbers_reflexive(),
    ensures
        d.behavior_changes@.dom() == Set::<Seq<char>>::empty(),
{
    let c = by_id(nodes);
    assert forall|k: Seq<char>| !(#[trigger] d.behavior_changes@.contains_key(k)) by {
        if d.behavior_changes@.contains_key(k) {
            lemma_behaviors_refl(c[k].behaviors@);
        }
    }
    assert(d.behavior_changes@.dom() =~= Set::<Seq<char>>::empty());
}

/// A scene diffed against itself gives the empty diff (`SceneDiff::is_empty`),
/// where each component value equals itself and numbers compare as
/// `Eq` promises.
pub proof fn law_diff_of_same_scene_is_empty(nodes: Seq<Node>, d: SceneDiff)
    requires
        diff_matches(nodes, nodes, d),
        numbers_reflexive(),
        forall|j: int, k: Seq<char>| 0 <= j < nodes.len() && #[trigger] nodes[j].components@.contains_key(k)
            ==> values_same(nodes[j].components@[k].value@, nodes[j].components@[k].value@),
    ensures
        diff_empty(d),
{
    law_diff_of_same_scene(nodes, d);
    law_diff_of_same_scene_changes_no_component(nodes, d);
    law_diff_of_same_scene_changes_no_behaviors(nodes, d);
}

/// After a reload, no node carries an id the diff removed.
pub proof fn law_reload_drops_removed_ids(cur: Seq<Node>, new: Seq<Node>, d: SceneDiff,
    reg: Map<Seq<char>, Seq<ComponentSpec>>, out: Seq<Node>, j: int)
    requires
        diff_matches(cur, new, d),
        reloaded(cur, d, reg, out),
        0 <= j < out.len(),
    ensures
        !removed_ids(d).contains(out[j].id@),
{
    let gone = removed_ids(d);
    let k = kept(cur, gone);
    let c = by_id(cur);
    let n = by_id(new);
    if j < k.len() {
        cur.lemma_filter_pred(|x: Node| !gone.contains(x.id@), j);
        assert(reloaded_node(k, j, d, reg, out[j]));
        assert(out[j].id == k[j].id);
    } else {
        let a = registered_additions(d, reg);
        let q = j - k.len();
        assert(node_same(out[k.len() + q], a[q]));
        assert(a.contains(a[q]));
        d.added_nodes@.lemma_filter_contains_rev(|x: Node| reg.contains_key(x.node_type@), a[q]);
        let p = choose|p: int| 0 <= p < d.added_nodes@.len() && d.added_nodes@[p] == a[q];
        let id = a[q].id@;
        assert(ids_of(d.added_nodes@)[p] == id);
        assert(ids_of(d.added_nodes@).contains(id));
        assert(n.dom().difference(c.dom()).contains(id));
        if gone.contains(id) {
            assert(texts(d.removed_node_ids@).contains(id));
        }
    }
}

/// After a reload, a kept node that is the first with its id, and the node
/// the old scene names by that id, holds exactly the components of the new
/// scene's node with that id, each with the new value (or one equal to it
/// by value).
pub proof fn law_reload_reaches_new_components(cur: Seq<Node>, new: Seq<Node>, d: SceneDiff,
    reg: Map<Seq<char>, Seq<ComponentSpec>>, out: Seq<Node>, i: int, key: Seq<char>)
    requires
        diff_matches(cur, new, d),
        reloaded(cur, d, reg, out),
        0 <= i < kept(cur, removed_ids(d)).len(),
        first_node(kept(cur, removed_ids(d)), kept(cur, removed_ids(d))[i].id@, false) == Some(i),
        by_id(cur).contains_key(kept(cur, removed_ids(d))[i].id@),
        kept(cur, removed_ids(d))[i] == by_id(cur)[kept(cur, removed_ids(d))[i].id@],
        by_id(new).contains_key(kept(cur, removed_ids(d))[i].id@),
    ensures
        out[i].components@.contains_key(key)
            <==> by_id(new)[kept(cur, removed_ids(d))[i].id@].components@.contains_key(key),
        out[i].components@.contains_key(key) ==> ({
            let v = out[i].components@[key].value@;
            let w = by_id(new)[kept(cur, removed_ids(d))[i].id@].components@[key].value@;
            v == w || values_same(v, w)
        }),
{
    let k = kept(cur, removed_ids(d));
    let id = k[i].id@;
    let c = by_id(cur);
    let n = by_id(new);
    assert(reloaded_node(k, i, d, reg, out[i]));
    if d.component_changes@.contains_key(id) {
        assert(holds(out[i].components@, key, applied_at(k[i].components@, d.component_changes@[id]@, key)));
        law_apply_changes_reaches_new(c[id].components@, n[id].components@, d.component_changes@[id]@, key);
    } else {
        assert(!has_changes(c[id].components@, n[id].components@));
        assert(change_for(c[id].components@, n[id].components@, key) is None);
    }
}

/// After a reload whose new scene registers all its types, the reloaded
/// nodes carry exactly the ids of the new scene.
pub proof fn law_reload_reaches_new_ids(cur: Seq<Node>, new: Seq<Node>, d: SceneDiff,
    reg: Map<Seq<char>, Seq<ComponentSpec>>, out: Seq<Node>, id: Seq<char>)
    requires
        diff_matches(cur, new, d),
        reloaded(cur, d, reg, out),
        forall|j: int| 0 <= j < new.len() ==> reg.contains_key(#[trigger] new[j].node_type@),
    ensures
        ids_of(out).contains(id) <==> by_id(new).contains_key(id),
{
    let gone = removed_ids(d);
    let k = kept(cur, gone);
    let a = registered_additions(d, reg);
    let c = by_id(cur);
    let n = by_id(new);
    let keep = |x: Node| !gone.contains(x.id@);
    let reg_ok = |x: Node| reg.contains_key(x.node_type@);
    if ids_of(out).contains(id) {
        let j = choose|j: int| 0 <= j < ids_of(out).len() && ids_of(out)[j] == id;
        law_reload_drops_removed_ids(cur, new, d, reg, out, j);
        if j < k.len() {
            assert(reloaded_node(k, j, d, reg, out[j]));
            assert(k.contains(k[j]));
            cur.lemma_filter_contains_rev(keep, k[j]);
            let p = choose|p: int| 0 <= p < cur.len() && cur[p] == k[j];
            lemma_by_id_has(cur, p);
            if !n.contains_key(id) {
                assert(c.dom().difference(n.dom()).contains(id));
                assert(texts(d.removed_node_ids@).contains(id));
            }
        } else {
            let q = j - k.len();
            assert(node_same(out[k.len() + q], a[q]));
            assert(a.contains(a[q]));
            d.added_nodes@.lemma_filter_contains_rev(reg_ok, a[q]);
            let p = choose|p: int| 0 <= p < d.added_nodes@.len() && d.added_nodes@[p] == a[q];
            assert(ids_of(d.added_nodes@)[p] == id);
            assert(ids_of(d.added_nodes@).contains(id));
        }
    }
    if n.contains_key(id) {
        if c.contains_key(id) {
            lemma_by_id_member(cur, id);
            lemma_by_id_ids(cur);
            let p = choose|p: int| 0 <= p < cur.len() && cur[p] == c[id];
            if gone.contains(id) {
                assert(texts(d.removed_node_ids@).contains(id));
            }
            cur.lemma_filter_contains(keep, p);
            let i = choose|i: int| 0 <= i < k.len() && k[i] == cur[p];
            assert(reloaded_node(k, i, d, reg, out[i]));
            assert(ids_of(out)[i] == id);
        } else {
            assert(n.dom().difference(c.dom()).contains(id));
            let p = choose|p: int| 0 <= p < ids_of(d.added_nodes@).len() && ids_of(d.added_nodes@)[p] == id;
            let x = d.added_nodes@[p];
            assert(node_same(x, n[x.id@]));
            lemma_by_id_member(new, id);
            let jn = choose|jn: int| 0 <= jn < new.len() && new[jn] == n[id];
            assert(reg.contains_key(new[jn].node_type@));
            d.added_nodes@.lemma_filter_contains(reg_ok, p);
            let q = choose|q: int| 0 <= q < a.len() && a[q] == x;
            assert(node_same(out[k.len() + q], a[q]));
            assert(ids_of(out)[k.len() + q] == id);
        }
    }
}

/// A node that is in the current scene and in the new one, and is the
/// first kept node with its id, ends a reload with the new scene's type
/// for that id (when that type is registered) and the new scene's
/// behaviors for it, numbers comparing as `Eq` promises.
pub proof fn law_reload_reaches_new_type_and_behaviors(cur: Seq<Node>, new: Seq<Node>, d: SceneDiff,
    reg: Map<Seq<char>, Seq<ComponentSpec>>, out: Seq<Node>, i: int)
    requires
        diff_matches(cur, new, d),
        reloaded(cur, d, reg, out),
        0 <= i < kept(cur, removed_ids(d)).len(),
        first_node(kept(cur, removed_ids(d)), kept(cur, removed_ids(d))[i].id@, false) == Some(i),
        kept(cur, removed_ids(d))[i] == by_id(cur)[kept(cur, removed_ids(d))[i].id@],
        by_id(cur).contains_key(kept(cur, removed_ids(d))[i].id@),
        by_id(new).contains_key(kept(cur, removed_ids(d))[i].id@),
        reg.contains_key(by_id(new)[kept(cur, removed_ids(d))[i].id@].node_type@),
        numbers_transitive(),
    ensures
        out[i].node_type@ == by_id(new)[kept(cur, removed_ids(d))[i].id@].node_type@,
        behaviors_same(out[i].behaviors@, by_id(new)[kept(cur, removed_ids(d))[i].id@].behaviors@),
{
    let k = kept(cur, removed_ids(d));
    let id = k[i].id@;
    assert(reloaded_node(k, i, d, reg, out[i]));
    if d.type_changes@.contains_key(id) {
        assert(d.type_changes@[id]@ == by_id(new)[id].node_type@);
    }
    if d.behavior_changes@.contains_key(id) {
        lemma_behaviors_trans(out[i].behaviors@, d.behavior_changes@[id]@, by_id(new)[id].behaviors@);
    }
}

/// No two nodes of a list share an id.
pub open spec fn ids_unique(nodes: Seq<Node>) -> bool {
    forall|i: int, j: int| 0 <= i < j < nodes.len() ==> (#[trigger] nodes[i]).id@ != (#[trigger] nodes[j]).id@
}

proof fn lemma_kept_unique(s: Seq<Node>, gone: Set<Seq<char>>)
    requires
        ids_unique(s),
    ensures
        ids_unique(kept(s, gone)),
    decreases s.len(),
{
    let pred = |x: Node| !gone.contains(x.id@);
    reveal(Seq::filter);
    if s.len() > 0 {
        let s0 = s.drop_last();
        assert(ids_unique(s0)) by {
            assert forall|i: int, j: int| 0 <= i < j < s0.len() implies (#[trigger] s0[i]).id@ != (#[trigger] s0[j]).id@ by {
                assert(s[i].id@ != s[j].id@);
            }
        }
        lemma_kept_unique(s0, gone);
        let f0 = s0.filter(pred);
        assert(s.filter(pred) == if pred(s.last()) { f0.push(s.last()) } else { f0 });
        if pred(s.last()) {
            let f = f0.push(s.last());
            assert forall|i: int, j: int| 0 <= i < j < f.len() implies (#[trigger] f[i]).id@ != (#[trigger] f[j]).id@ by {
                if j == f.len() - 1 {
                    assert(f0.contains(f0[i]));
                    s0.lemma_filter_contains_rev(pred, f0[i]);
                    let p = choose|p: int| 0 <= p < s0.len() && s0[p] == f0[i];
                    assert(s[p].id@ != s[s.len() - 1].id@);
                } else {
                    assert(f[i] == f0[i] && f[j] == f0[j]);
                }
            }
        }
    }
}

proof fn lemma_first_unique(k: Seq<Node>, i: int)
    requires
        ids_unique(k),
        0 <= i < k.len(),
    ensures
        first_node(k, k[i].id@, false) == Some(i),
    decreases k.len(),
{
    let k0 = k.drop_last();
    if i < k.len() - 1 {
        assert(ids_unique(k0)) by {
            assert forall|a: int, b: int| 0 <= a < b < k0.len() implies (#[trigger] k0[a]).id@ != (#[trigger] k0[b]).id@ by {
                assert(k[a].id@ != k[b].id@);
            }
        }
        lemma_first_unique(k0, i);
        assert(k0[i] == k[i]);
    } else {
        assert(first_node(k0, k[i].id@, false) is None) by {
            lemma_first_absent(k0, k[i].id@);
            assert forall|a: int| 0 <= a < k0.len() implies (#[trigger] k0[a]).id@ != k[i].id@ by {
                assert(k[a].id@ != k[i].id@);
            }
        }
    }
}

proof fn lemma_first_absent(k: Seq<Node>, id: Seq<char>)
    ensures
        (forall|a: int| 0 <= a < k.len() ==> (#[trigger] k[a]).id@ != id) ==> first_node(k, id, false) is None,
    decreases k.len(),
{
    if k.len() > 0 {
        lemma_first_absent(k.drop_last(), id);
        if forall|a: int| 0 <= a < k.len() ==> (#[trigger] k[a]).id@ != id {
            assert forall|a: int| 0 <= a < k.drop_last().len() implies (#[trigger] k.drop_last()[a]).id@ != id by {
                assert(k.drop_last()[a] == k[a]);
            }
            assert(k[k.len() - 1].id@ != id);
        }
    }
}

proof fn lemma_by_id_unique(nodes: Seq<Node>, p: int)
    requires
        ids_unique(nodes),
        0 <= p < nodes.len(),
    ensures
        by_id(nodes).contains_key(nodes[p].id@),
        by_id(nodes)[nodes[p].id@] == nodes[p],
    decreases nodes.len(),
{
    lemma_by_id_has(nodes, p);
    if p < nodes.len() - 1 {
        let n0 = nodes.drop_last();
        assert(ids_unique(n0)) by {
            assert forall|a: int, b: int| 0 <= a < b < n0.len() implies (#[trigger] n0[a]).id@ != (#[trigger] n0[b]).id@ by {
                assert(nodes[a].id@ != nodes[b].id@);
            }
        }
        lemma_by_id_unique(n0, p);
        assert(n0[p] == nodes[p]);
        assert(nodes[p].id@ != nodes[nodes.len() - 1].id@);
    }
}

/// Hot reload reaches the new scene. With no id repeated in either scene
/// and every type of the new scene registered, the nodes after applying
/// the diff carry exactly the new scene's ids, and each node has the new
/// scene's type, behaviors and components for its id (each value the new
/// one, or one equal to it by value), numbers comparing as `Eq` promises.
pub proof fn law_reload_reaches_new_scene(cur: Seq<Node>, new: Seq<Node>, d: SceneDiff,
    reg: Map<Seq<char>, Seq<ComponentSpec>>, out: Seq<Node>)
    requires
        ids_unique(cur),
        ids_unique(new),
        forall|j: int| 0 <= j < new.len() ==> reg.contains_key(#[trigger] new[j].node_type@),
        diff_matches(cur, new, d),
        reloaded(cur, d, reg, out),
        numbers_transitive(),
    ensures
        forall|id: Seq<char>| ids_of(out).contains(id) <==> #[trigger] by_id(new).contains_key(id),
        forall|j: int| 0 <= j < out.len() ==> {
            let n = by_id(new)[(#[trigger] out[j]).id@];
            &&& out[j].node_type@ == n.node_type@
            &&& behaviors_same(out[j].behaviors@, n.behaviors@)
            &&& forall|key: Seq<char>| out[j].components@.contains_key(key) <==> n.components@.contains_key(key)
            &&& forall|key: Seq<char>| #[trigger] out[j].components@.contains_key(key) ==> ({
                let v = out[j].components@[key].value@;
                let w = n.components@[key].value@;
                v == w || values_same(v, w)
            })
        },
{
    assert forall|id: Seq<char>| ids_of(out).contains(id) <==> #[trigger] by_id(new).contains_key(id) by {
        law_reload_reaches_new_ids(cur, new, d, reg, out, id);
    }
    let gone = removed_ids(d);
    let k = kept(cur, gone);
    let a = registered_additions(d, reg);
    let keep = |x: Node| !gone.contains(x.id@);
    let reg_ok = |x: Node| reg.contains_key(x.node_type@);
    lemma_kept_unique(cur, gone);
    assert forall|j: int| 0 <= j < out.len() implies {
        let n = by_id(new)[(#[trigger] out[j]).id@];
        &&& out[j].node_type@ == n.node_type@
        &&& behaviors_same(out[j].behaviors@, n.behaviors@)
        &&& forall|key: Seq<char>| out[j].components@.contains_key(key) <==> n.components@.contains_key(key)
        &&& forall|key: Seq<char>| #[trigger] out[j].components@.contains_key(key) ==> ({
            let v = out[j].components@[key].value@;
            let w = n.components@[key].value@;
            v == w || values_same(v, w)
        })
    } by {
        let id = out[j].id@;
        assert(ids_of(out)[j] == id);
        law_reload_reaches_new_ids(cur, new, d, reg, out, id);
        lemma_by_id_member(new, id);
        let jn = choose|jn: int| 0 <= jn < new.len() && new[jn] == by_id(new)[id];
        assert(reg.contains_key(new[jn].node_type@));
        if j < k.len() {
            assert(reloaded_node(k, j, d, reg, out[j]));
            assert(k[j].id@ == id);
            lemma_first_unique(k, j);
            assert(k.contains(k[j]));
            cur.lemma_filter_contains_rev(keep, k[j]);
            let p = choose|p: int| 0 <= p < cur.len() && cur[p] == k[j];
            lemma_by_id_unique(cur, p);
            law_reload_reaches_new_type_and_behaviors(cur, new, d, reg, out, j);
            assert forall|key: Seq<char>| out[j].components@.contains_key(key) <==> by_id(new)[id].components@.contains_key(key) by {
                law_reload_reaches_new_components(cur, new, d, reg, out, j, key);
            }
            assert forall|key: Seq<char>| #[trigger] out[j].components@.contains_key(key) implies ({
                let v = out[j].components@[key].value@;
                let w = by_id(new)[id].components@[key].value@;
                v == w || values_same(v, w)
            }) by {
                law_reload_reaches_new_components(cur, new, d, reg, out, j, key);
            }
        } else {
            let q = j - k.len();
            assert(node_same(out[k.len() + q], a[q]));
            assert(a.contains(a[q]));
            d.added_nodes@.lemma_filter_contains_rev(reg_ok, a[q]);
            let p = choose|p: int| 0 <= p < d.added_nodes@.len() && d.added_nodes@[p] == a[q];
            assert(node_same(d.added_nodes@[p], by_id(new)[d.added_nodes@[p].id@]));
            lemma_behaviors_trans(out[j].behaviors@, a[q].behaviors@, by_id(new)[id].behaviors@);
            assert forall|key: Seq<char>| out[j].components@.contains_key(key) <==> by_id(new)[id].components@.contains_key(key) by {
                assert(out[j].components@.dom().contains(key) == a[q].components@.dom().contains(key));
            }
        }
    }
}

} // verus!
