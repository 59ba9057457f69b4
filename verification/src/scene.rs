//! The scene model: nodes with typed components, the scene that holds
//! them, and the registry of node types with their component schemas.

use vstd::prelude::*;
use crate::behavior::Behavior;
use crate::error::{AutoFix, EngineError, EngineResult, ValidationError};
use crate::json::{Json, clone_number, numbers_equal, number_eq};
use crate::strmap::StrMap;
use crate::text::{push_str, push_decimal, decimal, digit_char, str_eq};

verus! {

broadcast use vstd::string::group_string_axioms;

/// A component's value. Non-integer numbers are `serde_json::Number`s,
/// as serde_json produced them.
#[derive(Debug, PartialEq)]
pub enum ComponentValue {
    Nil,
    Bool(bool),
    Int(i64),
    Float(serde_json::Number),
    String(String),
    Vec2([serde_json::Number; 2]),
    Vec3([serde_json::Number; 3]),
    Rect([serde_json::Number; 4]),
}

/// A component value with strings taken by their characters.
pub enum ValueView {
    Nil,
    Bool(bool),
    Int(i64),
    Float(serde_json::Number),
    String(Seq<char>),
    Vec2(Seq<serde_json::Number>),
    Vec3(Seq<serde_json::Number>),
    Rect(Seq<serde_json::Number>),
}

impl View for ComponentValue {
    type V = ValueView;

    open spec fn view(&self) -> ValueView {
        match self {
            ComponentValue::Nil => ValueView::Nil,
            ComponentValue::Bool(b) => ValueView::Bool(*b),
            ComponentValue::Int(i) => ValueView::Int(*i),
            ComponentValue::Float(f) => ValueView::Float(*f),
            ComponentValue::String(s) => ValueView::String(s@),
            ComponentValue::Vec2(v) => ValueView::Vec2(v@),
            ComponentValue::Vec3(v) => ValueView::Vec3(v@),
            ComponentValue::Rect(v) => ValueView::Rect(v@),
        }
    }
}

impl Clone for ComponentValue {
    fn clone(&self) -> (r: Self)
        ensures
            r@ == self@,
    {
        match self {
            ComponentValue::Nil => ComponentValue::Nil,
            ComponentValue::Bool(b) => ComponentValue::Bool(*b),
            ComponentValue::Int(i) => ComponentValue::Int(*i),
            ComponentValue::Float(f) => ComponentValue::Float(clone_number(f)),
            ComponentValue::String(s) => ComponentValue::String(s.clone()),
            ComponentValue::Vec2(v) => {
                let r = [clone_number(&v[0]), clone_number(&v[1])];
                assert(r@ =~= v@);
                ComponentValue::Vec2(r)
            },
            ComponentValue::Vec3(v) => {
                let r = [clone_number(&v[0]), clone_number(&v[1]), clone_number(&v[2])];
                assert(r@ =~= v@);
                ComponentValue::Vec3(r)
            },
            ComponentValue::Rect(v) => {
                let r = [clone_number(&v[0]), clone_number(&v[1]), clone_number(&v[2]), clone_number(&v[3])];
                assert(r@ =~= v@);
                ComponentValue::Rect(r)
            },
        }
    }
}

/// Element-wise numeric equality of two number sequences.
pub open spec fn numbers_same(a: Seq<serde_json::Number>, b: Seq<serde_json::Number>) -> bool {
    a.len() == b.len() && forall|i: int| 0 <= i < a.len() ==> number_eq(a[i], b[i])
}

/// Equality of component values, numbers compared by value.
pub open spec fn values_same(a: ValueView, b: ValueView) -> bool {
    match (a, b) {
        (ValueView::Nil, ValueView::Nil) => true,
        (ValueView::Bool(x), ValueView::Bool(y)) => x == y,
        (ValueView::Int(x), ValueView::Int(y)) => x == y,
        (ValueView::Float(x), ValueView::Float(y)) => number_eq(x, y),
        (ValueView::String(x), ValueView::String(y)) => x == y,
        (ValueView::Vec2(x), ValueView::Vec2(y)) => numbers_same(x, y),
        (ValueView::Vec3(x), ValueView::Vec3(y)) => numbers_same(x, y),
        (ValueView::Rect(x), ValueView::Rect(y)) => numbers_same(x, y),
        _ => false,
    }
}

fn numbers_equal_all(a: &[serde_json::Number], b: &[serde_json::Number]) -> (r: bool)
    requires
        a@.len() == b@.len(),
    ensures
        r == numbers_same(a@, b@),
{
    let mut i: usize = 0;
    while i < a.len()
        invariant
            i <= a@.len(),
            a@.len() == b@.len(),
            forall|k: int| 0 <= k < i ==> number_eq(a@[k], b@[k]),
        decreases a.len() - i,
    {
        if !numbers_equal(&a[i], &b[i]) {
            return false;
        }
        i += 1;
    }
    true
}

impl ComponentValue {
    /// Whether two values are equal (numbers compared by value, strings
    /// by content).
    pub fn same_as(&self, other: &ComponentValue) -> (r: bool)
        ensures
            r == values_same(self@, other@),
    {
        match (self, other) {
            (ComponentValue::Nil, ComponentValue::Nil) => true,
            (ComponentValue::Bool(a), ComponentValue::Bool(b)) => *a == *b,
            (ComponentValue::Int(a), ComponentValue::Int(b)) => *a == *b,
            (ComponentValue::Float(a), ComponentValue::Float(b)) => numbers_equal(a, b),
            (ComponentValue::String(a), ComponentValue::String(b)) => str_eq(a.as_str(), b.as_str()),
            (ComponentValue::Vec2(a), ComponentValue::Vec2(b)) => numbers_equal_all(a, b),
            (ComponentValue::Vec3(a), ComponentValue::Vec3(b)) => numbers_equal_all(a, b),
            (ComponentValue::Rect(a), ComponentValue::Rect(b)) => numbers_equal_all(a, b),
            _ => false,
        }
    }
}

/// Whether a component persists (`Regular`) or is short-lived (`Transient`).
#[derive(Debug, Clone, Copy, PartialEq, Eq)]
pub enum ComponentKind {
    Regular,
    Transient,
}

impl Default for ComponentKind {
    fn default() -> (r: Self)
        ensures
            r == ComponentKind::Regular,
    {
        ComponentKind::Regular
    }
}

/// A component slot: a value and its kind.
#[derive(Debug)]
pub struct Component {
    pub value: ComponentValue,
    pub kind: ComponentKind,
}

impl Clone for Component {
    fn clone(&self) -> (r: Self)
        ensures
            r.value@ == self.value@,
            r.kind == self.kind,
    {
        Component { value: self.value.clone(), kind: self.kind }
    }
}

/// The schema type of a component.
#[derive(Debug, Clone, Copy, PartialEq, Eq)]
pub enum ComponentType {
    Nil,
    Bool,
    Int,
    Float,
    String,
    Vec2,
    Vec3,
    Rect,
}

/// The lowercase name a component type is displayed with.
pub open spec fn type_name_text(t: ComponentType) -> Seq<char> {
    match t {
        ComponentType::Nil => "nil"@,
        ComponentType::Bool => "bool"@,
        ComponentType::Int => "int"@,
        ComponentType::Float => "float"@,
        ComponentType::String => "string"@,
        ComponentType::Vec2 => "vec2"@,
        ComponentType::Vec3 => "vec3"@,
        ComponentType::Rect => "rect"@,
    }
}

impl ComponentType {
    /// The type's display name (`nil`, `bool`, `int`, ...).
    pub fn name(self) -> (r: &'static str)
        ensures
            r@ == type_name_text(self),
    {
        match self {
            ComponentType::Nil => "nil",
            ComponentType::Bool => "bool",
            ComponentType::Int => "int",
            ComponentType::Float => "float",
            ComponentType::String => "string",
            ComponentType::Vec2 => "vec2",
            ComponentType::Vec3 => "vec3",
            ComponentType::Rect => "rect",
        }
    }
}

/// Whether a value has the given schema type.
pub open spec fn value_has_type(v: ValueView, t: ComponentType) -> bool {
    match (v, t) {
        (ValueView::Nil, ComponentType::Nil) => true,
        (ValueView::Bool(_), ComponentType::Bool) => true,
        (ValueView::Int(_), ComponentType::Int) => true,
        (ValueView::Float(_), ComponentType::Float) => true,
        (ValueView::String(_), ComponentType::String) => true,
        (ValueView::Vec2(_), ComponentType::Vec2) => true,
        (ValueView::Vec3(_), ComponentType::Vec3) => true,
        (ValueView::Rect(_), ComponentType::Rect) => true,
        _ => false,
    }
}

/// Whether `value` has schema type `ty`.
pub fn component_value_matches(value: &ComponentValue, ty: ComponentType) -> (r: bool)
    ensures
        r == value_has_type(value@, ty),
{
    match (value, ty) {
        (ComponentValue::Nil, ComponentType::Nil) => true,
        (ComponentValue::Bool(_), ComponentType::Bool) => true,
        (ComponentValue::Int(_), ComponentType::Int) => true,
        (ComponentValue::Float(_), ComponentType::Float) => true,
        (ComponentValue::String(_), ComponentType::String) => true,
        (ComponentValue::Vec2(_), ComponentType::Vec2) => true,
        (ComponentValue::Vec3(_), ComponentType::Vec3) => true,
        (ComponentValue::Rect(_), ComponentType::Rect) => true,
        _ => false,
    }
}

/// A declared component of a node type.
#[derive(Debug, Clone)]
pub struct ComponentSpec {
    pub name: String,
    pub ty: ComponentType,
    pub default: Json,
}

impl ComponentSpec {
    pub fn new(name: &str, ty: ComponentType, default: Json) -> (r: Self)
        ensures
            r.name@ == name@,
            r.ty == ty,
            r.default == default,
    {
        ComponentSpec { name: name.to_string(), ty, default }
    }
}

/// A scene node.
#[derive(Debug)]
pub struct Node {
    pub id: String,
    pub node_type: String,
    pub parent: Option<String>,
    pub components: StrMap<Component>,
    pub behaviors: Vec<Behavior>,
    pub active_state: Option<String>,
    /// Name of the Lua class bound to this node, if any.
    pub lua_class: Option<String>,
    /// Despawn requested: hidden from lookups, removed by `purge_destroyed`.
    pub destroyed: bool,
}

/// The JSON path of a node's component, by node id.
pub open spec fn component_path_text(id: Seq<char>, key: Seq<char>) -> Seq<char> {
    "$.nodes[?id==\""@ + id + "\"].components."@ + key
}

impl Node {
    /// Requests a deferred despawn.
    pub fn mark_destroyed(&mut self)
        ensures
            final(self).destroyed,
            final(self).id == old(self).id,
            final(self).node_type == old(self).node_type,
            final(self).parent == old(self).parent,
            final(self).components == old(self).components,
            final(self).active_state == old(self).active_state,
            final(self).lua_class == old(self).lua_class,
    {
        self.destroyed = true;
    }

    /// The value of component `key`.
    pub fn get_component_value(&self, key: &str) -> (r: Option<&ComponentValue>)
        ensures
            match r {
                Some(v) => self.components@.contains_key(key@) && *v == self.components@[key@].value,
                None => !self.components@.contains_key(key@),
            },
    {
        match self.components.get(key) {
            Some(c) => Some(&c.value),
            None => None,
        }
    }

    /// Overwrites an existing component's value (its kind is kept). A key
    /// the node does not have is a validation error and changes nothing.
    pub fn set_component_value(&mut self, key: &str, value: ComponentValue) -> (r: EngineResult<()>)
        ensures
            old(self).components@.contains_key(key@) ==> r is Ok
                && final(self).components@ == old(self).components@.insert(key@,
                    Component { value, kind: old(self).components@[key@].kind }),
            !old(self).components@.contains_key(key@) ==> final(self).components@ == old(self).components@
                && match r {
                    Err(EngineError::Validation { file, errors }) => file@.len() == 0 && errors@.len() == 1
                        && errors@[0].json_path@ == component_path_text(old(self).id@, key@)
                        && errors@[0].auto_fixable == AutoFix::NeedsReview,
                    _ => false,
                },
            final(self).id == old(self).id,
            final(self).node_type == old(self).node_type,
            final(self).destroyed == old(self).destroyed,
            final(self).parent == old(self).parent,
            final(self).behaviors == old(self).behaviors,
            final(self).active_state == old(self).active_state,
            final(self).lua_class == old(self).lua_class,
    {
        let kind = match self.components.get(key) {
            Some(c) => c.kind,
            None => {
                let mut path = String::new();
                push_str(&mut path, "$.nodes[?id==\"");
                push_str(&mut path, self.id.as_str());
                push_str(&mut path, "\"].components.");
                push_str(&mut path, key);
                let mut message = String::new();
                push_str(&mut message, "node \"");
                push_str(&mut message, self.id.as_str());
                push_str(&mut message, "\" has no component \"");
                push_str(&mut message, key);
                push_str(&mut message, "\"");
                let error = ValidationError {
                    file: String::new(),
                    json_path: path,
                    message,
                    expected_type: "existing component key".to_string(),
                    actual_value: None,
                    suggestion: Some("Define the component in the node's \"components\" block before reading or writing it".to_string()),
                    auto_fixable: AutoFix::NeedsReview,
                };
                assert(error.json_path@ =~= component_path_text(self.id@, key@));
                let errors = vec![error];
                return Err(EngineError::Validation { file: String::new(), errors });
            },
        };
        self.components.insert(key.to_string(), Component { value, kind });
        Ok(())
    }
}

/// The kind string every scene file declares.
pub const SCENE_KIND: &'static str = "scene";

/// A scene: named, with its nodes in order and a counter for spawned ids.
#[derive(Debug)]
pub struct Scene {
    pub kind: String,
    pub name: String,
    pub nodes: Vec<Node>,
    pub spawn_counter: u64,
}

/// Index of the first node with id `id` (skipping destroyed nodes when
/// `live_only`).
pub open spec fn first_node(nodes: Seq<Node>, id: Seq<char>, live_only: bool) -> Option<int>
    decreases nodes.len(),
{
    if nodes.len() == 0 {
        None
    } else {
        match first_node(nodes.drop_last(), id, live_only) {
            Some(i) => Some(i),
            None => if nodes.last().id@ == id && (!live_only || !nodes.last().destroyed) {
                Some(nodes.len() - 1)
            } else {
                None
            },
        }
    }
}

/// `first_node` finds a matching node, and none before it matches.
pub proof fn lemma_first_node(nodes: Seq<Node>, id: Seq<char>, live_only: bool)
    ensures
        match first_node(nodes, id, live_only) {
            Some(i) => 0 <= i < nodes.len() && nodes[i].id@ == id && (!live_only || !nodes[i].destroyed)
                && forall|j: int| 0 <= j < i ==> !(nodes[j].id@ == id && (!live_only || !nodes[j].destroyed)),
            None => forall|j: int| 0 <= j < nodes.len() ==> !(nodes[j].id@ == id && (!live_only || !nodes[j].destroyed)),
        },
    decreases nodes.len(),
{
    if nodes.len() > 0 {
        let pre = nodes.drop_last();
        lemma_first_node(pre, id, live_only);
        assert forall|j: int| 0 <= j < pre.len() implies pre[j] == nodes[j] by {}
    }
}

/// The spawned-node id for a type and counter value.
pub open spec fn spawn_id_text(node_type: Seq<char>, counter: u64) -> Seq<char> {
    "__spawn_"@ + node_type + "_"@ + decimal(counter as nat)
}

/// Decimal renderings are digits only, and distinct numbers render
/// distinctly.
proof fn lemma_decimal(a: nat, b: nat)
    ensures
        forall|i: int| 0 <= i < decimal(a).len() ==> decimal(a)[i] != '_',
        decimal(a).len() >= 1,
        decimal(a) == decimal(b) ==> a == b,
    decreases a + b,
{
    if a >= 10 {
        lemma_decimal(a / 10, b);
        assert forall|i: int| 0 <= i < decimal(a).len() implies decimal(a)[i] != '_' by {
            if i < decimal(a).len() - 1 {
                assert(decimal(a)[i] == decimal(a / 10)[i]);
            } else {
                assert(decimal(a)[i] == digit_char(a % 10));
                assert(digit_char(a % 10) != '_');
            }
        }
    } else {
        assert(decimal(a)[0] == digit_char(a));
    }
    if decimal(a) == decimal(b) {
        if a >= 10 && b >= 10 {
            lemma_decimal(a / 10, b / 10);
            assert(decimal(a / 10) =~= decimal(a).drop_last());
            assert(decimal(b / 10) =~= decimal(b).drop_last());
            assert(decimal(a).last() == digit_char(a % 10));
            assert(decimal(b).last() == digit_char(b % 10));
            assert(digit_char(a % 10) as int == 48 + a % 10);
            assert(digit_char(b % 10) as int == 48 + b % 10);
        } else if a >= 10 {
            lemma_decimal(a / 10, 0);
            assert(decimal(a).len() >= 2);
        } else if b >= 10 {
            lemma_decimal(b / 10, 0);
            assert(decimal(b).len() >= 2);
        } else {
            assert(decimal(a)[0] == decimal(b)[0]);
        }
    }
}

/// Spawn ids made with different counter values differ, whatever the
/// node types.
pub proof fn law_spawn_ids_differ(t1: Seq<char>, c1: u64, t2: Seq<char>, c2: u64)
    requires
        c1 != c2,
    ensures
        spawn_id_text(t1, c1) != spawn_id_text(t2, c2),
{
    reveal_strlit("__spawn_");
    reveal_strlit("_");
    let s1 = spawn_id_text(t1, c1);
    let s2 = spawn_id_text(t2, c2);
    assert(s1 =~= ("__spawn_"@ + t1) + seq!['_'] + decimal(c1 as nat));
    assert(s2 =~= ("__spawn_"@ + t2) + seq!['_'] + decimal(c2 as nat));
    let d1 = decimal(c1 as nat);
    let d2 = decimal(c2 as nat);
    lemma_decimal(c1 as nat, c2 as nat);
    lemma_decimal(c2 as nat, c1 as nat);
    if s1 == s2 {
        let n = s1.len();
        if d1.len() < d2.len() {
            let p = n - d1.len() - 1;
            assert(s1[p] == '_');
            assert(s2[p] == d2[p - (n - d2.len())]);
        } else if d2.len() < d1.len() {
            let p = n - d2.len() - 1;
            assert(s2[p] == '_');
            assert(s1[p] == d1[p - (n - d1.len())]);
        } else {
            assert(d1 =~= s1.skip(n - d1.len()));
            assert(d2 =~= s2.skip(n - d2.len()));
        }
    }
}

/// A spawned id is fresh: it differs from every id of `nodes` when each
/// of those ids either does not start with the reserved `__spawn_` prefix
/// or was itself made with a counter value below `counter`.
pub proof fn law_spawned_id_is_fresh(nodes: Seq<Node>, node_type: Seq<char>, counter: u64)
    requires
        forall|i: int| 0 <= i < nodes.len() ==>
            (#[trigger] nodes[i].id@).take(8) != "__spawn_"@
            || exists|t: Seq<char>, k: u64| k < counter && nodes[i].id@ == spawn_id_text(t, k),
    ensures
        forall|i: int| 0 <= i < nodes.len() ==> #[trigger] nodes[i].id@ != spawn_id_text(node_type, counter),
{
    reveal_strlit("__spawn_");
    assert forall|i: int| 0 <= i < nodes.len() implies #[trigger] nodes[i].id@ != spawn_id_text(node_type, counter) by {
        let id = nodes[i].id@;
        let s = spawn_id_text(node_type, counter);
        assert(s.take(8) =~= "__spawn_"@);
        if exists|t: Seq<char>, k: u64| k < counter && id == spawn_id_text(t, k) {
            let (t, k) = choose|t: Seq<char>, k: u64| k < counter && id == spawn_id_text(t, k);
            law_spawn_ids_differ(t, k, node_type, counter);
        }
    }
}

impl Scene {
    /// Scans for the first node with id `id`.
    pub(crate) fn find_index(&self, id: &str, live_only: bool) -> (r: Option<usize>)
        ensures
            match r {
                Some(i) => first_node(self.nodes@, id@, live_only) == Some(i as int),
                None => first_node(self.nodes@, id@, live_only) is None,
            },
    {
        let mut i: usize = 0;
        while i < self.nodes.len()
            invariant
                i <= self.nodes@.len(),
                first_node(self.nodes@.take(i as int), id@, live_only) is None,
            decreases self.nodes.len() - i,
        {
            assert(self.nodes@.take(i + 1).drop_last() =~= self.nodes@.take(i as int));
            if (!live_only || !self.nodes[i].destroyed) && str_eq(self.nodes[i].id.as_str(), id) {
                proof { lemma_first_node_prefix(self.nodes@, id@, live_only, i as int + 1); }
                return Some(i);
            }
            i += 1;
        }
        assert(self.nodes@.take(self.nodes@.len() as int) =~= self.nodes@);
        None
    }

    /// The first live (not destroyed) node with id `id`.
    pub fn find_node(&self, id: &str) -> (r: Option<&Node>)
        ensures
            match r {
                Some(n) => first_node(self.nodes@, id@, true) matches Some(i) && *n == self.nodes@[i],
                None => first_node(self.nodes@, id@, true) is None,
            },
    {
        proof { lemma_first_node(self.nodes@, id@, true); }
        match self.find_index(id, true) {
            Some(i) => Some(&self.nodes[i]),
            None => None,
        }
    }

    /// The index of the first live node with id `id`, for in-place edits.
    pub fn find_node_index(&self, id: &str) -> (r: Option<usize>)
        ensures
            match r {
                Some(i) => first_node(self.nodes@, id@, true) == Some(i as int),
                None => first_node(self.nodes@, id@, true) is None,
            },
    {
        self.find_index(id, true)
    }

    /// The index of the first node with id `id`, destroyed or not.
    pub fn find_node_index_raw(&self, id: &str) -> (r: Option<usize>)
        ensures
            match r {
                Some(i) => first_node(self.nodes@, id@, false) == Some(i as int),
                None => first_node(self.nodes@, id@, false) is None,
            },
    {
        self.find_index(id, false)
    }

    /// Appends a node.
    pub fn add_node(&mut self, node: Node)
        ensures
            final(self).nodes@ == old(self).nodes@.push(node),
            final(self).spawn_counter == old(self).spawn_counter,
            final(self).name == old(self).name,
            final(self).kind == old(self).kind,
    {
        self.nodes.push(node);
    }

    /// A fresh `__spawn_<type>_<n>` id; the counter advances (wrapping).
    pub fn next_spawn_id(&mut self, node_type: &str) -> (r: String)
        ensures
            r@ == spawn_id_text(node_type@, old(self).spawn_counter),
            final(self).spawn_counter == old(self).spawn_counter.wrapping_add(1),
            final(self).nodes == old(self).nodes,
            final(self).name == old(self).name,
            final(self).kind == old(self).kind,
    {
        let mut id = String::new();
        push_str(&mut id, "__spawn_");
        push_str(&mut id, node_type);
        push_str(&mut id, "_");
        push_decimal(&mut id, self.spawn_counter);
        assert(id@ =~= spawn_id_text(node_type@, self.spawn_counter));
        self.spawn_counter = self.spawn_counter.wrapping_add(1);
        id
    }

    /// Removes every destroyed node, keeping the others in order; returns
    /// how many were removed.
    pub fn purge_destroyed(&mut self) -> (removed: usize)
        ensures
            final(self).nodes@ == live_nodes(old(self).nodes@),
            removed == old(self).nodes@.len() - final(self).nodes@.len(),
            final(self).spawn_counter == old(self).spawn_counter,
            final(self).name == old(self).name,
            final(self).kind == old(self).kind,
    {
        let ghost old_nodes = self.nodes@;
        let mut nodes: Vec<Node> = Vec::new();
        std::mem::swap(&mut nodes, &mut self.nodes);
        let before = nodes.len();
        let mut kept: Vec<Node> = Vec::new();
        let mut rest = nodes;
        let mut i: usize = 0;
        assert(rest@ =~= old_nodes.skip(0));
        while i < before
            invariant
                before == old_nodes.len(),
                i <= before,
                rest@ == old_nodes.skip(i as int),
                kept@ == old_nodes.take(i as int).filter(|n: Node| !n.destroyed),
                kept@.len() <= i,
            decreases before - i,
        {
            let node = rest.remove(0);
            assert(node == old_nodes[i as int]);
            assert(rest@ =~= old_nodes.skip(i + 1));
            assert(old_nodes.take(i + 1).drop_last() =~= old_nodes.take(i as int));
            assert(old_nodes.take(i + 1).last() == node);
            proof { reveal_with_fuel(Seq::filter, 1); }
            if !node.destroyed {
                kept.push(node);
            }
            i += 1;
        }
        assert(old_nodes.take(before as int) =~= old_nodes);
        let removed = before - kept.len();
        self.nodes = kept;
        removed
    }
}

/// A node type: its name and its component schema.
pub trait NodeDef {
    fn node_type(&self) -> &'static str;
    fn component_specs(&self) -> Vec<ComponentSpec>;
}

/// A registered node type.
#[derive(Debug, Clone)]
pub struct RegistryEntry {
    pub node_type: &'static str,
    pub specs: Vec<ComponentSpec>,
}

/// The known node types, by name.
#[derive(Debug, Clone)]
pub struct NodeRegistry {
    by_name: StrMap<RegistryEntry>,
}

/// A registered type as seen through `NodeRegistry::get`.
pub struct NodeTypeView<'a> {
    pub node_type: &'static str,
    pub specs: &'a [ComponentSpec],
}

impl<'a> NodeTypeView<'a> {
    pub fn component_specs(&self) -> (r: &[ComponentSpec])
        ensures
            r@ == self.specs@,
    {
        self.specs
    }
}

impl NodeRegistry {
    /// The registered types: name to component specs.
    pub closed spec fn view(&self) -> Map<Seq<char>, Seq<ComponentSpec>> {
        self.by_name@.map_values(|e: RegistryEntry| e.specs@)
    }

    /// The type name each registered name reports.
    pub closed spec fn type_names_of(&self) -> Map<Seq<char>, Seq<char>> {
        self.by_name@.map_values(|e: RegistryEntry| e.node_type@)
    }

    /// The registered names, in ascending order.
    pub closed spec fn names(&self) -> Seq<Seq<char>> {
        self.by_name.key_seq()
    }

    pub fn new() -> (r: Self)
        ensures
            r@ == Map::<Seq<char>, Seq<ComponentSpec>>::empty(),
            r.names() == Seq::<Seq<char>>::empty(),
            r.type_names_of() == Map::<Seq<char>, Seq<char>>::empty(),
    {
        let r = NodeRegistry { by_name: StrMap::new() };
        r.by_name.proof_keys();
        assert(r.names() =~= Seq::<Seq<char>>::empty());
        assert(r@ =~= Map::<Seq<char>, Seq<ComponentSpec>>::empty());
        assert(r.type_names_of() =~= Map::<Seq<char>, Seq<char>>::empty());
        r
    }

    /// Registers a type under `name` with its schema (replacing any earlier
    /// registration of that name).
    pub fn register_specs(&mut self, name: &str, node_type: &'static str, specs: Vec<ComponentSpec>)
        ensures
            final(self)@ == old(self)@.insert(name@, specs@),
            final(self).type_names_of() == old(self).type_names_of().insert(name@, node_type@),
    {
        self.by_name.insert(name.to_string(), RegistryEntry { node_type, specs });
        assert(self@ =~= old(self)@.insert(name@, specs@));
        assert(self.type_names_of() =~= old(self).type_names_of().insert(name@, node_type@));
    }

    /// Registers the default instance of `D` under its own type name.
    pub fn register<D: NodeDef + Default>(&mut self)
        ensures
            exists|k: Seq<char>, specs: Seq<ComponentSpec>| final(self)@ == old(self)@.insert(k, specs)
                && #[trigger] final(self).type_names_of() == old(self).type_names_of().insert(k, k),
    {
        let instance = D::default();
        let name = instance.node_type();
        let specs = instance.component_specs();
        let ghost sp = specs@;
        self.register_specs(name, name, specs);
        assert(self@ == old(self)@.insert(name@, sp));
        assert(self.type_names_of() == old(self).type_names_of().insert(name@, name@));
    }

    /// The registered type `name`.
    pub fn get(&self, name: &str) -> (r: Option<NodeTypeView<'_>>)
        ensures
            match r {
                Some(v) => self@.contains_key(name@) && v.specs@ == self@[name@]
                    && v.node_type@ == self.type_names_of()[name@],
                None => !self@.contains_key(name@),
            },
    {
        match self.by_name.get(name) {
            Some(e) => Some(NodeTypeView { node_type: e.node_type, specs: e.specs.as_slice() }),
            None => None,
        }
    }

    /// Whether `name` is registered.
    pub fn contains(&self, name: &str) -> (b: bool)
        ensures
            b == self@.contains_key(name@),
    {
        self.by_name.contains_key(name)
    }

    /// The registered names, in ascending order.
    pub fn type_names(&self) -> (r: Vec<String>)
        ensures
            r@.map_values(|s: String| s@) == self.names(),
            forall|k: Seq<char>| self@.contains_key(k) <==> self.names().contains(k),
            crate::strmap::keys_ascending(self.names()),
    {
        self.by_name.proof_keys();
        let n = self.by_name.len();
        let mut out: Vec<String> = Vec::new();
        let mut i: usize = 0;
        while i < n
            invariant
                i <= n,
                n == self.by_name.key_seq().len(),
                out@.map_values(|s: String| s@) == self.names().take(i as int),
            decreases n - i,
        {
            let k = self.by_name.key_at(i).clone();
            let ghost before = out@;
            out.push(k);
            assert(out@ == before.push(k));
            assert(out@.map_values(|s: String| s@) =~= before.map_values(|s: String| s@).push(k@));
            assert(self.names().take(i + 1) =~= self.names().take(i as int).push(self.names()[i as int]));
            i += 1;
        }
        assert(self.names().take(n as int) =~= self.names());
        out
    }
}

/// `first_node` of a prefix that ends in a match (and has none before).
proof fn lemma_first_node_prefix(nodes: Seq<Node>, id: Seq<char>, live_only: bool, k: int)
    requires
        0 < k <= nodes.len(),
        first_node(nodes.take(k - 1), id, live_only) is None,
        nodes[k - 1].id@ == id && (!live_only || !nodes[k - 1].destroyed),
    ensures
        first_node(nodes, id, live_only) == Some(k - 1),
    decreases nodes.len(),
{
    if nodes.len() == k {
        assert(nodes.drop_last() =~= nodes.take(k - 1));
    } else {
        assert(nodes.drop_last().take(k - 1) =~= nodes.take(k - 1));
        lemma_first_node_prefix(nodes.drop_last(), id, live_only, k);
    }
}


/// Setting an existing component and reading it back gives the value set,
/// with the component's kind unchanged; other components are untouched.
pub proof fn law_set_then_get(components: Map<Seq<char>, Component>, key: Seq<char>, value: ComponentValue, other: Seq<char>)
    requires
        components.contains_key(key),
        other != key,
    ensures
        components.insert(key, Component { value, kind: components[key].kind })[key].value == value,
        components.insert(key, Component { value, kind: components[key].kind })[key].kind == components[key].kind,
        components.insert(key, Component { value, kind: components[key].kind }).contains_key(other) == components.contains_key(other),
        components.contains_key(other) ==> components.insert(key, Component { value, kind: components[key].kind })[other] == components[other],
{
}

/// The nodes not marked destroyed, in order.
pub open spec fn live_nodes(nodes: Seq<Node>) -> Seq<Node> {
    nodes.filter(|n: Node| !n.destroyed)
}

/// After a purge no node is marked destroyed, and every live node is kept.
pub proof fn law_purge_keeps_exactly_live(nodes: Seq<Node>)
    ensures
        forall|i: int| 0 <= i < live_nodes(nodes).len() ==> !(#[trigger] live_nodes(nodes)[i]).destroyed,
        forall|i: int| 0 <= i < nodes.len() && !nodes[i].destroyed ==> live_nodes(nodes).contains(#[trigger] nodes[i]),
{
    let pred = |n: Node| !n.destroyed;
    assert forall|i: int| 0 <= i < live_nodes(nodes).len() implies !(#[trigger] live_nodes(nodes)[i]).destroyed by {
        nodes.lemma_filter_pred(pred, i);
    }
    assert forall|i: int| 0 <= i < nodes.len() && !nodes[i].destroyed implies live_nodes(nodes).contains(#[trigger] nodes[i]) by {
        nodes.lemma_filter_contains(pred, i);
    }
}

} // verus!
