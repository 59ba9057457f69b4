//! Scene validation: the issues a scene document is reported with, and
//! `Scene::from_value` / `Scene::parse`, which decode a document and
//! either return the scene or every issue found, in document order.

use vstd::prelude::*;
use crate::error::{AutoFix, EngineError, EngineResult, ErrorCollector, ParseError, ValidationError};
use crate::json::{Json, obj_get, str_member, json_text, to_json_text, get_str, parse_json, parses_to, line_count};
use crate::load::opt_view;
use crate::load_scene::{component_of, scene_doc_ok, scene_of, decode_scene, node_of, node_ok, components_of};
use crate::scene::{ValueView, ComponentType, ComponentSpec, ComponentValue, Node, Scene, NodeRegistry, type_name_text, value_has_type, component_value_matches};
use crate::strmap::{StrMap, keys_ascending};
use crate::suggest::{best_match, did_you_mean, suggest_rename};
use crate::text::{decimal, join, debug_text, debug_quoted, push_str, push_decimal, push_join, seq_lt, str_eq,
    lemma_seq_lt_irreflexive, lemma_seq_lt_asymmetric, lemma_seq_lt_transitive};

verus! {

broadcast use vstd::string::group_string_axioms;

// ----------------------------------------------------------------- issues

/// What an issue reports as the offending value.
pub enum Actual {
    /// No value.
    Absent,
    /// This document.
    Doc(Json),
    /// A JSON string with this text.
    Text(Seq<char>),
    /// The JSON form of this component value.
    Component(ValueView),
}

/// A validation error, with its text taken by characters.
pub struct Issue {
    pub file: Seq<char>,
    pub path: Seq<char>,
    pub message: Seq<char>,
    pub expected: Seq<char>,
    pub actual: Actual,
    pub suggestion: Option<Seq<char>>,
    pub fix: AutoFix,
}

/// The name serde gives a component value's variant in its JSON form.
pub open spec fn variant_name(v: ValueView) -> Seq<char> {
    match v {
        ValueView::Nil => "Nil"@,
        ValueView::Bool(_) => "Bool"@,
        ValueView::Int(_) => "Int"@,
        ValueView::Float(_) => "Float"@,
        ValueView::String(_) => "String"@,
        ValueView::Vec2(_) => "Vec2"@,
        ValueView::Vec3(_) => "Vec3"@,
        ValueView::Rect(_) => "Rect"@,
    }
}

/// Whether `a` is `b`, or the ASCII capital of `b`.
pub open spec fn capital_or_same(a: char, b: char) -> bool {
    a == b || (65 <= a as u32 <= 90 && a as u32 + 32 == b as u32)
}

/// Whether `b` is `a` with its ASCII capitals lowered.
pub open spec fn same_ignoring_case(a: Seq<char>, b: Seq<char>) -> bool {
    a.len() == b.len() && forall|i: int| 0 <= i < a.len() ==> #[trigger] capital_or_same(a[i], b[i])
}

/// A component value has a schema type exactly when its variant is that
/// type: its variant's name, lowered, is the type's display name. So each
/// value has exactly one schema type.
pub proof fn law_value_type_is_its_variant(v: ValueView, t: ComponentType)
    ensures
        value_has_type(v, t) <==> same_ignoring_case(variant_name(v), type_name_text(t)),
{
    reveal_strlit("Nil"); reveal_strlit("Bool"); reveal_strlit("Int"); reveal_strlit("Float");
    reveal_strlit("String"); reveal_strlit("Vec2"); reveal_strlit("Vec3"); reveal_strlit("Rect");
    reveal_strlit("nil"); reveal_strlit("bool"); reveal_strlit("int"); reveal_strlit("float");
    reveal_strlit("string"); reveal_strlit("vec2"); reveal_strlit("vec3"); reveal_strlit("rect");
    let a = variant_name(v);
    let b = type_name_text(t);
    if value_has_type(v, t) {
        assert forall|i: int| 0 <= i < a.len() implies #[trigger] capital_or_same(a[i], b[i]) by {
            assert(i == 0 || i == 1 || i == 2 || i == 3 || i == 4 || i == 5);
        }
    } else if same_ignoring_case(a, b) {
        assert(capital_or_same(a[0], b[0]));
        if a.len() > 3 {
            assert(capital_or_same(a[3], b[3]));
        }
    }
}

/// Whether `items` are the float documents of `xs`.
pub open spec fn floats_json(items: Seq<Json>, xs: Seq<serde_json::Number>) -> bool {
    items.len() == xs.len() && forall|k: int| 0 <= k < xs.len() ==> items[k] == Json::Float(#[trigger] xs[k])
}

/// Whether `x` is the JSON form of a component value: an object with the
/// variant name under `type` and, except for `Nil`, the payload under
/// `value`.
pub open spec fn component_json(x: Json, v: ValueView) -> bool {
    x matches Json::Object(m) && m@.contains_key("type"@)
        && (m@["type"@] matches Json::Str(t) && t@ == variant_name(v))
        && match v {
            ValueView::Nil => m@.dom() == set!["type"@],
            _ => m@.dom() == set!["type"@, "value"@] && match (v, m@["value"@]) {
                (ValueView::Bool(b), p) => p == Json::Bool(b),
                (ValueView::Int(i), p) => p == Json::Int(i),
                (ValueView::Float(n), p) => p == Json::Float(n),
                (ValueView::String(s), Json::Str(t)) => t@ == s,
                (ValueView::Vec2(xs), Json::Array(a)) => floats_json(a@, xs),
                (ValueView::Vec3(xs), Json::Array(a)) => floats_json(a@, xs),
                (ValueView::Rect(xs), Json::Array(a)) => floats_json(a@, xs),
                _ => false,
            },
        }
}

/// Whether a validation error reports an issue.
pub open spec fn reports(e: ValidationError, i: Issue) -> bool {
    &&& e.file@ == i.file
    &&& e.json_path@ == i.path
    &&& e.message@ == i.message
    &&& e.expected_type@ == i.expected
    &&& match i.actual {
        Actual::Absent => e.actual_value is None,
        Actual::Doc(j) => e.actual_value == Some(j),
        Actual::Text(t) => e.actual_value matches Some(Json::Str(s)) && s@ == t,
        Actual::Component(v) => e.actual_value matches Some(x) && component_json(x, v),
    }
    &&& opt_view(e.suggestion) == i.suggestion
    &&& e.auto_fixable == i.fix
}

/// Whether a list of errors reports exactly these issues, in order.
pub open spec fn reports_all(es: Seq<ValidationError>, is: Seq<Issue>) -> bool {
    es.len() == is.len() && forall|k: int| 0 <= k < is.len() ==> reports(#[trigger] es[k], is[k])
}

// ------------------------------------------------------------- top level

/// The scene document kind.
pub open spec fn scene_kind() -> Seq<char> {
    "scene"@
}

/// The fields a scene document may have at its top level.
pub open spec fn known_field(k: Seq<char>) -> bool {
    k == "kind"@ || k == "name"@ || k == "nodes"@ || k == "spawn_counter"@
}

/// The `kind` issue: reported unless `kind` is the string `scene`. (Issues
/// are reported only for documents that decode, where `kind` is a string
/// or absent.)
pub open spec fn kind_issues(file: Seq<char>, j: Json) -> Seq<Issue> {
    let kind = match str_member(j, "kind"@) { Some(k) => k, None => Seq::<char>::empty() };
    if kind == scene_kind() {
        Seq::empty()
    } else {
        seq![Issue {
            file,
            path: "$.kind"@,
            message: "expected kind \"scene\", got "@ + debug_text(kind),
            expected: "string literal \"scene\""@,
            actual: match str_member(j, "kind"@) { Some(k) => Actual::Text(k), None => Actual::Absent },
            suggestion: Some("Set \"kind\": \"scene\" at the top level"@),
            fix: AutoFix::Safe,
        }]
    }
}

/// The issue for an unknown top-level field.
pub open spec fn unknown_field_issue(file: Seq<char>, k: Seq<char>) -> Issue {
    Issue {
        file,
        path: "$."@ + k,
        message: "unknown top-level field \""@ + k + "\""@,
        expected: "one of [kind, name, nodes, spawn_counter]"@,
        actual: Actual::Text(k),
        suggestion: Some("Remove \""@ + k + "\" or rename to one of: kind, name, nodes, spawn_counter"@),
        fix: AutoFix::Safe,
    }
}

/// Issues for the unknown fields among `keys`, in order.
pub open spec fn unknown_field_issues(file: Seq<char>, keys: Seq<Seq<char>>) -> Seq<Issue>
    decreases keys.len(),
{
    if keys.len() == 0 {
        Seq::empty()
    } else {
        unknown_field_issues(file, keys.drop_last()) + if known_field(keys.last()) {
            Seq::<Issue>::empty()
        } else {
            seq![unknown_field_issue(file, keys.last())]
        }
    }
}

/// Issues for a document's unknown top-level fields, in key order.
pub open spec fn top_issues(file: Seq<char>, j: Json) -> Seq<Issue> {
    match j {
        Json::Object(m) => unknown_field_issues(file, m.key_seq()),
        _ => Seq::empty(),
    }
}

// ------------------------------------------------------------------ nodes

/// The JSON path of node `i`, followed by `suffix`.
pub open spec fn node_path(i: nat, suffix: Seq<char>) -> Seq<char> {
    "$.nodes["@ + decimal(i) + "]"@ + suffix
}

/// The JSON path of component `key` of node `i`.
pub open spec fn component_path(i: nat, key: Seq<char>) -> Seq<char> {
    node_path(i, ".components."@ + key)
}

/// A node document's id.
pub open spec fn doc_id(j: Json) -> Seq<char> {
    str_member(j, "id"@)->0
}

/// A node document's type.
pub open spec fn doc_type(j: Json) -> Seq<char> {
    str_member(j, "type"@)->0
}

/// A node document's component keys, in order.
pub open spec fn doc_keys(j: Json) -> Seq<Seq<char>> {
    match obj_get(j, "components"@) {
        Some(Json::Object(cm)) => cm.key_seq(),
        _ => Seq::empty(),
    }
}

/// A node document's component documents, in key order.
pub open spec fn doc_values(j: Json) -> Seq<Json> {
    match obj_get(j, "components"@) {
        Some(Json::Object(cm)) => cm.value_seq(),
        _ => Seq::empty(),
    }
}

/// The specs of a schema by name; a later spec replaces an earlier one
/// of the same name.
pub open spec fn spec_table(specs: Seq<ComponentSpec>) -> Map<Seq<char>, ComponentSpec>
    decreases specs.len(),
{
    if specs.len() == 0 {
        Map::empty()
    } else {
        spec_table(specs.drop_last()).insert(specs.last().name@, specs.last())
    }
}

/// The distinct names of a schema, ascending.
pub open spec fn sorted_names(specs: Seq<ComponentSpec>) -> Seq<Seq<char>> {
    choose|s: Seq<Seq<char>>| keys_ascending(s) && forall|k: Seq<char>| s.contains(k) <==> spec_table(specs).contains_key(k)
}

/// The suggestion for an unknown name: the closest known name within
/// distance 3, or else `fallback`.
pub open spec fn suggestion_for(unknown: Seq<char>, names: Seq<Seq<char>>, fallback: Seq<char>) -> Seq<char> {
    match best_match(unknown, names) {
        Some(t) => did_you_mean(names[t]),
        None => fallback,
    }
}

/// The issue for a node of an unregistered type.
pub open spec fn unknown_type_issue(file: Seq<char>, i: nat, ty: Seq<char>, type_names: Seq<Seq<char>>) -> Issue {
    Issue {
        file,
        path: node_path(i, ".type"@),
        message: "unknown node type \""@ + ty + "\""@,
        expected: "known node type"@,
        actual: Actual::Text(ty),
        suggestion: Some(suggestion_for(ty, type_names, "Known node types: "@ + join(type_names, ", "@))),
        fix: AutoFix::Suggested,
    }
}

/// Issues for component keys the schema does not declare, in key order.
pub open spec fn unexpected_issues(file: Seq<char>, i: nat, ty: Seq<char>, keys: Seq<Seq<char>>,
    table: Map<Seq<char>, ComponentSpec>, names: Seq<Seq<char>>) -> Seq<Issue>
    decreases keys.len(),
{
    if keys.len() == 0 {
        Seq::empty()
    } else {
        let k = keys.last();
        unexpected_issues(file, i, ty, keys.drop_last(), table, names) + if table.contains_key(k) {
            Seq::<Issue>::empty()
        } else {
            seq![Issue {
                file,
                path: component_path(i, k),
                message: "unknown component \""@ + k + "\" for node type \""@ + ty + "\""@,
                expected: "one of ["@ + join(names, ", "@) + "]"@,
                actual: Actual::Text(k),
                suggestion: Some(suggestion_for(k, names, "Remove \""@ + k + "\" or use one of: "@ + join(names, ", "@))),
                fix: AutoFix::NeedsReview,
            }]
        }
    }
}

/// Issues for declared components whose value has the wrong type, in key
/// order.
pub open spec fn wrong_type_issues(file: Seq<char>, i: nat, keys: Seq<Seq<char>>, values: Seq<Json>,
    table: Map<Seq<char>, ComponentSpec>) -> Seq<Issue>
    decreases keys.len(),
{
    if keys.len() == 0 {
        Seq::empty()
    } else {
        let n = keys.len() - 1;
        let k = keys[n];
        let v = (component_of(values[n])->0).0;
        wrong_type_issues(file, i, keys.drop_last(), values, table) + if table.contains_key(k) && !value_has_type(v, table[k].ty) {
            let t = type_name_text(table[k].ty);
            seq![Issue {
                file,
                path: component_path(i, k),
                message: "component \""@ + k + "\" has wrong type, expected "@ + t,
                expected: t,
                actual: Actual::Component(v),
                suggestion: Some("Replace with a "@ + t + " value, e.g. "@ + json_text(table[k].default)),
                fix: AutoFix::Suggested,
            }]
        } else {
            Seq::<Issue>::empty()
        }
    }
}

/// A node whose every declared component holds a value of its declared
/// type (the value's variant, by name, is the type) gets no wrong-type
/// issue.
pub proof fn law_well_typed_components_raise_no_issue(file: Seq<char>, i: nat, keys: Seq<Seq<char>>,
    values: Seq<Json>, table: Map<Seq<char>, ComponentSpec>)
    requires
        forall|n: int| 0 <= n < keys.len() && #[trigger] table.contains_key(keys[n]) ==>
            same_ignoring_case(variant_name((component_of(values[n])->0).0), type_name_text(table[keys[n]].ty)),
    ensures
        wrong_type_issues(file, i, keys, values, table) == Seq::<Issue>::empty(),
    decreases keys.len(),
{
    if keys.len() > 0 {
        let n = keys.len() - 1;
        assert forall|m: int| 0 <= m < keys.drop_last().len() && #[trigger] table.contains_key(keys.drop_last()[m]) implies
            same_ignoring_case(variant_name((component_of(values[m])->0).0), type_name_text(table[keys.drop_last()[m]].ty)) by {
            assert(keys.drop_last()[m] == keys[m]);
        }
        law_well_typed_components_raise_no_issue(file, i, keys.drop_last(), values, table);
        if table.contains_key(keys[n]) {
            law_value_type_is_its_variant((component_of(values[n])->0).0, table[keys[n]].ty);
        }
        assert(wrong_type_issues(file, i, keys, values, table) =~= Seq::<Issue>::empty());
    }
}

/// Issues for declared components the node lacks, in name order.
pub open spec fn missing_issues(file: Seq<char>, i: nat, names: Seq<Seq<char>>, keys: Seq<Seq<char>>,
    table: Map<Seq<char>, ComponentSpec>) -> Seq<Issue>
    decreases names.len(),
{
    if names.len() == 0 {
        Seq::empty()
    } else {
        let k = names.last();
        missing_issues(file, i, names.drop_last(), keys, table) + if keys.contains(k) {
            Seq::<Issue>::empty()
        } else {
            seq![Issue {
                file,
                path: component_path(i, k),
                message: "missing required component \""@ + k + "\""@,
                expected: "present "@ + type_name_text(table[k].ty) + " value"@,
                actual: Actual::Doc(Json::Null),
                suggestion: Some("Add \""@ + k + "\": "@ + json_text(table[k].default) + " (default)"@),
                fix: AutoFix::Safe,
            }]
        }
    }
}

/// The issues of node document `j` at index `i` against the registry
/// (`types`: registered schemas; `type_names`: their names, ascending).
pub open spec fn node_issues(file: Seq<char>, j: Json, i: nat, types: Map<Seq<char>, Seq<ComponentSpec>>,
    type_names: Seq<Seq<char>>) -> Seq<Issue> {
    let ty = doc_type(j);
    if !types.contains_key(ty) {
        seq![unknown_type_issue(file, i, ty, type_names)]
    } else {
        let table = spec_table(types[ty]);
        let names = sorted_names(types[ty]);
        unexpected_issues(file, i, ty, doc_keys(j), table, names)
            + wrong_type_issues(file, i, doc_keys(j), doc_values(j), table)
            + missing_issues(file, i, names, doc_keys(j), table)
    }
}

/// Whether node `i`'s id was used by an earlier node.
pub open spec fn id_reused(docs: Seq<Json>, i: int) -> bool {
    exists|t: int| 0 <= t < i && #[trigger] doc_id(docs[t]) == doc_id(docs[i])
}

/// The duplicate-id issue for node `i`.
pub open spec fn duplicate_issue(file: Seq<char>, i: nat, id: Seq<char>) -> Issue {
    Issue {
        file,
        path: node_path(i, ".id"@),
        message: "duplicate node id \""@ + id + "\""@,
        expected: "unique string id"@,
        actual: Actual::Text(id),
        suggestion: Some("Give each node a distinct id"@),
        fix: AutoFix::NeedsReview,
    }
}

/// The issues of the first `n` node documents, node by node: a reused id
/// first, then the node's own issues.
pub open spec fn nodes_issues(file: Seq<char>, docs: Seq<Json>, n: nat, types: Map<Seq<char>, Seq<ComponentSpec>>,
    type_names: Seq<Seq<char>>) -> Seq<Issue>
    decreases n,
{
    if n == 0 {
        Seq::empty()
    } else {
        let i = (n - 1) as nat;
        nodes_issues(file, docs, i, types, type_names)
            + (if id_reused(docs, i as int) { seq![duplicate_issue(file, i, doc_id(docs[i as int]))] } else { Seq::<Issue>::empty() })
            + node_issues(file, docs[i as int], i, types, type_names)
    }
}

/// A scene document's node documents.
pub open spec fn node_docs(j: Json) -> Seq<Json> {
    match obj_get(j, "nodes"@) {
        Some(Json::Array(v)) => v@,
        _ => Seq::empty(),
    }
}

/// Every issue of a (decodable) scene document, in report order.
pub open spec fn scene_issues(file: Seq<char>, j: Json, types: Map<Seq<char>, Seq<ComponentSpec>>,
    type_names: Seq<Seq<char>>) -> Seq<Issue> {
    kind_issues(file, j) + top_issues(file, j)
        + nodes_issues(file, node_docs(j), node_docs(j).len(), types, type_names)
}

// ----------------------------------------------------------------- lemmas

/// Two ascending sequences with the same elements are equal.
pub proof fn lemma_ascending_unique(a: Seq<Seq<char>>, b: Seq<Seq<char>>)
    requires
        keys_ascending(a),
        keys_ascending(b),
        forall|k: Seq<char>| a.contains(k) <==> b.contains(k),
    ensures
        a == b,
    decreases a.len(),
{
    if a.len() == 0 {
        if b.len() > 0 {
            assert(b.contains(b[0]));
        }
        assert(a =~= b);
    } else if b.len() == 0 {
        assert(a.contains(a[0]));
    } else {
        assert(a.contains(a[0]));
        assert(b.contains(b[0]));
        let i = choose|i: int| 0 <= i < a.len() && a[i] == b[0];
        let j = choose|j: int| 0 <= j < b.len() && b[j] == a[0];
        if i > 0 && j > 0 {
            assert(seq_lt(a[0], a[i]));
            assert(seq_lt(b[0], b[j]));
            lemma_seq_lt_asymmetric(a[0], b[0]);
        } else if i > 0 {
            lemma_seq_lt_irreflexive(a[0]);
            assert(seq_lt(a[0], a[i]));
        } else if j > 0 {
            lemma_seq_lt_irreflexive(b[0]);
            assert(seq_lt(b[0], b[j]));
        }
        assert(a[0] == b[0]);
        let a1 = a.drop_first();
        let b1 = b.drop_first();
        assert forall|k: Seq<char>| a1.contains(k) implies b1.contains(k) by {
            let p = choose|p: int| 0 <= p < a1.len() && a1[p] == k;
            assert(a.contains(k)) by { assert(a[p + 1] == k); }
            let q = choose|q: int| 0 <= q < b.len() && b[q] == k;
            if q == 0 {
                assert(seq_lt(a[0], a[p + 1]));
                lemma_seq_lt_irreflexive(k);
            }
            assert(b1[q - 1] == k);
        }
        assert forall|k: Seq<char>| b1.contains(k) implies a1.contains(k) by {
            let p = choose|p: int| 0 <= p < b1.len() && b1[p] == k;
            assert(b.contains(k)) by { assert(b[p + 1] == k); }
            let q = choose|q: int| 0 <= q < a.len() && a[q] == k;
            if q == 0 {
                assert(seq_lt(b[0], b[p + 1]));
                lemma_seq_lt_irreflexive(k);
            }
            assert(a1[q - 1] == k);
        }
        lemma_ascending_unique(a1, b1);
        assert(a =~= seq![a[0]] + a1);
        assert(b =~= seq![b[0]] + b1);
    }
}


// -------------------------------------------------------------- reporting

/// `after` is `before` followed by errors reporting exactly `issues`.
pub open spec fn appended(before: Seq<ValidationError>, after: Seq<ValidationError>, issues: Seq<Issue>) -> bool {
    &&& after.len() == before.len() + issues.len()
    &&& after.take(before.len() as int) == before
    &&& reports_all(after.skip(before.len() as int), issues)
}

proof fn lemma_appended_none(a: Seq<ValidationError>)
    ensures
        appended(a, a, Seq::empty()),
{
    assert(a.take(a.len() as int) =~= a);
}

proof fn lemma_appended_push(a: Seq<ValidationError>, b: Seq<ValidationError>, is: Seq<Issue>, e: ValidationError, i: Issue)
    requires
        appended(a, b, is),
        reports(e, i),
    ensures
        appended(a, b.push(e), is.push(i)),
{
    let c = b.push(e);
    assert(c.take(a.len() as int) =~= b.take(a.len() as int));
    assert forall|k: int| 0 <= k < is.len() + 1 implies reports(#[trigger] c.skip(a.len() as int)[k], is.push(i)[k]) by {
        if k < is.len() {
            assert(c.skip(a.len() as int)[k] == b.skip(a.len() as int)[k]);
        }
    }
}

proof fn lemma_appended_chain(a: Seq<ValidationError>, b: Seq<ValidationError>, c: Seq<ValidationError>, i1: Seq<Issue>, i2: Seq<Issue>)
    requires
        appended(a, b, i1),
        appended(b, c, i2),
    ensures
        appended(a, c, i1 + i2),
{
    assert(c.take(a.len() as int) =~= b.take(a.len() as int)) by {
        assert(c.take(b.len() as int) == b);
        assert forall|k: int| 0 <= k < a.len() implies c.take(a.len() as int)[k] == b.take(a.len() as int)[k] by {
            assert(c.take(b.len() as int)[k] == c[k]);
        }
    }
    assert forall|k: int| 0 <= k < i1.len() + i2.len() implies reports(#[trigger] c.skip(a.len() as int)[k], (i1 + i2)[k]) by {
        if k < i1.len() {
            assert(c.skip(a.len() as int)[k] == c[a.len() + k]);
            assert(c[a.len() + k] == c.take(b.len() as int)[a.len() + k]);
            assert(b.skip(a.len() as int)[k] == b[a.len() + k]);
        } else {
            assert(c.skip(a.len() as int)[k] == c.skip(b.len() as int)[k - i1.len()]);
        }
    }
}

fn new_error(file: &str, path: String, message: String, expected: String, actual: Option<Json>,
    suggestion: Option<String>, fix: AutoFix) -> (e: ValidationError)
    ensures
        e.file@ == file@,
        e.json_path == path,
        e.message == message,
        e.expected_type == expected,
        e.actual_value == actual,
        e.suggestion == suggestion,
        e.auto_fixable == fix,
{
    ValidationError {
        file: file.to_string(),
        json_path: path,
        message,
        expected_type: expected,
        actual_value: actual,
        suggestion,
        auto_fixable: fix,
    }
}

fn text(s: &str) -> (r: String)
    ensures
        r@ == s@,
{
    s.to_string()
}

fn node_path_text(i: usize, suffix: &str) -> (r: String)
    ensures
        r@ == node_path(i as nat, suffix@),
{
    let mut p = text("$.nodes[");
    push_decimal(&mut p, i as u64);
    push_str(&mut p, "]");
    push_str(&mut p, suffix);
    p
}

fn component_path_text(i: usize, key: &str) -> (r: String)
    ensures
        r@ == component_path(i as nat, key@),
{
    let mut suffix = text(".components.");
    push_str(&mut suffix, key);
    node_path_text(i, suffix.as_str())
}

fn variant_text(v: &ComponentValue) -> (r: &'static str)
    ensures
        r@ == variant_name(v@),
{
    proof {
        reveal_strlit("Nil"); reveal_strlit("Bool"); reveal_strlit("Int"); reveal_strlit("Float");
        reveal_strlit("String"); reveal_strlit("Vec2"); reveal_strlit("Vec3"); reveal_strlit("Rect");
    }
    match v {
        ComponentValue::Nil => "Nil",
        ComponentValue::Bool(_) => "Bool",
        ComponentValue::Int(_) => "Int",
        ComponentValue::Float(_) => "Float",
        ComponentValue::String(_) => "String",
        ComponentValue::Vec2(_) => "Vec2",
        ComponentValue::Vec3(_) => "Vec3",
        ComponentValue::Rect(_) => "Rect",
    }
}

/// The JSON form serde gives a component value: `{"type": .., "value": ..}`.
pub fn component_to_json(v: &ComponentValue) -> (r: Json)
    ensures
        component_json(r, v@),
{
    proof { reveal_strlit("type"); reveal_strlit("value"); }
    assert("type"@[0] == 't' && "value"@[0] == 'v');
    let mut m: StrMap<Json> = StrMap::new();
    m.insert(text("type"), Json::Str(text(variant_text(v))));
    let payload = match v {
        ComponentValue::Nil => None,
        ComponentValue::Bool(b) => Some(Json::Bool(*b)),
        ComponentValue::Int(i) => Some(Json::Int(*i)),
        ComponentValue::Float(n) => Some(Json::Float(crate::json::clone_number(n))),
        ComponentValue::String(s) => Some(Json::Str(s.clone())),
        ComponentValue::Vec2(xs) => Some(floats_to_json(xs)),
        ComponentValue::Vec3(xs) => Some(floats_to_json(xs)),
        ComponentValue::Rect(xs) => Some(floats_to_json(xs)),
    };
    match payload {
        Some(p) => {
            m.insert(text("value"), p);
            assert(m@.dom() =~= set!["type"@, "value"@]);
        },
        None => {
            assert(m@.dom() =~= set!["type"@]);
        },
    }
    Json::Object(m)
}

fn floats_to_json(xs: &[serde_json::Number]) -> (r: Json)
    ensures
        r matches Json::Array(a) && floats_json(a@, xs@),
{
    let mut out: Vec<Json> = Vec::new();
    let mut i: usize = 0;
    while i < xs.len()
        invariant
            i <= xs@.len(),
            out@.len() == i,
            forall|k: int| 0 <= k < i ==> out@[k] == Json::Float(#[trigger] xs@[k]),
        decreases xs.len() - i,
    {
        out.push(Json::Float(crate::json::clone_number(&xs[i])));
        i += 1;
    }
    Json::Array(out)
}

fn borrow_all(names: &Vec<String>) -> (r: Vec<&str>)
    ensures
        r@.map_values(|s: &str| s@) == names@.map_values(|s: String| s@),
{
    let mut out: Vec<&str> = Vec::new();
    let mut i: usize = 0;
    while i < names.len()
        invariant
            i <= names@.len(),
            out@.len() == i,
            forall|k: int| 0 <= k < i ==> (#[trigger] out@[k])@ == names@[k]@,
        decreases names.len() - i,
    {
        out.push(names[i].as_str());
        i += 1;
    }
    assert(out@.map_values(|s: &str| s@) =~= names@.map_values(|s: String| s@));
    out
}

/// The suggestion for an unknown name among `names`.
fn suggestion_text(unknown: &str, names: &Vec<String>, fallback: String) -> (r: String)
    ensures
        r@ == suggestion_for(unknown@, names@.map_values(|s: String| s@), fallback@),
{
    let refs = borrow_all(names);
    let ghost views = names@.map_values(|s: String| s@);
    let r = suggest_rename(unknown, refs.as_slice());
    proof {
        assert(refs@.map_values(|s: &str| s@) == views);
        crate::suggest::lemma_best_match_range(unknown@, views);
        if let Some(t) = best_match(unknown@, views) {
            assert(refs@[t]@ == refs@.map_values(|s: &str| s@)[t]);
        }
    }
    match r {
        Some(s) => s,
        None => fallback,
    }
}

/// Pushes the issue for a wrong `kind`, if any.
fn check_kind(value: &Json, file: &str, errors: &mut ErrorCollector)
    ensures
        appended(old(errors).errors_spec(), final(errors).errors_spec(), kind_issues(file@, *value)),
        final(errors).file_spec() == old(errors).file_spec(),
{
    proof { reveal_strlit("kind"); reveal_strlit("scene"); reveal_strlit(""); }
    let kind: &str = match get_str(value, "kind") {
        Some(k) => k.as_str(),
        None => "",
    };
    proof {
        lemma_appended_none(old(errors).errors_spec());
        assert(""@.len() == 0);
        assert(kind@ == match str_member(*value, "kind"@) { Some(k) => k, None => Seq::<char>::empty() });
    }
    if !str_eq(kind, "scene") {
        let mut message = text("expected kind \"scene\", got ");
        let dbg = debug_quoted(kind);
        push_str(&mut message, dbg.as_str());
        let actual = match get_str(value, "kind") {
            Some(k) => Some(Json::Str(k.clone())),
            None => None,
        };
        let e = new_error(file, text("$.kind"), message, text("string literal \"scene\""), actual,
            Some(text("Set \"kind\": \"scene\" at the top level")), AutoFix::Safe);
        let ghost before = errors.errors_spec();
        errors.push(e);
        proof {
            let is = kind_issues(file@, *value);
            assert(is.len() == 1);
            lemma_appended_none(before);
            assert(reports(e, is[0]));
            lemma_appended_push(before, before, Seq::empty(), e, is[0]);
            assert(Seq::<Issue>::empty().push(is[0]) =~= is);
        }
    }
}

/// Pushes an issue for each unknown top-level field, in key order.
fn reject_unknown_top_level_fields(value: &Json, file: &str, errors: &mut ErrorCollector)
    ensures
        appended(old(errors).errors_spec(), final(errors).errors_spec(), top_issues(file@, *value)),
        final(errors).file_spec() == old(errors).file_spec(),
{
    proof { reveal_strlit("kind"); reveal_strlit("name"); reveal_strlit("nodes"); reveal_strlit("spawn_counter"); }
    let ghost start = errors.errors_spec();
    proof { lemma_appended_none(start); }
    let m = match value {
        Json::Object(m) => m,
        _ => return,
    };
    let n = m.len();
    let mut i: usize = 0;
    while i < n
        invariant
            i <= n,
            n == m.key_seq().len(),
            *value == Json::Object(*m),
            errors.file_spec() == old(errors).file_spec(),
            start == old(errors).errors_spec(),
            appended(start, errors.errors_spec(), unknown_field_issues(file@, m.key_seq().take(i as int))),
        decreases n - i,
    {
        let key = m.key_at(i);
        assert(m.key_seq().take(i + 1).drop_last() =~= m.key_seq().take(i as int));
        let known = str_eq(key.as_str(), "kind") || str_eq(key.as_str(), "name")
            || str_eq(key.as_str(), "nodes") || str_eq(key.as_str(), "spawn_counter");
        if !known {
            let mut path = text("$.");
            push_str(&mut path, key.as_str());
            let mut message = text("unknown top-level field \"");
            push_str(&mut message, key.as_str());
            push_str(&mut message, "\"");
            let mut suggestion = text("Remove \"");
            push_str(&mut suggestion, key.as_str());
            push_str(&mut suggestion, "\" or rename to one of: kind, name, nodes, spawn_counter");
            let e = new_error(file, path, message, text("one of [kind, name, nodes, spawn_counter]"),
                Some(Json::Str(key.clone())), Some(suggestion), AutoFix::Safe);
            let ghost before = errors.errors_spec();
            errors.push(e);
            proof {
                lemma_appended_push(start, before, unknown_field_issues(file@, m.key_seq().take(i as int)), e,
                    unknown_field_issue(file@, key@));
            }
        }
        i += 1;
    }
    assert(m.key_seq().take(n as int) =~= m.key_seq());
}


// ------------------------------------------------------------ node checks

/// A node's schema by name (with the index of the spec that holds each
/// name) and its distinct names, ascending.
fn schema_table(specs: &[ComponentSpec]) -> (r: (StrMap<usize>, Vec<String>))
    ensures
        forall|k: Seq<char>| r.0@.contains_key(k) <==> spec_table(specs@).contains_key(k),
        forall|k: Seq<char>| #[trigger] r.0@.contains_key(k) ==> r.0@[k] < specs@.len()
            && specs@[r.0@[k] as int] == spec_table(specs@)[k],
        r.1@.map_values(|s: String| s@) == sorted_names(specs@),
{
    let mut table: StrMap<usize> = StrMap::new();
    let mut t: usize = 0;
    while t < specs.len()
        invariant
            t <= specs@.len(),
            forall|k: Seq<char>| table@.contains_key(k) <==> spec_table(specs@.take(t as int)).contains_key(k),
            forall|k: Seq<char>| #[trigger] table@.contains_key(k) ==> table@[k] < t
                && specs@[table@[k] as int] == spec_table(specs@.take(t as int))[k],
        decreases specs.len() - t,
    {
        assert(specs@.take(t + 1).drop_last() =~= specs@.take(t as int));
        assert(specs@.take(t + 1).last() == specs@[t as int]);
        table.insert(specs[t].name.clone(), t);
        t += 1;
    }
    assert(specs@.take(specs@.len() as int) =~= specs@);
    table.proof_keys();
    let n = table.len();
    let mut names: Vec<String> = Vec::new();
    let mut i: usize = 0;
    while i < n
        invariant
            i <= n,
            n == table.key_seq().len(),
            names@.map_values(|s: String| s@) == table.key_seq().take(i as int),
        decreases n - i,
    {
        let k = table.key_at(i).clone();
        let ghost before = names@;
        names.push(k);
        assert(names@.map_values(|s: String| s@) =~= before.map_values(|s: String| s@).push(k@));
        assert(table.key_seq().take(i + 1) =~= table.key_seq().take(i as int).push(table.key_seq()[i as int]));
        i += 1;
    }
    assert(table.key_seq().take(n as int) =~= table.key_seq());
    proof {
        let ks = table.key_seq();
        assert(keys_ascending(ks) && forall|k: Seq<char>| ks.contains(k) <==> spec_table(specs@).contains_key(k));
        let s = sorted_names(specs@);
        lemma_ascending_unique(ks, s);
    }
    (table, names)
}

/// Pushes an issue for each component key the schema lacks.
fn push_unexpected(node: &Node, index: usize, file: &str, table: &StrMap<usize>, names: &Vec<String>,
    errors: &mut ErrorCollector, Ghost(doc): Ghost<Json>, Ghost(specs): Ghost<Seq<ComponentSpec>>)
    requires
        node_of(doc, *node),
        forall|k: Seq<char>| table@.contains_key(k) <==> spec_table(specs).contains_key(k),
        names@.map_values(|s: String| s@) == sorted_names(specs),
    ensures
        appended(old(errors).errors_spec(), final(errors).errors_spec(),
            unexpected_issues(file@, index as nat, node.node_type@, doc_keys(doc), spec_table(specs), sorted_names(specs))),
        final(errors).file_spec() == old(errors).file_spec(),
{
    let ghost start = errors.errors_spec();
    proof { lemma_appended_none(start); }
    let ghost keys = doc_keys(doc);
    let ghost names_v = sorted_names(specs);
    let comps = &node.components;
    comps.proof_keys();
    assert(comps.key_seq() == keys);
    let mut joined = String::new();
    push_join(&mut joined, names.as_slice(), ", ");
    let n = comps.len();
    let mut t: usize = 0;
    while t < n
        invariant
            t <= n,
            n == keys.len(),
            comps.key_seq() == keys,
            joined@ == join(names_v, ", "@),
            names@.map_values(|s: String| s@) == names_v,
            forall|k: Seq<char>| table@.contains_key(k) <==> spec_table(specs).contains_key(k),
            errors.file_spec() == old(errors).file_spec(),
            start == old(errors).errors_spec(),
            appended(start, errors.errors_spec(),
                unexpected_issues(file@, index as nat, node.node_type@, keys.take(t as int), spec_table(specs), names_v)),
        decreases n - t,
    {
        let key = comps.key_at(t);
        assert(keys.take(t + 1).drop_last() =~= keys.take(t as int));
        if !table.contains_key(key.as_str()) {
            let mut message = text("unknown component \"");
            push_str(&mut message, key.as_str());
            push_str(&mut message, "\" for node type \"");
            push_str(&mut message, node.node_type.as_str());
            push_str(&mut message, "\"");
            let mut expected = text("one of [");
            push_str(&mut expected, joined.as_str());
            push_str(&mut expected, "]");
            let mut fallback = text("Remove \"");
            push_str(&mut fallback, key.as_str());
            push_str(&mut fallback, "\" or use one of: ");
            push_str(&mut fallback, joined.as_str());
            let suggestion = suggestion_text(key.as_str(), names, fallback);
            let e = new_error(file, component_path_text(index, key.as_str()), message, expected,
                Some(Json::Str(key.clone())), Some(suggestion), AutoFix::NeedsReview);
            let ghost before = errors.errors_spec();
            errors.push(e);
            proof {
                let is = unexpected_issues(file@, index as nat, node.node_type@, keys.take(t + 1), spec_table(specs), names_v);
                let prev = unexpected_issues(file@, index as nat, node.node_type@, keys.take(t as int), spec_table(specs), names_v);
                assert(is == prev.push(is.last()));
                lemma_appended_push(start, before, prev, e, is.last());
            }
        } else {
            proof {
                let is = unexpected_issues(file@, index as nat, node.node_type@, keys.take(t + 1), spec_table(specs), names_v);
                let prev = unexpected_issues(file@, index as nat, node.node_type@, keys.take(t as int), spec_table(specs), names_v);
                assert(is =~= prev);
            }
        }
        t += 1;
    }
    assert(keys.take(n as int) =~= keys);
}

/// Pushes an issue for each declared component whose value has the
/// wrong type.
fn push_wrong_types(node: &Node, index: usize, file: &str, table: &StrMap<usize>, specs: &[ComponentSpec],
    errors: &mut ErrorCollector, Ghost(doc): Ghost<Json>)
    requires
        node_ok(doc),
        node_of(doc, *node),
        forall|k: Seq<char>| table@.contains_key(k) <==> spec_table(specs@).contains_key(k),
        forall|k: Seq<char>| #[trigger] table@.contains_key(k) ==> table@[k] < specs@.len()
            && specs@[table@[k] as int] == spec_table(specs@)[k],
    ensures
        appended(old(errors).errors_spec(), final(errors).errors_spec(),
            wrong_type_issues(file@, index as nat, doc_keys(doc), doc_values(doc), spec_table(specs@))),
        final(errors).file_spec() == old(errors).file_spec(),
{
    let ghost start = errors.errors_spec();
    proof { lemma_appended_none(start); }
    let ghost keys = doc_keys(doc);
    let ghost vals = doc_values(doc);
    let ghost tbl = spec_table(specs@);
    let comps = &node.components;
    comps.proof_keys();
    assert(comps.key_seq() == keys);
    assert(forall|i: int| 0 <= i < keys.len() ==>
        (#[trigger] component_of(vals[i])) == Some((comps.value_seq()[i].value@, comps.value_seq()[i].kind)));
    let n = comps.len();
    let mut t: usize = 0;
    while t < n
        invariant
            t <= n,
            n == keys.len() == comps.value_seq().len(),
            comps.key_seq() == keys,
            forall|i: int| 0 <= i < keys.len() ==>
                (#[trigger] component_of(vals[i])) == Some((comps.value_seq()[i].value@, comps.value_seq()[i].kind)),
            forall|k: Seq<char>| table@.contains_key(k) <==> tbl.contains_key(k),
            forall|k: Seq<char>| #[trigger] table@.contains_key(k) ==> table@[k] < specs@.len()
                && specs@[table@[k] as int] == tbl[k],
            errors.file_spec() == old(errors).file_spec(),
            start == old(errors).errors_spec(),
            appended(start, errors.errors_spec(), wrong_type_issues(file@, index as nat, keys.take(t as int), vals, tbl)),
        decreases n - t,
    {
        let key = comps.key_at(t);
        let c = comps.value_at(t);
        assert(keys.take(t + 1).drop_last() =~= keys.take(t as int));
        assert(keys.take(t + 1)[t as int] == keys[t as int]);
        assert(component_of(vals[t as int]) == Some((c.value@, c.kind)));
        let ghost prev = wrong_type_issues(file@, index as nat, keys.take(t as int), vals, tbl);
        let ghost is = wrong_type_issues(file@, index as nat, keys.take(t + 1), vals, tbl);
        match table.get(key.as_str()) {
            Some(idx) => {
                let spec = &specs[*idx];
                if !component_value_matches(&c.value, spec.ty) {
                    let tyname = spec.ty.name();
                    let mut message = text("component \"");
                    push_str(&mut message, key.as_str());
                    push_str(&mut message, "\" has wrong type, expected ");
                    push_str(&mut message, tyname);
                    let mut suggestion = text("Replace with a ");
                    push_str(&mut suggestion, tyname);
                    push_str(&mut suggestion, " value, e.g. ");
                    let dflt = to_json_text(&spec.default);
                    push_str(&mut suggestion, dflt.as_str());
                    let e = new_error(file, component_path_text(index, key.as_str()), message, text(tyname),
                        Some(component_to_json(&c.value)), Some(suggestion), AutoFix::Suggested);
                    let ghost before = errors.errors_spec();
                    errors.push(e);
                    proof {
                        assert(is == prev.push(is.last()));
                        lemma_appended_push(start, before, prev, e, is.last());
                    }
                } else {
                    assert(is =~= prev);
                }
            },
            None => {
                assert(is =~= prev);
            },
        }
        t += 1;
    }
    assert(keys.take(n as int) =~= keys);
}

/// Pushes an issue for each declared component the node lacks.
fn push_missing(node: &Node, index: usize, file: &str, table: &StrMap<usize>, names: &Vec<String>,
    specs: &[ComponentSpec], errors: &mut ErrorCollector, Ghost(doc): Ghost<Json>)
    requires
        node_of(doc, *node),
        forall|k: Seq<char>| table@.contains_key(k) <==> spec_table(specs@).contains_key(k),
        forall|k: Seq<char>| #[trigger] table@.contains_key(k) ==> table@[k] < specs@.len()
            && specs@[table@[k] as int] == spec_table(specs@)[k],
        names@.map_values(|s: String| s@) == sorted_names(specs@),
    ensures
        appended(old(errors).errors_spec(), final(errors).errors_spec(),
            missing_issues(file@, index as nat, sorted_names(specs@), doc_keys(doc), spec_table(specs@))),
        final(errors).file_spec() == old(errors).file_spec(),
{
    let ghost start = errors.errors_spec();
    proof { lemma_appended_none(start); }
    let ghost keys = doc_keys(doc);
    let ghost tbl = spec_table(specs@);
    let ghost names_v = sorted_names(specs@);
    let comps = &node.components;
    comps.proof_keys();
    assert(comps.key_seq() == keys);
    table.proof_keys();
    assert(keys_ascending(table.key_seq()) && forall|k: Seq<char>| table.key_seq().contains(k) <==> tbl.contains_key(k));
    let n = names.len();
    let mut t: usize = 0;
    while t < n
        invariant
            t <= n,
            n == names_v.len(),
            names@.map_values(|s: String| s@) == names_v,
            comps.key_seq() == keys,
            forall|k: Seq<char>| comps@.contains_key(k) <==> keys.contains(k),
            forall|k: Seq<char>| names_v.contains(k) ==> tbl.contains_key(k),
            forall|k: Seq<char>| table@.contains_key(k) <==> tbl.contains_key(k),
            forall|k: Seq<char>| #[trigger] table@.contains_key(k) ==> table@[k] < specs@.len()
                && specs@[table@[k] as int] == tbl[k],
            errors.file_spec() == old(errors).file_spec(),
            start == old(errors).errors_spec(),
            appended(start, errors.errors_spec(), missing_issues(file@, index as nat, names_v.take(t as int), keys, tbl)),
        decreases n - t,
    {
        let name = &names[t];
        assert(name@ == names_v[t as int]);
        assert(names_v.take(t + 1).drop_last() =~= names_v.take(t as int));
        assert(names_v.take(t + 1).last() == names_v[t as int]);
        assert(names_v.contains(name@));
        let ghost prev = missing_issues(file@, index as nat, names_v.take(t as int), keys, tbl);
        let ghost is = missing_issues(file@, index as nat, names_v.take(t + 1), keys, tbl);
        if !comps.contains_key(name.as_str()) {
            let idx = match table.get(name.as_str()) {
                Some(i) => *i,
                None => 0,
            };
            let spec = &specs[idx];
            let mut message = text("missing required component \"");
            push_str(&mut message, name.as_str());
            push_str(&mut message, "\"");
            let mut expected = text("present ");
            push_str(&mut expected, spec.ty.name());
            push_str(&mut expected, " value");
            let mut suggestion = text("Add \"");
            push_str(&mut suggestion, name.as_str());
            push_str(&mut suggestion, "\": ");
            let dflt = to_json_text(&spec.default);
            push_str(&mut suggestion, dflt.as_str());
            push_str(&mut suggestion, " (default)");
            let e = new_error(file, component_path_text(index, name.as_str()), message, expected,
                Some(Json::Null), Some(suggestion), AutoFix::Safe);
            let ghost before = errors.errors_spec();
            errors.push(e);
            proof {
                assert(is == prev.push(is.last()));
                lemma_appended_push(start, before, prev, e, is.last());
            }
        } else {
            assert(is =~= prev);
        }
        t += 1;
    }
    assert(names_v.take(n as int) =~= names_v);
}


/// Pushes the issues of node `node`, decoded from `doc`, at index `index`.
fn validate_node(node: &Node, index: usize, file: &str, registry: &NodeRegistry, errors: &mut ErrorCollector,
    Ghost(doc): Ghost<Json>)
    requires
        node_ok(doc),
        node_of(doc, *node),
    ensures
        appended(old(errors).errors_spec(), final(errors).errors_spec(),
            node_issues(file@, doc, index as nat, registry@, registry.names())),
        final(errors).file_spec() == old(errors).file_spec(),
{
    let ghost start = errors.errors_spec();
    assert(node.node_type@ == doc_type(doc));
    match registry.get(node.node_type.as_str()) {
        None => {
            let names = registry.type_names();
            let mut fallback = text("Known node types: ");
            push_join(&mut fallback, names.as_slice(), ", ");
            let suggestion = suggestion_text(node.node_type.as_str(), &names, fallback);
            let mut message = text("unknown node type \"");
            push_str(&mut message, node.node_type.as_str());
            push_str(&mut message, "\"");
            let e = new_error(file, node_path_text(index, ".type"), message, text("known node type"),
                Some(Json::Str(node.node_type.clone())), Some(suggestion), AutoFix::Suggested);
            errors.push(e);
            proof {
                lemma_appended_none(start);
                let is = node_issues(file@, doc, index as nat, registry@, registry.names());
                lemma_appended_push(start, start, Seq::empty(), e, is[0]);
                assert(Seq::<Issue>::empty().push(is[0]) =~= is);
            }
        },
        Some(def) => {
            let specs = def.component_specs();
            let ghost sp = specs@;
            let (table, names) = schema_table(specs);
            push_unexpected(node, index, file, &table, &names, errors, Ghost(doc), Ghost(sp));
            let ghost mid1 = errors.errors_spec();
            push_wrong_types(node, index, file, &table, specs, errors, Ghost(doc));
            let ghost mid2 = errors.errors_spec();
            push_missing(node, index, file, &table, &names, specs, errors, Ghost(doc));
            proof {
                let ty = node.node_type@;
                let tbl = spec_table(sp);
                let nm = sorted_names(sp);
                let i1 = unexpected_issues(file@, index as nat, ty, doc_keys(doc), tbl, nm);
                let i2 = wrong_type_issues(file@, index as nat, doc_keys(doc), doc_values(doc), tbl);
                let i3 = missing_issues(file@, index as nat, nm, doc_keys(doc), tbl);
                lemma_appended_chain(start, mid1, mid2, i1, i2);
                lemma_appended_chain(start, mid2, errors.errors_spec(), i1 + i2, i3);
            }
        },
    }
}

/// What loading scene document `value` from `file` gives: the scene, if
/// the document decodes and has no issues; a parse error (at line 0,
/// column 0, as serde_json reports errors found in an already-parsed
/// value) if it does not decode; otherwise a validation error listing
/// every issue, in report order.
pub open spec fn loaded(value: Json, file: Seq<char>, types: Map<Seq<char>, Seq<ComponentSpec>>,
    type_names: Seq<Seq<char>>, r: EngineResult<Scene>) -> bool {
    match r {
        Ok(s) => scene_doc_ok(value) && scene_of(value, s)
            && scene_issues(file, value, types, type_names).len() == 0,
        Err(EngineError::Parse(p)) => !scene_doc_ok(value) && p.file@ == file
            && p.line == Some(0u32) && p.column == Some(0u32) && p.snippet is None,
        Err(EngineError::Validation { file: f, errors }) => scene_doc_ok(value) && f@ == file
            && scene_issues(file, value, types, type_names).len() > 0
            && reports_all(errors@, scene_issues(file, value, types, type_names)),
        Err(_) => false,
    }
}

impl Scene {
    /// Decodes and validates a scene document. A document that does not
    /// decode is a parse error (at line 0, column 0, as serde_json reports
    /// errors found in an already-parsed value); a decoded scene with
    /// issues is a validation error listing every issue, in report order.
    pub fn from_value(value: Json, file: &str, registry: &NodeRegistry) -> (r: EngineResult<Scene>)
        ensures
            loaded(value, file@, registry@, registry.names(), r),
    {
        let mut errors = ErrorCollector::new(file);
        let ghost start = errors.errors_spec();
        check_kind(&value, file, &mut errors);
        let ghost mid = errors.errors_spec();
        reject_unknown_top_level_fields(&value, file, &mut errors);
        let ghost doc = value;
        let ghost docs = node_docs(doc);
        let ghost types = registry@;
        let ghost tnames = registry.names();
        proof {
            lemma_appended_chain(start, mid, errors.errors_spec(), kind_issues(file@, doc), top_issues(file@, doc));
            assert(nodes_issues(file@, docs, 0, types, tnames) =~= Seq::<Issue>::empty());
            assert(kind_issues(file@, doc) + top_issues(file@, doc) + Seq::<Issue>::empty()
                =~= kind_issues(file@, doc) + top_issues(file@, doc));
        }
        let scene = match decode_scene(value) {
            Ok(s) => s,
            Err(message) => {
                return Err(EngineError::Parse(ParseError {
                    file: file.to_string(),
                    line: Some(0),
                    column: Some(0),
                    message,
                    snippet: None,
                }));
            },
        };
        assert(docs.len() == scene.nodes@.len());
        let mut seen: StrMap<bool> = StrMap::new();
        let n = scene.nodes.len();
        let mut i: usize = 0;
        while i < n
            invariant
                i <= n,
                types == registry@,
                tnames == registry.names(),
                n == docs.len() == scene.nodes@.len(),
                scene_doc_ok(doc),
                forall|t: int| 0 <= t < n ==> node_ok(#[trigger] docs[t]) && node_of(docs[t], scene.nodes@[t]),
                forall|k: Seq<char>| seen@.contains_key(k) <==> exists|t: int| 0 <= t < i && #[trigger] doc_id(docs[t]) == k,
                errors.file_spec() == file@,
                start.len() == 0,
                appended(start, errors.errors_spec(),
                    kind_issues(file@, doc) + top_issues(file@, doc) + nodes_issues(file@, docs, i as nat, types, tnames)),
            decreases n - i,
        {
            let node = &scene.nodes[i];
            assert(node_ok(docs[i as int]) && node_of(docs[i as int], scene.nodes@[i as int]));
            assert(node.id@ == doc_id(docs[i as int]));
            let ghost pre = errors.errors_spec();
            let ghost before = kind_issues(file@, doc) + top_issues(file@, doc) + nodes_issues(file@, docs, i as nat, types, tnames);
            let reused = seen.contains_key(node.id.as_str());
            assert(reused == id_reused(docs, i as int));
            if reused {
                let mut message = text("duplicate node id \"");
                push_str(&mut message, node.id.as_str());
                push_str(&mut message, "\"");
                let e = new_error(file, node_path_text(i, ".id"), message, text("unique string id"),
                    Some(Json::Str(node.id.clone())), Some(text("Give each node a distinct id")), AutoFix::NeedsReview);
                errors.push(e);
                proof {
                    lemma_appended_push(start, pre, before, e, duplicate_issue(file@, i as nat, doc_id(docs[i as int])));
                }
            } else {
                proof {
                    assert(before + Seq::<Issue>::empty() =~= before);
                }
            }
            let ghost dup = if reused { seq![duplicate_issue(file@, i as nat, doc_id(docs[i as int]))] } else { Seq::<Issue>::empty() };
            assert(appended(start, errors.errors_spec(), before + dup)) by {
                if reused {
                    assert(before.push(duplicate_issue(file@, i as nat, doc_id(docs[i as int]))) =~= before + dup);
                }
            }
            seen.insert(node.id.clone(), true);
            let ghost mid2 = errors.errors_spec();
            validate_node(node, i, file, registry, &mut errors, Ghost(docs[i as int]));
            assert(appended(mid2, errors.errors_spec(), node_issues(file@, docs[i as int], i as nat, registry@, registry.names())));
            proof {
                let ni = node_issues(file@, docs[i as int], i as nat, types, tnames);
                lemma_appended_chain(start, mid2, errors.errors_spec(), before + dup, ni);
                assert(before + dup + ni =~= kind_issues(file@, doc) + top_issues(file@, doc)
                    + nodes_issues(file@, docs, (i + 1) as nat, types, tnames));
                assert forall|k: Seq<char>| seen@.contains_key(k) <==> exists|t: int| 0 <= t < i + 1 && #[trigger] doc_id(docs[t]) == k by {
                    if k == doc_id(docs[i as int]) {
                        assert(doc_id(docs[i as int]) == k);
                    }
                }
            }
            i += 1;
        }
        proof {
            let all = scene_issues(file@, doc, types, tnames);
            assert(errors.errors_spec().skip(0) =~= errors.errors_spec());
        }
        match errors.into_result() {
            Ok(()) => Ok(scene),
            Err(e) => Err(e),
        }
    }
}


// ------------------------------------------------------------ parse errors

/// The pieces of a text between newlines (one more than there are
/// newlines).
pub open spec fn split_lines(s: Seq<char>) -> Seq<Seq<char>>
    decreases s.len(),
{
    if s.len() == 0 {
        seq![Seq::empty()]
    } else if s.last() == '\n' {
        split_lines(s.drop_last()).push(Seq::empty())
    } else {
        let p = split_lines(s.drop_last());
        p.update(p.len() - 1, p.last().push(s.last()))
    }
}

/// A line without the carriage return that ended it.
pub open spec fn strip_cr(l: Seq<char>) -> Seq<char> {
    if l.len() > 0 && l.last() == '\r' { l.drop_last() } else { l }
}

/// The lines of a text, as `str::lines` gives them: a final newline ends
/// the last line rather than starting an empty one, and `\r\n` endings
/// lose their `\r`.
pub open spec fn text_lines(s: Seq<char>) -> Seq<Seq<char>> {
    let p = split_lines(s);
    let k = p.len() - 1;
    let head = p.take(k).map_values(|l: Seq<char>| strip_cr(l));
    if p[k].len() == 0 { head } else { head.push(p[k]) }
}

/// The source lines shown for a parse error at (1-based) `line`: that
/// line and up to two after it, as far as they exist, joined by newlines.
pub open spec fn snippet_text(contents: Seq<char>, line: nat) -> Seq<char> {
    let lines = text_lines(contents);
    let start: int = if line >= 1 { line - 1 } else { 0 };
    let end: int = if line + 2 <= lines.len() { line + 2int } else { lines.len() as int };
    if start <= end { join(lines.subrange(start, end), "\n"@) } else { Seq::empty() }
}

proof fn lemma_split_lines_len(s: Seq<char>)
    ensures
        split_lines(s).len() >= 1,
    decreases s.len(),
{
    if s.len() > 0 {
        lemma_split_lines_len(s.drop_last());
    }
}

/// Splits a text into lines (`str::lines`).
fn lines_of(text: &str) -> (r: Vec<String>)
    ensures
        r@.map_values(|l: String| l@) == text_lines(text@),
{
    let cs = crate::text::to_chars(text);
    let ghost s = text@;
    let mut lines: Vec<String> = Vec::new();
    let mut cur: Vec<char> = Vec::new();
    let mut i: usize = 0;
    proof { lemma_split_lines_len(s.take(0)); assert(s.take(0) =~= Seq::<char>::empty()); }
    while i < cs.len()
        invariant
            cs@ == s,
            i <= s.len(),
            split_lines(s.take(i as int)).len() >= 1,
            lines@.map_values(|l: String| l@)
                == split_lines(s.take(i as int)).take(split_lines(s.take(i as int)).len() - 1).map_values(|l: Seq<char>| strip_cr(l)),
            cur@ == split_lines(s.take(i as int)).last(),
        decreases cs.len() - i,
    {
        let c = cs[i];
        let ghost pre = s.take(i as int);
        let ghost p = split_lines(pre);
        assert(s.take(i + 1).drop_last() =~= pre);
        assert(s.take(i + 1).last() == c);
        proof { lemma_split_lines_len(s.take(i + 1)); }
        if c == '\n' {
            let mut line = String::new();
            let n = cur.len();
            let m: usize = if n > 0 && cur[n - 1] == '\r' { n - 1 } else { n };
            let mut k: usize = 0;
            while k < m
                invariant
                    k <= m <= cur@.len(),
                    line@ == cur@.take(k as int),
                decreases m - k,
            {
                crate::text::push_char(&mut line, cur[k]);
                assert(cur@.take(k + 1) =~= cur@.take(k as int).push(cur@[k as int]));
                k += 1;
            }
            assert(line@ =~= strip_cr(cur@));
            let ghost before = lines@;
            lines.push(line);
            cur = Vec::new();
            proof {
                let q = split_lines(s.take(i + 1));
                assert(q == p.push(Seq::<char>::empty()));
                assert(q.take(q.len() - 1) =~= p);
                assert(p =~= p.take(p.len() - 1).push(p.last()));
                assert(lines@.map_values(|l: String| l@) =~= before.map_values(|l: String| l@).push(strip_cr(p.last())));
                assert(q.take(q.len() - 1).map_values(|l: Seq<char>| strip_cr(l))
                    =~= p.take(p.len() - 1).map_values(|l: Seq<char>| strip_cr(l)).push(strip_cr(p.last())));
                assert(cur@ =~= q.last());
            }
        } else {
            cur.push(c);
            proof {
                let q = split_lines(s.take(i + 1));
                assert(q == p.update(p.len() - 1, p.last().push(c)));
                assert(q.take(q.len() - 1) =~= p.take(p.len() - 1));
            }
        }
        i += 1;
    }
    assert(s.take(cs@.len() as int) =~= s);
    if cur.len() > 0 {
        let mut line = String::new();
        let mut k: usize = 0;
        while k < cur.len()
            invariant
                k <= cur@.len(),
                line@ == cur@.take(k as int),
            decreases cur.len() - k,
        {
            crate::text::push_char(&mut line, cur[k]);
            assert(cur@.take(k + 1) =~= cur@.take(k as int).push(cur@[k as int]));
            k += 1;
        }
        assert(line@ =~= cur@);
        let ghost before = lines@;
        lines.push(line);
        assert(lines@.map_values(|l: String| l@) =~= before.map_values(|l: String| l@).push(cur@));
    }
    lines
}

/// The source lines around a parse error at `line`.
pub(crate) fn snippet_around(contents: &str, line: usize) -> (r: String)
    ensures
        r@ == snippet_text(contents@, line as nat),
{
    let lines = lines_of(contents);
    let ghost lv = lines@.map_values(|l: String| l@);
    let start: usize = if line >= 1 { line - 1 } else { 0 };
    let end: usize = if line <= usize::MAX - 2 && line + 2 <= lines.len() { line + 2 } else { lines.len() };
    let mut out = String::new();
    if start <= end {
        let mut i: usize = start;
        while i < end
            invariant
                start <= i <= end <= lines@.len(),
                lv == lines@.map_values(|l: String| l@),
                out@ == join(lv.subrange(start as int, i as int), "\n"@),
            decreases end - i,
        {
            if i > start {
                push_str(&mut out, "\n");
            }
            push_str(&mut out, lines[i].as_str());
            assert(lv.subrange(start as int, i + 1).drop_last() =~= lv.subrange(start as int, i as int));
            if i == start {
                assert(lv.subrange(start as int, i + 1)[0] == lv[i as int]);
            }
            i += 1;
        }
    }
    proof { reveal_strlit("\n"); }
    out
}

/// What `Scene::parse` gives for text `contents` from file `file`: the
/// loaded scene of the document the text parses to, or, where serde_json
/// rejects the text, a parse error on one of its lines with the source
/// lines around it.
pub open spec fn scene_parsed(contents: Seq<char>, file: Seq<char>, registry: NodeRegistry, r: EngineResult<Scene>) -> bool {
    &&& (exists|value: Json| parses_to(contents, value)) ==>
        exists|value: Json| #[trigger] parses_to(contents, value) && loaded(value, file, registry@, registry.names(), r)
    &&& !(exists|value: Json| parses_to(contents, value)) ==> (
        r matches Err(EngineError::Parse(p)) && p.file@ == file
            && exists|l: usize| p.line == Some(l as u32) && 1 <= l <= line_count(contents)
                && (p.snippet matches Some(sn) && sn@ == #[trigger] snippet_text(contents, l as nat)))
}

impl Scene {
    /// Parses scene JSON text and loads it (`Scene::from_value`). Text
    /// serde_json rejects is a parse error carrying serde_json's position
    /// (on one of the text's lines) and message, with the source lines
    /// around that position.
    pub fn parse(contents: &str, file: &str, registry: &NodeRegistry) -> (r: EngineResult<Scene>)
        ensures
            scene_parsed(contents@, file@, *registry, r),
    {
        match parse_json(contents) {
            Ok(value) => Scene::from_value(value, file, registry),
            Err(e) => {
                let snippet = snippet_around(contents, e.line);
                Err(EngineError::Parse(ParseError {
                    file: file.to_string(),
                    line: Some(e.line as u32),
                    column: Some(e.column as u32),
                    message: e.message,
                    snippet: Some(snippet),
                }))
            },
        }
    }
}

} // verus!
