//! Expression evaluation: the values expressions produce, how they compare
//! and add, reads of component values (seeing writes earlier in the same
//! evaluation), and the conversion of documents into component values.

use vstd::prelude::*;
use crate::behavior::Expression;
use crate::json::{
    Json, json_same, json_equal, json_text, int_text, quoted, number_text_of, number_same, numbers_identical,
    number_text, push_int, push_quoted, write_json, i64_of_number, number_as_i64, float_of_int, float_of_number, float_number,
    int_as_float, number_as_float, clone_number, obj_get, str_member, get, get_str, debug_text_of, debug_json,
    members_debug_text_of, debug_members,
};
use crate::lint::{first_dot, find_dot, chars_between, lemma_first_dot};
use crate::load_scene::number_value;
use crate::scene::{ComponentValue, Node, NodeRegistry, Scene, ValueView, first_node, lemma_first_node};
use crate::evaluator::EvalError;
use crate::strmap::StrMap;
use crate::text::{push_str, push_char, push_decimal, decimal, str_eq, seq_lt, compare_str, Collation, to_chars};

verus! {

broadcast use vstd::string::group_string_axioms;

// ------------------------------------------------------ float arithmetic

/// The sum of two numbers' `f64` values, as serde_json makes a number of
/// it (`Number::from_f64`, `None` when the sum is not finite).
pub uninterp spec fn float_sum(a: serde_json::Number, b: serde_json::Number) -> Option<serde_json::Number>;

/// Adds two numbers as `f64`s. Beside the serde_json calls (`as_f64`,
/// `Number::from_f64`) it holds std's `f64` addition: floating-point work,
/// which the verified code carries only as numbers. The contract claims
/// that the result is the named sum, and that the sum does not depend on
/// the order of the operands: `as_f64` of a number is finite, and the sum
/// of two finite `f64`s is the same either way round.
#[verifier::external_body]
fn add_numbers(a: &serde_json::Number, b: &serde_json::Number) -> (r: Option<serde_json::Number>)
    ensures
        r == float_sum(*a, *b),
        r == float_sum(*b, *a),
{
    match (a.as_f64(), b.as_f64()) {
        (Some(x), Some(y)) => serde_json::Number::from_f64(x + y),
        _ => None,
    }
}

/// The difference of two numbers' `f64` values, as serde_json makes a
/// number of it (`None` when it is not finite).
pub uninterp spec fn float_difference(a: serde_json::Number, b: serde_json::Number) -> Option<serde_json::Number>;

/// Subtracts two numbers as `f64`s. Beside the serde_json calls
/// (`as_f64`, `Number::from_f64`) it holds std's `f64` subtraction:
/// floating-point work, which the verified code carries only as numbers.
#[verifier::external_body]
fn subtract_numbers(a: &serde_json::Number, b: &serde_json::Number) -> (r: Option<serde_json::Number>)
    ensures
        r == float_difference(*a, *b),
{
    match (a.as_f64(), b.as_f64()) {
        (Some(x), Some(y)) => serde_json::Number::from_f64(x - y),
        _ => None,
    }
}

/// The quotient of two numbers' `f64` values, as serde_json makes a
/// number of it (`None` when it is not finite).
pub uninterp spec fn float_quotient(a: serde_json::Number, b: serde_json::Number) -> Option<serde_json::Number>;

/// Divides two numbers as `f64`s. Beside the serde_json calls (`as_f64`,
/// `Number::from_f64`) it holds std's `f64` division: floating-point
/// work, which the verified code carries only as numbers.
#[verifier::external_body]
fn divide_numbers(a: &serde_json::Number, b: &serde_json::Number) -> (r: Option<serde_json::Number>)
    ensures
        r == float_quotient(*a, *b),
{
    match (a.as_f64(), b.as_f64()) {
        (Some(x), Some(y)) => serde_json::Number::from_f64(x / y),
        _ => None,
    }
}

/// One interpolation step from `a` towards `b` with `r` ticks left:
/// `a + (b - a) / r`, each operation on the numbers' `f64` values
/// (`None` when a result is not finite).
pub open spec fn float_step(a: serde_json::Number, b: serde_json::Number, r: u32) -> Option<serde_json::Number> {
    match float_difference(b, a) {
        Some(diff) => match float_quotient(diff, float_of_int(r as i64)) {
            Some(q) => float_sum(a, q),
            None => None,
        },
        None => None,
    }
}

/// Computes `a + (b - a) / r` from the three `f64` operations.
fn step_number(a: &serde_json::Number, b: &serde_json::Number, r: u32) -> (n: Option<serde_json::Number>)
    ensures
        n == float_step(*a, *b, r),
{
    match subtract_numbers(b, a) {
        Some(diff) => {
            let d = int_as_float(r as i64);
            match divide_numbers(&diff, &d) {
                Some(q) => add_numbers(a, &q),
                None => None,
            }
        },
        None => None,
    }
}

/// Whether the first number's `f64` value is below the second's.
pub uninterp spec fn number_lt(a: serde_json::Number, b: serde_json::Number) -> bool;

/// Compares two numbers as `f64`s. Beside serde_json's `as_f64` (which
/// always gives a value) it holds std's `<` on `f64`: floating-point work,
/// which the verified code carries only as its answer.
#[verifier::external_body]
fn numbers_less(a: &serde_json::Number, b: &serde_json::Number) -> (r: bool)
    ensures
        r == number_lt(*a, *b),
{
    a.as_f64() < b.as_f64()
}

// ---------------------------------------------------------------- values

/// The value of an expression: a JSON value, with the values read from
/// components and computed by operators kept by their parts, and other
/// documents (from literals) kept whole.
pub enum Val {
    Null,
    Bool(bool),
    Int(i64),
    /// A number that is not an `i64`.
    Float(serde_json::Number),
    Str(Seq<char>),
    /// An array of numbers (a vector component).
    Floats(Seq<serde_json::Number>),
    /// An array or object document.
    Doc(Json),
}

/// A document as a value.
pub open spec fn val_of(j: Json) -> Val {
    match j {
        Json::Null => Val::Null,
        Json::Bool(b) => Val::Bool(b),
        Json::Int(i) => Val::Int(i),
        Json::Float(n) => Val::Float(n),
        Json::Str(s) => Val::Str(s@),
        _ => Val::Doc(j),
    }
}

/// The JSON form of a component value (`component_value_to_json`): floats
/// become the numbers of their `f64` values.
pub open spec fn cv_val(v: ValueView) -> Val {
    match v {
        ValueView::Nil => Val::Null,
        ValueView::Bool(b) => Val::Bool(b),
        ValueView::Int(i) => Val::Int(i),
        ValueView::Float(n) => Val::Float(float_of_number(n)),
        ValueView::String(s) => Val::Str(s),
        ValueView::Vec2(xs) => Val::Floats(xs.map_values(|n: serde_json::Number| float_of_number(n))),
        ValueView::Vec3(xs) => Val::Floats(xs.map_values(|n: serde_json::Number| float_of_number(n))),
        ValueView::Rect(xs) => Val::Floats(xs.map_values(|n: serde_json::Number| float_of_number(n))),
    }
}

/// A tagged value `{"type": T, "value": v}` with `T` one of the scalar
/// tags stands for `v`; every other value for itself.
pub open spec fn normalize_val(v: Val) -> Val {
    match v {
        Val::Doc(d) => match (str_member(d, "type"@), obj_get(d, "value"@)) {
            (Some(t), Some(inner)) =>
                if t == "Int"@ || t == "Float"@ || t == "Bool"@ || t == "String"@ { val_of(inner) } else { v },
            _ => v,
        },
        _ => v,
    }
}

/// Two value sequences of numbers are equal item by item.
pub open spec fn numbers_all_same(xs: Seq<serde_json::Number>, ys: Seq<serde_json::Number>) -> bool {
    xs.len() == ys.len() && forall|k: int| 0 <= k < xs.len() ==> number_same(#[trigger] xs[k], ys[k])
}

/// A document equals a (non-document) value, the document's side first.
pub open spec fn doc_eq_val(d: Json, v: Val) -> bool {
    match v {
        Val::Null => d is Null,
        Val::Bool(b) => d == Json::Bool(b),
        Val::Int(i) => d == Json::Int(i),
        Val::Float(n) => d matches Json::Float(m) && number_same(m, n),
        Val::Str(s) => d matches Json::Str(t) && t@ == s,
        Val::Floats(ns) => d matches Json::Array(items) && items@.len() == ns.len()
            && forall|k: int| 0 <= k < ns.len() ==> (#[trigger] items@[k] matches Json::Float(m) && number_same(m, ns[k])),
        Val::Doc(e) => json_same(d, e),
    }
}

/// A (non-document) value equals a document, the value's side first.
pub open spec fn val_eq_doc(v: Val, d: Json) -> bool {
    match v {
        Val::Null => d is Null,
        Val::Bool(b) => d == Json::Bool(b),
        Val::Int(i) => d == Json::Int(i),
        Val::Float(n) => d matches Json::Float(m) && number_same(n, m),
        Val::Str(s) => d matches Json::Str(t) && t@ == s,
        Val::Floats(ns) => d matches Json::Array(items) && items@.len() == ns.len()
            && forall|k: int| 0 <= k < ns.len() ==> (#[trigger] items@[k] matches Json::Float(m) && number_same(ns[k], m)),
        Val::Doc(e) => json_same(e, d),
    }
}

/// `a == b` on the JSON values (serde_json's equality on `Value`).
pub open spec fn val_eq(a: Val, b: Val) -> bool {
    match (a, b) {
        (Val::Doc(x), _) => doc_eq_val(x, b),
        (_, Val::Doc(y)) => val_eq_doc(a, y),
        (Val::Null, Val::Null) => true,
        (Val::Bool(x), Val::Bool(y)) => x == y,
        (Val::Int(x), Val::Int(y)) => x == y,
        (Val::Float(x), Val::Float(y)) => number_same(x, y),
        (Val::Str(x), Val::Str(y)) => x == y,
        (Val::Floats(xs), Val::Floats(ys)) => numbers_all_same(xs, ys),
        _ => false,
    }
}

/// The number a value is, with an integer taken as its `f64` value.
pub open spec fn val_number(v: Val) -> Option<serde_json::Number> {
    match v {
        Val::Int(i) => Some(float_of_int(i)),
        Val::Float(n) => Some(n),
        Val::Doc(d) => number_value_of_doc(d),
        _ => None,
    }
}

/// The number a document is, with an integer taken as its `f64` value.
pub open spec fn number_value_of_doc(d: Json) -> Option<serde_json::Number> {
    match d {
        Json::Int(i) => Some(float_of_int(i)),
        Json::Float(n) => Some(n),
        _ => None,
    }
}

/// The string a value is.
pub open spec fn val_str(v: Val) -> Option<Seq<char>> {
    match v {
        Val::Str(s) => Some(s),
        Val::Doc(Json::Str(s)) => Some(s@),
        _ => None,
    }
}

/// The `i64` a value is (`Value::as_i64`).
pub open spec fn val_i64(v: Val) -> Option<i64> {
    match v {
        Val::Int(i) => Some(i),
        Val::Float(n) => i64_of_number(n),
        Val::Doc(Json::Int(i)) => Some(i),
        Val::Doc(Json::Float(n)) => i64_of_number(n),
        _ => None,
    }
}

/// `a` orders before `b`: numbers by `f64` value, strings
/// lexicographically; no other pair is ordered.
pub open spec fn val_less(a: Val, b: Val) -> bool {
    match (val_number(a), val_number(b)) {
        (Some(x), Some(y)) => number_lt(x, y),
        _ => match (val_str(a), val_str(b)) {
            (Some(x), Some(y)) => seq_lt(x, y),
            _ => false,
        },
    }
}

/// Whether a number is non-zero: below or above zero (a serde_json
/// number is never NaN).
pub open spec fn number_nonzero(n: serde_json::Number) -> bool {
    number_lt(n, float_of_int(0)) || number_lt(float_of_int(0), n)
}

/// Whether a document counts as true.
pub open spec fn doc_truthy(d: Json) -> bool {
    match d {
        Json::Null => false,
        Json::Bool(b) => b,
        Json::Int(i) => i != 0,
        Json::Float(n) => number_nonzero(n),
        Json::Str(s) => s@.len() > 0,
        Json::Array(a) => a@.len() > 0,
        Json::Object(m) => m.key_seq().len() > 0,
    }
}

/// Whether a value counts as true: `null`, `false`, zero and empty
/// strings, arrays and objects do not.
pub open spec fn truthy_val(v: Val) -> bool {
    match v {
        Val::Null => false,
        Val::Bool(b) => b,
        Val::Int(i) => i != 0,
        Val::Float(n) => number_nonzero(n),
        Val::Str(s) => s.len() > 0,
        Val::Floats(xs) => xs.len() > 0,
        Val::Doc(d) => doc_truthy(d),
    }
}

/// The numbers' texts, comma-separated.
pub open spec fn numbers_joined(xs: Seq<serde_json::Number>) -> Seq<char>
    decreases xs.len(),
{
    if xs.len() == 0 {
        Seq::empty()
    } else if xs.len() == 1 {
        number_text_of(xs[0])
    } else {
        numbers_joined(xs.drop_last()) + seq![','] + number_text_of(xs.last())
    }
}

/// The compact JSON text of a value (`Display`).
pub open spec fn val_text(v: Val) -> Seq<char> {
    match v {
        Val::Null => "null"@,
        Val::Bool(b) => if b { "true"@ } else { "false"@ },
        Val::Int(i) => int_text(i),
        Val::Float(n) => number_text_of(n),
        Val::Str(s) => quoted(s),
        Val::Floats(xs) => seq!['['] + numbers_joined(xs) + seq![']'],
        Val::Doc(d) => json_text(d),
    }
}

/// A value held while evaluating, documents borrowed from the expression.
pub enum EvalValue<'a> {
    Null,
    Bool(bool),
    Int(i64),
    Float(serde_json::Number),
    Str(String),
    Floats(Vec<serde_json::Number>),
    Doc(&'a Json),
}

impl<'a> View for EvalValue<'a> {
    type V = Val;

    open spec fn view(&self) -> Val {
        match self {
            EvalValue::Null => Val::Null,
            EvalValue::Bool(b) => Val::Bool(*b),
            EvalValue::Int(i) => Val::Int(*i),
            EvalValue::Float(n) => Val::Float(*n),
            EvalValue::Str(s) => Val::Str(s@),
            EvalValue::Floats(xs) => Val::Floats(xs@),
            EvalValue::Doc(d) => Val::Doc(**d),
        }
    }
}

/// A document as a value.
fn value_of<'a>(j: &'a Json) -> (r: EvalValue<'a>)
    ensures
        r@ == val_of(*j),
{
    match j {
        Json::Null => EvalValue::Null,
        Json::Bool(b) => EvalValue::Bool(*b),
        Json::Int(i) => EvalValue::Int(*i),
        Json::Float(n) => EvalValue::Float(clone_number(n)),
        Json::Str(s) => EvalValue::Str(s.clone()),
        _ => EvalValue::Doc(j),
    }
}

fn floats_of(xs: &[serde_json::Number]) -> (r: Vec<serde_json::Number>)
    ensures
        r@ == xs@.map_values(|n: serde_json::Number| float_of_number(n)),
{
    let mut out: Vec<serde_json::Number> = Vec::new();
    let mut i: usize = 0;
    while i < xs.len()
        invariant
            i <= xs@.len(),
            out@ == xs@.take(i as int).map_values(|n: serde_json::Number| float_of_number(n)),
        decreases xs.len() - i,
    {
        out.push(number_as_float(&xs[i]));
        assert(xs@.take(i + 1).map_values(|n: serde_json::Number| float_of_number(n))
            =~= xs@.take(i as int).map_values(|n: serde_json::Number| float_of_number(n)).push(float_of_number(xs@[i as int])));
        i += 1;
    }
    assert(xs@.take(xs@.len() as int) =~= xs@);
    out
}

/// The value a component value reads as.
fn component_value<'a>(v: &ComponentValue) -> (r: EvalValue<'a>)
    ensures
        r@ == cv_val(v@),
{
    match v {
        ComponentValue::Nil => EvalValue::Null,
        ComponentValue::Bool(b) => EvalValue::Bool(*b),
        ComponentValue::Int(i) => EvalValue::Int(*i),
        ComponentValue::Float(n) => EvalValue::Float(number_as_float(n)),
        ComponentValue::String(s) => EvalValue::Str(s.clone()),
        ComponentValue::Vec2(xs) => EvalValue::Floats(floats_of(xs)),
        ComponentValue::Vec3(xs) => EvalValue::Floats(floats_of(xs)),
        ComponentValue::Rect(xs) => EvalValue::Floats(floats_of(xs)),
    }
}

/// The JSON form of a value.
pub open spec fn json_of_val(j: Json, v: Val) -> bool {
    match v {
        Val::Null => j is Null,
        Val::Bool(b) => j == Json::Bool(b),
        Val::Int(i) => j == Json::Int(i),
        Val::Float(n) => j == Json::Float(n),
        Val::Str(s) => j matches Json::Str(t) && t@ == s,
        Val::Floats(xs) => j matches Json::Array(items) && items@.len() == xs.len()
            && forall|k: int| 0 <= k < xs.len() ==> #[trigger] items@[k] == Json::Float(xs[k]),
        Val::Doc(d) => json_same(j, d),
    }
}

fn floats_json(xs: &Vec<serde_json::Number>) -> (r: Vec<Json>)
    ensures
        r@.len() == xs@.len(),
        forall|k: int| 0 <= k < xs@.len() ==> #[trigger] r@[k] == Json::Float(xs@[k]),
{
    let mut out: Vec<Json> = Vec::new();
    let mut i: usize = 0;
    while i < xs.len()
        invariant
            i <= xs@.len(),
            out@.len() == i,
            forall|k: int| 0 <= k < i ==> #[trigger] out@[k] == Json::Float(xs@[k]),
        decreases xs.len() - i,
    {
        out.push(Json::Float(clone_number(&xs[i])));
        i += 1;
    }
    out
}

/// The JSON form of a value.
fn value_to_json(v: &EvalValue) -> (r: Json)
    ensures
        json_of_val(r, v@),
{
    match v {
        EvalValue::Null => Json::Null,
        EvalValue::Bool(b) => Json::Bool(*b),
        EvalValue::Int(i) => Json::Int(*i),
        EvalValue::Float(n) => Json::Float(clone_number(n)),
        EvalValue::Str(s) => Json::Str(s.clone()),
        EvalValue::Floats(xs) => Json::Array(floats_json(xs)),
        EvalValue::Doc(d) => d.deep_clone(),
    }
}

/// The JSON form of a component value: `null`, booleans, integers,
/// strings, floats as numbers, vectors as arrays of numbers.
pub fn component_value_to_json(v: &ComponentValue) -> (r: Json)
    ensures
        json_of_val(r, cv_val(v@)),
{
    let e = component_value(v);
    value_to_json(&e)
}

fn normalize<'a>(v: EvalValue<'a>) -> (r: EvalValue<'a>)
    ensures
        r@ == normalize_val(v@),
{
    proof { reveal_strlit("type"); reveal_strlit("value"); }
    match v {
        EvalValue::Doc(d) => {
            match (get_str(d, "type"), get(d, "value")) {
                (Some(t), Some(inner)) => {
                    let tag = t.as_str();
                    proof {
                        reveal_strlit("Int"); reveal_strlit("Float"); reveal_strlit("Bool"); reveal_strlit("String");
                    }
                    if str_eq(tag, "Int") || str_eq(tag, "Float") || str_eq(tag, "Bool") || str_eq(tag, "String") {
                        value_of(inner)
                    } else {
                        EvalValue::Doc(d)
                    }
                },
                _ => EvalValue::Doc(d),
            }
        },
        other => other,
    }
}

fn number_of<'a>(v: &EvalValue<'a>) -> (r: Option<serde_json::Number>)
    ensures
        r == val_number(v@),
{
    match v {
        EvalValue::Int(i) => Some(int_as_float(*i)),
        EvalValue::Float(n) => Some(clone_number(n)),
        EvalValue::Doc(d) => match d {
            Json::Int(i) => Some(int_as_float(*i)),
            Json::Float(n) => Some(clone_number(n)),
            _ => None,
        },
        _ => None,
    }
}

fn str_of<'a, 'b>(v: &'b EvalValue<'a>) -> (r: Option<&'b str>)
    ensures
        match r {
            Some(s) => val_str(v@) == Some(s@),
            None => val_str(v@) is None,
        },
{
    match v {
        EvalValue::Str(s) => Some(s.as_str()),
        EvalValue::Doc(d) => match d {
            Json::Str(s) => Some(s.as_str()),
            _ => None,
        },
        _ => None,
    }
}

fn i64_of<'a>(v: &EvalValue<'a>) -> (r: Option<i64>)
    ensures
        r == val_i64(v@),
{
    match v {
        EvalValue::Int(i) => Some(*i),
        EvalValue::Float(n) => number_as_i64(n),
        EvalValue::Doc(d) => match d {
            Json::Int(i) => Some(*i),
            Json::Float(n) => number_as_i64(n),
            _ => None,
        },
        _ => None,
    }
}

/// `a` orders before `b`.
fn less_than<'a>(a: &EvalValue<'a>, b: &EvalValue<'a>) -> (r: bool)
    ensures
        r == val_less(a@, b@),
{
    match (number_of(a), number_of(b)) {
        (Some(x), Some(y)) => numbers_less(&x, &y),
        _ => match (str_of(a), str_of(b)) {
            (Some(x), Some(y)) => match compare_str(x, y) {
                Collation::Less => true,
                _ => false,
            },
            _ => false,
        },
    }
}

fn all_numbers_same(xs: &Vec<serde_json::Number>, ys: &Vec<serde_json::Number>) -> (r: bool)
    ensures
        r == numbers_all_same(xs@, ys@),
{
    if xs.len() != ys.len() {
        return false;
    }
    let mut i: usize = 0;
    while i < xs.len()
        invariant
            i <= xs@.len(),
            xs@.len() == ys@.len(),
            forall|k: int| 0 <= k < i ==> number_same(#[trigger] xs@[k], ys@[k]),
        decreases xs.len() - i,
    {
        if !numbers_identical(&xs[i], &ys[i]) {
            return false;
        }
        i += 1;
    }
    true
}

/// Whether a document is an array of these numbers (compared with the
/// document's number first when `doc_first`).
#[verifier::loop_isolation(false)]
fn doc_is_numbers(d: &Json, ns: &Vec<serde_json::Number>, doc_first: bool) -> (r: bool)
    ensures
        doc_first ==> (r == doc_eq_val(*d, Val::Floats(ns@))),
        !doc_first ==> (r == val_eq_doc(Val::Floats(ns@), *d)),
{
    match d {
        Json::Array(items) => {
            if items.len() != ns.len() {
                return false;
            }
            let mut i: usize = 0;
            while i < ns.len()
                invariant
                    i <= ns@.len(),
                    items@.len() == ns@.len(),
                    doc_first ==> forall|k: int| 0 <= k < i ==> (#[trigger] items@[k] matches Json::Float(m) && number_same(m, ns@[k])),
                    !doc_first ==> forall|k: int| 0 <= k < i ==> (#[trigger] items@[k] matches Json::Float(m) && number_same(ns@[k], m)),
                decreases ns.len() - i,
            {
                match &items[i] {
                    Json::Float(m) => {
                        let same = if doc_first { numbers_identical(m, &ns[i]) } else { numbers_identical(&ns[i], m) };
                        if !same {
                            assert(items@[i as int] == Json::Float(*m));
                            return false;
                        }
                    },
                    _ => {
                        assert(!(items@[i as int] is Float));
                        return false;
                    },
                }
                i += 1;
            }
            true
        },
        _ => false,
    }
}

/// A document equals a non-document value (`doc_first`: the document on
/// the left of `==`).
fn doc_equals(d: &Json, v: &EvalValue, doc_first: bool) -> (r: bool)
    requires
        !(v@ is Doc),
    ensures
        doc_first ==> (r == doc_eq_val(*d, v@)),
        !doc_first ==> (r == val_eq_doc(v@, *d)),
{
    match v {
        EvalValue::Null => match d {
            Json::Null => true,
            _ => false,
        },
        EvalValue::Bool(b) => match d {
            Json::Bool(c) => *b == *c,
            _ => false,
        },
        EvalValue::Int(i) => match d {
            Json::Int(j) => *i == *j,
            _ => false,
        },
        EvalValue::Float(n) => match d {
            Json::Float(m) => if doc_first { numbers_identical(m, n) } else { numbers_identical(n, m) },
            _ => false,
        },
        EvalValue::Str(s) => match d {
            Json::Str(t) => str_eq(t.as_str(), s.as_str()),
            _ => false,
        },
        EvalValue::Floats(ns) => doc_is_numbers(d, ns, doc_first),
        EvalValue::Doc(_) => false,
    }
}

/// `a == b` on the values' JSON forms.
fn values_equal<'a>(a: &EvalValue<'a>, b: &EvalValue<'a>) -> (r: bool)
    ensures
        r == val_eq(a@, b@),
{
    match a {
        EvalValue::Doc(x) => match b {
            EvalValue::Doc(y) => json_equal(x, y),
            _ => doc_equals(x, b, true),
        },
        _ => match b {
            EvalValue::Doc(y) => doc_equals(y, a, false),
            _ => match (a, b) {
                (EvalValue::Null, EvalValue::Null) => true,
                (EvalValue::Bool(x), EvalValue::Bool(y)) => *x == *y,
                (EvalValue::Int(x), EvalValue::Int(y)) => *x == *y,
                (EvalValue::Float(x), EvalValue::Float(y)) => numbers_identical(x, y),
                (EvalValue::Str(x), EvalValue::Str(y)) => str_eq(x.as_str(), y.as_str()),
                (EvalValue::Floats(xs), EvalValue::Floats(ys)) => all_numbers_same(xs, ys),
                _ => false,
            },
        },
    }
}

fn number_is_nonzero(n: &serde_json::Number) -> (r: bool)
    ensures
        r == number_nonzero(*n),
{
    let zero = int_as_float(0);
    numbers_less(n, &zero) || numbers_less(&zero, n)
}

/// Whether a value counts as true.
pub fn truthy(v: &EvalValue) -> (r: bool)
    ensures
        r == truthy_val(v@),
{
    match v {
        EvalValue::Null => false,
        EvalValue::Bool(b) => *b,
        EvalValue::Int(i) => *i != 0,
        EvalValue::Float(n) => number_is_nonzero(n),
        EvalValue::Str(s) => s.as_str().unicode_len() > 0,
        EvalValue::Floats(xs) => xs.len() > 0,
        EvalValue::Doc(d) => match d {
            Json::Null => false,
            Json::Bool(b) => *b,
            Json::Int(i) => *i != 0,
            Json::Float(n) => number_is_nonzero(n),
            Json::Str(s) => s.as_str().unicode_len() > 0,
            Json::Array(a) => a.len() > 0,
            Json::Object(m) => m.len() > 0,
        },
    }
}

fn push_numbers(out: &mut String, xs: &Vec<serde_json::Number>)
    ensures
        final(out)@ == old(out)@ + numbers_joined(xs@),
{
    let ghost start = out@;
    let mut i: usize = 0;
    while i < xs.len()
        invariant
            i <= xs@.len(),
            out@ == start + numbers_joined(xs@.take(i as int)),
        decreases xs.len() - i,
    {
        let ghost before = out@;
        if i > 0 {
            push_char(out, ',');
        }
        let t = number_text(&xs[i]);
        push_str(out, t.as_str());
        assert(xs@.take(i + 1).drop_last() =~= xs@.take(i as int));
        assert(out@ =~= start + numbers_joined(xs@.take(i + 1)));
        i += 1;
    }
    assert(xs@.take(xs@.len() as int) =~= xs@);
}

/// Appends the compact JSON text of a value.
fn push_value_text(out: &mut String, v: &EvalValue)
    ensures
        final(out)@ == old(out)@ + val_text(v@),
{
    match v {
        EvalValue::Null => push_str(out, "null"),
        EvalValue::Bool(b) => if *b { push_str(out, "true") } else { push_str(out, "false") },
        EvalValue::Int(i) => push_int(out, *i),
        EvalValue::Float(n) => {
            let t = number_text(n);
            push_str(out, t.as_str());
        },
        EvalValue::Str(s) => push_quoted(out, s.as_str()),
        EvalValue::Floats(xs) => {
            push_char(out, '[');
            push_numbers(out, xs);
            push_char(out, ']');
            assert(out@ =~= old(out)@ + val_text(v@));
        },
        EvalValue::Doc(d) => write_json(out, d),
    }
}


// ------------------------------------------------------- pending writes

/// Component writes made earlier in an evaluation, by node id and key.
pub type WriteMap = Map<(Seq<char>, Seq<char>), ValueView>;

/// The writes a log of writes amounts to: later writes replace earlier ones.
pub open spec fn writes_of(s: Seq<(String, String, ComponentValue)>) -> WriteMap
    decreases s.len(),
{
    if s.len() == 0 {
        Map::empty()
    } else {
        writes_of(s.drop_last()).insert((s.last().0@, s.last().1@), s.last().2@)
    }
}

/// The component values written so far in one evaluation, which reads
/// see before the scene's own values.
pub struct PendingWrites {
    entries: Vec<(String, String, ComponentValue)>,
}

impl View for PendingWrites {
    type V = WriteMap;

    closed spec fn view(&self) -> WriteMap {
        writes_of(self.entries@)
    }
}

impl PendingWrites {
    /// No writes.
    pub fn new() -> (r: Self)
        ensures
            r@ == WriteMap::empty(),
    {
        PendingWrites { entries: Vec::new() }
    }

    /// Records that component `key` of node `id` now holds `value`.
    pub fn insert(&mut self, id: String, key: String, value: ComponentValue)
        ensures
            final(self)@ == old(self)@.insert((id@, key@), value@),
    {
        let ghost before = self.entries@;
        self.entries.push((id, key, value));
        assert(self.entries@.drop_last() =~= before);
    }

    /// The value last written to component `key` of node `id`.
    pub fn get(&self, id: &str, key: &str) -> (r: Option<&ComponentValue>)
        ensures
            match r {
                Some(v) => self@.contains_key((id@, key@)) && v@ == self@[(id@, key@)],
                None => !self@.contains_key((id@, key@)),
            },
    {
        let ghost k = (id@, key@);
        let mut i: usize = self.entries.len();
        assert(self.entries@.take(self.entries@.len() as int) =~= self.entries@);
        while i > 0
            invariant
                i <= self.entries@.len(),
                k == (id@, key@),
                writes_of(self.entries@).contains_key(k) == writes_of(self.entries@.take(i as int)).contains_key(k),
                writes_of(self.entries@).contains_key(k) ==> writes_of(self.entries@)[k] == writes_of(self.entries@.take(i as int))[k],
            decreases i,
        {
            let e = &self.entries[i - 1];
            assert(self.entries@.take(i as int).drop_last() =~= self.entries@.take(i - 1));
            assert(self.entries@.take(i as int).last() == self.entries@[i - 1]);
            assert(writes_of(self.entries@.take(i as int))
                == writes_of(self.entries@.take(i - 1)).insert((e.0@, e.1@), e.2@));
            if str_eq(e.0.as_str(), id) && str_eq(e.1.as_str(), key) {
                return Some(&e.2);
            }
            i -= 1;
        }
        assert(self.entries@.take(0) =~= Seq::<(String, String, ComponentValue)>::empty());
        None
    }
}

// ------------------------------------------------------------ evaluation

/// An evaluation error, with its texts taken by their characters.
pub enum EvalErrorView {
    UnknownNode(Seq<char>),
    UnknownComponent(Seq<char>, Seq<char>),
    BadRef(Seq<char>),
    BadNumeric(Seq<char>),
    WrongType(Seq<char>),
}

impl View for EvalError {
    type V = EvalErrorView;

    open spec fn view(&self) -> EvalErrorView {
        match self {
            EvalError::UnknownNode(s) => EvalErrorView::UnknownNode(s@),
            EvalError::UnknownComponent { node, key } => EvalErrorView::UnknownComponent(node@, key@),
            EvalError::BadRef(s) => EvalErrorView::BadRef(s@),
            EvalError::BadNumeric(s) => EvalErrorView::BadNumeric(s@),
            EvalError::WrongType(s) => EvalErrorView::WrongType(s@),
        }
    }
}

/// What a reference `target.key` reads: `target` is `self`, `parent` or a
/// node id; without a key the reference is the node id itself. A value
/// written earlier in the evaluation is read first, then the component of
/// the first scene node (destroyed or not) with that id.
pub open spec fn ref_value(nodes: Seq<Node>, node: Node, path: Seq<char>, pw: WriteMap) -> Result<Val, EvalErrorView> {
    let d = first_dot(path);
    let tpart = path.take(d);
    let target_id: Result<Seq<char>, EvalErrorView> =
        if tpart == "self"@ {
            Ok(node.id@)
        } else if tpart == "parent"@ {
            match node.parent {
                Some(p) => Ok(p@),
                None => Err(EvalErrorView::UnknownNode("parent"@)),
            }
        } else {
            Ok(tpart)
        };
    match target_id {
        Err(e) => Err(e),
        Ok(id) => if d >= path.len() {
            Ok(Val::Str(id))
        } else {
            let key = path.skip(d + 1);
            if pw.contains_key((id, key)) {
                Ok(cv_val(pw[(id, key)]))
            } else {
                match first_node(nodes, id, false) {
                    None => Err(EvalErrorView::UnknownNode(tpart)),
                    Some(i) => if nodes[i].components@.contains_key(key) {
                        Ok(cv_val(nodes[i].components@[key].value@))
                    } else {
                        Err(EvalErrorView::UnknownComponent(nodes[i].id@, key))
                    },
                }
            }
        },
    }
}

/// The message for an operator given the wrong number of operands.
pub open spec fn arity_message(n: nat) -> Seq<char> {
    "binary op expects 2 args, got "@ + decimal(n)
}

/// `a + b`: integers add exactly (`None`: the sum overflows `i64`, where
/// the addition panics); other numbers add as `f64`s (`null` when the
/// sum is not finite); anything else is an error.
pub open spec fn add_vals(a: Val, b: Val) -> Option<Result<Val, EvalErrorView>> {
    match (val_i64(a), val_i64(b)) {
        (Some(x), Some(y)) => if i64::MIN <= x + y <= i64::MAX { Some(Ok(Val::Int((x + y) as i64))) } else { None },
        _ => match (val_number(a), val_number(b)) {
            (Some(x), Some(y)) => Some(Ok(match float_sum(x, y) {
                Some(n) => Val::Float(n),
                None => Val::Null,
            })),
            _ => Some(Err(EvalErrorView::BadNumeric("add: not numeric ("@ + val_text(a) + ", "@ + val_text(b) + ")"@))),
        },
    }
}

/// `a - b`, as `add_vals` adds.
pub open spec fn sub_vals(a: Val, b: Val) -> Option<Result<Val, EvalErrorView>> {
    match (val_i64(a), val_i64(b)) {
        (Some(x), Some(y)) => if i64::MIN <= x - y <= i64::MAX { Some(Ok(Val::Int((x - y) as i64))) } else { None },
        _ => match (val_number(a), val_number(b)) {
            (Some(x), Some(y)) => Some(Ok(match float_difference(x, y) {
                Some(n) => Val::Float(n),
                None => Val::Null,
            })),
            _ => Some(Err(EvalErrorView::BadNumeric("sub: not numeric ("@ + val_text(a) + ", "@ + val_text(b) + ")"@))),
        },
    }
}

/// The value of an expression for `node` (`None` where evaluating it
/// overflows an integer). Operators take exactly two operands, evaluated
/// left to right, the first error stopping the evaluation; operands are
/// normalized (`normalize_val`) before the operator applies. A bare
/// string that is not a reserved token but holds a `.` (and does not
/// start with a quote) is read as the reference it spells.
pub open spec fn eval_spec(nodes: Seq<Node>, node: Node, e: Expression, pw: WriteMap) -> Option<Result<Val, EvalErrorView>>
    decreases e, 1nat,
{
    match e {
        Expression::Literal(j) => Some(Ok(val_of(j))),
        Expression::Bare(s) =>
            if s@ == "self"@ { Some(Ok(Val::Str(node.id@))) }
            else if s@ == "none"@ { Some(Ok(Val::Null)) }
            else if s@ == "true"@ { Some(Ok(Val::Bool(true))) }
            else if s@ == "false"@ { Some(Ok(Val::Bool(false))) }
            else if crate::load::ref_like(s@) { Some(ref_value(nodes, node, s@, pw)) }
            else { Some(Err(EvalErrorView::BadRef("reserved token expected: "@ + s@))) },
        Expression::Ref { path } => Some(ref_value(nodes, node, path@, pw)),
        Expression::Eq { eq } => match pair_spec(nodes, node, eq, pw) {
            Some(Ok((a, b))) => Some(Ok(Val::Bool(val_eq(a, b)))),
            Some(Err(x)) => Some(Err(x)),
            None => None,
        },
        Expression::Neq { neq } => match pair_spec(nodes, node, neq, pw) {
            Some(Ok((a, b))) => Some(Ok(Val::Bool(!val_eq(a, b)))),
            Some(Err(x)) => Some(Err(x)),
            None => None,
        },
        Expression::Lt { lt } => match pair_spec(nodes, node, lt, pw) {
            Some(Ok((a, b))) => Some(Ok(Val::Bool(val_less(a, b)))),
            Some(Err(x)) => Some(Err(x)),
            None => None,
        },
        Expression::Gt { gt } => match pair_spec(nodes, node, gt, pw) {
            Some(Ok((a, b))) => Some(Ok(Val::Bool(val_less(b, a)))),
            Some(Err(x)) => Some(Err(x)),
            None => None,
        },
        Expression::Add { add } => match pair_spec(nodes, node, add, pw) {
            Some(Ok((a, b))) => add_vals(a, b),
            Some(Err(x)) => Some(Err(x)),
            None => None,
        },
        Expression::Sub { sub } => match pair_spec(nodes, node, sub, pw) {
            Some(Ok((a, b))) => sub_vals(a, b),
            Some(Err(x)) => Some(Err(x)),
            None => None,
        },
    }
}

/// The two normalized operand values of an operator.
pub open spec fn pair_spec(nodes: Seq<Node>, node: Node, args: Vec<Expression>, pw: WriteMap) -> Option<Result<(Val, Val), EvalErrorView>>
    decreases args, 0nat,
{
    if args@.len() != 2 {
        Some(Err(EvalErrorView::WrongType(arity_message(args@.len()))))
    } else {
        proof {
            vstd::std_specs::vec::axiom_vec_index_decreases(args, 0);
            vstd::std_specs::vec::axiom_vec_index_decreases(args, 1);
        }
        match eval_spec(nodes, node, args@[0], pw) {
            None => None,
            Some(Err(x)) => Some(Err(x)),
            Some(Ok(a)) => match eval_spec(nodes, node, args@[1], pw) {
                None => None,
                Some(Err(x)) => Some(Err(x)),
                Some(Ok(b)) => Some(Ok((normalize_val(a), normalize_val(b)))),
            },
        }
    }
}

/// An evaluation outcome matches its specification.
pub open spec fn outcome_is<T, U>(r: Option<Result<T, EvalError>>, s: Option<Result<U, EvalErrorView>>, f: spec_fn(T) -> U) -> bool {
    match s {
        None => r is None,
        Some(Ok(v)) => r matches Some(Ok(x)) && f(x) == v,
        Some(Err(e)) => r matches Some(Err(x)) && x@ == e,
    }
}

fn bad_numeric<'a>(op: &str, a: &EvalValue<'a>, b: &EvalValue<'a>) -> (r: EvalError)
    ensures
        r@ == EvalErrorView::BadNumeric(op@ + ": not numeric ("@ + val_text(a@) + ", "@ + val_text(b@) + ")"@),
{
    let mut msg = String::new();
    push_str(&mut msg, op);
    push_str(&mut msg, ": not numeric (");
    push_value_text(&mut msg, a);
    push_str(&mut msg, ", ");
    push_value_text(&mut msg, b);
    push_str(&mut msg, ")");
    assert(msg@ =~= op@ + ": not numeric ("@ + val_text(a@) + ", "@ + val_text(b@) + ")"@);
    EvalError::BadNumeric(msg)
}

fn add_values<'a>(a: &EvalValue<'a>, b: &EvalValue<'a>) -> (r: Option<Result<EvalValue<'a>, EvalError>>)
    ensures
        outcome_is(r, add_vals(a@, b@), |x: EvalValue<'a>| x@),
{
    proof { reveal_strlit("add"); reveal_strlit("add: not numeric ("); reveal_strlit(": not numeric ("); }
    match (i64_of(a), i64_of(b)) {
        (Some(x), Some(y)) => match x.checked_add(y) {
            Some(s) => Some(Ok(EvalValue::Int(s))),
            None => None,
        },
        _ => match (number_of(a), number_of(b)) {
            (Some(x), Some(y)) => Some(Ok(match add_numbers(&x, &y) {
                Some(n) => EvalValue::Float(n),
                None => EvalValue::Null,
            })),
            _ => {
                let e = bad_numeric("add", a, b);
                assert("add"@ + ": not numeric ("@ =~= "add: not numeric ("@);
                Some(Err(e))
            },
        },
    }
}

fn sub_values<'a>(a: &EvalValue<'a>, b: &EvalValue<'a>) -> (r: Option<Result<EvalValue<'a>, EvalError>>)
    ensures
        outcome_is(r, sub_vals(a@, b@), |x: EvalValue<'a>| x@),
{
    proof { reveal_strlit("sub"); reveal_strlit("sub: not numeric ("); reveal_strlit(": not numeric ("); }
    match (i64_of(a), i64_of(b)) {
        (Some(x), Some(y)) => match x.checked_sub(y) {
            Some(s) => Some(Ok(EvalValue::Int(s))),
            None => None,
        },
        _ => match (number_of(a), number_of(b)) {
            (Some(x), Some(y)) => Some(Ok(match subtract_numbers(&x, &y) {
                Some(n) => EvalValue::Float(n),
                None => EvalValue::Null,
            })),
            _ => {
                let e = bad_numeric("sub", a, b);
                assert("sub"@ + ": not numeric ("@ =~= "sub: not numeric ("@);
                Some(Err(e))
            },
        },
    }
}

/// Reads a reference `target.key` (see `ref_value`).
fn eval_ref<'a>(scene: &Scene, node: &Node, path: &str, pw: &PendingWrites) -> (r: Result<EvalValue<'a>, EvalError>)
    ensures
        match ref_value(scene.nodes@, *node, path@, pw@) {
            Ok(v) => r matches Ok(x) && x@ == v,
            Err(e) => r matches Err(x) && x@ == e,
        },
{
    proof { reveal_strlit("self"); reveal_strlit("parent"); }
    let cs = to_chars(path);
    let d = find_dot(&cs, 0);
    proof {
        assert(cs@.skip(0) =~= cs@);
        lemma_first_dot(path@, d as int);
    }
    let tpart = chars_between(&cs, 0, d);
    assert(tpart@ =~= path@.take(d as int));
    let target_id: String = if str_eq(tpart.as_str(), "self") {
        node.id.clone()
    } else if str_eq(tpart.as_str(), "parent") {
        match &node.parent {
            Some(p) => p.clone(),
            None => return Err(EvalError::UnknownNode("parent".to_string())),
        }
    } else {
        tpart.clone()
    };
    if d >= cs.len() {
        return Ok(EvalValue::Str(target_id));
    }
    let key = chars_between(&cs, d + 1, cs.len());
    assert(key@ =~= path@.skip(d + 1));
    match pw.get(target_id.as_str(), key.as_str()) {
        Some(v) => return Ok(component_value(v)),
        None => {},
    }
    match scene.find_index(target_id.as_str(), false) {
        None => Err(EvalError::UnknownNode(tpart)),
        Some(i) => {
            proof { lemma_first_node(scene.nodes@, target_id@, false); }
            let n = &scene.nodes[i];
            match n.components.get(key.as_str()) {
                Some(c) => Ok(component_value(&c.value)),
                None => Err(EvalError::UnknownComponent { node: n.id.clone(), key }),
            }
        },
    }
}

/// Evaluates an expression for `node` (see `eval_spec`).
pub fn eval_value<'a>(scene: &Scene, node: &Node, expr: &'a Expression, pw: &PendingWrites) -> (r: Option<Result<EvalValue<'a>, EvalError>>)
    ensures
        outcome_is(r, eval_spec(scene.nodes@, *node, *expr, pw@), |x: EvalValue<'a>| x@),
    decreases expr, 1nat,
{
    proof { reveal_strlit("self"); reveal_strlit("none"); reveal_strlit("true"); reveal_strlit("false"); }
    match expr {
        Expression::Literal(j) => Some(Ok(value_of(j))),
        Expression::Bare(s) => {
            let t = s.as_str();
            if str_eq(t, "self") {
                Some(Ok(EvalValue::Str(node.id.clone())))
            } else if str_eq(t, "none") {
                Some(Ok(EvalValue::Null))
            } else if str_eq(t, "true") {
                Some(Ok(EvalValue::Bool(true)))
            } else if str_eq(t, "false") {
                Some(Ok(EvalValue::Bool(false)))
            } else if crate::load::is_ref_like(t) {
                Some(eval_ref(scene, node, t, pw))
            } else {
                let mut msg = "reserved token expected: ".to_string();
                push_str(&mut msg, t);
                proof { reveal_strlit("reserved token expected: "); }
                Some(Err(EvalError::BadRef(msg)))
            }
        },
        Expression::Ref { path } => Some(eval_ref(scene, node, path.as_str(), pw)),
        Expression::Eq { eq } => match eval_pair(scene, node, eq, pw) {
            Some(Ok((a, b))) => Some(Ok(EvalValue::Bool(values_equal(&a, &b)))),
            Some(Err(x)) => Some(Err(x)),
            None => None,
        },
        Expression::Neq { neq } => match eval_pair(scene, node, neq, pw) {
            Some(Ok((a, b))) => Some(Ok(EvalValue::Bool(!values_equal(&a, &b)))),
            Some(Err(x)) => Some(Err(x)),
            None => None,
        },
        Expression::Lt { lt } => match eval_pair(scene, node, lt, pw) {
            Some(Ok((a, b))) => Some(Ok(EvalValue::Bool(less_than(&a, &b)))),
            Some(Err(x)) => Some(Err(x)),
            None => None,
        },
        Expression::Gt { gt } => match eval_pair(scene, node, gt, pw) {
            Some(Ok((a, b))) => Some(Ok(EvalValue::Bool(less_than(&b, &a)))),
            Some(Err(x)) => Some(Err(x)),
            None => None,
        },
        Expression::Add { add } => match eval_pair(scene, node, add, pw) {
            Some(Ok((a, b))) => add_values(&a, &b),
            Some(Err(x)) => Some(Err(x)),
            None => None,
        },
        Expression::Sub { sub } => match eval_pair(scene, node, sub, pw) {
            Some(Ok((a, b))) => sub_values(&a, &b),
            Some(Err(x)) => Some(Err(x)),
            None => None,
        },
    }
}

/// Evaluates the two operands of an operator, normalized.
fn eval_pair<'a>(scene: &Scene, node: &Node, args: &'a Vec<Expression>, pw: &PendingWrites) -> (r: Option<Result<(EvalValue<'a>, EvalValue<'a>), EvalError>>)
    ensures
        outcome_is(r, pair_spec(scene.nodes@, *node, *args, pw@), |x: (EvalValue<'a>, EvalValue<'a>)| (x.0@, x.1@)),
    decreases args, 0nat,
{
    if args.len() != 2 {
        let mut msg = "binary op expects 2 args, got ".to_string();
        push_decimal(&mut msg, args.len() as u64);
        proof { reveal_strlit("binary op expects 2 args, got "); }
        return Some(Err(EvalError::WrongType(msg)));
    }
    proof {
        vstd::std_specs::vec::axiom_vec_index_decreases(*args, 0);
        vstd::std_specs::vec::axiom_vec_index_decreases(*args, 1);
    }
    let a = match eval_value(scene, node, &args[0], pw) {
        None => return None,
        Some(Err(x)) => return Some(Err(x)),
        Some(Ok(a)) => a,
    };
    let b = match eval_value(scene, node, &args[1], pw) {
        None => return None,
        Some(Err(x)) => return Some(Err(x)),
        Some(Ok(b)) => b,
    };
    Some(Ok((normalize(a), normalize(b))))
}

/// Evaluates an expression for `node` to a JSON value (`None` where an
/// integer addition or subtraction overflows).
pub fn eval_expression(scene: &Scene, registry: &NodeRegistry, node: &Node, expr: &Expression, pending_writes: &PendingWrites, tick: u64)
    -> (r: Option<Result<Json, EvalError>>)
    ensures
        match eval_spec(scene.nodes@, *node, *expr, pending_writes@) {
            None => r is None,
            Some(Ok(v)) => r matches Some(Ok(j)) && json_of_val(j, v),
            Some(Err(e)) => r matches Some(Err(x)) && x@ == e,
        },
{
    match eval_value(scene, node, expr, pending_writes) {
        None => None,
        Some(Err(x)) => Some(Err(x)),
        Some(Ok(v)) => Some(Ok(value_to_json(&v))),
    }
}


// ------------------------------------------------ documents as components

/// The `i64` a document is (`Value::as_i64`).
pub open spec fn json_i64(j: Json) -> Option<i64> {
    match j {
        Json::Int(i) => Some(i),
        Json::Float(n) => i64_of_number(n),
        _ => None,
    }
}

/// The component value a tagged document `{"type": t, "value": inner}`
/// denotes, or why it denotes none.
pub open spec fn tagged_value(t: Seq<char>, inner: Json) -> Result<ValueView, Seq<char>> {
    if t == "Nil"@ {
        Ok(ValueView::Nil)
    } else if t == "Bool"@ {
        match inner {
            Json::Bool(b) => Ok(ValueView::Bool(b)),
            _ => Err("Bool value not bool: "@ + debug_text_of(inner)),
        }
    } else if t == "Int"@ {
        match json_i64(inner) {
            Some(i) => Ok(ValueView::Int(i)),
            None => Err("Int value not int: "@ + debug_text_of(inner)),
        }
    } else if t == "Float"@ {
        match number_value(inner) {
            Some(n) => Ok(ValueView::Float(n)),
            None => Err("Float value not float: "@ + debug_text_of(inner)),
        }
    } else if t == "String"@ {
        match inner {
            Json::Str(s) => Ok(ValueView::String(s@)),
            _ => Err("String value not str: "@ + debug_text_of(inner)),
        }
    } else if t == "Vec2"@ {
        match inner {
            Json::Array(arr) => if arr@.len() != 2 {
                Err("Vec2 needs 2 elements, got "@ + decimal(arr@.len()))
            } else {
                match (number_value(arr@[0]), number_value(arr@[1])) {
                    (Some(x), Some(y)) => Ok(ValueView::Vec2(seq![x, y])),
                    (None, _) => Err("Vec2[0] not number: "@ + debug_text_of(arr@[0])),
                    (_, None) => Err("Vec2[1] not number: "@ + debug_text_of(arr@[1])),
                }
            },
            _ => Err("Vec2 value not array: "@ + debug_text_of(inner)),
        }
    } else {
        Err("unknown tagged component type: "@ + t)
    }
}

/// The component value an action's document denotes: scalars as
/// themselves (integers that fit `i64` as `Int`, other numbers as
/// `Float`), two-number arrays as `Vec2`, tagged objects by their tag;
/// anything else is an error with its message.
pub open spec fn doc_component_value(j: Json) -> Result<ValueView, Seq<char>> {
    match j {
        Json::Null => Ok(ValueView::Nil),
        Json::Bool(b) => Ok(ValueView::Bool(b)),
        Json::Int(i) => Ok(ValueView::Int(i)),
        Json::Float(n) => match i64_of_number(n) {
            Some(i) => Ok(ValueView::Int(i)),
            None => Ok(ValueView::Float(float_of_number(n))),
        },
        Json::Str(s) => Ok(ValueView::String(s@)),
        Json::Array(a) => if a@.len() != 2 {
            Err("expected [x, y] for vec2, got length "@ + decimal(a@.len()))
        } else {
            match (number_value(a@[0]), number_value(a@[1])) {
                (Some(x), Some(y)) => Ok(ValueView::Vec2(seq![x, y])),
                (None, _) => Err("vec2[0] must be a number, got "@ + debug_text_of(a@[0])),
                (_, None) => Err("vec2[1] must be a number, got "@ + debug_text_of(a@[1])),
            }
        },
        Json::Object(m) => match str_member(j, "type"@) {
            Some(t) => match obj_get(j, "value"@) {
                Some(inner) => tagged_value(t, inner),
                None => Err("tagged "@ + t + " missing 'value' field"@),
            },
            None => Err("object value not a tagged component: "@ + members_debug_text_of(m)),
        },
    }
}

fn number_in(j: &Json) -> (r: Option<serde_json::Number>)
    ensures
        r == number_value(*j),
{
    match j {
        Json::Int(i) => Some(int_as_float(*i)),
        Json::Float(n) => Some(number_as_float(n)),
        _ => None,
    }
}

fn message_with(prefix: &str, j: &Json) -> (r: String)
    ensures
        r@ == prefix@ + debug_text_of(*j),
{
    let mut msg = prefix.to_string();
    let d = debug_json(j);
    push_str(&mut msg, d.as_str());
    msg
}

fn pair_of_numbers(a: &Vec<Json>, first: &str, second: &str) -> (r: Result<ComponentValue, String>)
    requires
        a@.len() == 2,
    ensures
        match (number_value(a@[0]), number_value(a@[1])) {
            (Some(x), Some(y)) => r matches Ok(v) && v@ == ValueView::Vec2(seq![x, y]),
            (None, _) => r matches Err(m) && m@ == first@ + debug_text_of(a@[0]),
            (_, None) => r matches Err(m) && m@ == second@ + debug_text_of(a@[1]),
        },
{
    let x = match number_in(&a[0]) {
        Some(x) => x,
        None => return Err(message_with(first, &a[0])),
    };
    let y = match number_in(&a[1]) {
        Some(y) => y,
        None => return Err(message_with(second, &a[1])),
    };
    let v = [x, y];
    assert(v@ =~= seq![number_value(a@[0])->0, number_value(a@[1])->0]);
    Ok(ComponentValue::Vec2(v))
}

fn tagged_component(t: &str, inner: &Json) -> (r: Result<ComponentValue, String>)
    ensures
        match tagged_value(t@, *inner) {
            Ok(v) => r matches Ok(cv) && cv@ == v,
            Err(m) => r matches Err(x) && x@ == m,
        },
{
    proof {
        reveal_strlit("Nil"); reveal_strlit("Bool"); reveal_strlit("Int"); reveal_strlit("Float");
        reveal_strlit("String"); reveal_strlit("Vec2");
    }
    if str_eq(t, "Nil") {
        Ok(ComponentValue::Nil)
    } else if str_eq(t, "Bool") {
        match inner {
            Json::Bool(b) => Ok(ComponentValue::Bool(*b)),
            _ => Err(message_with("Bool value not bool: ", inner)),
        }
    } else if str_eq(t, "Int") {
        let i = match inner {
            Json::Int(i) => Some(*i),
            Json::Float(n) => number_as_i64(n),
            _ => None,
        };
        match i {
            Some(i) => Ok(ComponentValue::Int(i)),
            None => Err(message_with("Int value not int: ", inner)),
        }
    } else if str_eq(t, "Float") {
        match number_in(inner) {
            Some(n) => Ok(ComponentValue::Float(n)),
            None => Err(message_with("Float value not float: ", inner)),
        }
    } else if str_eq(t, "String") {
        match inner {
            Json::Str(s) => Ok(ComponentValue::String(s.clone())),
            _ => Err(message_with("String value not str: ", inner)),
        }
    } else if str_eq(t, "Vec2") {
        match inner {
            Json::Array(arr) => {
                if arr.len() != 2 {
                    let mut msg = "Vec2 needs 2 elements, got ".to_string();
                    push_decimal(&mut msg, arr.len() as u64);
                    proof { reveal_strlit("Vec2 needs 2 elements, got "); }
                    Err(msg)
                } else {
                    pair_of_numbers(arr, "Vec2[0] not number: ", "Vec2[1] not number: ")
                }
            },
            _ => Err(message_with("Vec2 value not array: ", inner)),
        }
    } else {
        let mut msg = "unknown tagged component type: ".to_string();
        push_str(&mut msg, t);
        proof { reveal_strlit("unknown tagged component type: "); }
        Err(msg)
    }
}

/// Converts an action's document into a component value
/// (see `doc_component_value`).
pub fn json_to_component_value(v: Json) -> (r: Result<ComponentValue, String>)
    ensures
        match doc_component_value(v) {
            Ok(x) => r matches Ok(cv) && cv@ == x,
            Err(m) => r matches Err(x) && x@ == m,
        },
{
    component_of_doc(&v)
}

/// `json_to_component_value` on a borrowed document.
pub fn component_of_doc(v: &Json) -> (r: Result<ComponentValue, String>)
    ensures
        match doc_component_value(*v) {
            Ok(x) => r matches Ok(cv) && cv@ == x,
            Err(m) => r matches Err(x) && x@ == m,
        },
{
    proof { reveal_strlit("type"); reveal_strlit("value"); }
    match v {
        Json::Null => Ok(ComponentValue::Nil),
        Json::Bool(b) => Ok(ComponentValue::Bool(*b)),
        Json::Int(i) => Ok(ComponentValue::Int(*i)),
        Json::Float(n) => match number_as_i64(n) {
            Some(i) => Ok(ComponentValue::Int(i)),
            None => Ok(ComponentValue::Float(number_as_float(n))),
        },
        Json::Str(s) => Ok(ComponentValue::String(s.clone())),
        Json::Array(a) => {
            if a.len() != 2 {
                let mut msg = "expected [x, y] for vec2, got length ".to_string();
                push_decimal(&mut msg, a.len() as u64);
                proof { reveal_strlit("expected [x, y] for vec2, got length "); }
                Err(msg)
            } else {
                pair_of_numbers(a, "vec2[0] must be a number, got ", "vec2[1] must be a number, got ")
            }
        },
        Json::Object(m) => match get_str(v, "type") {
            Some(t) => match get(v, "value") {
                Some(inner) => tagged_component(t.as_str(), inner),
                None => {
                    let mut msg = "tagged ".to_string();
                    push_str(&mut msg, t.as_str());
                    push_str(&mut msg, " missing 'value' field");
                    proof { reveal_strlit("tagged "); reveal_strlit(" missing 'value' field"); }
                    Err(msg)
                },
            },
            None => {
                let mut msg = "object value not a tagged component: ".to_string();
                let d = debug_members(m);
                push_str(&mut msg, d.as_str());
                Err(msg)
            },
        },
    }
}


/// `a + b` on component values (a `move`): integers add exactly (`None`:
/// the sum overflows `i64`, where the addition panics); floats, and an
/// integer with a float, add as `f64`s; any other pair gives no value,
/// and neither does a float sum that is not finite.
pub open spec fn add_component(a: ValueView, b: ValueView) -> Option<Option<ValueView>> {
    match (a, b) {
        (ValueView::Int(x), ValueView::Int(y)) =>
            if i64::MIN <= x + y <= i64::MAX { Some(Some(ValueView::Int((x + y) as i64))) } else { None },
        (ValueView::Float(x), ValueView::Float(y)) => Some(float_component(float_sum(x, y))),
        (ValueView::Int(x), ValueView::Float(y)) => Some(float_component(float_sum(float_of_int(x), y))),
        (ValueView::Float(x), ValueView::Int(y)) => Some(float_component(float_sum(x, float_of_int(y)))),
        _ => Some(None),
    }
}

/// A float component holding the number, if there is one.
pub open spec fn float_component(n: Option<serde_json::Number>) -> Option<ValueView> {
    match n {
        Some(x) => Some(ValueView::Float(x)),
        None => None,
    }
}

fn float_result(n: Option<serde_json::Number>) -> (r: Option<ComponentValue>)
    ensures
        match float_component(n) {
            Some(v) => r matches Some(x) && x@ == v,
            None => r is None,
        },
{
    match n {
        Some(x) => Some(ComponentValue::Float(x)),
        None => None,
    }
}

/// Adds a `move`'s delta to a component value (see `add_component`).
/// The sum does not depend on the order of the two: the result is also
/// `add_component(b, a)`.
pub fn numeric_add(a: &ComponentValue, b: &ComponentValue) -> (r: Option<Option<ComponentValue>>)
    ensures
        match add_component(a@, b@) {
            None => r is None,
            Some(None) => r == Some(None::<ComponentValue>),
            Some(Some(v)) => r matches Some(Some(x)) && x@ == v,
        },
        match add_component(b@, a@) {
            None => r is None,
            Some(None) => r == Some(None::<ComponentValue>),
            Some(Some(v)) => r matches Some(Some(x)) && x@ == v,
        },
{
    match (a, b) {
        (ComponentValue::Int(x), ComponentValue::Int(y)) => match x.checked_add(*y) {
            Some(s) => Some(Some(ComponentValue::Int(s))),
            None => None,
        },
        (ComponentValue::Float(x), ComponentValue::Float(y)) => Some(float_result(add_numbers(x, y))),
        (ComponentValue::Int(x), ComponentValue::Float(y)) => Some(float_result(add_numbers(&int_as_float(*x), y))),
        (ComponentValue::Float(x), ComponentValue::Int(y)) => Some(float_result(add_numbers(x, &int_as_float(*y)))),
        _ => Some(None),
    }
}


/// What a `move` writes: integer plus integer is their exact sum (`None`
/// past `i64`); float plus float, and an integer with a float, is the
/// `f64` sum of the two (the integer taken as its `f64`), with no value
/// where that sum is not finite; other pairs give no value.
pub proof fn law_move_writes_the_sum(a: ValueView, b: ValueView)
    ensures
        a is Int && b is Int ==> add_component(a, b) == (if i64::MIN <= a->Int_0 + b->Int_0 <= i64::MAX {
            Some(Some(ValueView::Int((a->Int_0 + b->Int_0) as i64)))
        } else {
            None
        }),
        a is Float && b is Float ==> add_component(a, b) == Some(match float_sum(a->Float_0, b->Float_0) {
            Some(s) => Some(ValueView::Float(s)),
            None => None,
        }),
        a is Int && b is Float ==> add_component(a, b) == Some(match float_sum(float_of_int(a->Int_0), b->Float_0) {
            Some(s) => Some(ValueView::Float(s)),
            None => None,
        }),
        a is Float && b is Int ==> add_component(a, b) == Some(match float_sum(a->Float_0, float_of_int(b->Int_0)) {
            Some(s) => Some(ValueView::Float(s)),
            None => None,
        }),
        !((a is Int || a is Float) && (b is Int || b is Float)) ==> add_component(a, b) == Some(None::<ValueView>),
{
}

// ------------------------------------------------------- interpolation

/// `x / r` rounded towards zero.
pub open spec fn div_toward_zero(x: int, r: int) -> int {
    if x >= 0 { x / r } else { -((-x) / r) }
}

/// Interpolation steps for vectors: every coordinate's step, when each
/// has one.
pub open spec fn numbers_step(xs: Seq<serde_json::Number>, ys: Seq<serde_json::Number>, r: u32) -> Option<Seq<serde_json::Number>> {
    if xs.len() == ys.len() && forall|i: int| 0 <= i < xs.len() ==> (#[trigger] float_step(xs[i], ys[i], r)) is Some {
        Some(Seq::new(xs.len(), |i: int| float_step(xs[i], ys[i], r)->0))
    } else {
        None
    }
}

/// The value an animation from `from` to `to` with `r` ticks left writes
/// on this tick: the end value on its last tick (`r <= 1`); otherwise one
/// `r`-th of the way towards it (integers rounded towards zero, floats and
/// vectors by `f64` arithmetic); values that cannot be interpolated (other
/// kinds, mixed kinds, a step that is not finite) go to the end value.
pub open spec fn step_value(from: ValueView, to: ValueView, r: u32) -> ValueView {
    if r <= 1 {
        to
    } else {
        match (from, to) {
            (ValueView::Int(a), ValueView::Int(b)) => ValueView::Int((a + div_toward_zero(b - a, r as int)) as i64),
            (ValueView::Float(a), ValueView::Float(b)) => match float_step(a, b, r) {
                Some(n) => ValueView::Float(n),
                None => to,
            },
            (ValueView::Vec2(xs), ValueView::Vec2(ys)) => match numbers_step(xs, ys, r) {
                Some(zs) => ValueView::Vec2(zs),
                None => to,
            },
            (ValueView::Vec3(xs), ValueView::Vec3(ys)) => match numbers_step(xs, ys, r) {
                Some(zs) => ValueView::Vec3(zs),
                None => to,
            },
            (ValueView::Rect(xs), ValueView::Rect(ys)) => match numbers_step(xs, ys, r) {
                Some(zs) => ValueView::Rect(zs),
                None => to,
            },
            _ => to,
        }
    }
}

fn step_numbers(xs: &[serde_json::Number], ys: &[serde_json::Number], r: u32) -> (out: Option<Vec<serde_json::Number>>)
    requires
        xs@.len() == ys@.len(),
    ensures
        match numbers_step(xs@, ys@, r) {
            Some(zs) => out matches Some(v) && v@ == zs,
            None => out is None,
        },
{
    let mut v: Vec<serde_json::Number> = Vec::new();
    let mut i: usize = 0;
    while i < xs.len()
        invariant
            i <= xs@.len() == ys@.len(),
            v@.len() == i,
            forall|k: int| 0 <= k < i ==> (#[trigger] float_step(xs@[k], ys@[k], r)) is Some && v@[k] == float_step(xs@[k], ys@[k], r)->0,
        decreases xs.len() - i,
    {
        match step_number(&xs[i], &ys[i], r) {
            Some(n) => v.push(n),
            None => return None,
        }
        i += 1;
    }
    assert(v@ =~= Seq::new(xs@.len(), |k: int| float_step(xs@[k], ys@[k], r)->0));
    Some(v)
}

/// One interpolation step of an animation (see `step_value`).
pub fn interpolate(from: &ComponentValue, to: &ComponentValue, remaining: u32) -> (r: ComponentValue)
    ensures
        r@ == step_value(from@, to@, remaining),
{
    if remaining <= 1 {
        return to.clone();
    }
    match (from, to) {
        (ComponentValue::Int(a), ComponentValue::Int(b)) => {
            let d: i128 = (*b as i128) - (*a as i128);
            let r: i128 = remaining as i128;
            let v: i128 = if d >= 0 {
                let q = d / r;
                assert(q <= d) by (nonlinear_arith) requires d >= 0, r >= 1, q == d / r;
                (*a as i128) + q
            } else {
                let nd: i128 = -d;
                let q = nd / r;
                assert(q <= nd) by (nonlinear_arith) requires nd >= 0, r >= 1, q == nd / r;
                (*a as i128) - q
            };
            ComponentValue::Int(v as i64)
        },
        (ComponentValue::Float(a), ComponentValue::Float(b)) => match step_number(a, b, remaining) {
            Some(n) => ComponentValue::Float(n),
            None => to.clone(),
        },
        (ComponentValue::Vec2(xs), ComponentValue::Vec2(ys)) => match step_numbers(xs, ys, remaining) {
            Some(v) => {
                let z = [clone_number(&v[0]), clone_number(&v[1])];
                assert(z@ =~= v@);
                ComponentValue::Vec2(z)
            },
            None => to.clone(),
        },
        (ComponentValue::Vec3(xs), ComponentValue::Vec3(ys)) => match step_numbers(xs, ys, remaining) {
            Some(v) => {
                let z = [clone_number(&v[0]), clone_number(&v[1]), clone_number(&v[2])];
                assert(z@ =~= v@);
                ComponentValue::Vec3(z)
            },
            None => to.clone(),
        },
        (ComponentValue::Rect(xs), ComponentValue::Rect(ys)) => match step_numbers(xs, ys, remaining) {
            Some(v) => {
                let z = [clone_number(&v[0]), clone_number(&v[1]), clone_number(&v[2]), clone_number(&v[3])];
                assert(z@ =~= v@);
                ComponentValue::Rect(z)
            },
            None => to.clone(),
        },
        _ => to.clone(),
    }
}

/// A component value comes back unchanged from its JSON form
/// (`json_to_component_value(component_value_to_json(v))` is `Ok(v)`) when
/// it is nil, a boolean, an integer, a string, a float, or a vector of two
/// floats, each float holding an `f64` as every number the library makes
/// of a document does (`float_number`).
pub proof fn law_component_json_round_trip(v: ValueView, j: Json)
    requires
        json_of_val(j, cv_val(v)),
        v is Nil || v is Bool || v is Int || v is String
            || (v matches ValueView::Float(n) && float_number(n))
            || (v matches ValueView::Vec2(xs) && xs.len() == 2 && float_number(xs[0]) && float_number(xs[1])),
    ensures
        doc_component_value(j) == Ok::<ValueView, Seq<char>>(v),
{
    if let ValueView::Vec2(xs) = v {
        let items = j->Array_0;
        assert(items@[0] == Json::Float(float_of_number(xs[0])));
        assert(items@[1] == Json::Float(float_of_number(xs[1])));
        assert(seq![xs[0], xs[1]] =~= xs);
    }
}

} // verus!
