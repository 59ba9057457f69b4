//! `Json`: the JSON document model used for scenes, payloads and
//! resource data. Objects keep their keys sorted, as serde_json's default
//! map does. Numbers that are not `i64` integers are carried as opaque
//! `serde_json::Number`s; this crate never computes with them.

use vstd::prelude::*;
use crate::strmap::{StrMap, keys_ascending};
use crate::text::{push_str, push_char, push_decimal, decimal, to_chars};

verus! {

/// `serde_json::Value`, the parser's own document type; only the
/// conversion into `Json` handles it.
#[verifier::external_type_specification]
#[verifier::external_body]
pub struct ExSerdeValue(serde_json::Value);

/// `serde_json::Map`, the member table of a `serde_json::Value::Object`;
/// only the formatting of an object's members handles it.
#[verifier::external_type_specification]
#[verifier::external_body]
#[verifier::reject_recursive_types(K)]
#[verifier::reject_recursive_types(V)]
pub struct ExSerdeMap<K, V>(serde_json::Map<K, V>);

/// `serde_json::Number`, held opaquely.
#[verifier::external_type_specification]
#[verifier::external_body]
pub struct ExNumber(serde_json::Number);

/// Copies a number (`<serde_json::Number as Clone>::clone`); the copy is
/// the same number.
#[verifier::external_body]
pub fn clone_number(n: &serde_json::Number) -> (r: serde_json::Number)
    ensures
        r == *n,
{
    n.clone()
}

/// The text serde_json writes for a number (`Number`'s `Display`).
pub uninterp spec fn number_text_of(n: serde_json::Number) -> Seq<char>;

/// `n.to_string()` for a `serde_json::Number`.
#[verifier::external_body]
pub fn number_text(n: &serde_json::Number) -> (r: String)
    ensures
        r@ == number_text_of(*n),
{
    n.to_string()
}

/// Whether two numbers have the same `f64` value (`as_f64` compared with `==`).
pub uninterp spec fn number_eq(a: serde_json::Number, b: serde_json::Number) -> bool;

/// Compares two numbers by their `f64` values (`as_f64() == as_f64()`).
#[verifier::external_body]
pub fn numbers_equal(a: &serde_json::Number, b: &serde_json::Number) -> (r: bool)
    ensures
        r == number_eq(*a, *b),
{
    a.as_f64() == b.as_f64()
}

/// Whether two numbers are equal as serde_json compares them
/// (`<serde_json::Number as PartialEq>::eq`).
pub uninterp spec fn number_same(a: serde_json::Number, b: serde_json::Number) -> bool;

/// `a == b` on numbers; a number equals itself (`Number` is `Eq`).
#[verifier::external_body]
pub fn numbers_identical(a: &serde_json::Number, b: &serde_json::Number) -> (r: bool)
    ensures
        r == number_same(*a, *b),
        *a == *b ==> r,
{
    a == b
}

/// A number that holds an `f64`: `as_i64` gives nothing for it, and
/// `as_f64` followed by `Number::from_f64` gives it back.
pub open spec fn float_number(n: serde_json::Number) -> bool {
    i64_of_number(n) is None && float_of_number(n) == n
}

/// The floating-point number serde_json's `as_f64` gives for an integer.
pub uninterp spec fn float_of_int(i: i64) -> serde_json::Number;

/// The `f64` value of an integer, as a `serde_json::Number`
/// (`Number::from(i).as_f64()`, passed to `Number::from_f64`, which takes
/// every finite value). The result holds an `f64`, so `as_i64` of it is
/// `None` and `as_f64` gives that `f64` back.
#[verifier::external_body]
pub fn int_as_float(i: i64) -> (r: serde_json::Number)
    ensures
        r == float_of_int(i),
        float_number(r),
{
    serde_json::Number::from(i).as_f64().and_then(serde_json::Number::from_f64).unwrap_or_else(|| serde_json::Number::from(i))
}

/// The number serde_json's `as_f64` gives for a number, as a `Number`.
pub uninterp spec fn float_of_number(n: serde_json::Number) -> serde_json::Number;

/// `n.as_f64()` passed to `Number::from_f64`: the number as a float.
/// `as_f64` of a number is always finite, so `from_f64` takes it, and the
/// result holds an `f64` (`as_i64` of it is `None`, `as_f64` gives it
/// back).
#[verifier::external_body]
pub fn number_as_float(n: &serde_json::Number) -> (r: serde_json::Number)
    ensures
        r == float_of_number(*n),
        float_number(r),
{
    n.as_f64().and_then(serde_json::Number::from_f64).unwrap_or_else(|| n.clone())
}

/// The `u64` a number holds, if it is a non-negative integer
/// (`Number::as_u64`).
pub uninterp spec fn u64_of_number(n: serde_json::Number) -> Option<u64>;

/// `Number::as_u64`: the value of a non-negative integer.
#[verifier::external_body]
pub fn number_as_u64(n: &serde_json::Number) -> (r: Option<u64>)
    ensures
        r == u64_of_number(*n),
{
    n.as_u64()
}

/// What `serde_json::Number::as_i64` gives for a number.
pub uninterp spec fn i64_of_number(n: serde_json::Number) -> Option<i64>;

/// `Number::as_i64`: the number as an `i64`, when it is an integer that fits.
#[verifier::external_body]
pub fn number_as_i64(n: &serde_json::Number) -> (r: Option<i64>)
    ensures
        r == i64_of_number(*n),
{
    n.as_i64()
}

/// A JSON document.
#[derive(Debug)]
pub enum Json {
    Null,
    Bool(bool),
    /// An integer that fits in `i64`.
    Int(i64),
    /// Any other number (a fraction, or an integer beyond `i64`).
    Float(serde_json::Number),
    Str(String),
    Array(Vec<Json>),
    Object(StrMap<Json>),
}

/// A JSON syntax error, located by line and column (both 1-based).
#[derive(Debug)]
pub struct JsonSyntaxError {
    pub line: usize,
    pub column: usize,
    pub message: String,
}

/// A `serde_json::Value` one level deep: its variant and the fields it
/// holds, an object's members as (key, value) pairs in the map's order.
pub enum ValueParts {
    Null,
    Bool(bool),
    Number(serde_json::Number),
    Str(String),
    Array(Vec<serde_json::Value>),
    Object(Vec<(String, serde_json::Value)>),
}

/// The parts of a `serde_json::Value` (its variant and fields).
pub uninterp spec fn parts_of(v: serde_json::Value) -> ValueParts;

/// Splits a `serde_json::Value` into its variant and fields, one arm per
/// variant (an object's `serde_json::Map` turned into its (key, value)
/// pairs by `into_iter`). A `serde_json::Map` holds each key once, so no
/// two of those pairs share a key.
#[verifier::external_body]
fn value_parts(v: serde_json::Value) -> (r: ValueParts)
    ensures
        r == parts_of(v),
        r matches ValueParts::Object(ms) ==> forall|a: int, b: int|
            0 <= a < b < ms@.len() ==> (#[trigger] ms@[a]).0@ != (#[trigger] ms@[b]).0@,
{
    match v {
        serde_json::Value::Null => ValueParts::Null,
        serde_json::Value::Bool(b) => ValueParts::Bool(b),
        serde_json::Value::Number(n) => ValueParts::Number(n),
        serde_json::Value::String(s) => ValueParts::Str(s),
        serde_json::Value::Array(a) => ValueParts::Array(a),
        serde_json::Value::Object(o) => ValueParts::Object(o.into_iter().collect()),
    }
}

/// What `serde_json::from_str::<serde_json::Value>` makes of `text`;
/// `None` when serde_json rejects the text.
pub uninterp spec fn value_of_text(text: Seq<char>) -> Option<serde_json::Value>;

/// The number of lines of a text: one more than its newlines.
pub open spec fn line_count(text: Seq<char>) -> nat
    decreases text.len(),
{
    if text.len() == 0 {
        1
    } else {
        line_count(text.drop_last()) + if text.last() == '\n' { 1nat } else { 0nat }
    }
}

/// `v` holds arrays and objects nested at most `d - 1` deep (a scalar
/// needs one level, each array or object around it one more).
pub open spec fn nests_within(v: serde_json::Value, d: nat) -> bool
    decreases d,
{
    d > 0 && match parts_of(v) {
        ValueParts::Array(items) => forall|i: int| 0 <= i < items@.len() ==> nests_within(#[trigger] items@[i], (d - 1) as nat),
        ValueParts::Object(ms) => forall|i: int| 0 <= i < ms@.len() ==> nests_within((#[trigger] ms@[i]).1, (d - 1) as nat),
        _ => true,
    }
}

/// `serde_json::from_str::<serde_json::Value>`: parses JSON text, or
/// reports serde_json's line, column and message. serde_json stops at 128
/// nested arrays and objects, and reports the 1-based line of the byte it
/// stopped at (one more than the newlines before it).
#[verifier::external_body]
fn parse_value(text: &str) -> (r: Result<serde_json::Value, JsonSyntaxError>)
    ensures
        match r {
            Ok(v) => value_of_text(text@) == Some(v) && nests_within(v, 129),
            Err(e) => value_of_text(text@) is None && 1 <= e.line <= line_count(text@),
        },
{
    match serde_json::from_str::<serde_json::Value>(text) {
        Ok(v) => Ok(v),
        Err(e) => Err(JsonSyntaxError { line: e.line(), column: e.column(), message: e.to_string() }),
    }
}

/// How deep a parsed document is followed: serde_json's parser refuses
/// nesting deeper than 128 levels, so every document it returns fits.
pub const JSON_DEPTH: usize = 129;

/// The position of the last member with key `k` among the first `n`.
pub open spec fn last_member(members: Seq<(String, serde_json::Value)>, k: Seq<char>, n: int) -> int
    decreases n,
{
    if n <= 0 {
        -1
    } else if members[n - 1].0@ == k {
        n - 1
    } else {
        last_member(members, k, n - 1)
    }
}

/// `j` is the document a `serde_json::Value` denotes, followed `depth`
/// levels deep: integers that fit `i64` become `Int`, other numbers
/// `Float`; an object's members become entries, a later member with the
/// same key over an earlier one.
pub open spec fn json_from(j: Json, v: serde_json::Value, depth: nat) -> bool
    decreases depth,
{
    if depth == 0 {
        false
    } else {
        match parts_of(v) {
            ValueParts::Null => j is Null,
            ValueParts::Bool(b) => j == Json::Bool(b),
            ValueParts::Number(n) => match i64_of_number(n) {
                Some(i) => j == Json::Int(i),
                None => j == Json::Float(n),
            },
            ValueParts::Str(s) => j matches Json::Str(t) && t@ == s@,
            ValueParts::Array(items) => j matches Json::Array(xs) && xs@.len() == items@.len()
                && forall|i: int| 0 <= i < items@.len() ==> json_from(xs@[i], #[trigger] items@[i], (depth - 1) as nat),
            ValueParts::Object(members) => j matches Json::Object(m)
                && (forall|k: Seq<char>| #[trigger] m@.contains_key(k) <==> last_member(members@, k, members@.len() as int) >= 0)
                && (forall|k: Seq<char>| #[trigger] m@.contains_key(k)
                    ==> json_from(m@[k], members@[last_member(members@, k, members@.len() as int)].1, (depth - 1) as nat)),
        }
    }
}

/// `text` parses to the document `j`.
pub open spec fn parses_to(text: Seq<char>, j: Json) -> bool {
    value_of_text(text) matches Some(v) && json_from(j, v, JSON_DEPTH as nat)
}

proof fn lemma_last_member(members: Seq<(String, serde_json::Value)>, k: Seq<char>, n: int)
    requires
        0 <= n <= members.len(),
    ensures
        -1 <= last_member(members, k, n) < n,
        last_member(members, k, n) >= 0 ==> members[last_member(members, k, n)].0@ == k,
        forall|idx: int| 0 <= idx < n && (#[trigger] members[idx]).0@ == k ==> last_member(members, k, n) >= idx,
    decreases n,
{
    if n > 0 {
        lemma_last_member(members, k, n - 1);
    }
}

proof fn lemma_array_item(j: Json, v: serde_json::Value, depth: nat, i: int)
    requires
        json_from(j, v, depth),
        parts_of(v) matches ValueParts::Array(items) && 0 <= i < items@.len(),
    ensures
        j matches Json::Array(xs) && json_from(xs@[i], parts_of(v)->Array_0@[i], (depth - 1) as nat),
{
    let items = parts_of(v)->Array_0;
    let xs = j->Array_0;
    assert(json_from(xs@[i], items@[i], (depth - 1) as nat));
}

proof fn lemma_array_from(xs: Seq<Json>, v: serde_json::Value, depth: nat)
    requires
        depth > 0,
        parts_of(v) matches ValueParts::Array(items) && xs.len() == items@.len()
            && forall|q: int| 0 <= q < items@.len() ==> json_from(xs[q], #[trigger] items@[q], (depth - 1) as nat),
    ensures
        forall|out: Vec<Json>| out@ == xs ==> json_from(Json::Array(out), v, depth),
{
}

proof fn lemma_object_member(j: Json, v: serde_json::Value, depth: nat, k: Seq<char>)
    requires
        json_from(j, v, depth),
        parts_of(v) matches ValueParts::Object(ms)
            && last_member(ms@, k, ms@.len() as int) >= 0,
    ensures
        j matches Json::Object(m) && m@.contains_key(k) && json_from(
            m@[k],
            parts_of(v)->Object_0@[last_member(parts_of(v)->Object_0@, k, parts_of(v)->Object_0@.len() as int)].1,
            (depth - 1) as nat,
        ),
{
    let m = j->Object_0;
    assert(m@.contains_key(k));
}

/// The document a `serde_json::Value` denotes (see `json_from`); `None`
/// when it nests deeper than `depth` levels.
#[verifier::loop_isolation(false)]
fn json_of_value(v: serde_json::Value, depth: usize) -> (r: Option<Json>)
    ensures
        match r {
            Some(j) => json_from(j, v, depth as nat),
            None => forall|j: Json| !json_from(j, v, depth as nat),
        },
        nests_within(v, depth as nat) ==> r is Some,
    decreases depth,
{
    if depth == 0 {
        return None;
    }
    let ghost v0 = v;
    let parts = value_parts(v);
    let ghost pv = parts;
    match parts {
        ValueParts::Null => Some(Json::Null),
        ValueParts::Bool(b) => Some(Json::Bool(b)),
        ValueParts::Number(n) => match number_as_i64(&n) {
            Some(i) => Some(Json::Int(i)),
            None => Some(Json::Float(n)),
        },
        ValueParts::Str(s) => Some(Json::Str(s)),
        ValueParts::Array(items) => {
            let ghost its = items@;
            assert(pv matches ValueParts::Array(x) && x@ == its);
            let mut rest = items;
            let mut out: Vec<Json> = Vec::new();
            let n = rest.len();
            let mut i: usize = 0;
            assert(rest@ =~= its.skip(0));
            while i < n
                invariant
                    n == its.len(),
                    i <= n,
                    rest@ == its.skip(i as int),
                    out@.len() == i,
                    depth > 0,
                    forall|q: int| 0 <= q < i ==> json_from(out@[q], #[trigger] its[q], (depth as nat - 1) as nat),
                decreases n - i,
            {
                let item = rest.remove(0);
                assert(item == its[i as int]);
                assert(rest@ =~= its.skip(i + 1));
                match json_of_value(item, depth - 1) {
                    Some(j) => out.push(j),
                    None => {
                        assert forall|j: Json| !json_from(j, v0, depth as nat) by {
                            if json_from(j, v0, depth as nat) {
                                lemma_array_item(j, v0, depth as nat, i as int);
                            }
                        }
                        return None;
                    },
                }
                i += 1;
            }
            proof { lemma_array_from(out@, v0, depth as nat); }
            Some(Json::Array(out))
        },
        ValueParts::Object(members) => {
            let ghost ms = members@;
            assert(pv matches ValueParts::Object(x) && x@ == ms);
            let mut rest = members;
            let mut m: StrMap<Json> = StrMap::new();
            let n = rest.len();
            let mut i: usize = 0;
            assert(rest@ =~= ms.skip(0));
            while i < n
                invariant
                    n == ms.len(),
                    i <= n,
                    rest@ == ms.skip(i as int),
                    depth > 0,
                    forall|k: Seq<char>| #[trigger] m@.contains_key(k) <==> last_member(ms, k, i as int) >= 0,
                    forall|k: Seq<char>| #[trigger] m@.contains_key(k)
                        ==> json_from(m@[k], ms[last_member(ms, k, i as int)].1, (depth as nat - 1) as nat),
                decreases n - i,
            {
                let (key, value) = rest.remove(0);
                assert((key, value) == ms[i as int]);
                assert(rest@ =~= ms.skip(i + 1));
                let ghost kv = key@;
                match json_of_value(value, depth - 1) {
                    Some(j) => {
                        m.insert(key, j);
                    },
                    None => {
                        proof { lemma_last_member(ms, kv, n as int); }
                        let ghost last = last_member(ms, kv, n as int);
                        assert(last == i) by {
                            if last != i {
                                assert(ms[i as int].0@ != ms[last].0@);
                            }
                        }
                        assert forall|j: Json| !json_from(j, v0, depth as nat) by {
                            if json_from(j, v0, depth as nat) {
                                lemma_object_member(j, v0, depth as nat, kv);
                            }
                        }
                        return None;
                    },
                }
                i += 1;
            }
            Some(Json::Object(m))
        },
    }
}

/// Parses JSON text with `serde_json::from_str` and converts the value
/// to `Json` (see `parses_to`); an error when serde_json rejects the
/// text.
pub fn parse_json(text: &str) -> (r: Result<Json, JsonSyntaxError>)
    ensures
        match r {
            Ok(j) => parses_to(text@, j),
            Err(e) => (forall|j: Json| !parses_to(text@, j)) && 1 <= e.line <= line_count(text@),
        },
{
    match parse_value(text) {
        Ok(v) => {
            let ghost v0 = v;
            match json_of_value(v, JSON_DEPTH) {
                Some(j) => Ok(j),
                None => {
                    assert(false);
                    Err(JsonSyntaxError { line: 1, column: 0, message: String::new() })
                },
            }
        },
        Err(e) => Err(e),
    }
}

/// The digits of a signed integer, with a leading `-` when negative.
pub open spec fn int_text(i: i64) -> Seq<char> {
    if i < 0 { seq!['-'] + decimal((-i) as nat) } else { decimal(i as nat) }
}

/// Lowercase hexadecimal digit.
pub open spec fn hex_digit(d: nat) -> char {
    if d < 10 { ((48 + d) as u8) as char } else { ((87 + d) as u8) as char }
}

/// How serde_json writes one character inside a string literal.
pub open spec fn escaped_char(c: char) -> Seq<char> {
    if c == '"' { seq!['\\', '"'] }
    else if c == '\\' { seq!['\\', '\\'] }
    else if c == '\n' { seq!['\\', 'n'] }
    else if c == '\r' { seq!['\\', 'r'] }
    else if c == '\t' { seq!['\\', 't'] }
    else if (c as u32) == 8 { seq!['\\', 'b'] }
    else if (c as u32) == 12 { seq!['\\', 'f'] }
    else if (c as u32) < 32 { seq!['\\', 'u', '0', '0', hex_digit(((c as u32) / 16) as nat), hex_digit(((c as u32) % 16) as nat)] }
    else { seq![c] }
}

/// The escaped characters of a string, without the quotes.
pub open spec fn escaped(s: Seq<char>) -> Seq<char>
    decreases s.len(),
{
    if s.len() == 0 { Seq::empty() } else { escaped(s.drop_last()) + escaped_char(s.last()) }
}

/// A string as a JSON string literal.
pub open spec fn quoted(s: Seq<char>) -> Seq<char> {
    seq!['"'] + escaped(s) + seq!['"']
}

/// Compact JSON text of a document, as serde_json's `to_string` writes it
/// (object members in key order).
pub open spec fn json_text(j: Json) -> Seq<char>
    decreases j, 1nat, 0nat,
{
    match j {
        Json::Null => "null"@,
        Json::Bool(b) => if b { "true"@ } else { "false"@ },
        Json::Int(i) => int_text(i),
        Json::Float(n) => number_text_of(n),
        Json::Str(s) => quoted(s@),
        Json::Array(items) => seq!['['] + items_text(j, items@.len()) + seq![']'],
        Json::Object(m) => seq!['{'] + members_text(j, m.key_seq().len()) + seq!['}'],
    }
}

/// The first `k` items of an array, comma-separated.
pub open spec fn items_text(owner: Json, k: nat) -> Seq<char>
    decreases owner, 0nat, k,
{
    if let Json::Array(items) = owner {
        if k == 0 || k > items@.len() {
            Seq::empty()
        } else {
            proof { vstd::std_specs::vec::axiom_vec_index_decreases(items, k - 1); }
            let t = json_text(items@[k - 1]);
            if k == 1 { t } else { items_text(owner, (k - 1) as nat) + seq![','] + t }
        }
    } else {
        Seq::empty()
    }
}

/// The first `k` members of an object, comma-separated.
pub open spec fn members_text(owner: Json, k: nat) -> Seq<char>
    decreases owner, 0nat, k,
{
    if let Json::Object(m) = owner {
        if k == 0 || k > m.key_seq().len() {
            Seq::empty()
        } else {
            proof { m.lemma_value_decreases(k - 1); }
            let t = quoted(m.key_seq()[k - 1]) + seq![':'] + json_text(m.value_seq()[k - 1]);
            if k == 1 { t } else { members_text(owner, (k - 1) as nat) + seq![','] + t }
        }
    } else {
        Seq::empty()
    }
}

/// Appends `s` as a JSON string literal.
pub fn push_quoted(out: &mut String, s: &str)
    ensures
        final(out)@ == old(out)@ + quoted(s@),
{
    let cs = to_chars(s);
    push_char(out, '"');
    let ghost start = out@;
    let mut i: usize = 0;
    while i < cs.len()
        invariant
            i <= cs@.len(),
            cs@ == s@,
            out@ == start + escaped(cs@.take(i as int)),
        decreases cs.len() - i,
    {
        let c = cs[i];
        let ghost before = out@;
        let code: u32 = c as u32;
        if c == '"' {
            push_char(out, '\\');
            push_char(out, '"');
        } else if c == '\\' {
            push_char(out, '\\');
            push_char(out, '\\');
        } else if c == '\n' {
            push_char(out, '\\');
            push_char(out, 'n');
        } else if c == '\r' {
            push_char(out, '\\');
            push_char(out, 'r');
        } else if c == '\t' {
            push_char(out, '\\');
            push_char(out, 't');
        } else if code == 8 {
            push_char(out, '\\');
            push_char(out, 'b');
        } else if code == 12 {
            push_char(out, '\\');
            push_char(out, 'f');
        } else if code < 32 {
            push_char(out, '\\');
            push_char(out, 'u');
            push_char(out, '0');
            push_char(out, '0');
            let hi: u8 = (code / 16) as u8;
            let lo: u8 = (code % 16) as u8;
            let hc: char = if hi < 10 { (48u8 + hi) as char } else { (87u8 + hi) as char };
            let lc: char = if lo < 10 { (48u8 + lo) as char } else { (87u8 + lo) as char };
            push_char(out, hc);
            push_char(out, lc);
        } else {
            push_char(out, c);
        }
        assert(out@ =~= before + escaped_char(c));
        assert(cs@.take(i + 1).drop_last() =~= cs@.take(i as int));
        i += 1;
    }
    assert(cs@.take(cs@.len() as int) =~= cs@);
    push_char(out, '"');
    assert(out@ =~= old(out)@ + quoted(s@));
}

/// Appends a signed integer's digits.
pub fn push_int(out: &mut String, i: i64)
    ensures
        final(out)@ == old(out)@ + int_text(i),
{
    if i < 0 {
        push_char(out, '-');
        let u: u64 = (0i128 - (i as i128)) as u64;
        push_decimal(out, u);
        assert(out@ =~= old(out)@ + int_text(i));
    } else {
        push_decimal(out, i as u64);
    }
}

/// Appends the compact JSON text of a document.
#[verifier::loop_isolation(false)]
pub fn write_json(out: &mut String, j: &Json)
    ensures
        final(out)@ == old(out)@ + json_text(*j),
    decreases j,
{
    match j {
        Json::Null => push_str(out, "null"),
        Json::Bool(b) => if *b { push_str(out, "true") } else { push_str(out, "false") },
        Json::Int(i) => push_int(out, *i),
        Json::Float(n) => {
            let t = number_text(n);
            push_str(out, t.as_str());
        },
        Json::Str(s) => push_quoted(out, s.as_str()),
        Json::Array(items) => {
            push_char(out, '[');
            let ghost start = out@;
            let mut i: usize = 0;
            while i < items.len()
                invariant
                    i <= items@.len(),
                    out@ == start + items_text(*j, i as nat),
                decreases items.len() - i,
            {
                let ghost before = out@;
                if i > 0 {
                    push_char(out, ',');
                }
                proof { vstd::std_specs::vec::axiom_vec_index_decreases(*items, i as int); }
                write_json(out, &items[i]);
                assert(out@ =~= start + items_text(*j, (i + 1) as nat));
                i += 1;
            }
            push_char(out, ']');
            assert(out@ =~= old(out)@ + json_text(*j));
        },
        Json::Object(m) => {
            push_char(out, '{');
            let ghost start = out@;
            let n = m.len();
            let mut i: usize = 0;
            while i < n
                invariant
                    i <= n,
                    n == m.key_seq().len(),
                    out@ == start + members_text(*j, i as nat),
                decreases n - i,
            {
                if i > 0 {
                    push_char(out, ',');
                }
                let k = m.key_at(i);
                push_quoted(out, k.as_str());
                push_char(out, ':');
                let v = m.value_at(i);
                proof { m.lemma_value_decreases(i as int); }
                write_json(out, v);
                assert(out@ =~= start + members_text(*j, (i + 1) as nat));
                i += 1;
            }
            push_char(out, '}');
            assert(out@ =~= old(out)@ + json_text(*j));
        },
    }
}

/// The compact JSON text of a document (`Display` of a JSON value).
pub fn to_json_text(j: &Json) -> (r: String)
    ensures
        r@ == json_text(*j),
{
    let mut s = String::new();
    write_json(&mut s, j);
    assert(Seq::<char>::empty() + json_text(*j) =~= json_text(*j));
    s
}

/// The member `key` of an object (`None` for a missing key or a non-object).
pub open spec fn obj_get(j: Json, key: Seq<char>) -> Option<Json> {
    match j {
        Json::Object(m) => if m@.contains_key(key) { Some(m@[key]) } else { None },
        _ => None,
    }
}

/// The string member `key` of an object, if it is a string.
pub open spec fn str_member(j: Json, key: Seq<char>) -> Option<Seq<char>> {
    match obj_get(j, key) {
        Some(Json::Str(s)) => Some(s@),
        _ => None,
    }
}

/// Looks up member `key` of an object.
pub fn get<'a>(j: &'a Json, key: &str) -> (r: Option<&'a Json>)
    ensures
        match r {
            Some(v) => obj_get(*j, key@) == Some(*v),
            None => obj_get(*j, key@) is None,
        },
{
    match j {
        Json::Object(m) => m.get(key),
        _ => None,
    }
}

/// The string member `key` of an object, if it is a string.
pub fn get_str<'a>(j: &'a Json, key: &str) -> (r: Option<&'a String>)
    ensures
        match r {
            Some(s) => str_member(*j, key@) == Some(s@),
            None => str_member(*j, key@) is None,
        },
{
    match get(j, key) {
        Some(Json::Str(s)) => Some(s),
        _ => None,
    }
}

/// Two documents are equal as serde_json compares values: same variant,
/// numbers equal, same strings, arrays item by item, objects with the
/// same keys and equal values.
pub open spec fn json_same(a: Json, b: Json) -> bool
    decreases a, 0nat,
{
    match a {
        Json::Null => b is Null,
        Json::Bool(x) => b matches Json::Bool(y) && x == y,
        Json::Int(x) => b matches Json::Int(y) && x == y,
        Json::Float(x) => b matches Json::Float(y) && number_same(x, y),
        Json::Str(x) => b matches Json::Str(y) && x@ == y@,
        Json::Array(xs) => b matches Json::Array(ys) && {
            proof { vstd::std_specs::vec::axiom_vec_decreases_to_view(xs); }
            jsons_same(xs@, ys@)
        },
        Json::Object(m) => b matches Json::Object(n) && m.key_seq() == n.key_seq()
            && jvals_same(m, n, m.key_seq().len()),
    }
}

/// Two lists of documents are equal item by item.
pub open spec fn jsons_same(xs: Seq<Json>, ys: Seq<Json>) -> bool
    decreases xs, 0nat,
{
    xs.len() == ys.len() && (xs.len() == 0 || (jsons_same(xs.drop_last(), ys.drop_last()) && json_same(xs.last(), ys.last())))
}

/// The first `k` values of two objects are equal pairwise.
pub open spec fn jvals_same(m: StrMap<Json>, n: StrMap<Json>, k: nat) -> bool
    decreases m, k,
{
    if k == 0 || k > m.key_seq().len() {
        k == 0
    } else {
        proof { m.lemma_value_decreases(k - 1); }
        jvals_same(m, n, (k - 1) as nat) && json_same(m.value_seq()[k - 1], n.value_seq()[k - 1])
    }
}

impl Json {
    /// A copy of the whole document, equal to it.
    pub fn deep_clone(&self) -> (r: Json)
        ensures
            json_same(r, *self),
        decreases self,
    {
        match self {
            Json::Null => Json::Null,
            Json::Bool(b) => Json::Bool(*b),
            Json::Int(i) => Json::Int(*i),
            Json::Float(f) => {
                let c = clone_number(f);
                let same = numbers_identical(&c, f);
                assert(same);
                Json::Float(c)
            },
            Json::Str(s) => Json::Str(s.clone()),
            Json::Array(items) => {
                let out = clone_items(items);
                proof { vstd::std_specs::vec::axiom_vec_decreases_to_view(*items); }
                Json::Array(out)
            },
            Json::Object(m) => Json::Object(clone_members(m)),
        }
    }
}

fn clone_items(items: &Vec<Json>) -> (r: Vec<Json>)
    ensures
        jsons_same(r@, items@),
    decreases items,
{
    let mut out: Vec<Json> = Vec::new();
    let mut i: usize = 0;
    while i < items.len()
        invariant
            i <= items@.len(),
            jsons_same(out@, items@.take(i as int)),
        decreases items.len() - i,
    {
        proof {
            vstd::std_specs::vec::axiom_vec_index_decreases(*items, i as int);
        }
        let c = items[i].deep_clone();
        let ghost before = out@;
        out.push(c);
        assert(out@.drop_last() =~= before);
        assert(items@.take(i + 1).drop_last() =~= items@.take(i as int));
        i += 1;
    }
    assert(items@.take(items@.len() as int) =~= items@);
    out
}

pub(crate) fn clone_members(m: &StrMap<Json>) -> (r: StrMap<Json>)
    ensures
        r.key_seq() == m.key_seq(),
        jvals_same(r, *m, r.key_seq().len()),
    decreases m,
{
    m.proof_keys();
    let mut out: StrMap<Json> = StrMap::new();
    let n = m.len();
    let mut i: usize = 0;
    out.proof_keys();
    assert(out.key_seq() =~= m.key_seq().take(0));
    assert(out.value_seq().len() == 0);
    while i < n
        invariant
            i <= n,
            n == m.key_seq().len() == m.value_seq().len(),
            keys_ascending(m.key_seq()),
            out.key_seq() == m.key_seq().take(i as int),
            out.value_seq().len() == i,
            forall|j: int| 0 <= j < i ==> json_same(#[trigger] out.value_seq()[j], m.value_seq()[j]),
        decreases n - i,
    {
        let k = m.key_at(i).clone();
        let v = m.value_at(i);
        proof {
            m.lemma_value_decreases(i as int);
        }
        let c = v.deep_clone();
        proof {
            assert forall|j: int| 0 <= j < out.key_seq().len() implies crate::text::seq_lt(#[trigger] out.key_seq()[j], k@) by {
                assert(m.key_seq()[j] == out.key_seq()[j]);
            }
        }
        out.push_last(k, c);
        assert(out.key_seq() =~= m.key_seq().take(i + 1));
        i += 1;
    }
    assert(m.key_seq().take(n as int) =~= m.key_seq());
    proof { lemma_jvals_same_from_all(out, *m, n as nat); }
    out
}

proof fn lemma_jvals_same_from_all(a: StrMap<Json>, b: StrMap<Json>, k: nat)
    requires
        k <= a.key_seq().len(),
        forall|j: int| 0 <= j < k ==> json_same(#[trigger] a.value_seq()[j], b.value_seq()[j]),
    ensures
        jvals_same(a, b, k),
    decreases k,
{
    if k > 0 {
        lemma_jvals_same_from_all(a, b, (k - 1) as nat);
    }
}

/// Whether two documents are equal (`==` on `serde_json::Value`).
pub fn json_equal(a: &Json, b: &Json) -> (r: bool)
    ensures
        r == json_same(*a, *b),
    decreases a,
{
    match (a, b) {
        (Json::Null, Json::Null) => true,
        (Json::Bool(x), Json::Bool(y)) => *x == *y,
        (Json::Int(x), Json::Int(y)) => *x == *y,
        (Json::Float(x), Json::Float(y)) => numbers_identical(x, y),
        (Json::Str(x), Json::Str(y)) => crate::text::str_eq(x.as_str(), y.as_str()),
        (Json::Array(xs), Json::Array(ys)) => {
            proof { vstd::std_specs::vec::axiom_vec_decreases_to_view(*xs); }
            items_equal(xs, ys)
        },
        (Json::Object(m), Json::Object(n)) => members_equal(m, n),
        _ => {
            assert(!json_same(*a, *b));
            false
        },
    }
}

fn items_equal(xs: &Vec<Json>, ys: &Vec<Json>) -> (r: bool)
    ensures
        r == jsons_same(xs@, ys@),
    decreases xs,
{
    if xs.len() != ys.len() {
        return false;
    }
    let mut i: usize = 0;
    assert(xs@.take(0) =~= seq![] && ys@.take(0) =~= seq![]);
    while i < xs.len()
        invariant
            i <= xs@.len() == ys@.len(),
            jsons_same(xs@.take(i as int), ys@.take(i as int)),
        decreases xs.len() - i,
    {
        proof { vstd::std_specs::vec::axiom_vec_index_decreases(*xs, i as int); }
        assert(xs@.take(i + 1).drop_last() =~= xs@.take(i as int));
        assert(ys@.take(i + 1).drop_last() =~= ys@.take(i as int));
        if !json_equal(&xs[i], &ys[i]) {
            proof { if jsons_same(xs@, ys@) { lemma_jsons_same_prefix(xs@, ys@, i + 1); } }
            return false;
        }
        i += 1;
    }
    assert(xs@.take(xs@.len() as int) =~= xs@);
    assert(ys@.take(ys@.len() as int) =~= ys@);
    true
}

proof fn lemma_jsons_same_prefix(xs: Seq<Json>, ys: Seq<Json>, k: int)
    requires
        0 <= k <= xs.len(),
        jsons_same(xs, ys),
    ensures
        jsons_same(xs.take(k), ys.take(k)),
    decreases xs.len(),
{
    if k == xs.len() {
        assert(xs.take(k) =~= xs);
        assert(ys.take(k) =~= ys);
    } else {
        lemma_jsons_same_prefix(xs.drop_last(), ys.drop_last(), k);
        assert(xs.drop_last().take(k) =~= xs.take(k));
        assert(ys.drop_last().take(k) =~= ys.take(k));
    }
}

pub(crate) fn members_equal(m: &StrMap<Json>, n: &StrMap<Json>) -> (r: bool)
    ensures
        r == (m.key_seq() == n.key_seq() && jvals_same(*m, *n, m.key_seq().len())),
    decreases m,
{
    m.proof_keys();
    n.proof_keys();
    let len = m.len();
    if len != n.len() {
        return false;
    }
    let mut i: usize = 0;
    while i < len
        invariant
            i <= len,
            len == m.key_seq().len() == m.value_seq().len() == n.key_seq().len() == n.value_seq().len(),
            forall|j: int| 0 <= j < i ==> m.key_seq()[j] == n.key_seq()[j],
            jvals_same(*m, *n, i as nat),
        decreases len - i,
    {
        proof { m.lemma_value_decreases(i as int); }
        if !crate::text::str_eq(m.key_at(i).as_str(), n.key_at(i).as_str()) {
            return false;
        }
        if !json_equal(m.value_at(i), n.value_at(i)) {
            proof { if jvals_same(*m, *n, len as nat) { lemma_jvals_same_prefix(*m, *n, len as nat, (i + 1) as nat); } }
            return false;
        }
        i += 1;
    }
    assert(m.key_seq() =~= n.key_seq());
    true
}

proof fn lemma_jvals_same_prefix(a: StrMap<Json>, b: StrMap<Json>, k: nat, j: nat)
    requires
        j <= k <= a.key_seq().len(),
        jvals_same(a, b, k),
    ensures
        jvals_same(a, b, j),
    decreases k,
{
    if j < k {
        lemma_jvals_same_prefix(a, b, (k - 1) as nat, j);
    }
}

impl Clone for Json {
    fn clone(&self) -> (r: Json) {
        self.deep_clone()
    }
}

/// A `ValueParts` by its plain values.
pub enum PartsView {
    Null,
    Bool(bool),
    Number(serde_json::Number),
    Str(Seq<char>),
    Array(Seq<serde_json::Value>),
    Object(Seq<(Seq<char>, serde_json::Value)>),
}

impl View for ValueParts {
    type V = PartsView;

    open spec fn view(&self) -> PartsView {
        match self {
            ValueParts::Null => PartsView::Null,
            ValueParts::Bool(b) => PartsView::Bool(*b),
            ValueParts::Number(n) => PartsView::Number(*n),
            ValueParts::Str(s) => PartsView::Str(s@),
            ValueParts::Array(a) => PartsView::Array(a@),
            ValueParts::Object(ms) => PartsView::Object(pairs_view(ms@)),
        }
    }
}

/// (key, value) pairs with each key by its characters.
pub open spec fn pairs_view(ps: Seq<(String, serde_json::Value)>) -> Seq<(Seq<char>, serde_json::Value)> {
    ps.map_values(|p: (String, serde_json::Value)| (p.0@, p.1))
}

/// The `serde_json::Value` built from a variant and its fields.
pub uninterp spec fn value_of_parts(p: PartsView) -> serde_json::Value;

/// Builds a `serde_json::Value` from its variant and fields, one arm per
/// variant (an object's pairs collected into a `serde_json::Map`).
#[verifier::external_body]
fn value_from_parts(p: ValueParts) -> (r: serde_json::Value)
    ensures
        r == value_of_parts(p@),
{
    match p {
        ValueParts::Null => serde_json::Value::Null,
        ValueParts::Bool(b) => serde_json::Value::Bool(b),
        ValueParts::Number(n) => serde_json::Value::Number(n),
        ValueParts::Str(s) => serde_json::Value::String(s),
        ValueParts::Array(a) => serde_json::Value::Array(a),
        ValueParts::Object(ms) => serde_json::Value::Object(ms.into_iter().collect()),
    }
}

/// The `serde_json::Map` made of (key, value) pairs.
pub uninterp spec fn map_of_pairs(ps: Seq<(Seq<char>, serde_json::Value)>) -> serde_json::Map<String, serde_json::Value>;

/// Collects (key, value) pairs into a `serde_json::Map`.
#[verifier::external_body]
fn map_from_pairs(ps: Vec<(String, serde_json::Value)>) -> (r: serde_json::Map<String, serde_json::Value>)
    ensures
        r == map_of_pairs(pairs_view(ps@)),
{
    ps.into_iter().collect()
}

/// The `serde_json::Number` that `From<i64>` makes of `i`.
pub uninterp spec fn number_of_i64(i: i64) -> serde_json::Number;

/// `serde_json::Number::from(i)`.
#[verifier::external_body]
fn number_from_i64(i: i64) -> (r: serde_json::Number)
    ensures
        r == number_of_i64(i),
{
    serde_json::Number::from(i)
}

/// The `serde_json::Value` a document converts to, variant for variant.
pub open spec fn serde_value(j: Json) -> serde_json::Value
    decreases j, 1nat, 0nat,
{
    match j {
        Json::Null => value_of_parts(PartsView::Null),
        Json::Bool(b) => value_of_parts(PartsView::Bool(b)),
        Json::Int(i) => value_of_parts(PartsView::Number(number_of_i64(i))),
        Json::Float(n) => value_of_parts(PartsView::Number(n)),
        Json::Str(s) => value_of_parts(PartsView::Str(s@)),
        Json::Array(items) => value_of_parts(PartsView::Array(serde_items(j, items@.len()))),
        Json::Object(m) => value_of_parts(PartsView::Object(serde_members(j, m.key_seq().len()))),
    }
}

/// The conversions of the first `k` items of an array.
pub open spec fn serde_items(owner: Json, k: nat) -> Seq<serde_json::Value>
    decreases owner, 0nat, k,
{
    if let Json::Array(items) = owner {
        if k == 0 || k > items@.len() {
            Seq::empty()
        } else {
            proof { vstd::std_specs::vec::axiom_vec_index_decreases(items, k - 1); }
            serde_items(owner, (k - 1) as nat).push(serde_value(items@[k - 1]))
        }
    } else {
        Seq::empty()
    }
}

/// The first `k` members of an object, each value converted.
pub open spec fn serde_members(owner: Json, k: nat) -> Seq<(Seq<char>, serde_json::Value)>
    decreases owner, 0nat, k,
{
    if let Json::Object(m) = owner {
        if k == 0 || k > m.key_seq().len() {
            Seq::empty()
        } else {
            proof { m.lemma_value_decreases(k - 1); }
            serde_members(owner, (k - 1) as nat).push((m.key_seq()[k - 1], serde_value(m.value_seq()[k - 1])))
        }
    } else {
        Seq::empty()
    }
}

/// An object's members, in order, each value converted.
#[verifier::loop_isolation(false)]
fn members_to_serde(m: &StrMap<Json>, Ghost(owner): Ghost<Json>) -> (r: Vec<(String, serde_json::Value)>)
    requires
        owner == Json::Object(*m),
    ensures
        pairs_view(r@) == serde_members(owner, m.key_seq().len()),
    decreases owner, 0nat,
{
    let n = m.len();
    let mut out: Vec<(String, serde_json::Value)> = Vec::new();
    let mut i: usize = 0;
    while i < n
        invariant
            i <= n,
            n == m.key_seq().len(),
            pairs_view(out@) == serde_members(owner, i as nat),
        decreases n - i,
    {
        let k = m.key_at(i).clone();
        let val = m.value_at(i);
        proof { m.lemma_value_decreases(i as int); }
        let v = to_serde(val);
        let ghost before = out@;
        out.push((k, v));
        assert(pairs_view(out@) =~= pairs_view(before).push((k@, v)));
        i += 1;
    }
    out
}

/// Converts a document into a `serde_json::Value`, variant for variant.
#[verifier::loop_isolation(false)]
fn to_serde(j: &Json) -> (r: serde_json::Value)
    ensures
        r == serde_value(*j),
    decreases j, 1nat,
{
    match j {
        Json::Null => value_from_parts(ValueParts::Null),
        Json::Bool(b) => value_from_parts(ValueParts::Bool(*b)),
        Json::Int(i) => value_from_parts(ValueParts::Number(number_from_i64(*i))),
        Json::Float(n) => value_from_parts(ValueParts::Number(clone_number(n))),
        Json::Str(s) => value_from_parts(ValueParts::Str(s.clone())),
        Json::Array(items) => {
            let mut out: Vec<serde_json::Value> = Vec::new();
            let mut i: usize = 0;
            while i < items.len()
                invariant
                    i <= items@.len(),
                    out@ == serde_items(*j, i as nat),
                decreases items.len() - i,
            {
                proof { vstd::std_specs::vec::axiom_vec_index_decreases(*items, i as int); }
                let v = to_serde(&items[i]);
                out.push(v);
                i += 1;
            }
            value_from_parts(ValueParts::Array(out))
        },
        Json::Object(m) => {
            let pairs = members_to_serde(m, Ghost(*j));
            value_from_parts(ValueParts::Object(pairs))
        },
    }
}

/// The text `{:?}` gives for a `serde_json::Value` (serde_json's
/// `Debug`).
pub uninterp spec fn value_debug_text(v: serde_json::Value) -> Seq<char>;

/// Formats a `serde_json::Value` with `{:?}`.
#[verifier::external_body]
fn debug_value(v: &serde_json::Value) -> (r: String)
    ensures
        r@ == value_debug_text(*v),
{
    format!("{:?}", v)
}

/// The text `{:?}` gives for a `serde_json::Map` (serde_json's `Debug`
/// for `Map`).
pub uninterp spec fn map_debug_text(m: serde_json::Map<String, serde_json::Value>) -> Seq<char>;

/// Formats a `serde_json::Map` with `{:?}`.
#[verifier::external_body]
fn debug_map(m: &serde_json::Map<String, serde_json::Value>) -> (r: String)
    ensures
        r@ == map_debug_text(*m),
{
    format!("{:?}", m)
}

/// The text `{:?}` gives for a document once converted to a
/// `serde_json::Value`.
pub open spec fn debug_text_of(j: Json) -> Seq<char> {
    value_debug_text(serde_value(j))
}

/// Formats a document, as a `serde_json::Value`, with `{:?}`.
pub fn debug_json(j: &Json) -> (r: String)
    ensures
        r@ == debug_text_of(*j),
{
    debug_value(&to_serde(j))
}

/// The text `{:?}` gives for an object's members once converted to a
/// `serde_json::Map`.
pub open spec fn members_debug_text_of(m: StrMap<Json>) -> Seq<char> {
    map_debug_text(map_of_pairs(serde_members(Json::Object(m), m.key_seq().len())))
}

/// Formats an object's members, as a `serde_json::Map`, with `{:?}`.
pub fn debug_members(m: &StrMap<Json>) -> (r: String)
    ensures
        r@ == members_debug_text_of(*m),
{
    let pairs = members_to_serde(m, Ghost(Json::Object(*m)));
    debug_map(&map_from_pairs(pairs))
}

} // verus!
