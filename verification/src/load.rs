//! Decoding scene documents from JSON: targets, expressions, actions,
//! behaviors, component values, nodes and scenes. Each decoder states
//! exactly which documents it accepts and what it makes of them.

use vstd::prelude::*;
use crate::json::{Json, obj_get, str_member, get, get_str};
use crate::strmap::StrMap;
use crate::behavior::{Target, Expression, Action, Behavior, StateDef, Transition, ResultTarget, LogLevel};

verus! {

broadcast use vstd::string::group_string_axioms;

/// An optional string taken by its characters.
pub open spec fn opt_view(o: Option<String>) -> Option<Seq<char>> {
    match o {
        Some(s) => Some(s@),
        None => None,
    }
}

pub(crate) fn clone_opt(o: Option<&String>) -> (r: Option<String>)
    ensures
        opt_view(r) == match o { Some(s) => Some(s@), None => None::<Seq<char>> },
{
    match o {
        Some(s) => Some(s.clone()),
        None => None,
    }
}

// ----------------------------------------------------------------- targets

/// Whether a document is a valid target: a string, or an object whose
/// `kind` is `self`, `parent`, `children`, or `node` with a string `id`.
pub open spec fn target_ok(j: Json) -> bool {
    match j {
        Json::Str(_) => true,
        Json::Object(_) => match str_member(j, "kind"@) {
            Some(k) => k == "self"@ || k == "parent"@ || k == "children"@
                || (k == "node"@ && str_member(j, "id"@) is Some),
            None => false,
        },
        _ => false,
    }
}

/// The target a document denotes. A bare string other than `self`,
/// `parent` and `children` names a node; `children` objects take their
/// `filter` only when it is a string.
pub open spec fn target_of(j: Json, t: Target) -> bool {
    match j {
        Json::Str(s) => if s@ == "self"@ {
            t is This
        } else if s@ == "parent"@ {
            t is Parent
        } else if s@ == "children"@ {
            t matches Target::Children { filter } && filter is None
        } else {
            t matches Target::Node { id } && id@ == s@
        },
        Json::Object(_) => {
            let k = str_member(j, "kind"@)->0;
            if k == "self"@ {
                t is This
            } else if k == "parent"@ {
                t is Parent
            } else if k == "children"@ {
                t matches Target::Children { filter } && opt_view(filter) == str_member(j, "filter"@)
            } else {
                t matches Target::Node { id } && Some(id@) == str_member(j, "id"@)
            }
        },
        _ => false,
    }
}

pub(crate) fn str_is(s: &str, lit: &str) -> (r: bool)
    ensures
        r == (s@ == lit@),
{
    crate::text::str_eq(s, lit)
}

/// Decodes a target.
pub fn decode_target(j: &Json) -> (r: Result<Target, String>)
    ensures
        r is Ok == target_ok(*j),
        r matches Ok(t) ==> target_of(*j, t),
{
    proof {
        reveal_strlit("self");
        reveal_strlit("parent");
        reveal_strlit("children");
        reveal_strlit("node");
    }
    match j {
        Json::Str(s) => {
            if str_is(s.as_str(), "self") {
                Ok(Target::This)
            } else if str_is(s.as_str(), "parent") {
                Ok(Target::Parent)
            } else if str_is(s.as_str(), "children") {
                Ok(Target::Children { filter: None })
            } else {
                Ok(Target::Node { id: s.clone() })
            }
        },
        Json::Object(_) => {
            match get_str(j, "kind") {
                Some(k) => {
                    if str_is(k.as_str(), "self") {
                        Ok(Target::This)
                    } else if str_is(k.as_str(), "parent") {
                        Ok(Target::Parent)
                    } else if str_is(k.as_str(), "children") {
                        Ok(Target::Children { filter: clone_opt(get_str(j, "filter")) })
                    } else if str_is(k.as_str(), "node") {
                        match get_str(j, "id") {
                            Some(id) => Ok(Target::Node { id: id.clone() }),
                            None => Err("node target requires id".to_string()),
                        }
                    } else {
                        Err("unknown target kind".to_string())
                    }
                },
                None => Err("target object must have a `kind` field".to_string()),
            }
        },
        _ => Err("target must be a string or object".to_string()),
    }
}

// ------------------------------------------------------------- expressions

/// The expression operators, in the order an object is tried against them.
pub open spec fn op_key(i: int) -> Seq<char> {
    if i == 0 { "eq"@ } else if i == 1 { "neq"@ } else if i == 2 { "lt"@ }
    else if i == 3 { "gt"@ } else if i == 4 { "add"@ } else { "sub"@ }
}

/// The first operator (in `op_key` order) whose member is an array.
pub open spec fn first_op(j: Json) -> Option<int> {
    if obj_get(j, op_key(0)) matches Some(Json::Array(_)) { Some(0) }
    else if obj_get(j, op_key(1)) matches Some(Json::Array(_)) { Some(1) }
    else if obj_get(j, op_key(2)) matches Some(Json::Array(_)) { Some(2) }
    else if obj_get(j, op_key(3)) matches Some(Json::Array(_)) { Some(3) }
    else if obj_get(j, op_key(4)) matches Some(Json::Array(_)) { Some(4) }
    else if obj_get(j, op_key(5)) matches Some(Json::Array(_)) { Some(5) }
    else { None }
}

/// The operator and operands of an operator expression.
pub open spec fn expr_op(e: Expression) -> Option<(int, Seq<Expression>)> {
    match e {
        Expression::Eq { eq } => Some((0, eq@)),
        Expression::Neq { neq } => Some((1, neq@)),
        Expression::Lt { lt } => Some((2, lt@)),
        Expression::Gt { gt } => Some((3, gt@)),
        Expression::Add { add } => Some((4, add@)),
        Expression::Sub { sub } => Some((5, sub@)),
        _ => None,
    }
}

/// The expression a document denotes: a string is a bare token, an object
/// with a string `ref` is a reference, an object with an array under an
/// operator key is that operator, anything else is a literal.
pub open spec fn expr_of(j: Json, e: Expression) -> bool
    decreases j,
{
    match j {
        Json::Str(s) => e matches Expression::Bare(b) && b@ == s@,
        Json::Object(m) => {
            if str_member(j, "ref"@) is Some {
                e matches Expression::Ref { path } && Some(path@) == str_member(j, "ref"@)
            } else if first_op(j) is Some {
                let i = first_op(j)->0;
                if m@.contains_key(op_key(i)) {
                    if let Json::Array(v) = m@[op_key(i)] {
                        proof {
                            m.lemma_map_value_decreases(op_key(i));
                            vstd::std_specs::vec::axiom_vec_decreases_to_view(v);
                        }
                        expr_op(e) matches Some(p) && p.0 == i && exprs_of(v@, p.1)
                    } else {
                        false
                    }
                } else {
                    false
                }
            } else {
                e matches Expression::Literal(l) && l == j
            }
        },
        _ => e matches Expression::Literal(l) && l == j,
    }
}

/// Element-wise `expr_of`.
pub open spec fn exprs_of(items: Seq<Json>, es: Seq<Expression>) -> bool
    decreases items,
{
    items.len() == es.len() && (items.len() == 0 || (exprs_of(items.drop_last(), es.drop_last())
        && expr_of(items.last(), es.last())))
}

/// Takes the array under `key` out of an object map known to hold one.
fn take_array(m: &mut StrMap<Json>, key: &str) -> (r: Vec<Json>)
    requires
        old(m)@.contains_key(key@),
        old(m)@[key@] is Array,
    ensures
        old(m)@[key@] == Json::Array(r),
{
    match m.remove(key) {
        Some(Json::Array(v)) => v,
        _ => Vec::new(),
    }
}

fn has_array(m: &StrMap<Json>, key: &str) -> (r: bool)
    ensures
        r == (m@.contains_key(key@) && m@[key@] is Array),
{
    match m.get(key) {
        Some(Json::Array(_)) => true,
        _ => false,
    }
}

/// Decodes an expression; every document is some expression.
pub fn decode_expr(j: Json) -> (e: Expression)
    ensures
        expr_of(j, e),
    decreases j,
{
    let ghost j0 = j;
    proof {
        reveal_strlit("ref"); reveal_strlit("eq"); reveal_strlit("neq"); reveal_strlit("lt");
        reveal_strlit("gt"); reveal_strlit("add"); reveal_strlit("sub");
    }
    match j {
        Json::Str(s) => Expression::Bare(s),
        Json::Object(m) => {
            let r = match m.get("ref") {
                Some(Json::Str(s)) => Some(s.clone()),
                _ => None,
            };
            if let Some(path) = r {
                return Expression::Ref { path };
            }
            let mut m = m;
            let ghost m0 = m;
            proof { assert(j0 == Json::Object(m0)); }
            if has_array(&m, "eq") {
                let v = take_array(&mut m, "eq");
                proof {
                    m0.lemma_map_value_decreases("eq"@);
                    vstd::std_specs::vec::axiom_vec_decreases_to_view(v);
                    assert(decreases_to!(j0 => m0));
                    assert(decreases_to!(m0@["eq"@] => (m0@["eq"@])->Array_0));
                    assert(decreases_to!(j0 => v@));
                }
                Expression::Eq { eq: decode_exprs(v) }
            } else if has_array(&m, "neq") {
                let v = take_array(&mut m, "neq");
                proof {
                    m0.lemma_map_value_decreases("neq"@);
                    vstd::std_specs::vec::axiom_vec_decreases_to_view(v);
                    assert(decreases_to!(j0 => m0));
                    assert(decreases_to!(m0@["neq"@] => (m0@["neq"@])->Array_0));
                    assert(decreases_to!(j0 => v@));
                }
                Expression::Neq { neq: decode_exprs(v) }
            } else if has_array(&m, "lt") {
                let v = take_array(&mut m, "lt");
                proof {
                    m0.lemma_map_value_decreases("lt"@);
                    vstd::std_specs::vec::axiom_vec_decreases_to_view(v);
                    assert(decreases_to!(j0 => m0));
                    assert(decreases_to!(m0@["lt"@] => (m0@["lt"@])->Array_0));
                    assert(decreases_to!(j0 => v@));
                }
                Expression::Lt { lt: decode_exprs(v) }
            } else if has_array(&m, "gt") {
                let v = take_array(&mut m, "gt");
                proof {
                    m0.lemma_map_value_decreases("gt"@);
                    vstd::std_specs::vec::axiom_vec_decreases_to_view(v);
                    assert(decreases_to!(j0 => m0));
                    assert(decreases_to!(m0@["gt"@] => (m0@["gt"@])->Array_0));
                    assert(decreases_to!(j0 => v@));
                }
                Expression::Gt { gt: decode_exprs(v) }
            } else if has_array(&m, "add") {
                let v = take_array(&mut m, "add");
                proof {
                    m0.lemma_map_value_decreases("add"@);
                    vstd::std_specs::vec::axiom_vec_decreases_to_view(v);
                    assert(decreases_to!(j0 => m0));
                    assert(decreases_to!(m0@["add"@] => (m0@["add"@])->Array_0));
                    assert(decreases_to!(j0 => v@));
                }
                Expression::Add { add: decode_exprs(v) }
            } else if has_array(&m, "sub") {
                let v = take_array(&mut m, "sub");
                proof {
                    m0.lemma_map_value_decreases("sub"@);
                    vstd::std_specs::vec::axiom_vec_decreases_to_view(v);
                    assert(decreases_to!(j0 => m0));
                    assert(decreases_to!(m0@["sub"@] => (m0@["sub"@])->Array_0));
                    assert(decreases_to!(j0 => v@));
                }
                Expression::Sub { sub: decode_exprs(v) }
            } else {
                Expression::Literal(Json::Object(m))
            }
        },
        other => Expression::Literal(other),
    }
}

/// Decodes each document of a list as an expression.
#[verifier::loop_isolation(false)]
pub fn decode_exprs(items: Vec<Json>) -> (r: Vec<Expression>)
    ensures
        exprs_of(items@, r@),
    decreases items@,
{
    let ghost all = items@;
    let mut rest = items;
    let mut out: Vec<Expression> = Vec::new();
    let n = rest.len();
    let mut i: usize = 0;
    assert(rest@ =~= all.skip(0));
    assert(all.take(0).len() == 0);
    while i < n
        invariant
            n == all.len(),
            i <= n,
            rest@ == all.skip(i as int),
            exprs_of(all.take(i as int), out@),
        decreases n - i,
    {
        let item = rest.remove(0);
        assert(item == all[i as int]);
        assert(decreases_to!(all => all[i as int]));
        assert(rest@ =~= all.skip(i + 1));
        let e = decode_expr(item);
        let ghost before = out@;
        out.push(e);
        assert(all.take(i + 1).drop_last() =~= all.take(i as int));
        assert(out@.drop_last() =~= before);
        i += 1;
    }
    assert(all.take(n as int) =~= all);
    out
}



/// The reserved bare tokens.
pub open spec fn reserved_token(s: Seq<char>) -> bool {
    s == "self"@ || s == "none"@ || s == "true"@ || s == "false"@
}

/// A string read as a reference: it holds a `.` and does not start with
/// a quote.
pub open spec fn ref_like(s: Seq<char>) -> bool {
    s.contains('.') && !(s.len() > 0 && s[0] == '"')
}

fn is_reserved_token(s: &str) -> (r: bool)
    ensures
        r == reserved_token(s@),
{
    str_is(s, "self") || str_is(s, "none") || str_is(s, "true") || str_is(s, "false")
}

pub(crate) fn is_ref_like(s: &str) -> (r: bool)
    ensures
        r == ref_like(s@),
{
    let cs = crate::text::to_chars(s);
    let mut has_dot = false;
    let mut i: usize = 0;
    while i < cs.len()
        invariant
            cs@ == s@,
            i <= cs@.len(),
            has_dot == exists|k: int| 0 <= k < i && cs@[k] == '.',
        decreases cs.len() - i,
    {
        if cs[i] == '.' {
            has_dot = true;
        }
        i += 1;
    }
    assert(has_dot == s@.contains('.'));
    has_dot && !(cs.len() > 0 && cs[0] == '"')
}

/// The expression `Expression::from_value` makes of a document: a reserved
/// token (`self`, `none`, `true`, `false`) is bare, another string with a
/// `.` (not starting with a quote) is a reference, other strings are
/// literals; objects are read as by `expr_of`, operands alike.
pub open spec fn expr_value_of(j: Json, e: Expression) -> bool
    decreases j,
{
    match j {
        Json::Str(s) => if reserved_token(s@) {
            e matches Expression::Bare(b) && b@ == s@
        } else if ref_like(s@) {
            e matches Expression::Ref { path } && path@ == s@
        } else {
            e matches Expression::Literal(l) && l == j
        },
        Json::Object(m) => {
            if str_member(j, "ref"@) is Some {
                e matches Expression::Ref { path } && Some(path@) == str_member(j, "ref"@)
            } else if first_op(j) is Some {
                let i = first_op(j)->0;
                if m@.contains_key(op_key(i)) {
                    if let Json::Array(v) = m@[op_key(i)] {
                        proof {
                            m.lemma_map_value_decreases(op_key(i));
                            vstd::std_specs::vec::axiom_vec_decreases_to_view(v);
                        }
                        expr_op(e) matches Some(p) && p.0 == i && exprs_value_of(v@, p.1)
                    } else {
                        false
                    }
                } else {
                    false
                }
            } else {
                e matches Expression::Literal(l) && l == j
            }
        },
        _ => e matches Expression::Literal(l) && l == j,
    }
}

/// Element-wise `expr_value_of`.
pub open spec fn exprs_value_of(items: Seq<Json>, es: Seq<Expression>) -> bool
    decreases items,
{
    items.len() == es.len() && (items.len() == 0 || (exprs_value_of(items.drop_last(), es.drop_last())
        && expr_value_of(items.last(), es.last())))
}

/// `Expression::from_value` for a document.
pub fn value_to_expr(j: Json) -> (e: Expression)
    ensures
        expr_value_of(j, e),
    decreases j,
{
    let ghost j0 = j;
    proof {
        reveal_strlit("ref"); reveal_strlit("eq"); reveal_strlit("neq"); reveal_strlit("lt");
        reveal_strlit("gt"); reveal_strlit("add"); reveal_strlit("sub");
    }
    match j {
        Json::Str(s) => {
            if is_reserved_token(s.as_str()) {
                Expression::Bare(s)
            } else if is_ref_like(s.as_str()) {
                Expression::Ref { path: s }
            } else {
                Expression::Literal(Json::Str(s))
            }
        },
        Json::Object(m) => {
            let r = match m.get("ref") {
                Some(Json::Str(s)) => Some(s.clone()),
                _ => None,
            };
            if let Some(path) = r {
                return Expression::Ref { path };
            }
            let mut m = m;
            let ghost m0 = m;
            proof { assert(j0 == Json::Object(m0)); }
            if has_array(&m, "eq") {
                let v = take_array(&mut m, "eq");
                proof {
                    m0.lemma_map_value_decreases("eq"@);
                    vstd::std_specs::vec::axiom_vec_decreases_to_view(v);
                    assert(decreases_to!(j0 => m0));
                    assert(decreases_to!(m0@["eq"@] => (m0@["eq"@])->Array_0));
                    assert(decreases_to!(j0 => v@));
                }
                Expression::Eq { eq: values_to_exprs(v) }
            } else if has_array(&m, "neq") {
                let v = take_array(&mut m, "neq");
                proof {
                    m0.lemma_map_value_decreases("neq"@);
                    vstd::std_specs::vec::axiom_vec_decreases_to_view(v);
                    assert(decreases_to!(j0 => m0));
                    assert(decreases_to!(m0@["neq"@] => (m0@["neq"@])->Array_0));
                    assert(decreases_to!(j0 => v@));
                }
                Expression::Neq { neq: values_to_exprs(v) }
            } else if has_array(&m, "lt") {
                let v = take_array(&mut m, "lt");
                proof {
                    m0.lemma_map_value_decreases("lt"@);
                    vstd::std_specs::vec::axiom_vec_decreases_to_view(v);
                    assert(decreases_to!(j0 => m0));
                    assert(decreases_to!(m0@["lt"@] => (m0@["lt"@])->Array_0));
                    assert(decreases_to!(j0 => v@));
                }
                Expression::Lt { lt: values_to_exprs(v) }
            } else if has_array(&m, "gt") {
                let v = take_array(&mut m, "gt");
                proof {
                    m0.lemma_map_value_decreases("gt"@);
                    vstd::std_specs::vec::axiom_vec_decreases_to_view(v);
                    assert(decreases_to!(j0 => m0));
                    assert(decreases_to!(m0@["gt"@] => (m0@["gt"@])->Array_0));
                    assert(decreases_to!(j0 => v@));
                }
                Expression::Gt { gt: values_to_exprs(v) }
            } else if has_array(&m, "add") {
                let v = take_array(&mut m, "add");
                proof {
                    m0.lemma_map_value_decreases("add"@);
                    vstd::std_specs::vec::axiom_vec_decreases_to_view(v);
                    assert(decreases_to!(j0 => m0));
                    assert(decreases_to!(m0@["add"@] => (m0@["add"@])->Array_0));
                    assert(decreases_to!(j0 => v@));
                }
                Expression::Add { add: values_to_exprs(v) }
            } else if has_array(&m, "sub") {
                let v = take_array(&mut m, "sub");
                proof {
                    m0.lemma_map_value_decreases("sub"@);
                    vstd::std_specs::vec::axiom_vec_decreases_to_view(v);
                    assert(decreases_to!(j0 => m0));
                    assert(decreases_to!(m0@["sub"@] => (m0@["sub"@])->Array_0));
                    assert(decreases_to!(j0 => v@));
                }
                Expression::Sub { sub: values_to_exprs(v) }
            } else {
                Expression::Literal(Json::Object(m))
            }
        },
        other => Expression::Literal(other),
    }
}

/// `Expression::from_value` for each document of a list.
#[verifier::loop_isolation(false)]
pub fn values_to_exprs(items: Vec<Json>) -> (r: Vec<Expression>)
    ensures
        exprs_value_of(items@, r@),
    decreases items@,
{
    let ghost all = items@;
    let mut rest = items;
    let mut out: Vec<Expression> = Vec::new();
    let n = rest.len();
    let mut i: usize = 0;
    assert(rest@ =~= all.skip(0));
    assert(all.take(0).len() == 0);
    while i < n
        invariant
            n == all.len(),
            i <= n,
            rest@ == all.skip(i as int),
            exprs_value_of(all.take(i as int), out@),
        decreases n - i,
    {
        let item = rest.remove(0);
        assert(item == all[i as int]);
        assert(decreases_to!(all => all[i as int]));
        assert(rest@ =~= all.skip(i + 1));
        let e = value_to_expr(item);
        let ghost before = out@;
        out.push(e);
        assert(all.take(i + 1).drop_last() =~= all.take(i as int));
        assert(out@.drop_last() =~= before);
        i += 1;
    }
    assert(all.take(n as int) =~= all);
    out
}


impl Expression {
    /// Reads a document as an expression, strings by their shape (see
    /// `expr_value_of`).
    pub fn from_value(v: Json) -> (e: Expression)
        ensures
            expr_value_of(v, e),
    {
        value_to_expr(v)
    }
}

// ------------------------------------------------------------ field helpers

/// A member that must hold a valid target.
pub open spec fn target_member_ok(j: Json, key: Seq<char>) -> bool {
    obj_get(j, key) matches Some(t) && target_ok(t)
}

/// The target held by member `key`.
pub open spec fn target_member_of(j: Json, key: Seq<char>, t: Target) -> bool {
    obj_get(j, key) matches Some(x) && target_of(x, t)
}

/// A map member: absent, or an object.
pub open spec fn map_member_ok(j: Json, key: Seq<char>) -> bool {
    obj_get(j, key) is None || obj_get(j, key) matches Some(Json::Object(_))
}

/// The map held by member `key` (empty when absent).
pub open spec fn map_member_of(j: Json, key: Seq<char>, out: StrMap<Json>) -> bool {
    match obj_get(j, key) {
        None => out@ == Map::<Seq<char>, Json>::empty(),
        Some(Json::Object(m)) => out == m,
        _ => false,
    }
}

/// A list member, empty when absent; `None` when present but not an array.
pub open spec fn list_member(j: Json, key: Seq<char>) -> Option<Seq<Json>> {
    match obj_get(j, key) {
        None => Some(Seq::empty()),
        Some(Json::Array(v)) => Some(v@),
        _ => None,
    }
}

/// A required list member.
pub open spec fn req_list_member(j: Json, key: Seq<char>) -> Option<Seq<Json>> {
    match obj_get(j, key) {
        Some(Json::Array(v)) => Some(v@),
        _ => None,
    }
}

/// A member holding an integer that fits `u32`.
pub open spec fn u32_member(j: Json, key: Seq<char>) -> Option<u32> {
    match obj_get(j, key) {
        Some(Json::Int(i)) => if 0 <= i <= u32::MAX { Some(i as u32) } else { None },
        _ => None,
    }
}

/// An optional string member: absent or `null` is `None`; other non-strings
/// are invalid.
pub open spec fn opt_str_member_ok(j: Json, key: Seq<char>) -> bool {
    match obj_get(j, key) {
        None => true,
        Some(Json::Null) => true,
        Some(Json::Str(_)) => true,
        _ => false,
    }
}

/// The log level a name denotes.
pub open spec fn level_of(s: Seq<char>) -> Option<LogLevel> {
    if s == "debug"@ { Some(LogLevel::Debug) }
    else if s == "info"@ { Some(LogLevel::Info) }
    else if s == "warning"@ { Some(LogLevel::Warning) }
    else if s == "error"@ { Some(LogLevel::Error) }
    else { None }
}

/// A `result_in` member: absent, `null`, or an object with a string `key`
/// and a target `on`.
pub open spec fn result_in_ok(j: Json) -> bool {
    match obj_get(j, "result_in"@) {
        None => true,
        Some(Json::Null) => true,
        Some(r) => str_member(r, "key"@) is Some && target_member_ok(r, "on"@),
    }
}

/// The `result_in` member's meaning.
pub open spec fn result_in_of(j: Json, r: Option<ResultTarget>) -> bool {
    match obj_get(j, "result_in"@) {
        None => r is None,
        Some(Json::Null) => r is None,
        Some(x) => r matches Some(rt) && Some(rt.key@) == str_member(x, "key"@) && target_member_of(x, "on"@, rt.on),
    }
}

pub(crate) fn member<'a>(m: &'a StrMap<Json>, key: &str) -> (r: Option<&'a Json>)
    ensures
        match r {
            Some(v) => m@.contains_key(key@) && m@[key@] == *v,
            None => !m@.contains_key(key@),
        },
{
    m.get(key)
}

pub(crate) fn member_str(m: &StrMap<Json>, key: &str) -> (r: Result<String, String>)
    ensures
        match r {
            Ok(s) => m@.contains_key(key@) && (m@[key@] matches Json::Str(x) && x@ == s@),
            Err(_) => !(m@.contains_key(key@) && m@[key@] is Str),
        },
{
    match m.get(key) {
        Some(Json::Str(s)) => Ok(s.clone()),
        _ => {
            let mut msg = "missing or invalid string field `".to_string();
            crate::text::push_str(&mut msg, key);
            crate::text::push_str(&mut msg, "`");
            Err(msg)
        },
    }
}

pub(crate) fn member_opt_str(m: &StrMap<Json>, key: &str) -> (r: Result<Option<String>, String>)
    ensures
        match r {
            Ok(o) => match opt_view(o) {
                Some(x) => m@.contains_key(key@) && (m@[key@] matches Json::Str(y) && y@ == x),
                None => !m@.contains_key(key@) || m@[key@] is Null,
            },
            Err(_) => m@.contains_key(key@) && !(m@[key@] is Null) && !(m@[key@] is Str),
        },
{
    match m.get(key) {
        None => Ok(None),
        Some(Json::Null) => Ok(None),
        Some(Json::Str(s)) => Ok(Some(s.clone())),
        _ => Err("invalid optional string field".to_string()),
    }
}

pub(crate) fn member_target(m: &StrMap<Json>, key: &str) -> (r: Result<Target, String>)
    ensures
        match r {
            Ok(t) => m@.contains_key(key@) && target_ok(m@[key@]) && target_of(m@[key@], t),
            Err(_) => !(m@.contains_key(key@) && target_ok(m@[key@])),
        },
{
    match m.get(key) {
        Some(t) => decode_target(t),
        None => Err("missing target".to_string()),
    }
}

pub(crate) fn take_map(m: &mut StrMap<Json>, key: &str) -> (r: Result<StrMap<Json>, String>)
    ensures
        final(m)@ == old(m)@.remove(key@),
        match r {
            Ok(x) => (!old(m)@.contains_key(key@) && x@ == Map::<Seq<char>, Json>::empty())
                || (old(m)@.contains_key(key@) && old(m)@[key@] == Json::Object(x)),
            Err(_) => old(m)@.contains_key(key@) && !(old(m)@[key@] is Object),
        },
{
    match m.remove(key) {
        None => Ok(StrMap::new()),
        Some(Json::Object(x)) => Ok(x),
        _ => Err("expected an object".to_string()),
    }
}

pub(crate) fn take_list(m: &mut StrMap<Json>, key: &str, required: bool) -> (r: Result<Vec<Json>, String>)
    ensures
        final(m)@ == old(m)@.remove(key@),
        match r {
            Ok(v) => (!required && !old(m)@.contains_key(key@) && v@.len() == 0)
                || (old(m)@.contains_key(key@) && old(m)@[key@] == Json::Array(v)),
            Err(_) => (required && !old(m)@.contains_key(key@))
                || (old(m)@.contains_key(key@) && !(old(m)@[key@] is Array)),
        },
{
    match m.remove(key) {
        None => if required { Err("missing list field".to_string()) } else { Ok(Vec::new()) },
        Some(Json::Array(v)) => Ok(v),
        _ => Err("expected an array".to_string()),
    }
}

pub(crate) fn take_value(m: &mut StrMap<Json>, key: &str) -> (r: Result<Json, String>)
    ensures
        final(m)@ == old(m)@.remove(key@),
        match r {
            Ok(v) => old(m)@.contains_key(key@) && old(m)@[key@] == v,
            Err(_) => !old(m)@.contains_key(key@),
        },
{
    match m.remove(key) {
        Some(v) => Ok(v),
        None => Err("missing field".to_string()),
    }
}

} // verus!
