//! Structural equality and copies of targets, expressions, actions and
//! behaviors, as `==` and `clone` compare and copy them.

use vstd::prelude::*;
use crate::behavior::{Action, Behavior, Expression, ResultTarget, StateDef, Target, Transition, target_label};
use crate::scene::{Component, Node};
use crate::json::{Json, json_same, jsons_same, jvals_same, json_equal, clone_members, members_equal, number_same};
use crate::lint::opt_text;
use crate::strmap::{StrMap, keys_ascending};
use crate::text::{str_eq, seq_lt};

verus! {

broadcast use vstd::string::group_string_axioms;

/// Two targets are equal.
pub open spec fn target_same(a: Target, b: Target) -> bool {
    match a {
        Target::This => b is This,
        Target::Node { id } => b matches Target::Node { id: j } && id@ == j@,
        Target::Parent => b is Parent,
        Target::Children { filter } => b matches Target::Children { filter: g } && opt_text(filter) == opt_text(g),
    }
}

fn opt_str_equal(a: &Option<String>, b: &Option<String>) -> (r: bool)
    ensures
        r == (opt_text(*a) == opt_text(*b)),
{
    match (a, b) {
        (Some(x), Some(y)) => str_eq(x.as_str(), y.as_str()),
        (None, None) => true,
        _ => false,
    }
}

fn opt_str_copy(a: &Option<String>) -> (r: Option<String>)
    ensures
        opt_text(r) == opt_text(*a),
{
    match a {
        Some(x) => Some(x.clone()),
        None => None,
    }
}

pub fn target_equal(a: &Target, b: &Target) -> (r: bool)
    ensures
        r == target_same(*a, *b),
{
    match (a, b) {
        (Target::This, Target::This) => true,
        (Target::Node { id }, Target::Node { id: j }) => str_eq(id.as_str(), j.as_str()),
        (Target::Parent, Target::Parent) => true,
        (Target::Children { filter }, Target::Children { filter: g }) => opt_str_equal(filter, g),
        _ => false,
    }
}

/// Two optional result targets are equal.
pub open spec fn result_same(a: Option<ResultTarget>, b: Option<ResultTarget>) -> bool {
    match a {
        Some(x) => b matches Some(y) && x.key@ == y.key@ && target_same(x.on, y.on),
        None => b is None,
    }
}

fn result_equal(a: &Option<ResultTarget>, b: &Option<ResultTarget>) -> (r: bool)
    ensures
        r == result_same(*a, *b),
{
    match (a, b) {
        (Some(x), Some(y)) => str_eq(x.key.as_str(), y.key.as_str()) && target_equal(&x.on, &y.on),
        (None, None) => true,
        _ => false,
    }
}

pub(crate) fn result_copy(a: &Option<ResultTarget>) -> (r: Option<ResultTarget>)
    ensures
        result_same(r, *a),
{
    match a {
        Some(x) => Some(ResultTarget { key: x.key.clone(), on: x.on.copied() }),
        None => None,
    }
}

/// Two string-keyed document maps are equal.
pub open spec fn jmap_same(m: StrMap<Json>, n: StrMap<Json>) -> bool {
    m.key_seq() == n.key_seq() && jvals_same(m, n, m.key_seq().len())
}

fn jmap_equal(m: &StrMap<Json>, n: &StrMap<Json>) -> (r: bool)
    ensures
        r == jmap_same(*m, *n),
{
    members_equal(m, n)
}

// ----------------------------------------------------------- expressions

/// Two expressions are equal.
pub open spec fn expr_same(a: Expression, b: Expression) -> bool
    decreases a,
{
    match a {
        Expression::Bare(x) => b matches Expression::Bare(y) && x@ == y@,
        Expression::Ref { path } => b matches Expression::Ref { path: q } && path@ == q@,
        Expression::Eq { eq } => b matches Expression::Eq { eq: e }
            && eq@.len() == e@.len() && forall|i: int| 0 <= i < eq@.len() ==> expr_same(#[trigger] eq@[i], e@[i]),
        Expression::Neq { neq } => b matches Expression::Neq { neq: e }
            && neq@.len() == e@.len() && forall|i: int| 0 <= i < neq@.len() ==> expr_same(#[trigger] neq@[i], e@[i]),
        Expression::Lt { lt } => b matches Expression::Lt { lt: e }
            && lt@.len() == e@.len() && forall|i: int| 0 <= i < lt@.len() ==> expr_same(#[trigger] lt@[i], e@[i]),
        Expression::Gt { gt } => b matches Expression::Gt { gt: e }
            && gt@.len() == e@.len() && forall|i: int| 0 <= i < gt@.len() ==> expr_same(#[trigger] gt@[i], e@[i]),
        Expression::Add { add } => b matches Expression::Add { add: e }
            && add@.len() == e@.len() && forall|i: int| 0 <= i < add@.len() ==> expr_same(#[trigger] add@[i], e@[i]),
        Expression::Sub { sub } => b matches Expression::Sub { sub: e }
            && sub@.len() == e@.len() && forall|i: int| 0 <= i < sub@.len() ==> expr_same(#[trigger] sub@[i], e@[i]),
        Expression::Literal(j) => b matches Expression::Literal(k) && json_same(j, k),
    }
}

/// Two lists of expressions are equal item by item.
pub open spec fn exprs_same(xs: Seq<Expression>, ys: Seq<Expression>) -> bool {
    xs.len() == ys.len() && forall|i: int| 0 <= i < xs.len() ==> expr_same(#[trigger] xs[i], ys[i])
}

pub fn expr_equal(a: &Expression, b: &Expression) -> (r: bool)
    ensures
        r == expr_same(*a, *b),
    decreases a,
{
    match (a, b) {
        (Expression::Bare(x), Expression::Bare(y)) => str_eq(x.as_str(), y.as_str()),
        (Expression::Ref { path }, Expression::Ref { path: q }) => str_eq(path.as_str(), q.as_str()),
        (Expression::Eq { eq: x }, Expression::Eq { eq: y }) => exprs_equal(x, y),
        (Expression::Neq { neq: x }, Expression::Neq { neq: y }) => exprs_equal(x, y),
        (Expression::Lt { lt: x }, Expression::Lt { lt: y }) => exprs_equal(x, y),
        (Expression::Gt { gt: x }, Expression::Gt { gt: y }) => exprs_equal(x, y),
        (Expression::Add { add: x }, Expression::Add { add: y }) => exprs_equal(x, y),
        (Expression::Sub { sub: x }, Expression::Sub { sub: y }) => exprs_equal(x, y),
        (Expression::Literal(j), Expression::Literal(k)) => json_equal(j, k),
        _ => false,
    }
}

fn exprs_equal(xs: &Vec<Expression>, ys: &Vec<Expression>) -> (r: bool)
    ensures
        r == exprs_same(xs@, ys@),
    decreases xs,
{
    if xs.len() != ys.len() {
        return false;
    }
    let mut i: usize = 0;
    while i < xs.len()
        invariant
            i <= xs@.len() == ys@.len(),
            forall|j: int| 0 <= j < i ==> expr_same(#[trigger] xs@[j], ys@[j]),
        decreases xs.len() - i,
    {
        proof { vstd::std_specs::vec::axiom_vec_index_decreases(*xs, i as int); }
        if !expr_equal(&xs[i], &ys[i]) {
            return false;
        }
        i += 1;
    }
    true
}

/// A copy of an expression, equal to it.
pub fn expr_copy(a: &Expression) -> (r: Expression)
    ensures
        expr_same(r, *a),
    decreases a,
{
    match a {
        Expression::Bare(x) => Expression::Bare(x.clone()),
        Expression::Ref { path } => Expression::Ref { path: path.clone() },
        Expression::Eq { eq } => Expression::Eq { eq: exprs_copy(eq) },
        Expression::Neq { neq } => Expression::Neq { neq: exprs_copy(neq) },
        Expression::Lt { lt } => Expression::Lt { lt: exprs_copy(lt) },
        Expression::Gt { gt } => Expression::Gt { gt: exprs_copy(gt) },
        Expression::Add { add } => Expression::Add { add: exprs_copy(add) },
        Expression::Sub { sub } => Expression::Sub { sub: exprs_copy(sub) },
        Expression::Literal(j) => Expression::Literal(j.deep_clone()),
    }
}

fn exprs_copy(xs: &Vec<Expression>) -> (r: Vec<Expression>)
    ensures
        exprs_same(r@, xs@),
    decreases xs,
{
    let mut out: Vec<Expression> = Vec::new();
    let mut i: usize = 0;
    while i < xs.len()
        invariant
            i <= xs@.len(),
            out@.len() == i,
            forall|j: int| 0 <= j < i ==> expr_same(#[trigger] out@[j], xs@[j]),
        decreases xs.len() - i,
    {
        proof { vstd::std_specs::vec::axiom_vec_index_decreases(*xs, i as int); }
        out.push(expr_copy(&xs[i]));
        i += 1;
    }
    out
}

// ------------------------------------------------------ actions, behaviors

/// Two transitions are equal.
pub open spec fn transition_same(a: Transition, b: Transition) -> bool {
    a.to@ == b.to@ && expr_same(a.when, b.when)
}

/// Two lists of transitions are equal item by item.
pub open spec fn transitions_same(xs: Seq<Transition>, ys: Seq<Transition>) -> bool {
    xs.len() == ys.len() && forall|i: int| 0 <= i < xs.len() ==> transition_same(#[trigger] xs[i], ys[i])
}

/// Two actions are equal.
pub open spec fn action_same(a: Action, b: Action) -> bool
    decreases a, 0nat,
{
    match a {
        Action::SetState { target, key, value } => b matches Action::SetState { target: t, key: k, value: v }
            && target_same(target, t) && key@ == k@ && json_same(value, v),
        Action::Emit { signal, args } => b matches Action::Emit { signal: g, args: r }
            && signal@ == g@ && jmap_same(args, r),
        Action::Destroy { target } => b matches Action::Destroy { target: t } && target_same(target, t),
        Action::Spawn { node_type, parent, components, behaviors } =>
            b matches Action::Spawn { node_type: n2, parent: p2, components: c2, behaviors: b2 }
            && node_type@ == n2@ && target_same(parent, p2) && jmap_same(components, c2)
            && behaviors@.len() == b2@.len()
            && forall|i: int| 0 <= i < behaviors@.len() ==> behavior_same(#[trigger] behaviors@[i], b2@[i]),
        Action::If { cond, then_, else_ } => b matches Action::If { cond: c, then_: t, else_: e }
            && expr_same(cond, c)
            && then_@.len() == t@.len() && (forall|i: int| 0 <= i < then_@.len() ==> action_same(#[trigger] then_@[i], t@[i]))
            && else_@.len() == e@.len() && (forall|i: int| 0 <= i < else_@.len() ==> action_same(#[trigger] else_@[i], e@[i])),
        Action::Move { target, key, by } => b matches Action::Move { target: t, key: k, by: v }
            && target_same(target, t) && key@ == k@ && json_same(by, v),
        Action::Animate { target, key, to, duration } => b matches Action::Animate { target: t, key: k, to: v, duration: d }
            && target_same(target, t) && key@ == k@ && json_same(to, v) && duration == d,
        Action::Log { level, message, fields } => b matches Action::Log { level: l, message: m, fields: f }
            && level == l && message@ == m@ && jmap_same(fields, f),
        Action::CallSystem { system, args, result_in } => b matches Action::CallSystem { system: y, args: r, result_in: o }
            && system@ == y@ && jmap_same(args, r) && result_same(result_in, o),
    }
}

/// Two behaviors are equal.
pub open spec fn behavior_same(a: Behavior, b: Behavior) -> bool
    decreases a, 0nat,
{
    match a {
        Behavior::StateMachine { initial, states } => b matches Behavior::StateMachine { initial: i2, states: s2 }
            && initial@ == i2@ && states.key_seq() == s2.key_seq()
            && states_same(states, s2, states.key_seq().len()),
        Behavior::OnTick { actions } => b matches Behavior::OnTick { actions: a2 }
            && actions@.len() == a2@.len()
            && forall|i: int| 0 <= i < actions@.len() ==> action_same(#[trigger] actions@[i], a2@[i]),
        Behavior::OnSignal { signal, actions } => b matches Behavior::OnSignal { signal: g, actions: a2 }
            && signal@ == g@ && actions@.len() == a2@.len()
            && forall|i: int| 0 <= i < actions@.len() ==> action_same(#[trigger] actions@[i], a2@[i]),
    }
}

/// The first `k` states of two state maps are equal pairwise.
pub open spec fn states_same(m: StrMap<StateDef>, n: StrMap<StateDef>, k: nat) -> bool
    decreases m, k,
{
    if k == 0 || k > m.key_seq().len() {
        k == 0
    } else {
        proof { m.lemma_value_decreases(k - 1); }
        states_same(m, n, (k - 1) as nat) && state_same(m.value_seq()[k - 1], n.value_seq()[k - 1])
    }
}

/// Two states are equal.
pub open spec fn state_same(a: StateDef, b: StateDef) -> bool
    decreases a, 0nat,
{
    &&& a.on_enter@.len() == b.on_enter@.len()
    &&& forall|i: int| 0 <= i < a.on_enter@.len() ==> action_same(#[trigger] a.on_enter@[i], b.on_enter@[i])
    &&& a.on_tick@.len() == b.on_tick@.len()
    &&& forall|i: int| 0 <= i < a.on_tick@.len() ==> action_same(#[trigger] a.on_tick@[i], b.on_tick@[i])
    &&& transitions_same(a.transitions@, b.transitions@)
}

/// Two lists of actions are equal item by item.
pub open spec fn actions_same(xs: Seq<Action>, ys: Seq<Action>) -> bool {
    xs.len() == ys.len() && forall|i: int| 0 <= i < xs.len() ==> action_same(#[trigger] xs[i], ys[i])
}

/// Two lists of behaviors are equal item by item.
pub open spec fn behaviors_same(xs: Seq<Behavior>, ys: Seq<Behavior>) -> bool {
    xs.len() == ys.len() && forall|i: int| 0 <= i < xs.len() ==> behavior_same(#[trigger] xs[i], ys[i])
}

fn transitions_equal(xs: &Vec<Transition>, ys: &Vec<Transition>) -> (r: bool)
    ensures
        r == transitions_same(xs@, ys@),
{
    if xs.len() != ys.len() {
        return false;
    }
    let mut i: usize = 0;
    while i < xs.len()
        invariant
            i <= xs@.len() == ys@.len(),
            forall|j: int| 0 <= j < i ==> transition_same(#[trigger] xs@[j], ys@[j]),
        decreases xs.len() - i,
    {
        if !(str_eq(xs[i].to.as_str(), ys[i].to.as_str()) && expr_equal(&xs[i].when, &ys[i].when)) {
            return false;
        }
        i += 1;
    }
    true
}

fn transitions_copy(xs: &Vec<Transition>) -> (r: Vec<Transition>)
    ensures
        transitions_same(r@, xs@),
{
    let mut out: Vec<Transition> = Vec::new();
    let mut i: usize = 0;
    while i < xs.len()
        invariant
            i <= xs@.len(),
            out@.len() == i,
            forall|j: int| 0 <= j < i ==> transition_same(#[trigger] out@[j], xs@[j]),
        decreases xs.len() - i,
    {
        out.push(Transition { to: xs[i].to.clone(), when: expr_copy(&xs[i].when) });
        i += 1;
    }
    out
}

/// Whether two actions are equal.
pub fn action_equal(a: &Action, b: &Action) -> (r: bool)
    ensures
        r == action_same(*a, *b),
    decreases a, 0nat,
{
    match (a, b) {
        (Action::SetState { target, key, value }, Action::SetState { target: t, key: k, value: v }) =>
            target_equal(target, t) && str_eq(key.as_str(), k.as_str()) && json_equal(value, v),
        (Action::Emit { signal, args }, Action::Emit { signal: g, args: r }) =>
            str_eq(signal.as_str(), g.as_str()) && jmap_equal(args, r),
        (Action::Destroy { target }, Action::Destroy { target: t }) => target_equal(target, t),
        (Action::Spawn { node_type, parent, components, behaviors }, Action::Spawn { node_type: n2, parent: p2, components: c2, behaviors: b2 }) =>
            str_eq(node_type.as_str(), n2.as_str()) && target_equal(parent, p2) && jmap_equal(components, c2)
                && behaviors_equal(behaviors, b2),
        (Action::If { cond, then_, else_ }, Action::If { cond: c, then_: t, else_: e }) =>
            expr_equal(cond, c) && actions_equal(then_, t) && actions_equal(else_, e),
        (Action::Move { target, key, by }, Action::Move { target: t, key: k, by: v }) =>
            target_equal(target, t) && str_eq(key.as_str(), k.as_str()) && json_equal(by, v),
        (Action::Animate { target, key, to, duration }, Action::Animate { target: t, key: k, to: v, duration: d }) =>
            target_equal(target, t) && str_eq(key.as_str(), k.as_str()) && json_equal(to, v) && *duration == *d,
        (Action::Log { level, message, fields }, Action::Log { level: l, message: m, fields: f }) =>
            *level == *l && str_eq(message.as_str(), m.as_str()) && jmap_equal(fields, f),
        (Action::CallSystem { system, args, result_in }, Action::CallSystem { system: y, args: r, result_in: o }) =>
            str_eq(system.as_str(), y.as_str()) && jmap_equal(args, r) && result_equal(result_in, o),
        _ => false,
    }
}

/// Whether two lists of actions are equal.
pub fn actions_equal(xs: &Vec<Action>, ys: &Vec<Action>) -> (r: bool)
    ensures
        r == actions_same(xs@, ys@),
    decreases xs, 1nat,
{
    if xs.len() != ys.len() {
        return false;
    }
    let mut i: usize = 0;
    while i < xs.len()
        invariant
            i <= xs@.len() == ys@.len(),
            forall|j: int| 0 <= j < i ==> action_same(#[trigger] xs@[j], ys@[j]),
        decreases xs.len() - i,
    {
        proof { vstd::std_specs::vec::axiom_vec_index_decreases(*xs, i as int); }
        if !action_equal(&xs[i], &ys[i]) {
            return false;
        }
        i += 1;
    }
    true
}

/// Whether two behaviors are equal.
pub fn behavior_equal(a: &Behavior, b: &Behavior) -> (r: bool)
    ensures
        r == behavior_same(*a, *b),
    decreases a, 0nat,
{
    match (a, b) {
        (Behavior::StateMachine { initial, states }, Behavior::StateMachine { initial: i2, states: s2 }) =>
            str_eq(initial.as_str(), i2.as_str()) && states_equal(states, s2),
        (Behavior::OnTick { actions }, Behavior::OnTick { actions: a2 }) => actions_equal(actions, a2),
        (Behavior::OnSignal { signal, actions }, Behavior::OnSignal { signal: g, actions: a2 }) =>
            str_eq(signal.as_str(), g.as_str()) && actions_equal(actions, a2),
        _ => false,
    }
}

/// Whether two lists of behaviors are equal (`==` on `Vec<Behavior>`).
pub fn behaviors_equal(xs: &Vec<Behavior>, ys: &Vec<Behavior>) -> (r: bool)
    ensures
        r == behaviors_same(xs@, ys@),
    decreases xs, 1nat,
{
    if xs.len() != ys.len() {
        return false;
    }
    let mut i: usize = 0;
    while i < xs.len()
        invariant
            i <= xs@.len() == ys@.len(),
            forall|j: int| 0 <= j < i ==> behavior_same(#[trigger] xs@[j], ys@[j]),
        decreases xs.len() - i,
    {
        proof { vstd::std_specs::vec::axiom_vec_index_decreases(*xs, i as int); }
        if !behavior_equal(&xs[i], &ys[i]) {
            return false;
        }
        i += 1;
    }
    true
}

proof fn lemma_states_same_prefix(a: StrMap<StateDef>, b: StrMap<StateDef>, k: nat, j: nat)
    requires
        j <= k <= a.key_seq().len(),
        states_same(a, b, k),
    ensures
        states_same(a, b, j),
    decreases k,
{
    if j < k {
        lemma_states_same_prefix(a, b, (k - 1) as nat, j);
    }
}

fn states_equal(m: &StrMap<StateDef>, n: &StrMap<StateDef>) -> (r: bool)
    ensures
        r == (m.key_seq() == n.key_seq() && states_same(*m, *n, m.key_seq().len())),
    decreases m, 2nat,
{
    m.proof_keys();
    n.proof_keys();
    let len = m.len();
    if len != n.len() {
        return false;
    }
    let mut i: usize = 0;
    while i < len
        invariant
            i <= len,
            len == m.key_seq().len() == m.value_seq().len() == n.key_seq().len() == n.value_seq().len(),
            forall|j: int| 0 <= j < i ==> m.key_seq()[j] == n.key_seq()[j],
            states_same(*m, *n, i as nat),
        decreases len - i,
    {
        proof { m.lemma_value_decreases(i as int); }
        if !str_eq(m.key_at(i).as_str(), n.key_at(i).as_str()) {
            return false;
        }
        if !state_equal(m.value_at(i), n.value_at(i)) {
            proof { if states_same(*m, *n, len as nat) { lemma_states_same_prefix(*m, *n, len as nat, (i + 1) as nat); } }
            return false;
        }
        i += 1;
    }
    assert(m.key_seq() =~= n.key_seq());
    true
}

fn state_equal(a: &StateDef, b: &StateDef) -> (r: bool)
    ensures
        r == state_same(*a, *b),
    decreases a, 2nat,
{
    actions_equal(&a.on_enter, &b.on_enter) && actions_equal(&a.on_tick, &b.on_tick)
        && transitions_equal(&a.transitions, &b.transitions)
}

/// A copy of an action, equal to it.
pub fn action_copy(a: &Action) -> (r: Action)
    ensures
        action_same(r, *a),
    decreases a, 0nat,
{
    match a {
        Action::SetState { target, key, value } =>
            Action::SetState { target: target.copied(), key: key.clone(), value: value.deep_clone() },
        Action::Emit { signal, args } => Action::Emit { signal: signal.clone(), args: clone_members(args) },
        Action::Destroy { target } => Action::Destroy { target: target.copied() },
        Action::Spawn { node_type, parent, components, behaviors } => Action::Spawn {
            node_type: node_type.clone(),
            parent: parent.copied(),
            components: clone_members(components),
            behaviors: behaviors_copy(behaviors),
        },
        Action::If { cond, then_, else_ } =>
            Action::If { cond: expr_copy(cond), then_: actions_copy(then_), else_: actions_copy(else_) },
        Action::Move { target, key, by } =>
            Action::Move { target: target.copied(), key: key.clone(), by: by.deep_clone() },
        Action::Animate { target, key, to, duration } =>
            Action::Animate { target: target.copied(), key: key.clone(), to: to.deep_clone(), duration: *duration },
        Action::Log { level, message, fields } =>
            Action::Log { level: *level, message: message.clone(), fields: clone_members(fields) },
        Action::CallSystem { system, args, result_in } =>
            Action::CallSystem { system: system.clone(), args: clone_members(args), result_in: result_copy(result_in) },
    }
}

/// A copy of a list of actions, equal to it.
pub fn actions_copy(xs: &Vec<Action>) -> (r: Vec<Action>)
    ensures
        actions_same(r@, xs@),
    decreases xs, 1nat,
{
    let mut out: Vec<Action> = Vec::new();
    let mut i: usize = 0;
    while i < xs.len()
        invariant
            i <= xs@.len(),
            out@.len() == i,
            forall|j: int| 0 <= j < i ==> action_same(#[trigger] out@[j], xs@[j]),
        decreases xs.len() - i,
    {
        proof { vstd::std_specs::vec::axiom_vec_index_decreases(*xs, i as int); }
        out.push(action_copy(&xs[i]));
        i += 1;
    }
    out
}

/// A copy of a behavior, equal to it.
pub fn behavior_copy(b: &Behavior) -> (r: Behavior)
    ensures
        behavior_same(r, *b),
    decreases b, 0nat,
{
    match b {
        Behavior::StateMachine { initial, states } =>
            Behavior::StateMachine { initial: initial.clone(), states: states_copy(states) },
        Behavior::OnTick { actions } => Behavior::OnTick { actions: actions_copy(actions) },
        Behavior::OnSignal { signal, actions } =>
            Behavior::OnSignal { signal: signal.clone(), actions: actions_copy(actions) },
    }
}

/// A copy of a list of behaviors, equal to it.
pub fn behaviors_copy(xs: &Vec<Behavior>) -> (r: Vec<Behavior>)
    ensures
        behaviors_same(r@, xs@),
    decreases xs, 1nat,
{
    let mut out: Vec<Behavior> = Vec::new();
    let mut i: usize = 0;
    while i < xs.len()
        invariant
            i <= xs@.len(),
            out@.len() == i,
            forall|j: int| 0 <= j < i ==> behavior_same(#[trigger] out@[j], xs@[j]),
        decreases xs.len() - i,
    {
        proof { vstd::std_specs::vec::axiom_vec_index_decreases(*xs, i as int); }
        out.push(behavior_copy(&xs[i]));
        i += 1;
    }
    out
}

proof fn lemma_states_same_from_all(a: StrMap<StateDef>, b: StrMap<StateDef>, k: nat)
    requires
        k <= a.key_seq().len(),
        forall|j: int| 0 <= j < k ==> state_same(#[trigger] a.value_seq()[j], b.value_seq()[j]),
    ensures
        states_same(a, b, k),
    decreases k,
{
    if k > 0 {
        lemma_states_same_from_all(a, b, (k - 1) as nat);
    }
}

fn states_copy(m: &StrMap<StateDef>) -> (r: StrMap<StateDef>)
    ensures
        r.key_seq() == m.key_seq(),
        states_same(r, *m, r.key_seq().len()),
    decreases m, 2nat,
{
    m.proof_keys();
    let mut out: StrMap<StateDef> = StrMap::new();
    let n = m.len();
    let mut i: usize = 0;
    out.proof_keys();
    assert(out.key_seq() =~= m.key_seq().take(0));
    while i < n
        invariant
            i <= n,
            n == m.key_seq().len() == m.value_seq().len(),
            keys_ascending(m.key_seq()),
            out.key_seq() == m.key_seq().take(i as int),
            out.value_seq().len() == i,
            forall|j: int| 0 <= j < i ==> state_same(#[trigger] out.value_seq()[j], m.value_seq()[j]),
        decreases n - i,
    {
        let k = m.key_at(i).clone();
        let v = m.value_at(i);
        proof { m.lemma_value_decreases(i as int); }
        let c = state_copy(v);
        proof {
            assert forall|j: int| 0 <= j < out.key_seq().len() implies seq_lt(#[trigger] out.key_seq()[j], k@) by {
                assert(m.key_seq()[j] == out.key_seq()[j]);
            }
        }
        out.push_last(k, c);
        assert(out.key_seq() =~= m.key_seq().take(i + 1));
        i += 1;
    }
    assert(m.key_seq().take(n as int) =~= m.key_seq());
    proof { lemma_states_same_from_all(out, *m, n as nat); }
    out
}

fn state_copy(s: &StateDef) -> (r: StateDef)
    ensures
        state_same(r, *s),
    decreases s, 2nat,
{
    StateDef {
        on_enter: actions_copy(&s.on_enter),
        on_tick: actions_copy(&s.on_tick),
        transitions: transitions_copy(&s.transitions),
    }
}

// ----------------------------------------------------------------- nodes

/// Two component tables hold the same keys, with equal values and kinds.
pub open spec fn components_same(a: Map<Seq<char>, Component>, b: Map<Seq<char>, Component>) -> bool {
    &&& a.dom() == b.dom()
    &&& forall|k: Seq<char>| #[trigger] a.contains_key(k) ==> a[k].value@ == b[k].value@ && a[k].kind == b[k].kind
}

/// Two nodes are equal field by field.
pub open spec fn node_same(a: Node, b: Node) -> bool {
    &&& a.id@ == b.id@
    &&& a.node_type@ == b.node_type@
    &&& opt_text(a.parent) == opt_text(b.parent)
    &&& components_same(a.components@, b.components@)
    &&& behaviors_same(a.behaviors@, b.behaviors@)
    &&& opt_text(a.active_state) == opt_text(b.active_state)
    &&& opt_text(a.lua_class) == opt_text(b.lua_class)
    &&& a.destroyed == b.destroyed
}

/// A copy of a component table.
pub fn components_copy(m: &StrMap<Component>) -> (r: StrMap<Component>)
    ensures
        components_same(r@, m@),
{
    m.proof_keys();
    let mut out: StrMap<Component> = StrMap::new();
    let n = m.len();
    let mut i: usize = 0;
    out.proof_keys();
    assert(out.key_seq() =~= m.key_seq().take(0));
    assert(out.value_seq().len() == 0);
    while i < n
        invariant
            i <= n,
            n == m.key_seq().len() == m.value_seq().len(),
            keys_ascending(m.key_seq()),
            forall|t: int| 0 <= t < m.key_seq().len() ==> m@[#[trigger] m.key_seq()[t]] == m.value_seq()[t],
            forall|k: Seq<char>| m@.contains_key(k) <==> m.key_seq().contains(k),
            out.key_seq() == m.key_seq().take(i as int),
            out.value_seq().len() == i,
            forall|k: Seq<char>| #[trigger] out@.contains_key(k) <==> m.key_seq().take(i as int).contains(k),
            forall|t: int| 0 <= t < i ==> out@[#[trigger] m.key_seq()[t]].value@ == m.value_seq()[t].value@
                && out@[m.key_seq()[t]].kind == m.value_seq()[t].kind,
        decreases n - i,
    {
        let k = m.key_at(i).clone();
        let c = m.value_at(i).clone();
        proof {
            assert forall|j: int| 0 <= j < out.key_seq().len() implies seq_lt(#[trigger] out.key_seq()[j], k@) by {
                assert(m.key_seq()[j] == out.key_seq()[j]);
            }
        }
        let ghost before = out@;
        out.push_last(k, c);
        proof {
            let ks = m.key_seq();
            assert(out.key_seq() =~= ks.take(i + 1));
            assert forall|q: Seq<char>| #[trigger] out@.contains_key(q) <==> ks.take(i + 1).contains(q) by {
                if ks.take(i + 1).contains(q) && q != ks[i as int] {
                    let t = choose|t: int| 0 <= t < i + 1 && #[trigger] ks.take(i + 1)[t] == q;
                    assert(ks.take(i as int)[t] == q);
                }
                if ks.take(i as int).contains(q) {
                    let t = choose|t: int| 0 <= t < i && #[trigger] ks.take(i as int)[t] == q;
                    assert(ks.take(i + 1)[t] == q);
                }
                if q == ks[i as int] {
                    assert(ks.take(i + 1)[i as int] == q);
                }
            }
            assert forall|t: int| 0 <= t < i + 1 implies out@[#[trigger] ks[t]].value@ == m.value_seq()[t].value@
                && out@[ks[t]].kind == m.value_seq()[t].kind by {
                if t < i {
                    crate::text::lemma_seq_lt_irreflexive(ks[t]);
                    assert(seq_lt(ks[t], ks[i as int]));
                }
            }
        }
        i += 1;
    }
    proof {
        let ks = m.key_seq();
        assert(ks.take(n as int) =~= ks);
        assert forall|k: Seq<char>| #[trigger] out@.contains_key(k) implies out@[k].value@ == m@[k].value@ && out@[k].kind == m@[k].kind by {
            let t = choose|t: int| 0 <= t < ks.len() && ks[t] == k;
            assert(out@[ks[t]].value@ == m.value_seq()[t].value@);
        }
        assert(out@.dom() =~= m@.dom());
    }
    out
}

/// A copy of a node, equal to it.
pub fn node_copy(n: &Node) -> (r: Node)
    ensures
        node_same(r, *n),
{
    Node {
        id: n.id.clone(),
        node_type: n.node_type.clone(),
        parent: opt_str_copy(&n.parent),
        components: components_copy(&n.components),
        behaviors: behaviors_copy(&n.behaviors),
        active_state: opt_str_copy(&n.active_state),
        lua_class: opt_str_copy(&n.lua_class),
        destroyed: n.destroyed,
    }
}

/// The first character of a target's label tells its kind: `s`elf,
/// `n`ode, `p`arent or `c`hildren.
proof fn lemma_label_first(t: Target)
    ensures
        target_label(t).len() > 0,
        target_label(t)[0] == match t {
            Target::This => 's',
            Target::Node { .. } => 'n',
            Target::Parent => 'p',
            Target::Children { .. } => 'c',
        },
{
    reveal_strlit("self");
    reveal_strlit("node:");
    reveal_strlit("parent");
    reveal_strlit("children:");
    reveal_strlit("children");
    match t {
        Target::Node { id } => assert(("node:"@ + id@)[0] == "node:"@[0]),
        Target::Children { filter: Some(f) } => assert(("children:"@ + f@)[0] == "children:"@[0]),
        _ => {},
    }
}

/// `Target::label` gives different targets different texts: two targets
/// with the same label are the same target.
pub proof fn law_target_label_injective(a: Target, b: Target)
    requires
        target_label(a) == target_label(b),
    ensures
        target_same(a, b),
{
    lemma_label_first(a);
    lemma_label_first(b);
    reveal_strlit("node:");
    reveal_strlit("children:");
    reveal_strlit("children");
    match (a, b) {
        (Target::Node { id: x }, Target::Node { id: y }) => {
            assert(x@ =~= target_label(a).subrange(5, target_label(a).len() as int));
            assert(y@ =~= target_label(b).subrange(5, target_label(b).len() as int));
        },
        (Target::Children { filter: f }, Target::Children { filter: g }) => {
            match (f, g) {
                (Some(x), Some(y)) => {
                    assert(x@ =~= target_label(a).subrange(9, target_label(a).len() as int));
                    assert(y@ =~= target_label(b).subrange(9, target_label(b).len() as int));
                },
                (Some(x), None) => {
                    assert(target_label(a).len() == 9 + x@.len());
                },
                (None, Some(y)) => {
                    assert(target_label(b).len() == 9 + y@.len());
                },
                (None, None) => {},
            }
        },
        _ => {},
    }
}

// ------------------------------------------------------- reflexivity

/// Every number equals itself (`serde_json::Number` is `Eq`).
pub open spec fn numbers_reflexive() -> bool {
    forall|n: serde_json::Number| #[trigger] number_same(n, n)
}

proof fn lemma_json_refl(j: Json)
    requires
        numbers_reflexive(),
    ensures
        json_same(j, j),
    decreases j, 1nat,
{
    match j {
        Json::Float(n) => assert(number_same(n, n)),
        Json::Array(xs) => {
            vstd::std_specs::vec::axiom_vec_decreases_to_view(xs);
            lemma_jsons_refl(xs@);
        },
        Json::Object(m) => lemma_jvals_refl(m, m.key_seq().len()),
        _ => {},
    }
}

proof fn lemma_jsons_refl(xs: Seq<Json>)
    requires
        numbers_reflexive(),
    ensures
        jsons_same(xs, xs),
    decreases xs, 0nat,
{
    if xs.len() > 0 {
        lemma_jsons_refl(xs.drop_last());
        lemma_json_refl(xs.last());
    }
}

proof fn lemma_jvals_refl(m: StrMap<Json>, k: nat)
    requires
        numbers_reflexive(),
        k <= m.key_seq().len(),
    ensures
        jvals_same(m, m, k),
    decreases m, k,
{
    if k > 0 {
        m.lemma_value_decreases(k - 1);
        lemma_jvals_refl(m, (k - 1) as nat);
        lemma_json_refl(m.value_seq()[k - 1]);
    }
}

proof fn lemma_expr_refl(e: Expression)
    requires
        numbers_reflexive(),
    ensures
        expr_same(e, e),
    decreases e,
{
    match e {
        Expression::Eq { eq: xs } | Expression::Neq { neq: xs } | Expression::Lt { lt: xs }
        | Expression::Gt { gt: xs } | Expression::Add { add: xs } | Expression::Sub { sub: xs } => {
            assert forall|i: int| 0 <= i < xs@.len() implies expr_same(#[trigger] xs@[i], xs@[i]) by {
                vstd::std_specs::vec::axiom_vec_index_decreases(xs, i);
                lemma_expr_refl(xs@[i]);
            }
        },
        Expression::Literal(j) => lemma_json_refl(j),
        _ => {},
    }
}

proof fn lemma_action_refl(a: Action)
    requires
        numbers_reflexive(),
    ensures
        action_same(a, a),
    decreases a, 0nat,
{
    match a {
        Action::SetState { value, .. } => lemma_json_refl(value),
        Action::Emit { args, .. } => lemma_jvals_refl(args, args.key_seq().len()),
        Action::Spawn { components, behaviors, .. } => {
            lemma_jvals_refl(components, components.key_seq().len());
            assert forall|i: int| 0 <= i < behaviors@.len() implies behavior_same(#[trigger] behaviors@[i], behaviors@[i]) by {
                vstd::std_specs::vec::axiom_vec_index_decreases(behaviors, i);
                lemma_behavior_refl(behaviors@[i]);
            }
        },
        Action::If { cond, then_, else_ } => {
            lemma_expr_refl(cond);
            assert forall|i: int| 0 <= i < then_@.len() implies action_same(#[trigger] then_@[i], then_@[i]) by {
                vstd::std_specs::vec::axiom_vec_index_decreases(then_, i);
                lemma_action_refl(then_@[i]);
            }
            assert forall|i: int| 0 <= i < else_@.len() implies action_same(#[trigger] else_@[i], else_@[i]) by {
                vstd::std_specs::vec::axiom_vec_index_decreases(else_, i);
                lemma_action_refl(else_@[i]);
            }
        },
        Action::Move { by, .. } => lemma_json_refl(by),
        Action::Animate { to, .. } => lemma_json_refl(to),
        Action::Log { fields, .. } => lemma_jvals_refl(fields, fields.key_seq().len()),
        Action::CallSystem { args, .. } => lemma_jvals_refl(args, args.key_seq().len()),
        _ => {},
    }
}

proof fn lemma_behavior_refl(b: Behavior)
    requires
        numbers_reflexive(),
    ensures
        behavior_same(b, b),
    decreases b, 0nat,
{
    match b {
        Behavior::StateMachine { states, .. } => lemma_states_refl(states, states.key_seq().len()),
        Behavior::OnTick { actions } | Behavior::OnSignal { actions, .. } => {
            assert forall|i: int| 0 <= i < actions@.len() implies action_same(#[trigger] actions@[i], actions@[i]) by {
                vstd::std_specs::vec::axiom_vec_index_decreases(actions, i);
                lemma_action_refl(actions@[i]);
            }
        },
    }
}

proof fn lemma_states_refl(m: StrMap<StateDef>, k: nat)
    requires
        numbers_reflexive(),
        k <= m.key_seq().len(),
    ensures
        states_same(m, m, k),
    decreases m, k,
{
    if k > 0 {
        m.lemma_value_decreases(k - 1);
        lemma_states_refl(m, (k - 1) as nat);
        lemma_state_refl(m.value_seq()[k - 1]);
    }
}

proof fn lemma_state_refl(s: StateDef)
    requires
        numbers_reflexive(),
    ensures
        state_same(s, s),
    decreases s, 0nat,
{
    assert forall|i: int| 0 <= i < s.on_enter@.len() implies action_same(#[trigger] s.on_enter@[i], s.on_enter@[i]) by {
        vstd::std_specs::vec::axiom_vec_index_decreases(s.on_enter, i);
        lemma_action_refl(s.on_enter@[i]);
    }
    assert forall|i: int| 0 <= i < s.on_tick@.len() implies action_same(#[trigger] s.on_tick@[i], s.on_tick@[i]) by {
        vstd::std_specs::vec::axiom_vec_index_decreases(s.on_tick, i);
        lemma_action_refl(s.on_tick@[i]);
    }
    assert forall|i: int| 0 <= i < s.transitions@.len() implies transition_same(#[trigger] s.transitions@[i], s.transitions@[i]) by {
        lemma_expr_refl(s.transitions@[i].when);
    }
}

/// Every list of behaviors equals itself, numbers comparing as `Eq`
/// promises.
pub proof fn lemma_behaviors_refl(bs: Seq<Behavior>)
    requires
        numbers_reflexive(),
    ensures
        behaviors_same(bs, bs),
{
    assert forall|i: int| 0 <= i < bs.len() implies behavior_same(#[trigger] bs[i], bs[i]) by {
        lemma_behavior_refl(bs[i]);
    }
}

// ------------------------------------------------------- transitivity

/// Numbers equal to a common number are equal (`Eq` is transitive).
pub open spec fn numbers_transitive() -> bool {
    forall|a: serde_json::Number, b: serde_json::Number, c: serde_json::Number|
        #[trigger] number_same(a, b) && #[trigger] number_same(b, c) ==> number_same(a, c)
}

proof fn lemma_json_trans(a: Json, b: Json, c: Json)
    requires
        numbers_transitive(),
        json_same(a, b),
        json_same(b, c),
    ensures
        json_same(a, c),
    decreases a, 1nat,
{
    match a {
        Json::Array(xs) => {
            vstd::std_specs::vec::axiom_vec_decreases_to_view(xs);
            lemma_jsons_trans(xs@, b->Array_0@, c->Array_0@);
        },
        Json::Object(m) => lemma_jvals_trans(m, b->Object_0, c->Object_0, m.key_seq().len()),
        _ => {},
    }
}

proof fn lemma_jsons_trans(xs: Seq<Json>, ys: Seq<Json>, zs: Seq<Json>)
    requires
        numbers_transitive(),
        jsons_same(xs, ys),
        jsons_same(ys, zs),
    ensures
        jsons_same(xs, zs),
    decreases xs, 0nat,
{
    if xs.len() > 0 {
        lemma_jsons_trans(xs.drop_last(), ys.drop_last(), zs.drop_last());
        lemma_json_trans(xs.last(), ys.last(), zs.last());
    }
}

proof fn lemma_jvals_trans(m: StrMap<Json>, n: StrMap<Json>, o: StrMap<Json>, k: nat)
    requires
        numbers_transitive(),
        m.key_seq() == n.key_seq(),
        n.key_seq() == o.key_seq(),
        jvals_same(m, n, k),
        jvals_same(n, o, k),
    ensures
        jvals_same(m, o, k),
    decreases m, k,
{
    if k > 0 && k <= m.key_seq().len() {
        m.lemma_value_decreases(k - 1);
        lemma_jvals_trans(m, n, o, (k - 1) as nat);
        lemma_json_trans(m.value_seq()[k - 1], n.value_seq()[k - 1], o.value_seq()[k - 1]);
    }
}

proof fn lemma_jmap_trans(m: StrMap<Json>, n: StrMap<Json>, o: StrMap<Json>)
    requires
        numbers_transitive(),
        jmap_same(m, n),
        jmap_same(n, o),
    ensures
        jmap_same(m, o),
{
    lemma_jvals_trans(m, n, o, m.key_seq().len());
}

proof fn lemma_expr_trans(a: Expression, b: Expression, c: Expression)
    requires
        numbers_transitive(),
        expr_same(a, b),
        expr_same(b, c),
    ensures
        expr_same(a, c),
    decreases a,
{
    match a {
        Expression::Eq { eq: xs } => {
            let (ys, zs) = (b->eq, c->eq);
            assert forall|i: int| 0 <= i < xs@.len() implies expr_same(#[trigger] xs@[i], zs@[i]) by {
                vstd::std_specs::vec::axiom_vec_index_decreases(xs, i);
                lemma_expr_trans(xs@[i], ys@[i], zs@[i]);
            }
        },
        Expression::Neq { neq: xs } => {
            let (ys, zs) = (b->neq, c->neq);
            assert forall|i: int| 0 <= i < xs@.len() implies expr_same(#[trigger] xs@[i], zs@[i]) by {
                vstd::std_specs::vec::axiom_vec_index_decreases(xs, i);
                lemma_expr_trans(xs@[i], ys@[i], zs@[i]);
            }
        },
        Expression::Lt { lt: xs } => {
            let (ys, zs) = (b->lt, c->lt);
            assert forall|i: int| 0 <= i < xs@.len() implies expr_same(#[trigger] xs@[i], zs@[i]) by {
                vstd::std_specs::vec::axiom_vec_index_decreases(xs, i);
                lemma_expr_trans(xs@[i], ys@[i], zs@[i]);
            }
        },
        Expression::Gt { gt: xs } => {
            let (ys, zs) = (b->gt, c->gt);
            assert forall|i: int| 0 <= i < xs@.len() implies expr_same(#[trigger] xs@[i], zs@[i]) by {
                vstd::std_specs::vec::axiom_vec_index_decreases(xs, i);
                lemma_expr_trans(xs@[i], ys@[i], zs@[i]);
            }
        },
        Expression::Add { add: xs } => {
            let (ys, zs) = (b->add, c->add);
            assert forall|i: int| 0 <= i < xs@.len() implies expr_same(#[trigger] xs@[i], zs@[i]) by {
                vstd::std_specs::vec::axiom_vec_index_decreases(xs, i);
                lemma_expr_trans(xs@[i], ys@[i], zs@[i]);
            }
        },
        Expression::Sub { sub: xs } => {
            let (ys, zs) = (b->sub, c->sub);
            assert forall|i: int| 0 <= i < xs@.len() implies expr_same(#[trigger] xs@[i], zs@[i]) by {
                vstd::std_specs::vec::axiom_vec_index_decreases(xs, i);
                lemma_expr_trans(xs@[i], ys@[i], zs@[i]);
            }
        },
        Expression::Literal(j) => lemma_json_trans(j, b->Literal_0, c->Literal_0),
        _ => {},
    }
}

proof fn lemma_action_trans(a: Action, b: Action, c: Action)
    requires
        numbers_transitive(),
        action_same(a, b),
        action_same(b, c),
    ensures
        action_same(a, c),
    decreases a, 0nat,
{
    match a {
        Action::SetState { value, .. } => lemma_json_trans(value, b->SetState_value, c->SetState_value),
        Action::Emit { args, .. } => lemma_jmap_trans(args, b->Emit_args, c->Emit_args),
        Action::Spawn { components, behaviors, .. } => {
            lemma_jmap_trans(components, b->Spawn_components, c->Spawn_components);
            let (ys, zs) = (b->Spawn_behaviors, c->Spawn_behaviors);
            assert forall|i: int| 0 <= i < behaviors@.len() implies behavior_same(#[trigger] behaviors@[i], zs@[i]) by {
                vstd::std_specs::vec::axiom_vec_index_decreases(behaviors, i);
                lemma_behavior_trans(behaviors@[i], ys@[i], zs@[i]);
            }
        },
        Action::If { cond, then_, else_ } => {
            lemma_expr_trans(cond, b->cond, c->cond);
            let (t2, t3) = (b->then_, c->then_);
            assert forall|i: int| 0 <= i < then_@.len() implies action_same(#[trigger] then_@[i], t3@[i]) by {
                vstd::std_specs::vec::axiom_vec_index_decreases(then_, i);
                lemma_action_trans(then_@[i], t2@[i], t3@[i]);
            }
            let (e2, e3) = (b->else_, c->else_);
            assert forall|i: int| 0 <= i < else_@.len() implies action_same(#[trigger] else_@[i], e3@[i]) by {
                vstd::std_specs::vec::axiom_vec_index_decreases(else_, i);
                lemma_action_trans(else_@[i], e2@[i], e3@[i]);
            }
        },
        Action::Move { by, .. } => lemma_json_trans(by, b->by, c->by),
        Action::Animate { to, .. } => lemma_json_trans(to, b->Animate_to, c->Animate_to),
        Action::Log { fields, .. } => lemma_jmap_trans(fields, b->fields, c->fields),
        Action::CallSystem { args, .. } => lemma_jmap_trans(args, b->CallSystem_args, c->CallSystem_args),
        _ => {},
    }
}

proof fn lemma_behavior_trans(a: Behavior, b: Behavior, c: Behavior)
    requires
        numbers_transitive(),
        behavior_same(a, b),
        behavior_same(b, c),
    ensures
        behavior_same(a, c),
    decreases a, 0nat,
{
    match a {
        Behavior::StateMachine { states, .. } =>
            lemma_states_trans(states, b->states, c->states, states.key_seq().len()),
        Behavior::OnTick { actions } => {
            let (ys, zs) = (b->OnTick_actions, c->OnTick_actions);
            assert forall|i: int| 0 <= i < actions@.len() implies action_same(#[trigger] actions@[i], zs@[i]) by {
                vstd::std_specs::vec::axiom_vec_index_decreases(actions, i);
                lemma_action_trans(actions@[i], ys@[i], zs@[i]);
            }
        },
        Behavior::OnSignal { actions, .. } => {
            let (ys, zs) = (b->OnSignal_actions, c->OnSignal_actions);
            assert forall|i: int| 0 <= i < actions@.len() implies action_same(#[trigger] actions@[i], zs@[i]) by {
                vstd::std_specs::vec::axiom_vec_index_decreases(actions, i);
                lemma_action_trans(actions@[i], ys@[i], zs@[i]);
            }
        },
    }
}

proof fn lemma_states_trans(m: StrMap<StateDef>, n: StrMap<StateDef>, o: StrMap<StateDef>, k: nat)
    requires
        numbers_transitive(),
        m.key_seq() == n.key_seq(),
        n.key_seq() == o.key_seq(),
        states_same(m, n, k),
        states_same(n, o, k),
    ensures
        states_same(m, o, k),
    decreases m, k,
{
    if k > 0 && k <= m.key_seq().len() {
        m.lemma_value_decreases(k - 1);
        lemma_states_trans(m, n, o, (k - 1) as nat);
        lemma_state_trans(m.value_seq()[k - 1], n.value_seq()[k - 1], o.value_seq()[k - 1]);
    }
}

proof fn lemma_state_trans(a: StateDef, b: StateDef, c: StateDef)
    requires
        numbers_transitive(),
        state_same(a, b),
        state_same(b, c),
    ensures
        state_same(a, c),
    decreases a, 0nat,
{
    assert forall|i: int| 0 <= i < a.on_enter@.len() implies action_same(#[trigger] a.on_enter@[i], c.on_enter@[i]) by {
        vstd::std_specs::vec::axiom_vec_index_decreases(a.on_enter, i);
        lemma_action_trans(a.on_enter@[i], b.on_enter@[i], c.on_enter@[i]);
    }
    assert forall|i: int| 0 <= i < a.on_tick@.len() implies action_same(#[trigger] a.on_tick@[i], c.on_tick@[i]) by {
        vstd::std_specs::vec::axiom_vec_index_decreases(a.on_tick, i);
        lemma_action_trans(a.on_tick@[i], b.on_tick@[i], c.on_tick@[i]);
    }
    assert forall|i: int| 0 <= i < a.transitions@.len() implies transition_same(#[trigger] a.transitions@[i], c.transitions@[i]) by {
        assert(transition_same(a.transitions@[i], b.transitions@[i]));
        assert(transition_same(b.transitions@[i], c.transitions@[i]));
        lemma_expr_trans(a.transitions@[i].when, b.transitions@[i].when, c.transitions@[i].when);
    }
}

/// Behavior lists equal to a common list are equal, numbers comparing as
/// `Eq` promises.
pub proof fn lemma_behaviors_trans(xs: Seq<Behavior>, ys: Seq<Behavior>, zs: Seq<Behavior>)
    requires
        numbers_transitive(),
        behaviors_same(xs, ys),
        behaviors_same(ys, zs),
    ensures
        behaviors_same(xs, zs),
{
    assert forall|i: int| 0 <= i < xs.len() implies behavior_same(#[trigger] xs[i], zs[i]) by {
        lemma_behavior_trans(xs[i], ys[i], zs[i]);
    }
}

} // verus!
