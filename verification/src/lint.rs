//! Static checks over a scene: signals nobody listens to, states no
//! transition reaches, components no action reads, and references to
//! nodes that do not exist.

use vstd::prelude::*;
use crate::behavior::{Action, Behavior, Expression, StateDef, Target, Transition};
use crate::scene::{ComponentSpec, Node, NodeRegistry, Scene};
use crate::strmap::{StrMap, keys_ascending};
use crate::replay::ascending_set;
use crate::validate::lemma_ascending_unique;
use crate::text::{push_str, push_char, to_chars, str_eq, seq_lt, compare_str, Collation, lemma_seq_lt_irreflexive, lemma_seq_lt_asymmetric, lemma_seq_lt_transitive, lemma_seq_lt_total};

verus! {

broadcast use vstd::string::group_string_axioms;

/// How serious a finding is.
#[derive(Debug, Clone, Copy, PartialEq, Eq, Structural)]
pub enum LintSeverity {
    Warning,
    Error,
}

/// What a finding is about.
#[derive(Debug, Clone, Copy, PartialEq, Eq, Hash, PartialOrd, Ord, Structural)]
pub enum LintCode {
    SignalWithNoSubscribers,
    StateUnreachable,
    UnusedComponent,
    UndefinedNodeReference,
    ActionReferencesMissing,
    ResourcePathUnresolved,
}

/// The snake-case name of a code.
pub open spec fn code_text(c: LintCode) -> Seq<char> {
    match c {
        LintCode::SignalWithNoSubscribers => "signal_with_no_subscribers"@,
        LintCode::StateUnreachable => "state_unreachable"@,
        LintCode::UnusedComponent => "unused_component"@,
        LintCode::UndefinedNodeReference => "undefined_node_reference"@,
        LintCode::ActionReferencesMissing => "action_references_missing"@,
        LintCode::ResourcePathUnresolved => "resource_path_unresolved"@,
    }
}

impl LintCode {
    /// The snake-case name of the code.
    pub fn as_str(self) -> (r: &'static str)
        ensures
            r@ == code_text(self),
    {
        match self {
            LintCode::SignalWithNoSubscribers => "signal_with_no_subscribers",
            LintCode::StateUnreachable => "state_unreachable",
            LintCode::UnusedComponent => "unused_component",
            LintCode::UndefinedNodeReference => "undefined_node_reference",
            LintCode::ActionReferencesMissing => "action_references_missing",
            LintCode::ResourcePathUnresolved => "resource_path_unresolved",
        }
    }
}

/// One finding.
#[derive(Debug, Clone)]
pub struct LintWarning {
    pub code: LintCode,
    pub severity: LintSeverity,
    pub node: Option<String>,
    pub message: String,
    pub suggestion: Option<String>,
}

/// A finding with its texts taken by their characters.
pub struct LintView {
    pub code: LintCode,
    pub severity: LintSeverity,
    pub node: Option<Seq<char>>,
    pub message: Seq<char>,
    pub suggestion: Option<Seq<char>>,
}

/// The characters of an optional string.
pub open spec fn opt_text(o: Option<String>) -> Option<Seq<char>> {
    match o {
        Some(s) => Some(s@),
        None => None,
    }
}

impl LintWarning {
    pub open spec fn view(&self) -> LintView {
        LintView {
            code: self.code,
            severity: self.severity,
            node: opt_text(self.node),
            message: self.message@,
            suggestion: opt_text(self.suggestion),
        }
    }
}

/// The views of a list of findings.
pub open spec fn views(ws: Seq<LintWarning>) -> Seq<LintView> {
    ws.map_values(|w: LintWarning| w@)
}

/// A finding about node `node`, with a suggestion.
pub open spec fn finding(code: LintCode, severity: LintSeverity, node: Seq<char>, message: Seq<char>, suggestion: Seq<char>) -> LintView {
    LintView { code, severity, node: Some(node), message, suggestion: Some(suggestion) }
}

fn make_finding(code: LintCode, severity: LintSeverity, node: &str, message: String, suggestion: String) -> (r: LintWarning)
    ensures
        r@ == finding(code, severity, node@, message@, suggestion@),
{
    LintWarning { code, severity, node: Some(node.to_string()), message, suggestion: Some(suggestion) }
}

/// `a + b + c` as a new string.
fn concat3(a: &str, b: &str, c: &str) -> (r: String)
    ensures
        r@ == a@ + b@ + c@,
{
    let mut out = String::new();
    push_str(&mut out, a);
    push_str(&mut out, b);
    push_str(&mut out, c);
    out
}

/// `a + b + c + d + e` as a new string.
fn concat5(a: &str, b: &str, c: &str, d: &str, e: &str) -> (r: String)
    ensures
        r@ == a@ + b@ + c@ + d@ + e@,
{
    let mut out = String::new();
    push_str(&mut out, a);
    push_str(&mut out, b);
    push_str(&mut out, c);
    push_str(&mut out, d);
    push_str(&mut out, e);
    out
}

fn push_views(out: &mut Vec<LintWarning>, w: LintWarning)
    ensures
        views(final(out)@) == views(old(out)@).push(w@),
{
    let ghost before = out@;
    out.push(w);
    assert(views(out@) =~= views(before).push(w@));
}

// ---------------------------------------------------------- action lists

/// The action lists of a behavior: each state's `on_enter` then `on_tick`
/// (states in name order), or the behavior's own list.
pub open spec fn behavior_lists(b: Behavior) -> Seq<Seq<Action>> {
    match b {
        Behavior::StateMachine { states, .. } =>
            states.value_seq().map_values(|s: StateDef| seq![s.on_enter@, s.on_tick@]).flatten(),
        Behavior::OnTick { actions } => seq![actions@],
        Behavior::OnSignal { actions, .. } => seq![actions@],
    }
}

fn actions_in_behavior(b: &Behavior) -> (r: Vec<&Vec<Action>>)
    ensures
        r@.map_values(|v: &Vec<Action>| v@) == behavior_lists(*b),
{
    match b {
        Behavior::StateMachine { states, .. } => {
            let ghost pairs = states.value_seq().map_values(|s: StateDef| seq![s.on_enter@, s.on_tick@]);
            states.proof_keys();
            let mut out: Vec<&Vec<Action>> = Vec::new();
            let n = states.len();
            let mut i: usize = 0;
            while i < n
                invariant
                    i <= n == states.key_seq().len() == states.value_seq().len(),
                    pairs == states.value_seq().map_values(|s: StateDef| seq![s.on_enter@, s.on_tick@]),
                    out@.map_values(|v: &Vec<Action>| v@) == pairs.take(i as int).flatten(),
                decreases n - i,
            {
                let s = states.value_at(i);
                out.push(&s.on_enter);
                out.push(&s.on_tick);
                proof {
                    assert(pairs.take(i + 1) =~= pairs.take(i as int).push(pairs[i as int]));
                    pairs.take(i as int).lemma_flatten_push(pairs[i as int]);
                    assert(out@.map_values(|v: &Vec<Action>| v@) =~= pairs.take(i + 1).flatten());
                }
                i += 1;
            }
            assert(pairs.take(n as int) =~= pairs);
            out
        },
        Behavior::OnTick { actions } => {
            let out = vec![actions];
            assert(out@.map_values(|v: &Vec<Action>| v@) =~= seq![actions@]);
            out
        },
        Behavior::OnSignal { actions, .. } => {
            let out = vec![actions];
            assert(out@.map_values(|v: &Vec<Action>| v@) =~= seq![actions@]);
            out
        },
    }
}

/// The action lists of all of a node's behaviors, in order.
pub open spec fn node_lists(n: Node) -> Seq<Seq<Action>> {
    n.behaviors@.map_values(|b: Behavior| behavior_lists(b)).flatten()
}

// --------------------------------------------------- per-list findings

/// `(a + b).contains(x)` splits over the two halves.
pub proof fn lemma_contains_concat<T>(a: Seq<T>, b: Seq<T>, x: T)
    ensures
        (a + b).contains(x) <==> a.contains(x) || b.contains(x),
{
    if (a + b).contains(x) {
        let i = choose|i: int| 0 <= i < (a + b).len() && (a + b)[i] == x;
        if i < a.len() {
            assert(a[i] == x);
        } else {
            assert(b[i - a.len()] == x);
        }
    }
    if a.contains(x) {
        let i = choose|i: int| 0 <= i < a.len() && a[i] == x;
        assert((a + b)[i] == x);
    }
    if b.contains(x) {
        let i = choose|i: int| 0 <= i < b.len() && b[i] == x;
        assert((a + b)[a.len() + i] == x);
    }
}

/// The signals a list of actions emits, nested branches included, in order.
pub open spec fn emitted_in(acts: Seq<Action>) -> Seq<Seq<char>>
    decreases acts,
{
    if acts.len() == 0 {
        seq![]
    } else {
        emitted_in(acts.drop_last()) + emitted_by(acts.last())
    }
}

/// The signals one action emits.
pub open spec fn emitted_by(a: Action) -> Seq<Seq<char>>
    decreases a,
{
    match a {
        Action::Emit { signal, .. } => seq![signal@],
        Action::If { then_, else_, .. } => emitted_in(then_@) + emitted_in(else_@),
        _ => seq![],
    }
}

/// A map from strings to strings, by characters.
pub open spec fn text_map(m: Map<Seq<char>, String>) -> Map<Seq<char>, Seq<char>> {
    m.map_values(|v: String| v@)
}

/// `m` with each of `sigs` not yet present mapped to `owner`.
pub open spec fn with_emits(m: Map<Seq<char>, Seq<char>>, sigs: Seq<Seq<char>>, owner: Seq<char>) -> Map<Seq<char>, Seq<char>> {
    Map::new(
        |s: Seq<char>| m.contains_key(s) || sigs.contains(s),
        |s: Seq<char>| if m.contains_key(s) { m[s] } else { owner },
    )
}

proof fn lemma_with_emits_concat(m: Map<Seq<char>, Seq<char>>, a: Seq<Seq<char>>, b: Seq<Seq<char>>, owner: Seq<char>)
    ensures
        with_emits(with_emits(m, a, owner), b, owner) == with_emits(m, a + b, owner),
{
    assert forall|s: Seq<char>| (a + b).contains(s) <==> a.contains(s) || b.contains(s) by {
        lemma_contains_concat(a, b, s);
    }
    assert(with_emits(with_emits(m, a, owner), b, owner) =~= with_emits(m, a + b, owner));
}

proof fn lemma_with_emits_empty(m: Map<Seq<char>, Seq<char>>, owner: Seq<char>)
    ensures
        with_emits(m, seq![], owner) == m,
{
    assert(with_emits(m, seq![], owner) =~= m);
}

/// Records, for each signal the actions emit, `owner` as its first
/// emitter unless one is already recorded.
fn collect_emitted(acts: &[Action], owner: &str, out: &mut StrMap<String>)
    ensures
        text_map(final(out)@) == with_emits(text_map(old(out)@), emitted_in(acts@), owner@),
    decreases acts@,
{
    let ghost start = text_map(out@);
    let mut i: usize = 0;
    proof { lemma_with_emits_empty(start, owner@); }
    assert(acts@.take(0) =~= seq![]);
    while i < acts.len()
        invariant
            i <= acts@.len(),
            text_map(out@) == with_emits(start, emitted_in(acts@.take(i as int)), owner@),
        decreases acts.len() - i,
    {
        let ghost before = text_map(out@);
        let a = &acts[i];
        assert(acts@.take(i + 1).drop_last() =~= acts@.take(i as int));
        assert(decreases_to!(acts@ => acts@[i as int]));
        match a {
            Action::Emit { signal, .. } => {
                if !out.contains_key(signal.as_str()) {
                    let o = owner.to_string();
                    assert(o@ == owner@);
                    out.insert(signal.clone(), o);
                }
                proof {
                    let one = seq![signal@];
                    assert(one[0] == signal@);
                    assert forall|k: Seq<char>| one.contains(k) <==> k == signal@ by {
                        if one.contains(k) {
                            let t = choose|t: int| 0 <= t < one.len() && one[t] == k;
                            assert(t == 0);
                        }
                    }
                    assert(text_map(out@) =~= with_emits(before, one, owner@));
                }
            },
            Action::If { then_, else_, .. } => {
                assert(decreases_to!(acts@ => then_@));
                assert(decreases_to!(acts@ => else_@));
                collect_emitted(then_.as_slice(), owner, out);
                collect_emitted(else_.as_slice(), owner, out);
                proof { lemma_with_emits_concat(before, emitted_in(then_@), emitted_in(else_@), owner@); }
            },
            _ => {
                proof { lemma_with_emits_empty(before, owner@); }
            },
        }
        proof {
            lemma_with_emits_concat(start, emitted_in(acts@.take(i as int)), emitted_by(acts@[i as int]), owner@);
        }
        i += 1;
    }
    assert(acts@.take(acts@.len() as int) =~= acts@);
}

/// A finding for a target naming a node that does not exist.
pub open spec fn missing_target(t: Target, owner: Seq<char>, known: Set<Seq<char>>, lead: Seq<char>, tail: Seq<char>) -> Seq<LintView> {
    match t {
        Target::Node { id } => if known.contains(id@) {
            seq![]
        } else {
            seq![finding(LintCode::ActionReferencesMissing, LintSeverity::Error, owner,
                lead + id@ + "\" but no node with that id exists"@,
                "Define a node with id \""@ + id@ + tail)]
        },
        _ => seq![],
    }
}

/// The findings for actions that target a node that does not exist.
pub open spec fn target_findings(acts: Seq<Action>, owner: Seq<char>, known: Set<Seq<char>>) -> Seq<LintView>
    decreases acts,
{
    if acts.len() == 0 {
        seq![]
    } else {
        target_findings(acts.drop_last(), owner, known) + target_findings_of(acts.last(), owner, known)
    }
}

/// The findings for one action that targets a node that does not exist.
pub open spec fn target_findings_of(a: Action, owner: Seq<char>, known: Set<Seq<char>>) -> Seq<LintView>
    decreases a,
{
    let lead = "action references node \""@;
    let tail = "\" or change the target"@;
    match a {
        Action::SetState { target, .. } => missing_target(target, owner, known, lead, tail),
        Action::Move { target, .. } => missing_target(target, owner, known, lead, tail),
        Action::Animate { target, .. } => missing_target(target, owner, known, lead, tail),
        Action::Destroy { target } => missing_target(target, owner, known, lead, tail),
        Action::Spawn { parent, .. } => missing_target(parent, owner, known,
            "spawn parent references node \""@, "\" or change the parent"@),
        Action::If { then_, else_, .. } =>
            target_findings(then_@, owner, known) + target_findings(else_@, owner, known),
        _ => seq![],
    }
}

fn check_target(t: &Target, owner: &str, known: &StrMap<bool>, lead: &str, tail: &str, out: &mut Vec<LintWarning>)
    ensures
        views(final(out)@) == views(old(out)@) + missing_target(*t, owner@, known@.dom(), lead@, tail@),
{
    let ghost before = views(out@);
    match t {
        Target::Node { id } => {
            if !known.contains_key(id.as_str()) {
                let msg = concat3(lead, id.as_str(), "\" but no node with that id exists");
                let sug = concat3("Define a node with id \"", id.as_str(), tail);
                push_views(out, make_finding(LintCode::ActionReferencesMissing, LintSeverity::Error, owner, msg, sug));
            }
        },
        _ => {},
    }
    assert(views(out@) =~= before + missing_target(*t, owner@, known@.dom(), lead@, tail@));
}

/// Reports every action target (and spawn parent) naming a node that is
/// not in `known`.
fn check_targets_in_actions(acts: &[Action], owner: &str, known: &StrMap<bool>, out: &mut Vec<LintWarning>)
    ensures
        views(final(out)@) == views(old(out)@) + target_findings(acts@, owner@, known@.dom()),
    decreases acts@,
{
    let ghost start = views(out@);
    let mut i: usize = 0;
    assert(acts@.take(0) =~= seq![]);
    assert(start + target_findings(seq![], owner@, known@.dom()) =~= start);
    while i < acts.len()
        invariant
            i <= acts@.len(),
            views(out@) == start + target_findings(acts@.take(i as int), owner@, known@.dom()),
        decreases acts.len() - i,
    {
        let ghost before = views(out@);
        let a = &acts[i];
        assert(acts@.take(i + 1).drop_last() =~= acts@.take(i as int));
        assert(decreases_to!(acts@ => acts@[i as int]));
        match a {
            Action::SetState { target, .. } => check_target(target, owner, known, "action references node \"", "\" or change the target", out),
            Action::Move { target, .. } => check_target(target, owner, known, "action references node \"", "\" or change the target", out),
            Action::Animate { target, .. } => check_target(target, owner, known, "action references node \"", "\" or change the target", out),
            Action::Destroy { target } => check_target(target, owner, known, "action references node \"", "\" or change the target", out),
            Action::Spawn { parent, .. } => check_target(parent, owner, known, "spawn parent references node \"", "\" or change the parent", out),
            Action::If { then_, else_, .. } => {
                assert(decreases_to!(acts@ => then_@));
                assert(decreases_to!(acts@ => else_@));
                check_targets_in_actions(then_.as_slice(), owner, known, out);
                check_targets_in_actions(else_.as_slice(), owner, known, out);
            },
            _ => {},
        }
        proof {
            assert(views(out@) =~= before + target_findings_of(acts@[i as int], owner@, known@.dom()));
            assert(acts@.take(i + 1).last() == acts@[i as int]);
            assert(target_findings(acts@.take(i + 1), owner@, known@.dom()) == target_findings(acts@.take(i as int), owner@, known@.dom()) + target_findings_of(acts@[i as int], owner@, known@.dom()));
            assert(views(out@) =~= start + target_findings(acts@.take(i + 1), owner@, known@.dom()));
        }
        i += 1;
    }
    assert(acts@.take(acts@.len() as int) =~= acts@);
}

/// The findings for `call_system` actions (system names are not checked
/// against a registry, so each call is reported for review).
pub open spec fn system_findings(acts: Seq<Action>, owner: Seq<char>) -> Seq<LintView>
    decreases acts,
{
    if acts.len() == 0 {
        seq![]
    } else {
        system_findings(acts.drop_last(), owner) + system_findings_of(acts.last(), owner)
    }
}

/// The finding for one `call_system` action, branches included.
pub open spec fn system_findings_of(a: Action, owner: Seq<char>) -> Seq<LintView>
    decreases a,
{
    match a {
        Action::CallSystem { system, .. } => seq![finding(LintCode::ActionReferencesMissing, LintSeverity::Warning, owner,
            "call_system references system \""@ + system@ + "\" \u{2014} registry lookup not yet implemented for lint"@,
            "Verify \""@ + system@ + "\" is registered via craft_system!"@)],
        Action::If { then_, else_, .. } => system_findings(then_@, owner) + system_findings(else_@, owner),
        _ => seq![],
    }
}

fn check_action_system_names(acts: &[Action], owner: &str, out: &mut Vec<LintWarning>)
    ensures
        views(final(out)@) == views(old(out)@) + system_findings(acts@, owner@),
    decreases acts@,
{
    let ghost start = views(out@);
    let mut i: usize = 0;
    assert(acts@.take(0) =~= seq![]);
    assert(start + system_findings(seq![], owner@) =~= start);
    while i < acts.len()
        invariant
            i <= acts@.len(),
            views(out@) == start + system_findings(acts@.take(i as int), owner@),
        decreases acts.len() - i,
    {
        let ghost before = views(out@);
        let a = &acts[i];
        assert(acts@.take(i + 1).drop_last() =~= acts@.take(i as int));
        assert(decreases_to!(acts@ => acts@[i as int]));
        match a {
            Action::CallSystem { system, .. } => {
                let msg = concat3("call_system references system \"", system.as_str(), "\" \u{2014} registry lookup not yet implemented for lint");
                let sug = concat3("Verify \"", system.as_str(), "\" is registered via craft_system!");
                push_views(out, make_finding(LintCode::ActionReferencesMissing, LintSeverity::Warning, owner, msg, sug));
            },
            Action::If { then_, else_, .. } => {
                assert(decreases_to!(acts@ => then_@));
                assert(decreases_to!(acts@ => else_@));
                check_action_system_names(then_.as_slice(), owner, out);
                check_action_system_names(else_.as_slice(), owner, out);
            },
            _ => {},
        }
        proof {
            assert(views(out@) =~= before + system_findings_of(acts@[i as int], owner@));
            assert(acts@.take(i + 1).last() == acts@[i as int]);
            assert(system_findings(acts@.take(i + 1), owner@) == system_findings(acts@.take(i as int), owner@) + system_findings_of(acts@[i as int], owner@));
            assert(views(out@) =~= start + system_findings(acts@.take(i + 1), owner@));
        }
        i += 1;
    }
    assert(acts@.take(acts@.len() as int) =~= acts@);
}

/// The findings for `emit` actions with an empty signal name.
pub open spec fn empty_signal_findings(acts: Seq<Action>, owner: Seq<char>) -> Seq<LintView>
    decreases acts,
{
    if acts.len() == 0 {
        seq![]
    } else {
        empty_signal_findings(acts.drop_last(), owner) + empty_signal_findings_of(acts.last(), owner)
    }
}

/// The finding for one `emit` action with an empty signal name.
pub open spec fn empty_signal_findings_of(a: Action, owner: Seq<char>) -> Seq<LintView>
    decreases a,
{
    match a {
        Action::Emit { signal, .. } => if signal@.len() == 0 {
            seq![finding(LintCode::ActionReferencesMissing, LintSeverity::Error, owner,
                "emit action has an empty signal name"@, "Provide a non-empty signal name"@)]
        } else {
            seq![]
        },
        Action::If { then_, else_, .. } => empty_signal_findings(then_@, owner) + empty_signal_findings(else_@, owner),
        _ => seq![],
    }
}

fn check_action_signal_names(acts: &[Action], owner: &str, out: &mut Vec<LintWarning>)
    ensures
        views(final(out)@) == views(old(out)@) + empty_signal_findings(acts@, owner@),
    decreases acts@,
{
    let ghost start = views(out@);
    let mut i: usize = 0;
    assert(acts@.take(0) =~= seq![]);
    assert(start + empty_signal_findings(seq![], owner@) =~= start);
    while i < acts.len()
        invariant
            i <= acts@.len(),
            views(out@) == start + empty_signal_findings(acts@.take(i as int), owner@),
        decreases acts.len() - i,
    {
        let ghost before = views(out@);
        let a = &acts[i];
        assert(acts@.take(i + 1).drop_last() =~= acts@.take(i as int));
        assert(decreases_to!(acts@ => acts@[i as int]));
        match a {
            Action::Emit { signal, .. } => {
                if signal.as_str().is_empty() {
                    let msg = concat3("emit action has an empty signal name", "", "");
                    let sug = concat3("Provide a non-empty signal name", "", "");
                    proof { reveal_strlit(""); }
                    push_views(out, make_finding(LintCode::ActionReferencesMissing, LintSeverity::Error, owner, msg, sug));
                }
            },
            Action::If { then_, else_, .. } => {
                assert(decreases_to!(acts@ => then_@));
                assert(decreases_to!(acts@ => else_@));
                check_action_signal_names(then_.as_slice(), owner, out);
                check_action_signal_names(else_.as_slice(), owner, out);
            },
            _ => {},
        }
        proof {
            assert(views(out@) =~= before + empty_signal_findings_of(acts@[i as int], owner@));
            assert(acts@.take(i + 1).last() == acts@[i as int]);
            assert(empty_signal_findings(acts@.take(i + 1), owner@) == empty_signal_findings(acts@.take(i as int), owner@) + empty_signal_findings_of(acts@[i as int], owner@));
            assert(views(out@) =~= start + empty_signal_findings(acts@.take(i + 1), owner@));
        }
        i += 1;
    }
    assert(acts@.take(acts@.len() as int) =~= acts@);
}

// ------------------------------------------------------ component reads

/// No `.` in `s`.
pub open spec fn dot_free(s: Seq<char>) -> bool {
    forall|i: int| 0 <= i < s.len() ==> s[i] != '.'
}

/// `i` is the position of the first `.` in `s` (`s.len()` when none).
pub open spec fn is_first_dot(s: Seq<char>, i: int) -> bool {
    &&& 0 <= i <= s.len()
    &&& dot_free(s.take(i))
    &&& (i == s.len() || s[i] == '.')
}

/// The position of the first `.` in `s`, or `s.len()`.
pub open spec fn first_dot(s: Seq<char>) -> int {
    choose|i: int| is_first_dot(s, i)
}

pub(crate) proof fn lemma_first_dot(s: Seq<char>, i: int)
    requires
        is_first_dot(s, i),
    ensures
        first_dot(s) == i,
{
    let j = first_dot(s);
    assert(is_first_dot(s, j));
    if j < i {
        assert(s.take(i)[j] == s[j]);
    } else if i < j {
        assert(s.take(j)[i] == s[i]);
    }
}

pub(crate) fn find_dot(cs: &Vec<char>, from: usize) -> (i: usize)
    requires
        from <= cs@.len(),
    ensures
        from <= i <= cs@.len(),
        is_first_dot(cs@.skip(from as int), i - from),
{
    let mut i = from;
    while i < cs.len() && cs[i] != '.'
        invariant
            from <= i <= cs@.len(),
            dot_free(cs@.skip(from as int).take(i - from)),
        decreases cs.len() - i,
    {
        assert(cs@.skip(from as int).take(i + 1 - from) =~= cs@.skip(from as int).take(i - from).push(cs@[i as int]));
        i += 1;
    }
    i
}

pub(crate) fn chars_between(cs: &Vec<char>, a: usize, b: usize) -> (r: String)
    requires
        a <= b <= cs@.len(),
    ensures
        r@ == cs@.subrange(a as int, b as int),
{
    let mut out = String::new();
    let mut i = a;
    while i < b
        invariant
            a <= i <= b <= cs@.len(),
            out@ == cs@.subrange(a as int, i as int),
        decreases b - i,
    {
        push_char(&mut out, cs[i]);
        assert(cs@.subrange(a as int, i + 1) =~= cs@.subrange(a as int, i as int).push(cs@[i as int]));
        i += 1;
    }
    out
}

/// The component a reference `self.key...` reads: the part after
/// `self.` up to the next `.`; none for other references.
pub open spec fn ref_key(path: Seq<char>) -> Option<Seq<char>> {
    let i = first_dot(path);
    if i < path.len() && path.take(i) == "self"@ {
        let rest = path.skip(i + 1);
        Some(rest.take(first_dot(rest)))
    } else {
        None
    }
}

fn self_ref_key(path: &str) -> (r: Option<String>)
    ensures
        opt_text(r) == ref_key(path@),
{
    let cs = to_chars(path);
    let i = find_dot(&cs, 0);
    assert(cs@.skip(0) =~= cs@);
    proof { lemma_first_dot(path@, i as int); reveal_strlit("self"); }
    if i < cs.len() && i == 4 && cs[0] == 's' && cs[1] == 'e' && cs[2] == 'l' && cs[3] == 'f' {
        assert(path@.take(4) =~= "self"@);
        let j = find_dot(&cs, i + 1);
        proof { lemma_first_dot(path@.skip(i + 1), j - (i + 1)); }
        let k = chars_between(&cs, i + 1, j);
        assert(k@ =~= path@.skip(i + 1).take(j - (i + 1)));
        Some(k)
    } else {
        proof {
            if i < path@.len() && path@.take(i as int) == "self"@ {
                assert("self"@.len() == 4);
                assert(path@.take(i as int).len() == i);
                assert(i == 4);
                assert(path@.take(4)[0] == 's' && path@.take(4)[1] == 'e' && path@.take(4)[2] == 'l' && path@.take(4)[3] == 'f');
            }
        }
        None
    }
}

/// The union of a sequence of sets.
pub open spec fn union_all(ss: Seq<Set<Seq<char>>>) -> Set<Seq<char>>
    decreases ss.len(),
{
    if ss.len() == 0 {
        Set::empty()
    } else {
        union_all(ss.drop_last()).union(ss.last())
    }
}

/// The components of the running node an expression reads.
pub open spec fn expr_refs(e: Expression) -> Set<Seq<char>>
    decreases e,
{
    match e {
        Expression::Ref { path } => match ref_key(path@) {
            Some(k) => set![k],
            None => Set::empty(),
        },
        Expression::Eq { eq } => exprs_refs(eq@),
        Expression::Neq { neq } => exprs_refs(neq@),
        Expression::Lt { lt } => exprs_refs(lt@),
        Expression::Gt { gt } => exprs_refs(gt@),
        Expression::Add { add } => exprs_refs(add@),
        Expression::Sub { sub } => exprs_refs(sub@),
        _ => Set::empty(),
    }
}

/// The components of the running node a list of expressions reads.
pub open spec fn exprs_refs(es: Seq<Expression>) -> Set<Seq<char>>
    decreases es,
{
    if es.len() == 0 {
        Set::empty()
    } else {
        exprs_refs(es.drop_last()).union(expr_refs(es.last()))
    }
}

/// Adds to `out` the components of the running node an expression reads.
fn collect_refs_from_expr(e: &Expression, out: &mut StrMap<bool>)
    ensures
        final(out)@.dom() == old(out)@.dom().union(expr_refs(*e)),
    decreases *e,
{
    match e {
        Expression::Ref { path } => {
            match self_ref_key(path.as_str()) {
                Some(k) => {
                    let ghost kv = k@;
                    out.insert(k, true);
                    assert(out@.dom() =~= old(out)@.dom().union(set![kv]));
                },
                None => {
                    assert(out@.dom() =~= old(out)@.dom().union(Set::empty()));
                },
            }
        },
        Expression::Eq { eq } => collect_refs_from_exprs(eq, out),
        Expression::Neq { neq } => collect_refs_from_exprs(neq, out),
        Expression::Lt { lt } => collect_refs_from_exprs(lt, out),
        Expression::Gt { gt } => collect_refs_from_exprs(gt, out),
        Expression::Add { add } => collect_refs_from_exprs(add, out),
        Expression::Sub { sub } => collect_refs_from_exprs(sub, out),
        _ => {
            assert(out@.dom() =~= old(out)@.dom().union(Set::empty()));
        },
    }
}

fn collect_refs_from_exprs(es: &Vec<Expression>, out: &mut StrMap<bool>)
    ensures
        final(out)@.dom() == old(out)@.dom().union(exprs_refs(es@)),
    decreases es,
{
    let ghost start = out@.dom();
    let mut i: usize = 0;
    assert(es@.take(0) =~= seq![]);
    assert(start.union(Set::empty()) =~= start);
    while i < es.len()
        invariant
            i <= es@.len(),
            out@.dom() == start.union(exprs_refs(es@.take(i as int))),
        decreases es.len() - i,
    {
        assert(es@.take(i + 1).drop_last() =~= es@.take(i as int));
        assert(es@.take(i + 1).last() == es@[i as int]);
        assert(decreases_to!(es => es@[i as int]));
        collect_refs_from_expr(&es[i], out);
        assert(out@.dom() =~= start.union(exprs_refs(es@.take(i + 1))));
        i += 1;
    }
    assert(es@.take(es@.len() as int) =~= es@);
}

/// The components of the running node an action reads: keys it writes on
/// the node itself, and references in branch conditions.
pub open spec fn action_refs(a: Action) -> Set<Seq<char>>
    decreases a,
{
    match a {
        Action::SetState { target, key, .. } => if target == Target::This { set![key@] } else { Set::empty() },
        Action::Move { target, key, .. } => if target == Target::This { set![key@] } else { Set::empty() },
        Action::Animate { target, key, .. } => if target == Target::This { set![key@] } else { Set::empty() },
        Action::If { cond, then_, else_ } =>
            expr_refs(cond).union(actions_refs(then_@)).union(actions_refs(else_@)),
        _ => Set::empty(),
    }
}

/// The components of the running node a list of actions reads.
pub open spec fn actions_refs(acts: Seq<Action>) -> Set<Seq<char>>
    decreases acts,
{
    if acts.len() == 0 {
        Set::empty()
    } else {
        actions_refs(acts.drop_last()).union(action_refs(acts.last()))
    }
}

fn collect_key_if_self(target: &Target, key: &String, out: &mut StrMap<bool>)
    ensures
        final(out)@.dom() == old(out)@.dom().union(if *target == Target::This { set![key@] } else { Set::empty() }),
{
    match target {
        Target::This => {
            out.insert(key.clone(), true);
            assert(out@.dom() =~= old(out)@.dom().union(set![key@]));
        },
        _ => {
            assert(out@.dom() =~= old(out)@.dom().union(Set::empty()));
        },
    }
}

/// Adds to `out` the components of the running node an action reads.
fn collect_refs(a: &Action, out: &mut StrMap<bool>)
    ensures
        final(out)@.dom() == old(out)@.dom().union(action_refs(*a)),
    decreases *a,
{
    match a {
        Action::SetState { target, key, .. } => collect_key_if_self(target, key, out),
        Action::Move { target, key, .. } => collect_key_if_self(target, key, out),
        Action::Animate { target, key, .. } => collect_key_if_self(target, key, out),
        Action::If { cond, then_, else_ } => {
            collect_refs_from_expr(cond, out);
            collect_refs_in(then_, out);
            collect_refs_in(else_, out);
            assert(out@.dom() =~= old(out)@.dom().union(action_refs(*a)));
        },
        _ => {
            assert(out@.dom() =~= old(out)@.dom().union(Set::empty()));
        },
    }
}

fn collect_refs_in(acts: &Vec<Action>, out: &mut StrMap<bool>)
    ensures
        final(out)@.dom() == old(out)@.dom().union(actions_refs(acts@)),
    decreases acts,
{
    let ghost start = out@.dom();
    let mut i: usize = 0;
    assert(acts@.take(0) =~= seq![]);
    assert(start.union(Set::empty()) =~= start);
    while i < acts.len()
        invariant
            i <= acts@.len(),
            out@.dom() == start.union(actions_refs(acts@.take(i as int))),
        decreases acts.len() - i,
    {
        assert(acts@.take(i + 1).drop_last() =~= acts@.take(i as int));
        assert(acts@.take(i + 1).last() == acts@[i as int]);
        assert(decreases_to!(acts => acts@[i as int]));
        collect_refs(&acts[i], out);
        assert(out@.dom() =~= start.union(actions_refs(acts@.take(i + 1))));
        i += 1;
    }
    assert(acts@.take(acts@.len() as int) =~= acts@);
}

// ------------------------------------------------------ reachable states

/// Whether `r` holds `initial` and every target of a transition out of a
/// declared state in `r`.
pub open spec fn closed_under(states: Map<Seq<char>, StateDef>, initial: Seq<char>, r: Set<Seq<char>>) -> bool {
    &&& r.contains(initial)
    &&& forall|s: Seq<char>, k: int|
        #![trigger r.contains(s), states[s].transitions@[k]]
        r.contains(s) && states.contains_key(s) && 0 <= k < states[s].transitions@.len()
            ==> r.contains(states[s].transitions@[k].to@)
}

/// Whether `r` is the least set closed under the transitions.
pub open spec fn is_reachable_set(states: Map<Seq<char>, StateDef>, initial: Seq<char>, r: Set<Seq<char>>) -> bool {
    &&& closed_under(states, initial, r)
    &&& forall|q: Set<Seq<char>>| #[trigger] closed_under(states, initial, q) ==> r.subset_of(q)
}

/// The states reachable from `initial` by following transitions (the
/// least set that holds `initial` and is closed under transitions).
pub open spec fn reachable(states: Map<Seq<char>, StateDef>, initial: Seq<char>) -> Set<Seq<char>> {
    choose|r: Set<Seq<char>>| is_reachable_set(states, initial, r)
}

/// The reachable states of any machine are the least set that holds the
/// initial state and every target of a transition out of a declared state
/// it holds: a state is reported unreachable exactly when no chain of
/// transitions from the initial state leads to it.
pub proof fn law_reachable_is_least_closed_set(states: Map<Seq<char>, StateDef>, initial: Seq<char>)
    ensures
        closed_under(states, initial, reachable(states, initial)),
        forall|q: Set<Seq<char>>| #[trigger] closed_under(states, initial, q) ==> reachable(states, initial).subset_of(q),
{
    let r = Set::new(|x: Seq<char>| forall|q: Set<Seq<char>>| #[trigger] closed_under(states, initial, q) ==> q.contains(x));
    assert forall|s: Seq<char>, k: int|
        #![trigger r.contains(s), states[s].transitions@[k]]
        r.contains(s) && states.contains_key(s) && 0 <= k < states[s].transitions@.len()
        implies r.contains(states[s].transitions@[k].to@) by {
        assert forall|q: Set<Seq<char>>| #[trigger] closed_under(states, initial, q) implies q.contains(states[s].transitions@[k].to@) by {
            assert(q.contains(s));
        }
    }
    assert(closed_under(states, initial, r));
    assert(is_reachable_set(states, initial, r));
    lemma_reachable(states, initial, r);
}

/// The names transitions of these states lead to.
pub open spec fn all_targets(vs: Seq<StateDef>) -> Seq<Seq<char>> {
    vs.map_values(|s: StateDef| s.transitions@.map_values(|t: Transition| t.to@)).flatten()
}

proof fn lemma_all_targets(vs: Seq<StateDef>, i: int, k: int)
    requires
        0 <= i < vs.len(),
        0 <= k < vs[i].transitions@.len(),
    ensures
        all_targets(vs).contains(vs[i].transitions@[k].to@),
    decreases vs.len(),
{
    let f = |s: StateDef| s.transitions@.map_values(|t: Transition| t.to@);
    let ss = vs.map_values(f);
    assert(ss =~= vs.drop_last().map_values(f).push(f(vs.last())));
    vs.drop_last().map_values(f).lemma_flatten_push(f(vs.last()));
    let x = vs[i].transitions@[k].to@;
    lemma_contains_concat(all_targets(vs.drop_last()), f(vs.last()), x);
    if i == vs.len() - 1 {
        assert(f(vs.last())[k] == x);
    } else {
        lemma_all_targets(vs.drop_last(), i, k);
    }
}

proof fn lemma_reachable(states: Map<Seq<char>, StateDef>, initial: Seq<char>, r: Set<Seq<char>>)
    requires
        is_reachable_set(states, initial, r),
    ensures
        reachable(states, initial) == r,
{
    let r2 = reachable(states, initial);
    assert(is_reachable_set(states, initial, r2));
    assert(r.subset_of(r2));
    assert(r2.subset_of(r));
    assert(r =~= r2);
}

/// Keys and values of a state map line up with its view.
spec fn keys_and_values(m: &StrMap<StateDef>) -> bool {
    &&& m.key_seq().len() == m.value_seq().len()
    &&& forall|k: Seq<char>| m@.contains_key(k) <==> m.key_seq().contains(k)
    &&& forall|i: int| 0 <= i < m.key_seq().len() ==> m@[#[trigger] m.key_seq()[i]] == m.value_seq()[i]
}

/// The names of the states reachable from `initial`.
fn reachable_states(states: &StrMap<StateDef>, initial: &String) -> (r: StrMap<bool>)
    ensures
        r@.dom() == reachable(states@, initial@),
{
    let ghost m = states@;
    let ghost u = all_targets(states.value_seq()).push(initial@);
    states.proof_keys();
    let mut reach: StrMap<bool> = StrMap::new();
    reach.insert(initial.clone(), true);
    let mut frontier: Vec<String> = Vec::new();
    frontier.push(initial.clone());
    reach.proof_keys();
    proof {
        assert(frontier@[0]@ == initial@);
        assert(u[u.len() - 1] == initial@);
        assert(reach@.dom() =~= set![initial@]);
        u.lemma_cardinality_of_set();
    }
    while frontier.len() > 0
        invariant
            m == states@,
            u == all_targets(states.value_seq()).push(initial@),
            keys_and_values(states),
            reach@.dom().finite(),
            reach@.dom().contains(initial@),
            forall|s: Seq<char>| #[trigger] reach@.dom().contains(s) ==> u.contains(s),
            reach@.dom().len() <= u.len(),
            forall|i: int| 0 <= i < frontier@.len() ==> reach@.dom().contains(#[trigger] frontier@[i]@),
            forall|i: int, j: int| 0 <= i < j < frontier@.len() ==> frontier@[i]@ != frontier@[j]@,
            forall|s: Seq<char>, k: int|
                #![trigger reach@.dom().contains(s), m[s].transitions@[k]]
                reach@.dom().contains(s) && m.contains_key(s) && 0 <= k < m[s].transitions@.len()
                && (forall|i: int| 0 <= i < frontier@.len() ==> #[trigger] frontier@[i]@ != s)
                    ==> reach@.dom().contains(m[s].transitions@[k].to@),
            forall|q: Set<Seq<char>>| #[trigger] closed_under(m, initial@, q) ==> reach@.dom().subset_of(q),
        decreases 2 * (u.len() - reach@.dom().len()) + frontier@.len(),
    {
        let ghost f0 = frontier@;
        let ghost r0 = reach@.dom();
        let current = match frontier.pop() {
            Some(c) => c,
            None => { return reach; },
        };
        assert(current == f0[f0.len() - 1]);
        assert(frontier@ == f0.drop_last());
        match states.get(current.as_str()) {
            Some(state) => {
                let n = state.transitions.len();
                let mut k: usize = 0;
                while k < n
                    invariant
                        m == states@,
                        m.contains_key(current@),
                        *state == m[current@],
                        n == state.transitions@.len(),
                        k <= n,
                        u == all_targets(states.value_seq()).push(initial@),
                        keys_and_values(states),
                        r0.contains(current@),
                        r0.subset_of(reach@.dom()),
                        reach@.dom().finite(),
                        forall|s: Seq<char>| #[trigger] reach@.dom().contains(s) ==> u.contains(s),
                        reach@.dom().len() <= u.len(),
                        forall|i: int| 0 <= i < frontier@.len() ==> reach@.dom().contains(#[trigger] frontier@[i]@),
                        forall|i: int, j: int| 0 <= i < j < frontier@.len() ==> frontier@[i]@ != frontier@[j]@,
                        forall|i: int| 0 <= i < f0.len() - 1 ==> #[trigger] frontier@[i] == f0[i],
                        1 <= f0.len(),
                        f0.len() - 1 <= frontier@.len(),
                        forall|i: int| f0.len() - 1 <= i < frontier@.len() ==> !r0.contains(#[trigger] frontier@[i]@),
                        2 * (u.len() - reach@.dom().len()) + frontier@.len() <= 2 * (u.len() - r0.len()) + f0.len() - 1,
                        forall|j: int| 0 <= j < k ==> reach@.dom().contains(#[trigger] m[current@].transitions@[j].to@),
                        forall|s: Seq<char>| #[trigger] reach@.dom().contains(s) && !r0.contains(s)
                            ==> exists|i: int| f0.len() - 1 <= i < frontier@.len() && #[trigger] frontier@[i]@ == s,
                        forall|q: Set<Seq<char>>| #[trigger] closed_under(m, initial@, q) ==> reach@.dom().subset_of(q),
                    decreases n - k,
                {
                    let to = &state.transitions[k].to;
                    if !reach.contains_key(to.as_str()) {
                        let ghost rb = reach@.dom();
                        let ghost fb = frontier@;
                        assert(forall|s: Seq<char>| rb.contains(s) && !r0.contains(s)
                            ==> exists|i: int| f0.len() - 1 <= i < fb.len() && #[trigger] fb[i]@ == s);
                        proof {
                            let idx = states.key_seq().index_of(current@);
                            assert(states.key_seq().contains(current@));
                            assert(states.key_seq()[idx] == current@);
                            assert(m[current@] == states.value_seq()[idx]);
                            lemma_all_targets(states.value_seq(), idx, k as int);
                            assert(all_targets(states.value_seq()).contains(to@));
                            lemma_contains_concat(all_targets(states.value_seq()), seq![initial@], to@);
                            assert(all_targets(states.value_seq()).push(initial@) =~= all_targets(states.value_seq()) + seq![initial@]);
                            u.lemma_cardinality_of_set();
                            assert(rb.insert(to@).subset_of(u.to_set()));
                            vstd::set_lib::lemma_len_subset(rb.insert(to@), u.to_set());
                        }
                        reach.insert(to.clone(), true);
                        let c = to.clone();
                        let ghost cv = c;
                        frontier.push(c);
                        assert(frontier@ == fb.push(cv));
                        reach.proof_keys();
                        proof {
                            assert(reach@.dom() =~= rb.insert(to@));
                            assert(frontier@[frontier@.len() - 1]@ == to@);
                            assert forall|q: Set<Seq<char>>| #[trigger] closed_under(m, initial@, q) implies reach@.dom().subset_of(q) by {
                                assert(q.contains(current@));
                                assert(q.contains(m[current@].transitions@[k as int].to@));
                            }
                            assert forall|s: Seq<char>| #[trigger] reach@.dom().contains(s) && !r0.contains(s)
                                implies exists|i: int| f0.len() - 1 <= i < frontier@.len() && #[trigger] frontier@[i]@ == s by {
                                if s == to@ {
                                    assert(frontier@[frontier@.len() - 1]@ == s);
                                } else {
                                    assert(rb.contains(s));
                                    let i = choose|i: int| f0.len() - 1 <= i < fb.len() && #[trigger] fb[i]@ == s;
                                    assert(frontier@[i] == fb[i]);
                                }
                            }
                            assert(!r0.contains(to@));
                            assert forall|i: int| f0.len() - 1 <= i < frontier@.len() implies !r0.contains(#[trigger] frontier@[i]@) by {
                                if i < fb.len() {
                                    assert(frontier@[i] == fb[i]);
                                }
                            }
                            assert forall|i: int, j: int| 0 <= i < j < frontier@.len() implies frontier@[i]@ != frontier@[j]@ by {
                                if j == frontier@.len() - 1 {
                                    assert(frontier@[i] == fb[i]);
                                    assert(rb.contains(fb[i]@));
                                } else {
                                    assert(frontier@[i] == fb[i] && frontier@[j] == fb[j]);
                                }
                            }
                        }
                    }
                    k += 1;
                }
            },
            None => {},
        }
        proof {
            assert forall|s: Seq<char>, k: int|
                #![trigger reach@.dom().contains(s), m[s].transitions@[k]]
                reach@.dom().contains(s) && m.contains_key(s) && 0 <= k < m[s].transitions@.len()
                && (forall|i: int| 0 <= i < frontier@.len() ==> #[trigger] frontier@[i]@ != s)
                implies reach@.dom().contains(m[s].transitions@[k].to@) by {
                if s == current@ {
                } else if r0.contains(s) {
                    assert forall|i: int| 0 <= i < f0.len() implies #[trigger] f0[i]@ != s by {
                        if i < f0.len() - 1 {
                            assert(frontier@[i] == f0[i]);
                        }
                    }
                    assert(r0.contains(m[s].transitions@[k].to@));
                } else {
                    let i = choose|i: int| f0.len() - 1 <= i < frontier@.len() && #[trigger] frontier@[i]@ == s;
                }
            }
        }
    }
    proof {
        let r = reach@.dom();
        assert(closed_under(m, initial@, r));
        lemma_reachable(m, initial@, r);
    }
    reach
}

// ----------------------------------------------------------------- order

/// Node names in order, a finding without a node first.
pub open spec fn node_lt(a: Option<Seq<char>>, b: Option<Seq<char>>) -> bool {
    match a {
        None => b is Some,
        Some(x) => match b {
            Some(y) => seq_lt(x, y),
            None => false,
        },
    }
}

/// Whether finding `a` is listed before `b`: by code name, then by node.
pub open spec fn finding_before(a: LintView, b: LintView) -> bool {
    seq_lt(code_text(a.code), code_text(b.code))
        || (code_text(a.code) == code_text(b.code) && node_lt(a.node, b.node))
}

/// `output` is `input` reordered by `order` (output `i` is input
/// `order[i]`), listed by code name then node, with findings that tie on
/// both kept in their input order.
pub open spec fn sort_witness(input: Seq<LintView>, output: Seq<LintView>, order: Seq<int>) -> bool {
    &&& order.len() == input.len()
    &&& output.len() == input.len()
    &&& forall|i: int| 0 <= i < order.len() ==> 0 <= #[trigger] order[i] < input.len() && output[i] == input[order[i]]
    &&& forall|i: int, j: int| 0 <= i < j < order.len() ==> order[i] != order[j]
    &&& forall|i: int, j: int| 0 <= i < j < output.len() ==> !finding_before(output[j], output[i])
    &&& forall|i: int, j: int| 0 <= i < j < output.len() && !finding_before(output[i], output[j])
        ==> order[i] < order[j]
}

/// `output` is `input` sorted stably by code name, then node.
pub open spec fn stably_sorted(input: Seq<LintView>, output: Seq<LintView>) -> bool {
    exists|order: Seq<int>| sort_witness(input, output, order)
}

proof fn lemma_seq_lt_facts(a: Seq<char>, b: Seq<char>, c: Seq<char>)
    ensures
        !seq_lt(a, a),
        seq_lt(a, b) ==> !seq_lt(b, a),
        seq_lt(a, b) && seq_lt(b, c) ==> seq_lt(a, c),
        a == b || seq_lt(a, b) || seq_lt(b, a),
{
    lemma_seq_lt_irreflexive(a);
    lemma_seq_lt_asymmetric(a, b);
    lemma_seq_lt_total(a, b);
    if seq_lt(a, b) && seq_lt(b, c) {
        lemma_seq_lt_transitive(a, b, c);
    }
}

proof fn lemma_node_lt_facts(a: Option<Seq<char>>, b: Option<Seq<char>>, c: Option<Seq<char>>)
    ensures
        !node_lt(a, a),
        node_lt(a, b) ==> !node_lt(b, a),
        node_lt(a, b) && node_lt(b, c) ==> node_lt(a, c),
        a == b || node_lt(a, b) || node_lt(b, a),
{
    if let (Some(x), Some(y)) = (a, b) {
        lemma_seq_lt_facts(x, y, x);
        if let Some(z) = c {
            lemma_seq_lt_facts(x, y, z);
        }
    }
    if let Some(x) = a {
        lemma_seq_lt_irreflexive(x);
    }
}

proof fn lemma_before_order(a: LintView, b: LintView, c: LintView)
    ensures
        !finding_before(a, a),
        finding_before(a, b) ==> !finding_before(b, a),
        finding_before(a, b) && finding_before(b, c) ==> finding_before(a, c),
        !finding_before(a, b) && !finding_before(b, c) ==> !finding_before(a, c),
{
    let (ka, kb, kc) = (code_text(a.code), code_text(b.code), code_text(c.code));
    lemma_seq_lt_facts(ka, kb, kc);
    lemma_seq_lt_facts(kb, kc, ka);
    lemma_seq_lt_facts(kc, ka, kb);
    lemma_seq_lt_facts(ka, kc, kb);
    lemma_seq_lt_facts(kb, ka, kc);
    lemma_seq_lt_facts(kc, kb, ka);
    lemma_node_lt_facts(a.node, b.node, c.node);
    lemma_node_lt_facts(b.node, c.node, a.node);
    lemma_node_lt_facts(c.node, a.node, b.node);
    lemma_node_lt_facts(a.node, c.node, b.node);
    lemma_node_lt_facts(b.node, a.node, c.node);
    lemma_node_lt_facts(c.node, b.node, a.node);
}

fn node_before(a: &Option<String>, b: &Option<String>) -> (r: bool)
    ensures
        r == node_lt(opt_text(*a), opt_text(*b)),
{
    match a {
        None => b.is_some(),
        Some(x) => match b {
            Some(y) => match compare_str(x.as_str(), y.as_str()) {
                Collation::Less => true,
                _ => false,
            },
            None => false,
        },
    }
}

/// Whether finding `a` is listed before `b`.
fn before(a: &LintWarning, b: &LintWarning) -> (r: bool)
    ensures
        r == finding_before(a@, b@),
{
    match compare_str(a.code.as_str(), b.code.as_str()) {
        Collation::Less => true,
        Collation::Greater => false,
        Collation::Equal => node_before(&a.node, &b.node),
    }
}

/// Sorts findings by code name, then node, keeping ties in order.
fn sort_findings(ws: Vec<LintWarning>) -> (r: Vec<LintWarning>)
    ensures
        stably_sorted(views(ws@), views(r@)),
{
    let ghost input = views(ws@);
    let mut rest = ws;
    let mut out: Vec<LintWarning> = Vec::new();
    let ghost mut order: Seq<int> = seq![];
    let n = rest.len();
    let mut t: usize = 0;
    assert(views(rest@) =~= input.skip(0));
    while t < n
        invariant
            n == input.len(),
            t <= n,
            views(rest@) == input.skip(t as int),
            sort_witness(input.take(t as int), views(out@), order),
        decreases n - t,
    {
        let ghost rest0 = rest@;
        assert(views(rest0).len() == rest0.len());
        let w = rest.remove(0);
        assert(w@ == views(rest0)[0]);
        assert(rest@ =~= rest0.subrange(1, rest0.len() as int));
        assert forall|i: int| 0 <= i < views(rest@).len() implies views(rest@)[i] == input.skip(t + 1)[i] by {
            assert(views(rest@)[i] == views(rest0)[i + 1]);
        }
        assert(views(rest@) =~= input.skip(t + 1));
        let ghost x = w@;
        assert(x == input[t as int]);
        let mut p: usize = out.len();
        while p > 0 && before(&w, &out[p - 1])
            invariant
                p <= out@.len() == t,
                x == w@,
                forall|q: int| p <= q < out@.len() ==> finding_before(x, #[trigger] views(out@)[q]),
            decreases p,
        {
            p -= 1;
        }
        let ghost o = order;
        let ghost big_o = views(out@);
        let ghost a = input.take(t as int);
        let ghost b = input.take(t + 1);
        proof {
            if p > 0 {
                assert(!finding_before(x, big_o[p - 1]));
            }
        }
        out.insert(p, w);
        proof {
            order = o.insert(p as int, t as int);
            let no = views(out@);
            assert(no =~= big_o.insert(p as int, x));
            let ord = order;
            assert forall|i: int| 0 <= i < ord.len() implies 0 <= #[trigger] ord[i] < b.len() && no[i] == b[ord[i]] by {
                if i < p {
                    assert(ord[i] == o[i]);
                    assert(no[i] == big_o[i]);
                } else if i > p {
                    assert(ord[i] == o[i - 1]);
                    assert(no[i] == big_o[i - 1]);
                }
            }
            assert forall|i: int, j: int| 0 <= i < j < ord.len() implies ord[i] != ord[j] by {
                if i < p && j < p {
                } else if i < p && j == p {
                    assert(o[i] < t);
                } else if i < p && j > p {
                    assert(ord[j] == o[j - 1]);
                } else if i == p {
                    assert(ord[j] == o[j - 1]);
                    assert(o[j - 1] < t);
                } else {
                    assert(ord[i] == o[i - 1]);
                    assert(ord[j] == o[j - 1]);
                }
            }
            assert forall|i: int, j: int| 0 <= i < j < no.len() implies !finding_before(no[j], no[i]) by {
                if i != p && j != p {
                    let ii = if i < p { i } else { i - 1 };
                    let jj = if j < p { j } else { j - 1 };
                    assert(no[i] == big_o[ii] && no[j] == big_o[jj]);
                } else if i == p {
                    assert(no[j] == big_o[j - 1]);
                    assert(finding_before(x, big_o[j - 1]));
                    lemma_before_order(x, big_o[j - 1], x);
                } else {
                    assert(no[i] == big_o[i]);
                    if i < p - 1 {
                        assert(!finding_before(big_o[p - 1], big_o[i]));
                        lemma_before_order(x, big_o[p - 1], big_o[i]);
                    }
                }
            }
            assert forall|i: int, j: int| 0 <= i < j < no.len() && !finding_before(no[i], no[j])
                implies ord[i] < ord[j] by {
                if i != p && j != p {
                    let ii = if i < p { i } else { i - 1 };
                    let jj = if j < p { j } else { j - 1 };
                    assert(no[i] == big_o[ii] && no[j] == big_o[jj]);
                    assert(ord[i] == o[ii] && ord[j] == o[jj]);
                } else if i == p {
                    assert(no[j] == big_o[j - 1]);
                } else {
                    assert(ord[i] == o[i]);
                    assert(o[i] < t);
                }
            }
            assert(sort_witness(b, no, ord));
        }
        t += 1;
    }
    assert(input.take(n as int) =~= input);
    out
}

// ------------------------------------------------------ scene-level lints

proof fn lemma_flatten_take<T>(ss: Seq<Seq<T>>, i: int)
    requires
        0 <= i < ss.len(),
    ensures
        ss.take(i + 1).flatten() == ss.take(i).flatten() + ss[i],
{
    assert(ss.take(i + 1) =~= ss.take(i).push(ss[i]));
    ss.take(i).lemma_flatten_push(ss[i]);
}

pub(crate) proof fn lemma_union_take(ss: Seq<Set<Seq<char>>>, i: int)
    requires
        0 <= i < ss.len(),
    ensures
        union_all(ss.take(i + 1)) == union_all(ss.take(i)).union(ss[i]),
{
    assert(ss.take(i + 1).drop_last() =~= ss.take(i));
}

/// The signal finding for `sig`, first emitted by `node`.
pub open spec fn signal_finding(sig: Seq<char>, node: Seq<char>) -> LintView {
    finding(LintCode::SignalWithNoSubscribers, LintSeverity::Warning, node,
        "signal \""@ + sig + "\" is emitted but has no on_signal subscribers"@,
        "Add an on_signal handler for \""@ + sig + "\" or remove the emit"@)
}

/// The signals a behavior's actions emit, in order.
pub open spec fn behavior_emits(b: Behavior) -> Seq<Seq<char>> {
    lists_emits(behavior_lists(b)).flatten()
}

pub open spec fn lists_emits(ls: Seq<Seq<Action>>) -> Seq<Seq<Seq<char>>> {
    ls.map_values(|l: Seq<Action>| emitted_in(l))
}

pub open spec fn behaviors_emits(bs: Seq<Behavior>) -> Seq<Seq<Seq<char>>> {
    bs.map_values(|b: Behavior| behavior_emits(b))
}

/// The signals a node's behaviors emit, in order.
pub open spec fn node_emits(n: Node) -> Seq<Seq<char>> {
    behaviors_emits(n.behaviors@).flatten()
}

/// Each emitted signal with the id of the first node that emits it.
pub open spec fn first_emitters(nodes: Seq<Node>) -> Map<Seq<char>, Seq<char>>
    decreases nodes.len(),
{
    if nodes.len() == 0 {
        Map::empty()
    } else {
        with_emits(first_emitters(nodes.drop_last()), node_emits(nodes.last()), nodes.last().id@)
    }
}

/// The signal a behavior subscribes to, if any.
pub open spec fn behavior_listens(b: Behavior) -> Set<Seq<char>> {
    match b {
        Behavior::OnSignal { signal, .. } => set![signal@],
        _ => Set::empty(),
    }
}

pub open spec fn behaviors_listen(bs: Seq<Behavior>) -> Seq<Set<Seq<char>>> {
    bs.map_values(|b: Behavior| behavior_listens(b))
}

pub open spec fn nodes_listen(nodes: Seq<Node>) -> Seq<Set<Seq<char>>> {
    nodes.map_values(|n: Node| union_all(behaviors_listen(n.behaviors@)))
}

/// The signals some `on_signal` behavior subscribes to.
pub open spec fn listened(nodes: Seq<Node>) -> Set<Seq<char>> {
    union_all(nodes_listen(nodes))
}

/// The findings for the signals among `keys` nobody subscribes to.
pub open spec fn silent_signals(keys: Seq<Seq<char>>, emitters: Map<Seq<char>, Seq<char>>, heard: Set<Seq<char>>) -> Seq<LintView>
    decreases keys.len(),
{
    if keys.len() == 0 {
        seq![]
    } else {
        let prev = silent_signals(keys.drop_last(), emitters, heard);
        if heard.contains(keys.last()) {
            prev
        } else {
            prev.push(signal_finding(keys.last(), emitters[keys.last()]))
        }
    }
}

/// A finding for each emitted signal (in name order) that no `on_signal`
/// behavior subscribes to, naming the first node that emits it.
pub open spec fn signal_findings(nodes: Seq<Node>) -> Seq<LintView> {
    let m = first_emitters(nodes);
    silent_signals(ascending_set(m.dom()), m, listened(nodes))
}

fn lint_signals_with_no_subscribers(scene: &Scene, out: &mut Vec<LintWarning>)
    ensures
        views(final(out)@) == views(old(out)@) + signal_findings(scene.nodes@),
{
    let ghost nodes = scene.nodes@;
    let mut emitted: StrMap<String> = StrMap::new();
    let mut heard: StrMap<bool> = StrMap::new();
    let mut i: usize = 0;
    proof {
        assert(text_map(emitted@) =~= Map::empty());
        assert(nodes.take(0) =~= seq![]);
        assert(nodes_listen(nodes.take(0)) =~= seq![]);
        assert(heard@.dom() =~= Set::empty());
    }
    while i < scene.nodes.len()
        invariant
            nodes == scene.nodes@,
            i <= nodes.len(),
            text_map(emitted@) == first_emitters(nodes.take(i as int)),
            heard@.dom() == listened(nodes.take(i as int)),
        decreases nodes.len() - i,
    {
        let node = &scene.nodes[i];
        let ghost base = text_map(emitted@);
        let ghost hbase = heard@.dom();
        let ghost bes = behaviors_emits(node.behaviors@);
        let ghost bls = behaviors_listen(node.behaviors@);
        let mut j: usize = 0;
        proof {
            assert(bes.take(0) =~= seq![]);
            assert(bls.take(0) =~= seq![]);
            lemma_with_emits_empty(base, node.id@);
            assert(hbase.union(Set::empty()) =~= hbase);
        }
        while j < node.behaviors.len()
            invariant
                j <= node.behaviors@.len(),
                bes == behaviors_emits(node.behaviors@),
                bls == behaviors_listen(node.behaviors@),
                text_map(emitted@) == with_emits(base, bes.take(j as int).flatten(), node.id@),
                heard@.dom() == hbase.union(union_all(bls.take(j as int))),
            decreases node.behaviors.len() - j,
        {
            let b = &node.behaviors[j];
            let lists = actions_in_behavior(b);
            let ghost les = lists_emits(behavior_lists(*b));
            let ghost mid = text_map(emitted@);
            let mut k: usize = 0;
            proof {
                assert(les.take(0) =~= seq![]);
                lemma_with_emits_empty(mid, node.id@);
            }
            while k < lists.len()
                invariant
                    k <= lists@.len(),
                    lists@.map_values(|v: &Vec<Action>| v@) == behavior_lists(*b),
                    les == lists_emits(behavior_lists(*b)),
                    text_map(emitted@) == with_emits(mid, les.take(k as int).flatten(), node.id@),
                decreases lists.len() - k,
            {
                assert(lists@.map_values(|v: &Vec<Action>| v@)[k as int] == lists@[k as int]@);
                collect_emitted(lists[k].as_slice(), node.id.as_str(), &mut emitted);
                proof {
                    lemma_flatten_take(les, k as int);
                    lemma_with_emits_concat(mid, les.take(k as int).flatten(), les[k as int], node.id@);
                }
                k += 1;
            }
            proof {
                assert(les.take(les.len() as int) =~= les);
                lemma_flatten_take(bes, j as int);
                lemma_with_emits_concat(base, bes.take(j as int).flatten(), bes[j as int], node.id@);
            }
            match b {
                Behavior::OnSignal { signal, .. } => {
                    heard.insert(signal.clone(), true);
                },
                _ => {},
            }
            proof {
                lemma_union_take(bls, j as int);
                assert(heard@.dom() =~= hbase.union(union_all(bls.take(j + 1))));
            }
            j += 1;
        }
        proof {
            assert(bes.take(bes.len() as int) =~= bes);
            assert(bls.take(bls.len() as int) =~= bls);
            assert(nodes.take(i + 1).drop_last() =~= nodes.take(i as int));
            assert(nodes.take(i + 1).last() == nodes[i as int]);
            assert(nodes_listen(nodes.take(i + 1)) =~= nodes_listen(nodes.take(i as int)).push(union_all(bls)));
            assert(nodes_listen(nodes.take(i + 1)).drop_last() =~= nodes_listen(nodes.take(i as int)));
        }
        i += 1;
    }
    proof {
        assert(nodes.take(nodes.len() as int) =~= nodes);
    }
    let ghost m = first_emitters(nodes);
    let ghost heard_all = listened(nodes);
    emitted.proof_keys();
    let ghost keys = emitted.key_seq();
    let ghost start = views(out@);
    let n = emitted.len();
    let mut k: usize = 0;
    assert(start + silent_signals(keys.take(0), m, heard_all) =~= start);
    while k < n
        invariant
            n == keys.len(),
            keys == emitted.key_seq(),
            k <= n,
            text_map(emitted@) == m,
            heard@.dom() == heard_all,
            views(out@) == start + silent_signals(keys.take(k as int), m, heard_all),
        decreases n - k,
    {
        let sig = emitted.key_at(k);
        let owner = emitted.value_at(k);
        assert(keys.take(k + 1).drop_last() =~= keys.take(k as int));
        assert(keys.take(k + 1).last() == keys[k as int]);
        if !heard.contains_key(sig.as_str()) {
            assert(m[sig@] == owner@);
            let msg = concat3("signal \"", sig.as_str(), "\" is emitted but has no on_signal subscribers");
            let sug = concat3("Add an on_signal handler for \"", sig.as_str(), "\" or remove the emit");
            push_views(out, make_finding(LintCode::SignalWithNoSubscribers, LintSeverity::Warning, owner.as_str(), msg, sug));
        }
        k += 1;
    }
    assert(keys.take(n as int) =~= keys);
    proof {
        assert(m.dom() =~= emitted@.dom());
        assert(keys_ascending(keys) && forall|s: Seq<char>| keys.contains(s) <==> m.dom().contains(s));
        let a = ascending_set(m.dom());
        assert(keys_ascending(a) && forall|s: Seq<char>| a.contains(s) <==> m.dom().contains(s));
        lemma_ascending_unique(keys, a);
    }
}

/// The finding for state `k` of node `id`, not reachable from `initial`.
pub open spec fn unreachable_finding(k: Seq<char>, id: Seq<char>, initial: Seq<char>) -> LintView {
    finding(LintCode::StateUnreachable, LintSeverity::Warning, id,
        "state \""@ + k + "\" in node \""@ + id + "\" is never reached from initial \""@ + initial + "\""@,
        "Add a transition to \""@ + k + "\" or remove it"@)
}

/// The findings for the states among `keys` not in `reached`.
pub open spec fn missed_states(keys: Seq<Seq<char>>, reached: Set<Seq<char>>, id: Seq<char>, initial: Seq<char>) -> Seq<LintView>
    decreases keys.len(),
{
    if keys.len() == 0 {
        seq![]
    } else {
        let prev = missed_states(keys.drop_last(), reached, id, initial);
        if reached.contains(keys.last()) {
            prev
        } else {
            prev.push(unreachable_finding(keys.last(), id, initial))
        }
    }
}

/// The findings for a behavior's unreachable states, in state-name order.
pub open spec fn behavior_unreachable(b: Behavior, id: Seq<char>) -> Seq<LintView> {
    match b {
        Behavior::StateMachine { initial, states } =>
            missed_states(states.key_seq(), reachable(states@, initial@), id, initial@),
        _ => seq![],
    }
}

pub open spec fn behaviors_unreachable(bs: Seq<Behavior>, id: Seq<char>) -> Seq<Seq<LintView>> {
    bs.map_values(|b: Behavior| behavior_unreachable(b, id))
}

pub open spec fn nodes_unreachable(nodes: Seq<Node>) -> Seq<Seq<LintView>> {
    nodes.map_values(|n: Node| behaviors_unreachable(n.behaviors@, n.id@).flatten())
}

/// A finding for each declared state no transition path from the initial
/// state reaches.
pub open spec fn unreachable_findings(nodes: Seq<Node>) -> Seq<LintView> {
    nodes_unreachable(nodes).flatten()
}

fn unreachable_in_machine(states: &StrMap<StateDef>, initial: &String, id: &str, out: &mut Vec<LintWarning>)
    ensures
        views(final(out)@) == views(old(out)@) + missed_states(states.key_seq(), reachable(states@, initial@), id@, initial@),
{
    let reach = reachable_states(states, initial);
    let ghost r = reach@.dom();
    let ghost keys = states.key_seq();
    let ghost start = views(out@);
    states.proof_keys();
    let n = states.len();
    let mut k: usize = 0;
    assert(start + missed_states(keys.take(0), r, id@, initial@) =~= start);
    while k < n
        invariant
            n == keys.len(),
            keys == states.key_seq(),
            k <= n,
            r == reach@.dom(),
            views(out@) == start + missed_states(keys.take(k as int), r, id@, initial@),
        decreases n - k,
    {
        let name = states.key_at(k);
        assert(keys.take(k + 1).drop_last() =~= keys.take(k as int));
        assert(keys.take(k + 1).last() == keys[k as int]);
        if !reach.contains_key(name.as_str()) {
            let mut msg = concat5("state \"", name.as_str(), "\" in node \"", id, "\" is never reached from initial \"");
            push_str(&mut msg, initial.as_str());
            push_str(&mut msg, "\"");
            let sug = concat3("Add a transition to \"", name.as_str(), "\" or remove it");
            push_views(out, make_finding(LintCode::StateUnreachable, LintSeverity::Warning, id, msg, sug));
        }
        k += 1;
    }
    assert(keys.take(n as int) =~= keys);
}

fn lint_unreachable_states(scene: &Scene, out: &mut Vec<LintWarning>)
    ensures
        views(final(out)@) == views(old(out)@) + unreachable_findings(scene.nodes@),
{
    let ghost nodes = scene.nodes@;
    let ghost per = nodes_unreachable(nodes);
    let ghost start = views(out@);
    let mut i: usize = 0;
    assert(per.take(0) =~= seq![]);
    assert(start + per.take(0).flatten() =~= start);
    while i < scene.nodes.len()
        invariant
            nodes == scene.nodes@,
            per == nodes_unreachable(nodes),
            i <= nodes.len(),
            views(out@) == start + per.take(i as int).flatten(),
        decreases nodes.len() - i,
    {
        let node = &scene.nodes[i];
        let ghost bs = behaviors_unreachable(node.behaviors@, node.id@);
        let ghost mid = views(out@);
        let mut j: usize = 0;
        assert(bs.take(0) =~= seq![]);
        assert(mid + bs.take(0).flatten() =~= mid);
        while j < node.behaviors.len()
            invariant
                j <= node.behaviors@.len(),
                bs == behaviors_unreachable(node.behaviors@, node.id@),
                views(out@) == mid + bs.take(j as int).flatten(),
            decreases node.behaviors.len() - j,
        {
            let ghost before = views(out@);
            match &node.behaviors[j] {
                Behavior::StateMachine { initial, states } => {
                    unreachable_in_machine(states, initial, node.id.as_str(), out);
                },
                _ => {
                    assert(before + seq![] =~= before);
                },
            }
            proof {
                lemma_flatten_take(bs, j as int);
                assert(views(out@) =~= mid + bs.take(j + 1).flatten());
            }
            j += 1;
        }
        proof {
            assert(bs.take(bs.len() as int) =~= bs);
            lemma_flatten_take(per, i as int);
            assert(views(out@) =~= start + per.take(i + 1).flatten());
        }
        i += 1;
    }
    assert(per.take(per.len() as int) =~= per);
}

/// The ids of the scene's nodes.
pub open spec fn node_ids(nodes: Seq<Node>) -> Set<Seq<char>> {
    nodes.map_values(|n: Node| n.id@).to_set()
}

fn id_set(nodes: &Vec<Node>) -> (r: StrMap<bool>)
    ensures
        r@.dom() == node_ids(nodes@),
{
    let ghost ids = nodes@.map_values(|n: Node| n.id@);
    let mut out: StrMap<bool> = StrMap::new();
    let mut i: usize = 0;
    assert(out@.dom() =~= ids.take(0).to_set());
    while i < nodes.len()
        invariant
            i <= nodes@.len(),
            ids == nodes@.map_values(|n: Node| n.id@),
            out@.dom() == ids.take(i as int).to_set(),
        decreases nodes.len() - i,
    {
        out.insert(nodes[i].id.clone(), true);
        assert(ids.take(i + 1) =~= ids.take(i as int).push(ids[i as int]));
        proof { ids.take(i as int).lemma_push_to_set_commute(ids[i as int]); }
        assert(out@.dom() =~= ids.take(i + 1).to_set());
        i += 1;
    }
    assert(ids.take(nodes@.len() as int) =~= ids);
    out
}

/// The finding for a node whose parent does not exist.
pub open spec fn parent_findings(n: Node, known: Set<Seq<char>>) -> Seq<LintView> {
    match n.parent {
        Some(p) => if known.contains(p@) {
            seq![]
        } else {
            seq![finding(LintCode::UndefinedNodeReference, LintSeverity::Error, n.id@,
                "node \""@ + n.id@ + "\" has parent \""@ + p@ + "\" but no node with that id exists"@,
                "Define a node with id \""@ + p@ + "\" or remove the parent reference"@)]
        },
        None => seq![],
    }
}

pub open spec fn lists_target_findings(ls: Seq<Seq<Action>>, id: Seq<char>, known: Set<Seq<char>>) -> Seq<Seq<LintView>> {
    ls.map_values(|l: Seq<Action>| target_findings(l, id, known))
}

pub open spec fn behaviors_target_findings(bs: Seq<Behavior>, id: Seq<char>, known: Set<Seq<char>>) -> Seq<Seq<LintView>> {
    bs.map_values(|b: Behavior| lists_target_findings(behavior_lists(b), id, known).flatten())
}

pub open spec fn nodes_reference_findings(nodes: Seq<Node>, known: Set<Seq<char>>) -> Seq<Seq<LintView>> {
    nodes.map_values(|n: Node| parent_findings(n, known) + behaviors_target_findings(n.behaviors@, n.id@, known).flatten())
}

/// The findings for parents and action targets that name no node of the
/// scene, node by node.
pub open spec fn reference_findings(nodes: Seq<Node>) -> Seq<LintView> {
    nodes_reference_findings(nodes, node_ids(nodes)).flatten()
}

fn lint_undefined_node_references(scene: &Scene, known: &StrMap<bool>, out: &mut Vec<LintWarning>)
    requires
        known@.dom() == node_ids(scene.nodes@),
    ensures
        views(final(out)@) == views(old(out)@) + reference_findings(scene.nodes@),
{
    let ghost nodes = scene.nodes@;
    let ghost kn = known@.dom();
    let ghost per = nodes_reference_findings(nodes, kn);
    let ghost start = views(out@);
    let mut i: usize = 0;
    assert(per.take(0) =~= seq![]);
    assert(start + per.take(0).flatten() =~= start);
    while i < scene.nodes.len()
        invariant
            nodes == scene.nodes@,
            kn == known@.dom(),
            per == nodes_reference_findings(nodes, kn),
            i <= nodes.len(),
            views(out@) == start + per.take(i as int).flatten(),
        decreases nodes.len() - i,
    {
        let node = &scene.nodes[i];
        let ghost mid0 = views(out@);
        match &node.parent {
            Some(p) => {
                if !known.contains_key(p.as_str()) {
                    let msg = concat5("node \"", node.id.as_str(), "\" has parent \"", p.as_str(), "\" but no node with that id exists");
                    let sug = concat3("Define a node with id \"", p.as_str(), "\" or remove the parent reference");
                    push_views(out, make_finding(LintCode::UndefinedNodeReference, LintSeverity::Error, node.id.as_str(), msg, sug));
                }
            },
            None => {},
        }
        assert(views(out@) =~= mid0 + parent_findings(*node, kn));
        let ghost bs = behaviors_target_findings(node.behaviors@, node.id@, kn);
        let ghost mid = views(out@);
        let mut j: usize = 0;
        assert(bs.take(0) =~= seq![]);
        assert(mid + bs.take(0).flatten() =~= mid);
        while j < node.behaviors.len()
            invariant
                j <= node.behaviors@.len(),
                kn == known@.dom(),
                bs == behaviors_target_findings(node.behaviors@, node.id@, kn),
                views(out@) == mid + bs.take(j as int).flatten(),
            decreases node.behaviors.len() - j,
        {
            let lists = actions_in_behavior(&node.behaviors[j]);
            let ghost ls = lists_target_findings(behavior_lists(node.behaviors@[j as int]), node.id@, kn);
            let ghost mid2 = views(out@);
            let mut k: usize = 0;
            assert(ls.take(0) =~= seq![]);
            assert(mid2 + ls.take(0).flatten() =~= mid2);
            while k < lists.len()
                invariant
                    k <= lists@.len(),
                    kn == known@.dom(),
                    lists@.map_values(|v: &Vec<Action>| v@) == behavior_lists(node.behaviors@[j as int]),
                    ls == lists_target_findings(behavior_lists(node.behaviors@[j as int]), node.id@, kn),
                    views(out@) == mid2 + ls.take(k as int).flatten(),
                decreases lists.len() - k,
            {
                assert(lists@.map_values(|v: &Vec<Action>| v@)[k as int] == lists@[k as int]@);
                check_targets_in_actions(lists[k].as_slice(), node.id.as_str(), known, out);
                proof {
                    lemma_flatten_take(ls, k as int);
                    assert(views(out@) =~= mid2 + ls.take(k + 1).flatten());
                }
                k += 1;
            }
            proof {
                assert(ls.take(ls.len() as int) =~= ls);
                lemma_flatten_take(bs, j as int);
                assert(views(out@) =~= mid + bs.take(j + 1).flatten());
            }
            j += 1;
        }
        proof {
            assert(bs.take(bs.len() as int) =~= bs);
            lemma_flatten_take(per, i as int);
            assert(views(out@) =~= start + per.take(i + 1).flatten());
        }
        i += 1;
    }
    assert(per.take(per.len() as int) =~= per);
}

pub open spec fn lists_action_findings(ls: Seq<Seq<Action>>, id: Seq<char>) -> Seq<Seq<LintView>> {
    ls.map_values(|l: Seq<Action>| system_findings(l, id) + empty_signal_findings(l, id))
}

pub open spec fn behaviors_action_findings(bs: Seq<Behavior>, id: Seq<char>) -> Seq<Seq<LintView>> {
    bs.map_values(|b: Behavior| lists_action_findings(behavior_lists(b), id).flatten())
}

pub open spec fn nodes_action_findings(nodes: Seq<Node>) -> Seq<Seq<LintView>> {
    nodes.map_values(|n: Node| behaviors_action_findings(n.behaviors@, n.id@).flatten())
}

/// The findings for `call_system` actions and for `emit` actions with an
/// empty signal name, list by list.
pub open spec fn action_findings(nodes: Seq<Node>) -> Seq<LintView> {
    nodes_action_findings(nodes).flatten()
}

fn lint_action_references(scene: &Scene, out: &mut Vec<LintWarning>)
    ensures
        views(final(out)@) == views(old(out)@) + action_findings(scene.nodes@),
{
    let ghost nodes = scene.nodes@;
    let ghost per = nodes_action_findings(nodes);
    let ghost start = views(out@);
    let mut i: usize = 0;
    assert(per.take(0) =~= seq![]);
    assert(start + per.take(0).flatten() =~= start);
    while i < scene.nodes.len()
        invariant
            nodes == scene.nodes@,
            per == nodes_action_findings(nodes),
            i <= nodes.len(),
            views(out@) == start + per.take(i as int).flatten(),
        decreases nodes.len() - i,
    {
        let node = &scene.nodes[i];
        let ghost bs = behaviors_action_findings(node.behaviors@, node.id@);
        let ghost mid = views(out@);
        let mut j: usize = 0;
        assert(bs.take(0) =~= seq![]);
        assert(mid + bs.take(0).flatten() =~= mid);
        while j < node.behaviors.len()
            invariant
                j <= node.behaviors@.len(),
                bs == behaviors_action_findings(node.behaviors@, node.id@),
                views(out@) == mid + bs.take(j as int).flatten(),
            decreases node.behaviors.len() - j,
        {
            let lists = actions_in_behavior(&node.behaviors[j]);
            let ghost ls = lists_action_findings(behavior_lists(node.behaviors@[j as int]), node.id@);
            let ghost mid2 = views(out@);
            let mut k: usize = 0;
            assert(ls.take(0) =~= seq![]);
            assert(mid2 + ls.take(0).flatten() =~= mid2);
            while k < lists.len()
                invariant
                    k <= lists@.len(),
                    lists@.map_values(|v: &Vec<Action>| v@) == behavior_lists(node.behaviors@[j as int]),
                    ls == lists_action_findings(behavior_lists(node.behaviors@[j as int]), node.id@),
                    views(out@) == mid2 + ls.take(k as int).flatten(),
                decreases lists.len() - k,
            {
                assert(lists@.map_values(|v: &Vec<Action>| v@)[k as int] == lists@[k as int]@);
                check_action_system_names(lists[k].as_slice(), node.id.as_str(), out);
                check_action_signal_names(lists[k].as_slice(), node.id.as_str(), out);
                proof {
                    lemma_flatten_take(ls, k as int);
                    assert(views(out@) =~= mid2 + ls.take(k + 1).flatten());
                }
                k += 1;
            }
            proof {
                assert(ls.take(ls.len() as int) =~= ls);
                lemma_flatten_take(bs, j as int);
                assert(views(out@) =~= mid + bs.take(j + 1).flatten());
            }
            j += 1;
        }
        proof {
            assert(bs.take(bs.len() as int) =~= bs);
            lemma_flatten_take(per, i as int);
            assert(views(out@) =~= start + per.take(i + 1).flatten());
        }
        i += 1;
    }
    assert(per.take(per.len() as int) =~= per);
}

pub open spec fn lists_refs(ls: Seq<Seq<Action>>) -> Seq<Set<Seq<char>>> {
    ls.map_values(|l: Seq<Action>| actions_refs(l))
}

pub open spec fn transitions_refs(ts: Seq<Transition>) -> Seq<Set<Seq<char>>> {
    ts.map_values(|t: Transition| expr_refs(t.when))
}

pub open spec fn states_refs(vs: Seq<StateDef>) -> Seq<Set<Seq<char>>> {
    vs.map_values(|s: StateDef| union_all(transitions_refs(s.transitions@)))
}

/// The components of the running node a behavior reads: through its
/// actions, and through its transition conditions.
pub open spec fn behavior_used(b: Behavior) -> Set<Seq<char>> {
    union_all(lists_refs(behavior_lists(b))).union(match b {
        Behavior::StateMachine { states, .. } => union_all(states_refs(states.value_seq())),
        _ => Set::empty(),
    })
}

pub open spec fn behaviors_used(bs: Seq<Behavior>) -> Seq<Set<Seq<char>>> {
    bs.map_values(|b: Behavior| behavior_used(b))
}

/// The components of a node its behaviors read.
pub open spec fn node_used(n: Node) -> Set<Seq<char>> {
    union_all(behaviors_used(n.behaviors@))
}

fn collect_used_components(node: &Node) -> (r: StrMap<bool>)
    ensures
        r@.dom() == node_used(*node),
{
    let ghost bu = behaviors_used(node.behaviors@);
    let mut used: StrMap<bool> = StrMap::new();
    let mut j: usize = 0;
    assert(bu.take(0) =~= seq![]);
    assert(used@.dom() =~= Set::empty());
    while j < node.behaviors.len()
        invariant
            j <= node.behaviors@.len(),
            bu == behaviors_used(node.behaviors@),
            used@.dom() == union_all(bu.take(j as int)),
        decreases node.behaviors.len() - j,
    {
        let b = &node.behaviors[j];
        let ghost base = used@.dom();
        let lists = actions_in_behavior(b);
        let ghost lr = lists_refs(behavior_lists(*b));
        let mut k: usize = 0;
        assert(lr.take(0) =~= seq![]);
        assert(base.union(Set::empty()) =~= base);
        while k < lists.len()
            invariant
                k <= lists@.len(),
                lists@.map_values(|v: &Vec<Action>| v@) == behavior_lists(*b),
                lr == lists_refs(behavior_lists(*b)),
                used@.dom() == base.union(union_all(lr.take(k as int))),
            decreases lists.len() - k,
        {
            assert(lists@.map_values(|v: &Vec<Action>| v@)[k as int] == lists@[k as int]@);
            collect_refs_in(lists[k], &mut used);
            proof {
                lemma_union_take(lr, k as int);
                assert(used@.dom() =~= base.union(union_all(lr.take(k + 1))));
            }
            k += 1;
        }
        assert(lr.take(lr.len() as int) =~= lr);
        let ghost after_lists = used@.dom();
        match b {
            Behavior::StateMachine { states, .. } => {
                let ghost sr = states_refs(states.value_seq());
                states.proof_keys();
                let n = states.len();
                let mut q: usize = 0;
                assert(sr.take(0) =~= seq![]);
                assert(after_lists.union(Set::empty()) =~= after_lists);
                while q < n
                    invariant
                        n == states.value_seq().len() == states.key_seq().len(),
                        q <= n,
                        sr == states_refs(states.value_seq()),
                        used@.dom() == after_lists.union(union_all(sr.take(q as int))),
                    decreases n - q,
                {
                    let st = states.value_at(q);
                    let ghost tr = transitions_refs(st.transitions@);
                    let ghost before_t = used@.dom();
                    let mut t: usize = 0;
                    assert(tr.take(0) =~= seq![]);
                    assert(before_t.union(Set::empty()) =~= before_t);
                    while t < st.transitions.len()
                        invariant
                            t <= st.transitions@.len(),
                            tr == transitions_refs(st.transitions@),
                            used@.dom() == before_t.union(union_all(tr.take(t as int))),
                        decreases st.transitions.len() - t,
                    {
                        collect_refs_from_expr(&st.transitions[t].when, &mut used);
                        proof {
                            lemma_union_take(tr, t as int);
                            assert(used@.dom() =~= before_t.union(union_all(tr.take(t + 1))));
                        }
                        t += 1;
                    }
                    proof {
                        assert(tr.take(tr.len() as int) =~= tr);
                        lemma_union_take(sr, q as int);
                        assert(used@.dom() =~= after_lists.union(union_all(sr.take(q + 1))));
                    }
                    q += 1;
                }
                assert(sr.take(sr.len() as int) =~= sr);
            },
            _ => {
                assert(used@.dom() =~= after_lists.union(Set::empty()));
            },
        }
        proof {
            lemma_union_take(bu, j as int);
            assert(used@.dom() =~= union_all(bu.take(j + 1)));
        }
        j += 1;
    }
    assert(bu.take(bu.len() as int) =~= bu);
    used
}

/// The finding for component `name` of node `id`, which nothing reads.
pub open spec fn unused_finding(name: Seq<char>, id: Seq<char>) -> LintView {
    finding(LintCode::UnusedComponent, LintSeverity::Warning, id,
        "component \""@ + name + "\" on node \""@ + id + "\" is declared but never read by any action"@,
        "Remove \""@ + name + "\" or reference it from an action"@)
}

/// The findings for the declared components of `n` it holds but never
/// reads, in declaration order.
pub open spec fn unused_in(specs: Seq<ComponentSpec>, n: Node, used: Set<Seq<char>>) -> Seq<LintView>
    decreases specs.len(),
{
    if specs.len() == 0 {
        seq![]
    } else {
        let prev = unused_in(specs.drop_last(), n, used);
        let name = specs.last().name@;
        if n.components@.contains_key(name) && !used.contains(name) {
            prev.push(unused_finding(name, n.id@))
        } else {
            prev
        }
    }
}

pub open spec fn nodes_unused(nodes: Seq<Node>, reg: Map<Seq<char>, Seq<ComponentSpec>>) -> Seq<Seq<LintView>> {
    nodes.map_values(|n: Node| if reg.contains_key(n.node_type@) { unused_in(reg[n.node_type@], n, node_used(n)) } else { seq![] })
}

/// For each node of a registered type, a finding for each component of
/// its type's schema that it holds but no action reads.
pub open spec fn unused_findings(nodes: Seq<Node>, reg: Map<Seq<char>, Seq<ComponentSpec>>) -> Seq<LintView> {
    nodes_unused(nodes, reg).flatten()
}

fn lint_unused_components(scene: &Scene, registry: &NodeRegistry, out: &mut Vec<LintWarning>)
    ensures
        views(final(out)@) == views(old(out)@) + unused_findings(scene.nodes@, registry@),
{
    let ghost nodes = scene.nodes@;
    let ghost per = nodes_unused(nodes, registry@);
    let ghost start = views(out@);
    let mut i: usize = 0;
    assert(per.take(0) =~= seq![]);
    assert(start + per.take(0).flatten() =~= start);
    while i < scene.nodes.len()
        invariant
            nodes == scene.nodes@,
            per == nodes_unused(nodes, registry@),
            i <= nodes.len(),
            views(out@) == start + per.take(i as int).flatten(),
        decreases nodes.len() - i,
    {
        let node = &scene.nodes[i];
        let ghost mid = views(out@);
        match registry.get(node.node_type.as_str()) {
            Some(def) => {
                let used = collect_used_components(node);
                let specs = def.component_specs();
                let mut k: usize = 0;
                assert(mid + unused_in(specs@.take(0), *node, used@.dom()) =~= mid);
                while k < specs.len()
                    invariant
                        k <= specs@.len(),
                        used@.dom() == node_used(*node),
                        views(out@) == mid + unused_in(specs@.take(k as int), *node, used@.dom()),
                    decreases specs.len() - k,
                {
                    let name = &specs[k].name;
                    assert(specs@.take(k + 1).drop_last() =~= specs@.take(k as int));
                    assert(specs@.take(k + 1).last() == specs@[k as int]);
                    if node.components.contains_key(name.as_str()) && !used.contains_key(name.as_str()) {
                        let msg = concat5("component \"", name.as_str(), "\" on node \"", node.id.as_str(), "\" is declared but never read by any action");
                        let sug = concat3("Remove \"", name.as_str(), "\" or reference it from an action");
                        push_views(out, make_finding(LintCode::UnusedComponent, LintSeverity::Warning, node.id.as_str(), msg, sug));
                    }
                    k += 1;
                }
                assert(specs@.take(specs@.len() as int) =~= specs@);
            },
            None => {
                assert(mid + seq![] =~= mid);
            },
        }
        proof {
            lemma_flatten_take(per, i as int);
            assert(views(out@) =~= start + per.take(i + 1).flatten());
        }
        i += 1;
    }
    assert(per.take(per.len() as int) =~= per);
}

/// A member of one set of a sequence is in their union.
proof fn lemma_union_all_member(ss: Seq<Set<Seq<char>>>, i: int, x: Seq<char>)
    requires
        0 <= i < ss.len(),
        ss[i].contains(x),
    ensures
        union_all(ss).contains(x),
    decreases ss.len(),
{
    if i < ss.len() - 1 {
        lemma_union_all_member(ss.drop_last(), i, x);
    }
}

/// What one action of a list reads, the list reads.
proof fn lemma_actions_refs_member(acts: Seq<Action>, p: int, x: Seq<char>)
    requires
        0 <= p < acts.len(),
        action_refs(acts[p]).contains(x),
    ensures
        actions_refs(acts).contains(x),
    decreases acts.len(),
{
    if p < acts.len() - 1 {
        lemma_actions_refs_member(acts.drop_last(), p, x);
    }
}

/// Two unused-component findings about one node are equal only when they
/// name the same component.
proof fn lemma_unused_finding_names(a: Seq<char>, b: Seq<char>, id: Seq<char>)
    requires
        unused_finding(a, id) == unused_finding(b, id),
    ensures
        a == b,
{
    reveal_strlit("Remove \""); reveal_strlit("\" or reference it from an action");
    let pre = "Remove \""@;
    let post = "\" or reference it from an action"@;
    let sa = pre + a + post;
    let sb = pre + b + post;
    assert(unused_finding(a, id).suggestion == Some(sa));
    assert(unused_finding(b, id).suggestion == Some(sb));
    assert(sa == sb);
    assert(sa.len() == pre.len() + a.len() + post.len());
    assert(sb.len() == pre.len() + b.len() + post.len());
    assert(a.len() == b.len());
    assert forall|i: int| 0 <= i < a.len() implies a[i] == b[i] by {
        assert(sa[pre.len() + i] == a[i]);
        assert(sb[pre.len() + i] == b[i]);
    }
    assert(a =~= b);
}

/// A component in the read set of a node gets no unused-component finding.
proof fn lemma_unused_in_skips_read(specs: Seq<ComponentSpec>, n: Node, used: Set<Seq<char>>, k: Seq<char>)
    requires
        used.contains(k),
    ensures
        !unused_in(specs, n, used).contains(unused_finding(k, n.id@)),
    decreases specs.len(),
{
    if specs.len() > 0 {
        lemma_unused_in_skips_read(specs.drop_last(), n, used, k);
        let name = specs.last().name@;
        if n.components@.contains_key(name) && !used.contains(name) {
            let prev = unused_in(specs.drop_last(), n, used);
            if prev.push(unused_finding(name, n.id@)).contains(unused_finding(k, n.id@)) {
                let j = choose|j: int| 0 <= j < prev.len() + 1 && prev.push(unused_finding(name, n.id@))[j] == unused_finding(k, n.id@);
                if j < prev.len() {
                    assert(prev.contains(unused_finding(k, n.id@)));
                } else {
                    lemma_unused_finding_names(name, k, n.id@);
                }
            }
        }
    }
}

/// A component that a node writes on itself counts as read: where any
/// action list of one of the node's behaviors holds a `set_state`, `move`
/// or `animate` on the node itself with key `k`, the unused-component
/// check reports nothing for `k` on that node.
pub proof fn law_self_written_component_is_used(
    nodes: Seq<Node>,
    reg: Map<Seq<char>, Seq<ComponentSpec>>,
    i: int,
    j: int,
    l: int,
    p: int,
    k: Seq<char>,
)
    requires
        0 <= i < nodes.len(),
        0 <= j < nodes[i].behaviors@.len(),
        0 <= l < behavior_lists(nodes[i].behaviors@[j]).len(),
        0 <= p < behavior_lists(nodes[i].behaviors@[j])[l].len(),
        match behavior_lists(nodes[i].behaviors@[j])[l][p] {
            Action::SetState { target, key, .. } => target == Target::This && key@ == k,
            Action::Move { target, key, .. } => target == Target::This && key@ == k,
            Action::Animate { target, key, .. } => target == Target::This && key@ == k,
            _ => false,
        },
    ensures
        !nodes_unused(nodes, reg)[i].contains(unused_finding(k, nodes[i].id@)),
        node_used(nodes[i]).contains(k),
{
    let n = nodes[i];
    let b = n.behaviors@[j];
    let ls = behavior_lists(b);
    assert(action_refs(ls[l][p]).contains(k));
    lemma_actions_refs_member(ls[l], p, k);
    assert(lists_refs(ls)[l] == actions_refs(ls[l]));
    lemma_union_all_member(lists_refs(ls), l, k);
    assert(behavior_used(b).contains(k));
    assert(behaviors_used(n.behaviors@)[j] == behavior_used(b));
    lemma_union_all_member(behaviors_used(n.behaviors@), j, k);
    if reg.contains_key(n.node_type@) {
        lemma_unused_in_skips_read(reg[n.node_type@], n, node_used(n), k);
    }
}

// ------------------------------------------------------------------ lint

/// Every finding, sub-check by sub-check, before ordering.
pub open spec fn all_findings(nodes: Seq<Node>, reg: Map<Seq<char>, Seq<ComponentSpec>>) -> Seq<LintView> {
    signal_findings(nodes) + unreachable_findings(nodes) + reference_findings(nodes)
        + action_findings(nodes) + unused_findings(nodes, reg)
}

/// Checks a scene: signals emitted with no subscriber, states no
/// transition reaches, parents and action targets naming missing nodes,
/// `call_system` actions and unnamed `emit`s, and components of a
/// registered type no action reads. Findings come sorted by code name,
/// then node, ties in check order.
pub fn lint(scene: &Scene, registry: &NodeRegistry) -> (r: Vec<LintWarning>)
    ensures
        stably_sorted(all_findings(scene.nodes@, registry@), views(r@)),
{
    let mut warnings: Vec<LintWarning> = Vec::new();
    let known = id_set(&scene.nodes);
    lint_signals_with_no_subscribers(scene, &mut warnings);
    lint_unreachable_states(scene, &mut warnings);
    lint_undefined_node_references(scene, &known, &mut warnings);
    lint_action_references(scene, &mut warnings);
    lint_unused_components(scene, registry, &mut warnings);
    assert(views(warnings@) =~= all_findings(scene.nodes@, registry@));
    sort_findings(warnings)
}

} // verus!
