//! Recording and replay records: the signals a scene listens to, the Lua
//! modules a recording used and how they drifted since, the per-tick
//! reports of a recording, and differences between two ticks.

use vstd::prelude::*;
use crate::json::Json;
use crate::strmap::{StrMap, keys_ascending};
use crate::text::{debug_text, debug_quoted, push_str, str_eq};
use crate::validate::lemma_ascending_unique;
use crate::behavior::{Behavior, Expression, StateDef, Transition};
use crate::lint::{first_dot, is_first_dot, union_all, find_dot, chars_between, lemma_first_dot, lemma_union_take};
use crate::hot_reload::{lists_in_order, texts};
use crate::scene::{Node, Scene};
use crate::signal::{SignalBus, SignalId, declared, name_index};
use crate::resource::{Resource, ResourceId, ResourceRegistry};
use crate::json::{clone_members, jvals_same, json_same};
use crate::same::jmap_same;
use crate::error::{EngineError, EngineResult};
use crate::strmap::lemma_ascending_no_dup;
use crate::text::to_chars;

verus! {

broadcast use vstd::string::group_string_axioms;

/// A Lua module binding captured when recording started.
#[derive(Debug, Clone, PartialEq, Eq)]
pub struct ModuleRecord {
    pub name: String,
    pub version: String,
    pub sha256: String,
}

/// A signal fired during a tick.
#[derive(Debug)]
pub struct SignalRecord {
    pub name: String,
    pub args: StrMap<Json>,
}

/// The input of a tick.
#[derive(Debug)]
pub struct InputFrame {
    pub actions: StrMap<Json>,
}

impl InputFrame {
    /// No input.
    pub fn empty() -> (r: Self)
        ensures
            r.actions@ == Map::<Seq<char>, Json>::empty(),
    {
        InputFrame { actions: StrMap::new() }
    }
}

/// What happened in one recorded tick.
#[derive(Debug)]
pub struct TickReport {
    pub tick: u64,
    pub input: InputFrame,
    pub state_hash: u64,
    pub signals_emitted: Vec<SignalRecord>,
}

/// The outcome of replaying one tick.
#[derive(Debug, Clone)]
pub struct ReplayEvent {
    pub tick: u64,
    pub pre_hash: u64,
    pub recorded_hash: u64,
    pub post_hash: u64,
    pub hash_ok: bool,
}

impl ReplayEvent {
    /// The event for a recorded tick replayed from state `pre_hash` to
    /// `post_hash`: it is in order when the state before the tick is the
    /// recorded one.
    pub fn new(tick: u64, pre_hash: u64, recorded_hash: u64, post_hash: u64) -> (r: Self)
        ensures
            r.tick == tick,
            r.pre_hash == pre_hash,
            r.recorded_hash == recorded_hash,
            r.post_hash == post_hash,
            r.hash_ok == (pre_hash == recorded_hash),
    {
        ReplayEvent { tick, pre_hash, recorded_hash, post_hash, hash_ok: pre_hash == recorded_hash }
    }
}

/// How two recorded ticks differ.
#[derive(Debug, Clone)]
pub struct StateDiff {
    pub tick_a: u64,
    pub tick_b: u64,
    pub a_hash: u64,
    pub b_hash: u64,
    pub nodes_added: u64,
    pub nodes_removed: u64,
    pub identical: bool,
}

/// The first report of tick `tick`.
pub open spec fn first_report(frames: Seq<TickReport>, tick: u64) -> Option<int>
    decreases frames.len(),
{
    if frames.len() == 0 {
        None
    } else {
        match first_report(frames.drop_last(), tick) {
            Some(i) => Some(i),
            None => if frames.last().tick == tick { Some(frames.len() - 1) } else { None },
        }
    }
}

proof fn lemma_first_report(frames: Seq<TickReport>, tick: u64)
    ensures
        first_report(frames, tick) matches Some(i) ==> 0 <= i < frames.len() && frames[i].tick == tick,
    decreases frames.len(),
{
    if frames.len() > 0 {
        lemma_first_report(frames.drop_last(), tick);
    }
}

/// The report of tick `tick` among `frames`, if recorded.
pub fn snapshot_at(frames: &Vec<TickReport>, tick: u64) -> (r: Option<&TickReport>)
    ensures
        match first_report(frames@, tick) {
            Some(i) => r matches Some(f) && *f == frames@[i],
            None => r is None,
        },
{
    proof { lemma_first_report(frames@, tick); }
    let mut i: usize = 0;
    while i < frames.len()
        invariant
            i <= frames@.len(),
            first_report(frames@.take(i as int), tick) is None,
        decreases frames.len() - i,
    {
        assert(frames@.take(i + 1).drop_last() =~= frames@.take(i as int));
        if frames[i].tick == tick {
            proof { lemma_first_report_extend(frames@, tick, i as int + 1); }
            return Some(&frames[i]);
        }
        i += 1;
    }
    assert(frames@.take(frames@.len() as int) =~= frames@);
    None
}

proof fn lemma_first_report_extend(frames: Seq<TickReport>, tick: u64, k: int)
    requires
        0 < k <= frames.len(),
        first_report(frames.take(k - 1), tick) is None,
        frames[k - 1].tick == tick,
    ensures
        first_report(frames, tick) == Some(k - 1),
    decreases frames.len(),
{
    if frames.len() == k {
        assert(frames.drop_last() =~= frames.take(k - 1));
    } else {
        assert(frames.drop_last().take(k - 1) =~= frames.take(k - 1));
        lemma_first_report_extend(frames.drop_last(), tick, k);
    }
}

// ------------------------------------------------------------ name sets

/// The distinct names in `names`, ascending.
pub open spec fn ascending_set(names: Set<Seq<char>>) -> Seq<Seq<char>> {
    choose|s: Seq<Seq<char>>| keys_ascending(s) && forall|k: Seq<char>| s.contains(k) <==> names.contains(k)
}

/// Builds the set of the given names as a sorted map.
fn name_set(names: &Vec<String>) -> (r: StrMap<bool>)
    ensures
        forall|k: Seq<char>| r@.contains_key(k) <==> names@.map_values(|s: String| s@).contains(k),
        r.key_seq() == ascending_set(names@.map_values(|s: String| s@).to_set()),
{
    let ghost vs = names@.map_values(|s: String| s@);
    let mut out: StrMap<bool> = StrMap::new();
    let mut i: usize = 0;
    while i < names.len()
        invariant
            i <= names@.len(),
            vs == names@.map_values(|s: String| s@),
            forall|k: Seq<char>| out@.contains_key(k) <==> vs.take(i as int).contains(k),
        decreases names.len() - i,
    {
        out.insert(names[i].clone(), true);
        proof {
            assert forall|k: Seq<char>| out@.contains_key(k) <==> vs.take(i + 1).contains(k) by {
                if vs.take(i + 1).contains(k) && k != vs[i as int] {
                    let t = choose|t: int| 0 <= t < i + 1 && #[trigger] vs.take(i + 1)[t] == k;
                    assert(vs.take(i as int)[t] == k);
                }
                if vs.take(i as int).contains(k) {
                    let t = choose|t: int| 0 <= t < i && #[trigger] vs.take(i as int)[t] == k;
                    assert(vs.take(i + 1)[t] == k);
                }
                if k == vs[i as int] {
                    assert(vs.take(i + 1)[i as int] == k);
                }
            }
        }
        i += 1;
    }
    assert(vs.take(names@.len() as int) =~= vs);
    out.proof_keys();
    proof {
        let ks = out.key_seq();
        assert(keys_ascending(ks) && forall|k: Seq<char>| ks.contains(k) <==> vs.to_set().contains(k));
        lemma_ascending_unique(ks, ascending_set(vs.to_set()));
    }
    out
}

/// How many names of `b` are not in `a`, each counted once.
pub open spec fn count_new(a: Set<Seq<char>>, b: Set<Seq<char>>) -> nat {
    ascending_set(b).filter(|k: Seq<char>| !a.contains(k)).len()
}

fn names_of(records: &Vec<SignalRecord>) -> (r: Vec<String>)
    ensures
        r@.map_values(|s: String| s@) == records@.map_values(|s: SignalRecord| s.name@),
{
    let mut out: Vec<String> = Vec::new();
    let mut i: usize = 0;
    while i < records.len()
        invariant
            i <= records@.len(),
            out@.map_values(|s: String| s@) == records@.take(i as int).map_values(|s: SignalRecord| s.name@),
        decreases records.len() - i,
    {
        let ghost before = out@;
        let nm = records[i].name.clone();
        out.push(nm);
        assert(out@.map_values(|s: String| s@) =~= before.map_values(|s: String| s@).push(nm@));
        assert(records@.take(i + 1).map_values(|s: SignalRecord| s.name@)
            =~= records@.take(i as int).map_values(|s: SignalRecord| s.name@).push(records@[i as int].name@));
        i += 1;
    }
    assert(records@.take(records@.len() as int) =~= records@);
    out
}

fn count_missing(from: &StrMap<bool>, other: &StrMap<bool>) -> (n: u64)
    ensures
        n == from.key_seq().filter(|k: Seq<char>| !other@.contains_key(k)).len(),
{
    let ks = from.len();
    let ghost keys = from.key_seq();
    let ghost pred = |k: Seq<char>| !other@.contains_key(k);
    let mut n: u64 = 0;
    let mut i: usize = 0;
    while i < ks
        invariant
            i <= ks == keys.len(),
            keys == from.key_seq(),
            pred == (|k: Seq<char>| !other@.contains_key(k)),
            n == keys.take(i as int).filter(pred).len(),
            n <= i,
        decreases ks - i,
    {
        let k = from.key_at(i);
        assert(keys.take(i + 1).drop_last() =~= keys.take(i as int));
        proof { reveal_with_fuel(Seq::filter, 1); }
        if !other.contains_key(k.as_str()) {
            n = n + 1;
        }
        i += 1;
    }
    assert(keys.take(ks as int) =~= keys);
    n
}

/// The signal names of a tick report.
pub open spec fn signal_names(r: TickReport) -> Set<Seq<char>> {
    r.signals_emitted@.map_values(|s: SignalRecord| s.name@).to_set()
}

/// How ticks `tick_a` and `tick_b` of a recording differ: their state
/// hashes, how many signal names fired in `b` but not `a` and the
/// reverse, and whether the hashes agree. `None` if either tick was not
/// recorded.
pub fn diff(frames: &Vec<TickReport>, tick_a: u64, tick_b: u64) -> (r: Option<StateDiff>)
    ensures
        match (first_report(frames@, tick_a), first_report(frames@, tick_b)) {
            (Some(i), Some(j)) => r matches Some(d) && {
                let a = frames@[i];
                let b = frames@[j];
                &&& d.tick_a == tick_a && d.tick_b == tick_b
                &&& d.a_hash == a.state_hash && d.b_hash == b.state_hash
                &&& d.nodes_added == count_new(signal_names(a), signal_names(b))
                &&& d.nodes_removed == count_new(signal_names(b), signal_names(a))
                &&& d.identical == (a.state_hash == b.state_hash)
            },
            _ => r is None,
        },
{
    let a = match snapshot_at(frames, tick_a) { Some(a) => a, None => return None };
    let b = match snapshot_at(frames, tick_b) { Some(b) => b, None => return None };
    let a_set = name_set(&names_of(&a.signals_emitted));
    let b_set = name_set(&names_of(&b.signals_emitted));
    let added = count_missing(&b_set, &a_set);
    let removed = count_missing(&a_set, &b_set);
    proof {
        let an = a.signals_emitted@.map_values(|s: SignalRecord| s.name@);
        let bn = b.signals_emitted@.map_values(|s: SignalRecord| s.name@);
        assert(forall|k: Seq<char>| a_set@.contains_key(k) <==> an.to_set().contains(k));
        assert(forall|k: Seq<char>| b_set@.contains_key(k) <==> bn.to_set().contains(k));
        assert((|k: Seq<char>| !a_set@.contains_key(k)) =~= (|k: Seq<char>| !an.to_set().contains(k)));
        assert((|k: Seq<char>| !b_set@.contains_key(k)) =~= (|k: Seq<char>| !bn.to_set().contains(k)));
    }
    Some(StateDiff {
        tick_a,
        tick_b,
        a_hash: a.state_hash,
        b_hash: b.state_hash,
        nodes_added: added,
        nodes_removed: removed,
        identical: a.state_hash == b.state_hash,
    })
}


// ------------------------------------------------------------ module drift

/// The last record of each module name.
pub open spec fn by_name(records: Seq<ModuleRecord>) -> Map<Seq<char>, ModuleRecord>
    decreases records.len(),
{
    if records.len() == 0 {
        Map::empty()
    } else {
        by_name(records.drop_last()).insert(records.last().name@, records.last())
    }
}

/// The drift reports for recorded modules `names`, in order.
pub open spec fn recorded_drift(names: Seq<Seq<char>>, rec: Map<Seq<char>, ModuleRecord>,
    cur: Map<Seq<char>, ModuleRecord>) -> Seq<Seq<char>>
    decreases names.len(),
{
    if names.len() == 0 {
        Seq::empty()
    } else {
        let n = names.last();
        recorded_drift(names.drop_last(), rec, cur) + if cur.contains_key(n) {
            (if cur[n].version@ != rec[n].version@ {
                seq!["module "@ + debug_text(n) + " version drift: recorded "@ + rec[n].version@ + ", current "@ + cur[n].version@]
            } else {
                Seq::<Seq<char>>::empty()
            }) + (if cur[n].sha256@ != rec[n].sha256@ {
                seq!["module "@ + debug_text(n) + " source hash drift: recorded "@ + rec[n].sha256@ + ", current "@ + cur[n].sha256@]
            } else {
                Seq::<Seq<char>>::empty()
            })
        } else {
            seq!["module "@ + debug_text(n) + " was used during recording but is no longer loaded"@]
        }
    }
}

/// The reports for loaded modules `names` the recording did not use.
pub open spec fn unrecorded(names: Seq<Seq<char>>, rec: Map<Seq<char>, ModuleRecord>) -> Seq<Seq<char>>
    decreases names.len(),
{
    if names.len() == 0 {
        Seq::empty()
    } else {
        let n = names.last();
        unrecorded(names.drop_last(), rec) + if rec.contains_key(n) {
            Seq::<Seq<char>>::empty()
        } else {
            seq!["module "@ + debug_text(n) + " is currently loaded but was not used during recording"@]
        }
    }
}

/// Every drift between the modules of a recording and those loaded now:
/// per recorded module (by name, ascending) its version and hash drift or
/// its absence, then per loaded module the recording did not use.
pub open spec fn module_drift(recorded: Seq<ModuleRecord>, current: Seq<ModuleRecord>) -> Seq<Seq<char>> {
    let rec = by_name(recorded);
    let cur = by_name(current);
    recorded_drift(ascending_set(rec.dom()), rec, cur) + unrecorded(ascending_set(cur.dom()), rec)
}

/// Indexes records by name (the last record of a name wins).
fn index_by_name(records: &Vec<ModuleRecord>) -> (r: StrMap<usize>)
    ensures
        forall|k: Seq<char>| #[trigger] r@.contains_key(k) <==> by_name(records@).contains_key(k),
        forall|k: Seq<char>| #[trigger] r@.contains_key(k) ==> r@[k] < records@.len()
            && records@[r@[k] as int] == by_name(records@)[k],
        r.key_seq() == ascending_set(by_name(records@).dom()),
{
    let mut out: StrMap<usize> = StrMap::new();
    let mut i: usize = 0;
    while i < records.len()
        invariant
            i <= records@.len(),
            forall|k: Seq<char>| #[trigger] out@.contains_key(k) <==> by_name(records@.take(i as int)).contains_key(k),
            forall|k: Seq<char>| #[trigger] out@.contains_key(k) ==> out@[k] < i
                && records@[out@[k] as int] == by_name(records@.take(i as int))[k],
        decreases records.len() - i,
    {
        assert(records@.take(i + 1).drop_last() =~= records@.take(i as int));
        out.insert(records[i].name.clone(), i);
        i += 1;
    }
    assert(records@.take(records@.len() as int) =~= records@);
    out.proof_keys();
    proof {
        let ks = out.key_seq();
        let d = by_name(records@).dom();
        assert(keys_ascending(ks) && forall|k: Seq<char>| ks.contains(k) <==> d.contains(k));
        lemma_ascending_unique(ks, ascending_set(d));
    }
    out
}

fn report(parts: &[&str]) -> (r: String)
    ensures
        r@ == parts_text(parts@),
{
    let mut out = String::new();
    let mut i: usize = 0;
    while i < parts.len()
        invariant
            i <= parts@.len(),
            out@ == parts_text(parts@.take(i as int)),
        decreases parts.len() - i,
    {
        push_str(&mut out, parts[i]);
        assert(parts@.take(i + 1).drop_last() =~= parts@.take(i as int));
        i += 1;
    }
    assert(parts@.take(parts@.len() as int) =~= parts@);
    out
}

/// The concatenation of some texts.
pub open spec fn parts_text(parts: Seq<&str>) -> Seq<char>
    decreases parts.len(),
{
    if parts.len() == 0 { Seq::empty() } else { parts_text(parts.drop_last()) + parts.last()@ }
}

/// Compares the modules a recording used with those loaded now and
/// reports each drift (see `module_drift`); no report means they agree.
pub fn validate_module_records(recorded: &Vec<ModuleRecord>, current: &Vec<ModuleRecord>) -> (r: Vec<String>)
    ensures
        r@.map_values(|s: String| s@) == module_drift(recorded@, current@),
{
    let rmap = index_by_name(recorded);
    let cmap = index_by_name(current);
    let ghost rec = by_name(recorded@);
    let ghost cur = by_name(current@);
    let ghost rnames = rmap.key_seq();
    let ghost cnames = cmap.key_seq();
    let mut out: Vec<String> = Vec::new();
    let n = rmap.len();
    let mut i: usize = 0;
    while i < n
        invariant
            i <= n == rnames.len(),
            rnames == rmap.key_seq(),
            rec == by_name(recorded@),
            cur == by_name(current@),
            forall|k: Seq<char>| #[trigger] rmap@.contains_key(k) <==> rec.contains_key(k),
            forall|k: Seq<char>| #[trigger] rmap@.contains_key(k) ==> rmap@[k] < recorded@.len() && recorded@[rmap@[k] as int] == rec[k],
            forall|k: Seq<char>| #[trigger] cmap@.contains_key(k) <==> cur.contains_key(k),
            forall|k: Seq<char>| #[trigger] cmap@.contains_key(k) ==> cmap@[k] < current@.len() && current@[cmap@[k] as int] == cur[k],
            out@.map_values(|s: String| s@) == recorded_drift(rnames.take(i as int), rec, cur),
        decreases n - i,
    {
        let name = rmap.key_at(i);
        let ri = *rmap.value_at(i);
        let r = &recorded[ri];
        let dbg = debug_quoted(name.as_str());
        let ghost before = out@;
        assert(rnames.take(i + 1).drop_last() =~= rnames.take(i as int));
        assert(rnames.take(i + 1).last() == name@);
        match cmap.get(name.as_str()) {
            Some(ci) => {
                let c = &current[*ci];
                if !str_eq(c.version.as_str(), r.version.as_str()) {
                    out.push(report(&["module ", dbg.as_str(), " version drift: recorded ", r.version.as_str(), ", current ", c.version.as_str()]));
                }
                let ghost mid = out@;
                if !str_eq(c.sha256.as_str(), r.sha256.as_str()) {
                    out.push(report(&["module ", dbg.as_str(), " source hash drift: recorded ", r.sha256.as_str(), ", current ", c.sha256.as_str()]));
                }
                proof {
                    reveal_with_fuel(parts_text, 7);
                    assert(out@.map_values(|s: String| s@) =~= recorded_drift(rnames.take(i + 1), rec, cur));
                }
            },
            None => {
                out.push(report(&["module ", dbg.as_str(), " was used during recording but is no longer loaded"]));
                proof {
                    reveal_with_fuel(parts_text, 4);
                    assert(out@.map_values(|s: String| s@) =~= recorded_drift(rnames.take(i + 1), rec, cur));
                }
            },
        }
        i += 1;
    }
    assert(rnames.take(n as int) =~= rnames);
    let ghost first = out@.map_values(|s: String| s@);
    let m = cmap.len();
    let mut j: usize = 0;
    while j < m
        invariant
            j <= m == cnames.len(),
            cnames == cmap.key_seq(),
            rec == by_name(recorded@),
            forall|k: Seq<char>| #[trigger] rmap@.contains_key(k) <==> rec.contains_key(k),
            out@.map_values(|s: String| s@) == first + unrecorded(cnames.take(j as int), rec),
        decreases m - j,
    {
        let name = cmap.key_at(j);
        assert(cnames.take(j + 1).drop_last() =~= cnames.take(j as int));
        assert(cnames.take(j + 1).last() == name@);
        let ghost before = out@;
        if !rmap.contains_key(name.as_str()) {
            let dbg = debug_quoted(name.as_str());
            let msg = report(&["module ", dbg.as_str(), " is currently loaded but was not used during recording"]);
            out.push(msg);
            proof {
                reveal_with_fuel(parts_text, 4);
                assert(out@.map_values(|s: String| s@) =~= before.map_values(|s: String| s@).push(msg@));
            }
        }
        assert(out@.map_values(|s: String| s@) =~= first + unrecorded(cnames.take(j + 1), rec));
        j += 1;
    }
    assert(cnames.take(m as int) =~= cnames);
    out
}

// ------------------------------------------------------- scene signals

/// What follows the first `.` of a reference, if it has one.
pub open spec fn key_after_dot(s: Seq<char>) -> Set<Seq<char>> {
    if first_dot(s) < s.len() {
        set![s.skip(first_dot(s) + 1)]
    } else {
        Set::empty()
    }
}

/// The signal names a condition refers to: the part after the first `.`
/// of each reference.
pub open spec fn expr_signal_refs(e: Expression) -> Set<Seq<char>>
    decreases e,
{
    match e {
        Expression::Bare(s) => key_after_dot(s@),
        Expression::Ref { path } => key_after_dot(path@),
        Expression::Eq { eq } => exprs_signal_refs(eq@),
        Expression::Neq { neq } => exprs_signal_refs(neq@),
        Expression::Lt { lt } => exprs_signal_refs(lt@),
        Expression::Gt { gt } => exprs_signal_refs(gt@),
        Expression::Add { add } => exprs_signal_refs(add@),
        Expression::Sub { sub } => exprs_signal_refs(sub@),
        Expression::Literal(_) => Set::empty(),
    }
}

/// The signal names a list of conditions refers to.
pub open spec fn exprs_signal_refs(es: Seq<Expression>) -> Set<Seq<char>>
    decreases es,
{
    if es.len() == 0 {
        Set::empty()
    } else {
        exprs_signal_refs(es.drop_last()).union(expr_signal_refs(es.last()))
    }
}

pub open spec fn transitions_signal_refs(ts: Seq<Transition>) -> Seq<Set<Seq<char>>> {
    ts.map_values(|t: Transition| expr_signal_refs(t.when))
}

pub open spec fn states_signal_refs(vs: Seq<StateDef>) -> Seq<Set<Seq<char>>> {
    vs.map_values(|s: StateDef| union_all(transitions_signal_refs(s.transitions@)))
}

/// The signals a behavior listens to, or its transitions refer to.
pub open spec fn behavior_signal_names(b: Behavior) -> Set<Seq<char>> {
    match b {
        Behavior::OnSignal { signal, .. } => set![signal@],
        Behavior::StateMachine { states, .. } => union_all(states_signal_refs(states.value_seq())),
        _ => Set::empty(),
    }
}

pub open spec fn behaviors_signal_names(bs: Seq<Behavior>) -> Seq<Set<Seq<char>>> {
    bs.map_values(|b: Behavior| behavior_signal_names(b))
}

pub open spec fn nodes_signal_names(nodes: Seq<Node>) -> Seq<Set<Seq<char>>> {
    nodes.map_values(|n: Node| union_all(behaviors_signal_names(n.behaviors@)))
}

/// The signals the behaviors of a scene listen to or refer to.
pub open spec fn scene_signal_names(nodes: Seq<Node>) -> Set<Seq<char>> {
    union_all(nodes_signal_names(nodes))
}

fn add_key_after_dot(s: &str, out: &mut StrMap<bool>)
    ensures
        final(out)@.dom() == old(out)@.dom().union(key_after_dot(s@)),
{
    let cs = to_chars(s);
    let i = find_dot(&cs, 0);
    assert(cs@.skip(0) =~= cs@);
    proof { lemma_first_dot(s@, i as int); }
    if i < cs.len() {
        let k = chars_between(&cs, i + 1, cs.len());
        assert(k@ =~= s@.skip(i + 1));
        let ghost kv = k@;
        out.insert(k, true);
        assert(out@.dom() =~= old(out)@.dom().union(set![kv]));
    } else {
        assert(out@.dom() =~= old(out)@.dom().union(Set::empty()));
    }
}

/// Adds to `out` the signal names a condition refers to.
fn collect_signal_refs_from_expr(e: &Expression, out: &mut StrMap<bool>)
    ensures
        final(out)@.dom() == old(out)@.dom().union(expr_signal_refs(*e)),
    decreases *e,
{
    match e {
        Expression::Bare(s) => add_key_after_dot(s.as_str(), out),
        Expression::Ref { path } => add_key_after_dot(path.as_str(), out),
        Expression::Eq { eq } => collect_signal_refs_from_exprs(eq, out),
        Expression::Neq { neq } => collect_signal_refs_from_exprs(neq, out),
        Expression::Lt { lt } => collect_signal_refs_from_exprs(lt, out),
        Expression::Gt { gt } => collect_signal_refs_from_exprs(gt, out),
        Expression::Add { add } => collect_signal_refs_from_exprs(add, out),
        Expression::Sub { sub } => collect_signal_refs_from_exprs(sub, out),
        Expression::Literal(_) => {
            assert(out@.dom() =~= old(out)@.dom().union(Set::empty()));
        },
    }
}

fn collect_signal_refs_from_exprs(es: &Vec<Expression>, out: &mut StrMap<bool>)
    ensures
        final(out)@.dom() == old(out)@.dom().union(exprs_signal_refs(es@)),
    decreases es,
{
    let ghost start = out@.dom();
    let mut i: usize = 0;
    assert(es@.take(0) =~= seq![]);
    assert(start.union(Set::empty()) =~= start);
    while i < es.len()
        invariant
            i <= es@.len(),
            out@.dom() == start.union(exprs_signal_refs(es@.take(i as int))),
        decreases es.len() - i,
    {
        assert(es@.take(i + 1).drop_last() =~= es@.take(i as int));
        assert(es@.take(i + 1).last() == es@[i as int]);
        assert(decreases_to!(es => es@[i as int]));
        collect_signal_refs_from_expr(&es[i], out);
        assert(out@.dom() =~= start.union(exprs_signal_refs(es@.take(i + 1))));
        i += 1;
    }
    assert(es@.take(es@.len() as int) =~= es@);
}

/// The signals a scene listens to or refers to, each once, in order.
pub fn collect_signal_names_from_scene(scene: &Scene) -> (r: Vec<String>)
    ensures
        lists_in_order(texts(r@), scene_signal_names(scene.nodes@)),
{
    let ghost per = nodes_signal_names(scene.nodes@);
    let mut set: StrMap<bool> = StrMap::new();
    let mut i: usize = 0;
    assert(per.take(0) =~= seq![]);
    assert(set@.dom() =~= Set::empty());
    while i < scene.nodes.len()
        invariant
            i <= scene.nodes@.len(),
            per == nodes_signal_names(scene.nodes@),
            set@.dom() == union_all(per.take(i as int)),
        decreases scene.nodes.len() - i,
    {
        let node = &scene.nodes[i];
        let ghost bs = behaviors_signal_names(node.behaviors@);
        let ghost base = set@.dom();
        let mut j: usize = 0;
        assert(bs.take(0) =~= seq![]);
        assert(base.union(Set::empty()) =~= base);
        while j < node.behaviors.len()
            invariant
                j <= node.behaviors@.len(),
                bs == behaviors_signal_names(node.behaviors@),
                set@.dom() == base.union(union_all(bs.take(j as int))),
            decreases node.behaviors.len() - j,
        {
            let ghost before = set@.dom();
            match &node.behaviors[j] {
                Behavior::OnSignal { signal, .. } => {
                    set.insert(signal.clone(), true);
                    assert(set@.dom() =~= before.union(set![signal@]));
                },
                Behavior::StateMachine { states, .. } => {
                    let ghost sr = states_signal_refs(states.value_seq());
                    states.proof_keys();
                    let n = states.len();
                    let mut q: usize = 0;
                    assert(sr.take(0) =~= seq![]);
                    assert(before.union(Set::empty()) =~= before);
                    while q < n
                        invariant
                            n == states.value_seq().len() == states.key_seq().len(),
                            q <= n,
                            sr == states_signal_refs(states.value_seq()),
                            set@.dom() == before.union(union_all(sr.take(q as int))),
                        decreases n - q,
                    {
                        let st = states.value_at(q);
                        let ghost tr = transitions_signal_refs(st.transitions@);
                        let ghost bt = set@.dom();
                        let mut t: usize = 0;
                        assert(tr.take(0) =~= seq![]);
                        assert(bt.union(Set::empty()) =~= bt);
                        while t < st.transitions.len()
                            invariant
                                t <= st.transitions@.len(),
                                tr == transitions_signal_refs(st.transitions@),
                                set@.dom() == bt.union(union_all(tr.take(t as int))),
                            decreases st.transitions.len() - t,
                        {
                            collect_signal_refs_from_expr(&st.transitions[t].when, &mut set);
                            proof {
                                lemma_union_take(tr, t as int);
                                assert(set@.dom() =~= bt.union(union_all(tr.take(t + 1))));
                            }
                            t += 1;
                        }
                        proof {
                            assert(tr.take(tr.len() as int) =~= tr);
                            lemma_union_take(sr, q as int);
                            assert(set@.dom() =~= before.union(union_all(sr.take(q + 1))));
                        }
                        q += 1;
                    }
                    assert(sr.take(sr.len() as int) =~= sr);
                },
                _ => {
                    assert(set@.dom() =~= before.union(Set::empty()));
                },
            }
            proof {
                lemma_union_take(bs, j as int);
                assert(set@.dom() =~= base.union(union_all(bs.take(j + 1))));
            }
            j += 1;
        }
        proof {
            assert(bs.take(bs.len() as int) =~= bs);
            lemma_union_take(per, i as int);
        }
        i += 1;
    }
    assert(per.take(per.len() as int) =~= per);
    set.proof_keys();
    let mut out: Vec<String> = Vec::new();
    let n = set.len();
    let mut j: usize = 0;
    while j < n
        invariant
            j <= n == set.key_seq().len(),
            texts(out@) == set.key_seq().take(j as int),
        decreases n - j,
    {
        let ghost before = out@;
        let kc = set.key_at(j).clone();
        let ghost kv = kc;
        out.push(kc);
        assert(out@ == before.push(kv));
        assert(texts(out@) =~= texts(before).push(kv@));
        assert(set.key_seq().take(j + 1) =~= set.key_seq().take(j as int).push(set.key_seq()[j as int]));
        j += 1;
    }
    assert(set.key_seq().take(n as int) =~= set.key_seq());
    out
}

// -------------------------------------------------------------- recorder

/// What a recording was made from.
#[derive(Debug)]
pub struct RecordingMeta {
    pub scene_snapshot: Json,
    pub resource_snapshots: StrMap<Json>,
    pub seed: u64,
    pub tick_hz: u32,
    pub total_ticks: u64,
    pub module_records: Vec<ModuleRecord>,
    pub rng_locked: bool,
}

/// A recording: its origin and its ticks.
#[derive(Debug)]
pub struct Recording {
    pub meta: RecordingMeta,
    pub frames: Vec<TickReport>,
}

impl Recording {
    /// The first frame of tick `tick`.
    pub fn snapshot_at(&self, tick: u64) -> (r: Option<&TickReport>)
        ensures
            match first_report(self.frames@, tick) {
                Some(i) => r matches Some(f) && *f == self.frames@[i],
                None => r is None,
            },
    {
        snapshot_at(&self.frames, tick)
    }
}

/// Each resource's data by URI (a later entry of a URI wins).
pub open spec fn resource_data(entries: Seq<Resource>) -> Map<Seq<char>, Json>
    decreases entries.len(),
{
    if entries.len() == 0 {
        Map::empty()
    } else {
        resource_data(entries.drop_last()).insert(entries.last().uri@, entries.last().data)
    }
}

/// `m` holds, for each key of `d`, a document equal to `d`'s.
pub open spec fn snapshots_of(m: Map<Seq<char>, Json>, d: Map<Seq<char>, Json>) -> bool {
    m.dom() == d.dom() && forall|k: Seq<char>| #[trigger] m.contains_key(k) ==> json_same(m[k], d[k])
}

/// Copies the data of every registered resource, by URI.
fn snapshot_resources(resources: &ResourceRegistry) -> (r: StrMap<Json>)
    ensures
        snapshots_of(r@, resource_data(resources.entries())),
{
    let ghost es = resources.entries();
    resources.proof_ids();
    let mut out: StrMap<Json> = StrMap::new();
    let n = resources.len();
    let mut i: usize = 0;
    assert(es.take(0) =~= seq![]);
    assert(out@.dom() =~= Set::empty());
    while i < n
        invariant
            n == es.len(),
            n <= u32::MAX,
            es == resources.entries(),
            i <= n,
            snapshots_of(out@, resource_data(es.take(i as int))),
        decreases n - i,
    {
        assert(es.take(i + 1).drop_last() =~= es.take(i as int));
        assert(es.take(i + 1).last() == es[i as int]);
        let ghost before = out@;
        match resources.get(ResourceId(i as u32)) {
            Some(res) => {
                let c = res.data.deep_clone();
                let ghost cv = c;
                out.insert(res.uri.clone(), c);
                proof {
                    let d = resource_data(es.take(i + 1));
                    assert(out@ == before.insert(res.uri@, cv));
                    assert(out@.dom() =~= d.dom());
                    assert forall|k: Seq<char>| #[trigger] out@.contains_key(k) implies json_same(out@[k], d[k]) by {
                        if k != res.uri@ {
                            assert(before.contains_key(k));
                        }
                    }
                }
            },
            None => {},
        }
        i += 1;
    }
    assert(es.take(n as int) =~= es);
    out
}

/// The first module record with an empty name or version.
pub open spec fn first_incomplete(modules: Seq<ModuleRecord>) -> Option<int>
    decreases modules.len(),
{
    if modules.len() == 0 {
        None
    } else {
        match first_incomplete(modules.drop_last()) {
            Some(i) => Some(i),
            None => if modules.last().name@.len() == 0 || modules.last().version@.len() == 0 {
                Some(modules.len() - 1)
            } else {
                None
            },
        }
    }
}

/// The error for a module record without a name or version.
pub open spec fn incomplete_message(name: Seq<char>) -> Seq<char> {
    "module record "@ + debug_text(name) + " missing name or version"@
}

/// The error when a scene declares more signals than ids exist.
pub open spec fn too_many_signals() -> Seq<char> {
    "too many signals to record"@
}

/// The records a tick's signals make: each name with its arguments when
/// they are an object, and no arguments otherwise.
pub open spec fn records_of(signals: Seq<(String, Json)>, recs: Seq<SignalRecord>) -> bool {
    &&& recs.len() == signals.len()
    &&& forall|i: int| 0 <= i < recs.len() ==> (#[trigger] recs[i]).name@ == signals[i].0@ && match signals[i].1 {
        Json::Object(m) => recs[i].args == m,
        _ => recs[i].args@ == Map::<Seq<char>, Json>::empty(),
    }
}

fn signal_records(signals: Vec<(String, Json)>) -> (r: Vec<SignalRecord>)
    ensures
        records_of(signals@, r@),
{
    let ghost all = signals@;
    let mut rest = signals;
    let mut out: Vec<SignalRecord> = Vec::new();
    let n = rest.len();
    let mut i: usize = 0;
    assert(rest@ =~= all.skip(0));
    while i < n
        invariant
            n == all.len(),
            i <= n,
            rest@ == all.skip(i as int),
            out@.len() == i,
            forall|j: int| 0 <= j < i ==> (#[trigger] out@[j]).name@ == all[j].0@ && match all[j].1 {
                Json::Object(m) => out@[j].args == m,
                _ => out@[j].args@ == Map::<Seq<char>, Json>::empty(),
            },
        decreases n - i,
    {
        let ghost r0 = rest@;
        let (name, value) = rest.remove(0);
        assert(rest@ =~= all.skip(i + 1));
        let args = match value {
            Json::Object(m) => m,
            _ => StrMap::new(),
        };
        out.push(SignalRecord { name, args });
        i += 1;
    }
    out
}

/// Records a run: the scene's signals are declared on the recorder's own
/// bus, and each tick is appended as a report while recording.
pub struct Recorder<H> {
    recording: Recording,
    is_recording: bool,
    signal_ids: StrMap<SignalId>,
    bus: SignalBus<H>,
}

/// How a recorder starts out for a scene.
pub open spec fn started<H>(rec: Recorder<H>, nodes: Seq<Node>, seed: u64, entries: Seq<Resource>, snapshot: Json) -> bool {
    let m = rec.state().meta;
    &&& m.scene_snapshot == snapshot
    &&& snapshots_of(m.resource_snapshots@, resource_data(entries))
    &&& m.seed == seed
    &&& m.tick_hz == 60
    &&& m.total_ticks == 0
    &&& rec.state().frames@.len() == 0
    &&& rec.active()
    &&& lists_in_order(rec.bus_state().names(), scene_signal_names(nodes))
    &&& rec.bus_state().subscriber_ids().len() == 0
    &&& rec.bus_state().pending().len() == 0
    &&& forall|k: Seq<char>| #[trigger] rec.ids().contains_key(k) <==> scene_signal_names(nodes).contains(k)
    &&& forall|k: Seq<char>| #[trigger] rec.ids().contains_key(k) ==>
        rec.ids()[k].0 < rec.bus_state().names().len() && rec.bus_state().names()[rec.ids()[k].0 as int] == k
}

impl<H> Recorder<H> {
    /// The recording so far.
    pub closed spec fn state(&self) -> Recording {
        self.recording
    }

    /// Whether ticks are being recorded.
    pub closed spec fn active(&self) -> bool {
        self.is_recording
    }

    /// The ids of the scene's signals on the recorder's bus.
    pub closed spec fn ids(&self) -> Map<Seq<char>, SignalId> {
        self.signal_ids@
    }

    /// The recorder's bus.
    pub closed spec fn bus_state(&self) -> SignalBus<H> {
        self.bus
    }

    /// Starts recording a scene: declares its signals, snapshots the
    /// resources, and keeps `scene_snapshot` (the scene as a document).
    /// Fails only if the scene has more signals than a signal id can count.
    pub fn start(scene: &Scene, seed: u64, resources: &ResourceRegistry, scene_snapshot: Json) -> (r: EngineResult<Self>)
        ensures
            match r {
                Ok(rec) => started(rec, scene.nodes@, seed, resources.entries(), scene_snapshot)
                    && rec.state().meta.module_records@.len() == 0 && !rec.state().meta.rng_locked,
                Err(e) => e matches EngineError::Internal(m) && m@ == too_many_signals()
                    && scene_signal_names(scene.nodes@).len() >= u32::MAX,
            },
            scene_signal_names(scene.nodes@).len() < u32::MAX ==> r is Ok,
    {
        let names = collect_signal_names_from_scene(scene);
        proof {
            let t = texts(names@);
            lemma_ascending_no_dup(t);
            t.unique_seq_to_set();
            assert(t.to_set() =~= scene_signal_names(scene.nodes@));
        }
        if names.len() >= 4294967295usize {
            return Err(EngineError::Internal("too many signals to record".to_string()));
        }
        let mut bus: SignalBus<H> = SignalBus::new();
        let mut signal_ids: StrMap<SignalId> = StrMap::new();
        let ghost t = texts(names@);
        let mut i: usize = 0;
        assert(bus.names() =~= t.take(0));
        while i < names.len()
            invariant
                t == texts(names@),
                lists_in_order(t, scene_signal_names(scene.nodes@)),
                names@.len() < u32::MAX,
                i <= names@.len(),
                bus.names() == t.take(i as int),
                bus.subscriber_ids().len() == 0,
                bus.pending().len() == 0,
                forall|k: Seq<char>| #[trigger] signal_ids@.contains_key(k) <==> t.take(i as int).contains(k),
                forall|k: Seq<char>| #[trigger] signal_ids@.contains_key(k) ==>
                    signal_ids@[k].0 < i && t[signal_ids@[k].0 as int] == k,
            decreases names.len() - i,
        {
            proof {
                lemma_ascending_no_dup(t);
                if t.take(i as int).contains(t[i as int]) {
                    let j = choose|j: int| 0 <= j < i && t.take(i as int)[j] == t[i as int];
                    assert(t[j] == t[i as int]);
                }
                assert(name_index(bus.names(), t[i as int]) is None);
            }
            let id = bus.declare(names[i].as_str());
            signal_ids.insert(names[i].clone(), id);
            proof {
                assert(t.take(i + 1) =~= t.take(i as int).push(t[i as int]));
                assert forall|k: Seq<char>| #[trigger] signal_ids@.contains_key(k) <==> t.take(i + 1).contains(k) by {
                    if t.take(i + 1).contains(k) && k != t[i as int] {
                        let j = choose|j: int| 0 <= j < i + 1 && #[trigger] t.take(i + 1)[j] == k;
                        assert(t.take(i as int)[j] == k);
                    }
                    if t.take(i as int).contains(k) {
                        let j = choose|j: int| 0 <= j < i && #[trigger] t.take(i as int)[j] == k;
                        assert(t.take(i + 1)[j] == k);
                    }
                    if k == t[i as int] {
                        assert(t.take(i + 1)[i as int] == k);
                    }
                }
            }
            i += 1;
        }
        assert(t.take(names@.len() as int) =~= t);
        let resource_snapshots = snapshot_resources(resources);
        let meta = RecordingMeta {
            scene_snapshot,
            resource_snapshots,
            seed,
            tick_hz: 60,
            total_ticks: 0,
            module_records: Vec::new(),
            rng_locked: false,
        };
        Ok(Recorder { recording: Recording { meta, frames: Vec::new() }, is_recording: true, signal_ids, bus })
    }

    /// Starts recording with the modules the run loads. When the random
    /// generator is locked every module record needs a name and a version;
    /// the first one without is refused.
    pub fn start_validated(scene: &Scene, seed: u64, resources: &ResourceRegistry, modules: &[ModuleRecord],
        rng_locked: bool, scene_snapshot: Json) -> (r: EngineResult<Self>)
        ensures
            rng_locked && first_incomplete(modules@) is Some ==> (r matches Err(EngineError::Internal(m))
                && m@ == incomplete_message(modules@[first_incomplete(modules@)->0].name@)),
            !(rng_locked && first_incomplete(modules@) is Some) ==> match r {
                Ok(rec) => started(rec, scene.nodes@, seed, resources.entries(), scene_snapshot)
                    && rec.state().meta.module_records@ == modules@ && rec.state().meta.rng_locked == rng_locked,
                Err(e) => e matches EngineError::Internal(m) && m@ == too_many_signals()
                    && scene_signal_names(scene.nodes@).len() >= u32::MAX,
            },
            !(rng_locked && first_incomplete(modules@) is Some) && scene_signal_names(scene.nodes@).len() < u32::MAX ==> r is Ok,
    {
        if rng_locked {
            let mut i: usize = 0;
            while i < modules.len()
                invariant
                    rng_locked,
                    i <= modules@.len(),
                    first_incomplete(modules@.take(i as int)) is None,
                decreases modules.len() - i,
            {
                assert(modules@.take(i + 1).drop_last() =~= modules@.take(i as int));
                if modules[i].name.as_str().is_empty() || modules[i].version.as_str().is_empty() {
                    proof { lemma_first_incomplete_prefix(modules@, i as int + 1); }
                    let mut m = "module record ".to_string();
                    let q = debug_quoted(modules[i].name.as_str());
                    push_str(&mut m, q.as_str());
                    push_str(&mut m, " missing name or version");
                    return Err(EngineError::Internal(m));
                }
                i += 1;
            }
            assert(modules@.take(modules@.len() as int) =~= modules@);
        }
        match Self::start(scene, seed, resources, scene_snapshot) {
            Ok(mut rec) => {
                let ghost before = rec;
                rec.recording.meta.module_records = copy_records(modules);
                rec.recording.meta.rng_locked = rng_locked;
                assert(rec.ids() == before.ids());
                assert(rec.bus_state() == before.bus_state());
                assert(rec.state().frames == before.state().frames);
                assert(rec.state().meta.resource_snapshots == before.state().meta.resource_snapshots);
                assert(started(rec, scene.nodes@, seed, resources.entries(), scene_snapshot));
                Ok(rec)
            },
            Err(e) => Err(e),
        }
    }

    /// The module records of the recording.
    pub fn module_records(&self) -> (r: &[ModuleRecord])
        ensures
            r@ == self.state().meta.module_records@,
    {
        self.recording.meta.module_records.as_slice()
    }

    /// Whether the recording was made with the random generator locked.
    pub fn rng_locked(&self) -> (r: bool)
        ensures
            r == self.state().meta.rng_locked,
    {
        self.recording.meta.rng_locked
    }

    /// The recording so far.
    pub fn recording(&self) -> (r: &Recording)
        ensures
            *r == self.state(),
    {
        &self.recording
    }

    /// Appends a tick report (while recording): the tick, a copy of its
    /// input, the state hash and the signals fired; the recording then
    /// covers ticks up to this one.
    pub fn record_tick(&mut self, tick: u64, input: &InputFrame, state_hash: u64, signals: Vec<(String, Json)>)
        requires
            old(self).active() ==> tick < u64::MAX,
        ensures
            !old(self).active() ==> *final(self) == *old(self),
            old(self).active() ==> {
                let f = final(self).state().frames@;
                let o = old(self).state().frames@;
                &&& f.len() == o.len() + 1
                &&& f.drop_last() == o
                &&& f.last().tick == tick
                &&& f.last().state_hash == state_hash
                &&& jmap_same(f.last().input.actions, input.actions)
                &&& records_of(signals@, f.last().signals_emitted@)
                &&& final(self).state().meta.total_ticks == tick + 1
                &&& final(self).state().meta.scene_snapshot == old(self).state().meta.scene_snapshot
                &&& final(self).state().meta.resource_snapshots == old(self).state().meta.resource_snapshots
                &&& final(self).state().meta.seed == old(self).state().meta.seed
                &&& final(self).state().meta.tick_hz == old(self).state().meta.tick_hz
                &&& final(self).state().meta.module_records == old(self).state().meta.module_records
                &&& final(self).state().meta.rng_locked == old(self).state().meta.rng_locked
                &&& final(self).active() == old(self).active()
                &&& final(self).ids() == old(self).ids()
                &&& final(self).bus_state() == old(self).bus_state()
            },
    {
        if !self.is_recording {
            return;
        }
        let records = signal_records(signals);
        let report = TickReport {
            tick,
            input: InputFrame { actions: clone_members(&input.actions) },
            state_hash,
            signals_emitted: records,
        };
        let ghost o = self.recording.frames@;
        self.recording.frames.push(report);
        assert(self.recording.frames@.drop_last() =~= o);
        self.recording.meta.total_ticks = tick + 1;
    }

    /// Stops recording and hands the recording over.
    pub fn finish(self) -> (r: Recording)
        ensures
            r == self.state(),
    {
        self.recording
    }

    /// Whether ticks are being recorded.
    pub fn is_recording(&self) -> (r: bool)
        ensures
            r == self.active(),
    {
        self.is_recording
    }

    /// The id of one of the scene's signals.
    pub fn signal_id(&self, name: &str) -> (r: Option<SignalId>)
        ensures
            match r {
                Some(id) => self.ids().contains_key(name@) && id == self.ids()[name@],
                None => !self.ids().contains_key(name@),
            },
    {
        match self.signal_ids.get(name) {
            Some(id) => Some(*id),
            None => None,
        }
    }

    /// The first recorded frame of tick `tick`.
    pub fn snapshot_at(&self, tick: u64) -> (r: Option<&TickReport>)
        ensures
            match first_report(self.state().frames@, tick) {
                Some(i) => r matches Some(f) && *f == self.state().frames@[i],
                None => r is None,
            },
    {
        snapshot_at(&self.recording.frames, tick)
    }

    /// The recorder's bus.
    pub fn bus(&self) -> (r: &SignalBus<H>)
        ensures
            *r == self.bus_state(),
    {
        &self.bus
    }

    /// The recorder's bus, to subscribe or emit on.
    pub fn bus_mut(&mut self) -> (r: &mut SignalBus<H>)
        ensures
            *r == old(self).bus_state(),
            final(self).bus_state() == *final(r),
            final(self).state() == old(self).state(),
            final(self).active() == old(self).active(),
            final(self).ids() == old(self).ids(),
    {
        &mut self.bus
    }
}

proof fn lemma_first_incomplete_prefix(modules: Seq<ModuleRecord>, k: int)
    requires
        1 <= k <= modules.len(),
        first_incomplete(modules.take(k - 1)) is None,
        modules[k - 1].name@.len() == 0 || modules[k - 1].version@.len() == 0,
    ensures
        first_incomplete(modules) == Some(k - 1),
    decreases modules.len(),
{
    assert(modules.take(k).drop_last() =~= modules.take(k - 1));
    assert(first_incomplete(modules.take(k)) == Some(k - 1));
    if k < modules.len() {
        assert(modules.drop_last().take(k - 1) =~= modules.take(k - 1));
        assert(modules.drop_last()[k - 1] == modules[k - 1]);
        lemma_first_incomplete_prefix(modules.drop_last(), k);
    } else {
        assert(modules.take(k) =~= modules);
    }
}

fn copy_records(modules: &[ModuleRecord]) -> (r: Vec<ModuleRecord>)
    ensures
        r@ == modules@,
{
    let mut out: Vec<ModuleRecord> = Vec::new();
    let mut i: usize = 0;
    while i < modules.len()
        invariant
            i <= modules@.len(),
            out@ == modules@.take(i as int),
        decreases modules.len() - i,
    {
        let m = &modules[i];
        out.push(ModuleRecord { name: m.name.clone(), version: m.version.clone(), sha256: m.sha256.clone() });
        assert(out@ =~= modules@.take(i + 1));
        i += 1;
    }
    assert(modules@.take(modules@.len() as int) =~= modules@);
    out
}

} // verus!
