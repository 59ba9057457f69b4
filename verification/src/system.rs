//! Systems: named units of engine work that run in a fixed phase of each
//! tick, and the order registered systems run in.

use vstd::prelude::*;
use crate::resource::ResourceRegistry;
use crate::signal::SignalBus;
use crate::strmap::StrMap;
use crate::text::{seq_lt, compare_str, Collation, lemma_seq_lt_irreflexive, lemma_seq_lt_asymmetric,
    lemma_seq_lt_transitive, lemma_seq_lt_total};

verus! {

broadcast use vstd::string::group_string_axioms;

/// The phase of a tick a system runs in.
#[derive(Debug, Clone, Copy, PartialEq, Eq, Structural, Hash)]
pub enum SystemPhase {
    PreTick,
    Tick,
    PostTick,
}

/// A phase's position in a tick.
pub open spec fn phase_rank(p: SystemPhase) -> u8 {
    match p {
        SystemPhase::PreTick => 0,
        SystemPhase::Tick => 1,
        SystemPhase::PostTick => 2,
    }
}

impl SystemPhase {
    /// Every phase, in tick order.
    pub fn all() -> (r: [SystemPhase; 3])
        ensures
            r@ == seq![SystemPhase::PreTick, SystemPhase::Tick, SystemPhase::PostTick],
    {
        let r = [SystemPhase::PreTick, SystemPhase::Tick, SystemPhase::PostTick];
        assert(r@ =~= seq![SystemPhase::PreTick, SystemPhase::Tick, SystemPhase::PostTick]);
        r
    }

    /// The phase's position in a tick: pre-tick, tick, post-tick.
    pub fn rank(self) -> (r: u8)
        ensures
            r == phase_rank(self),
    {
        match self {
            SystemPhase::PreTick => 0,
            SystemPhase::Tick => 1,
            SystemPhase::PostTick => 2,
        }
    }
}

/// A system's name and phase.
#[derive(Debug, Clone, Copy)]
pub struct SystemInfo {
    pub name: &'static str,
    pub phase: SystemPhase,
}

/// Whether system `a` runs before system `b`: by phase, then by name.
pub open spec fn runs_before(a: SystemInfo, b: SystemInfo) -> bool {
    phase_rank(a.phase) < phase_rank(b.phase)
        || (phase_rank(a.phase) == phase_rank(b.phase) && seq_lt(a.name@, b.name@))
}

/// Whether `order` lists each index below `n` exactly once.
pub open spec fn is_permutation(order: Seq<usize>, n: nat) -> bool {
    &&& order.len() == n
    &&& forall|i: int| 0 <= i < n ==> (#[trigger] order[i]) < n
    &&& forall|i: int, j: int| 0 <= i < j < n ==> order[i] != order[j]
}

/// Whether `order` runs the systems of `infos` by phase, then name, with
/// systems of equal phase and name left in registration order.
pub open spec fn run_order(infos: Seq<SystemInfo>, order: Seq<usize>) -> bool {
    &&& is_permutation(order, infos.len())
    &&& forall|i: int, j: int| 0 <= i < j < order.len() ==>
        !runs_before(infos[order[j] as int], infos[order[i] as int])
    &&& forall|i: int, j: int| 0 <= i < j < order.len() ==>
        !runs_before(infos[order[i] as int], infos[order[j] as int])
        ==> order[i] < order[j]
}

fn before(a: &SystemInfo, b: &SystemInfo) -> (r: bool)
    ensures
        r == runs_before(*a, *b),
{
    let ra = a.phase.rank();
    let rb = b.phase.rank();
    if ra < rb {
        true
    } else if ra > rb {
        false
    } else {
        match compare_str(a.name, b.name) {
            Collation::Less => true,
            _ => false,
        }
    }
}

proof fn lemma_runs_before_order(a: SystemInfo, b: SystemInfo, c: SystemInfo)
    ensures
        !runs_before(a, a),
        runs_before(a, b) ==> !runs_before(b, a),
        runs_before(a, b) && runs_before(b, c) ==> runs_before(a, c),
        !runs_before(a, b) && !runs_before(b, a) ==> phase_rank(a.phase) == phase_rank(b.phase) && a.name@ == b.name@,
        !runs_before(a, b) && !runs_before(b, c) ==> !runs_before(a, c),
{
    lemma_seq_lt_irreflexive(a.name@);
    lemma_seq_lt_asymmetric(a.name@, b.name@);
    lemma_seq_lt_total(a.name@, b.name@);
    lemma_seq_lt_total(b.name@, c.name@);
    lemma_seq_lt_total(a.name@, c.name@);
    if seq_lt(a.name@, b.name@) && seq_lt(b.name@, c.name@) {
        lemma_seq_lt_transitive(a.name@, b.name@, c.name@);
    }
    if seq_lt(c.name@, b.name@) && seq_lt(b.name@, a.name@) {
        lemma_seq_lt_transitive(c.name@, b.name@, a.name@);
    }
    if seq_lt(c.name@, a.name@) && seq_lt(a.name@, b.name@) {
        lemma_seq_lt_transitive(c.name@, a.name@, b.name@);
    }
    if seq_lt(b.name@, c.name@) && seq_lt(c.name@, a.name@) {
        lemma_seq_lt_transitive(b.name@, c.name@, a.name@);
    }
    if seq_lt(a.name@, c.name@) && seq_lt(c.name@, b.name@) {
        lemma_seq_lt_transitive(a.name@, c.name@, b.name@);
    }
    if seq_lt(b.name@, a.name@) && seq_lt(a.name@, c.name@) {
        lemma_seq_lt_transitive(b.name@, a.name@, c.name@);
    }
    lemma_seq_lt_asymmetric(b.name@, c.name@);
    lemma_seq_lt_asymmetric(a.name@, c.name@);
    lemma_seq_lt_irreflexive(b.name@);
    lemma_seq_lt_irreflexive(c.name@);
}

/// The order the registered systems run in: by phase, then by name;
/// systems with the same phase and name keep their registration order.
pub fn run_order_of(infos: &[SystemInfo]) -> (order: Vec<usize>)
    ensures
        run_order(infos@, order@),
{
    let n = infos.len();
    let mut order: Vec<usize> = Vec::new();
    let mut t: usize = 0;
    while t < n
        invariant
            t <= n == infos@.len(),
            run_order(infos@.take(t as int), order@),
            forall|i: int| 0 <= i < order@.len() ==> (#[trigger] order@[i]) < t,
        decreases n - t,
    {
        // Insert `t` after every entry that does not run after it.
        let mut p: usize = order.len();
        while p > 0 && before(&infos[t], &infos[order[p - 1]])
            invariant
                p <= order@.len() == t,
                t < n == infos@.len(),
                forall|i: int| p <= i < order@.len() ==> runs_before(infos@[t as int], #[trigger] infos@[order@[i] as int]),
                forall|i: int| 0 <= i < order@.len() ==> (#[trigger] order@[i]) < t,
            decreases p,
        {
            p -= 1;
        }
        let ghost old_order = order@;
        proof {
            let a = infos@.take(t as int);
            assert forall|i: int| 0 <= i < old_order.len() implies (#[trigger] old_order[i]) < t && infos@[old_order[i] as int] == a[old_order[i] as int] by {}
            if p > 0 {
                assert(!runs_before(infos@[t as int], infos@[old_order[p - 1] as int]));
            }
        }
        order.insert(p, t);
        proof {
            let a = infos@.take(t as int);
            let b = infos@.take(t + 1);
            let o = order@;
            assert(o == old_order.insert(p as int, t));
            assert forall|i: int| 0 <= i < o.len() implies (#[trigger] o[i]) < t + 1 by {
                if i < p { assert(o[i] == old_order[i]); } else if i > p { assert(o[i] == old_order[i - 1]); }
            }
            assert forall|i: int| 0 <= i < old_order.len() implies b[(#[trigger] old_order[i]) as int] == a[old_order[i] as int] by {}
            assert forall|i: int, j: int| 0 <= i < j < o.len() implies o[i] != o[j] by {
                if i < p && j < p {
                } else if i < p && j == p {
                } else if i < p && j > p {
                    assert(o[j] == old_order[j - 1]);
                } else if i == p {
                    assert(o[j] == old_order[j - 1]);
                } else {
                    assert(o[i] == old_order[i - 1]);
                    assert(o[j] == old_order[j - 1]);
                }
            }
            assert forall|i: int, j: int| 0 <= i < j < o.len() implies !runs_before(b[o[j] as int], b[o[i] as int]) by {
                let oi = if i < p { old_order[i] } else if i == p { t } else { old_order[i - 1] };
                let oj = if j < p { old_order[j] } else if j == p { t } else { old_order[j - 1] };
                assert(o[i] == oi && o[j] == oj);
                if i != p && j != p {
                    let ii = if i < p { i } else { i - 1 };
                    let jj = if j < p { j } else { j - 1 };
                    assert(ii < jj);
                    assert(!runs_before(a[old_order[jj] as int], a[old_order[ii] as int]));
                } else if i == p {
                    assert(runs_before(infos@[t as int], infos@[old_order[j - 1] as int]));
                    lemma_runs_before_order(infos@[t as int], infos@[oj as int], infos@[t as int]);
                } else {
                    // j == p, i < p: entries before p do not run after t.
                    if i == p - 1 {
                    } else {
                        assert(!runs_before(a[old_order[p - 1] as int], a[old_order[i] as int]));
                        assert(!runs_before(infos@[t as int], infos@[old_order[p - 1] as int]));
                        lemma_runs_before_order(infos@[t as int], infos@[old_order[p - 1] as int], infos@[old_order[i] as int]);
                    }
                }
            }
            assert forall|i: int, j: int| 0 <= i < j < o.len() && !runs_before(b[o[i] as int], b[o[j] as int])
                implies o[i] < o[j] by {
                if i != p && j != p {
                    let ii = if i < p { i } else { i - 1 };
                    let jj = if j < p { j } else { j - 1 };
                    assert(o[i] == old_order[ii] && o[j] == old_order[jj]);
                } else if i == p {
                    assert(o[j] == old_order[j - 1]);
                    assert(runs_before(infos@[t as int], infos@[old_order[j - 1] as int]));
                } else {
                    assert(o[i] < t);
                }
            }
        }
        t += 1;
    }
    assert(infos@.take(n as int) =~= infos@);
    order
}


/// The registration infos of a list of registrations.
pub open spec fn reg_infos<S>(regs: Seq<(SystemInfo, S)>) -> Seq<SystemInfo> {
    regs.map_values(|r: (SystemInfo, S)| r.0)
}

/// A unit of engine work, written by the game: it names itself and its
/// phase, and runs once per tick in that phase with the signal bus and the
/// resources at hand.
pub trait System {
    /// The phase the system runs in (the phase `info` reports).
    spec fn phase_of(&self) -> SystemPhase;

    /// Whether a run at tick `tick` may leave this system as `after` and
    /// the signal bus, which it found as `bus`, as `bus_after`.
    spec fn ran_at<H>(&self, after: &Self, tick: u64, bus: &SignalBus<H>, bus_after: &SignalBus<H>) -> bool;

    fn info(&self) -> (r: SystemInfo)
        ensures
            r.phase == self.phase_of();

    fn run<H>(&mut self, bus: &mut SignalBus<H>, resources: &ResourceRegistry, tick: u64)
        ensures
            old(self).ran_at(&*final(self), tick, &*old(bus), &*final(bus));
}

/// The systems `before`, taken in registration order, with those of phase
/// `phase` each run once at `tick` and the others left alone, become
/// `after`; `buses[j]` is the signal bus as system `j` finds it and
/// `buses[j + 1]` as it leaves it.
pub open spec fn phase_run<S: System, H>(before: Seq<S>, after: Seq<S>, phase: SystemPhase, tick: u64,
    buses: Seq<SignalBus<H>>) -> bool {
    &&& after.len() == before.len()
    &&& buses.len() == before.len() + 1
    &&& forall|j: int| 0 <= j < before.len() ==> {
        if before[j].phase_of() == phase {
            before[j].ran_at(&#[trigger] after[j], tick, &buses[j], &buses[j + 1])
        } else {
            after[j] == before[j] && buses[j + 1] == buses[j]
        }
    }
}

/// The systems of a game, in run order, with an index by name.
pub struct SystemRegistry<S> {
    instances: Vec<S>,
    by_name: StrMap<usize>,
}

impl<S: System> SystemRegistry<S> {
    pub closed spec fn systems(&self) -> Seq<S> {
        self.instances@
    }

    pub closed spec fn index(&self) -> Map<Seq<char>, usize> {
        self.by_name@
    }

    /// An empty registry.
    pub fn new() -> (r: Self)
        ensures
            r.systems().len() == 0,
            r.index() == Map::<Seq<char>, usize>::empty(),
    {
        SystemRegistry { instances: Vec::new(), by_name: StrMap::new() }
    }

    /// Appends a system, indexing it under the name it reports.
    pub fn push(&mut self, system: S)
        ensures
            final(self).systems() == old(self).systems().push(system),
            exists|name: Seq<char>| final(self).index() == #[trigger] old(self).index().insert(name, old(self).systems().len() as usize),
    {
        let name = system.info().name.to_string();
        let ghost nv = name@;
        let at = self.instances.len();
        self.by_name.insert(name, at);
        self.instances.push(system);
        assert(self.index() == old(self).index().insert(nv, old(self).systems().len() as usize));
    }

    /// Replaces the registry's systems with the registered ones, each
    /// given with its registration info, in run order (by phase, then by
    /// name). Each name is indexed at the position of its last system.
    pub fn instantiate_all(&mut self, regs: Vec<(SystemInfo, S)>)
        ensures
            exists|order: Seq<usize>| {
                &&& #[trigger] run_order(reg_infos(regs@), order)
                &&& final(self).systems().len() == regs@.len()
                &&& forall|i: int| 0 <= i < regs@.len() ==> #[trigger] final(self).systems()[i] == regs@[order[i] as int].1
                &&& forall|q: int| 0 <= q < regs@.len() ==> final(self).index().contains_key(#[trigger] regs@[order[q] as int].0.name@)
                &&& forall|k: Seq<char>| #[trigger] final(self).index().contains_key(k) ==> {
                    let at = final(self).index()[k] as int;
                    &&& 0 <= at < regs@.len()
                    &&& regs@[order[at] as int].0.name@ == k
                    &&& forall|q: int| at < q < regs@.len() ==> #[trigger] regs@[order[q] as int].0.name@ != k
                }
            },
    {
        let ghost infos = reg_infos(regs@);
        let mut info_list: Vec<SystemInfo> = Vec::new();
        let mut i: usize = 0;
        while i < regs.len()
            invariant
                i <= regs@.len(),
                infos == reg_infos(regs@),
                info_list@ == infos.take(i as int),
            decreases regs.len() - i,
        {
            info_list.push(regs[i].0);
            assert(info_list@ =~= infos.take(i + 1));
            i += 1;
        }
        assert(infos.take(regs@.len() as int) =~= infos);
        let order = run_order_of(info_list.as_slice());
        let ghost ord = order@;
        let n = regs.len();
        let ghost rs = regs@;
        let mut slots: Vec<Option<(SystemInfo, S)>> = Vec::new();
        let mut rest = regs;
        let mut k: usize = 0;
        while k < n
            invariant
                k <= n == rs.len(),
                rest@ == rs.skip(k as int),
                slots@.len() == k,
                forall|j: int| 0 <= j < k ==> #[trigger] slots@[j] == Some(rs[j]),
            decreases n - k,
        {
            let r = rest.remove(0);
            assert(r == rs[k as int]);
            assert(rest@ =~= rs.skip(k + 1));
            slots.push(Some(r));
            k += 1;
        }
        let mut instances: Vec<S> = Vec::new();
        let mut by_name: StrMap<usize> = StrMap::new();
        let mut t: usize = 0;
        while t < n
            invariant
                t <= n == rs.len() == ord.len() == order@.len(),
                ord == order@,
                is_permutation(ord, n as nat),
                slots@.len() == n,
                forall|j: int| 0 <= j < n ==> (#[trigger] slots@[j]) == (if exists|q: int| 0 <= q < t && ord[q] == j { None } else { Some(rs[j]) }),
                instances@.len() == t,
                forall|q: int| 0 <= q < t ==> #[trigger] instances@[q] == rs[ord[q] as int].1,
                forall|q: int| 0 <= q < t ==> by_name@.contains_key(#[trigger] rs[ord[q] as int].0.name@),
                forall|key: Seq<char>| #[trigger] by_name@.contains_key(key) ==> {
                    let at = by_name@[key] as int;
                    &&& 0 <= at < t
                    &&& rs[ord[at] as int].0.name@ == key
                    &&& forall|q: int| at < q < t ==> #[trigger] rs[ord[q] as int].0.name@ != key
                },
            decreases n - t,
        {
            let idx = order[t];
            assert(slots@[idx as int] == Some(rs[idx as int])) by {
                if exists|q: int| 0 <= q < t && ord[q] == idx {
                    let q = choose|q: int| 0 <= q < t && ord[q] == idx;
                    assert(ord[q] != ord[t as int]);
                }
            }
            let mut taken: Option<(SystemInfo, S)> = None;
            std::mem::swap(&mut taken, &mut slots[idx]);
            match taken {
                Some((info, sys)) => {
                    assert(info == rs[idx as int].0 && sys == rs[idx as int].1);
                    by_name.insert(info.name.to_string(), t);
                    instances.push(sys);
                },
                None => {},
            }
            assert forall|j: int| 0 <= j < n implies (#[trigger] slots@[j]) == (if exists|q: int| 0 <= q < t + 1 && ord[q] == j { None } else { Some(rs[j]) }) by {
                if j != idx as int {
                    if exists|q: int| 0 <= q < t + 1 && ord[q] == j {
                        let q = choose|q: int| 0 <= q < t + 1 && ord[q] == j;
                        assert(q != t);
                    }
                }
            }
            t += 1;
        }
        self.instances = instances;
        self.by_name = by_name;
        proof {
            assert(run_order(infos, ord));
            assert(infos == reg_infos(rs));
            assert forall|q: int| 0 <= q < n implies #[trigger] infos[ord[q] as int] == rs[ord[q] as int].0 by {}
        }
    }

    /// The info of each system, in run order.
    pub fn list(&self) -> (r: Vec<SystemInfo>)
        ensures
            r@.len() == self.systems().len(),
            forall|i: int| 0 <= i < r@.len() ==> #[trigger] r@[i].phase == self.systems()[i].phase_of(),
    {
        let mut out: Vec<SystemInfo> = Vec::new();
        let mut i: usize = 0;
        while i < self.instances.len()
            invariant
                i <= self.instances@.len(),
                out@.len() == i,
                forall|k: int| 0 <= k < i ==> #[trigger] out@[k].phase == self.instances@[k].phase_of(),
            decreases self.instances.len() - i,
        {
            out.push(self.instances[i].info());
            i += 1;
        }
        out
    }

    /// Runs, in registration order, the systems that report `phase`, each
    /// once at tick `tick`; the other systems are left as they are.
    pub fn run_phase<H>(&mut self, phase: SystemPhase, bus: &mut SignalBus<H>, resources: &ResourceRegistry, tick: u64)
        ensures
            final(self).index() == old(self).index(),
            exists|buses: Seq<SignalBus<H>>| {
                &&& buses[0] == *old(bus)
                &&& buses.last() == *final(bus)
                &&& #[trigger] phase_run(old(self).systems(), final(self).systems(), phase, tick, buses)
            },
    {
        let n = self.instances.len();
        let ghost start = self.instances@;
        let ghost mut buses: Seq<SignalBus<H>> = seq![*bus];
        let mut i: usize = 0;
        while i < n
            invariant
                i <= n,
                start == old(self).systems(),
                start.len() == n,
                self.instances@.len() == n,
                self.by_name@ == old(self).index(),
                buses.len() == i + 1,
                buses[0] == *old(bus),
                buses.last() == *bus,
                forall|j: int| i <= j < n ==> self.instances@[j] == start[j],
                forall|j: int| 0 <= j < i ==> {
                    if start[j].phase_of() == phase {
                        start[j].ran_at(&#[trigger] self.instances@[j], tick, &buses[j], &buses[j + 1])
                    } else {
                        self.instances@[j] == start[j] && buses[j + 1] == buses[j]
                    }
                },
            decreases n - i,
        {
            let p = self.instances[i].info().phase;
            let ghost before_bus = *bus;
            if p == phase {
                let ghost before = self.instances@;
                let mut sys = self.instances.remove(i);
                sys.run(bus, resources, tick);
                self.instances.insert(i, sys);
                assert forall|j: int| 0 <= j < n && j != i implies self.instances@[j] == before[j] by {
                    if j < i {
                        assert(self.instances@[j] == before.remove(i as int)[j]);
                    } else {
                        assert(self.instances@[j] == before.remove(i as int)[j - 1]);
                    }
                }
            }
            proof {
                buses = buses.push(*bus);
                assert(buses[i as int] == before_bus);
            }
            i += 1;
        }
        proof {
            assert(phase_run(old(self).systems(), self.systems(), phase, tick, buses));
        }
    }

    pub fn len(&self) -> (r: usize)
        ensures
            r == self.systems().len(),
    {
        self.instances.len()
    }

    pub fn is_empty(&self) -> (r: bool)
        ensures
            r == (self.systems().len() == 0),
    {
        self.instances.len() == 0
    }
}

} // verus!
