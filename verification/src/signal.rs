//! The signal bus: named signals with dense numeric ids, subscribers per
//! signal, and a queue of emitted signals that is delivered later (the
//! next tick), in emission order.

use vstd::prelude::*;
use crate::json::Json;
use crate::text::str_eq;

verus! {

broadcast use vstd::string::group_string_axioms;

/// A declared signal's id; ids are handed out 0, 1, 2, ... in declaration order.
#[derive(Debug, Clone, Copy, PartialEq, Eq, Hash)]
pub struct SignalId(pub u32);

impl SignalId {
    pub fn raw(self) -> (r: u32)
        ensures
            r == self.0,
    {
        self.0
    }
}

/// An emitted signal waiting for delivery.
#[derive(Debug, Clone)]
pub struct Signal {
    pub id: SignalId,
    pub payload: Json,
}

/// Position of `name` among the declared names, if declared.
pub open spec fn name_index(names: Seq<Seq<char>>, name: Seq<char>) -> Option<nat> {
    if names.contains(name) {
        Some(names.index_of(name) as nat)
    } else {
        None
    }
}

/// The names after declaring `name`, and the id it gets.
pub open spec fn declared(names: Seq<Seq<char>>, name: Seq<char>) -> (Seq<Seq<char>>, nat) {
    match name_index(names, name) {
        Some(i) => (names, i),
        None => (names.push(name), names.len()),
    }
}

/// The bus. `H` is the handler type: anything callable on a payload.
pub struct SignalBus<H> {
    names: Vec<String>,
    handlers: Vec<(u32, H)>,
    pending: Vec<Signal>,
}

impl<H> SignalBus<H> {
    /// Declared names, indexed by id.
    pub closed spec fn names(&self) -> Seq<Seq<char>> {
        self.names@.map_values(|s: String| s@)
    }

    /// Signal ids of the subscribers, in subscription order.
    pub closed spec fn subscriber_ids(&self) -> Seq<u32> {
        self.handlers@.map_values(|h: (u32, H)| h.0)
    }

    /// The subscribed handlers, in subscription order.
    pub closed spec fn subscriber_handlers(&self) -> Seq<H> {
        self.handlers@.map_values(|h: (u32, H)| h.1)
    }

    /// Signals waiting for delivery, oldest first.
    pub closed spec fn pending(&self) -> Seq<Signal> {
        self.pending@
    }

    #[verifier::type_invariant]
    closed spec fn inv(&self) -> bool {
        &&& self.names().no_duplicates()
        &&& self.names().len() <= u32::MAX
    }

    pub fn new() -> (r: Self)
        ensures
            r.names().len() == 0,
            r.subscriber_ids().len() == 0,
            r.pending().len() == 0,
    {
        let r = SignalBus { names: Vec::new(), handlers: Vec::new(), pending: Vec::new() };
        assert(r.names() =~= Seq::<Seq<char>>::empty());
        r
    }

    /// Declares `name` (idempotently) and returns its id.
    pub fn declare(&mut self, name: &str) -> (id: SignalId)
        requires
            old(self).names().contains(name@) || old(self).names().len() < u32::MAX,
        ensures
            final(self).names() == declared(old(self).names(), name@).0,
            id.0 == declared(old(self).names(), name@).1,
            final(self).subscriber_ids() == old(self).subscriber_ids(),
            final(self).subscriber_handlers() == old(self).subscriber_handlers(),
            final(self).pending() == old(self).pending(),
    {
        proof { use_type_invariant(&*self); }
        match self.resolve(name) {
            Some(id) => id,
            None => {
                let id = SignalId(self.names.len() as u32);
                let ghost old_names = self.names();
                let mut names: Vec<String> = Vec::new();
                std::mem::swap(&mut names, &mut self.names);
                names.push(name.to_string());
                proof {
                    let ns = names@.map_values(|s: String| s@);
                    assert(ns =~= old_names.push(name@));
                    assert forall|i: int, j: int| 0 <= i < ns.len() && 0 <= j < ns.len() && i != j implies ns[i] != ns[j] by {
                        if i == old_names.len() as int { assert(ns[j] == old_names[j]); }
                        else if j == old_names.len() as int { assert(ns[i] == old_names[i]); }
                    }
                }
                self.names = names;
                proof { assert(self.names() =~= old_names.push(name@)); }
                id
            },
        }
    }

    /// The id of a declared signal.
    pub fn resolve(&self, name: &str) -> (r: Option<SignalId>)
        ensures
            match r {
                Some(id) => name_index(self.names(), name@) == Some(id.0 as nat),
                None => name_index(self.names(), name@) is None,
            },
    {
        proof { use_type_invariant(self); }
        let mut i: usize = 0;
        while i < self.names.len()
            invariant
                i <= self.names@.len(),
                self.names().no_duplicates(),
                self.names().len() <= u32::MAX,
                forall|j: int| 0 <= j < i ==> self.names()[j] != name@,
            decreases self.names.len() - i,
        {
            if str_eq(self.names[i].as_str(), name) {
                proof {
                    let ns = self.names();
                    assert(ns[i as int] == name@);
                    assert(ns.contains(name@));
                    let k = ns.index_of(name@);
                    assert(ns[k] == name@);
                    assert(k == i);
                }
                return Some(SignalId(i as u32));
            }
            i += 1;
        }
        None
    }

    /// The name of a declared signal.
    pub fn name_of(&self, id: SignalId) -> (r: Option<&str>)
        ensures
            match r {
                Some(s) => id.0 < self.names().len() && s@ == self.names()[id.0 as int],
                None => id.0 >= self.names().len(),
            },
    {
        if (id.0 as usize) < self.names.len() {
            Some(self.names[id.0 as usize].as_str())
        } else {
            None
        }
    }

    /// Adds a handler for `signal`; handlers run in subscription order.
    pub fn subscribe(&mut self, signal: SignalId, handler: H)
        ensures
            final(self).subscriber_ids() == old(self).subscriber_ids().push(signal.0),
            final(self).subscriber_handlers() == old(self).subscriber_handlers().push(handler),
            final(self).names() == old(self).names(),
            final(self).pending() == old(self).pending(),
    {
        proof { use_type_invariant(&*self); }
        let ghost old_self = *self;
        let mut handlers: Vec<(u32, H)> = Vec::new();
        std::mem::swap(&mut handlers, &mut self.handlers);
        handlers.push((signal.0, handler));
        self.handlers = handlers;
        proof {
            assert(self.subscriber_ids() =~= old_self.subscriber_ids().push(signal.0));
            assert(self.subscriber_handlers() =~= old_self.subscriber_handlers().push(handler));
        }
    }

    /// Queues a signal; it is not delivered now, only by a later delivery.
    pub fn emit(&mut self, signal: SignalId, payload: Json)
        ensures
            final(self).pending() == old(self).pending().push(Signal { id: signal, payload }),
            final(self).names() == old(self).names(),
            final(self).subscriber_ids() == old(self).subscriber_ids(),
            final(self).subscriber_handlers() == old(self).subscriber_handlers(),
    {
        proof { use_type_invariant(&*self); }
        let mut pending: Vec<Signal> = Vec::new();
        std::mem::swap(&mut pending, &mut self.pending);
        pending.push(Signal { id: signal, payload });
        self.pending = pending;
    }

    /// Declares `name` if needed and queues a copy of `payload` for it.
    pub fn emit_by_name(&mut self, name: &str, payload: &Json)
        requires
            old(self).names().contains(name@) || old(self).names().len() < u32::MAX,
        ensures
            final(self).names() == declared(old(self).names(), name@).0,
            final(self).pending().len() == old(self).pending().len() + 1,
            final(self).pending().drop_last() == old(self).pending(),
            final(self).pending().last().id.0 == declared(old(self).names(), name@).1,
            final(self).subscriber_ids() == old(self).subscriber_ids(),
            final(self).subscriber_handlers() == old(self).subscriber_handlers(),
    {
        let id = self.declare(name);
        self.emit(id, payload.deep_clone());
        assert(self.pending().drop_last() =~= old(self).pending());
    }

    /// Takes every pending signal, oldest first, leaving none pending.
    pub fn drain(&mut self) -> (r: Vec<Signal>)
        ensures
            r@ == old(self).pending(),
            final(self).pending().len() == 0,
            final(self).names() == old(self).names(),
            final(self).subscriber_ids() == old(self).subscriber_ids(),
            final(self).subscriber_handlers() == old(self).subscriber_handlers(),
    {
        proof { use_type_invariant(&*self); }
        let mut out: Vec<Signal> = Vec::new();
        std::mem::swap(&mut out, &mut self.pending);
        out
    }

    /// Names of the pending signals, oldest first (signals with an
    /// undeclared id are skipped).
    pub fn pending_signal_names(&self) -> (r: Vec<String>)
        ensures
            r@.map_values(|s: String| s@) == known_names(self.names(), self.pending()),
    {
        let mut out: Vec<String> = Vec::new();
        let mut i: usize = 0;
        while i < self.pending.len()
            invariant
                i <= self.pending@.len(),
                out@.map_values(|s: String| s@) == known_names(self.names(), self.pending@.take(i as int)),
            decreases self.pending.len() - i,
        {
            let ghost before = self.pending@.take(i as int);
            assert(self.pending@.take(i + 1).drop_last() =~= before);
            match self.name_of(self.pending[i].id) {
                Some(n) => {
                    out.push(n.to_string());
                    assert(out@.map_values(|s: String| s@) =~= known_names(self.names(), before).push(n@));
                },
                None => {},
            }
            i += 1;
        }
        assert(self.pending@.take(self.pending@.len() as int) =~= self.pending@);
        out
    }

    /// Always empty: delivered signals are not retained.
    pub fn delivered_names(&self) -> (r: Vec<(String, Json)>)
        ensures
            r@.len() == 0,
    {
        Vec::new()
    }

    /// Number of signals waiting for delivery.
    pub fn pending_count(&self) -> (n: usize)
        ensures
            n == self.pending().len(),
    {
        self.pending.len()
    }

    /// Number of handlers subscribed to `signal`.
    pub fn subscriber_count(&self, signal: SignalId) -> (n: usize)
        ensures
            n == count_ids(self.subscriber_ids(), signal.0),
    {
        let mut n: usize = 0;
        let mut i: usize = 0;
        while i < self.handlers.len()
            invariant
                i <= self.handlers@.len(),
                n == count_ids(self.subscriber_ids().take(i as int), signal.0),
                n <= i,
            decreases self.handlers.len() - i,
        {
            assert(self.subscriber_ids().take(i + 1).drop_last() =~= self.subscriber_ids().take(i as int));
            if self.handlers[i].0 == signal.0 {
                n += 1;
            }
            i += 1;
        }
        assert(self.subscriber_ids().take(self.handlers@.len() as int) =~= self.subscriber_ids());
        n
    }
}

/// Every subscribed handler accepts every pending payload.
pub open spec fn handlers_accept<H: Fn(&Json)>(handlers: Seq<H>, pending: Seq<Signal>) -> bool {
    forall|i: int, j: int| 0 <= i < handlers.len() && 0 <= j < pending.len()
        ==> call_requires(#[trigger] handlers[i], (&(#[trigger] pending[j]).payload,))
}

/// The name a delivered signal is reported under.
pub open spec fn delivered_name(names: Seq<Seq<char>>, id: u32) -> Seq<char> {
    if id < names.len() { names[id as int] } else { "unknown"@ }
}

impl<H: Fn(&Json)> SignalBus<H> {
    /// Runs every handler of every pending signal (signals oldest first,
    /// handlers in subscription order) and returns how many signals were
    /// delivered; nothing stays pending.
    pub fn deliver_pending(&mut self) -> (n: usize)
        requires
            handlers_accept(old(self).subscriber_handlers(), old(self).pending()),
        ensures
            n == old(self).pending().len(),
            final(self).pending().len() == 0,
            final(self).names() == old(self).names(),
            final(self).subscriber_ids() == old(self).subscriber_ids(),
            final(self).subscriber_handlers() == old(self).subscriber_handlers(),
            forall|i: int, k: int| 0 <= i < old(self).pending().len() && 0 <= k < old(self).subscriber_ids().len()
                && old(self).subscriber_ids()[k] == old(self).pending()[i].id.0
                ==> call_ensures(#[trigger] old(self).subscriber_handlers()[k], (&(#[trigger] old(self).pending()[i]).payload,), ()),
    {
        let pending = self.drain();
        let count = pending.len();
        let mut i: usize = 0;
        while i < pending.len()
            invariant
                i <= pending@.len(),
                pending@ == old(self).pending(),
                self.subscriber_handlers() == old(self).subscriber_handlers(),
                self.subscriber_ids() == old(self).subscriber_ids(),
                handlers_accept(self.subscriber_handlers(), pending@),
                forall|ii: int, k: int| 0 <= ii < i && 0 <= k < old(self).subscriber_ids().len()
                    && old(self).subscriber_ids()[k] == pending@[ii].id.0
                    ==> call_ensures(#[trigger] old(self).subscriber_handlers()[k], (&(#[trigger] pending@[ii]).payload,), ()),
            decreases pending.len() - i,
        {
            self.run_handlers(pending[i].id, &pending[i].payload, Ghost(i as int), Ghost(pending@));
            i += 1;
        }
        count
    }

    /// Runs the handlers subscribed to `id` on `payload`, in order.
    fn run_handlers(&self, id: SignalId, payload: &Json, Ghost(j): Ghost<int>, Ghost(ps): Ghost<Seq<Signal>>)
        requires
            handlers_accept(self.subscriber_handlers(), ps),
            0 <= j < ps.len(),
            ps[j].payload == *payload,
        ensures
            forall|k: int| 0 <= k < self.subscriber_ids().len() && self.subscriber_ids()[k] == id.0
                ==> call_ensures(#[trigger] self.subscriber_handlers()[k], (payload,), ()),
    {
        let mut k: usize = 0;
        while k < self.handlers.len()
            invariant
                k <= self.handlers@.len(),
                handlers_accept(self.subscriber_handlers(), ps),
                0 <= j < ps.len(),
                ps[j].payload == *payload,
                forall|kk: int| 0 <= kk < k && self.subscriber_ids()[kk] == id.0
                    ==> call_ensures(#[trigger] self.subscriber_handlers()[kk], (payload,), ()),
            decreases self.handlers.len() - k,
        {
            if self.handlers[k].0 == id.0 {
                proof {
                    assert(self.subscriber_handlers()[k as int] == self.handlers@[k as int].1);
                    assert(call_requires(self.subscriber_handlers()[k as int], (&ps[j].payload,)));
                }
                (self.handlers[k].1)(payload);
            }
            k += 1;
        }
    }

    /// Delivers like `deliver_pending` and returns each delivered signal's
    /// name (or `"unknown"`) with its payload, oldest first.
    pub fn deliver_and_collect(&mut self) -> (r: Vec<(String, Json)>)
        requires
            handlers_accept(old(self).subscriber_handlers(), old(self).pending()),
        ensures
            r@.len() == old(self).pending().len(),
            forall|i: int| 0 <= i < r@.len() ==> (#[trigger] r@[i]).0@ == delivered_name(old(self).names(), old(self).pending()[i].id.0)
                && r@[i].1 == old(self).pending()[i].payload,
            final(self).pending().len() == 0,
            final(self).names() == old(self).names(),
            final(self).subscriber_ids() == old(self).subscriber_ids(),
            final(self).subscriber_handlers() == old(self).subscriber_handlers(),
    {
        let pending = self.drain();
        let mut delivered: Vec<(String, Json)> = Vec::new();
        let mut rest = pending;
        let ghost ps = rest@;
        let mut i: usize = 0;
        let n = rest.len();
        assert(rest@ =~= ps.skip(0));
        while i < n
            invariant
                n == ps.len(),
                i <= n,
                ps == old(self).pending(),
                rest@.len() == n - i,
                rest@ == ps.skip(i as int),
                self.subscriber_handlers() == old(self).subscriber_handlers(),
                self.subscriber_ids() == old(self).subscriber_ids(),
                self.names() == old(self).names(),
                handlers_accept(self.subscriber_handlers(), ps),
                delivered@.len() == i,
                forall|k: int| 0 <= k < i ==> (#[trigger] delivered@[k]).0@ == delivered_name(old(self).names(), ps[k].id.0)
                    && delivered@[k].1 == ps[k].payload,
            decreases n - i,
        {
            let signal = rest.remove(0);
            assert(signal == ps[i as int]);
            assert(rest@ =~= ps.skip(i + 1));
            let name = match self.name_of(signal.id) {
                Some(s) => s.to_string(),
                None => "unknown".to_string(),
            };
            self.run_handlers(signal.id, &signal.payload, Ghost(i as int), Ghost(ps));
            delivered.push((name, signal.payload));
            i += 1;
        }
        delivered
    }
}

/// Declaring a name a second time changes nothing and gives the same id.
pub proof fn law_declare_idempotent(names: Seq<Seq<char>>, name: Seq<char>)
    ensures
        declared(declared(names, name).0, name) == declared(names, name),
{
    let (n1, id1) = declared(names, name);
    assert(n1.contains(name)) by {
        if !names.contains(name) {
            assert(n1[names.len() as int] == name);
        }
    }
    if !names.contains(name) {
        assert(n1.index_of(name) == names.len()) by {
            let k = n1.index_of(name);
            if k < names.len() {
                assert(names[k] == name);
            }
        }
    }
}

/// After declaring a name, resolving it gives its id and the id names it.
pub proof fn law_declare_then_resolve(names: Seq<Seq<char>>, name: Seq<char>)
    ensures
        name_index(declared(names, name).0, name) == Some(declared(names, name).1),
        declared(names, name).0[declared(names, name).1 as int] == name,
        declared(names, name).1 < declared(names, name).0.len(),
{
    law_declare_idempotent(names, name);
}

/// Two different names, declared one after the other, get different ids.
pub proof fn law_distinct_names_distinct_ids(names: Seq<Seq<char>>, a: Seq<char>, b: Seq<char>)
    requires
        a != b,
    ensures
        declared(names, a).1 != declared(declared(names, a).0, b).1,
{
    law_declare_then_resolve(names, a);
    law_declare_then_resolve(declared(names, a).0, b);
    let n1 = declared(names, a).0;
    let n2 = declared(n1, b).0;
    let ia = declared(names, a).1;
    let ib = declared(n1, b).1;
    if !n1.contains(b) {
        assert(n2 == n1.push(b));
    }
    assert(n2[ia as int] == a) by {
        if !n1.contains(b) { assert(n2[ia as int] == n1[ia as int]); }
    }
}

/// The declared names of the given signals, skipping undeclared ids.
pub open spec fn known_names(names: Seq<Seq<char>>, signals: Seq<Signal>) -> Seq<Seq<char>>
    decreases signals.len(),
{
    if signals.len() == 0 {
        Seq::empty()
    } else {
        let rest = known_names(names, signals.drop_last());
        let id = signals.last().id.0;
        if id < names.len() { rest.push(names[id as int]) } else { rest }
    }
}

/// How many entries of `ids` equal `id`.
pub open spec fn count_ids(ids: Seq<u32>, id: u32) -> nat
    decreases ids.len(),
{
    if ids.len() == 0 {
        0
    } else {
        count_ids(ids.drop_last(), id) + if ids.last() == id { 1nat } else { 0nat }
    }
}

} // verus!
