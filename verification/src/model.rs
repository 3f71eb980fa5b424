//! Per-process aggregation of events: counts by category, a bounded window
//! of the newest events, and the count of events lost before user space.

use std::collections::{HashMap, VecDeque};
use vstd::prelude::*;
use vstd::std_specs::hash::spec_keys_iter;
use vstd::std_specs::iter::IteratorSpec;
use crate::event::{Event, EventKind, spec_kind_from_code, kind_from_u32};
use crate::decode::{decode, decodes_to, field_value, machine_is_little, record_holds, EVENT_SIZE};

verus! {

broadcast use vstd::std_specs::hash::group_hash_axioms;

/// Number of categories.
pub const N_CATEGORIES: usize = 4;

/// How many of its newest events a process keeps.
pub const RECENT_CAP: usize = 100;

/// What a syscall touches. Its position in this list (from 0) indexes
/// [`Process::by_category`].
#[derive(Clone, Copy, Debug, PartialEq, Eq, Structural)]
pub enum Category {
    File,
    Network,
    Process,
    Other,
}

pub open spec fn spec_category(kind: EventKind) -> Category {
    match kind {
        EventKind::Open | EventKind::Read | EventKind::Write => Category::File,
        EventKind::Connect | EventKind::Accept => Category::Network,
        EventKind::Exec | EventKind::Exit => Category::Process,
        EventKind::Other => Category::Other,
    }
}

/// The category of a kind of syscall.
pub fn category(kind: EventKind) -> (c: Category)
    ensures
        c == spec_category(kind),
{
    match kind {
        EventKind::Open | EventKind::Read | EventKind::Write => Category::File,
        EventKind::Connect | EventKind::Accept => Category::Network,
        EventKind::Exec | EventKind::Exit => Category::Process,
        EventKind::Other => Category::Other,
    }
}

pub open spec fn spec_category_index(c: Category) -> int {
    match c {
        Category::File => 0,
        Category::Network => 1,
        Category::Process => 2,
        Category::Other => 3,
    }
}

/// The slot of a category in [`Process::by_category`].
pub fn category_index(c: Category) -> (i: usize)
    ensures
        i == spec_category_index(c),
        i < N_CATEGORIES,
{
    match c {
        Category::File => 0,
        Category::Network => 1,
        Category::Process => 2,
        Category::Other => 3,
    }
}

/// The category an event's stored kind code falls in.
pub open spec fn event_category(e: Event) -> Category {
    spec_category(spec_kind_from_code(e.kind))
}

/// What has been observed of one process.
#[derive(Clone, Debug, Default)]
pub struct Process {
    pub pid: u32,
    /// Number of events seen.
    pub total: u64,
    /// Number of events seen per category.
    pub by_category: [u64; N_CATEGORIES],
    /// The newest events, oldest first, at most [`RECENT_CAP`] of them.
    pub recent: VecDeque<Event>,
}

/// The sum of the per-category counts.
pub open spec fn category_sum(c: Seq<u64>) -> int {
    c[0] + c[1] + c[2] + c[3]
}

/// The last `n` elements of a sequence (all of it if it is shorter).
pub open spec fn keep_newest(s: Seq<Event>, n: nat) -> Seq<Event> {
    if s.len() <= n {
        s
    } else {
        s.subrange(s.len() - n, s.len() as int)
    }
}

impl Process {
    /// The record of process `pid` is consistent: its counts add up, and
    /// its window holds its newest events, all of its own.
    pub open spec fn wf(&self, pid: u32) -> bool {
        &&& self.pid == pid
        &&& self.by_category@.len() == N_CATEGORIES
        &&& category_sum(self.by_category@) == self.total
        &&& self.total >= 1
        &&& self.recent@.len() == if self.total <= RECENT_CAP {
            self.total as int
        } else {
            RECENT_CAP as int
        }
        &&& forall|i: int| 0 <= i < self.recent@.len() ==> #[trigger] self.recent@[i].pid == pid
    }
}

/// Events seen for `pid` so far: 0 if it is not tracked.
pub open spec fn prior_total(m: Map<u32, Process>, pid: u32) -> int {
    if m.contains_key(pid) {
        m[pid].total as int
    } else {
        0
    }
}

/// Per-category counts for `pid` so far: all 0 if it is not tracked.
pub open spec fn prior_categories(m: Map<u32, Process>, pid: u32) -> Seq<u64> {
    if m.contains_key(pid) {
        m[pid].by_category@
    } else {
        seq![0u64, 0u64, 0u64, 0u64]
    }
}

/// The window of `pid` so far: empty if it is not tracked.
pub open spec fn prior_recent(m: Map<u32, Process>, pid: u32) -> Seq<Event> {
    if m.contains_key(pid) {
        m[pid].recent@
    } else {
        Seq::empty()
    }
}

/// `a` is listed before `b`: it has more events, or as many and a smaller pid.
pub open spec fn busier(a: Process, b: Process) -> bool {
    a.total > b.total || (a.total == b.total && a.pid < b.pid)
}

fn busier_exec(a: &Process, b: &Process) -> (r: bool)
    ensures
        r == busier(*a, *b),
{
    a.total > b.total || (a.total == b.total && a.pid < b.pid)
}

/// `after` is `before` with one more event accounted to its process: the
/// process is tracked from then on, its total and the count of the event's
/// category grow by one, and the event joins its window, whose oldest event
/// leaves once it holds more than [`RECENT_CAP`]. Other processes keep their
/// records, and the updated record is consistent.
pub open spec fn ingested(before: Map<u32, Process>, e: Event, after: Map<u32, Process>) -> bool {
    &&& after.dom() == before.dom().insert(e.pid)
    &&& forall|pid: u32| #[trigger]
        before.contains_key(pid) && pid != e.pid ==> after[pid] == before[pid]
    &&& after[e.pid].wf(e.pid)
    &&& after[e.pid].total == prior_total(before, e.pid) + 1
    &&& after[e.pid].by_category@ == ({
        let c = prior_categories(before, e.pid);
        let i = spec_category_index(event_category(e));
        c.update(i, (c[i] + 1) as u64)
    })
    &&& after[e.pid].recent@ == keep_newest(prior_recent(before, e.pid).push(e), RECENT_CAP as nat)
}

/// `r` lists every process of `m` exactly once, busiest first.
pub open spec fn lists_by_activity(m: Map<u32, Process>, r: Seq<&Process>) -> bool {
    &&& r.len() == m.dom().len()
    &&& forall|i: int|
        0 <= i < r.len() ==> m.contains_key(#[trigger] r[i].pid) && *r[i] == m[r[i].pid]
    &&& forall|pid: u32|
        #[trigger] m.contains_key(pid) ==> exists|i: int| 0 <= i < r.len() && #[trigger] r[i].pid == pid
    &&& forall|i: int, j: int| 0 <= i < j < r.len() ==> busier(*r[i], *r[j])
}

/// What became of one ring-buffer record.
#[derive(Clone, Copy, Debug)]
pub enum Intake {
    /// Too short to hold an event.
    TooShort,
    /// Its event belongs to a process that is not watched.
    Filtered(Event),
    /// Its event was accounted to its process.
    Ingested(Event),
    /// Its process's event total cannot grow any further; nothing changed.
    TotalFull(Event),
}

/// The aggregated state of everything observed.
pub struct AppState {
    procs: HashMap<u32, Process>,
    dropped: u64,
}

impl AppState {
    /// The tracked processes, by pid.
    pub closed spec fn procs(&self) -> Map<u32, Process> {
        self.procs@
    }

    /// Number of events reported lost.
    pub closed spec fn spec_dropped(&self) -> u64 {
        self.dropped
    }

    /// Every tracked process is consistent and filed under its own pid.
    /// Every state the API builds has it.
    #[verifier::type_invariant]
    pub closed spec fn wf(&self) -> bool {
        forall|pid: u32| #[trigger] self.procs@.contains_key(pid) ==> self.procs@[pid].wf(pid)
    }

    /// Accounts one event to its process, tracking the process from its
    /// first event on: the total and the event's category each grow by one,
    /// and the event joins the process's window, whose oldest event leaves
    /// once it holds more than [`RECENT_CAP`]. Nothing else changes.
    pub fn ingest(&mut self, e: Event)
        requires
            prior_total(old(self).procs(), e.pid) < u64::MAX,
        ensures
            final(self).spec_dropped() == old(self).spec_dropped(),
            ingested(old(self).procs(), e, final(self).procs()),
    {
        proof {
            use_type_invariant(&*self);
        }
        let kind = kind_from_u32(e.kind);
        let slot = category_index(category(kind));
        let ghost old_procs = self.procs@;
        let mut procs: HashMap<u32, Process> = HashMap::new();
        std::mem::swap(&mut procs, &mut self.procs);
        let mut p = match procs.remove(&e.pid) {
            Some(p) => p,
            None => Process {
                pid: e.pid,
                total: 0,
                by_category: [0u64; 4],
                recent: VecDeque::new(),
            },
        };
        proof {
            if !old_procs.contains_key(e.pid) {
                assert(p.by_category@ =~= seq![0u64, 0u64, 0u64, 0u64]);
            }
            assert(p.by_category@[slot as int] <= p.total);
        }
        let ghost old_cats = p.by_category@;
        let ghost old_recent = p.recent@;
        p.total = p.total + 1;
        p.by_category[slot] = p.by_category[slot] + 1;
        p.recent.push_back(e);
        if p.recent.len() > RECENT_CAP {
            p.recent.pop_front();
        }
        proof {
            assert(p.by_category@ =~= old_cats.update(slot as int, (old_cats[slot as int] + 1) as u64));
            assert(p.recent@ =~= keep_newest(old_recent.push(e), RECENT_CAP as nat));
            assert forall|i: int| 0 <= i < p.recent@.len() implies #[trigger] p.recent@[i].pid == e.pid by {
                let s = old_recent.push(e);
                if s.len() > RECENT_CAP {
                    assert(p.recent@[i] == s[i + 1]);
                } else {
                    assert(p.recent@[i] == s[i]);
                }
                if old_procs.contains_key(e.pid) {
                    assert(old_procs[e.pid].wf(e.pid));
                }
            }
        }
        procs.insert(e.pid, p);
        proof {
            assert forall|pid: u32| #[trigger] procs@.contains_key(pid) implies procs@[pid].wf(pid) by {
                if pid != e.pid {
                    assert(old_procs.contains_key(pid));
                }
            }
            assert(procs@.dom() =~= old_procs.dom().insert(e.pid));
        }
        self.procs = procs;
    }

    /// Handles one ring-buffer record: decodes it and, when its process is
    /// watched (every process when `filter` is `None`), accounts its event.
    /// A record too short to hold an event is counted as a lost event (the
    /// count stops at `u64::MAX`).
    pub fn take_record(&mut self, bytes: &[u8], filter: Option<u32>) -> (r: Intake)
        ensures
            final(self).spec_dropped() == if r is TooShort && old(self).spec_dropped() < u64::MAX {
                old(self).spec_dropped() + 1
            } else {
                old(self).spec_dropped() as int
            },
            r is TooShort <==> bytes@.len() < EVENT_SIZE,
            match r {
                Intake::TooShort => final(self).procs() == old(self).procs(),
                Intake::Filtered(e) => decodes_to(bytes@, e) && record_holds(bytes@, e, machine_is_little()) && filter != Some(e.pid)
                    && filter is Some && final(self).procs() == old(self).procs(),
                Intake::TotalFull(e) => decodes_to(bytes@, e) && record_holds(bytes@, e, machine_is_little()) && (filter is None || filter == Some(e.pid)) && prior_total(old(self).procs(), e.pid) == u64::MAX
                    && final(self).procs() == old(self).procs(),
                Intake::Ingested(e) => decodes_to(bytes@, e) && record_holds(bytes@, e, machine_is_little()) && (filter is None || filter == Some(e.pid)) && ingested(old(self).procs(), e, final(self).procs()),
            },
    {
        proof {
            use_type_invariant(&*self);
        }
        match decode(bytes) {
            None => {
                if self.dropped < u64::MAX {
                    self.dropped = self.dropped + 1;
                }
                Intake::TooShort
            },
            Some(e) => {
                let watched = match filter {
                    None => true,
                    Some(p) => p == e.pid,
                };
                if !watched {
                    return Intake::Filtered(e);
                }
                let full = match self.procs.get(&e.pid) {
                    Some(p) => p.total == u64::MAX,
                    None => false,
                };
                if full {
                    Intake::TotalFull(e)
                } else {
                    self.ingest(e);
                    Intake::Ingested(e)
                }
            },
        }
    }

    /// The record of process `pid`, if it is tracked.
    pub fn process(&self, pid: u32) -> (r: Option<&Process>)
        ensures
            match r {
                Some(p) => self.procs().contains_key(pid) && *p == self.procs()[pid],
                None => !self.procs().contains_key(pid),
            },
    {
        self.procs.get(&pid)
    }

    /// All tracked processes, busiest first: by decreasing total, and by
    /// increasing pid among equal totals. Each appears exactly once.
    pub fn processes_by_activity(&self) -> (r: Vec<&Process>)
        ensures
            lists_by_activity(self.procs(), r@),
    {
        proof {
            use_type_invariant(self);
        }
        let mut v: Vec<&Process> = Vec::new();
        let ghost mut pos: Seq<int> = Seq::empty();
        let ghost m = self.procs@;
        let ghost keys = spec_keys_iter(&self.procs).remaining();
        for k in it: self.procs.keys()
            invariant
                self.wf(),
                m == self.procs@,
                it.seq() == keys,
                keys.len() == m.dom().len(),
                keys.no_duplicates(),
                keys.unref().to_set() == m.dom(),
                v@.len() == it.index(),
                pos.len() == it.index(),
                forall|j: int|
                    0 <= j < pos.len() ==> 0 <= #[trigger] pos[j] < v@.len() && v@[pos[j]].pid
                        == *keys[j],
                forall|a: int|
                    0 <= a < v@.len() ==> m.contains_key(#[trigger] v@[a].pid) && *v@[a]
                        == m[v@[a].pid],
                forall|a: int, j: int|
                    0 <= a < v@.len() && it.index() <= j < it.seq().len() ==> #[trigger] v@[a].pid
                        != *#[trigger] it.seq()[j],
                forall|a: int, b: int| 0 <= a < b < v@.len() ==> busier(*v@[a], *v@[b]),
        {
            let ghost idx = it.index();
            assert(it.seq().unref()[idx] == *k);
            assert(it.seq().unref().contains(*k));
            assert(m.contains_key(*k));
            match self.procs.get(k) {
                Some(p) => {
                    assert(self.procs().contains_key(*k));
                    assert(*p == m[*k]);
                    assert(p.wf(*k));
                    let mut at: usize = 0;
                    while at < v.len() && busier_exec(v[at], p)
                        invariant
                            at <= v@.len(),
                            forall|a: int| 0 <= a < at ==> busier(*v@[a], *p),
                        decreases v@.len() - at,
                    {
                        at = at + 1;
                    }
                    proof {
                        assert forall|b: int| at <= b < v@.len() implies busier(*p, *v@[b]) by {
                            assert(v@[b].pid != *it.seq()[idx]);
                            if b > at {
                                assert(busier(*v@[at as int], *v@[b]));
                            }
                        }
                    }
                    let ghost old_v = v@;
                    v.insert(at, p);
                    proof {
                        let old_pos = pos;
                        pos = Seq::new(
                            (idx + 1) as nat,
                            |j: int|
                                if j < idx {
                                    if old_pos[j] >= at {
                                        old_pos[j] + 1
                                    } else {
                                        old_pos[j]
                                    }
                                } else {
                                    at as int
                                },
                        );
                        assert forall|j: int|
                            0 <= j < idx + 1 implies 0 <= #[trigger] pos[j] < v@.len() && v@[pos[j]].pid
                            == *it.seq()[j] by {
                            if j < idx {
                                assert(0 <= old_pos[j] < old_v.len());
                            }
                        }
                        assert forall|a: int| 0 <= a < v@.len() implies m.contains_key(
                            #[trigger] v@[a].pid,
                        ) && *v@[a] == m[v@[a].pid] by {
                            if a < at {
                                assert(v@[a] == old_v[a]);
                            } else if a > at {
                                assert(v@[a] == old_v[a - 1]);
                            }
                        }
                        assert forall|a: int, j: int|
                            0 <= a < v@.len() && idx + 1 <= j < it.seq().len() implies #[trigger] v@[a].pid
                            != *#[trigger] it.seq()[j] by {
                            if a < at {
                                assert(v@[a] == old_v[a]);
                            } else if a > at {
                                assert(v@[a] == old_v[a - 1]);
                            } else {
                                assert(it.seq()[j] != it.seq()[idx]);
                            }
                        }
                        assert forall|a: int, b: int| 0 <= a < b < v@.len() implies busier(
                            *v@[a],
                            *v@[b],
                        ) by {
                            if b < at {
                                assert(v@[a] == old_v[a] && v@[b] == old_v[b]);
                            } else if b == at {
                                assert(v@[a] == old_v[a]);
                            } else if a < at {
                                assert(v@[a] == old_v[a] && v@[b] == old_v[b - 1]);
                            } else if a == at {
                                assert(v@[b] == old_v[b - 1]);
                            } else {
                                assert(v@[a] == old_v[a - 1] && v@[b] == old_v[b - 1]);
                            }
                        }
                    }
                },
                None => {
                    assert(false);
                },
            }
        }
        proof {
            assert(pos.len() == keys.len());
            assert forall|pid: u32| #[trigger] m.contains_key(pid) implies exists|i: int|
                0 <= i < v@.len() && #[trigger] v@[i].pid == pid by {
                assert(keys.unref().to_set().contains(pid));
                let j = choose|j: int| 0 <= j < keys.len() && keys.unref()[j] == pid;
                assert(v@[pos[j]].pid == pid);
            }
        }
        v
    }

    /// The window of newest events of process `pid`, oldest first; empty if
    /// the process is not tracked.
    pub fn recent_for(&self, pid: u32) -> (r: Vec<Event>)
        ensures
            r@ == prior_recent(self.procs(), pid),
    {
        let mut out: Vec<Event> = Vec::new();
        match self.procs.get(&pid) {
            Some(p) => {
                let n = p.recent.len();
                let mut i: usize = 0;
                while i < n
                    invariant
                        n == p.recent@.len(),
                        i <= n,
                        out@ == p.recent@.take(i as int),
                    decreases n - i,
                {
                    out.push(p.recent[i]);
                    i = i + 1;
                    assert(out@ =~= p.recent@.take(i as int));
                }
                assert(out@ =~= p.recent@);
            },
            None => {},
        }
        out
    }

    /// Adds `n` to the count of events lost before reaching user space.
    pub fn note_dropped(&mut self, n: u64)
        requires
            old(self).spec_dropped() + n <= u64::MAX,
        ensures
            final(self).spec_dropped() == old(self).spec_dropped() + n,
            final(self).procs() == old(self).procs(),
    {
        proof {
            use_type_invariant(&*self);
        }
        self.dropped = self.dropped + n;
    }

    /// Number of events reported lost so far.
    pub fn dropped(&self) -> (n: u64)
        ensures
            n == self.spec_dropped(),
    {
        self.dropped
    }
}

impl Default for AppState {
    fn default() -> (s: AppState)
        ensures
            s.procs() == Map::<u32, Process>::empty(),
            s.spec_dropped() == 0,
    {
        AppState { procs: HashMap::new(), dropped: 0 }
    }
}

/// The window of a process always holds the newest events of its whole
/// history: trimming to the newest [`RECENT_CAP`] before or after appending
/// an event gives the same window.
pub proof fn law_window_holds_newest(history: Seq<Event>, e: Event)
    ensures
        keep_newest(keep_newest(history, RECENT_CAP as nat).push(e), RECENT_CAP as nat)
            == keep_newest(history.push(e), RECENT_CAP as nat),
{
    let n = RECENT_CAP as nat;
    let lhs = keep_newest(keep_newest(history, n).push(e), n);
    let rhs = keep_newest(history.push(e), n);
    assert(lhs =~= rhs);
}

/// In every consistent state, the counts of a tracked process add up to its
/// total, and its window holds as many events as it has seen, up to
/// [`RECENT_CAP`], all of them its own.
pub proof fn law_counts_add_up(s: AppState, pid: u32)
    requires
        s.wf(),
        s.procs().contains_key(pid),
    ensures
        ({
            let p = s.procs()[pid];
            &&& p.pid == pid
            &&& p.total >= 1
            &&& category_sum(p.by_category@) == p.total
            &&& p.recent@.len() == if p.total <= RECENT_CAP {
                p.total as int
            } else {
                RECENT_CAP as int
            }
            &&& forall|i: int| 0 <= i < p.recent@.len() ==> #[trigger] p.recent@[i].pid == pid
        }),
{
    assert(s.procs()[pid].wf(pid));
}

/// The events of process `pid` in a history, in order.
pub open spec fn events_of(h: Seq<Event>, pid: u32) -> Seq<Event>
    decreases h.len(),
{
    if h.len() == 0 {
        Seq::empty()
    } else if h.last().pid == pid {
        events_of(h.drop_last(), pid).push(h.last())
    } else {
        events_of(h.drop_last(), pid)
    }
}

/// How many events of a sequence fall in the category of slot `c`.
pub open spec fn count_in(s: Seq<Event>, c: int) -> nat
    decreases s.len(),
{
    if s.len() == 0 {
        0
    } else {
        count_in(s.drop_last(), c) + if spec_category_index(event_category(s.last())) == c {
            1nat
        } else {
            0nat
        }
    }
}

/// What a history of events leaves for process `pid` in `m`: tracked
/// exactly when it has events, and then a consistent record whose total is
/// its number of events, whose counts are its events per category, and whose
/// window is its newest [`RECENT_CAP`] events, oldest first.
pub open spec fn reflects_history(m: Map<u32, Process>, h: Seq<Event>, pid: u32) -> bool {
    &&& m.contains_key(pid) <==> events_of(h, pid).len() > 0
    &&& m.contains_key(pid) ==> {
        let p = m[pid];
        &&& p.wf(pid)
        &&& p.total == events_of(h, pid).len()
        &&& forall|c: int| 0 <= c < N_CATEGORIES ==> #[trigger] p.by_category@[c] == count_in(events_of(h, pid), c)
        &&& p.recent@ == keep_newest(events_of(h, pid), RECENT_CAP as nat)
    }
}

proof fn lemma_history_prefix(states: Seq<Map<u32, Process>>, h: Seq<Event>, n: int)
    requires
        states.len() == h.len() + 1,
        states[0] == Map::<u32, Process>::empty(),
        forall|i: int| 0 <= i < h.len() ==> #[trigger] ingested(states[i], h[i], states[i + 1]),
        0 <= n <= h.len(),
    ensures
        forall|pid: u32| #[trigger] reflects_history(states[n], h.take(n), pid),
    decreases n,
{
    if n == 0 {
        assert forall|pid: u32| #[trigger] reflects_history(states[n], h.take(n), pid) by {
            assert(h.take(0).len() == 0);
        }
    } else {
        lemma_history_prefix(states, h, n - 1);
        let hp = h.take(n - 1);
        let hn = h.take(n);
        let e = h[n - 1];
        let before = states[n - 1];
        let after = states[n];
        let i = n - 1;
        assert(ingested(states[i], h[i], states[i + 1]));
        assert(states[i + 1] == after);
        assert(hn.drop_last() =~= hp);
        assert(hn.last() == e);
        assert forall|pid: u32| #[trigger] reflects_history(after, hn, pid) by {
            assert(reflects_history(before, hp, pid));
            if pid == e.pid {
                let old_ev = events_of(hp, pid);
                assert(events_of(hn, pid) == old_ev.push(e));
                assert(old_ev.push(e).drop_last() =~= old_ev);
                let p = after[pid];
                let cold = prior_categories(before, pid);
                let slot = spec_category_index(event_category(e));
                if before.contains_key(pid) {
                    assert(before[pid].wf(pid));
                    assert(prior_total(before, pid) == old_ev.len());
                    assert(prior_recent(before, pid) == keep_newest(old_ev, RECENT_CAP as nat));
                    assert forall|c: int| 0 <= c < N_CATEGORIES implies cold[c] == count_in(old_ev, c) by {
                        assert(before[pid].by_category@[c] == count_in(old_ev, c));
                    }
                } else {
                    assert(old_ev.len() == 0);
                    assert(old_ev =~= Seq::<Event>::empty());
                    assert(prior_recent(before, pid) =~= keep_newest(old_ev, RECENT_CAP as nat));
                    assert forall|c: int| 0 <= c < N_CATEGORIES implies cold[c] == count_in(old_ev, c) by {
                        assert(count_in(old_ev, c) == 0);
                    }
                }
                assert(cold[slot] <= prior_total(before, pid));
                law_window_holds_newest(old_ev, e);
                assert(p.total == events_of(hn, pid).len());
                assert(p.recent@ == keep_newest(events_of(hn, pid), RECENT_CAP as nat));
                assert forall|c: int| 0 <= c < N_CATEGORIES implies #[trigger] p.by_category@[c]
                    == count_in(events_of(hn, pid), c) by {
                    assert(count_in(old_ev.push(e), c) == count_in(old_ev, c) + if slot == c {
                        1nat
                    } else {
                        0nat
                    });
                    assert(cold[c] == count_in(old_ev, c));
                }
            } else {
                assert(events_of(hn, pid) == events_of(hp, pid));
                if before.contains_key(pid) {
                    assert(after[pid] == before[pid]);
                }
            }
        }
    }
}

/// A state built from an empty one by ingesting the events of a history one
/// by one (`states[i + 1]` is `states[i]` after ingesting `h[i]`; counting
/// lost events in between leaves the tracked processes alone) tracks exactly
/// the processes that have events in the history; for each, its total is
/// its number of events, its counts are its events per category, and its
/// window is its newest [`RECENT_CAP`] events, oldest first.
pub proof fn law_state_reflects_history(states: Seq<Map<u32, Process>>, h: Seq<Event>)
    requires
        states.len() == h.len() + 1,
        states[0] == Map::<u32, Process>::empty(),
        forall|i: int| 0 <= i < h.len() ==> #[trigger] ingested(states[i], h[i], states[i + 1]),
    ensures
        forall|pid: u32| #[trigger] reflects_history(states.last(), h, pid),
{
    lemma_history_prefix(states, h, h.len() as int);
    assert(h.take(h.len() as int) =~= h);
}

/// Ingesting two events in either order tracks the same processes with the
/// same totals and per-category counts; when the events belong to different
/// processes, the windows agree as well.
pub proof fn law_ingest_commutes(
    m0: Map<u32, Process>,
    a: Event,
    b: Event,
    m1: Map<u32, Process>,
    m2: Map<u32, Process>,
    n1: Map<u32, Process>,
    n2: Map<u32, Process>,
)
    requires
        ingested(m0, a, m1),
        ingested(m1, b, m2),
        ingested(m0, b, n1),
        ingested(n1, a, n2),
    ensures
        m2.dom() == n2.dom(),
        forall|pid: u32|
            #[trigger] m2.contains_key(pid) ==> m2[pid].total == n2[pid].total
                && m2[pid].by_category@ == n2[pid].by_category@,
        a.pid != b.pid ==> forall|pid: u32|
            #[trigger] m2.contains_key(pid) ==> m2[pid].recent@ == n2[pid].recent@,
{
    assert(m2.dom() =~= n2.dom());
    assert forall|pid: u32| #[trigger] m2.contains_key(pid) implies m2[pid].total == n2[pid].total
        && m2[pid].by_category@ == n2[pid].by_category@ && (a.pid != b.pid ==> m2[pid].recent@
        == n2[pid].recent@) by {
        let ia = spec_category_index(event_category(a));
        let ib = spec_category_index(event_category(b));
        if pid == a.pid && pid == b.pid {
            let c = prior_categories(m0, pid);
            assert(m2[pid].by_category@ =~= n2[pid].by_category@);
        } else if pid == a.pid {
            assert(n1.contains_key(pid) <==> m0.contains_key(pid));
            assert(m2[pid] == m1[pid]);
        } else if pid == b.pid {
            assert(m1.contains_key(pid) <==> m0.contains_key(pid));
            assert(n2[pid] == n1[pid]);
        } else {
            assert(m2[pid] == m0[pid]);
            assert(n2[pid] == m0[pid]);
        }
    }
}

proof fn lemma_listing_prefix(
    m1: Map<u32, Process>,
    r1: Seq<&Process>,
    m2: Map<u32, Process>,
    r2: Seq<&Process>,
    k: int,
)
    requires
        lists_by_activity(m1, r1),
        lists_by_activity(m2, r2),
        m1.dom() == m2.dom(),
        forall|pid: u32| #[trigger] m1.contains_key(pid) ==> m1[pid].total == m2[pid].total,
        0 <= k <= r1.len(),
    ensures
        r1.len() == r2.len(),
        forall|i: int| 0 <= i < k ==> #[trigger] r1[i].pid == r2[i].pid,
    decreases k,
{
    if k > 0 {
        lemma_listing_prefix(m1, r1, m2, r2, k - 1);
        let x = k - 1;
        let p = r1[x].pid;
        let q = r2[x].pid;
        assert(m1.contains_key(p));
        assert(m2.contains_key(p));
        assert(m2.contains_key(q));
        assert(m1.contains_key(q));
        let j = choose|j: int| 0 <= j < r2.len() && #[trigger] r2[j].pid == p;
        let l = choose|l: int| 0 <= l < r1.len() && #[trigger] r1[l].pid == q;
        if p != q {
            if j < x {
                assert(r1[j].pid == r2[j].pid);
                assert(busier(*r1[j], *r1[x]));
            }
            if l < x {
                assert(r1[l].pid == r2[l].pid);
                assert(busier(*r2[l], *r2[x]));
            }
            assert(j > x);
            assert(l > x);
            assert(busier(*r2[x], *r2[j]));
            assert(busier(*r1[x], *r1[l]));
            assert(false);
        }
    }
}

/// The busiest-first listing depends on the processes' totals alone: two
/// listings of states that track the same processes with the same totals
/// name the same pids in the same order.
pub proof fn law_listing_determined(
    m1: Map<u32, Process>,
    r1: Seq<&Process>,
    m2: Map<u32, Process>,
    r2: Seq<&Process>,
)
    requires
        lists_by_activity(m1, r1),
        lists_by_activity(m2, r2),
        m1.dom() == m2.dom(),
        forall|pid: u32| #[trigger] m1.contains_key(pid) ==> m1[pid].total == m2[pid].total,
    ensures
        r1.len() == r2.len(),
        forall|i: int| 0 <= i < r1.len() ==> #[trigger] r1[i].pid == r2[i].pid,
{
    lemma_listing_prefix(m1, r1, m2, r2, r1.len() as int);
}

/// A record's event, once accounted, counts for the process whose pid the
/// record's first four bytes hold in the machine's byte order: that process
/// is tracked, with one more event than before.
pub proof fn law_record_accounted_to_its_pid(
    b: Seq<u8>,
    e: Event,
    before: Map<u32, Process>,
    after: Map<u32, Process>,
)
    requires
        b.len() >= EVENT_SIZE,
        record_holds(b, e, machine_is_little()),
        ingested(before, e, after),
    ensures
        ({
            let pid = field_value(b.subrange(0, 4), machine_is_little()) as u32;
            &&& after.contains_key(pid)
            &&& after[pid].pid == pid
            &&& after[pid].total == prior_total(before, pid) + 1
        }),
{
}

} // verus!
