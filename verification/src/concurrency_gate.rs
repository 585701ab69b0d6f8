//! The deterministic, bounded Operation concurrency gate: a grant takes one
//! of a tool's parallel slots and every lock of the request at once, or
//! nothing.
use vstd::prelude::*;

use crate::keyed::{Keyed, keys_unique, has_key, keyed_map, lemma_key_index, lemma_keyed_update, lemma_keyed_push, lemma_keyed_remove};
use crate::text::str_eq;

verus! {

/// A lock an Operation holds while it runs.
pub struct OperationLockKey {
    pub scope_kind: String,
    pub project_id: Option<String>,
    pub tool_id: String,
    pub lock_hash: String,
}

pub struct LockView {
    pub scope_kind: Seq<char>,
    pub project_id: Option<Seq<char>>,
    pub tool_id: Seq<char>,
    pub lock_hash: Seq<char>,
}

impl View for OperationLockKey {
    type V = LockView;

    open spec fn view(&self) -> LockView {
        LockView {
            scope_kind: self.scope_kind@,
            project_id: match self.project_id {
                Some(p) => Some(p@),
                None => None,
            },
            tool_id: self.tool_id@,
            lock_hash: self.lock_hash@,
        }
    }
}

impl OperationLockKey {
    /// Field-by-field equality.
    pub fn same_as(&self, other: &OperationLockKey) -> (result: bool)
        ensures
            result == (self@ == other@),
    {
        let same_project = match (&self.project_id, &other.project_id) {
            (Some(a), Some(b)) => str_eq(a.as_str(), b.as_str()),
            (None, None) => true,
            _ => false,
        };
        str_eq(self.scope_kind.as_str(), other.scope_kind.as_str()) && same_project
            && str_eq(self.tool_id.as_str(), other.tool_id.as_str())
            && str_eq(self.lock_hash.as_str(), other.lock_hash.as_str())
    }
}

/// A request for one of `tool_id`'s `max_parallel` slots (at least one)
/// together with every lock in `locks`.
pub struct GateRequest {
    pub tool_id: String,
    pub max_parallel: u16,
    pub locks: Vec<OperationLockKey>,
}

/// The request could not be granted before its deadline.
#[derive(Clone, Copy, Debug, PartialEq, Eq, Structural)]
pub struct QueueTimeout;

impl QueueTimeout {
    pub fn code(&self) -> (result: &'static str)
        ensures
            result@ == "TOOL_QUEUE_TIMEOUT"@,
    {
        "TOOL_QUEUE_TIMEOUT"
    }
}

pub open spec fn lock_views(s: Seq<OperationLockKey>) -> Seq<LockView> {
    s.map_values(|k: OperationLockKey| k@)
}

pub open spec fn lock_set(s: Seq<OperationLockKey>) -> Set<LockView> {
    lock_views(s).to_set()
}

pub open spec fn distinct_locks(s: Seq<OperationLockKey>) -> bool {
    forall|i: int, j: int| 0 <= i < j < s.len() ==> (#[trigger] s[i])@ != (#[trigger] s[j])@
}

/// What a granted request holds until it is released.
pub struct GateLease {
    pub tool_id: String,
    pub locks: Vec<OperationLockKey>,
}

pub struct ToolSlots {
    pub tool_id: String,
    pub active: u16,
}

impl Keyed for ToolSlots {
    open spec fn key(&self) -> Seq<char> {
        self.tool_id@
    }
}

/// How many Operations of each tool run, and which locks are held.
pub struct ConcurrencyGate {
    active_by_tool: Vec<ToolSlots>,
    held_locks: Vec<OperationLockKey>,
}

pub struct GateView {
    pub active: Map<Seq<char>, u16>,
    pub held: Set<LockView>,
}

impl View for ConcurrencyGate {
    type V = GateView;

    closed spec fn view(&self) -> GateView {
        GateView {
            active: keyed_map(self.active_by_tool@).map_values(|t: ToolSlots| t.active),
            held: lock_set(self.held_locks@),
        }
    }
}

/// Running Operations of `tool`.
pub open spec fn active_of(g: GateView, tool: Seq<char>) -> u16 {
    if g.active.contains_key(tool) { g.active[tool] } else { 0 }
}

/// A tool's parallel limit; a limit of zero still admits one Operation.
pub open spec fn limit_of(max_parallel: u16) -> u16 {
    if max_parallel == 0 { 1 } else { max_parallel }
}

/// Whether a request can be granted now: the tool has a free slot and no
/// requested lock is held.
pub open spec fn can_grant(g: GateView, tool: Seq<char>, max_parallel: u16, locks: Set<LockView>) -> bool {
    active_of(g, tool) < limit_of(max_parallel) && locks.disjoint(g.held)
}

/// The state after granting the request.
pub open spec fn granted(g: GateView, tool: Seq<char>, locks: Set<LockView>) -> GateView {
    GateView { active: g.active.insert(tool, (active_of(g, tool) + 1) as u16), held: g.held.union(locks) }
}

/// The state after releasing a lease of `tool` holding `locks`.
pub open spec fn released(g: GateView, tool: Seq<char>, locks: Set<LockView>) -> GateView {
    GateView {
        active: if active_of(g, tool) <= 1 { g.active.remove(tool) } else { g.active.insert(tool, (active_of(g, tool) - 1) as u16) },
        held: g.held.difference(locks),
    }
}

impl GateLease {
    pub open spec fn tool(&self) -> Seq<char> {
        self.tool_id@
    }

    pub open spec fn lock_set(&self) -> Set<LockView> {
        lock_set(self.locks@)
    }
}

/// The views of `s`, as a set, are those of `x` followed by `s`'s.
proof fn lemma_lock_set_cons(x: OperationLockKey, s: Seq<OperationLockKey>)
    ensures
        lock_set(seq![x] + s) == lock_set(s).insert(x@),
{
    let c = lock_views(seq![x] + s);
    let t = lock_views(s);
    assert(c =~= seq![x@] + t);
    assert forall|v: LockView| c.contains(v) <==> (t.contains(v) || v == x@) by {
        if c.contains(v) {
            let j = choose|j: int| 0 <= j < c.len() && #[trigger] c[j] == v;
            if j > 0 {
                assert(t[j - 1] == v);
            }
        }
        if t.contains(v) {
            let j = choose|j: int| 0 <= j < t.len() && #[trigger] t[j] == v;
            assert(c[j + 1] == v);
        }
        if v == x@ {
            assert(c[0] == v);
        }
    }
    assert(lock_set(seq![x] + s) =~= lock_set(s).insert(x@));
}

/// The views of `s.push(x)`, as a set.
proof fn lemma_lock_set_push(s: Seq<OperationLockKey>, x: OperationLockKey)
    ensures
        lock_set(s.push(x)) == lock_set(s).insert(x@),
{
    let c = lock_views(s.push(x));
    let t = lock_views(s);
    assert(c =~= t.push(x@));
    assert forall|v: LockView| c.contains(v) <==> (t.contains(v) || v == x@) by {
        if c.contains(v) {
            let j = choose|j: int| 0 <= j < c.len() && #[trigger] c[j] == v;
            if j < t.len() {
                assert(t[j] == v);
            }
        }
        if t.contains(v) {
            let j = choose|j: int| 0 <= j < t.len() && #[trigger] t[j] == v;
            assert(c[j] == v);
        }
        if v == x@ {
            assert(c[t.len() as int] == v);
        }
    }
    assert(lock_set(s.push(x)) =~= lock_set(s).insert(x@));
}

/// Whether some lock of `s` has the view of `k`.
fn contains_lock(s: &Vec<OperationLockKey>, k: &OperationLockKey) -> (result: bool)
    ensures
        result == lock_set(s@).contains(k@),
{
    let mut i: usize = 0;
    while i < s.len()
        invariant
            i <= s@.len(),
            forall|j: int| 0 <= j < i ==> (#[trigger] s@[j])@ != k@,
        decreases s@.len() - i,
    {
        if s[i].same_as(k) {
            assert(lock_views(s@)[i as int] == k@);
            return true;
        }
        i = i + 1;
    }
    proof {
        if lock_views(s@).contains(k@) {
            let j = choose|j: int| 0 <= j < lock_views(s@).len() && #[trigger] lock_views(s@)[j] == k@;
            assert(s@[j]@ == k@);
        }
    }
    false
}

/// `s` without repeated locks.
fn dedup_locks(s: Vec<OperationLockKey>) -> (result: Vec<OperationLockKey>)
    ensures
        distinct_locks(result@),
        lock_set(result@) == lock_set(s@),
{
    let ghost src = s@;
    let mut out: Vec<OperationLockKey> = Vec::new();
    let mut rest = s;
    assert(lock_set(out@) =~= lock_set(src.skip(src.len() as int)));
    while rest.len() > 0
        invariant
            rest@ == src.take(rest@.len() as int),
            rest@.len() <= src.len(),
            distinct_locks(out@),
            lock_set(out@) == lock_set(src.skip(rest@.len() as int)),
        decreases rest@.len(),
    {
        let ghost n: int = rest@.len() as int;
        let k = rest.pop().unwrap();
        assert(k == src[n - 1]);
        assert(rest@ =~= src.take(n - 1));
        assert(src.skip(n - 1) =~= seq![k] + src.skip(n));
        proof {
            lemma_lock_set_cons(k, src.skip(n));
        }
        if !contains_lock(&out, &k) {
            let ghost before = out@;
            out.push(k);
            proof {
                lemma_lock_set_push(before, k);
                assert forall|a: int, b: int| 0 <= a < b < out@.len() implies (#[trigger] out@[a])@ != (#[trigger] out@[b])@ by {
                    if b == before.len() {
                        assert(out@[a] == before[a]);
                        assert(lock_views(before)[a] == before[a]@);
                    } else {
                        assert(out@[a] == before[a] && out@[b] == before[b]);
                    }
                }
            }
        } else {
            assert(lock_set(out@) =~= lock_set(out@).insert(k@));
        }
    }
    assert(src.skip(0) =~= src);
    out
}

/// Removing a lock of a list without repeats removes its view.
proof fn lemma_lock_set_remove(s: Seq<OperationLockKey>, i: int)
    requires
        distinct_locks(s),
        0 <= i < s.len(),
    ensures
        distinct_locks(s.remove(i)),
        lock_set(s.remove(i)) == lock_set(s).remove(s[i]@),
{
    let t = s.remove(i);
    assert forall|a: int, b: int| 0 <= a < b < t.len() implies (#[trigger] t[a])@ != (#[trigger] t[b])@ by {
        let sa = if a < i { a } else { a + 1 };
        let sb = if b < i { b } else { b + 1 };
        assert(t[a] == s[sa] && t[b] == s[sb]);
    }
    let tv = lock_views(t);
    let sv = lock_views(s);
    assert forall|v: LockView| tv.contains(v) <==> (sv.contains(v) && v != s[i]@) by {
        if tv.contains(v) {
            let j = choose|j: int| 0 <= j < tv.len() && #[trigger] tv[j] == v;
            let sj = if j < i { j } else { j + 1 };
            assert(t[j] == s[sj]);
            assert(sv[sj] == v);
            assert(s[sj]@ != s[i]@) by {
                if sj < i {
                    assert((s[sj])@ != (s[i])@);
                } else {
                    assert((s[i])@ != (s[sj])@);
                }
            }
        }
        if sv.contains(v) && v != s[i]@ {
            let j = choose|j: int| 0 <= j < sv.len() && #[trigger] sv[j] == v;
            assert(j != i);
            let tj = if j < i { j } else { j - 1 };
            assert(t[tj] == s[j]);
            assert(tv[tj] == v);
        }
    }
    assert(lock_set(t) =~= lock_set(s).remove(s[i]@));
}

/// Every tool that has an entry runs at least one Operation.
pub open spec fn view_wf(g: GateView) -> bool {
    forall|k: Seq<char>| #[trigger] g.active.contains_key(k) ==> g.active[k] > 0
}

pub open spec fn slots_map(s: Seq<ToolSlots>) -> Map<Seq<char>, u16> {
    keyed_map(s).map_values(|t: ToolSlots| t.active)
}

impl ConcurrencyGate {
    pub closed spec fn wf(&self) -> bool {
        &&& keys_unique(self.active_by_tool@)
        &&& forall|i: int| 0 <= i < self.active_by_tool@.len() ==> (#[trigger] self.active_by_tool@[i]).active > 0
        &&& distinct_locks(self.held_locks@)
    }

    proof fn lemma_view_wf(&self)
        requires
            self.wf(),
        ensures
            view_wf(self@),
    {
        assert forall|k: Seq<char>| #[trigger] self@.active.contains_key(k) implies self@.active[k] > 0 by {
            let j = choose|j: int| 0 <= j < self.active_by_tool@.len() && #[trigger] self.active_by_tool@[j].key() == k;
            lemma_key_index(self.active_by_tool@, j);
        }
    }

    /// An idle gate.
    pub fn new() -> (result: Self)
        ensures
            result.wf(),
            result@.active == Map::<Seq<char>, u16>::empty(),
            result@.held == Set::<LockView>::empty(),
    {
        let result = ConcurrencyGate { active_by_tool: Vec::new(), held_locks: Vec::new() };
        assert(result@.active =~= Map::<Seq<char>, u16>::empty());
        assert(result@.held =~= Set::<LockView>::empty());
        result
    }

    fn slot_index(&self, tool: &str) -> (result: Option<usize>)
        requires
            self.wf(),
        ensures
            match result {
                Some(i) => i < self.active_by_tool@.len() && self.active_by_tool@[i as int].tool_id@ == tool@,
                None => !self@.active.contains_key(tool@),
            },
    {
        let mut i: usize = 0;
        while i < self.active_by_tool.len()
            invariant
                i <= self.active_by_tool@.len(),
                forall|j: int| 0 <= j < i ==> (#[trigger] self.active_by_tool@[j]).tool_id@ != tool@,
            decreases self.active_by_tool@.len() - i,
        {
            if str_eq(self.active_by_tool[i].tool_id.as_str(), tool) {
                return Some(i);
            }
            i = i + 1;
        }
        proof {
            if has_key(self.active_by_tool@, tool@) {
                let j = choose|j: int| 0 <= j < self.active_by_tool@.len() && #[trigger] self.active_by_tool@[j].key() == tool@;
                assert(self.active_by_tool@[j].tool_id@ == tool@);
            }
        }
        None
    }

    /// Whether no Operation runs and no lock is held.
    pub fn is_idle(&self) -> (result: bool)
        requires
            self.wf(),
        ensures
            result == (self@.active.dom() == Set::<Seq<char>>::empty() && self@.held == Set::<LockView>::empty()),
    {
        if self.active_by_tool.len() == 0 && self.held_locks.len() == 0 {
            proof {
                assert(self@.active.dom() =~= Set::<Seq<char>>::empty());
                assert(self@.held =~= Set::<LockView>::empty());
            }
            true
        } else {
            proof {
                if self.active_by_tool@.len() > 0 {
                    lemma_key_index(self.active_by_tool@, 0);
                    assert(self@.active.dom().contains(self.active_by_tool@[0].key()));
                } else {
                    assert(lock_views(self.held_locks@)[0] == self.held_locks@[0]@);
                    assert(self@.held.contains(self.held_locks@[0]@));
                }
            }
            false
        }
    }

    /// Running Operations of `tool`.
    pub fn active_count(&self, tool: &str) -> (result: u16)
        requires
            self.wf(),
        ensures
            result == active_of(self@, tool@),
    {
        match self.slot_index(tool) {
            Some(i) => {
                proof {
                    lemma_key_index(self.active_by_tool@, i as int);
                }
                self.active_by_tool[i].active
            },
            None => 0,
        }
    }

    fn any_held(&self, locks: &Vec<OperationLockKey>) -> (result: bool)
        ensures
            result == !lock_set(locks@).disjoint(self@.held),
    {
        let mut i: usize = 0;
        while i < locks.len()
            invariant
                i <= locks@.len(),
                forall|j: int| 0 <= j < i ==> !self@.held.contains((#[trigger] locks@[j])@),
            decreases locks@.len() - i,
        {
            if contains_lock(&self.held_locks, &locks[i]) {
                assert(lock_views(locks@)[i as int] == locks@[i as int]@);
                assert(lock_set(locks@).contains(locks@[i as int]@));
                return true;
            }
            i = i + 1;
        }
        proof {
            assert forall|v: LockView| lock_set(locks@).contains(v) implies !self@.held.contains(v) by {
                let j = choose|j: int| 0 <= j < lock_views(locks@).len() && #[trigger] lock_views(locks@)[j] == v;
                assert(locks@[j]@ == v);
            }
        }
        false
    }

    /// Grants the request if the tool has a free slot and none of its locks
    /// is held: the grant takes the slot and all the locks at once.
    /// Otherwise nothing changes and the caller waits and asks again.
    pub fn try_acquire(&mut self, request: GateRequest) -> (result: Option<GateLease>)
        requires
            old(self).wf(),
        ensures
            final(self).wf(),
            view_wf(final(self)@),
            can_grant(old(self)@, request.tool_id@, request.max_parallel, lock_set(request.locks@)) ==> (result matches Some(lease)
                && lease.tool() == request.tool_id@
                && lease.lock_set() == lock_set(request.locks@)
                && distinct_locks(lease.locks@)
                && final(self)@ == granted(old(self)@, request.tool_id@, lock_set(request.locks@))),
            !can_grant(old(self)@, request.tool_id@, request.max_parallel, lock_set(request.locks@)) ==> (result is None
                && final(self)@ == old(self)@),
    {
        proof {
            self.lemma_view_wf();
        }
        let ghost g0 = self@;
        let GateRequest { tool_id, max_parallel, locks } = request;
        let locks = dedup_locks(locks);
        let active = self.active_count(tool_id.as_str());
        let limit: u16 = if max_parallel == 0 { 1 } else { max_parallel };
        if !(active < limit) || self.any_held(&locks) {
            return None;
        }
        let ghost lset = lock_set(locks@);
        // Take the slot.
        let ghost slots0 = self.active_by_tool@;
        match self.slot_index(tool_id.as_str()) {
            Some(i) => {
                let entry = ToolSlots { tool_id: tool_id.clone(), active: active + 1 };
                proof {
                    lemma_key_index(slots0, i as int);
                    lemma_keyed_update(slots0, i as int, entry);
                }
                self.active_by_tool.set(i, entry);
                assert(slots_map(self.active_by_tool@) =~= slots_map(slots0).insert(tool_id@, (active + 1) as u16));
            },
            None => {
                let entry = ToolSlots { tool_id: tool_id.clone(), active: 1 };
                proof {
                    lemma_keyed_push(slots0, entry);
                }
                self.active_by_tool.push(entry);
                assert(slots_map(self.active_by_tool@) =~= slots_map(slots0).insert(tool_id@, 1u16));
            },
        }
        // Take the locks.
        let mut k: usize = 0;
        while k < locks.len()
            invariant
                k <= locks@.len(),
                distinct_locks(locks@),
                distinct_locks(self.held_locks@),
                lock_set(self.held_locks@) == g0.held.union(lock_set(locks@.take(k as int))),
                lock_set(locks@).disjoint(g0.held),
                keys_unique(self.active_by_tool@),
                forall|i: int| 0 <= i < self.active_by_tool@.len() ==> (#[trigger] self.active_by_tool@[i]).active > 0,
                slots_map(self.active_by_tool@) == g0.active.insert(tool_id@, (active + 1) as u16),
            decreases locks@.len() - k,
        {
            let ghost before = self.held_locks@;
            let copy = OperationLockKey {
                scope_kind: locks[k].scope_kind.clone(),
                project_id: match &locks[k].project_id {
                    Some(p) => Some(p.clone()),
                    None => None,
                },
                tool_id: locks[k].tool_id.clone(),
                lock_hash: locks[k].lock_hash.clone(),
            };
            assert(copy@ == locks@[k as int]@);
            proof {
                assert(lock_views(locks@)[k as int] == copy@);
                assert(lock_set(locks@).contains(copy@));
                assert(!g0.held.contains(copy@));
                assert(!lock_set(locks@.take(k as int)).contains(copy@)) by {
                    if lock_set(locks@.take(k as int)).contains(copy@) {
                        let j = choose|j: int| 0 <= j < lock_views(locks@.take(k as int)).len() && #[trigger] lock_views(locks@.take(k as int))[j] == copy@;
                        assert(locks@[j]@ == copy@);
                    }
                }
                assert(!lock_set(before).contains(copy@));
                assert forall|j: int| 0 <= j < before.len() implies (#[trigger] before[j])@ != copy@ by {
                    assert(lock_views(before)[j] == before[j]@);
                    if before[j]@ == copy@ {
                        assert(lock_views(before).contains(copy@));
                    }
                }
            }
            self.held_locks.push(copy);
            proof {
                lemma_lock_set_push(before, copy);
                assert(locks@.take(k + 1) =~= locks@.take(k as int).push(locks@[k as int]));
                lemma_lock_set_push(locks@.take(k as int), locks@[k as int]);
                assert forall|a: int, b: int| 0 <= a < b < self.held_locks@.len() implies (#[trigger] self.held_locks@[a])@ != (#[trigger] self.held_locks@[b])@ by {
                    if b == before.len() {
                        assert(self.held_locks@[a] == before[a]);
                    } else {
                        assert(self.held_locks@[a] == before[a] && self.held_locks@[b] == before[b]);
                    }
                }
            }
            k = k + 1;
        }
        assert(locks@.take(locks@.len() as int) =~= locks@);
        assert(self@.held =~= g0.held.union(lset));
        assert(self@.active =~= g0.active.insert(tool_id@, (active + 1) as u16));
        proof {
            self.lemma_view_wf();
        }
        Some(GateLease { tool_id, locks })
    }

    /// Gives back a lease's slot and locks.
    pub fn release(&mut self, lease: GateLease)
        requires
            old(self).wf(),
        ensures
            final(self).wf(),
            view_wf(final(self)@),
            final(self)@ == released(old(self)@, lease.tool(), lease.lock_set()),
    {
        let ghost g0 = self@;
        let GateLease { tool_id, locks } = lease;
        let mut k: usize = 0;
        while k < locks.len()
            invariant
                k <= locks@.len(),
                distinct_locks(self.held_locks@),
                lock_set(self.held_locks@) == g0.held.difference(lock_set(locks@.take(k as int))),
                self.active_by_tool@ == old(self).active_by_tool@,
            decreases locks@.len() - k,
        {
            let ghost before = self.held_locks@;
            proof {
                assert(locks@.take(k + 1) =~= locks@.take(k as int).push(locks@[k as int]));
                lemma_lock_set_push(locks@.take(k as int), locks@[k as int]);
            }
            let mut i: usize = 0;
            let mut found = false;
            while i < self.held_locks.len() && !found
                invariant
                    self.held_locks@ == before,
                    k < locks@.len(),
                    i <= before.len(),
                    found ==> i < before.len() && before[i as int]@ == locks@[k as int]@,
                    forall|j: int| 0 <= j < i ==> (#[trigger] before[j])@ != locks@[k as int]@,
                decreases before.len() - i + (if found { 0int } else { 1int }),
            {
                if self.held_locks[i].same_as(&locks[k]) {
                    found = true;
                } else {
                    i = i + 1;
                }
            }
            if found {
                proof {
                    lemma_lock_set_remove(before, i as int);
                }
                self.held_locks.remove(i);
                assert(lock_set(self.held_locks@) =~= g0.held.difference(lock_set(locks@.take(k + 1))));
            } else {
                proof {
                    assert(!lock_set(before).contains(locks@[k as int]@)) by {
                        if lock_set(before).contains(locks@[k as int]@) {
                            let j = choose|j: int| 0 <= j < lock_views(before).len() && #[trigger] lock_views(before)[j] == locks@[k as int]@;
                            assert(before[j]@ == locks@[k as int]@);
                        }
                    }
                }
                assert(lock_set(self.held_locks@) =~= g0.held.difference(lock_set(locks@.take(k + 1))));
            }
            k = k + 1;
        }
        assert(locks@.take(locks@.len() as int) =~= locks@);
        let ghost slots0 = self.active_by_tool@;
        proof {
            self.lemma_view_wf();
        }
        match self.slot_index(tool_id.as_str()) {
            Some(i) => {
                proof {
                    lemma_key_index(slots0, i as int);
                }
                let current = self.active_by_tool[i].active;
                if current <= 1 {
                    proof {
                        lemma_keyed_remove(slots0, i as int);
                    }
                    self.active_by_tool.remove(i);
                    assert(slots_map(self.active_by_tool@) =~= slots_map(slots0).remove(tool_id@));
                } else {
                    let entry = ToolSlots { tool_id: tool_id.clone(), active: current - 1 };
                    proof {
                        lemma_keyed_update(slots0, i as int, entry);
                    }
                    self.active_by_tool.set(i, entry);
                    assert(slots_map(self.active_by_tool@) =~= slots_map(slots0).insert(tool_id@, (current - 1) as u16));
                    assert forall|j: int| 0 <= j < self.active_by_tool@.len() implies (#[trigger] self.active_by_tool@[j]).active > 0 by {
                        if j != i {
                            assert(self.active_by_tool@[j] == slots0[j]);
                        }
                    }
                }
            },
            None => {
                assert(g0.active.remove(tool_id@) =~= g0.active);
            },
        }
        proof {
            self.lemma_view_wf();
        }
        assert(self@.active =~= released(g0, tool_id@, lock_set(locks@)).active);
        assert(self@.held =~= released(g0, tool_id@, lock_set(locks@)).held);
    }
}

/// Releasing a lease right after it was granted restores the earlier state.
pub proof fn law_release_undoes_grant(g: GateView, tool: Seq<char>, max_parallel: u16, locks: Set<LockView>)
    requires
        view_wf(g),
        can_grant(g, tool, max_parallel, locks),
    ensures
        released(granted(g, tool, locks), tool, locks) == g,
{
    let after = released(granted(g, tool, locks), tool, locks);
    if !g.active.contains_key(tool) {
        assert(after.active =~= g.active);
    } else {
        assert(after.active =~= g.active);
    }
    assert(after.held =~= g.held);
}

/// A held lock is never granted again: once a request holding a lock is
/// granted, every request that needs any of its locks waits until release.
pub proof fn law_granted_locks_are_exclusive(
    g: GateView,
    tool: Seq<char>,
    max_parallel: u16,
    locks: Set<LockView>,
    other_tool: Seq<char>,
    other_max_parallel: u16,
    other_locks: Set<LockView>,
)
    requires
        can_grant(g, tool, max_parallel, locks),
        !locks.disjoint(other_locks),
    ensures
        !can_grant(granted(g, tool, locks), other_tool, other_max_parallel, other_locks),
{
    let v = choose|v: LockView| locks.contains(v) && other_locks.contains(v);
    assert(granted(g, tool, locks).held.contains(v));
}

/// A grant never puts a tool above its parallel limit, and a tool at its
/// limit is refused.
pub proof fn law_parallelism_is_bounded(g: GateView, tool: Seq<char>, max_parallel: u16, locks: Set<LockView>)
    ensures
        can_grant(g, tool, max_parallel, locks) ==> active_of(granted(g, tool, locks), tool) <= limit_of(max_parallel),
        active_of(g, tool) >= limit_of(max_parallel) ==> !can_grant(g, tool, max_parallel, locks),
{
}

} // verus!
