//! The read scheduler that index scans share: which scans are registered at which
//! priority, how many reads are in flight, and when a scan may read next.
//! Waiting, wake-ups and the background byte budget are the caller's.

use vstd::prelude::*;

use crate::index::policy::WorkPriority;

verus! {

/// Reads of source files allowed at the same time.
pub const MAX_CONCURRENT_SOURCE_READS: usize = 2;

/// The largest read one permit allows.
pub const MAX_READ_CHUNK_BYTES: usize = 65536;

/// The rate at which background scans may read.
pub const BACKGROUND_BYTES_PER_SECOND: usize = 8388608;

/// Why the scheduler could not be used.
#[derive(Clone, Copy, Debug)]
pub enum IoGateError {
    /// The scheduler's shared state was left poisoned by a panicking thread.
    LockPoisoned { context: &'static str },
}

/// Whether `a` is more urgent than `b`.
pub open spec fn outranks(a: WorkPriority, b: WorkPriority) -> bool {
    a.level_spec() > b.level_spec()
}

/// The more urgent of two priorities.
pub open spec fn higher(a: WorkPriority, b: WorkPriority) -> WorkPriority {
    if outranks(b, a) { b } else { a }
}

/// Whether `s` registers the scan `id`.
pub open spec fn holds_task(s: Seq<(u64, WorkPriority)>, id: u64) -> bool {
    exists|i: int| 0 <= i < s.len() && #[trigger] s[i].0 == id
}

/// Whether no scan is registered twice.
pub open spec fn ids_distinct(s: Seq<(u64, WorkPriority)>) -> bool {
    forall|i: int, j: int| 0 <= i < s.len() && 0 <= j < s.len() && i != j ==> #[trigger] s[i].0 != #[trigger] s[j].0
}

/// The registered scans as a map from id to priority.
pub open spec fn task_map(s: Seq<(u64, WorkPriority)>) -> Map<u64, WorkPriority> {
    Map::new(
        |id: u64| holds_task(s, id),
        |id: u64| s[choose|i: int| 0 <= i < s.len() && #[trigger] s[i].0 == id].1,
    )
}

/// With distinct ids, the map gives each registered scan its priority.
pub proof fn lemma_task_map_at(s: Seq<(u64, WorkPriority)>, i: int)
    requires
        ids_distinct(s),
        0 <= i < s.len(),
    ensures
        task_map(s).dom().contains(s[i].0),
        task_map(s)[s[i].0] == s[i].1,
{
    assert(holds_task(s, s[i].0));
    let j = choose|j: int| 0 <= j < s.len() && #[trigger] s[j].0 == s[i].0;
    assert(j == i);
}

/// Registering a fresh id adds it to the map.
proof fn lemma_task_map_push(s: Seq<(u64, WorkPriority)>, id: u64, p: WorkPriority)
    requires
        ids_distinct(s),
        !holds_task(s, id),
    ensures
        ids_distinct(s.push((id, p))),
        task_map(s.push((id, p))) == task_map(s).insert(id, p),
{
    let t = s.push((id, p));
    assert forall|i: int, j: int| 0 <= i < t.len() && 0 <= j < t.len() && i != j implies #[trigger] t[i].0
        != #[trigger] t[j].0 by {
        if i == s.len() {
            assert(s[j].0 == t[j].0);
        } else if j == s.len() {
            assert(s[i].0 == t[i].0);
        } else {
            assert(s[i].0 == t[i].0 && s[j].0 == t[j].0);
        }
    }
    assert forall|k: u64| #[trigger] holds_task(t, k) == (holds_task(s, k) || k == id) by {
        if holds_task(s, k) {
            let i = choose|i: int| 0 <= i < s.len() && #[trigger] s[i].0 == k;
            assert(t[i].0 == k);
        }
        if k == id {
            assert(t[s.len() as int].0 == k);
        }
        if holds_task(t, k) && k != id {
            let i = choose|i: int| 0 <= i < t.len() && #[trigger] t[i].0 == k;
            assert(s[i].0 == k);
        }
    }
    assert forall|k: u64| #[trigger] task_map(t).dom().contains(k) implies task_map(t)[k] == task_map(s).insert(id, p)[k] by {
        let i = choose|i: int| 0 <= i < t.len() && #[trigger] t[i].0 == k;
        lemma_task_map_at(t, i);
        if i < s.len() {
            lemma_task_map_at(s, i);
        }
    }
    assert(task_map(t) =~= task_map(s).insert(id, p));
}

/// Changing the priority stored at a position changes it in the map.
proof fn lemma_task_map_update(s: Seq<(u64, WorkPriority)>, i: int, p: WorkPriority)
    requires
        ids_distinct(s),
        0 <= i < s.len(),
    ensures
        ids_distinct(s.update(i, (s[i].0, p))),
        task_map(s.update(i, (s[i].0, p))) == task_map(s).insert(s[i].0, p),
{
    let t = s.update(i, (s[i].0, p));
    assert forall|a: int, b: int| 0 <= a < t.len() && 0 <= b < t.len() && a != b implies #[trigger] t[a].0
        != #[trigger] t[b].0 by {
        assert(s[a].0 == t[a].0 && s[b].0 == t[b].0);
    }
    assert forall|k: u64| #[trigger] holds_task(t, k) == holds_task(s, k) by {
        if holds_task(s, k) {
            let j = choose|j: int| 0 <= j < s.len() && #[trigger] s[j].0 == k;
            assert(t[j].0 == k);
        }
        if holds_task(t, k) {
            let j = choose|j: int| 0 <= j < t.len() && #[trigger] t[j].0 == k;
            assert(s[j].0 == k);
        }
    }
    assert forall|k: u64| #[trigger] task_map(t).dom().contains(k) implies task_map(t)[k] == task_map(s).insert(s[i].0, p)[k] by {
        let j = choose|j: int| 0 <= j < t.len() && #[trigger] t[j].0 == k;
        lemma_task_map_at(t, j);
        lemma_task_map_at(s, j);
    }
    assert(task_map(t) =~= task_map(s).insert(s[i].0, p));
}

/// Removing a position removes its id from the map.
proof fn lemma_task_map_remove(s: Seq<(u64, WorkPriority)>, i: int)
    requires
        ids_distinct(s),
        0 <= i < s.len(),
    ensures
        ids_distinct(s.remove(i)),
        task_map(s.remove(i)) == task_map(s).remove(s[i].0),
{
    let t = s.remove(i);
    let id = s[i].0;
    assert forall|a: int| 0 <= a < t.len() implies #[trigger] t[a] == s[if a < i { a } else { a + 1 }] by {}
    assert forall|a: int, b: int| 0 <= a < t.len() && 0 <= b < t.len() && a != b implies #[trigger] t[a].0
        != #[trigger] t[b].0 by {
        let a2 = if a < i { a } else { a + 1 };
        let b2 = if b < i { b } else { b + 1 };
        assert(t[a] == s[a2] && t[b] == s[b2]);
    }
    assert forall|k: u64| #[trigger] holds_task(t, k) == (holds_task(s, k) && k != id) by {
        if holds_task(s, k) && k != id {
            let j = choose|j: int| 0 <= j < s.len() && #[trigger] s[j].0 == k;
            assert(j != i);
            let a = if j < i { j } else { j - 1 };
            assert(t[a] == s[j]);
        }
        if holds_task(t, k) {
            let a = choose|a: int| 0 <= a < t.len() && #[trigger] t[a].0 == k;
            let a2 = if a < i { a } else { a + 1 };
            assert(t[a] == s[a2]);
            assert(a2 != i);
        }
    }
    assert forall|k: u64| #[trigger] task_map(t).dom().contains(k) implies task_map(t)[k] == task_map(s).remove(id)[k] by {
        let a = choose|a: int| 0 <= a < t.len() && #[trigger] t[a].0 == k;
        let a2 = if a < i { a } else { a + 1 };
        assert(t[a] == s[a2]);
        lemma_task_map_at(t, a);
        lemma_task_map_at(s, a2);
    }
    assert(task_map(t) =~= task_map(s).remove(id));
}

/// A scan registered with the scheduler.
#[derive(Clone, Copy, Debug, PartialEq, Eq, Structural)]
pub struct ScanLease {
    pub id: u64,
    pub priority: WorkPriority,
}

impl ScanLease {
    /// The scan's current priority.
    pub fn priority(&self) -> (r: WorkPriority)
        ensures
            r == self.priority,
    {
        self.priority
    }
}

/// Permission for one read of at most `max_bytes`.
#[derive(Debug)]
pub struct IoPermit {
    pub max_bytes: usize,
}

impl IoPermit {
    /// The largest read this permit allows.
    pub fn max_bytes(&self) -> (r: usize)
        ensures
            r == self.max_bytes,
    {
        self.max_bytes
    }
}

/// The scheduler's state as mathematics: registered scans, reads in flight, the
/// last id handed out and the bytes read so far.
pub struct GateView {
    pub tasks: Map<u64, WorkPriority>,
    pub active_io: nat,
    pub next_id: u64,
    pub bytes_read: u64,
}

/// Whether some registered scan is more urgent than `priority`.
pub open spec fn higher_waiting(tasks: Map<u64, WorkPriority>, priority: WorkPriority) -> bool {
    exists|id: u64| tasks.dom().contains(id) && #[trigger] outranks(tasks[id], priority)
}

/// The request clamped to one chunk, and at least one byte.
pub open spec fn clamp_request(requested: usize) -> usize {
    if requested < 1 {
        1
    } else if requested > MAX_READ_CHUNK_BYTES {
        MAX_READ_CHUNK_BYTES
    } else {
        requested
    }
}

/// The read a scan may start now, if any: none while a more urgent scan is
/// registered, the reads in flight are at their limit, or (for background
/// work) the byte budget is spent; else the clamped request, cut to the
/// budget for background work.
pub open spec fn grant_spec(v: GateView, priority: WorkPriority, requested: usize, background_available: usize) -> Option<usize> {
    let request = clamp_request(requested);
    let available = if priority == WorkPriority::Background { background_available } else { request };
    if !higher_waiting(v.tasks, priority) && v.active_io < MAX_CONCURRENT_SOURCE_READS && available > 0 {
        Some(if request < available { request } else { available })
    } else {
        None
    }
}

/// The shared state of the scheduler.
#[derive(Debug)]
pub struct IoGate {
    pub tasks: Vec<(u64, WorkPriority)>,
    pub active_io: usize,
    pub next_id: u64,
    pub bytes_read: u64,
}

impl View for IoGate {
    type V = GateView;

    open spec fn view(&self) -> GateView {
        GateView {
            tasks: task_map(self.tasks@),
            active_io: self.active_io as nat,
            next_id: self.next_id,
            bytes_read: self.bytes_read,
        }
    }
}

impl IoGate {
    /// Each scan registered once under an id already handed out, and the
    /// reads in flight within their limit.
    pub open spec fn wf(&self) -> bool {
        &&& ids_distinct(self.tasks@)
        &&& forall|i: int| 0 <= i < self.tasks@.len() ==> (#[trigger] self.tasks@[i]).0 <= self.next_id
        &&& self.active_io <= MAX_CONCURRENT_SOURCE_READS
    }

    /// A scheduler with nothing registered and nothing read.
    pub fn new() -> (r: IoGate)
        ensures
            r.wf(),
            r@.tasks == Map::<u64, WorkPriority>::empty(),
            r@.active_io == 0,
            r@.next_id == 0,
            r@.bytes_read == 0,
    {
        let r = IoGate { tasks: Vec::new(), active_io: 0, next_id: 0, bytes_read: 0 };
        assert(task_map(r.tasks@) =~= Map::<u64, WorkPriority>::empty());
        r
    }

    /// Registers a scan under the next id.
    pub fn register(&mut self, priority: WorkPriority) -> (lease: ScanLease)
        requires
            old(self).wf(),
            old(self)@.next_id < u64::MAX,
        ensures
            final(self).wf(),
            lease.id == old(self)@.next_id + 1,
            lease.priority == priority,
            final(self)@ == (GateView {
                tasks: old(self)@.tasks.insert(lease.id, priority),
                next_id: lease.id,
                ..old(self)@
            }),
    {
        let id = self.next_id + 1;
        proof {
            if holds_task(self.tasks@, id) {
                let i = choose|i: int| 0 <= i < self.tasks@.len() && #[trigger] self.tasks@[i].0 == id;
                assert(self.tasks@[i].0 <= self.next_id);
            }
            lemma_task_map_push(self.tasks@, id, priority);
        }
        self.next_id = id;
        self.tasks.push((id, priority));
        ScanLease { id, priority }
    }

    /// The bytes recorded as read.
    pub fn bytes_read(&self) -> (r: u64)
        ensures
            r == self@.bytes_read,
    {
        self.bytes_read
    }

    fn position(&self, id: u64) -> (r: Option<usize>)
        requires
            self.wf(),
        ensures
            match r {
                Some(i) => i < self.tasks@.len() && self.tasks@[i as int].0 == id,
                None => !holds_task(self.tasks@, id),
            },
    {
        let mut i: usize = 0;
        while i < self.tasks.len()
            invariant
                i <= self.tasks@.len(),
                forall|j: int| 0 <= j < i ==> (#[trigger] self.tasks@[j]).0 != id,
            decreases self.tasks@.len() - i,
        {
            if self.tasks[i].0 == id {
                return Some(i);
            }
            i = i + 1;
        }
        None
    }

    /// Raises a scan's priority; a lower or equal one leaves it as it is.
    /// The lease is one this scheduler handed out.
    pub fn promote(&mut self, lease: &mut ScanLease, priority: WorkPriority)
        requires
            old(self).wf(),
            old(lease).id <= old(self)@.next_id,
        ensures
            final(self).wf(),
            final(lease).id == old(lease).id,
            final(lease).priority == higher(old(lease).priority, priority),
            outranks(priority, old(lease).priority) ==> final(self)@ == (GateView {
                tasks: old(self)@.tasks.insert(old(lease).id, priority),
                ..old(self)@
            }),
            !outranks(priority, old(lease).priority) ==> final(self)@ == old(self)@,
    {
        if priority.level() <= lease.priority.level() {
            return;
        }
        lease.priority = priority;
        match self.position(lease.id) {
            Some(i) => {
                proof {
                    lemma_task_map_update(self.tasks@, i as int, priority);
                }
                self.tasks.set(i, (lease.id, priority));
            },
            None => {
                proof {
                    lemma_task_map_push(self.tasks@, lease.id, priority);
                }
                self.tasks.push((lease.id, priority));
            },
        }
    }
    /// Removes a scan from the scheduler, as dropping its last lease does.
    pub fn unregister(&mut self, lease: ScanLease)
        requires
            old(self).wf(),
        ensures
            final(self).wf(),
            final(self)@ == (GateView { tasks: old(self)@.tasks.remove(lease.id), ..old(self)@ }),
    {
        match self.position(lease.id) {
            Some(i) => {
                proof {
                    lemma_task_map_remove(self.tasks@, i as int);
                    let ghost s = self.tasks@;
                    assert forall|a: int| 0 <= a < s.remove(i as int).len() implies (#[trigger] s.remove(
                        i as int,
                    )[a]).0 <= self.next_id by {
                        let a2 = if a < i { a } else { a + 1 };
                        assert(s.remove(i as int)[a] == s[a2]);
                    }
                }
                self.tasks.remove(i);
            },
            None => {
                proof {
                    assert(!task_map(self.tasks@).dom().contains(lease.id));
                    assert(task_map(self.tasks@).remove(lease.id) =~= task_map(self.tasks@));
                }
            },
        }
    }

    /// Whether a scan more urgent than `priority` is registered.
    pub fn higher_priority_waiting(&self, priority: WorkPriority) -> (r: bool)
        requires
            self.wf(),
        ensures
            r == higher_waiting(self@.tasks, priority),
    {
        let level = priority.level();
        let mut i: usize = 0;
        while i < self.tasks.len()
            invariant
                i <= self.tasks@.len(),
                ids_distinct(self.tasks@),
                level == priority.level_spec(),
                forall|j: int| 0 <= j < i ==> !outranks((#[trigger] self.tasks@[j]).1, priority),
            decreases self.tasks@.len() - i,
        {
            if self.tasks[i].1.level() > level {
                proof {
                    lemma_task_map_at(self.tasks@, i as int);
                    assert(outranks(task_map(self.tasks@)[self.tasks@[i as int].0], priority));
                }
                return true;
            }
            i = i + 1;
        }
        proof {
            assert forall|id: u64| task_map(self.tasks@).dom().contains(id) implies !#[trigger] outranks(
                task_map(self.tasks@)[id],
                priority,
            ) by {
                let j = choose|j: int| 0 <= j < self.tasks@.len() && #[trigger] self.tasks@[j].0 == id;
                lemma_task_map_at(self.tasks@, j);
            }
        }
        false
    }

    /// Starts a read for `lease` if the scheduler allows one now; the caller
    /// waits and asks again when it does not. `background_available` is
    /// what the background byte budget allows.
    pub fn acquire(&mut self, lease: &ScanLease, requested_bytes: usize, background_available: usize) -> (r: Option<IoPermit>)
        requires
            old(self).wf(),
        ensures
            final(self).wf(),
            match grant_spec(old(self)@, lease.priority, requested_bytes, background_available) {
                Some(n) => (r matches Some(p) && p.max_bytes == n)
                    && final(self)@ == (GateView { active_io: old(self)@.active_io + 1, ..old(self)@ }),
                None => r is None && final(self)@ == old(self)@,
            },
    {
        let requested = if requested_bytes < 1 {
            1
        } else if requested_bytes > MAX_READ_CHUNK_BYTES {
            MAX_READ_CHUNK_BYTES
        } else {
            requested_bytes
        };
        let priority = lease.priority();
        let waiting = self.higher_priority_waiting(priority);
        let concurrency_available = self.active_io < MAX_CONCURRENT_SOURCE_READS;
        let available = match priority {
            WorkPriority::Background => background_available,
            _ => requested,
        };
        if !waiting && concurrency_available && available > 0 {
            let max_bytes = if requested < available { requested } else { available };
            self.active_io = self.active_io + 1;
            Some(IoPermit { max_bytes })
        } else {
            None
        }
    }

    /// Ends a read; with none in flight nothing changes.
    pub fn release(&mut self, permit: IoPermit)
        requires
            old(self).wf(),
        ensures
            final(self).wf(),
            final(self)@ == (GateView {
                active_io: if old(self)@.active_io == 0 { 0 } else { (old(self)@.active_io - 1) as nat },
                ..old(self)@
            }),
    {
        if self.active_io > 0 {
            self.active_io = self.active_io - 1;
        }
    }

    /// Adds to the bytes recorded as read, wrapping as the counter does.
    pub fn record_read(&mut self, bytes: usize)
        requires
            old(self).wf(),
        ensures
            final(self).wf(),
            final(self)@ == (GateView {
                bytes_read: (if old(self)@.bytes_read + bytes > u64::MAX {
                    old(self)@.bytes_read + bytes - 0x1_0000_0000_0000_0000
                } else {
                    old(self)@.bytes_read + bytes
                }) as u64,
                ..old(self)@
            }),
    {
        self.bytes_read = self.bytes_read.wrapping_add(bytes as u64);
    }
}

/// While a more urgent scan is registered, the scheduler starts no read for a
/// less urgent one.
pub proof fn law_more_urgent_scan_blocks_permits(v: GateView, priority: WorkPriority, requested: usize, background_available: usize)
    requires
        higher_waiting(v.tasks, priority),
    ensures
        grant_spec(v, priority, requested, background_available) is None,
{
}

/// A permit allows at least one byte and at most one chunk, and background
/// work never more than its byte budget.
pub proof fn law_permit_is_one_bounded_chunk(v: GateView, priority: WorkPriority, requested: usize, background_available: usize)
    ensures
        grant_spec(v, priority, requested, background_available) matches Some(n) ==> {
            &&& 1 <= n <= MAX_READ_CHUNK_BYTES
            &&& n <= clamp_request(requested)
            &&& priority == WorkPriority::Background ==> n <= background_available
        },
{
}

} // verus!
