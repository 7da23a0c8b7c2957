//! The order in which sources are indexed.

use vstd::prelude::*;

use crate::index::policy::{InitialIndexPolicy, WorkPriority};
use crate::index::sources::{source_fingerprint, DiscoveredSource, SourceFingerprint, root_kind_name};
use crate::text::{lemma_text_lt_order, str_lt, text_lt, string_eq};

verus! {

/// One source waiting to be indexed.
#[derive(Debug)]
pub struct WorkItem {
    pub source: DiscoveredSource,
    pub fingerprint: SourceFingerprint,
    pub priority: WorkPriority,
    pub cycle_generation: Option<u64>,
}

impl WorkItem {
    /// Queues `source` at `priority`, fingerprinting its current state.
    pub fn new(source: DiscoveredSource, priority: WorkPriority, cycle_generation: Option<u64>) -> (r: Self)
        ensures
            r.source == source,
            r.priority == priority,
            r.cycle_generation == cycle_generation,
            r.fingerprint.root_kind@ == root_kind_name(source.source.root_kind),
            r.fingerprint.relative_path@ == source.source.relative_path@,
            r.fingerprint.file_key@ == source.source.file_key@,
            r.fingerprint.size_bytes == source.source.size_bytes,
            r.fingerprint.mtime_ns == source.source.mtime_ns,
    {
        let fingerprint = source_fingerprint(&source);
        WorkItem { source, fingerprint, priority, cycle_generation }
    }
}

/// Whether `a` is indexed before `b`: higher priority first, then the newer
/// file, then the later-created session, then the smaller session ID, then
/// the smaller relative path.
pub open spec fn work_before(a: WorkItem, b: WorkItem) -> bool {
    let pa = a.priority.level_spec();
    let pb = b.priority.level_spec();
    if pa != pb {
        pa > pb
    } else if a.source.source.mtime_ns != b.source.source.mtime_ns {
        a.source.source.mtime_ns > b.source.source.mtime_ns
    } else if a.source.created_at_micros != b.source.created_at_micros {
        a.source.created_at_micros > b.source.created_at_micros
    } else if a.source.session_id@ != b.source.session_id@ {
        text_lt(a.source.session_id@, b.source.session_id@)
    } else {
        text_lt(a.source.source.relative_path@, b.source.source.relative_path@)
    }
}

/// The indexing order is transitive.
pub proof fn lemma_work_before_transitive(a: WorkItem, b: WorkItem, c: WorkItem)
    requires
        work_before(a, b),
        work_before(b, c),
    ensures
        work_before(a, c),
{
    lemma_text_lt_order(a.source.session_id@, b.source.session_id@, c.source.session_id@);
    lemma_text_lt_order(a.source.source.relative_path@, b.source.source.relative_path@, c.source.source.relative_path@);
}

/// The indexing order is irreflexive.
pub proof fn lemma_work_before_irreflexive(a: WorkItem)
    ensures
        !work_before(a, a),
{
    lemma_text_lt_order(a.source.source.relative_path@, a.source.source.relative_path@, a.source.source.relative_path@);
}

/// Whether `a` is indexed before `b`.
pub fn work_precedes(a: &WorkItem, b: &WorkItem) -> (r: bool)
    ensures
        r == work_before(*a, *b),
{
    let pa = a.priority.level();
    let pb = b.priority.level();
    if pa != pb {
        pa > pb
    } else if a.source.source.mtime_ns != b.source.source.mtime_ns {
        a.source.source.mtime_ns > b.source.source.mtime_ns
    } else if a.source.created_at_micros != b.source.created_at_micros {
        a.source.created_at_micros > b.source.created_at_micros
    } else if !string_eq(&a.source.session_id, &b.source.session_id) {
        str_lt(a.source.session_id.as_str(), b.source.session_id.as_str())
    } else {
        str_lt(a.source.source.relative_path.as_str(), b.source.source.relative_path.as_str())
    }
}

/// Sources waiting to be indexed; `pop` hands out the first in indexing order.
pub struct WorkQueue {
    items: Vec<WorkItem>,
}

impl View for WorkQueue {
    type V = Seq<WorkItem>;

    closed spec fn view(&self) -> Seq<WorkItem> {
        self.items@
    }
}

impl WorkQueue {
    pub fn new() -> (r: Self)
        ensures
            r@ == Seq::<WorkItem>::empty(),
    {
        WorkQueue { items: Vec::new() }
    }

    pub fn len(&self) -> (r: usize)
        ensures
            r == self@.len(),
    {
        self.items.len()
    }

    /// Adds an item.
    pub fn push(&mut self, item: WorkItem)
        ensures
            final(self)@ == old(self)@.push(item),
    {
        self.items.push(item);
    }

    /// Removes and returns an item that no queued item precedes.
    pub fn pop(&mut self) -> (r: Option<WorkItem>)
        ensures
            old(self)@.len() == 0 ==> r is None && final(self)@ == old(self)@,
            old(self)@.len() > 0 ==> (r matches Some(item) && exists|k: int|
                0 <= k < old(self)@.len() && old(self)@[k] == item && final(self)@ == old(self)@.remove(k)
                && forall|j: int| 0 <= j < old(self)@.len() ==> !work_before(#[trigger] old(self)@[j], item)),
    {
        if self.items.len() == 0 {
            return None;
        }
        let mut best: usize = 0;
        let mut i: usize = 1;
        proof {
            lemma_work_before_irreflexive(self.items@[0]);
        }
        while i < self.items.len()
            invariant
                0 < i <= self.items@.len(),
                best < i,
                self.items@ == old(self).items@,
                forall|j: int| 0 <= j < i ==> !work_before(#[trigger] self.items@[j], self.items@[best as int]),
            decreases self.items@.len() - i,
        {
            if work_precedes(&self.items[i], &self.items[best]) {
                proof {
                    let ghost items = self.items@;
                    assert forall|j: int| 0 <= j <= i implies !work_before(#[trigger] items[j], items[i as int]) by {
                        if j == i {
                            lemma_work_before_irreflexive(items[i as int]);
                        } else if work_before(items[j], items[i as int]) {
                            lemma_work_before_transitive(items[j], items[i as int], items[best as int]);
                        }
                    }
                }
                best = i;
            }
            i = i + 1;
        }
        let item = self.items.remove(best);
        Some(item)
    }
}

/// Nanoseconds to microseconds, truncating toward zero as `i64` division does.
pub open spec fn ns_to_micros(ns: i64) -> int {
    if ns >= 0 {
        ns as int / 1000
    } else {
        -((-(ns as int)) / 1000)
    }
}

/// The priority a source gets when it is scheduled automatically: recent
/// work inside the window, background otherwise, or none when the window
/// excludes older history.
pub open spec fn automatic_priority_spec(policy: InitialIndexPolicy, mtime_ns: i64) -> Option<WorkPriority> {
    if policy.includes_spec(ns_to_micros(mtime_ns)) {
        Some(WorkPriority::Recent)
    } else if policy.days != 0 {
        Some(WorkPriority::Background)
    } else {
        None
    }
}

/// The priority a discovered source gets when scheduled automatically.
pub fn automatic_priority(policy: InitialIndexPolicy, source: &DiscoveredSource, now_micros: i64) -> (r: Option<WorkPriority>)
    ensures
        r == automatic_priority_spec(policy, source.source.mtime_ns),
{
    let updated_micros: i64 = source.source.mtime_ns / 1000;
    assert(updated_micros == ns_to_micros(source.source.mtime_ns));
    if policy.is_recent(updated_micros, now_micros) {
        Some(WorkPriority::Recent)
    } else if policy.background_enabled() {
        Some(WorkPriority::Background)
    } else {
        None
    }
}

} // verus!
