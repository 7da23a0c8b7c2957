//! What one reconciliation pass decides from the sources discovered on disk
//! and the sources the catalog holds: which catalogued sources went
//! missing or came back, which discovered sources need a scan, and what is
//! already indexed or left out of the window.

use vstd::prelude::*;

use crate::index::discovery::excluded_totals;
use crate::index::policy::{InitialIndexPolicy, WorkPriority};
use crate::index::report::{sat_add, ReconcileReport};
use crate::index::sources::{source_key, stored_key, stored_key_spec, DiscoveredSource, Discovery};
use crate::index::work::{automatic_priority, automatic_priority_spec};
use crate::model::IndexProgress;
use crate::rollout::types::RootKind;
use crate::index::changes::{sorted_distinct_texts, texts_given, texts_kept};
use crate::text::{str_eq, text_lt};

verus! {

/// What the catalog holds of a source file from an earlier scan.
#[derive(Clone, Debug)]
pub struct StoredSource {
    pub root_kind: RootKind,
    pub relative_path: String,
    pub file_key: String,
    pub size_bytes: u64,
    pub mtime_ns: i64,
    pub snapshot_file_key: Option<String>,
    pub snapshot_size_bytes: Option<u64>,
    pub snapshot_mtime_ns: Option<i64>,
    pub snapshot_revision: i64,
    pub catalog_complete: bool,
    pub scan_state: String,
    pub session_id: Option<String>,
}

/// The catalog key of a catalogued source.
pub open spec fn stored_key_of(s: StoredSource) -> Seq<char> {
    stored_key_spec(s.root_kind, s.relative_path@)
}

/// The catalog key of a discovered source.
pub open spec fn source_key_of(d: DiscoveredSource) -> Seq<char> {
    stored_key_spec(d.source.root_kind, d.source.relative_path@)
}

/// Whether the catalog's snapshot was taken of the file as it is now.
pub open spec fn snapshot_matches_spec(s: StoredSource, d: DiscoveredSource) -> bool {
    &&& s.snapshot_revision > 0
    &&& s.snapshot_file_key matches Some(k) && k@ == d.source.file_key@
    &&& s.snapshot_size_bytes == Some(d.source.size_bytes)
    &&& s.snapshot_mtime_ns == Some(d.source.mtime_ns)
}

/// Whether the catalog's snapshot was taken of the file as it is now.
pub fn snapshot_matches(stored: &StoredSource, source: &DiscoveredSource) -> (r: bool)
    ensures
        r == snapshot_matches_spec(*stored, *source),
{
    if stored.snapshot_revision <= 0 {
        return false;
    }
    let key_ok = match &stored.snapshot_file_key {
        Some(k) => str_eq(k.as_str(), source.source.file_key.as_str()),
        None => false,
    };
    let size_ok = match stored.snapshot_size_bytes {
        Some(b) => b == source.source.size_bytes,
        None => false,
    };
    let mtime_ok = match stored.snapshot_mtime_ns {
        Some(m) => m == source.source.mtime_ns,
        None => false,
    };
    key_ok && size_ok && mtime_ok
}

/// Whether the catalog already holds the file as it is now: same file,
/// size, modification time and session, and a complete catalog or a
/// snapshot of this state.
pub open spec fn metadata_matches_spec(s: StoredSource, d: DiscoveredSource) -> bool {
    &&& s.file_key@ == d.source.file_key@
    &&& s.size_bytes == d.source.size_bytes
    &&& s.mtime_ns == d.source.mtime_ns
    &&& s.session_id matches Some(id) && id@ == d.session_id@
    &&& (s.catalog_complete || snapshot_matches_spec(s, d))
}

/// Whether the catalog already holds the file as it is now.
pub fn metadata_matches(stored: &StoredSource, source: &DiscoveredSource) -> (r: bool)
    ensures
        r == metadata_matches_spec(*stored, *source),
{
    let session_ok = match &stored.session_id {
        Some(id) => str_eq(id.as_str(), source.session_id.as_str()),
        None => false,
    };
    str_eq(stored.file_key.as_str(), source.source.file_key.as_str()) && stored.size_bytes == source.source.size_bytes
        && stored.mtime_ns == source.source.mtime_ns && session_ok && (stored.catalog_complete || snapshot_matches(
        stored,
        source,
    ))
}

/// The catalog entry for `key`: the last one listed with it.
pub open spec fn stored_for(stored: Seq<StoredSource>, key: Seq<char>) -> Option<StoredSource>
    decreases stored.len(),
{
    if stored.len() == 0 {
        None
    } else if stored_key_of(stored.last()) == key {
        Some(stored.last())
    } else {
        stored_for(stored.drop_last(), key)
    }
}

proof fn lemma_stored_for_take(stored: Seq<StoredSource>, key: Seq<char>, i: int)
    requires
        0 <= i <= stored.len(),
        forall|j: int| i <= j < stored.len() ==> stored_key_of(#[trigger] stored[j]) != key,
    ensures
        stored_for(stored, key) == stored_for(stored.take(i), key),
    decreases stored.len(),
{
    if stored.len() == i {
        assert(stored.take(i) =~= stored);
    } else {
        assert(stored_key_of(stored[stored.len() - 1]) != key);
        let shorter = stored.drop_last();
        assert forall|j: int| i <= j < shorter.len() implies stored_key_of(#[trigger] shorter[j]) != key by {
            assert(shorter[j] == stored[j]);
        }
        lemma_stored_for_take(shorter, key, i);
        assert(shorter.take(i) =~= stored.take(i));
    }
}

/// The position of the catalog entry for `key`, the last one listed with it.
pub(crate) fn find_stored(stored: &Vec<StoredSource>, key: &str) -> (r: Option<usize>)
    ensures
        match stored_for(stored@, key@) {
            Some(s) => r matches Some(i) && i < stored@.len() && stored@[i as int] == s,
            None => r is None,
        },
{
    let mut i: usize = stored.len();
    while i > 0
        invariant
            i <= stored@.len(),
            forall|j: int| i <= j < stored@.len() ==> stored_key_of(#[trigger] stored@[j]) != key@,
        decreases i,
    {
        i = i - 1;
        let k = stored_key(stored[i].root_kind, stored[i].relative_path.as_str());
        if str_eq(k.as_str(), key) {
            proof {
                lemma_stored_for_take(stored@, key@, i + 1);
                assert(stored@.take(i + 1).last() == stored@[i as int]);
            }
            return Some(i);
        }
    }
    proof {
        lemma_stored_for_take(stored@, key@, 0);
    }
    None
}

/// Whether some discovered source has the catalog key `key`.
pub open spec fn discovered_key(sources: Seq<DiscoveredSource>, key: Seq<char>) -> bool {
    exists|j: int| 0 <= j < sources.len() && source_key_of(#[trigger] sources[j]) == key
}

pub(crate) fn has_discovered(sources: &Vec<DiscoveredSource>, key: &str) -> (r: bool)
    ensures
        r == discovered_key(sources@, key@),
{
    let mut i: usize = 0;
    while i < sources.len()
        invariant
            i <= sources@.len(),
            forall|j: int| 0 <= j < i ==> source_key_of(#[trigger] sources@[j]) != key@,
        decreases sources@.len() - i,
    {
        let k = source_key(&sources[i]);
        if str_eq(k.as_str(), key) {
            return true;
        }
        i = i + 1;
    }
    false
}

/// A root kind and relative path as text.
pub open spec fn pairs_view(v: Seq<(RootKind, String)>) -> Seq<(RootKind, Seq<char>)> {
    v.map_values(|p: (RootKind, String)| (p.0, p.1@))
}

/// The catalogued sources that discovery no longer finds and that are not
/// yet marked missing, in catalog order.
pub open spec fn missing_spec(stored: Seq<StoredSource>, sources: Seq<DiscoveredSource>) -> Seq<(RootKind, Seq<char>)>
    decreases stored.len(),
{
    if stored.len() == 0 {
        Seq::empty()
    } else {
        let rest = missing_spec(stored.drop_last(), sources);
        let s = stored.last();
        if !discovered_key(sources, stored_key_of(s)) && s.scan_state@ != "source_missing"@ {
            rest.push((s.root_kind, s.relative_path@))
        } else {
            rest
        }
    }
}

/// What the pass decides about the discovered sources: the catalogued ones
/// that are back (`present`), the positions of those to scan (`changed`),
/// and the files and bytes already indexed, saturating at `u64::MAX`.
pub struct SourcesPlan {
    pub present: Seq<(RootKind, Seq<char>)>,
    pub changed: Seq<usize>,
    pub processed_files: u64,
    pub processed_bytes: u64,
}

/// The decision for each discovered source in turn: a source outside the
/// window is left out; one the catalog holds as it is now counts as
/// indexed (and back, when it was marked missing); any other is scanned.
pub open spec fn plan_sources(policy: InitialIndexPolicy, stored: Seq<StoredSource>, sources: Seq<DiscoveredSource>) -> SourcesPlan
    decreases sources.len(),
{
    if sources.len() == 0 {
        SourcesPlan { present: Seq::empty(), changed: Seq::empty(), processed_files: 0, processed_bytes: 0 }
    } else {
        let rest = plan_sources(policy, stored, sources.drop_last());
        let d = sources.last();
        let found = stored_for(stored, source_key_of(d));
        if automatic_priority_spec(policy, d.source.mtime_ns) != Some(WorkPriority::Recent) {
            rest
        } else if found is Some && metadata_matches_spec(found->0, d) {
            let s = found->0;
            SourcesPlan {
                present: if s.scan_state@ == "source_missing"@ { rest.present.push((s.root_kind, s.relative_path@)) } else { rest.present },
                changed: rest.changed,
                processed_files: sat_add(rest.processed_files, 1),
                processed_bytes: sat_add(rest.processed_bytes, d.source.size_bytes),
            }
        } else {
            SourcesPlan { changed: rest.changed.push((sources.len() - 1) as usize), ..rest }
        }
    }
}

/// What one reconciliation pass does before it scans.
#[derive(Debug)]
pub struct ReconcilePlan {
    /// Catalogued sources to mark missing.
    pub missing: Vec<(RootKind, String)>,
    /// Catalogued sources to mark present again.
    pub present: Vec<(RootKind, String)>,
    /// Positions, among the discovered sources, of those to scan.
    pub changed: Vec<usize>,
    pub processed_files: u64,
    pub processed_bytes: u64,
    pub excluded_files: u64,
    pub excluded_bytes: u64,
}

/// Decides a reconciliation pass. Catalogued sources that discovery no
/// longer finds are marked missing, unless discovery met problems. Of the
/// discovered sources, those outside the window are left out; those the
/// catalog holds as they are now count as indexed, and come back when they
/// were marked missing; all others are scanned.
pub fn reconcile_plan(
    discovery: &Discovery,
    stored: &Vec<StoredSource>,
    policy: InitialIndexPolicy,
    now_micros: i64,
) -> (r: ReconcilePlan)
    ensures
        pairs_view(r.missing@) == (if discovery.issues@.len() == 0 {
            missing_spec(stored@, discovery.sources@)
        } else {
            Seq::empty()
        }),
        pairs_view(r.present@) == plan_sources(policy, stored@, discovery.sources@).present,
        r.changed@ == plan_sources(policy, stored@, discovery.sources@).changed,
        r.processed_files == plan_sources(policy, stored@, discovery.sources@).processed_files,
        r.processed_bytes == plan_sources(policy, stored@, discovery.sources@).processed_bytes,
        r.excluded_files == excluded_totals(policy, discovery.sources@).0,
        r.excluded_bytes == excluded_totals(policy, discovery.sources@).1,
        forall|k: int| 0 <= k < r.changed@.len() ==> #[trigger] r.changed@[k] < discovery.sources@.len(),
{
    let sources = &discovery.sources;
    let mut missing: Vec<(RootKind, String)> = Vec::new();
    if discovery.issues.len() == 0 {
        let mut i: usize = 0;
        while i < stored.len()
            invariant
                i <= stored@.len(),
                pairs_view(missing@) == missing_spec(stored@.take(i as int), sources@),
            decreases stored@.len() - i,
        {
            let s = &stored[i];
            proof {
                assert(stored@.take(i + 1).drop_last() =~= stored@.take(i as int));
                assert(stored@.take(i + 1).last() == stored@[i as int]);
            }
            let key = stored_key(s.root_kind, s.relative_path.as_str());
            if !has_discovered(sources, key.as_str()) && !str_eq(s.scan_state.as_str(), "source_missing") {
                let ghost before = missing@;
                missing.push((s.root_kind, s.relative_path.clone()));
                proof {
                    assert(pairs_view(missing@) =~= pairs_view(before).push((s.root_kind, s.relative_path@)));
                }
            }
            i = i + 1;
        }
        assert(stored@.take(stored@.len() as int) =~= stored@);
    }
    let mut present: Vec<(RootKind, String)> = Vec::new();
    let mut changed: Vec<usize> = Vec::new();
    let mut processed_files: u64 = 0;
    let mut processed_bytes: u64 = 0;
    let mut excluded_files: u64 = 0;
    let mut excluded_bytes: u64 = 0;
    let mut i: usize = 0;
    while i < sources.len()
        invariant
            i <= sources@.len(),
            pairs_view(present@) == plan_sources(policy, stored@, sources@.take(i as int)).present,
            changed@ == plan_sources(policy, stored@, sources@.take(i as int)).changed,
            processed_files == plan_sources(policy, stored@, sources@.take(i as int)).processed_files,
            processed_bytes == plan_sources(policy, stored@, sources@.take(i as int)).processed_bytes,
            excluded_files == excluded_totals(policy, sources@.take(i as int)).0,
            excluded_bytes == excluded_totals(policy, sources@.take(i as int)).1,
            forall|k: int| 0 <= k < changed@.len() ==> #[trigger] changed@[k] < i,
        decreases sources@.len() - i,
    {
        let d = &sources[i];
        let ghost prefix = sources@.take(i + 1);
        proof {
            assert(prefix.drop_last() =~= sources@.take(i as int));
            assert(prefix.last() == sources@[i as int]);
        }
        let priority = automatic_priority(policy, d, now_micros);
        let recent = match priority {
            Some(WorkPriority::Recent) => true,
            _ => false,
        };
        if !recent {
            excluded_files = excluded_files.saturating_add(1);
            excluded_bytes = excluded_bytes.saturating_add(d.source.size_bytes);
        } else {
            let key = source_key(d);
            let found = find_stored(stored, key.as_str());
            let matched = match found {
                Some(j) => metadata_matches(&stored[j], d),
                None => false,
            };
            if matched {
                let j = found.unwrap();
                let s = &stored[j];
                if str_eq(s.scan_state.as_str(), "source_missing") {
                    let ghost before = present@;
                    present.push((s.root_kind, s.relative_path.clone()));
                    proof {
                        assert(pairs_view(present@) =~= pairs_view(before).push((s.root_kind, s.relative_path@)));
                    }
                }
                processed_files = processed_files.saturating_add(1);
                processed_bytes = processed_bytes.saturating_add(d.source.size_bytes);
            } else {
                changed.push(i);
            }
        }
        i = i + 1;
    }
    assert(sources@.take(sources@.len() as int) =~= sources@);
    ReconcilePlan { missing, present, changed, processed_files, processed_bytes, excluded_files, excluded_bytes }
}

/// The bytes of the discovered sources at the positions `changed`.
pub open spec fn changed_bytes(sources: Seq<DiscoveredSource>, changed: Seq<usize>) -> int
    decreases changed.len(),
{
    if changed.len() == 0 {
        0
    } else {
        changed_bytes(sources, changed.drop_last()) + sources[changed.last() as int].source.size_bytes
    }
}

/// The progress and the report a reconciliation pass starts from: every
/// source to scan and every source already indexed counts toward the
/// totals, the sources already indexed as processed; the report records
/// what discovery found, what went missing, what the window left out, and
/// asks for another pass when discovery met problems. The bytes to scan
/// must fit in a `u64`.
pub fn reconcile_start(discovery: &Discovery, plan: &ReconcilePlan, generation: u64) -> (r: (IndexProgress, ReconcileReport))
    requires
        forall|k: int| 0 <= k < plan.changed@.len() ==> #[trigger] plan.changed@[k] < discovery.sources@.len(),
        changed_bytes(discovery.sources@, plan.changed@) <= u64::MAX,
    ensures
        r.0.total_files == sat_add(plan.processed_files, plan.changed@.len() as u64),
        r.0.processed_files == plan.processed_files,
        r.0.total_bytes == sat_add(plan.processed_bytes, changed_bytes(discovery.sources@, plan.changed@) as u64),
        r.0.processed_bytes == plan.processed_bytes,
        r.0.failed_files == 0,
        r.0.excluded_files == plan.excluded_files,
        r.0.excluded_bytes == plan.excluded_bytes,
        r.1.generation == generation,
        r.1.discovered_files == discovery.sources@.len(),
        r.1.discovered_bytes == discovery.total_bytes,
        r.1.indexed_files == 0 && r.1.appended_files == 0 && r.1.failed_files == 0,
        r.1.removed_files == plan.missing@.len(),
        r.1.discovery_issues == discovery.issues@.len(),
        r.1.excluded_files == plan.excluded_files,
        r.1.excluded_bytes == plan.excluded_bytes,
        r.1.reconcile_again == (discovery.issues@.len() > 0),
        r.1.failures@.len() == 0 && r.1.updated_sessions@.len() == 0 && r.1.appended_sessions@.len() == 0,
{
    let mut bytes: u64 = 0;
    let mut k: usize = 0;
    while k < plan.changed.len()
        invariant
            k <= plan.changed@.len(),
            forall|t: int| 0 <= t < plan.changed@.len() ==> #[trigger] plan.changed@[t] < discovery.sources@.len(),
            changed_bytes(discovery.sources@, plan.changed@) <= u64::MAX,
            bytes == changed_bytes(discovery.sources@, plan.changed@.take(k as int)),
        decreases plan.changed@.len() - k,
    {
        proof {
            assert(plan.changed@.take(k + 1).drop_last() =~= plan.changed@.take(k as int));
            lemma_changed_bytes_prefix(discovery.sources@, plan.changed@, k + 1);
        }
        let at = plan.changed[k];
        bytes = bytes + discovery.sources[at].source.size_bytes;
        k = k + 1;
    }
    assert(plan.changed@.take(plan.changed@.len() as int) =~= plan.changed@);
    let progress = IndexProgress {
        total_files: plan.processed_files.saturating_add(plan.changed.len() as u64),
        processed_files: plan.processed_files,
        total_bytes: plan.processed_bytes.saturating_add(bytes),
        processed_bytes: plan.processed_bytes,
        failed_files: 0,
        excluded_files: plan.excluded_files,
        excluded_bytes: plan.excluded_bytes,
    };
    let report = ReconcileReport {
        generation,
        discovered_files: discovery.sources.len() as u64,
        discovered_bytes: discovery.total_bytes,
        indexed_files: 0,
        appended_files: 0,
        failed_files: 0,
        removed_files: plan.missing.len() as u64,
        discovery_issues: discovery.issues.len() as u64,
        excluded_files: plan.excluded_files,
        excluded_bytes: plan.excluded_bytes,
        reconcile_again: discovery.issues.len() > 0,
        failures: Vec::new(),
        updated_sessions: Vec::new(),
        appended_sessions: Vec::new(),
    };
    (progress, report)
}

proof fn lemma_changed_bytes_prefix(sources: Seq<DiscoveredSource>, changed: Seq<usize>, k: int)
    requires
        0 <= k <= changed.len(),
    ensures
        changed_bytes(sources, changed.take(k)) <= changed_bytes(sources, changed),
    decreases changed.len(),
{
    if k < changed.len() {
        lemma_changed_bytes_prefix(sources, changed.drop_last(), k);
        assert(changed.drop_last().take(k) =~= changed.take(k));
    } else {
        assert(changed.take(k) =~= changed);
    }
}

/// Puts the sessions a finished pass updated in byte order, each once;
/// nothing else of the report changes.
pub fn sort_updated_sessions(report: &mut ReconcileReport)
    ensures
        *final(report) == (ReconcileReport { updated_sessions: final(report).updated_sessions, ..*old(report) }),
        forall|a: int, b: int| 0 <= a < b < final(report).updated_sessions@.len() ==> text_lt(
            (#[trigger] final(report).updated_sessions@[a])@,
            (#[trigger] final(report).updated_sessions@[b])@,
        ),
        texts_given(old(report).updated_sessions@, final(report).updated_sessions@),
        texts_kept(old(report).updated_sessions@, final(report).updated_sessions@),
{
    let sorted = sorted_distinct_texts(&report.updated_sessions);
    report.updated_sessions = sorted;
}

} // verus!
