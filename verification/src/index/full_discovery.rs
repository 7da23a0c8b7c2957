//! What the scheduler decides once a full discovery pass has refreshed the
//! catalog: which session a source whose refresh failed keeps, how fresh
//! each session is, which catalogued sources come back or go missing, and
//! which sessions' catalog entries changed.

use vstd::prelude::*;

use crate::index::changes::{sorted_distinct_texts, texts_given, texts_kept, SessionFreshness};
use crate::index::reconcile::{
    discovered_key, find_stored, has_discovered, missing_spec, pairs_view, snapshot_matches, snapshot_matches_spec, source_key_of,
    stored_for, stored_key_of, StoredSource,
};
use crate::index::sources::{source_key, stored_key, CatalogOutcome, DiscoveredSource};
use crate::model::duplicate_text;
use crate::rollout::types::RootKind;
use crate::text::{str_eq, text_lt};

verus! {

/// The texts of strings.
pub open spec fn texts_of(v: Seq<String>) -> Seq<Seq<char>> {
    v.map_values(|t: String| t@)
}

/// The session a source whose catalog refresh failed keeps: the one the
/// catalog holds for its file, if any.
pub open spec fn kept_session(stored: Seq<StoredSource>, source: DiscoveredSource) -> Option<String> {
    match stored_for(stored, source_key_of(source)) {
        Some(s) => s.session_id,
        None => None,
    }
}

/// The session a source whose catalog refresh failed keeps.
pub fn recovered_session(stored: &Vec<StoredSource>, source: &DiscoveredSource) -> (r: Option<String>)
    ensures
        r == kept_session(stored@, *source),
{
    let key = source_key(source);
    match find_stored(stored, key.as_str()) {
        Some(i) => duplicate_text(&stored[i].session_id),
        None => None,
    }
}

/// The sessions whose catalog holds a snapshot, in catalog order.
pub open spec fn snapshot_sessions(stored: Seq<StoredSource>) -> Seq<Seq<char>>
    decreases stored.len(),
{
    if stored.len() == 0 {
        Seq::empty()
    } else {
        let rest = snapshot_sessions(stored.drop_last());
        let s = stored.last();
        if s.snapshot_revision > 0 && s.session_id is Some {
            rest.push(s.session_id->0@)
        } else {
            rest
        }
    }
}

/// The sessions whose catalog holds a snapshot.
pub fn snapshot_session_ids(stored: &Vec<StoredSource>) -> (r: Vec<String>)
    ensures
        texts_of(r@) == snapshot_sessions(stored@),
{
    let mut out: Vec<String> = Vec::new();
    let mut i: usize = 0;
    while i < stored.len()
        invariant
            i <= stored@.len(),
            texts_of(out@) == snapshot_sessions(stored@.take(i as int)),
        decreases stored@.len() - i,
    {
        proof {
            assert(stored@.take(i + 1).drop_last() =~= stored@.take(i as int));
            assert(stored@.take(i + 1).last() == stored@[i as int]);
        }
        if stored[i].snapshot_revision > 0 {
            if let Some(id) = &stored[i].session_id {
                let ghost before = out@;
                out.push(id.clone());
                assert(texts_of(out@) =~= texts_of(before).push(id@));
            }
        }
        i = i + 1;
    }
    assert(stored@.take(stored@.len() as int) =~= stored@);
    out
}

/// How fresh a discovered session is after the pass: current when the
/// catalog's snapshot was taken of its file as it is now, else stale when
/// its session has a snapshot, else still being checked.
pub open spec fn discovered_freshness(stored: Seq<StoredSource>, snapshots: Seq<Seq<char>>, source: DiscoveredSource) -> SessionFreshness {
    let found = stored_for(stored, source_key_of(source));
    if found is Some && snapshot_matches_spec(found->0, source) {
        SessionFreshness::Current
    } else if snapshots.contains(source.session_id@) {
        SessionFreshness::Stale
    } else {
        SessionFreshness::Checking
    }
}

/// How fresh a discovered session is after the pass.
pub fn freshness_after_discovery(stored: &Vec<StoredSource>, snapshots: &Vec<String>, source: &DiscoveredSource) -> (r: SessionFreshness)
    ensures
        r == discovered_freshness(stored@, texts_of(snapshots@), *source),
{
    let r = freshness_as(stored, snapshots, source, &source.session_id);
    assert(DiscoveredSource { session_id: source.session_id, ..*source } == *source);
    r
}

/// A source with the session it is counted under.
pub open spec fn under_session(source: DiscoveredSource, session: String) -> DiscoveredSource {
    DiscoveredSource { session_id: session, ..source }
}

/// How fresh a discovered source's file is when it is counted under `session`.
fn freshness_as(stored: &Vec<StoredSource>, snapshots: &Vec<String>, source: &DiscoveredSource, session: &String) -> (r: SessionFreshness)
    ensures
        r == discovered_freshness(stored@, texts_of(snapshots@), under_session(*source, *session)),
{
    let ghost s2 = under_session(*source, *session);
    assert(source_key_of(s2) == source_key_of(*source));
    let key = source_key(source);
    let current = match find_stored(stored, key.as_str()) {
        Some(i) => snapshot_matches(&stored[i], source),
        None => false,
    };
    if current {
        return SessionFreshness::Current;
    }
    let ghost ids = texts_of(snapshots@);
    let mut i: usize = 0;
    while i < snapshots.len()
        invariant
            i <= snapshots@.len(),
            ids == texts_of(snapshots@),
            forall|j: int| 0 <= j < i ==> ids[j] != session@,
            s2 == under_session(*source, *session),
            !(stored_for(stored@, source_key_of(s2)) is Some && snapshot_matches_spec(
                stored_for(stored@, source_key_of(s2))->0,
                s2,
            )),
        decreases snapshots@.len() - i,
    {
        if str_eq(snapshots[i].as_str(), session.as_str()) {
            assert(ids[i as int] == session@);
            assert(ids.contains(session@));
            return SessionFreshness::Stale;
        }
        i = i + 1;
    }
    SessionFreshness::Checking
}

/// The catalogued source that comes back with a discovered one: the entry
/// for its file, when it is marked missing.
pub open spec fn returning_entry(stored: Seq<StoredSource>, source: DiscoveredSource) -> Option<(RootKind, Seq<char>)> {
    match stored_for(stored, source_key_of(source)) {
        Some(s) => if s.scan_state@ == "source_missing"@ { Some((s.root_kind, s.relative_path@)) } else { None },
        None => None,
    }
}

/// The catalogued source that comes back with a discovered one.
pub fn returning_source(stored: &Vec<StoredSource>, source: &DiscoveredSource) -> (r: Option<(RootKind, String)>)
    ensures
        match returning_entry(stored@, *source) {
            Some((kind, path)) => r matches Some(p) && p.0 == kind && p.1@ == path,
            None => r is None,
        },
{
    let key = source_key(source);
    match find_stored(stored, key.as_str()) {
        Some(i) => if str_eq(stored[i].scan_state.as_str(), "source_missing") {
            Some((stored[i].root_kind, stored[i].relative_path.clone()))
        } else {
            None
        },
        None => None,
    }
}

/// Whether some of the sessions is `id`.
pub open spec fn lists_session(ids: Seq<Seq<char>>, id: Seq<char>) -> bool {
    ids.contains(id)
}

/// Whether a catalogued session's source is gone: the catalog names a
/// session for it that no source after the pass carries, and its file was
/// not discovered.
pub open spec fn session_gone(entry: StoredSource, session_ids: Seq<Seq<char>>, discovered: Seq<DiscoveredSource>) -> bool {
    entry.session_id is Some && !session_ids.contains(entry.session_id->0@) && !discovered_key(discovered, stored_key_of(entry))
}

/// Whether a catalogued session's source is gone.
pub fn source_gone(entry: &StoredSource, session_ids: &Vec<String>, discovered: &Vec<DiscoveredSource>) -> (r: bool)
    ensures
        r == session_gone(*entry, texts_of(session_ids@), discovered@),
{
    let id = match &entry.session_id {
        Some(id) => id,
        None => {
            return false;
        },
    };
    let ghost ids = texts_of(session_ids@);
    let mut i: usize = 0;
    while i < session_ids.len()
        invariant
            i <= session_ids@.len(),
            ids == texts_of(session_ids@),
            forall|j: int| 0 <= j < i ==> ids[j] != id@,
            entry.session_id matches Some(x) && x@ == id@,
        decreases session_ids@.len() - i,
    {
        if str_eq(session_ids[i].as_str(), id.as_str()) {
            assert(ids[i as int] == id@);
            assert(ids.contains(id@));
            return false;
        }
        i = i + 1;
    }
    let key = stored_key(entry.root_kind, entry.relative_path.as_str());
    let mut k: usize = 0;
    while k < discovered.len()
        invariant
            k <= discovered@.len(),
            key@ == stored_key_of(*entry),
            forall|j: int| 0 <= j < k ==> source_key_of(#[trigger] discovered@[j]) != key@,
            entry.session_id matches Some(x) && x@ == id@,
            !texts_of(session_ids@).contains(id@),
        decreases discovered@.len() - k,
    {
        let dk = source_key(&discovered[k]);
        if str_eq(dk.as_str(), key.as_str()) {
            return false;
        }
        k = k + 1;
    }
    true
}

/// The sessions whose catalog entries changed in the pass, in byte order
/// and each once: those of refreshed sources whose entry changed, and
/// those named by the sources marked missing or present again.
pub fn catalog_update_ids(outcomes: &Vec<CatalogOutcome>, marked: &Vec<String>) -> (r: Vec<String>)
    ensures
        forall|a: int, b: int| 0 <= a < b < r@.len() ==> text_lt((#[trigger] r@[a])@, (#[trigger] r@[b])@),
        texts_given(changed_ids(outcomes@) + marked@, r@),
        texts_kept(changed_ids(outcomes@) + marked@, r@),
{
    let mut all: Vec<String> = Vec::new();
    let mut i: usize = 0;
    while i < outcomes.len()
        invariant
            i <= outcomes@.len(),
            all@ == changed_ids(outcomes@.take(i as int)),
        decreases outcomes@.len() - i,
    {
        proof {
            assert(outcomes@.take(i + 1).drop_last() =~= outcomes@.take(i as int));
            assert(outcomes@.take(i + 1).last() == outcomes@[i as int]);
        }
        if outcomes[i].changed {
            all.push(outcomes[i].source.session_id.clone());
        }
        i = i + 1;
    }
    assert(outcomes@.take(outcomes@.len() as int) =~= outcomes@);
    let ghost first = all@;
    let mut k: usize = 0;
    while k < marked.len()
        invariant
            k <= marked@.len(),
            all@ == first + marked@.take(k as int),
        decreases marked@.len() - k,
    {
        all.push(marked[k].clone());
        assert(first + marked@.take(k + 1) =~= (first + marked@.take(k as int)).push(marked@[k as int]));
        k = k + 1;
    }
    assert(marked@.take(marked@.len() as int) =~= marked@);
    sorted_distinct_texts(&all)
}

/// The session ids of the refreshed sources whose catalog entry changed, in
/// order.
pub open spec fn changed_ids(outcomes: Seq<CatalogOutcome>) -> Seq<String>
    decreases outcomes.len(),
{
    if outcomes.len() == 0 {
        Seq::empty()
    } else {
        let rest = changed_ids(outcomes.drop_last());
        if outcomes.last().changed { rest.push(outcomes.last().source.session_id) } else { rest }
    }
}


/// The sources a whole pass ends with whose refresh failed: each whose file
/// the catalog names a session for, counted under that session.
pub open spec fn kept_failed(stored: Seq<StoredSource>, failed: Seq<DiscoveredSource>) -> Seq<DiscoveredSource>
    decreases failed.len(),
{
    if failed.len() == 0 {
        Seq::empty()
    } else {
        let rest = kept_failed(stored, failed.drop_last());
        match kept_session(stored, failed.last()) {
            Some(id) => rest.push(under_session(failed.last(), id)),
            None => rest,
        }
    }
}

/// The sources a whole pass ends with: every refreshed one, in order, then
/// those whose refresh failed but whose session the catalog knows.
pub open spec fn sources_after(stored: Seq<StoredSource>, outcomes: Seq<CatalogOutcome>, failed: Seq<DiscoveredSource>) -> Seq<DiscoveredSource> {
    outcomes.map_values(|o: CatalogOutcome| o.source) + kept_failed(stored, failed)
}

/// The session of each source.
pub open spec fn source_sessions(sources: Seq<DiscoveredSource>) -> Seq<String> {
    sources.map_values(|d: DiscoveredSource| d.session_id)
}

/// Each source's session with how fresh it is.
pub open spec fn seen_freshness(stored: Seq<StoredSource>, snapshots: Seq<Seq<char>>, sources: Seq<DiscoveredSource>) -> Seq<(String, SessionFreshness)> {
    sources.map_values(|d: DiscoveredSource| (d.session_id, discovered_freshness(stored, snapshots, d)))
}

/// Each catalogued session whose source is gone, marked missing, in catalog order.
pub open spec fn gone_freshness(stored: Seq<StoredSource>, ids: Seq<Seq<char>>, discovered: Seq<DiscoveredSource>) -> Seq<(String, SessionFreshness)>
    decreases stored.len(),
{
    if stored.len() == 0 {
        Seq::empty()
    } else {
        let rest = gone_freshness(stored.drop_last(), ids, discovered);
        let e = stored.last();
        if session_gone(e, ids, discovered) { rest.push((e.session_id->0, SessionFreshness::SourceMissing)) } else { rest }
    }
}

/// The catalogued sources that come back with the sources, in order.
pub open spec fn present_entries(stored: Seq<StoredSource>, sources: Seq<DiscoveredSource>) -> Seq<(RootKind, Seq<char>)>
    decreases sources.len(),
{
    if sources.len() == 0 {
        Seq::empty()
    } else {
        let rest = present_entries(stored, sources.drop_last());
        match returning_entry(stored, sources.last()) {
            Some(p) => rest.push(p),
            None => rest,
        }
    }
}

/// The sessions of the sources that come back, in order.
pub open spec fn present_sessions(stored: Seq<StoredSource>, sources: Seq<DiscoveredSource>) -> Seq<String>
    decreases sources.len(),
{
    if sources.len() == 0 {
        Seq::empty()
    } else {
        let rest = present_sessions(stored, sources.drop_last());
        if returning_entry(stored, sources.last()) is Some { rest.push(sources.last().session_id) } else { rest }
    }
}

/// The sessions the catalog names for the sources that go missing, in catalog order.
pub open spec fn missing_sessions(stored: Seq<StoredSource>, discovered: Seq<DiscoveredSource>) -> Seq<String>
    decreases stored.len(),
{
    if stored.len() == 0 {
        Seq::empty()
    } else {
        let rest = missing_sessions(stored.drop_last(), discovered);
        let e = stored.last();
        if !discovered_key(discovered, stored_key_of(e)) && e.scan_state@ != "source_missing"@ && e.session_id is Some {
            rest.push(e.session_id->0)
        } else {
            rest
        }
    }
}

/// The sessions whose catalog entries a pass marks: those going missing
/// (only when discovery met no problem), then those coming back.
pub open spec fn marked_sessions(
    stored: Seq<StoredSource>,
    discovered: Seq<DiscoveredSource>,
    after: Seq<DiscoveredSource>,
    issues_empty: bool,
) -> Seq<String> {
    (if issues_empty { missing_sessions(stored, discovered) } else { Seq::empty() }) + present_sessions(stored, after)
}

/// What a full discovery pass installs once every source's catalog entry
/// was refreshed.
#[derive(Debug)]
pub struct FullDiscoveryPlan {
    /// The session of each source the pass ends with.
    pub session_ids: Vec<String>,
    /// The sessions whose catalog holds a snapshot.
    pub snapshots: Vec<String>,
    /// How fresh each session is; a later entry for a session replaces an earlier one.
    pub freshness: Vec<(String, SessionFreshness)>,
    /// Catalogued sources to mark missing.
    pub missing: Vec<(RootKind, String)>,
    /// Catalogued sources to mark present again.
    pub present: Vec<(RootKind, String)>,
    /// Sessions whose catalog entries changed, in byte order, each once.
    pub catalog_updates: Vec<String>,
    /// Refreshed sources whose catalog entry changed.
    pub indexed_files: u64,
    /// Sources marked missing.
    pub removed_files: u64,
    /// Whether another pass is due: discovery met problems or a refresh failed.
    pub reconcile_again: bool,
}

/// Records one source the pass ends with, counted under `session`: its
/// session, how fresh it is, and whether its catalog entry comes back.
fn observe_source(
    stored: &Vec<StoredSource>,
    snapshots: &Vec<String>,
    source: &DiscoveredSource,
    session: &String,
    ids: &mut Vec<String>,
    freshness: &mut Vec<(String, SessionFreshness)>,
    present: &mut Vec<(RootKind, String)>,
    present_ids: &mut Vec<String>,
)
    ensures
        final(ids)@ == old(ids)@.push(*session),
        final(freshness)@ == old(freshness)@.push(
            (*session, discovered_freshness(stored@, texts_of(snapshots@), under_session(*source, *session))),
        ),
        pairs_view(final(present)@) == match returning_entry(stored@, under_session(*source, *session)) {
            Some(p) => pairs_view(old(present)@).push(p),
            None => pairs_view(old(present)@),
        },
        final(present_ids)@ == if returning_entry(stored@, under_session(*source, *session)) is Some {
            old(present_ids)@.push(*session)
        } else {
            old(present_ids)@
        },
{
    let ghost s2 = under_session(*source, *session);
    assert(source_key_of(s2) == source_key_of(*source));
    ids.push(session.clone());
    let f = freshness_as(stored, snapshots, source, session);
    freshness.push((session.clone(), f));
    match returning_source(stored, source) {
        Some(p) => {
            let ghost before = present@;
            present.push(p);
            assert(pairs_view(present@) =~= pairs_view(before).push(returning_entry(stored@, s2)->0));
            present_ids.push(session.clone());
        },
        None => {},
    }
}

/// Decides what a full discovery pass installs, from the catalog as stored,
/// the sources discovered, the outcomes of the refreshed ones and the
/// sources whose refresh failed. A failed source stays when the catalog
/// names a session for its file, under that session. Each session the pass
/// ends with is current, stale or being checked; each catalogued session
/// whose source is gone is missing. Catalogued sources no longer found are
/// marked missing unless discovery met problems; those found again come
/// back. The sessions whose entries changed are announced once each, in
/// byte order.
pub fn plan_full_discovery(
    stored: &Vec<StoredSource>,
    discovered: &Vec<DiscoveredSource>,
    outcomes: &Vec<CatalogOutcome>,
    failed: &Vec<DiscoveredSource>,
    issues_empty: bool,
    failures_empty: bool,
) -> (r: FullDiscoveryPlan)
    ensures
        texts_of(r.snapshots@) == snapshot_sessions(stored@),
        r.session_ids@ == source_sessions(sources_after(stored@, outcomes@, failed@)),
        r.freshness@ == seen_freshness(stored@, snapshot_sessions(stored@), sources_after(stored@, outcomes@, failed@))
            + gone_freshness(stored@, texts_of(source_sessions(sources_after(stored@, outcomes@, failed@))), discovered@),
        pairs_view(r.missing@) == if issues_empty { missing_spec(stored@, discovered@) } else { Seq::empty() },
        pairs_view(r.present@) == present_entries(stored@, sources_after(stored@, outcomes@, failed@)),
        forall|a: int, b: int| 0 <= a < b < r.catalog_updates@.len() ==> text_lt((#[trigger] r.catalog_updates@[a])@, (#[trigger] r.catalog_updates@[b])@),
        texts_given(
            changed_ids(outcomes@) + marked_sessions(stored@, discovered@, sources_after(stored@, outcomes@, failed@), issues_empty),
            r.catalog_updates@,
        ),
        texts_kept(
            changed_ids(outcomes@) + marked_sessions(stored@, discovered@, sources_after(stored@, outcomes@, failed@), issues_empty),
            r.catalog_updates@,
        ),
        r.indexed_files == changed_ids(outcomes@).len(),
        r.removed_files == r.missing@.len(),
        r.reconcile_again == (!issues_empty || !failures_empty),
{
    let snapshots = snapshot_session_ids(stored);
    let ghost snaps = texts_of(snapshots@);
    let ghost firsts = outcomes@.map_values(|o: CatalogOutcome| o.source);
    let mut ids: Vec<String> = Vec::new();
    let mut freshness: Vec<(String, SessionFreshness)> = Vec::new();
    let mut present: Vec<(RootKind, String)> = Vec::new();
    let mut present_ids: Vec<String> = Vec::new();
    let mut indexed: u64 = 0;
    let mut i: usize = 0;
    while i < outcomes.len()
        invariant
            i <= outcomes@.len(),
            firsts == outcomes@.map_values(|o: CatalogOutcome| o.source),
            snaps == texts_of(snapshots@),
            ids@ == source_sessions(firsts.take(i as int)),
            freshness@ == seen_freshness(stored@, snaps, firsts.take(i as int)),
            pairs_view(present@) == present_entries(stored@, firsts.take(i as int)),
            present_ids@ == present_sessions(stored@, firsts.take(i as int)),
            indexed == changed_ids(outcomes@.take(i as int)).len(),
            changed_ids(outcomes@.take(i as int)).len() <= i,
        decreases outcomes@.len() - i,
    {
        let o = &outcomes[i];
        proof {
            assert(firsts.take(i + 1).drop_last() =~= firsts.take(i as int));
            assert(firsts.take(i + 1).last() == o.source);
            assert(outcomes@.take(i + 1).drop_last() =~= outcomes@.take(i as int));
            assert(outcomes@.take(i + 1).last() == outcomes@[i as int]);
            assert(under_session(o.source, o.source.session_id) == o.source);
        }
        observe_source(stored, &snapshots, &o.source, &o.source.session_id, &mut ids, &mut freshness, &mut present, &mut present_ids);
        proof {
            assert(ids@ =~= source_sessions(firsts.take(i + 1)));
            assert(freshness@ =~= seen_freshness(stored@, snaps, firsts.take(i + 1)));
        }
        if o.changed {
            indexed = indexed + 1;
        }
        i = i + 1;
    }
    assert(outcomes@.take(outcomes@.len() as int) =~= outcomes@);
    assert(firsts.take(outcomes@.len() as int) =~= firsts);
    let mut k: usize = 0;
    while k < failed.len()
        invariant
            k <= failed@.len(),
            firsts == outcomes@.map_values(|o: CatalogOutcome| o.source),
            snaps == texts_of(snapshots@),
            ids@ == source_sessions(firsts + kept_failed(stored@, failed@.take(k as int))),
            freshness@ == seen_freshness(stored@, snaps, firsts + kept_failed(stored@, failed@.take(k as int))),
            pairs_view(present@) == present_entries(stored@, firsts + kept_failed(stored@, failed@.take(k as int))),
            present_ids@ == present_sessions(stored@, firsts + kept_failed(stored@, failed@.take(k as int))),
        decreases failed@.len() - k,
    {
        let ghost pre = firsts + kept_failed(stored@, failed@.take(k as int));
        proof {
            assert(failed@.take(k + 1).drop_last() =~= failed@.take(k as int));
            assert(failed@.take(k + 1).last() == failed@[k as int]);
        }
        match recovered_session(stored, &failed[k]) {
            Some(id) => {
                observe_source(stored, &snapshots, &failed[k], &id, &mut ids, &mut freshness, &mut present, &mut present_ids);
                proof {
                    let post = firsts + kept_failed(stored@, failed@.take(k + 1));
                    assert(post =~= pre.push(under_session(failed@[k as int], id)));
                    assert(post.drop_last() =~= pre);
                    assert(ids@ =~= source_sessions(post));
                    assert(freshness@ =~= seen_freshness(stored@, snaps, post));
                }
            },
            None => {
                proof {
                    let post = firsts + kept_failed(stored@, failed@.take(k + 1));
                    assert(post =~= pre);
                }
            },
        }
        k = k + 1;
    }
    assert(failed@.take(failed@.len() as int) =~= failed@);
    let ghost after = sources_after(stored@, outcomes@, failed@);
    assert(after == firsts + kept_failed(stored@, failed@));
    let mut j: usize = 0;
    while j < stored.len()
        invariant
            j <= stored@.len(),
            after == sources_after(stored@, outcomes@, failed@),
            ids@ == source_sessions(after),
            freshness@ == seen_freshness(stored@, snaps, after) + gone_freshness(stored@.take(j as int), texts_of(ids@), discovered@),
        decreases stored@.len() - j,
    {
        let e = &stored[j];
        proof {
            assert(stored@.take(j + 1).drop_last() =~= stored@.take(j as int));
            assert(stored@.take(j + 1).last() == stored@[j as int]);
        }
        if source_gone(e, &ids, discovered) {
            let id = match &e.session_id {
                Some(x) => x.clone(),
                None => {
                    assert(false);
                    String::new()
                },
            };
            freshness.push((id, SessionFreshness::SourceMissing));
            assert(freshness@ =~= seen_freshness(stored@, snaps, after) + gone_freshness(stored@.take(j + 1), texts_of(ids@), discovered@));
        }
        j = j + 1;
    }
    assert(stored@.take(stored@.len() as int) =~= stored@);
    let mut missing: Vec<(RootKind, String)> = Vec::new();
    let mut marked: Vec<String> = Vec::new();
    if issues_empty {
        let mut m: usize = 0;
        while m < stored.len()
            invariant
                m <= stored@.len(),
                pairs_view(missing@) == missing_spec(stored@.take(m as int), discovered@),
                marked@ == missing_sessions(stored@.take(m as int), discovered@),
                missing@.len() <= m,
            decreases stored@.len() - m,
        {
            let e = &stored[m];
            proof {
                assert(stored@.take(m + 1).drop_last() =~= stored@.take(m as int));
                assert(stored@.take(m + 1).last() == stored@[m as int]);
            }
            let key = stored_key(e.root_kind, e.relative_path.as_str());
            if !has_discovered(discovered, key.as_str()) && !str_eq(e.scan_state.as_str(), "source_missing") {
                let ghost before = missing@;
                missing.push((e.root_kind, e.relative_path.clone()));
                assert(pairs_view(missing@) =~= pairs_view(before).push((e.root_kind, e.relative_path@)));
                match &e.session_id {
                    Some(x) => marked.push(x.clone()),
                    None => {},
                }
            }
            m = m + 1;
        }
        assert(stored@.take(stored@.len() as int) =~= stored@);
    }
    let ghost missing_part = marked@;
    let mut q: usize = 0;
    while q < present_ids.len()
        invariant
            q <= present_ids@.len(),
            marked@ == missing_part + present_ids@.take(q as int),
        decreases present_ids@.len() - q,
    {
        marked.push(present_ids[q].clone());
        assert(missing_part + present_ids@.take(q + 1) =~= (missing_part + present_ids@.take(q as int)).push(present_ids@[q as int]));
        q = q + 1;
    }
    assert(present_ids@.take(present_ids@.len() as int) =~= present_ids@);
    assert(marked@ == marked_sessions(stored@, discovered@, after, issues_empty));
    let catalog_updates = catalog_update_ids(outcomes, &marked);
    let removed = missing.len() as u64;
    FullDiscoveryPlan {
        session_ids: ids,
        snapshots,
        freshness,
        missing,
        present,
        catalog_updates,
        indexed_files: indexed,
        removed_files: removed,
        reconcile_again: !issues_empty || !failures_empty,
    }
}

} // verus!
