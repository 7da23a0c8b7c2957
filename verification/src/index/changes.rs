//! What the scheduler decides when the watcher reports changed paths: which
//! rediscovered source represents its session, how fresh a session is, and
//! which catalogued sources a deleted path takes away.

use vstd::prelude::*;

use crate::api::sessions::{keyed_lt, sort_keyed};
use crate::index::sources::{precedes_spec, source_precedes, stored_key, stored_key_spec, DiscoveredSource};
use crate::index::reconcile::{find_stored, metadata_matches, metadata_matches_spec, source_key_of, stored_for, StoredSource};
use crate::index::sources::source_key;
use crate::rollout::types::RootKind;
use crate::paths::{path_has_prefix, path_starts_with};
use crate::text::{lemma_text_lt_order, str_eq, string_eq, text_lt};

verus! {

/// How the catalog stands for a session.
#[derive(Clone, Copy, Debug, PartialEq, Eq, Structural)]
pub enum SessionFreshness {
    /// The catalog holds the file as it is now.
    Current,
    /// The catalog holds an earlier snapshot of the file.
    Stale,
    /// Nothing is known yet.
    Checking,
    /// The file is gone.
    SourceMissing,
}

/// How fresh a session is once its source is seen: current when the
/// catalog holds the file as it is now, else stale when a snapshot of it
/// exists, else still being checked.
pub fn session_freshness(current: bool, has_snapshot: bool) -> (r: SessionFreshness)
    ensures
        r == (if current {
            SessionFreshness::Current
        } else if has_snapshot {
            SessionFreshness::Stale
        } else {
            SessionFreshness::Checking
        }),
{
    if current {
        SessionFreshness::Current
    } else if has_snapshot {
        SessionFreshness::Stale
    } else {
        SessionFreshness::Checking
    }
}

/// Whether a rediscovered source takes its session's place in the catalog:
/// when the session has no source yet, when it is the same file, or when
/// it should represent the session rather than the one there.
pub open spec fn takes_catalog_place(source: DiscoveredSource, existing: Option<DiscoveredSource>) -> bool {
    match existing {
        None => true,
        Some(cur) => precedes_spec(&source, &cur) || cur.path@ == source.path@,
    }
}

/// The source an optional reference points to.
pub open spec fn opt_source(existing: Option<&DiscoveredSource>) -> Option<DiscoveredSource> {
    match existing {
        Some(s) => Some(*s),
        None => None,
    }
}

/// Whether a rediscovered source takes its session's place in the catalog.
pub fn takes_place(source: &DiscoveredSource, existing: Option<&DiscoveredSource>) -> (r: bool)
    ensures
        r == takes_catalog_place(*source, opt_source(existing)),
{
    match existing {
        None => true,
        Some(cur) => source_precedes(source, cur) || string_eq(&cur.path, &source.path),
    }
}

/// Whether a deleted path takes a catalogued source away: it is the
/// source's path, or a directory the source lies in.
pub open spec fn deleted_covers(source_path: Seq<char>, deleted: Seq<char>) -> bool {
    source_path == deleted || path_has_prefix(source_path, deleted)
}

/// Whether a deleted path takes a catalogued source away.
pub fn deletion_covers(source: &DiscoveredSource, deleted: &str) -> (r: bool)
    ensures
        r == deleted_covers(source.path@, deleted@),
{
    crate::text::str_eq(source.path.as_str(), deleted) || path_starts_with(source.path.as_str(), deleted)
}

/// The positions of the catalogued sources that a deleted path takes away,
/// in catalog order.
pub open spec fn covered_positions(catalog: Seq<DiscoveredSource>, deleted: Seq<char>, upto: int) -> Seq<usize>
    decreases upto,
{
    if upto <= 0 {
        Seq::empty()
    } else if deleted_covers(catalog[upto - 1].path@, deleted) {
        covered_positions(catalog, deleted, upto - 1).push((upto - 1) as usize)
    } else {
        covered_positions(catalog, deleted, upto - 1)
    }
}

/// The positions of the catalogued sources that a deleted path takes away.
pub fn covered_by_deletion(catalog: &Vec<DiscoveredSource>, deleted: &str) -> (r: Vec<usize>)
    ensures
        r@ == covered_positions(catalog@, deleted@, catalog@.len() as int),
{
    let mut out: Vec<usize> = Vec::new();
    let mut i: usize = 0;
    while i < catalog.len()
        invariant
            i <= catalog@.len(),
            out@ == covered_positions(catalog@, deleted@, i as int),
        decreases catalog@.len() - i,
    {
        if deletion_covers(&catalog[i], deleted) {
            out.push(i);
        }
        i = i + 1;
    }
    out
}

/// Whether the text `x` is at one of `positions` of `texts`.
pub open spec fn at_some_position(texts: Seq<String>, positions: Seq<usize>, x: Seq<char>) -> bool {
    exists|m: int| 0 <= m < positions.len() && texts[#[trigger] positions[m] as int]@ == x
}

/// The positions of the first of each distinct text among `texts`, in the
/// byte order of the texts: each text given is there, and the texts at
/// those positions strictly increase.
pub fn distinct_sorted_positions(texts: &Vec<String>) -> (r: Vec<usize>)
    ensures
        forall|m: int| 0 <= m < r@.len() ==> #[trigger] r@[m] < texts@.len(),
        forall|a: int, b: int| 0 <= a < b < r@.len() ==> text_lt(texts@[#[trigger] r@[a] as int]@, texts@[#[trigger] r@[b] as int]@),
        forall|j: int| 0 <= j < texts@.len() ==> #[trigger] at_some_position(texts@, r@, texts@[j]@),
{
    let mut keys: Vec<(String, usize)> = Vec::new();
    let mut i: usize = 0;
    while i < texts.len()
        invariant
            i <= texts@.len(),
            keys@.len() == i,
            forall|t: int| 0 <= t < i ==> (#[trigger] keys@[t]).0@ == texts@[t]@ && keys@[t].1 == t,
        decreases texts@.len() - i,
    {
        keys.push((texts[i].clone(), i));
        i = i + 1;
    }
    let ghost orig = keys@;
    sort_keyed(&mut keys);
    proof {
        orig.to_multiset_ensures();
        keys@.to_multiset_ensures();
        assert forall|x: (String, usize)| #[trigger] keys@.contains(x) <==> orig.contains(x) by {
            if keys@.contains(x) {
                assert(keys@.to_multiset().count(x) > 0);
            }
            if orig.contains(x) {
                assert(orig.to_multiset().count(x) > 0);
            }
        }
    }
    let mut out: Vec<usize> = Vec::new();
    let mut t: usize = 0;
    while t < keys.len()
        invariant
            t <= keys@.len(),
            keys@.len() == texts@.len(),
            orig.len() == texts@.len(),
            forall|a: int, b: int| 0 <= a < b < keys@.len() ==> !keyed_lt(#[trigger] keys@[b], #[trigger] keys@[a]),
            forall|q: int| 0 <= q < orig.len() ==> (#[trigger] orig[q]).0@ == texts@[q]@ && orig[q].1 == q,
            forall|x: (String, usize)| #[trigger] keys@.contains(x) <==> orig.contains(x),
            forall|m: int| 0 <= m < out@.len() ==> #[trigger] out@[m] < texts@.len(),
            forall|a: int, b: int| 0 <= a < b < out@.len() ==> text_lt(texts@[#[trigger] out@[a] as int]@, texts@[#[trigger] out@[b] as int]@),
            forall|q: int| 0 <= q < t ==> #[trigger] at_some_position(texts@, out@, keys@[q].0@),
            t > 0 ==> out@.len() > 0 && texts@[out@.last() as int]@ == keys@[t - 1].0@,
            t == 0 ==> out@.len() == 0,
        decreases keys@.len() - t,
    {
        let idx = keys[t].1;
        proof {
            assert(keys@.contains(keys@[t as int]));
            let q = choose|q: int| 0 <= q < orig.len() && orig[q] == keys@[t as int];
            assert(orig[q].1 == q);
            assert(idx < texts@.len());
        }
        let fresh = if t == 0 {
            true
        } else {
            !str_eq(keys[t].0.as_str(), keys[t - 1].0.as_str())
        };
        let ghost k = keys@[t as int].0@;
        assert(texts@[idx as int]@ == k);
        if fresh {
            let ghost before = out@;
            proof {
                if t > 0 {
                    let last = texts@[before.last() as int]@;
                    assert(!keyed_lt(keys@[t as int], keys@[t - 1]));
                    lemma_text_lt_order(last, k, k);
                    assert(text_lt(last, k));
                    assert forall|a: int| 0 <= a < before.len() implies text_lt(texts@[before[a] as int]@, k) by {
                        if a < before.len() - 1 {
                            lemma_text_lt_order(texts@[before[a] as int]@, last, k);
                        }
                    }
                }
            }
            out.push(idx);
            proof {
                assert forall|a: int, b: int| 0 <= a < b < out@.len() implies text_lt(texts@[#[trigger] out@[a] as int]@, texts@[#[trigger] out@[b] as int]@) by {
                    if b < before.len() {
                        assert(out@[a] == before[a] && out@[b] == before[b]);
                    } else {
                        assert(out@[a] == before[a]);
                    }
                }
                assert forall|q: int| 0 <= q < t + 1 implies #[trigger] at_some_position(texts@, out@, keys@[q].0@) by {
                    if q < t {
                        assert(at_some_position(texts@, before, keys@[q].0@));
                        let m = choose|m: int| 0 <= m < before.len() && texts@[#[trigger] before[m] as int]@ == keys@[q].0@;
                        assert(out@[m] == before[m]);
                    } else {
                        assert(out@[out@.len() - 1] == idx);
                    }
                }
            }
        }
        t = t + 1;
    }
    proof {
        assert forall|j: int| 0 <= j < texts@.len() implies #[trigger] at_some_position(texts@, out@, texts@[j]@) by {
            assert(orig.contains(orig[j]));
            assert(keys@.contains(orig[j]));
            let q = choose|q: int| 0 <= q < keys@.len() && keys@[q] == orig[j];
            assert(keys@[q].0@ == texts@[j]@);
            assert(at_some_position(texts@, out@, keys@[q].0@));
        }
    }
    out
}

/// Whether every source in `r` was given in `v`.
pub open spec fn all_given(v: Seq<(RootKind, String)>, r: Seq<(RootKind, String)>) -> bool {
    forall|m: int| 0 <= m < r.len() ==> #[trigger] pair_listed(v, r[m])
}

/// Whether `p` is one of `v`.
pub open spec fn pair_listed(v: Seq<(RootKind, String)>, p: (RootKind, String)) -> bool {
    exists|j: int| 0 <= j < v.len() && #[trigger] v[j] == p
}

/// Whether some source of `r` has the key `k`.
pub open spec fn key_listed(r: Seq<(RootKind, String)>, k: Seq<char>) -> bool {
    exists|m: int| 0 <= m < r.len() && pair_key(#[trigger] r[m]) == k
}

/// Whether every source given in `v` is in `r` by its key.
pub open spec fn all_kept(v: Seq<(RootKind, String)>, r: Seq<(RootKind, String)>) -> bool {
    forall|j: int| 0 <= j < v.len() ==> #[trigger] key_listed(r, pair_key(v[j]))
}

/// Whether every text in `r` was given in `v`.
pub open spec fn texts_given(v: Seq<String>, r: Seq<String>) -> bool {
    forall|m: int| 0 <= m < r.len() ==> #[trigger] text_listed(v, r[m]@)
}

/// Whether some text of `v` is `x`.
pub open spec fn text_listed(v: Seq<String>, x: Seq<char>) -> bool {
    exists|j: int| 0 <= j < v.len() && (#[trigger] v[j])@ == x
}

/// Whether every text given in `v` is in `r`.
pub open spec fn texts_kept(v: Seq<String>, r: Seq<String>) -> bool {
    forall|j: int| 0 <= j < v.len() ==> #[trigger] text_listed(r, v[j]@)
}

/// The catalog key of a root kind and relative path.
pub open spec fn pair_key(p: (RootKind, String)) -> Seq<char> {
    stored_key_spec(p.0, p.1@)
}

/// The sources to mark missing, sorted by root kind and then relative path
/// (the order of their catalog keys), each once: every source given is
/// there by its key, every one there was given, and the keys strictly
/// increase.
pub fn sorted_distinct_sources(v: &Vec<(RootKind, String)>) -> (r: Vec<(RootKind, String)>)
    ensures
        forall|a: int, b: int| 0 <= a < b < r@.len() ==> text_lt(pair_key(#[trigger] r@[a]), pair_key(#[trigger] r@[b])),
        all_given(v@, r@),
        all_kept(v@, r@),
{
    let mut keys: Vec<String> = Vec::new();
    let mut i: usize = 0;
    while i < v.len()
        invariant
            i <= v@.len(),
            keys@.len() == i,
            forall|t: int| 0 <= t < i ==> (#[trigger] keys@[t])@ == pair_key(v@[t]),
        decreases v@.len() - i,
    {
        keys.push(stored_key(v[i].0, v[i].1.as_str()));
        i = i + 1;
    }
    let positions = distinct_sorted_positions(&keys);
    let mut out: Vec<(RootKind, String)> = Vec::new();
    let mut m: usize = 0;
    while m < positions.len()
        invariant
            m <= positions@.len(),
            keys@.len() == v@.len(),
            forall|t: int| 0 <= t < v@.len() ==> (#[trigger] keys@[t])@ == pair_key(v@[t]),
            forall|x: int| 0 <= x < positions@.len() ==> #[trigger] positions@[x] < keys@.len(),
            out@.len() == m,
            forall|x: int| 0 <= x < m ==> #[trigger] out@[x] == v@[positions@[x] as int],
        decreases positions@.len() - m,
    {
        let p = positions[m];
        out.push((v[p].0, v[p].1.clone()));
        m = m + 1;
    }
    proof {
        assert forall|a: int, b: int| 0 <= a < b < out@.len() implies text_lt(pair_key(#[trigger] out@[a]), pair_key(#[trigger] out@[b])) by {
            assert(keys@[positions@[a] as int]@ == pair_key(out@[a]));
            assert(keys@[positions@[b] as int]@ == pair_key(out@[b]));
        }
        let o = out@;
        let w = v@;
        assert forall|m: int| 0 <= m < o.len() implies #[trigger] pair_listed(w, o[m]) by {
            let j = positions@[m] as int;
            assert(w[j] == o[m]);
        }
        assert(all_given(w, o));
        assert forall|j: int| 0 <= j < w.len() implies #[trigger] key_listed(o, pair_key(w[j])) by {
            assert(keys@[j]@ == pair_key(v@[j]));
            assert(at_some_position(keys@, positions@, keys@[j]@));
            let m = choose|m: int| 0 <= m < positions@.len() && keys@[#[trigger] positions@[m] as int]@ == keys@[j]@;
            assert(keys@[positions@[m] as int]@ == pair_key(out@[m]));
            assert(pair_key(out@[m]) == pair_key(v@[j]));
        }
        assert(all_kept(w, o));
    }
    out
}

/// Texts sorted in byte order, each once: every text given is there, and
/// every one there was given.
pub fn sorted_distinct_texts(v: &Vec<String>) -> (r: Vec<String>)
    ensures
        forall|a: int, b: int| 0 <= a < b < r@.len() ==> text_lt((#[trigger] r@[a])@, (#[trigger] r@[b])@),
        texts_given(v@, r@),
        texts_kept(v@, r@),
{
    let positions = distinct_sorted_positions(v);
    let mut out: Vec<String> = Vec::new();
    let mut m: usize = 0;
    while m < positions.len()
        invariant
            m <= positions@.len(),
            forall|x: int| 0 <= x < positions@.len() ==> #[trigger] positions@[x] < v@.len(),
            out@.len() == m,
            forall|x: int| 0 <= x < m ==> (#[trigger] out@[x])@ == v@[positions@[x] as int]@,
        decreases positions@.len() - m,
    {
        let p = positions[m];
        out.push(v[p].clone());
        m = m + 1;
    }
    proof {
        assert forall|a: int, b: int| 0 <= a < b < out@.len() implies text_lt((#[trigger] out@[a])@, (#[trigger] out@[b])@) by {
            assert(out@[a]@ == v@[positions@[a] as int]@);
            assert(out@[b]@ == v@[positions@[b] as int]@);
        }
        let o = out@;
        let w = v@;
        assert forall|m: int| 0 <= m < o.len() implies #[trigger] text_listed(w, o[m]@) by {
            let j = positions@[m] as int;
            assert(w[j]@ == o[m]@);
        }
        assert(texts_given(w, o));
        assert forall|j: int| 0 <= j < w.len() implies #[trigger] text_listed(o, w[j]@) by {
            assert(at_some_position(v@, positions@, v@[j]@));
            let m = choose|m: int| 0 <= m < positions@.len() && v@[#[trigger] positions@[m] as int]@ == v@[j]@;
            assert(out@[m]@ == v@[positions@[m] as int]@);
        }
        assert(texts_kept(w, o));
    }
    out
}


/// Whether one of the deleted paths takes the source at `path` away.
pub open spec fn covered_by_any(path: Seq<char>, deleted: Seq<String>) -> bool {
    exists|d: int| 0 <= d < deleted.len() && #[trigger] deleted_covers(path, deleted[d]@)
}

/// Whether a catalogued source goes with the deleted paths: one of them
/// covers it, and its session was not found again in the same batch.
pub open spec fn taken_away(entry: DiscoveredSource, deleted: Seq<String>, rediscovered: Seq<String>) -> bool {
    covered_by_any(entry.path@, deleted) && !text_listed(rediscovered, entry.session_id@)
}

/// The positions of the catalogued sources that go, among the first `upto`.
pub open spec fn removed_positions(catalog: Seq<DiscoveredSource>, deleted: Seq<String>, rediscovered: Seq<String>, upto: int) -> Seq<usize>
    decreases upto,
{
    if upto <= 0 {
        Seq::empty()
    } else if taken_away(catalog[upto - 1], deleted, rediscovered) {
        removed_positions(catalog, deleted, rediscovered, upto - 1).push((upto - 1) as usize)
    } else {
        removed_positions(catalog, deleted, rediscovered, upto - 1)
    }
}

/// Every catalogued source that a batch's deletions take away is covered by
/// a deleted path and was not found again in the batch; positions come in
/// increasing order, so none is taken twice.
pub proof fn lemma_removed_only_covered(catalog: Seq<DiscoveredSource>, deleted: Seq<String>, rediscovered: Seq<String>, upto: int)
    requires
        0 <= upto <= catalog.len(),
        catalog.len() <= usize::MAX,
    ensures
        forall|m: int| 0 <= m < removed_positions(catalog, deleted, rediscovered, upto).len() ==> {
            let p = #[trigger] removed_positions(catalog, deleted, rediscovered, upto)[m];
            p < upto && covered_by_any(catalog[p as int].path@, deleted) && !text_listed(rediscovered, catalog[p as int].session_id@)
        },
        forall|a: int, b: int| 0 <= a < b < removed_positions(catalog, deleted, rediscovered, upto).len() ==>
            (#[trigger] removed_positions(catalog, deleted, rediscovered, upto)[a]) < (#[trigger] removed_positions(catalog, deleted, rediscovered, upto)[b]),
    decreases upto,
{
    if upto > 0 {
        lemma_removed_only_covered(catalog, deleted, rediscovered, upto - 1);
        let prev = removed_positions(catalog, deleted, rediscovered, upto - 1);
        let cur = removed_positions(catalog, deleted, rediscovered, upto);
        if taken_away(catalog[upto - 1], deleted, rediscovered) {
            assert(cur == prev.push((upto - 1) as usize));
            assert forall|m: int| 0 <= m < cur.len() implies {
                let p = #[trigger] cur[m];
                p < upto && covered_by_any(catalog[p as int].path@, deleted) && !text_listed(rediscovered, catalog[p as int].session_id@)
            } by {
                if m < prev.len() {
                    assert(cur[m] == prev[m]);
                }
            }
            assert forall|a: int, b: int| 0 <= a < b < cur.len() implies (#[trigger] cur[a]) < (#[trigger] cur[b]) by {
                assert(cur[a] == prev[a]);
                if b < prev.len() {
                    assert(cur[b] == prev[b]);
                }
            }
        } else {
            assert(cur == prev);
        }
    }
}

/// The files of the catalogued sources that go, among the first `upto`.
pub open spec fn removed_files(catalog: Seq<DiscoveredSource>, deleted: Seq<String>, rediscovered: Seq<String>, upto: int) -> Seq<(RootKind, String)>
    decreases upto,
{
    if upto <= 0 {
        Seq::empty()
    } else if taken_away(catalog[upto - 1], deleted, rediscovered) {
        removed_files(catalog, deleted, rediscovered, upto - 1).push(
            (catalog[upto - 1].source.root_kind, catalog[upto - 1].source.relative_path),
        )
    } else {
        removed_files(catalog, deleted, rediscovered, upto - 1)
    }
}

/// The sessions that go and have a snapshot, which therefore become
/// missing, among the first `upto`.
pub open spec fn sessions_now_missing(
    catalog: Seq<DiscoveredSource>,
    deleted: Seq<String>,
    rediscovered: Seq<String>,
    snapshots: Seq<String>,
    upto: int,
) -> Seq<String>
    decreases upto,
{
    if upto <= 0 {
        Seq::empty()
    } else {
        let rest = sessions_now_missing(catalog, deleted, rediscovered, snapshots, upto - 1);
        let e = catalog[upto - 1];
        if taken_away(e, deleted, rediscovered) && text_listed(snapshots, e.session_id@) {
            rest.push(e.session_id)
        } else {
            rest
        }
    }
}

/// What the deleted paths of one batch of watcher events take away.
#[derive(Debug)]
pub struct DeletionPlan {
    /// Positions of the catalogued sources to drop, in catalog order.
    pub removed: Vec<usize>,
    /// Sessions that become missing, in catalog order.
    pub now_missing: Vec<String>,
    /// Files to mark missing in the catalog, sorted by key, each once.
    pub mark_missing: Vec<(RootKind, String)>,
}

/// Whether `x` is one of `v`.
fn text_in(v: &Vec<String>, x: &String) -> (r: bool)
    ensures
        r == text_listed(v@, x@),
{
    let mut i: usize = 0;
    while i < v.len()
        invariant
            i <= v@.len(),
            forall|j: int| 0 <= j < i ==> (#[trigger] v@[j])@ != x@,
        decreases v@.len() - i,
    {
        if string_eq(&v[i], x) {
            return true;
        }
        i = i + 1;
    }
    false
}

/// Whether one of the deleted paths takes the source away.
fn covered_by_deleted(source: &DiscoveredSource, deleted: &Vec<String>) -> (r: bool)
    ensures
        r == covered_by_any(source.path@, deleted@),
{
    let mut i: usize = 0;
    while i < deleted.len()
        invariant
            i <= deleted@.len(),
            forall|j: int| 0 <= j < i ==> !#[trigger] deleted_covers(source.path@, deleted@[j]@),
        decreases deleted@.len() - i,
    {
        if deletion_covers(source, deleted[i].as_str()) {
            return true;
        }
        i = i + 1;
    }
    false
}

/// Decides what the deleted paths of one batch of watcher events take away.
/// A catalogued source goes when a deleted path is its file or a directory
/// it lies in, unless its session was found again in the same batch; a
/// session that goes becomes missing when it has a snapshot. The files to
/// mark missing are the deleted rollout files themselves (`deleted_files`)
/// and those of the sources that go, sorted by key and each once.
pub fn plan_deletions(
    catalog: &Vec<DiscoveredSource>,
    deleted: &Vec<String>,
    deleted_files: &Vec<(RootKind, String)>,
    rediscovered: &Vec<String>,
    snapshots: &Vec<String>,
) -> (r: DeletionPlan)
    ensures
        r.removed@ == removed_positions(catalog@, deleted@, rediscovered@, catalog@.len() as int),
        r.now_missing@ == sessions_now_missing(catalog@, deleted@, rediscovered@, snapshots@, catalog@.len() as int),
        forall|a: int, b: int| 0 <= a < b < r.mark_missing@.len() ==> text_lt(pair_key(#[trigger] r.mark_missing@[a]), pair_key(#[trigger] r.mark_missing@[b])),
        all_given(deleted_files@ + removed_files(catalog@, deleted@, rediscovered@, catalog@.len() as int), r.mark_missing@),
        all_kept(deleted_files@ + removed_files(catalog@, deleted@, rediscovered@, catalog@.len() as int), r.mark_missing@),
{
    let mut removed: Vec<usize> = Vec::new();
    let mut now_missing: Vec<String> = Vec::new();
    let mut files: Vec<(RootKind, String)> = Vec::new();
    let mut k: usize = 0;
    while k < deleted_files.len()
        invariant
            k <= deleted_files@.len(),
            files@ == deleted_files@.take(k as int),
        decreases deleted_files@.len() - k,
    {
        files.push((deleted_files[k].0, deleted_files[k].1.clone()));
        assert(files@ =~= deleted_files@.take(k + 1));
        k = k + 1;
    }
    assert(deleted_files@.take(deleted_files@.len() as int) =~= deleted_files@);
    let mut i: usize = 0;
    while i < catalog.len()
        invariant
            i <= catalog@.len(),
            removed@ == removed_positions(catalog@, deleted@, rediscovered@, i as int),
            now_missing@ == sessions_now_missing(catalog@, deleted@, rediscovered@, snapshots@, i as int),
            files@ == deleted_files@ + removed_files(catalog@, deleted@, rediscovered@, i as int),
        decreases catalog@.len() - i,
    {
        let e = &catalog[i];
        if covered_by_deleted(e, deleted) && !text_in(rediscovered, &e.session_id) {
            removed.push(i);
            files.push((e.source.root_kind, e.source.relative_path.clone()));
            if text_in(snapshots, &e.session_id) {
                now_missing.push(e.session_id.clone());
            }
        }
        i = i + 1;
    }
    let mark_missing = sorted_distinct_sources(&files);
    DeletionPlan { removed, now_missing, mark_missing }
}


/// The catalog's source for session `id`: the last one listed with it.
pub open spec fn catalog_source(catalog: Seq<DiscoveredSource>, id: Seq<char>) -> Option<DiscoveredSource>
    decreases catalog.len(),
{
    if catalog.len() == 0 {
        None
    } else if catalog.last().session_id@ == id {
        Some(catalog.last())
    } else {
        catalog_source(catalog.drop_last(), id)
    }
}

/// The source holding session `id`'s place once the first `taken.len()`
/// sources of a batch were seen, `taken` saying which of them took their
/// session's place: the last of those with the session, else the catalog's.
pub open spec fn holder(catalog: Seq<DiscoveredSource>, batch: Seq<DiscoveredSource>, taken: Seq<bool>, id: Seq<char>) -> Option<DiscoveredSource>
    decreases taken.len(),
{
    if taken.len() == 0 {
        catalog_source(catalog, id)
    } else if taken.last() && batch[taken.len() - 1].session_id@ == id {
        Some(batch[taken.len() - 1])
    } else {
        holder(catalog, batch, taken.drop_last(), id)
    }
}

/// Which of the first `n` rediscovered sources take their session's place,
/// each against the one holding it when it is seen.
pub open spec fn batch_taken(catalog: Seq<DiscoveredSource>, batch: Seq<DiscoveredSource>, n: nat) -> Seq<bool>
    decreases n,
{
    if n == 0 {
        Seq::empty()
    } else {
        let taken = batch_taken(catalog, batch, (n - 1) as nat);
        taken.push(takes_catalog_place(batch[n - 1], holder(catalog, batch, taken, batch[n - 1].session_id@)))
    }
}

/// What becomes of one rediscovered source.
#[derive(Debug)]
pub struct RediscoveryDecision {
    /// It takes its session's place in the catalog.
    pub takes_place: bool,
    /// The catalog already holds its file as it is now, so it is not scanned.
    pub current: bool,
    /// How fresh its session is.
    pub freshness: SessionFreshness,
    /// The catalogued file that comes back with it, when it was marked missing.
    pub returning: Option<(RootKind, String)>,
}

/// The decision for a rediscovered source, given whether it takes its
/// session's place: one that does not is left alone; one that does is
/// current when the catalog holds its file as it is now (and its file comes
/// back when it was marked missing), else it is scanned, and its session is
/// stale when it has a snapshot, else being checked.
pub open spec fn rediscovery_spec(stored: Seq<StoredSource>, snapshots: Seq<String>, d: DiscoveredSource, taken: bool) -> (
    bool,
    bool,
    SessionFreshness,
    Option<(RootKind, Seq<char>)>,
) {
    let f = stored_for(stored, source_key_of(d));
    let current = f is Some && metadata_matches_spec(f->0, d);
    if !taken {
        (false, false, SessionFreshness::Checking, None)
    } else {
        (
            true,
            current,
            if current {
                SessionFreshness::Current
            } else if text_listed(snapshots, d.session_id@) {
                SessionFreshness::Stale
            } else {
                SessionFreshness::Checking
            },
            if current && f->0.scan_state@ == "source_missing"@ { Some((f->0.root_kind, f->0.relative_path@)) } else { None },
        )
    }
}

/// A decision as plain values.
pub open spec fn decision_view(d: RediscoveryDecision) -> (bool, bool, SessionFreshness, Option<(RootKind, Seq<char>)>) {
    (
        d.takes_place,
        d.current,
        d.freshness,
        match d.returning {
            Some(p) => Some((p.0, p.1@)),
            None => None,
        },
    )
}

/// Where the source holding a session's place is: in the batch (`true`) or
/// in the catalog (`false`), at the position given.
fn holder_position(catalog: &Vec<DiscoveredSource>, batch: &Vec<DiscoveredSource>, taken: &Vec<bool>, id: &String) -> (r: Option<(bool, usize)>)
    requires
        taken@.len() <= batch@.len(),
    ensures
        match holder(catalog@, batch@, taken@, id@) {
            Some(h) => r matches Some(p) && (if p.0 {
                p.1 < batch@.len() && batch@[p.1 as int] == h
            } else {
                p.1 < catalog@.len() && catalog@[p.1 as int] == h
            }),
            None => r is None,
        },
{
    assert(taken@.take(taken@.len() as int) =~= taken@);
    let mut j: usize = taken.len();
    while j > 0
        invariant
            j <= taken@.len(),
            taken@.len() <= batch@.len(),
            holder(catalog@, batch@, taken@, id@) == holder(catalog@, batch@, taken@.take(j as int), id@),
        decreases j,
    {
        j = j - 1;
        proof {
            assert(taken@.take(j + 1).drop_last() =~= taken@.take(j as int));
            assert(taken@.take(j + 1).last() == taken@[j as int]);
        }
        if taken[j] && string_eq(&batch[j].session_id, id) {
            return Some((true, j));
        }
    }
    assert(taken@.take(0) =~= Seq::<bool>::empty());
    assert(catalog@.take(catalog@.len() as int) =~= catalog@);
    let mut c: usize = catalog.len();
    while c > 0
        invariant
            c <= catalog@.len(),
            holder(catalog@, batch@, taken@, id@) == catalog_source(catalog@.take(c as int), id@),
        decreases c,
    {
        c = c - 1;
        proof {
            assert(catalog@.take(c + 1).drop_last() =~= catalog@.take(c as int));
            assert(catalog@.take(c + 1).last() == catalog@[c as int]);
        }
        if string_eq(&catalog[c].session_id, id) {
            return Some((false, c));
        }
    }
    None
}

/// Decides, for each source rediscovered from the watcher's paths in order,
/// whether it takes its session's place in the catalog, whether the catalog
/// already holds its file as it is now, how fresh its session is, and which
/// catalogued file comes back with it. A source takes the place when the
/// session has none yet, when it is the same file, or when it should
/// represent the session rather than the one there; a source seen earlier
/// in the same batch counts as being there.
pub fn plan_rediscovered(
    catalog: &Vec<DiscoveredSource>,
    batch: &Vec<DiscoveredSource>,
    stored: &Vec<StoredSource>,
    snapshots: &Vec<String>,
) -> (r: Vec<RediscoveryDecision>)
    ensures
        r@.len() == batch@.len(),
        forall|i: int| 0 <= i < batch@.len() ==> decision_view(#[trigger] r@[i]) == rediscovery_spec(
            stored@,
            snapshots@,
            batch@[i],
            batch_taken(catalog@, batch@, batch@.len() as nat)[i],
        ),
{
    let mut taken: Vec<bool> = Vec::new();
    let mut out: Vec<RediscoveryDecision> = Vec::new();
    let mut i: usize = 0;
    while i < batch.len()
        invariant
            i <= batch@.len(),
            taken@ == batch_taken(catalog@, batch@, i as nat),
            taken@.len() == i,
            out@.len() == i,
            forall|j: int| 0 <= j < i ==> decision_view(#[trigger] out@[j]) == rediscovery_spec(stored@, snapshots@, batch@[j], taken@[j]),
        decreases batch@.len() - i,
    {
        let d = &batch[i];
        let pos = holder_position(catalog, batch, &taken, &d.session_id);
        let existing: Option<&DiscoveredSource> = match pos {
            Some(p) => if p.0 { Some(&batch[p.1]) } else { Some(&catalog[p.1]) },
            None => None,
        };
        let place = takes_place(d, existing);
        let ghost before = taken@;
        taken.push(place);
        assert(taken@ == batch_taken(catalog@, batch@, (i + 1) as nat));
        let decision = if !place {
            RediscoveryDecision { takes_place: false, current: false, freshness: SessionFreshness::Checking, returning: None }
        } else {
            let key = source_key(d);
            let found = find_stored(stored, key.as_str());
            let current = match found {
                Some(k) => metadata_matches(&stored[k], d),
                None => false,
            };
            let freshness = if current {
                SessionFreshness::Current
            } else if text_in(snapshots, &d.session_id) {
                SessionFreshness::Stale
            } else {
                SessionFreshness::Checking
            };
            let returning = match found {
                Some(k) => if current && str_eq(stored[k].scan_state.as_str(), "source_missing") {
                    Some((stored[k].root_kind, stored[k].relative_path.clone()))
                } else {
                    None
                },
                None => None,
            };
            RediscoveryDecision { takes_place: true, current, freshness, returning }
        };
        out.push(decision);
        proof {
            assert forall|j: int| 0 <= j < i + 1 implies decision_view(#[trigger] out@[j]) == rediscovery_spec(
                stored@,
                snapshots@,
                batch@[j],
                taken@[j],
            ) by {
                if j < i {
                    assert(taken@[j] == before[j]);
                }
            }
        }
        i = i + 1;
    }
    out
}

} // verus!
