//! Choosing one source per session among the rollout files found on disk.

use vstd::prelude::*;

use crate::index::policy::InitialIndexPolicy;
use crate::index::sources::{precedes_spec, source_precedes, DiscoveredSource, Discovery, DiscoveryIssue};
use crate::index::work::ns_to_micros;
use crate::rollout::types::RootKind;
use crate::text::{lemma_text_lt_order, str_lt, string_eq, text_lt};
use crate::index::report::sat_add;

verus! {

/// Whether two found sources are the same file in the same state, whatever
/// duplicates they list.
pub open spec fn same_file(a: DiscoveredSource, b: DiscoveredSource) -> bool {
    a.root == b.root && a.path == b.path && a.session_id == b.session_id
        && a.created_at_micros == b.created_at_micros && a.source == b.source
}

/// Which file represents a session is a strict order.
pub proof fn lemma_precedes_order(a: &DiscoveredSource, b: &DiscoveredSource, c: &DiscoveredSource)
    ensures
        !precedes_spec(a, a),
        precedes_spec(a, b) && precedes_spec(b, c) ==> precedes_spec(a, c),
{
    lemma_text_lt_order(a.source.relative_path@, b.source.relative_path@, c.source.relative_path@);
}

/// Whether `a` is listed before `b` after discovery: the newer file first,
/// then the later-created session, then the smaller session id, then the
/// smaller relative path.
pub open spec fn listed_first(a: DiscoveredSource, b: DiscoveredSource) -> bool {
    if a.source.mtime_ns != b.source.mtime_ns {
        a.source.mtime_ns > b.source.mtime_ns
    } else if a.created_at_micros != b.created_at_micros {
        a.created_at_micros > b.created_at_micros
    } else if a.session_id@ != b.session_id@ {
        text_lt(a.session_id@, b.session_id@)
    } else {
        text_lt(a.source.relative_path@, b.source.relative_path@)
    }
}

fn is_listed_first(a: &DiscoveredSource, b: &DiscoveredSource) -> (r: bool)
    ensures
        r == listed_first(*a, *b),
{
    if a.source.mtime_ns != b.source.mtime_ns {
        a.source.mtime_ns > b.source.mtime_ns
    } else if a.created_at_micros != b.created_at_micros {
        a.created_at_micros > b.created_at_micros
    } else if !string_eq(&a.session_id, &b.session_id) {
        str_lt(a.session_id.as_str(), b.session_id.as_str())
    } else {
        str_lt(a.source.relative_path.as_str(), b.source.relative_path.as_str())
    }
}

proof fn lemma_listed_first_order(a: DiscoveredSource, b: DiscoveredSource, c: DiscoveredSource)
    ensures
        !listed_first(a, a),
        !listed_first(a, b) && !listed_first(b, c) ==> !listed_first(a, c),
        listed_first(a, b) ==> !listed_first(b, a),
{
    lemma_text_lt_order(a.session_id@, b.session_id@, c.session_id@);
    lemma_text_lt_order(c.session_id@, b.session_id@, a.session_id@);
    lemma_text_lt_order(b.session_id@, a.session_id@, b.session_id@);
    lemma_text_lt_order(a.source.relative_path@, b.source.relative_path@, c.source.relative_path@);
    lemma_text_lt_order(c.source.relative_path@, b.source.relative_path@, a.source.relative_path@);
    lemma_text_lt_order(b.source.relative_path@, a.source.relative_path@, b.source.relative_path@);
    lemma_text_lt_order(a.source.relative_path@, c.source.relative_path@, a.source.relative_path@);
    lemma_text_lt_order(a.session_id@, c.session_id@, a.session_id@);
}

/// Whether a list is in discovery order.
pub open spec fn listed_in_order(v: Seq<DiscoveredSource>) -> bool {
    forall|i: int, j: int| 0 <= i < j < v.len() ==> !listed_first(#[trigger] v[j], #[trigger] v[i])
}

/// Whether every element of `a` is in `b`.
pub open spec fn kept_in(a: Seq<DiscoveredSource>, b: Seq<DiscoveredSource>) -> bool {
    forall|i: int| 0 <= i < a.len() ==> b.contains(#[trigger] a[i])
}

proof fn lemma_kept_trans(a: Seq<DiscoveredSource>, b: Seq<DiscoveredSource>, c: Seq<DiscoveredSource>)
    requires
        kept_in(a, b),
        kept_in(b, c),
    ensures
        kept_in(a, c),
{
    assert forall|i: int| 0 <= i < a.len() implies c.contains(#[trigger] a[i]) by {
        let k = choose|k: int| 0 <= k < b.len() && b[k] == a[i];
        assert(c.contains(b[k]));
    }
}

proof fn lemma_move_kept(before: Seq<DiscoveredSource>, i: int, j: int)
    requires
        0 <= j <= i < before.len(),
    ensures
        kept_in(before, before.remove(i).insert(j, before[i])),
        kept_in(before.remove(i).insert(j, before[i]), before),
        before.remove(i).insert(j, before[i]).len() == before.len(),
{
    let mid = before.remove(i);
    let after = mid.insert(j, before[i]);
    assert forall|k: int| 0 <= k < before.len() implies after.contains(#[trigger] before[k]) by {
        if k == i {
            assert(after[j] == before[i]);
        } else if k < i {
            assert(mid[k] == before[k]);
            if k < j { assert(after[k] == mid[k]); } else { assert(after[k + 1] == mid[k]); }
        } else {
            assert(mid[k - 1] == before[k]);
            if k - 1 < j { assert(after[k - 1] == mid[k - 1]); } else { assert(after[k] == mid[k - 1]); }
        }
    }
    assert forall|k: int| 0 <= k < after.len() implies before.contains(#[trigger] after[k]) by {
        if k == j {
            assert(before[i] == after[k]);
        } else {
            let m = if k < j { k } else { k - 1 };
            assert(after[k] == mid[m]);
            if m < i { assert(mid[m] == before[m]); } else { assert(mid[m] == before[m + 1]); }
        }
    }
}

proof fn lemma_move_sorted(before: Seq<DiscoveredSource>, i: int, j: int)
    requires
        0 <= j <= i < before.len(),
        forall|a: int, b: int| 0 <= a < b < i ==> !listed_first(#[trigger] before[b], #[trigger] before[a]),
        j > 0 ==> !listed_first(before[i], before[j - 1]),
        forall|k: int| j <= k < i ==> listed_first(before[i], #[trigger] before[k]),
    ensures
        forall|a: int, b: int| 0 <= a < b < i + 1 ==> !listed_first(
            #[trigger] before.remove(i).insert(j, before[i])[b],
            #[trigger] before.remove(i).insert(j, before[i])[a],
        ),
{
    let x = before[i];
    let mid = before.remove(i);
    let after = mid.insert(j, x);
    assert forall|a: int, b: int| 0 <= a < b < i + 1 implies !listed_first(#[trigger] after[b], #[trigger] after[a]) by {
        if b < j {
            assert(after[a] == before[a] && after[b] == before[b]);
        } else if b == j {
            assert(after[b] == x);
            assert(after[a] == before[a]);
            lemma_listed_first_order(x, before[j - 1], before[a]);
        } else if a == j {
            assert(after[a] == x);
            assert(after[b] == before[b - 1]);
            lemma_listed_first_order(x, before[b - 1], x);
        } else if a < j {
            assert(after[a] == before[a]);
            assert(after[b] == before[b - 1]);
        } else {
            assert(after[a] == before[a - 1]);
            assert(after[b] == before[b - 1]);
        }
    }
}

/// Whether no two sources carry the same session.
pub open spec fn distinct_sessions(v: Seq<DiscoveredSource>) -> bool {
    forall|a: int, b: int| 0 <= a < b < v.len() ==> (#[trigger] v[a]).session_id@ != (#[trigger] v[b]).session_id@
}

proof fn lemma_move_distinct(before: Seq<DiscoveredSource>, i: int, j: int)
    requires
        0 <= j <= i < before.len(),
        distinct_sessions(before),
    ensures
        distinct_sessions(before.remove(i).insert(j, before[i])),
{
    let mid = before.remove(i);
    let after = mid.insert(j, before[i]);
    let pos = |k: int| if k == j { i } else {
        let m = if k < j { k } else { k - 1 };
        if m < i { m } else { m + 1 }
    };
    assert forall|k: int| 0 <= k < after.len() implies #[trigger] after[k] == before[pos(k)] && 0 <= pos(k) < before.len() by {
        if k != j {
            let m = if k < j { k } else { k - 1 };
            assert(after[k] == mid[m]);
        }
    }
    assert forall|a: int, b: int| 0 <= a < b < after.len() implies (#[trigger] after[a]).session_id@ != (#[trigger] after[b]).session_id@ by {
        assert(after[a] == before[pos(a)]);
        assert(after[b] == before[pos(b)]);
        assert(pos(a) != pos(b));
        if pos(a) < pos(b) {
            assert(before[pos(a)].session_id@ != before[pos(b)].session_id@);
        } else {
            assert(before[pos(b)].session_id@ != before[pos(a)].session_id@);
        }
    }
}

/// Sorts sources into discovery order by insertion; the same sources stay.
fn sort_discovered(v: &mut Vec<DiscoveredSource>)
    ensures
        final(v)@.len() == old(v)@.len(),
        distinct_sessions(old(v)@) ==> distinct_sessions(final(v)@),
        kept_in(old(v)@, final(v)@),
        kept_in(final(v)@, old(v)@),
        listed_in_order(final(v)@),
{
    assert forall|k: int| 0 <= k < v@.len() implies v@.contains(#[trigger] v@[k]) by {}
    if v.len() == 0 {
        return;
    }
    let mut i: usize = 1;
    while i < v.len()
        invariant
            1 <= i <= v@.len(),
            v@.len() == old(v)@.len(),
            kept_in(old(v)@, v@),
            kept_in(v@, old(v)@),
            distinct_sessions(old(v)@) ==> distinct_sessions(v@),
            forall|a: int, b: int| 0 <= a < b < i ==> !listed_first(#[trigger] v@[b], #[trigger] v@[a]),
        decreases v@.len() - i,
    {
        let ghost before = v@;
        let x = v.remove(i);
        let mut j: usize = i;
        while j > 0 && is_listed_first(&x, &v[j - 1])
            invariant
                j <= i,
                i <= v@.len(),
                v@ == before.remove(i as int),
                x == before[i as int],
                i < before.len(),
                forall|k: int| j <= k < i ==> listed_first(x, #[trigger] before[k]),
            decreases j,
        {
            assert(v@[j - 1] == before[j - 1]);
            j = j - 1;
        }
        proof {
            if j > 0 {
                assert(v@[j - 1] == before[j - 1]);
            }
            lemma_move_kept(before, i as int, j as int);
            lemma_move_sorted(before, i as int, j as int);
            if distinct_sessions(old(v)@) {
                lemma_move_distinct(before, i as int, j as int);
            }
        }
        v.insert(j, x);
        proof {
            lemma_kept_trans(old(v)@, before, v@);
            lemma_kept_trans(v@, before, old(v)@);
        }
        i = i + 1;
    }
}

/// Whether `w` represents its session among `found`: it is one of the found
/// files, and no found file of its session precedes it.
pub open spec fn represents(found: Seq<DiscoveredSource>, w: DiscoveredSource) -> bool {
    &&& exists|k: int| 0 <= k < found.len() && same_file(#[trigger] found[k], w)
    &&& forall|k: int| 0 <= k < found.len() && (#[trigger] found[k]).session_id@ == w.session_id@ ==> !precedes_spec(&found[k], &w)
}

/// Whether some source in `v` carries session `id`.
pub open spec fn has_session(v: Seq<DiscoveredSource>, id: Seq<char>) -> bool {
    exists|i: int| 0 <= i < v.len() && (#[trigger] v[i]).session_id@ == id
}

fn find_session(winners: &Vec<DiscoveredSource>, id: &String) -> (r: Option<usize>)
    ensures
        r matches Some(j) ==> j < winners@.len() && winners@[j as int].session_id@ == id@,
        r is None ==> !has_session(winners@, id@),
{
    let mut j: usize = 0;
    while j < winners.len()
        invariant
            j <= winners@.len(),
            forall|i: int| 0 <= i < j ==> (#[trigger] winners@[i]).session_id@ != id@,
        decreases winners@.len() - j,
    {
        if string_eq(&winners[j].session_id, id) {
            return Some(j);
        }
        j = j + 1;
    }
    None
}

/// Relative paths as text.
pub open spec fn paths_view(v: Seq<String>) -> Seq<Seq<char>> {
    v.map_values(|p: String| p@)
}

/// The relative path of a source followed by those of its duplicates.
pub open spec fn source_paths(w: DiscoveredSource) -> Seq<Seq<char>> {
    seq![w.source.relative_path@] + paths_view(w.duplicate_paths@)
}

/// The relative paths of the found files of session `sid`, in order.
pub open spec fn session_paths(found: Seq<DiscoveredSource>, sid: Seq<char>) -> Seq<Seq<char>>
    decreases found.len(),
{
    if found.len() == 0 {
        Seq::empty()
    } else if found.last().session_id@ == sid {
        session_paths(found.drop_last(), sid).push(found.last().source.relative_path@)
    } else {
        session_paths(found.drop_last(), sid)
    }
}

/// Whether no found file lists duplicates yet.
pub open spec fn lists_no_duplicates(found: Seq<DiscoveredSource>) -> bool {
    forall|k: int| 0 <= k < found.len() ==> (#[trigger] found[k]).duplicate_paths@.len() == 0
}

proof fn lemma_session_paths_absent(found: Seq<DiscoveredSource>, sid: Seq<char>)
    requires
        forall|q: int| 0 <= q < found.len() ==> (#[trigger] found[q]).session_id@ != sid,
    ensures
        session_paths(found, sid) == Seq::<Seq<char>>::empty(),
    decreases found.len(),
{
    if found.len() > 0 {
        assert(found.last() == found[found.len() - 1]);
        assert forall|q: int| 0 <= q < found.drop_last().len() implies (#[trigger] found.drop_last()[q]).session_id@ != sid by {
            assert(found.drop_last()[q] == found[q]);
        }
        lemma_session_paths_absent(found.drop_last(), sid);
    }
}

/// Merging a newly found file of the same session into a source adds its
/// path to the paths the source accounts for.
proof fn lemma_merge_paths(src: DiscoveredSource, cur: DiscoveredSource, merged: DiscoveredSource, replaced: bool)
    requires
        src.duplicate_paths@.len() == 0,
        replaced ==> merged.source.relative_path@ == src.source.relative_path@ && merged.duplicate_paths@
            == src.duplicate_paths@ + cur.duplicate_paths@.push(cur.source.relative_path),
        !replaced ==> merged.source.relative_path@ == cur.source.relative_path@ && merged.duplicate_paths@
            == cur.duplicate_paths@.push(src.source.relative_path),
    ensures
        source_paths(merged).to_multiset() == source_paths(cur).to_multiset().insert(src.source.relative_path@),
{
    broadcast use vstd::seq_lib::lemma_multiset_commutative;
    let cp = paths_view(cur.duplicate_paths@);
    if replaced {
        assert(paths_view(merged.duplicate_paths@) =~= cp.push(cur.source.relative_path@));
        assert(source_paths(merged) =~= seq![src.source.relative_path@] + cp.push(cur.source.relative_path@));
        assert(source_paths(cur) =~= seq![cur.source.relative_path@] + cp);
        cp.to_multiset_ensures();
        seq![src.source.relative_path@].to_multiset_ensures();
        seq![cur.source.relative_path@].to_multiset_ensures();
        Seq::<Seq<char>>::empty().to_multiset_ensures();
        assert(seq![src.source.relative_path@] =~= Seq::<Seq<char>>::empty().push(src.source.relative_path@));
        assert(seq![cur.source.relative_path@] =~= Seq::<Seq<char>>::empty().push(cur.source.relative_path@));
        assert(source_paths(merged).to_multiset() =~= source_paths(cur).to_multiset().insert(src.source.relative_path@));
    } else {
        assert(paths_view(merged.duplicate_paths@) =~= cp.push(src.source.relative_path@));
        assert(source_paths(merged) =~= source_paths(cur).push(src.source.relative_path@));
        source_paths(cur).to_multiset_ensures();
    }
}

/// One source per session among the files found: for each session the file
/// no other file of the session precedes, listing the other files'
/// relative paths as duplicates.
pub fn choose_winners(found: Vec<DiscoveredSource>) -> (r: Vec<DiscoveredSource>)
    ensures
        distinct_sessions(r@),
        forall|i: int| 0 <= i < r@.len() ==> represents(found@, #[trigger] r@[i]),
        forall|k: int| 0 <= k < found@.len() ==> has_session(r@, #[trigger] found@[k].session_id@),
        lists_no_duplicates(found@) ==> forall|i: int| 0 <= i < r@.len() ==> (#[trigger] source_paths(r@[i])).to_multiset()
            == session_paths(found@, r@[i].session_id@).to_multiset(),
{
    let ghost all = found@;
    let n = found.len();
    let mut rest = found;
    let mut stack: Vec<DiscoveredSource> = Vec::new();
    while rest.len() > 0
        invariant
            rest@.len() + stack@.len() == n,
            n == all.len(),
            rest@ == all.take(rest@.len() as int),
            forall|i: int| 0 <= i < stack@.len() ==> #[trigger] stack@[i] == all[n - 1 - i],
        decreases rest@.len(),
    {
        let s = rest.pop().unwrap();
        stack.push(s);
    }
    let mut winners: Vec<DiscoveredSource> = Vec::new();
    let mut k: usize = 0;
    while stack.len() > 0
        invariant
            k + stack@.len() == n,
            n == all.len(),
            forall|i: int| 0 <= i < stack@.len() ==> #[trigger] stack@[i] == all[n - 1 - i],
            distinct_sessions(winners@),
            forall|i: int| 0 <= i < winners@.len() ==> represents(all.take(k as int), #[trigger] winners@[i]),
            forall|q: int| 0 <= q < k ==> has_session(winners@, #[trigger] all[q].session_id@),
            lists_no_duplicates(all) ==> forall|i: int| 0 <= i < winners@.len() ==> (#[trigger] source_paths(winners@[i])).to_multiset()
                == session_paths(all.take(k as int), winners@[i].session_id@).to_multiset(),
        decreases stack@.len(),
    {
        let src = stack.pop().unwrap();
        assert(src == all[k as int]);
        let ghost seen = all.take(k as int);
        let ghost next = all.take(k + 1);
        assert(next =~= seen.push(src));
        let ghost old_w = winners@;
        proof {
            lemma_precedes_order(&src, &src, &src);
            assert(next.drop_last() =~= seen);
            assert(next.last() == src);
        }
        match find_session(&winners, &src.session_id) {
            None => {
                winners.push(src);
                proof {
                    if lists_no_duplicates(all) {
                        assert forall|i: int| 0 <= i < winners@.len() implies (#[trigger] source_paths(winners@[i])).to_multiset()
                            == session_paths(next, winners@[i].session_id@).to_multiset() by {
                            if i < old_w.len() {
                                assert(winners@[i] == old_w[i]);
                                assert(old_w[i].session_id@ != src.session_id@);
                            } else {
                                assert(winners@[i] == src);
                                assert(src.duplicate_paths@.len() == 0);
                                assert forall|q: int| 0 <= q < seen.len() implies (#[trigger] seen[q]).session_id@ != src.session_id@ by {
                                    assert(has_session(old_w, seen[q].session_id@));
                                }
                                lemma_session_paths_absent(seen, src.session_id@);
                                assert(source_paths(src) =~= Seq::<Seq<char>>::empty().push(src.source.relative_path@));
                            }
                        }
                    }
                    assert forall|i: int| 0 <= i < winners@.len() implies represents(next, #[trigger] winners@[i]) by {
                        if i < old_w.len() {
                            let w = old_w[i];
                            let kk = choose|kk: int| 0 <= kk < seen.len() && same_file(#[trigger] seen[kk], w);
                            assert(next[kk] == seen[kk]);
                            assert forall|q: int| 0 <= q < next.len() && (#[trigger] next[q]).session_id@ == w.session_id@ implies !precedes_spec(&next[q], &w) by {
                                if q == k {
                                    assert(has_session(old_w, w.session_id@));
                                }
                            }
                        } else {
                            assert(same_file(next[k as int], winners@[i]));
                            assert forall|q: int| 0 <= q < next.len() && (#[trigger] next[q]).session_id@ == winners@[i].session_id@ implies !precedes_spec(&next[q], &winners@[i]) by {
                                if q < k {
                                    assert(has_session(old_w, seen[q].session_id@));
                                }
                            }
                        }
                    }
                    assert forall|q: int| 0 <= q < k + 1 implies has_session(winners@, #[trigger] all[q].session_id@) by {
                        if q < k {
                            let i = choose|i: int| 0 <= i < old_w.len() && (#[trigger] old_w[i]).session_id@ == all[q].session_id@;
                            assert(winners@[i] == old_w[i]);
                        } else {
                            assert(winners@[old_w.len() as int] == src);
                        }
                    }
                    assert forall|a: int, b: int| 0 <= a < b < winners@.len() implies (#[trigger] winners@[a]).session_id@ != (#[trigger] winners@[b]).session_id@ by {
                        if b == old_w.len() {
                            assert(winners@[a] == old_w[a]);
                        }
                    }
                }
            },
            Some(j) => {
                let mut current = winners.remove(j);
                assert(current == old_w[j as int]);
                let ghost cur0 = current;
                let ghost src0 = src;
                let replaced = source_precedes(&src, &current);
                let merged = if replaced {
                    let mut replacement = src;
                    replacement.duplicate_paths.append(&mut current.duplicate_paths);
                    replacement.duplicate_paths.push(current.source.relative_path);
                    replacement
                } else {
                    current.duplicate_paths.push(src.source.relative_path);
                    current
                };
                winners.insert(j, merged);
                proof {
                    assert(winners@ =~= old_w.update(j as int, merged));
                    if lists_no_duplicates(all) {
                        assert(src0.duplicate_paths@.len() == 0);
                        lemma_merge_paths(src0, cur0, merged, replaced);
                        assert(cur0.session_id@ == src0.session_id@);
                        assert forall|i: int| 0 <= i < winners@.len() implies (#[trigger] source_paths(winners@[i])).to_multiset()
                            == session_paths(next, winners@[i].session_id@).to_multiset() by {
                            if i != j {
                                assert(winners@[i] == old_w[i]);
                                if i < j {
                                    assert(old_w[i].session_id@ != old_w[j as int].session_id@);
                                } else {
                                    assert(old_w[j as int].session_id@ != old_w[i].session_id@);
                                }
                            } else {
                                session_paths(seen, src0.session_id@).to_multiset_ensures();
                            }
                        }
                    }
                    let cur = old_w[j as int];
                    if replaced {
                        assert(same_file(merged, src));
                    } else {
                        assert(same_file(merged, cur));
                    }
                    assert forall|i: int| 0 <= i < winners@.len() implies represents(next, #[trigger] winners@[i]) by {
                        if i != j {
                            let w = old_w[i];
                            let kk = choose|kk: int| 0 <= kk < seen.len() && same_file(#[trigger] seen[kk], w);
                            assert(next[kk] == seen[kk]);
                            assert forall|q: int| 0 <= q < next.len() && (#[trigger] next[q]).session_id@ == w.session_id@ implies !precedes_spec(&next[q], &w) by {
                                if q == k {
                                    if i < j {
                                        assert(old_w[i].session_id@ != old_w[j as int].session_id@);
                                    } else {
                                        assert(old_w[j as int].session_id@ != old_w[i].session_id@);
                                    }
                                }
                            }
                        } else if replaced {
                            assert(same_file(next[k as int], merged));
                            assert forall|q: int| 0 <= q < next.len() && (#[trigger] next[q]).session_id@ == merged.session_id@ implies !precedes_spec(&next[q], &merged) by {
                                if q < k {
                                    assert(!precedes_spec(&seen[q], &cur));
                                    lemma_precedes_order(&seen[q], &src, &cur);
                                }
                            }
                        } else {
                            let kk = choose|kk: int| 0 <= kk < seen.len() && same_file(#[trigger] seen[kk], cur);
                            assert(next[kk] == seen[kk]);
                            assert(same_file(next[kk], merged));
                            assert forall|q: int| 0 <= q < next.len() && (#[trigger] next[q]).session_id@ == merged.session_id@ implies !precedes_spec(&next[q], &merged) by {
                                if q < k {
                                    assert(!precedes_spec(&seen[q], &cur));
                                }
                            }
                        }
                    }
                    assert forall|q: int| 0 <= q < k + 1 implies has_session(winners@, #[trigger] all[q].session_id@) by {
                        if q < k {
                            let i = choose|i: int| 0 <= i < old_w.len() && (#[trigger] old_w[i]).session_id@ == all[q].session_id@;
                            if i != j {
                                assert(winners@[i] == old_w[i]);
                            } else {
                                assert(winners@[i].session_id@ == old_w[i].session_id@);
                            }
                        } else {
                            assert(winners@[j as int].session_id@ == src.session_id@);
                        }
                    }
                    assert forall|a: int, b: int| 0 <= a < b < winners@.len() implies (#[trigger] winners@[a]).session_id@ != (#[trigger] winners@[b]).session_id@ by {
                        assert(winners@[a].session_id@ == old_w[a].session_id@);
                        assert(winners@[b].session_id@ == old_w[b].session_id@);
                    }
                }
            },
        }
        k = k + 1;
    }
    assert(all.take(n as int) =~= all);
    winners
}

/// The sizes of sources added up, saturating at `u64::MAX`.
pub open spec fn total_size(v: Seq<DiscoveredSource>) -> u64
    decreases v.len(),
{
    if v.len() == 0 { 0 } else { sat_add(total_size(v.drop_last()), v.last().source.size_bytes) }
}

/// Whether the window leaves a source out of the first index.
pub open spec fn outside_window(policy: InitialIndexPolicy, s: DiscoveredSource) -> bool {
    !policy.includes_spec(ns_to_micros(s.source.mtime_ns))
}

/// The files and bytes the window leaves out, saturating at `u64::MAX`.
pub open spec fn excluded_totals(policy: InitialIndexPolicy, v: Seq<DiscoveredSource>) -> (u64, u64)
    decreases v.len(),
{
    if v.len() == 0 {
        (0, 0)
    } else {
        let rest = excluded_totals(policy, v.drop_last());
        if outside_window(policy, v.last()) {
            (sat_add(rest.0, 1), sat_add(rest.1, v.last().source.size_bytes))
        } else {
            rest
        }
    }
}

/// The outcome of discovery from the rollout files found on disk and the
/// problems met while walking: one source per session in discovery order,
/// their total size, and, when the window disables backfill, what it leaves
/// out.
pub fn discover_sources(found: Vec<DiscoveredSource>, issues: Vec<DiscoveryIssue>, policy: InitialIndexPolicy) -> (r: Discovery)
    ensures
        distinct_sessions(r.sources@),
        forall|i: int| 0 <= i < r.sources@.len() ==> represents(found@, #[trigger] r.sources@[i]),
        forall|k: int| 0 <= k < found@.len() ==> has_session(r.sources@, #[trigger] found@[k].session_id@),
        lists_no_duplicates(found@) ==> forall|i: int| 0 <= i < r.sources@.len() ==> (#[trigger] source_paths(
            r.sources@[i],
        )).to_multiset() == session_paths(found@, r.sources@[i].session_id@).to_multiset(),
        listed_in_order(r.sources@),
        r.issues@ == issues@,
        r.total_bytes == total_size(r.sources@),
        policy.days != 0 ==> r.excluded_files == 0 && r.excluded_bytes == 0,
        policy.days == 0 ==> r.excluded_files == excluded_totals(policy, r.sources@).0
            && r.excluded_bytes == excluded_totals(policy, r.sources@).1,
{
    let winners = choose_winners(found);
    let ghost chosen = winners@;
    let mut sources = winners;
    sort_discovered(&mut sources);
    proof {
        assert forall|i: int| 0 <= i < sources@.len() implies represents(found@, #[trigger] sources@[i]) by {
            let k = choose|k: int| 0 <= k < chosen.len() && chosen[k] == sources@[i];
            assert(represents(found@, chosen[k]));
        }
        if lists_no_duplicates(found@) {
            assert forall|i: int| 0 <= i < sources@.len() implies (#[trigger] source_paths(sources@[i])).to_multiset()
                == session_paths(found@, sources@[i].session_id@).to_multiset() by {
                let k = choose|k: int| 0 <= k < chosen.len() && chosen[k] == sources@[i];
                assert(source_paths(chosen[k]).to_multiset() == session_paths(found@, chosen[k].session_id@).to_multiset());
            }
        }
        assert forall|q: int| 0 <= q < found@.len() implies has_session(sources@, #[trigger] found@[q].session_id@) by {
            let i = choose|i: int| 0 <= i < chosen.len() && (#[trigger] chosen[i]).session_id@ == found@[q].session_id@;
            assert(sources@.contains(chosen[i]));
            let p = choose|p: int| 0 <= p < sources@.len() && sources@[p] == chosen[i];
            assert(sources@[p].session_id@ == found@[q].session_id@);
        }
    }
    let mut excluded_files: u64 = 0;
    let mut excluded_bytes: u64 = 0;
    let mut total_bytes: u64 = 0;
    let background = policy.background_enabled();
    let mut i: usize = 0;
    while i < sources.len()
        invariant
            i <= sources@.len(),
            background == (policy.days != 0),
            total_bytes == total_size(sources@.take(i as int)),
            background ==> excluded_files == 0 && excluded_bytes == 0,
            !background ==> excluded_files == excluded_totals(policy, sources@.take(i as int)).0
                && excluded_bytes == excluded_totals(policy, sources@.take(i as int)).1,
        decreases sources@.len() - i,
    {
        let source = &sources[i];
        proof {
            assert(sources@.take(i + 1).drop_last() =~= sources@.take(i as int));
        }
        total_bytes = total_bytes.saturating_add(source.source.size_bytes);
        if !background {
            let updated_at_micros: i64 = source.source.mtime_ns / 1000;
            assert(updated_at_micros == ns_to_micros(source.source.mtime_ns));
            if !policy.includes(updated_at_micros) {
                excluded_files = excluded_files.saturating_add(1);
                excluded_bytes = excluded_bytes.saturating_add(source.source.size_bytes);
            }
        }
        i = i + 1;
    }
    assert(sources@.take(sources@.len() as int) =~= sources@);
    Discovery { sources, issues, total_bytes, excluded_files, excluded_bytes }
}

} // verus!
