//! Session groups: sessions arranged under their root ancestors.

use vstd::prelude::*;

use crate::text::{lemma_text_lt_order, str_lt, string_eq, text_lt};
pub use crate::time::{format_time, micros, micros_spec};
use vstd::set_lib::{lemma_int_range, lemma_len_subset, set_int_range};
use crate::model::{SessionGroup, SessionSummary, SessionTreeNode, SourceKind};
use crate::api::query::{SessionsQuery, SessionsQueryView};
use crate::search::ArchiveFilter;
use crate::text::str_eq;

verus! {

/// The order `(String, usize)` pairs sort in: by text, then by number.
pub open spec fn keyed_lt(a: (String, usize), b: (String, usize)) -> bool {
    text_lt(a.0@, b.0@) || (a.0@ == b.0@ && a.1 < b.1)
}

/// Calls `<[(String, usize)]>::sort_unstable`: as std documents, the
/// elements are reordered (the multiset is kept) into ascending order, and
/// `String` compares by its bytes.
#[verifier::external_body]
pub(crate) fn sort_keyed(v: &mut Vec<(String, usize)>)
    ensures
        final(v)@.to_multiset() == old(v)@.to_multiset(),
        forall|i: int, j: int| 0 <= i < j < final(v)@.len() ==> !keyed_lt(#[trigger] final(v)@[j], #[trigger] final(v)@[i]),
{
    v.sort_unstable()
}

/// The ids of `sessions`.
pub open spec fn ids_of(sessions: Seq<SessionSummary>) -> Seq<Seq<char>> {
    sessions.map_values(|s: SessionSummary| s.id@)
}

/// Ids that strictly increase in text order.
pub open spec fn strictly_increasing(ids: Seq<Seq<char>>) -> bool {
    forall|i: int, j: int| 0 <= i < j < ids.len() ==> text_lt(#[trigger] ids[i], #[trigger] ids[j])
}

/// Pairs sorted as `sort_keyed` leaves them.
pub open spec fn keys_sorted(k: Seq<(String, usize)>) -> bool {
    forall|i: int, j: int| 0 <= i < j < k.len() ==> !keyed_lt(#[trigger] k[j], #[trigger] k[i])
}

/// Whether position `q` ends a run of equal ids.
pub open spec fn run_end(k: Seq<(String, usize)>, q: int) -> bool {
    q + 1 == k.len() || k[q].0@ != k[q + 1].0@
}

proof fn lemma_sorted_pair(k: Seq<(String, usize)>, i: int, j: int)
    requires
        keys_sorted(k),
        0 <= i < j < k.len(),
    ensures
        text_lt(k[i].0@, k[j].0@) || k[i].0@ == k[j].0@,
        k[i].0@ == k[j].0@ ==> k[i].1 <= k[j].1,
{
    assert(!keyed_lt(k[j], k[i]));
    lemma_text_lt_order(k[i].0@, k[j].0@, k[j].0@);
}

proof fn lemma_run_ends_increase(k: Seq<(String, usize)>, a: int, b: int)
    requires
        keys_sorted(k),
        0 <= a < b < k.len(),
        run_end(k, a),
    ensures
        text_lt(k[a].0@, k[b].0@),
{
    lemma_sorted_pair(k, a, a + 1);
    if a + 1 < b {
        lemma_sorted_pair(k, a + 1, b);
        lemma_text_lt_order(k[a].0@, k[a + 1].0@, k[b].0@);
    }
}

proof fn lemma_run_end_after(k: Seq<(String, usize)>, p: int) -> (q: int)
    requires
        keys_sorted(k),
        0 <= p < k.len(),
    ensures
        p <= q < k.len(),
        run_end(k, q),
        k[q].0@ == k[p].0@,
    decreases k.len() - p,
{
    if run_end(k, p) {
        p
    } else {
        lemma_run_end_after(k, p + 1)
    }
}

proof fn lemma_multiset_contains<A>(a: Seq<A>, b: Seq<A>, x: A)
    requires
        a.to_multiset() == b.to_multiset(),
        a.contains(x),
    ensures
        b.contains(x),
{
    a.to_multiset_ensures();
    b.to_multiset_ensures();
    assert(a.to_multiset().count(x) > 0);
    assert(b.to_multiset().count(x) > 0);
}

/// Whether some session in `sessions` has id `id`.
pub open spec fn lists_id(sessions: Seq<SessionSummary>, id: Seq<char>) -> bool {
    exists|p: int| 0 <= p < sessions.len() && #[trigger] sessions[p].id@ == id
}

/// Whether `s` is in `sessions` and no later session there has its id.
pub open spec fn last_of_its_id(sessions: Seq<SessionSummary>, s: SessionSummary) -> bool {
    exists|k: int| 0 <= k < sessions.len() && #[trigger] sessions[k] == s
        && forall|k2: int| k < k2 < sessions.len() ==> #[trigger] sessions[k2].id@ != s.id@
}

/// One session per id, the last given for each id, in id order.
pub fn unique_by_id(sessions: Vec<SessionSummary>) -> (r: Vec<SessionSummary>)
    ensures
        strictly_increasing(ids_of(r@)),
        forall|p: int| 0 <= p < r@.len() ==> last_of_its_id(sessions@, #[trigger] r@[p]),
        forall|k: int| 0 <= k < sessions@.len() ==> lists_id(r@, #[trigger] sessions@[k].id@),
{
    let n = sessions.len();
    let mut keys: Vec<(String, usize)> = Vec::new();
    let mut i: usize = 0;
    while i < n
        invariant
            i <= n,
            n == sessions@.len(),
            keys@.len() == i,
            forall|j: int| 0 <= j < i ==> #[trigger] keys@[j] == (sessions@[j].id, j as usize),
        decreases n - i,
    {
        keys.push((sessions[i].id.clone(), i));
        i = i + 1;
    }
    let ghost orig = keys@;
    sort_keyed(&mut keys);
    let ghost sk = keys@;
    proof {
        orig.to_multiset_ensures();
        sk.to_multiset_ensures();
        assert forall|q: int| 0 <= q < sk.len() implies (#[trigger] sk[q]).1 < n && sk[q].0@ == sessions@[sk[q].1 as int].id@ by {
            assert(sk.contains(sk[q]));
            lemma_multiset_contains(sk, orig, sk[q]);
            let j = choose|j: int| 0 <= j < orig.len() && orig[j] == sk[q];
            assert(orig[j] == (sessions@[j].id, j as usize));
        }
    }
    let mut rest = sessions;
    let mut slots: Vec<Option<SessionSummary>> = Vec::new();
    while rest.len() > 0
        invariant
            rest@.len() + slots@.len() == n,
            n == sessions@.len(),
            rest@ == sessions@.take(rest@.len() as int),
            forall|j: int| 0 <= j < slots@.len() ==> #[trigger] slots@[j] == Some(sessions@[n - 1 - j]),
        decreases rest@.len(),
    {
        let s = rest.pop().unwrap();
        slots.push(Some(s));
    }
    let m = keys.len();
    let mut out: Vec<SessionSummary> = Vec::new();
    let ghost mut taken: Set<int> = Set::empty();
    let ghost mut from: Seq<int> = Seq::empty();
    let ghost mut taken_at: Map<int, int> = Map::empty();
    let ghost mut index_of: Map<int, int> = Map::empty();
    let mut p: usize = 0;
    while p < m
        invariant
            p <= m,
            m == sk.len(),
            n == sessions@.len(),
            n == slots@.len(),
            keys@ == sk,
            keys_sorted(sk),
            forall|q: int| 0 <= q < sk.len() ==> (#[trigger] sk[q]).1 < n && sk[q].0@ == sessions@[sk[q].1 as int].id@,
            forall|k: int| 0 <= k < n ==> #[trigger] slots@[n - 1 - k] == (if taken.contains(k) { None } else { Some(sessions@[k]) }),
            forall|k: int| #[trigger] taken.contains(k) ==> 0 <= taken_at[k] < p && run_end(sk, taken_at[k]) && sk[taken_at[k]].1 == k,
            from.len() == out@.len(),
            forall|t: int| 0 <= t < from.len() ==> 0 <= #[trigger] from[t] < p && run_end(sk, from[t])
                && out@[t] == sessions@[sk[from[t]].1 as int],
            forall|t: int, u: int| 0 <= t < u < from.len() ==> #[trigger] from[t] < #[trigger] from[u],
            forall|q: int| 0 <= q < p && #[trigger] run_end(sk, q) ==> 0 <= index_of[q] < from.len() && from[index_of[q]] == q,
        decreases m - p,
    {
        let ends = p + 1 == m || !string_eq(&keys[p].0, &keys[p + 1].0);
        if ends {
            let k = keys[p].1;
            proof {
                if taken.contains(k as int) {
                    let q = taken_at[k as int];
                    lemma_run_ends_increase(sk, q, p as int);
                    lemma_text_lt_order(sk[q].0@, sk[p as int].0@, sk[p as int].0@);
                }
            }
            let mut slot: Option<SessionSummary> = None;
            slots.set_and_swap(n - 1 - k, &mut slot);
            let session = slot.unwrap();
            out.push(session);
            proof {
                assert(run_end(sk, p as int));
                taken = taken.insert(k as int);
                taken_at = taken_at.insert(k as int, p as int);
                index_of = index_of.insert(p as int, from.len() as int);
                from = from.push(p as int);
            }
        }
        p = p + 1;
    }
    proof {
        assert forall|t: int, u: int| 0 <= t < u < out@.len() implies text_lt(#[trigger] ids_of(out@)[t], #[trigger] ids_of(out@)[u]) by {
            lemma_run_ends_increase(sk, from[t], from[u]);
        }
        assert forall|t: int| 0 <= t < out@.len() implies last_of_its_id(sessions@, #[trigger] out@[t]) by {
            let q = from[t];
            let k = sk[q].1 as int;
            assert forall|k2: int| k < k2 < sessions@.len() implies #[trigger] sessions@[k2].id@ != out@[t].id@ by {
                if sessions@[k2].id@ == sessions@[k].id@ {
                    assert(orig[k2] == (sessions@[k2].id, k2 as usize));
                    assert(orig.contains(orig[k2]));
                    lemma_multiset_contains(orig, sk, orig[k2]);
                    let q2 = choose|q2: int| 0 <= q2 < sk.len() && sk[q2] == orig[k2];
                    if q2 < q {
                        assert(!keyed_lt(sk[q], sk[q2]));
                    } else if q2 > q {
                        lemma_sorted_pair(sk, q + 1, q2);
                        lemma_sorted_pair(sk, q, q + 1);
                        lemma_text_lt_order(sk[q].0@, sk[q + 1].0@, sk[q2].0@);
                    }
                }
            }
            assert(sessions@[k] == out@[t]);
        }
        assert forall|k: int| 0 <= k < sessions@.len() implies lists_id(out@, #[trigger] sessions@[k].id@) by {
            assert(orig[k] == (sessions@[k].id, k as usize));
            assert(orig.contains(orig[k]));
            lemma_multiset_contains(orig, sk, orig[k]);
            let q0 = choose|q0: int| 0 <= q0 < sk.len() && sk[q0] == orig[k];
            let q = lemma_run_end_after(sk, q0);
            let t = index_of[q];
            assert(out@[t].id@ == sk[q].0@);
        }
    }
    out
}

/// The position of the session with id `id` in `table`, whose ids strictly increase.
pub fn find_by_id(table: &Vec<SessionSummary>, id: &str) -> (r: Option<usize>)
    requires
        strictly_increasing(ids_of(table@)),
    ensures
        r matches Some(p) ==> p < table@.len() && table@[p as int].id@ == id@,
        r is None ==> !lists_id(table@, id@),
{
    let ghost ids = ids_of(table@);
    let mut lo: usize = 0;
    let mut hi: usize = table.len();
    while lo < hi
        invariant
            lo <= hi <= table@.len(),
            ids == ids_of(table@),
            strictly_increasing(ids),
            forall|i: int| 0 <= i < lo ==> text_lt(#[trigger] ids[i], id@),
            forall|i: int| hi <= i < table@.len() ==> text_lt(id@, #[trigger] ids[i]),
        decreases hi - lo,
    {
        let mid = lo + (hi - lo) / 2;
        assert(ids[mid as int] == table@[mid as int].id@);
        if str_lt(table[mid].id.as_str(), id) {
            proof {
                assert forall|i: int| 0 <= i < mid + 1 implies text_lt(#[trigger] ids[i], id@) by {
                    if i < mid {
                        lemma_text_lt_order(ids[i], ids[mid as int], id@);
                    }
                }
            }
            lo = mid + 1;
        } else if str_lt(id, table[mid].id.as_str()) {
            proof {
                assert forall|i: int| mid <= i < table@.len() implies text_lt(id@, #[trigger] ids[i]) by {
                    if i > mid {
                        lemma_text_lt_order(id@, ids[mid as int], ids[i]);
                    }
                }
            }
            hi = mid;
        } else {
            proof {
                lemma_text_lt_order(id@, ids[mid as int], id@);
            }
            return Some(mid);
        }
    }
    proof {
        assert forall|p: int| 0 <= p < table@.len() implies #[trigger] table@[p].id@ != id@ by {
            assert(ids[p] == table@[p].id@);
            lemma_text_lt_order(ids[p], id@, ids[p]);
        }
    }
    None
}

/// The parent link of session `p`: the position of its parent when the parent
/// is another session of the table, else none.
pub open spec fn parent_link(table: Seq<SessionSummary>, p: int, link: Option<usize>) -> bool {
    match table[p].parent_thread_id {
        Some(pid) => if pid@ != table[p].id@ && lists_id(table, pid@) {
            link matches Some(q) && q < table.len() && table[q as int].id@ == pid@
        } else {
            link is None
        },
        None => link is None,
    }
}

/// Whether every link points inside a table of `n` sessions.
pub open spec fn links_in_range(parent: Seq<Option<usize>>) -> bool {
    forall|i: int| 0 <= i < parent.len() ==> (#[trigger] parent[i] matches Some(q) ==> q < parent.len())
}

/// The parent link of every session of `table`, whose ids strictly increase.
pub fn parent_links(table: &Vec<SessionSummary>) -> (r: Vec<Option<usize>>)
    requires
        strictly_increasing(ids_of(table@)),
    ensures
        r@.len() == table@.len(),
        links_in_range(r@),
        forall|p: int| 0 <= p < table@.len() ==> parent_link(table@, p, #[trigger] r@[p]),
{
    let mut out: Vec<Option<usize>> = Vec::new();
    let mut p: usize = 0;
    while p < table.len()
        invariant
            p <= table@.len(),
            strictly_increasing(ids_of(table@)),
            out@.len() == p,
            forall|i: int| 0 <= i < p ==> (#[trigger] out@[i] matches Some(q) ==> q < table@.len()),
            forall|i: int| 0 <= i < p ==> parent_link(table@, i, #[trigger] out@[i]),
        decreases table@.len() - p,
    {
        let link = match &table[p].parent_thread_id {
            Some(pid) => {
                if string_eq(pid, &table[p].id) {
                    None
                } else {
                    find_by_id(table, pid.as_str())
                }
            },
            None => None,
        };
        out.push(link);
        p = p + 1;
    }
    out
}

/// Whether following parent links from `x` meets a session without a
/// parent within `k` steps.
pub open spec fn reaches_root(links: Seq<Option<usize>>, x: int, k: nat) -> bool
    decreases k,
{
    if k == 0 {
        false
    } else {
        match links[x] {
            None => true,
            Some(q) => reaches_root(links, q as int, (k - 1) as nat),
        }
    }
}

/// Whether following parent links from `x` ends at a root.
pub open spec fn ends_at_root(links: Seq<Option<usize>>, x: int) -> bool {
    exists|k: nat| #[trigger] reaches_root(links, x, k)
}

/// Whether no parent links form a cycle: from every session they lead to a root.
pub open spec fn acyclic(links: Seq<Option<usize>>) -> bool {
    forall|x: int| 0 <= x < links.len() ==> #[trigger] ends_at_root(links, x)
}

/// Removing a link shortens no walk to a root.
proof fn lemma_cut_keeps_reach(links: Seq<Option<usize>>, m: int, x: int, k: nat)
    requires
        links_in_range(links),
        0 <= m < links.len(),
        0 <= x < links.len(),
        reaches_root(links, x, k),
    ensures
        reaches_root(links.update(m, None), x, k),
    decreases k,
{
    if k > 0 && x != m {
        if let Some(q) = links[x] {
            lemma_cut_keeps_reach(links, m, q as int, (k - 1) as nat);
        }
    }
}

/// A session whose parent ends at a root ends at a root.
proof fn lemma_step_ends(links: Seq<Option<usize>>, x: int, q: usize)
    requires
        links[x] == Some(q),
        ends_at_root(links, q as int),
    ensures
        ends_at_root(links, x),
{
    let k = choose|k: nat| #[trigger] reaches_root(links, q as int, k);
    assert(reaches_root(links, x, k + 1));
}

/// Along a walk of linked sessions whose last one ends at a root, every one does.
proof fn lemma_walk_ends(links: Seq<Option<usize>>, path: Seq<usize>, t: int)
    requires
        0 <= t < path.len(),
        forall|u: int| 0 <= u < path.len() - 1 ==> links[#[trigger] path[u] as int] == Some(path[u + 1]),
        ends_at_root(links, path.last() as int),
    ensures
        ends_at_root(links, path[t] as int),
    decreases path.len() - t,
{
    if t < path.len() - 1 {
        lemma_walk_ends(links, path, t + 1);
        lemma_step_ends(links, path[t] as int, path[t + 1]);
    }
}

/// Whether `path` is a walk along `links`, ending in a link to `next`.
pub open spec fn walk_to(links: Seq<Option<usize>>, path: Seq<usize>, next: usize) -> bool {
    &&& forall|u: int| 0 <= u < path.len() - 1 ==> links[#[trigger] path[u] as int] == Some(path[u + 1])
    &&& path.len() > 0 ==> links[path.last() as int] == Some(next)
}

/// Cutting the walk's cycle at one of its sessions leaves every session of
/// the walk ending at a root.
proof fn lemma_cycle_cut_ends(links: Seq<Option<usize>>, path: Seq<usize>, next: usize, position: int, j: int)
    requires
        walk_to(links, path, next),
        0 <= position <= j < path.len(),
        path[position] == next,
        forall|a: int, b: int| 0 <= a < path.len() && 0 <= b < path.len() && a != b ==> #[trigger] path[a] != #[trigger] path[b],
        forall|u: int| 0 <= u < path.len() ==> #[trigger] path[u] < links.len(),
    ensures
        forall|t: int| 0 <= t < path.len() ==> ends_at_root(links.update(path[j] as int, None), #[trigger] path[t] as int),
{
    let m = path[j] as int;
    let cut = links.update(m, None);
    let front = path.take(j + 1);
    assert(reaches_root(cut, m, 1));
    assert forall|u: int| 0 <= u < front.len() - 1 implies cut[#[trigger] front[u] as int] == Some(front[u + 1]) by {
        assert(front[u] == path[u] && front[u + 1] == path[u + 1]);
        assert(path[u] != path[j]);
    }
    assert forall|t: int| 0 <= t <= j implies ends_at_root(cut, #[trigger] path[t] as int) by {
        lemma_walk_ends(cut, front, t);
        assert(front[t] == path[t]);
    }
    if j < path.len() - 1 {
        let back = path.subrange(j + 1, path.len() as int);
        assert(path.last() != path[j]);
        assert(cut[path.last() as int] == Some(next));
        assert(ends_at_root(cut, path[position] as int));
        lemma_step_ends(cut, path.last() as int, next);
        assert(back.last() == path.last());
        assert forall|u: int| 0 <= u < back.len() - 1 implies cut[#[trigger] back[u] as int] == Some(back[u + 1]) by {
            assert(back[u] == path[u + j + 1] && back[u + 1] == path[u + j + 2]);
            assert(path[u + j + 1] != path[j]);
        }
        assert forall|t: int| j < t < path.len() implies ends_at_root(cut, #[trigger] path[t] as int) by {
            lemma_walk_ends(cut, back, t - j - 1);
            assert(back[t - j - 1] == path[t]);
        }
    }
}

/// Whether the levels of the display layout grow by one from each session
/// to the one it is shown under.
pub open spec fn levels_ok(shown_under: Seq<Option<usize>>, level: Seq<usize>) -> bool {
    &&& level.len() == shown_under.len()
    &&& forall|c: int| 0 <= c < shown_under.len() ==> (#[trigger] shown_under[c] matches Some(q) ==> q < shown_under.len()
        && level[c] == level[q as int] + 1)
}

/// The session `k` links up from `c`, or -1 once a session has no link.
pub open spec fn up(shown_under: Seq<Option<usize>>, c: int, k: nat) -> int
    decreases k,
{
    if k == 0 {
        c
    } else {
        match shown_under[c] {
            Some(q) => up(shown_under, q as int, (k - 1) as nat),
            None => -1,
        }
    }
}

/// Whether `c` is displayed in the subtree of `p`.
pub open spec fn in_subtree(shown_under: Seq<Option<usize>>, c: int, p: int) -> bool {
    exists|k: nat| #[trigger] up(shown_under, c, k) == p
}

proof fn lemma_up_level(su: Seq<Option<usize>>, level: Seq<usize>, c: int, k: nat)
    requires
        levels_ok(su, level),
        0 <= c < su.len(),
        up(su, c, k) >= 0,
    ensures
        up(su, c, k) < su.len(),
        level[up(su, c, k)] + k == level[c],
    decreases k,
{
    if k > 0 {
        let q = su[c]->0;
        lemma_up_level(su, level, q as int, (k - 1) as nat);
    }
}

proof fn lemma_up_add(su: Seq<Option<usize>>, c: int, a: nat, b: nat)
    requires
        up(su, c, a) >= 0,
    ensures
        up(su, c, a + b) == up(su, up(su, c, a), b),
    decreases a,
{
    if a > 0 {
        let q = su[c]->0;
        lemma_up_add(su, q as int, (a - 1) as nat, b);
        assert((a - 1) as nat + b == (a + b - 1) as nat);
    }
}

/// A session below `p` other than `p` is below one of the sessions shown
/// directly under `p`.
proof fn lemma_subtree_step(su: Seq<Option<usize>>, level: Seq<usize>, c: int, p: int) -> (k: int)
    requires
        levels_ok(su, level),
        0 <= c < su.len(),
        0 <= p,
        in_subtree(su, c, p),
        c != p,
    ensures
        0 <= k < su.len(),
        su[k] == Some(p as usize),
        in_subtree(su, c, k),
{
    let m = choose|m: nat| #[trigger] up(su, c, m) == p;
    assert(m > 0);
    let m1 = (m - 1) as nat;
    if up(su, c, m1) < 0 {
        lemma_up_add_neg(su, c, m1, 1);
    }
    let k = up(su, c, m1);
    lemma_up_level(su, level, c, m1);
    lemma_up_add(su, c, m1, 1);
    assert(m1 + 1 == m);
    assert(up(su, k, 1) == p);
    assert(su[k] is Some);
    assert(up(su, su[k]->0 as int, 0) == su[k]->0 as int);
    assert(su[k]->0 as int == p);
    k
}

proof fn lemma_up_add_neg(su: Seq<Option<usize>>, c: int, a: nat, b: nat)
    requires
        0 <= c,
        up(su, c, a) < 0,
    ensures
        up(su, c, a + b) < 0,
    decreases a,
{
    if a == 0 {
    } else {
        match su[c] {
            Some(q) => {
                lemma_up_add_neg(su, q as int, (a - 1) as nat, b);
                assert((a - 1) as nat + b == (a + b - 1) as nat);
            },
            None => {},
        }
    }
}


/// A session below one shown directly under `p` is below `p`.
proof fn lemma_subtree_parent(su: Seq<Option<usize>>, c: int, k: int, p: int)
    requires
        0 <= c,
        0 <= k,
        su[k] == Some(p as usize),
        0 <= p <= usize::MAX,
        in_subtree(su, c, k),
    ensures
        in_subtree(su, c, p),
{
    let m = choose|m: nat| #[trigger] up(su, c, m) == k;
    lemma_up_add(su, c, m, 1);
    assert(up(su, p, 0) == p);
    assert(up(su, k, 1) == up(su, p, 0));
    assert(up(su, c, m + 1) == p);
}

/// Sessions at the same level above one session are the same session.
proof fn lemma_same_level_unique(su: Seq<Option<usize>>, level: Seq<usize>, c: int, a: int, b: int)
    requires
        levels_ok(su, level),
        0 <= c < su.len(),
        0 <= a,
        0 <= b,
        in_subtree(su, c, a),
        in_subtree(su, c, b),
        level[a] == level[b],
    ensures
        a == b,
{
    let ka = choose|k: nat| #[trigger] up(su, c, k) == a;
    let kb = choose|k: nat| #[trigger] up(su, c, k) == b;
    lemma_up_level(su, level, c, ka);
    lemma_up_level(su, level, c, kb);
}

/// A session is never below one shown directly under it.
proof fn lemma_parent_not_below(su: Seq<Option<usize>>, level: Seq<usize>, p: int, k: int)
    requires
        levels_ok(su, level),
        0 <= k < su.len(),
        0 <= p < su.len(),
        p <= usize::MAX,
        su[k] == Some(p as usize),
    ensures
        !in_subtree(su, p, k),
{
    assert(level[k] == level[p] + 1);
    if in_subtree(su, p, k) {
        let m = choose|m: nat| #[trigger] up(su, p, m) == k;
        lemma_up_level(su, level, p, m);
    }
}

/// Whether the tree shows a session with id `x`.
pub open spec fn shows_id(node: SessionTreeNode, x: Seq<char>) -> bool
    decreases node,
{
    node.session.id@ == x || exists|i: int| 0 <= i < node.children@.len() && shows_id(#[trigger] node.children@[i], x)
}

/// Whether no two of `nodes` show a session with the same id.
pub open spec fn disjoint_trees(nodes: Seq<SessionTreeNode>) -> bool {
    forall|i: int, j: int, x: Seq<char>| 0 <= i < nodes.len() && 0 <= j < nodes.len() && i != j ==> !(#[trigger] shows_id(
        nodes[i],
        x,
    ) && #[trigger] shows_id(nodes[j], x))
}

/// Whether the tree shows each session id once.
pub open spec fn shown_once(node: SessionTreeNode) -> bool
    decreases node,
{
    &&& forall|i: int| 0 <= i < node.children@.len() ==> !shows_id(#[trigger] node.children@[i], node.session.id@)
    &&& disjoint_trees(node.children@)
    &&& forall|i: int| 0 <= i < node.children@.len() ==> shown_once(#[trigger] node.children@[i])
}

/// Whether following parent links from `i` returns to `i`.
pub open spec fn on_cycle(links: Seq<Option<usize>>, i: int) -> bool {
    exists|k: nat| k >= 1 && #[trigger] up(links, i, k) == i
}

/// Whether `i` lies on a cycle of parent links and has the smallest index
/// of every session reachable from it, that is of its cycle.
pub open spec fn least_on_cycle(links: Seq<Option<usize>>, i: int) -> bool {
    &&& on_cycle(links, i)
    &&& forall|a: nat| #[trigger] up(links, i, a) >= 0 ==> i <= up(links, i, a)
}

/// Whether `path[position..]` is a cycle of `links`, each linked to the next
/// and the last to `path[position]`.
pub open spec fn cycle_path(links: Seq<Option<usize>>, path: Seq<usize>, position: int) -> bool {
    &&& 0 <= position < path.len()
    &&& forall|t: int| position <= t < path.len() - 1 ==> links[#[trigger] path[t] as int] == Some(path[t + 1])
    &&& links[path.last() as int] == Some(path[position])
}

proof fn lemma_cycle_stays(links: Seq<Option<usize>>, path: Seq<usize>, position: int, t: int, a: nat) -> (u: int)
    requires
        cycle_path(links, path, position),
        position <= t < path.len(),
    ensures
        position <= u < path.len(),
        up(links, path[t] as int, a) == path[u] as int,
    decreases a,
{
    if a == 0 {
        t
    } else {
        let nt = if t < path.len() - 1 { t + 1 } else { position };
        assert(links[path[t] as int] == Some(path[nt]));
        lemma_cycle_stays(links, path, position, nt, (a - 1) as nat)
    }
}

proof fn lemma_cycle_to_start(links: Seq<Option<usize>>, path: Seq<usize>, position: int, t: int)
    requires
        cycle_path(links, path, position),
        position <= t < path.len(),
    ensures
        up(links, path[t] as int, (path.len() - t) as nat) == path[position] as int,
    decreases path.len() - t,
{
    if t < path.len() - 1 {
        assert(links[path[t] as int] == Some(path[t + 1]));
        lemma_cycle_to_start(links, path, position, t + 1);
        assert((path.len() - t - 1) as nat == ((path.len() - t) as nat - 1) as nat);
    } else {
        assert(up(links, path[position] as int, 0) == path[position] as int);
    }
}

proof fn lemma_cycle_from_start(links: Seq<Option<usize>>, path: Seq<usize>, position: int, t: int)
    requires
        cycle_path(links, path, position),
        position <= t < path.len(),
    ensures
        up(links, path[position] as int, (t - position) as nat) == path[t] as int,
    decreases t - position,
{
    if t > position {
        lemma_cycle_from_start(links, path, position, t - 1);
        assert(links[path[t - 1] as int] == Some(path[t]));
        assert(up(links, path[t - 1] as int, 1) == up(links, path[t] as int, 0));
        lemma_up_add(links, path[position] as int, (t - 1 - position) as nat, 1);
        assert((t - 1 - position) as nat + 1 == (t - position) as nat);
    }
}

/// The smallest session of a cycle of links is least on its cycle.
proof fn lemma_cycle_least(links: Seq<Option<usize>>, path: Seq<usize>, position: int, j: int)
    requires
        cycle_path(links, path, position),
        position <= j < path.len(),
        forall|u: int| position <= u < path.len() ==> path[j] <= #[trigger] path[u],
    ensures
        least_on_cycle(links, path[j] as int),
{
    let m = path[j] as int;
    lemma_cycle_to_start(links, path, position, j);
    lemma_cycle_from_start(links, path, position, j);
    lemma_up_add(links, m, (path.len() - j) as nat, (j - position) as nat);
    assert((path.len() - j) as nat + (j - position) as nat == (path.len() - position) as nat);
    assert(up(links, m, (path.len() - position) as nat) == m);
    assert forall|a: nat| #[trigger] up(links, m, a) >= 0 implies m <= up(links, m, a) by {
        let u = lemma_cycle_stays(links, path, position, j, a);
    }
}

/// Going round a cycle `m` times returns to its start.
proof fn lemma_cycle_repeat(links: Seq<Option<usize>>, i: int, k: nat, m: nat)
    requires
        0 <= i,
        up(links, i, k) == i,
    ensures
        up(links, i, m * k) == i,
    decreases m,
{
    if m > 0 {
        let m1 = (m - 1) as nat;
        lemma_cycle_repeat(links, i, k, m1);
        lemma_up_add(links, i, m1 * k, k);
        assert(m1 * k + k == m * k) by (nonlinear_arith)
            requires m1 == m - 1;
    } else {
        assert(m * k == 0) by (nonlinear_arith)
            requires m == 0;
    }
}

/// From a session on a cycle, every walk stays on the cycle and can return.
proof fn lemma_cycle_walk(links: Seq<Option<usize>>, i: int, k: nat, a: nat)
    requires
        0 <= i,
        k >= 1,
        up(links, i, k) == i,
    ensures
        up(links, i, a) >= 0,
        up(links, up(links, i, a), (a * k - a) as nat) == i,
{
    lemma_cycle_repeat(links, i, k, a);
    assert(a * k >= a) by (nonlinear_arith)
        requires k >= 1;
    if up(links, i, a) < 0 {
        lemma_up_add_neg(links, i, a, (a * k - a) as nat);
        assert(a + (a * k - a) as nat == a * k);
    }
    lemma_up_add(links, i, a, (a * k - a) as nat);
    assert(a + (a * k - a) as nat == a * k);
}

/// With every link either kept or cut at the least session of a cycle,
/// and no cycle left, the least session of every cycle is cut.
proof fn lemma_least_cut(old: Seq<Option<usize>>, fin: Seq<Option<usize>>, i: int)
    requires
        links_in_range(old),
        fin.len() == old.len(),
        forall|x: int| 0 <= x < old.len() ==> #[trigger] fin[x] == old[x] || (fin[x] is None && least_on_cycle(old, x)),
        acyclic(fin),
        0 <= i < old.len(),
        least_on_cycle(old, i),
    ensures
        fin[i] is None,
{
    if fin[i] is Some {
        assert(fin[i] == old[i]);
        let k = choose|k: nat| k >= 1 && #[trigger] up(old, i, k) == i;
        assert forall|a: nat| #[trigger] up(fin, i, a) == up(old, i, a) && 0 <= up(old, i, a) < old.len()
            && fin[up(old, i, a)] == old[up(old, i, a)] && old[up(old, i, a)] is Some by {
            lemma_same_walk(old, fin, i, k, a);
        }
        assert(ends_at_root(fin, i));
        let r = choose|r: nat| #[trigger] reaches_root(fin, i, r);
        lemma_no_root_on_cycle(old, fin, i, 0, r);
    }
}

proof fn lemma_same_walk(old: Seq<Option<usize>>, fin: Seq<Option<usize>>, i: int, k: nat, a: nat)
    requires
        links_in_range(old),
        fin.len() == old.len(),
        forall|x: int| 0 <= x < old.len() ==> #[trigger] fin[x] == old[x] || (fin[x] is None && least_on_cycle(old, x)),
        0 <= i < old.len(),
        least_on_cycle(old, i),
        fin[i] == old[i],
        k >= 1,
        up(old, i, k) == i,
    ensures
        up(fin, i, a) == up(old, i, a),
        0 <= up(old, i, a) < old.len(),
        fin[up(old, i, a)] == old[up(old, i, a)],
        old[up(old, i, a)] is Some,
    decreases a,
{
    lemma_cycle_walk(old, i, k, a);
    lemma_cycle_walk(old, i, k, a + 1);
    let y = up(old, i, a);
    if a > 0 {
        lemma_same_walk(old, fin, i, k, (a - 1) as nat);
        let p = up(old, i, (a - 1) as nat);
        lemma_up_add(old, i, (a - 1) as nat, 1);
        assert((a - 1) as nat + 1 == a);
        lemma_up_add(fin, i, (a - 1) as nat, 1);
        assert(up(old, p, 1) == y);
        assert(old[p] is Some);
        assert(up(old, old[p]->0 as int, 0) == old[p]->0 as int);
        assert(y == old[p]->0 as int);
        assert(up(fin, i, a) == up(fin, p, 1));
        assert(fin[p] == old[p]);
        assert(up(fin, p, 1) == up(fin, fin[p]->0 as int, 0));
    } else {
        assert(y == i);
    }
    lemma_up_add(old, i, a, 1);
    assert(up(old, y, 1) == up(old, i, a + 1));
    assert(old[y] is Some);
    if fin[y] != old[y] {
        assert(least_on_cycle(old, y));
        let back = (a * k - a) as nat;
        assert(up(old, y, back) == i);
        assert(y <= i);
        assert(i <= up(old, i, a));
    }
}

proof fn lemma_no_root_on_cycle(old: Seq<Option<usize>>, fin: Seq<Option<usize>>, i: int, a: nat, r: nat)
    requires
        forall|b: nat| #[trigger] up(fin, i, b) == up(old, i, b) && 0 <= up(old, i, b) < old.len()
            && fin[up(old, i, b)] == old[up(old, i, b)] && old[up(old, i, b)] is Some,
    ensures
        !reaches_root(fin, up(fin, i, a), r),
    decreases r,
{
    if r > 0 {
        let y = up(fin, i, a);
        assert(up(fin, i, a) == up(old, i, a));
        assert(fin[y] is Some);
        let q = fin[y]->0;
        lemma_up_add(fin, i, a, 1);
        assert(up(fin, i, a + 1) == up(fin, y, 1));
        assert(up(fin, y, 1) == up(fin, q as int, 0));
        lemma_no_root_on_cycle(old, fin, i, a + 1, (r - 1) as nat);
    }
}

/// Breaks every cycle of parent links: walking from each session in order,
/// a walk that returns to a session already on it detaches the smallest
/// session of that cycle from its parent.
pub fn break_parent_cycles(parent: &mut Vec<Option<usize>>)
    requires
        links_in_range(old(parent)@),
    ensures
        final(parent)@.len() == old(parent)@.len(),
        links_in_range(final(parent)@),
        forall|i: int| 0 <= i < old(parent)@.len() ==> #[trigger] final(parent)@[i] == old(parent)@[i]
            || final(parent)@[i] is None,
        acyclic(final(parent)@),
        forall|i: int| 0 <= i < old(parent)@.len() ==> (#[trigger] final(parent)@[i] is None <==> (old(parent)@[i] is None
            || least_on_cycle(old(parent)@, i))),
{
    let n = parent.len();
    let mut resolved: Vec<Option<usize>> = Vec::new();
    let mut positions: Vec<Option<usize>> = Vec::new();
    let mut i: usize = 0;
    while i < n
        invariant
            i <= n,
            resolved@.len() == i,
            positions@.len() == i,
            forall|j: int| 0 <= j < i ==> #[trigger] resolved@[j] is None,
            forall|j: int| 0 <= j < i ==> #[trigger] positions@[j] is None,
        decreases n - i,
    {
        resolved.push(None);
        positions.push(None);
        i = i + 1;
    }
    let mut start: usize = 0;
    while start < n
        invariant
            start <= n,
            n == parent@.len(),
            n == old(parent)@.len(),
            resolved@.len() == n,
            positions@.len() == n,
            links_in_range(parent@),
            forall|j: int| 0 <= j < n ==> (#[trigger] resolved@[j] matches Some(r) ==> r < n),
            forall|j: int| 0 <= j < n ==> #[trigger] positions@[j] is None,
            forall|j: int| 0 <= j < n ==> #[trigger] parent@[j] == old(parent)@[j] || parent@[j] is None,
            forall|j: int| 0 <= j < start ==> #[trigger] resolved@[j] is Some,
            forall|x: int| 0 <= x < n ==> (#[trigger] resolved@[x] is Some ==> ends_at_root(parent@, x)),
            forall|x: int| 0 <= x < n && #[trigger] parent@[x] != old(parent)@[x] ==> parent@[x] is None && least_on_cycle(
                old(parent)@,
                x,
            ) && resolved@[x] is Some,
        decreases n - start,
    {
        if resolved[start].is_some() {
            start = start + 1;
            continue;
        }
        let mut path: Vec<usize> = Vec::new();
        let ghost mut on_path: Set<int> = Set::empty();
        let mut current: usize = start;
        proof {
            lemma_int_range(0, n as int);
        }
        let mut root: usize = 0;
        loop
            invariant_except_break
                walk_to(parent@, path@, current),
                forall|x: int| 0 <= x < n && #[trigger] parent@[x] != old(parent)@[x] ==> parent@[x] is None && least_on_cycle(
                    old(parent)@,
                    x,
                ) && resolved@[x] is Some,
            invariant
                n == parent@.len(),
                n == old(parent)@.len(),
                resolved@.len() == n,
                positions@.len() == n,
                current < n,
                links_in_range(parent@),
                forall|j: int| 0 <= j < n ==> (#[trigger] resolved@[j] matches Some(r) ==> r < n),
                forall|j: int| 0 <= j < n ==> #[trigger] parent@[j] == old(parent)@[j] || parent@[j] is None,
                forall|t: int| 0 <= t < path@.len() ==> #[trigger] path@[t] < n,
                forall|x: int| 0 <= x < n ==> (#[trigger] positions@[x] matches Some(t) ==> t < path@.len() && path@[t as int] == x),
                forall|t: int| 0 <= t < path@.len() ==> positions@[path@[t] as int] == Some(t as usize),
                forall|x: int| #[trigger] on_path.contains(x) <==> exists|t: int| 0 <= t < path@.len() && path@[t] == x,
                on_path.finite(),
                on_path.len() == path@.len(),
                on_path.subset_of(set_int_range(0, n as int)),
                set_int_range(0, n as int).finite(),
                set_int_range(0, n as int).len() == n,
                start < n,
                resolved@[start as int] is None,
                path@.len() == 0 ==> current == start,
                path@.len() > 0 ==> path@[0] == start,
                forall|t: int| 0 <= t < path@.len() ==> #[trigger] resolved@[path@[t] as int] is None,
                forall|x: int| 0 <= x < n ==> (#[trigger] resolved@[x] is Some ==> ends_at_root(parent@, x)),
            ensures
                forall|x: int| 0 <= x < n && #[trigger] parent@[x] != old(parent)@[x] ==> parent@[x] is None && least_on_cycle(
                    old(parent)@,
                    x,
                ) && (resolved@[x] is Some || exists|u: int| 0 <= u < path@.len() && path@[u] == x),
                root < n,
                path@.len() > 0,
                path@[0] == start,
                forall|t: int| 0 <= t < path@.len() ==> ends_at_root(parent@, #[trigger] path@[t] as int),
                forall|x: int| 0 <= x < n ==> (#[trigger] resolved@[x] is Some ==> ends_at_root(parent@, x)),
                forall|t: int| 0 <= t < path@.len() ==> #[trigger] path@[t] < n,
                forall|x: int| 0 <= x < n ==> (#[trigger] positions@[x] matches Some(t) ==> t < path@.len() && path@[t as int] == x),
                forall|j: int| 0 <= j < n ==> (#[trigger] resolved@[j] matches Some(r) ==> r < n),
                links_in_range(parent@),
                forall|j: int| 0 <= j < n ==> #[trigger] parent@[j] == old(parent)@[j] || parent@[j] is None,
            decreases n - path@.len(),
        {
            if let Some(r) = resolved[current] {
                proof {
                    lemma_step_ends(parent@, path@.last() as int, current);
                    assert forall|t: int| 0 <= t < path@.len() implies ends_at_root(parent@, #[trigger] path@[t] as int) by {
                        lemma_walk_ends(parent@, path@, t);
                    }
                }
                root = r;
                break;
            }
            if let Some(position) = positions[current] {
                let plen = path.len();
                assert(position < plen);
                let mut min = path[position];
                let mut t = position + 1;
                let ghost mut at: int = position as int;
                while t < path.len()
                    invariant
                        position < t <= path@.len(),
                        forall|u: int| 0 <= u < path@.len() ==> #[trigger] path@[u] < n,
                        min < n,
                        position <= at < t,
                        path@[at] == min,
                        forall|u: int| position <= u < t ==> min <= #[trigger] path@[u],
                    decreases path@.len() - t,
                {
                    if path[t] < min {
                        min = path[t];
                        proof {
                            at = t as int;
                        }
                    }
                    t = t + 1;
                }
                let ghost before = parent@;
                proof {
                    assert forall|a: int, b: int| 0 <= a < path@.len() && 0 <= b < path@.len() && a != b implies #[trigger] path@[a]
                        != #[trigger] path@[b] by {
                        assert(positions@[path@[a] as int] == Some(a as usize));
                        assert(positions@[path@[b] as int] == Some(b as usize));
                    }
                    lemma_cycle_cut_ends(before, path@, current, position as int, at);
                    assert forall|u: int| 0 <= u < path@.len() implies before[#[trigger] path@[u] as int] == old(parent)@[path@[u] as int] by {
                        assert(resolved@[path@[u] as int] is None);
                    }
                    assert(path@[position as int] == current);
                    assert(cycle_path(old(parent)@, path@, position as int)) by {
                        assert forall|t: int| position <= t < path@.len() - 1 implies old(parent)@[#[trigger] path@[t] as int] == Some(path@[t + 1]) by {
                            assert(before[path@[t] as int] == old(parent)@[path@[t] as int]);
                        }
                        assert(before[path@.last() as int] == old(parent)@[path@.last() as int]);
                    }
                    lemma_cycle_least(old(parent)@, path@, position as int, at);
                }
                parent.set(min, None);
                proof {
                    assert(parent@ == before.update(min as int, None));
                    assert forall|x: int| 0 <= x < n implies (#[trigger] resolved@[x] is Some ==> ends_at_root(parent@, x)) by {
                        if resolved@[x] is Some {
                            let k = choose|k: nat| #[trigger] reaches_root(before, x, k);
                            lemma_cut_keeps_reach(before, min as int, x, k);
                        }
                    }
                    assert forall|x: int| 0 <= x < n && #[trigger] parent@[x] != old(parent)@[x] implies parent@[x] is None && least_on_cycle(
                        old(parent)@,
                        x,
                    ) && (resolved@[x] is Some || exists|u: int| 0 <= u < path@.len() && path@[u] == x) by {
                        if x == min {
                            assert(path@[at] == x);
                        }
                    }
                }
                root = min;
                break;
            }
            proof {
                lemma_len_subset(on_path, set_int_range(0, n as int));
                assert(!on_path.contains(current as int));
                assert(on_path.insert(current as int).subset_of(set_int_range(0, n as int)));
                lemma_len_subset(on_path.insert(current as int), set_int_range(0, n as int));
            }
            let ghost old_path = path@;
            let ghost old_set = on_path;
            positions.set(current, Some(path.len()));
            path.push(current);
            proof {
                on_path = on_path.insert(current as int);
                assert forall|x: int| #[trigger] on_path.contains(x) implies exists|t: int| 0 <= t < path@.len() && path@[t] == x by {
                    if x == current {
                        assert(path@[path@.len() - 1] == x);
                    } else {
                        assert(old_set.contains(x));
                        let t = choose|t: int| 0 <= t < old_path.len() && old_path[t] == x;
                        assert(path@[t] == x);
                    }
                }
                assert forall|x: int| (exists|t: int| 0 <= t < path@.len() && path@[t] == x) implies #[trigger] on_path.contains(x) by {
                    let t = choose|t: int| 0 <= t < path@.len() && path@[t] == x;
                    if t < old_path.len() {
                        assert(old_path[t] == x);
                        assert(old_set.contains(x));
                    }
                }
            }
            assert forall|u: int| 0 <= u < path@.len() - 1 implies parent@[#[trigger] path@[u] as int] == Some(path@[u + 1]) by {
                if u < old_path.len() - 1 {
                    assert(path@[u] == old_path[u] && path@[u + 1] == old_path[u + 1]);
                } else {
                    assert(path@[u] == old_path.last());
                }
            }
            match parent[current] {
                Some(next) => {
                    current = next;
                },
                None => {
                    proof {
                        assert(reaches_root(parent@, path@.last() as int, 1));
                        assert forall|t: int| 0 <= t < path@.len() implies ends_at_root(parent@, #[trigger] path@[t] as int) by {
                            lemma_walk_ends(parent@, path@, t);
                        }
                    }
                    root = current;
                    break;
                },
            }
        }
        let mut t: usize = 0;
        while t < path.len()
            invariant
                t <= path@.len(),
                n == parent@.len(),
                resolved@.len() == n,
                positions@.len() == n,
                root < n,
                forall|u: int| 0 <= u < path@.len() ==> #[trigger] path@[u] < n,
                forall|j: int| 0 <= j < n ==> (#[trigger] resolved@[j] matches Some(r) ==> r < n),
                forall|x: int| 0 <= x < n ==> (#[trigger] positions@[x] matches Some(u) ==> t <= u < path@.len() && path@[u as int] == x),
                path@.len() > 0,
                path@[0] == start,
                t > 0 ==> resolved@[start as int] is Some,
                forall|j: int| 0 <= j < start ==> #[trigger] resolved@[j] is Some,
                forall|u: int| 0 <= u < path@.len() ==> ends_at_root(parent@, #[trigger] path@[u] as int),
                forall|x: int| 0 <= x < n ==> (#[trigger] resolved@[x] is Some ==> ends_at_root(parent@, x)),
                forall|x: int| 0 <= x < n && #[trigger] parent@[x] != old(parent)@[x] ==> parent@[x] is None && least_on_cycle(
                    old(parent)@,
                    x,
                ) && (resolved@[x] is Some || exists|u: int| t <= u < path@.len() && path@[u] == x),
            decreases path@.len() - t,
        {
            let id = path[t];
            resolved.set(id, Some(root));
            positions.set(id, None);
            t = t + 1;
        }
        start = start + 1;
    }
    assert forall|x: int| 0 <= x < parent@.len() implies #[trigger] ends_at_root(parent@, x) by {
        assert(resolved@[x] is Some);
    }
    assert forall|i: int| 0 <= i < old(parent)@.len() implies (#[trigger] parent@[i] is None <==> (old(parent)@[i] is None
        || least_on_cycle(old(parent)@, i))) by {
        if least_on_cycle(old(parent)@, i) {
            assert forall|x: int| 0 <= x < old(parent)@.len() implies #[trigger] parent@[x] == old(parent)@[x] || (parent@[x] is None
                && least_on_cycle(old(parent)@, x)) by {
                if parent@[x] != old(parent)@[x] {
                }
            }
            lemma_least_cut(old(parent)@, parent@, i);
        }
    }
}

/// The sessions among the first `upto` whose link is `q`, in order.
pub open spec fn linked_to(links: Seq<Option<usize>>, q: int, upto: int) -> Seq<usize>
    decreases upto,
{
    if upto <= 0 {
        Seq::empty()
    } else if links[upto - 1] == Some(q as usize) {
        linked_to(links, q, upto - 1).push((upto - 1) as usize)
    } else {
        linked_to(links, q, upto - 1)
    }
}

/// For every session, the sessions linked to it, in increasing order.
pub fn linked_lists(links: &Vec<Option<usize>>) -> (r: Vec<Vec<usize>>)
    requires
        links_in_range(links@),
    ensures
        r@.len() == links@.len(),
        forall|q: int| 0 <= q < links@.len() ==> #[trigger] r@[q]@ == linked_to(links@, q, links@.len() as int),
{
    let n = links.len();
    let mut r: Vec<Vec<usize>> = Vec::new();
    let mut i: usize = 0;
    while i < n
        invariant
            i <= n,
            r@.len() == i,
            forall|q: int| 0 <= q < i ==> #[trigger] r@[q]@ == Seq::<usize>::empty(),
        decreases n - i,
    {
        r.push(Vec::new());
        i = i + 1;
    }
    let mut p: usize = 0;
    while p < n
        invariant
            p <= n,
            n == links@.len(),
            links_in_range(links@),
            r@.len() == n,
            forall|q: int| 0 <= q < n ==> #[trigger] r@[q]@ == linked_to(links@, q, p as int),
        decreases n - p,
    {
        if let Some(q) = links[p] {
            let mut list: Vec<usize> = Vec::new();
            r.set_and_swap(q, &mut list);
            list.push(p);
            r.set_and_swap(q, &mut list);
        }
        p = p + 1;
    }
    r
}

proof fn lemma_linked_to(links: Seq<Option<usize>>, q: int, upto: int)
    requires
        0 <= upto <= links.len(),
        upto <= usize::MAX,
        0 <= q <= usize::MAX,
    ensures
        forall|i: int| 0 <= i < linked_to(links, q, upto).len() ==>
            (#[trigger] linked_to(links, q, upto)[i]) < upto && links[linked_to(links, q, upto)[i] as int] == Some(q as usize),
    decreases upto,
{
    if upto > 0 {
        lemma_linked_to(links, q, upto - 1);
        let prev = linked_to(links, q, upto - 1);
        if links[upto - 1] == Some(q as usize) {
            assert(linked_to(links, q, upto) == prev.push((upto - 1) as usize));
            assert forall|i: int| 0 <= i < linked_to(links, q, upto).len() implies
                (#[trigger] linked_to(links, q, upto)[i]) < upto && links[linked_to(links, q, upto)[i] as int] == Some(q as usize) by {
                if i < prev.len() {
                    assert(linked_to(links, q, upto)[i] == prev[i]);
                }
            }
        }
    }
}

/// The deepest level at which a session is displayed under its root; the
/// root is at level 1.
pub const MAX_SESSION_TREE_DEPTH: usize = 64;

/// Where sessions are displayed: under which session (`shown_under`), at
/// which level (`level`, 0 while unplaced) and in which root's group.
pub open spec fn layout_ok(
    links: Seq<Option<usize>>,
    shown_under: Seq<Option<usize>>,
    level: Seq<usize>,
    group: Seq<Option<usize>>,
) -> bool {
    let n = links.len();
    &&& shown_under.len() == n
    &&& level.len() == n
    &&& group.len() == n
    &&& forall|c: int| 0 <= c < n ==> ((#[trigger] group[c] is Some) <==> level[c] >= 1)
    &&& forall|c: int| 0 <= c < n ==> (#[trigger] group[c] matches Some(r) ==> r < n && group[r as int] == Some(r) && level[r as int] == 1 && shown_under[r as int] is None)
    &&& forall|c: int| 0 <= c < n ==> (#[trigger] shown_under[c] matches Some(q) ==> q < n && group[q as int] == group[c]
        && group[c] is Some && level[c] == level[q as int] + 1 && level[c] <= MAX_SESSION_TREE_DEPTH
        && links[c] is Some && (links[c] == Some(q) || group[c] == Some(q)))
    &&& forall|c: int| 0 <= c < n ==> (#[trigger] group[c] matches Some(r) ==> (shown_under[c] is None ==> c == r))
}

/// Whether every session placed in `root`'s group is shown under its own parent.
pub open spec fn group_complete(
    links: Seq<Option<usize>>,
    shown_under: Seq<Option<usize>>,
    group: Seq<Option<usize>>,
    root: usize,
) -> bool {
    forall|c: int| 0 <= c < links.len() && #[trigger] group[c] == Some(root) && shown_under[c] is Some ==> shown_under[c] == links[c]
}

/// Whether following parent links from `x` ends, within `k` steps, at the root `r`.
pub open spec fn chain_ends_at(links: Seq<Option<usize>>, x: int, r: int, k: nat) -> bool
    decreases k,
{
    if k == 0 {
        false
    } else {
        match links[x] {
            None => x == r,
            Some(q) => chain_ends_at(links, q as int, r, (k - 1) as nat),
        }
    }
}

/// Whether the root that parent links lead to from `x` is `r`.
pub open spec fn belongs_to(links: Seq<Option<usize>>, x: int, r: int) -> bool {
    exists|k: nat| #[trigger] chain_ends_at(links, x, r, k)
}

/// Parent links lead to one root only, and it has no parent.
proof fn lemma_chain_unique(links: Seq<Option<usize>>, x: int, r1: int, r2: int, k1: nat, k2: nat)
    requires
        chain_ends_at(links, x, r1, k1),
        chain_ends_at(links, x, r2, k2),
    ensures
        r1 == r2,
        links[r1] is None,
    decreases k1,
{
    if let Some(q) = links[x] {
        lemma_chain_unique(links, q as int, r1, r2, (k1 - 1) as nat, (k2 - 1) as nat);
    }
}

/// A walk that reaches a root ends at a root of the table.
proof fn lemma_reaches_chain(links: Seq<Option<usize>>, x: int, k: nat) -> (r: int)
    requires
        links_in_range(links),
        0 <= x < links.len(),
        reaches_root(links, x, k),
    ensures
        0 <= r < links.len(),
        chain_ends_at(links, x, r, k),
    decreases k,
{
    match links[x] {
        None => x,
        Some(q) => lemma_reaches_chain(links, q as int, (k - 1) as nat),
    }
}

/// Whether every session linked to `c` has been placed.
pub open spec fn kids_placed(links: Seq<Option<usize>>, group: Seq<Option<usize>>, c: int) -> bool {
    forall|k: int| 0 <= k < links.len() && #[trigger] links[k] == Some(c as usize) ==> group[k] is Some
}

/// Whether the session `c` waits on the stack.
pub open spec fn on_stack(stack: Seq<(usize, usize)>, c: int) -> bool {
    exists|t: int| 0 <= t < stack.len() && #[trigger] stack[t].0 == c
}

/// Once every placed session of a group has its linked sessions placed,
/// every session whose links lead to the group's root is placed in it.
proof fn lemma_closed_complete(links: Seq<Option<usize>>, group: Seq<Option<usize>>, root: usize, c: int, k: nat)
    requires
        links_in_range(links),
        group.len() == links.len(),
        0 <= c < links.len(),
        chain_ends_at(links, c, root as int, k),
        group[root as int] == Some(root),
        forall|x: int| 0 <= x < links.len() ==> (#[trigger] group[x] matches Some(g) ==> belongs_to(links, x, g as int)),
        forall|x: int| 0 <= x < links.len() && #[trigger] group[x] == Some(root) ==> kids_placed(links, group, x),
    ensures
        group[c] == Some(root),
    decreases k,
{
    if let Some(q) = links[c] {
        lemma_closed_complete(links, group, root, q as int, (k - 1) as nat);
        assert(kids_placed(links, group, q as int));
        assert(links[c] == Some(q));
        let g = group[c]->0;
        let k2 = choose|k2: nat| #[trigger] chain_ends_at(links, c, g as int, k2);
        lemma_chain_unique(links, c, root as int, g as int, k, k2);
    }
}

/// Placing a session linked to `id` in `root`'s group and pushing it keeps
/// the placement facts of the depth-first walk.
proof fn lemma_place_child(
    links: Seq<Option<usize>>,
    group: Seq<Option<usize>>,
    stack: Seq<(usize, usize)>,
    root: usize,
    id: usize,
    child: usize,
    lvl: usize,
    kids: Seq<usize>,
    k: int,
)
    requires
        group.len() == links.len(),
        id < links.len(),
        child < links.len(),
        links[child as int] == Some(id),
        group[id as int] == Some(root),
        group[child as int] is None,
        0 <= k < kids.len(),
        kids[k] == child,
        forall|i: int| 0 <= i < kids.len() ==> (#[trigger] kids[i]) < links.len(),
        forall|x: int| 0 <= x < links.len() ==> (#[trigger] group[x] matches Some(g) ==> belongs_to(links, x, g as int)),
        forall|x: int| 0 <= x < links.len() && #[trigger] group[x] == Some(root) && x != id && !on_stack(stack, x) ==> kids_placed(
            links,
            group,
            x,
        ),
        forall|i: int| k < i < kids.len() ==> #[trigger] group[kids[i] as int] is Some,
    ensures
        forall|x: int| 0 <= x < links.len() ==> (#[trigger] group.update(child as int, Some(root))[x] matches Some(g) ==> belongs_to(
            links,
            x,
            g as int,
        )),
        forall|x: int| 0 <= x < links.len() && #[trigger] group.update(child as int, Some(root))[x] == Some(root) && x != id
            && !on_stack(stack.push((child, lvl)), x) ==> kids_placed(links, group.update(child as int, Some(root)), x),
        forall|i: int| k <= i < kids.len() ==> #[trigger] group.update(child as int, Some(root))[kids[i] as int] is Some,
{
    let after = group.update(child as int, Some(root));
    let pushed = stack.push((child, lvl));
    let kk = choose|kk: nat| #[trigger] chain_ends_at(links, id as int, root as int, kk);
    assert(chain_ends_at(links, child as int, root as int, kk + 1));
    assert forall|x: int| 0 <= x < links.len() implies (#[trigger] after[x] matches Some(g) ==> belongs_to(links, x, g as int)) by {
        if x != child {
            assert(after[x] == group[x]);
        }
    }
    assert forall|x: int| 0 <= x < links.len() && #[trigger] after[x] == Some(root) && x != id && !on_stack(pushed, x) implies kids_placed(
        links,
        after,
        x,
    ) by {
        assert(pushed[pushed.len() - 1].0 == child);
        assert(x != child);
        assert(group[x] == Some(root));
        if on_stack(stack, x) {
            let t = choose|t: int| 0 <= t < stack.len() && #[trigger] stack[t].0 == x;
            assert(pushed[t] == stack[t]);
        }
        assert(kids_placed(links, group, x));
        assert forall|kx: int| 0 <= kx < links.len() && #[trigger] links[kx] == Some(x as usize) implies after[kx] is Some by {
            assert(group[kx] is Some);
        }
    }
    assert forall|i: int| k <= i < kids.len() implies #[trigger] after[kids[i] as int] is Some by {
        if kids[i] != child {
            assert(after[kids[i] as int] == group[kids[i] as int]);
        }
    }
}

/// Places the sessions below `root`, depth first. A session that would sit
/// deeper than `MAX_SESSION_TREE_DEPTH` is shown directly under the root
/// instead, and the group is then reported incomplete. A session already
/// placed is not placed again.
#[verifier::rlimit(50)]
#[verifier::spinoff_prover]
fn place_group(
    root: usize,
    links: &Vec<Option<usize>>,
    children: &Vec<Vec<usize>>,
    shown_under: &mut Vec<Option<usize>>,
    level: &mut Vec<usize>,
    group: &mut Vec<Option<usize>>,
) -> (complete: bool)
    requires
        root < links@.len(),
        links@[root as int] is None,
        old(group)@[root as int] is None,
        links_in_range(links@),
        children@.len() == links@.len(),
        forall|q: int| 0 <= q < links@.len() ==> #[trigger] children@[q]@ == linked_to(links@, q, links@.len() as int),
        layout_ok(links@, old(shown_under)@, old(level)@, old(group)@),
        links@.len() <= usize::MAX,
        forall|x: int| 0 <= x < links@.len() ==> (#[trigger] old(group)@[x] matches Some(g) ==> belongs_to(links@, x, g as int)),
    ensures
        layout_ok(links@, final(shown_under)@, final(level)@, final(group)@),
        forall|x: int| 0 <= x < links@.len() ==> (#[trigger] final(group)@[x] matches Some(g) ==> belongs_to(links@, x, g as int)),
        forall|c: int| 0 <= c < links@.len() && #[trigger] belongs_to(links@, c, root as int) ==> final(group)@[c] == Some(root),
        final(group)@[root as int] == Some(root),
        forall|c: int| 0 <= c < links@.len() && #[trigger] old(group)@[c] is Some ==> final(group)@[c] == old(group)@[c]
            && final(shown_under)@[c] == old(shown_under)@[c] && final(level)@[c] == old(level)@[c],
        forall|c: int| 0 <= c < links@.len() && #[trigger] final(group)@[c] is Some ==> old(group)@[c] is Some
            || final(group)@[c] == Some(root),
        complete == group_complete(links@, final(shown_under)@, final(group)@, root),
{
    let n = links.len();
    proof {
        lemma_int_range(0, n as int);
    }
    shown_under.set(root, None);
    level.set(root, 1);
    group.set(root, Some(root));
    assert(chain_ends_at(links@, root as int, root as int, 1));
    let ghost mut placed: Set<int> = Set::new(|c: int| 0 <= c < n && group@[c] is Some);
    proof {
        assert(placed.subset_of(set_int_range(0, n as int)));
        lemma_len_subset(placed, set_int_range(0, n as int));
    }
    let mut complete = true;
    let ghost mut witness: int = 0;
    let mut stack: Vec<(usize, usize)> = Vec::new();
    stack.push((root, 1));
    proof {
        assert(stack@[0].0 == root);
        assert forall|x: int| 0 <= x < n && #[trigger] group@[x] == Some(root) && !on_stack(stack@, x) implies kids_placed(
            links@,
            group@,
            x,
        ) by {
            assert(x != root);
            assert(old(group)@[x] == group@[x]);
        }
        assert forall|x: int| 0 <= x < n implies (#[trigger] group@[x] matches Some(g) ==> belongs_to(links@, x, g as int)) by {
            if x != root {
                assert(old(group)@[x] == group@[x]);
            }
        }
    }
    while stack.len() > 0
        invariant
            n == links@.len(),
            root < n,
            links_in_range(links@),
            children@.len() == n,
            forall|q: int| 0 <= q < n ==> #[trigger] children@[q]@ == linked_to(links@, q, n as int),
            layout_ok(links@, shown_under@, level@, group@),
            group@[root as int] == Some(root),
            forall|c: int| 0 <= c < n && #[trigger] old(group)@[c] is Some ==> group@[c] == old(group)@[c]
                && shown_under@[c] == old(shown_under)@[c] && level@[c] == old(level)@[c],
            forall|c: int| 0 <= c < n && #[trigger] group@[c] is Some ==> old(group)@[c] is Some || group@[c] == Some(root),
            complete ==> group_complete(links@, shown_under@, group@, root),
            !complete ==> (0 <= witness < n && group@[witness] == Some(root) && shown_under@[witness] is Some
                && shown_under@[witness] != links@[witness]),
            forall|t: int| 0 <= t < stack@.len() ==> (#[trigger] stack@[t]).0 < n && group@[stack@[t].0 as int] == Some(root)
                && level@[stack@[t].0 as int] == stack@[t].1,
            forall|c: int| #[trigger] placed.contains(c) <==> (0 <= c < n && group@[c] is Some),
            placed.finite(),
            placed.len() <= n,
            set_int_range(0, n as int).finite(),
            set_int_range(0, n as int).len() == n,
            n <= usize::MAX,
            forall|x: int| 0 <= x < n ==> (#[trigger] group@[x] matches Some(g) ==> belongs_to(links@, x, g as int)),
            forall|x: int| 0 <= x < n && #[trigger] group@[x] == Some(root) && !on_stack(stack@, x) ==> kids_placed(links@, group@, x),
        decreases n - placed.len(), stack@.len(),
    {
        let ghost stack_full = stack@;
        let (id, depth) = stack.pop().unwrap();
        let kids = &children[id];
        proof {
            lemma_linked_to(links@, id as int, n as int);
            lemma_linked_to_all(links@, id as int, n as int);
            assert forall|x: int| 0 <= x < n && #[trigger] group@[x] == Some(root) && x != id && !on_stack(stack@, x) implies kids_placed(
                links@,
                group@,
                x,
            ) by {
                if on_stack(stack_full, x) {
                    let t = choose|t: int| 0 <= t < stack_full.len() && #[trigger] stack_full[t].0 == x;
                    assert(t < stack@.len());
                    assert(stack@[t] == stack_full[t]);
                }
            }
        }
        let ghost placed_before = placed;
        let ghost stack_before = stack@;
        let mut k: usize = kids.len();
        while k > 0
            invariant
                n == links@.len(),
                root < n,
                id < n,
                group@[id as int] == Some(root),
                level@[id as int] == depth,
                links_in_range(links@),
                children@.len() == n,
                forall|q: int| 0 <= q < n ==> #[trigger] children@[q]@ == linked_to(links@, q, n as int),
                kids@ == children@[id as int]@,
                k <= kids@.len(),
                forall|i: int| 0 <= i < kids@.len() ==> (#[trigger] kids@[i]) < n && links@[kids@[i] as int] == Some(id),
                layout_ok(links@, shown_under@, level@, group@),
                group@[root as int] == Some(root),
                forall|c: int| 0 <= c < n && #[trigger] old(group)@[c] is Some ==> group@[c] == old(group)@[c]
                    && shown_under@[c] == old(shown_under)@[c] && level@[c] == old(level)@[c],
                forall|c: int| 0 <= c < n && #[trigger] group@[c] is Some ==> old(group)@[c] is Some || group@[c] == Some(root),
                complete ==> group_complete(links@, shown_under@, group@, root),
                !complete ==> (0 <= witness < n && group@[witness] == Some(root) && shown_under@[witness] is Some
                    && shown_under@[witness] != links@[witness]),
                forall|t: int| 0 <= t < stack@.len() ==> (#[trigger] stack@[t]).0 < n && group@[stack@[t].0 as int] == Some(root)
                    && level@[stack@[t].0 as int] == stack@[t].1,
                forall|c: int| #[trigger] placed.contains(c) <==> (0 <= c < n && group@[c] is Some),
                placed.finite(),
                placed.len() <= n,
                placed_before.subset_of(placed),
                placed.len() - placed_before.len() == stack@.len() - stack_before.len(),
                stack_before.len() <= stack@.len(),
                set_int_range(0, n as int).finite(),
                set_int_range(0, n as int).len() == n,
                n <= usize::MAX,
                forall|x: int| 0 <= x < n ==> (#[trigger] group@[x] matches Some(g) ==> belongs_to(links@, x, g as int)),
                forall|x: int| 0 <= x < n && #[trigger] group@[x] == Some(root) && x != id && !on_stack(stack@, x) ==> kids_placed(
                    links@,
                    group@,
                    x,
                ),
                forall|i: int| k <= i < kids@.len() ==> #[trigger] group@[kids@[i] as int] is Some,
                forall|c: int| 0 <= c < n && #[trigger] links@[c] == Some(id) ==> kids@.contains(c as usize),
            decreases k,
        {
            k = k - 1;
            let child = kids[k];
            if group[child].is_none() {
                assert(level@[id as int] <= MAX_SESSION_TREE_DEPTH) by {
                    if shown_under@[id as int] is None {
                        assert(id == root);
                    }
                }
                let candidate = depth + 1;
                let reattach = candidate > MAX_SESSION_TREE_DEPTH;
                if reattach {
                    assert(id != root);
                    complete = false;
                    shown_under.set(child, Some(root));
                    level.set(child, 2);
                } else {
                    shown_under.set(child, Some(id));
                    level.set(child, candidate);
                }
                let ghost group_before = group@;
                let ghost stack_prev = stack@;
                group.set(child, Some(root));
                stack.push((child, level[child]));
                proof {
                    lemma_place_child(links@, group_before, stack_prev, root, id, child, level[child as int], kids@, k as int);
                    assert(!placed.contains(child as int));
                    placed = placed.insert(child as int);
                    assert(placed.subset_of(set_int_range(0, n as int)));
                    lemma_len_subset(placed, set_int_range(0, n as int));
                    if reattach {
                        witness = child as int;
                    }
                }
            }
        }
    }
    proof {
        if !complete {
            assert(!group_complete(links@, shown_under@, group@, root));
        }
        assert forall|x: int| 0 <= x < n && #[trigger] group@[x] == Some(root) implies kids_placed(links@, group@, x) by {
            assert(!on_stack(stack@, x));
        }
        assert forall|c: int| 0 <= c < n && #[trigger] belongs_to(links@, c, root as int) implies group@[c] == Some(root) by {
            let kk = choose|kk: nat| #[trigger] chain_ends_at(links@, c, root as int, kk);
            lemma_closed_complete(links@, group@, root, c, kk);
        }
    }
    complete
}

/// A subtree together with what orders it among its siblings: the latest
/// update and creation in it and the id of the session that has them.
pub struct BuiltTree {
    pub node: SessionTreeNode,
    pub updated_at_micros: i64,
    pub latest_created_at_micros: i64,
    pub latest_session_id: String,
}

/// Whether `node` has at most `h` levels.
pub open spec fn height_at_most(node: SessionTreeNode, h: nat) -> bool
    decreases h,
{
    if h == 0 {
        false
    } else {
        forall|i: int| 0 <= i < node.children@.len() ==> height_at_most(#[trigger] node.children@[i], (h - 1) as nat)
    }
}

/// When a session was last updated, in microseconds.
pub open spec fn updated_of(s: SessionSummary) -> int {
    micros_spec(s.updated_at@) as int
}

/// Whether every session shown in the tree was updated at `t` or before.
pub open spec fn all_updated_by(node: SessionTreeNode, t: int) -> bool
    decreases node,
{
    updated_of(node.session) <= t && forall|i: int| 0 <= i < node.children@.len() ==> all_updated_by(#[trigger] node.children@[i], t)
}

/// Whether some session shown in the tree was updated at `t`.
pub open spec fn some_updated_at(node: SessionTreeNode, t: int) -> bool
    decreases node,
{
    updated_of(node.session) == t || exists|i: int| 0 <= i < node.children@.len() && some_updated_at(#[trigger] node.children@[i], t)
}

/// Whether `t` is the latest update among the sessions a tree shows.
pub open spec fn latest_update(node: SessionTreeNode, t: int) -> bool {
    all_updated_by(node, t) && some_updated_at(node, t)
}

/// Whether, in every node of the tree, a child whose subtree was updated
/// later is shown before one whose subtree was updated earlier.
pub open spec fn children_latest_first(node: SessionTreeNode) -> bool
    decreases node,
{
    &&& forall|i: int, j: int, ti: int, tj: int|
        0 <= i < j < node.children@.len() && #[trigger] latest_update(node.children@[i], ti) && #[trigger] latest_update(node.children@[j], tj)
        ==> ti >= tj
    &&& forall|i: int| 0 <= i < node.children@.len() ==> children_latest_first(#[trigger] node.children@[i])
}

proof fn lemma_some_below_all(node: SessionTreeNode, t: int, u: int)
    requires
        some_updated_at(node, t),
        all_updated_by(node, u),
    ensures
        t <= u,
    decreases node,
{
    if updated_of(node.session) != t {
        let i = choose|i: int| 0 <= i < node.children@.len() && some_updated_at(#[trigger] node.children@[i], t);
        lemma_some_below_all(node.children@[i], t, u);
    }
}

proof fn lemma_all_updated_by_mono(node: SessionTreeNode, a: int, b: int)
    requires
        all_updated_by(node, a),
        a <= b,
    ensures
        all_updated_by(node, b),
    decreases node,
{
    assert forall|i: int| 0 <= i < node.children@.len() implies all_updated_by(#[trigger] node.children@[i], b) by {
        lemma_all_updated_by_mono(node.children@[i], a, b);
    }
}

/// A tree has one latest update.
proof fn lemma_latest_unique(node: SessionTreeNode, t: int, u: int)
    requires
        latest_update(node, t),
        latest_update(node, u),
    ensures
        t == u,
{
    lemma_some_below_all(node, t, u);
    lemma_some_below_all(node, u, t);
}

/// Siblings in listing order, each carrying the latest update of its
/// subtree, show the later-updated subtrees first.
pub proof fn law_siblings_latest_first(v: Seq<BuiltTree>)
    requires
        siblings_in_order(v),
        forall|i: int| 0 <= i < v.len() ==> latest_update(#[trigger] v[i].node, v[i].updated_at_micros as int),
    ensures
        forall|i: int, j: int, ti: int, tj: int|
            0 <= i < j < v.len() && #[trigger] latest_update(v[i].node, ti) && #[trigger] latest_update(v[j].node, tj) ==> ti >= tj,
{
    assert forall|i: int, j: int, ti: int, tj: int|
        0 <= i < j < v.len() && #[trigger] latest_update(v[i].node, ti) && #[trigger] latest_update(v[j].node, tj) implies ti >= tj by {
        lemma_latest_unique(v[i].node, ti, v[i].updated_at_micros as int);
        lemma_latest_unique(v[j].node, tj, v[j].updated_at_micros as int);
        assert(!listed_before(v[j], v[i]));
    }
}

/// Whether sibling `a` is listed before sibling `b`: later update first,
/// then later creation, then the smaller session id.
pub open spec fn listed_before(a: BuiltTree, b: BuiltTree) -> bool {
    a.updated_at_micros > b.updated_at_micros || (a.updated_at_micros == b.updated_at_micros
        && (a.latest_created_at_micros > b.latest_created_at_micros
        || (a.latest_created_at_micros == b.latest_created_at_micros && text_lt(a.node.session.id@, b.node.session.id@))))
}

fn is_listed_before(a: &BuiltTree, b: &BuiltTree) -> (r: bool)
    ensures
        r == listed_before(*a, *b),
{
    a.updated_at_micros > b.updated_at_micros || (a.updated_at_micros == b.updated_at_micros
        && (a.latest_created_at_micros > b.latest_created_at_micros
        || (a.latest_created_at_micros == b.latest_created_at_micros
        && str_lt(a.node.session.id.as_str(), b.node.session.id.as_str()))))
}

/// Where the element at `a` after moving the element at `i` to `j` was before.
pub open spec fn move_src(i: int, j: int, a: int) -> int {
    if a == j {
        i
    } else {
        let m = if a < j { a } else { a - 1 };
        if m < i { m } else { m + 1 }
    }
}

/// Where the element at `k` is after moving the element at `i` to `j`.
pub open spec fn move_dst(i: int, j: int, k: int) -> int {
    if k == i {
        j
    } else {
        let m = if k < i { k } else { k - 1 };
        if m < j { m } else { m + 1 }
    }
}

/// Moving one element keeps every element, each at one new place.
proof fn lemma_move<A>(s: Seq<A>, i: int, j: int)
    requires
        0 <= j <= i < s.len(),
    ensures
        s.remove(i).insert(j, s[i]).len() == s.len(),
        forall|a: int| 0 <= a < s.len() ==> 0 <= #[trigger] move_src(i, j, a) < s.len()
            && s.remove(i).insert(j, s[i])[a] == s[move_src(i, j, a)],
        forall|k: int| 0 <= k < s.len() ==> 0 <= #[trigger] move_dst(i, j, k) < s.len()
            && s.remove(i).insert(j, s[i])[move_dst(i, j, k)] == s[k],
        forall|a1: int, a2: int| 0 <= a1 < s.len() && 0 <= a2 < s.len() && a1 != a2 ==> #[trigger] move_src(i, j, a1)
            != #[trigger] move_src(i, j, a2),
{
    let mid = s.remove(i);
    let after = mid.insert(j, s[i]);
    assert forall|a: int| 0 <= a < s.len() implies 0 <= #[trigger] move_src(i, j, a) < s.len()
        && after[a] == s[move_src(i, j, a)] by {
        if a != j {
            let m = if a < j { a } else { a - 1 };
            assert(after[a] == mid[m]);
        }
    }
    assert forall|k: int| 0 <= k < s.len() implies 0 <= #[trigger] move_dst(i, j, k) < s.len()
        && after[move_dst(i, j, k)] == s[k] by {
        if k != i {
            let m = if k < i { k } else { k - 1 };
            assert(mid[m] == s[k]);
            if m < j {
                assert(after[m] == mid[m]);
            } else {
                assert(after[m + 1] == mid[m]);
            }
        }
    }
}

/// Whether no two trees of `v` show a session with the same id.
pub open spec fn disjoint_built(v: Seq<BuiltTree>) -> bool {
    forall|a: int, b: int, x: Seq<char>| 0 <= a < v.len() && 0 <= b < v.len() && a != b ==> !(#[trigger] shows_id(
        v[a].node,
        x,
    ) && #[trigger] shows_id(v[b].node, x))
}

/// Listing order of siblings is a strict order whose complement is transitive.
proof fn lemma_sibling_order(a: BuiltTree, b: BuiltTree, c: BuiltTree)
    ensures
        !listed_before(a, a),
        listed_before(a, b) ==> !listed_before(b, a),
        !listed_before(a, b) && !listed_before(b, c) ==> !listed_before(a, c),
{
    let (x, y, z) = (a.node.session.id@, b.node.session.id@, c.node.session.id@);
    lemma_text_lt_order(x, y, z);
    lemma_text_lt_order(z, y, x);
    lemma_text_lt_order(y, x, y);
    lemma_text_lt_order(x, z, x);
    lemma_text_lt_order(y, z, y);
    lemma_text_lt_order(z, x, z);
    lemma_text_lt_order(x, y, x);
}

/// Whether siblings are in listing order.
pub open spec fn siblings_in_order(v: Seq<BuiltTree>) -> bool {
    forall|a: int, b: int| 0 <= a < b < v.len() ==> !listed_before(#[trigger] v[b], #[trigger] v[a])
}

proof fn lemma_sibling_move_sorted(before: Seq<BuiltTree>, i: int, j: int)
    requires
        0 <= j <= i < before.len(),
        forall|a: int, b: int| 0 <= a < b < i ==> !listed_before(#[trigger] before[b], #[trigger] before[a]),
        j > 0 ==> !listed_before(before[i], before[j - 1]),
        forall|k: int| j <= k < i ==> listed_before(before[i], #[trigger] before[k]),
    ensures
        forall|a: int, b: int| 0 <= a < b < i + 1 ==> !listed_before(
            #[trigger] before.remove(i).insert(j, before[i])[b],
            #[trigger] before.remove(i).insert(j, before[i])[a],
        ),
{
    let x = before[i];
    let after = before.remove(i).insert(j, x);
    lemma_move(before, i, j);
    assert forall|a: int, b: int| 0 <= a < b < i + 1 implies !listed_before(#[trigger] after[b], #[trigger] after[a]) by {
        assert(after[a] == before[move_src(i, j, a)]);
        assert(after[b] == before[move_src(i, j, b)]);
        if b == j {
            lemma_sibling_order(x, before[j - 1], before[a]);
        } else if a == j {
            lemma_sibling_order(x, before[b - 1], x);
        }
    }
}

/// Sorts siblings into listing order by insertion; the same trees stay,
/// each once.
fn sort_siblings(v: &mut Vec<BuiltTree>, Ghost(h): Ghost<nat>)
    requires
        forall|i: int| 0 <= i < old(v)@.len() ==> height_at_most(#[trigger] old(v)@[i].node, h),
    ensures
        final(v)@.len() == old(v)@.len(),
        forall|i: int| 0 <= i < final(v)@.len() ==> height_at_most(#[trigger] final(v)@[i].node, h),
        forall|i: int| 0 <= i < final(v)@.len() ==> old(v)@.contains(#[trigger] final(v)@[i]),
        forall|i: int| 0 <= i < old(v)@.len() ==> final(v)@.contains(#[trigger] old(v)@[i]),
        disjoint_built(old(v)@) ==> disjoint_built(final(v)@),
        siblings_in_order(final(v)@),
{
    let ghost orig = v@;
    let ghost mut pos: Seq<int> = Seq::new(v@.len(), |k: int| k);
    let ghost mut inv: Seq<int> = Seq::new(v@.len(), |k: int| k);
    if v.len() == 0 {
        return;
    }
    let mut i: usize = 1;
    while i < v.len()
        invariant
            1 <= i,
            v@.len() == orig.len(),
            orig == old(v)@,
            forall|k: int| 0 <= k < v@.len() ==> height_at_most(#[trigger] v@[k].node, h),
            pos.len() == v@.len(),
            forall|k: int| 0 <= k < v@.len() ==> 0 <= #[trigger] pos[k] < orig.len() && v@[k] == orig[pos[k]],
            forall|k1: int, k2: int| 0 <= k1 < v@.len() && 0 <= k2 < v@.len() && k1 != k2 ==> #[trigger] pos[k1] != #[trigger] pos[k2],
            inv.len() == orig.len(),
            forall|t: int| 0 <= t < orig.len() ==> 0 <= #[trigger] inv[t] < v@.len() && pos[inv[t]] == t,
            i <= v@.len(),
            forall|a: int, b: int| 0 <= a < b < i ==> !listed_before(#[trigger] v@[b], #[trigger] v@[a]),
        decreases v@.len() - i,
    {
        let ghost before = v@;
        let x = v.remove(i);
        let ghost mid = v@;
        let mut j: usize = i;
        while j > 0 && is_listed_before(&x, &v[j - 1])
            invariant
                j <= i,
                i <= v@.len(),
                v@ == mid,
                mid == before.remove(i as int),
                x == before[i as int],
                i < before.len(),
                forall|k: int| j <= k < i ==> listed_before(x, #[trigger] before[k]),
            decreases j,
        {
            assert(mid[j - 1] == before[j - 1]);
            j = j - 1;
        }
        proof {
            if j > 0 {
                assert(mid[j - 1] == before[j - 1]);
            }
            lemma_sibling_move_sorted(before, i as int, j as int);
        }
        v.insert(j, x);
        proof {
            lemma_move(before, i as int, j as int);
            lemma_move(pos, i as int, j as int);
            assert(v@ == before.remove(i as int).insert(j as int, before[i as int]));
            let old_pos = pos;
            pos = pos.remove(i as int).insert(j as int, pos[i as int]);
            assert forall|k: int| 0 <= k < v@.len() implies height_at_most(#[trigger] v@[k].node, h) by {
                assert(v@[k] == before[move_src(i as int, j as int, k)]);
            }
            assert forall|k: int| 0 <= k < v@.len() implies 0 <= #[trigger] pos[k] < orig.len() && v@[k] == orig[pos[k]] by {
                assert(pos[k] == old_pos[move_src(i as int, j as int, k)]);
                assert(v@[k] == before[move_src(i as int, j as int, k)]);
            }
            assert forall|k1: int, k2: int| 0 <= k1 < v@.len() && 0 <= k2 < v@.len() && k1 != k2 implies #[trigger] pos[k1]
                != #[trigger] pos[k2] by {
                assert(pos[k1] == old_pos[move_src(i as int, j as int, k1)]);
                assert(pos[k2] == old_pos[move_src(i as int, j as int, k2)]);
                assert(move_src(i as int, j as int, k1) != move_src(i as int, j as int, k2));
            }
            let old_inv = inv;
            inv = Seq::new(orig.len(), |t: int| move_dst(i as int, j as int, old_inv[t]));
            assert forall|t: int| 0 <= t < orig.len() implies 0 <= #[trigger] inv[t] < v@.len() && pos[inv[t]] == t by {
                assert(pos[move_dst(i as int, j as int, old_inv[t])] == old_pos[old_inv[t]]);
            }
        }
        i = i + 1;
    }
    proof {
        assert forall|k: int| 0 <= k < v@.len() implies orig.contains(#[trigger] v@[k]) by {
            assert(v@[k] == orig[pos[k]]);
        }
        assert forall|t: int| 0 <= t < orig.len() implies v@.contains(#[trigger] orig[t]) by {
            assert(v@[inv[t]] == orig[pos[inv[t]]]);
        }
        if disjoint_built(orig) {
            assert forall|a: int, b: int, x: Seq<char>| 0 <= a < v@.len() && 0 <= b < v@.len() && a != b implies !(
            #[trigger] shows_id(v@[a].node, x) && #[trigger] shows_id(v@[b].node, x)) by {
                assert(v@[a] == orig[pos[a]] && v@[b] == orig[pos[b]]);
                assert(pos[a] != pos[b]);
            }
        }
    }
}

/// Whether `update`/`created`/`id` is later than `(u, c, i)` in the order
/// that picks a group's latest session: later update, then later creation,
/// then the smaller id.
pub open spec fn later_than(u: i64, c: i64, id: Seq<char>, u2: i64, c2: i64, id2: Seq<char>) -> bool {
    u > u2 || (u == u2 && (c > c2 || (c == c2 && text_lt(id, id2))))
}

/// Every session among the first `upto` linked to `q` is listed, in
/// increasing order.
proof fn lemma_linked_to_all(links: Seq<Option<usize>>, q: int, upto: int)
    requires
        0 <= upto <= links.len(),
        upto <= usize::MAX,
        0 <= q <= usize::MAX,
    ensures
        forall|c: int| 0 <= c < upto && links[c] == Some(q as usize) ==> #[trigger] linked_to(links, q, upto).contains(c as usize),
        forall|a: int, b: int| 0 <= a < b < linked_to(links, q, upto).len() ==> #[trigger] linked_to(links, q, upto)[a]
            < #[trigger] linked_to(links, q, upto)[b],
    decreases upto,
{
    if upto > 0 {
        lemma_linked_to_all(links, q, upto - 1);
        lemma_linked_to(links, q, upto - 1);
        let prev = linked_to(links, q, upto - 1);
        let cur = linked_to(links, q, upto);
        if links[upto - 1] == Some(q as usize) {
            assert(cur == prev.push((upto - 1) as usize));
            assert forall|c: int| 0 <= c < upto && links[c] == Some(q as usize) implies #[trigger] cur.contains(c as usize) by {
                if c < upto - 1 {
                    assert(prev.contains(c as usize));
                    let k = choose|k: int| 0 <= k < prev.len() && prev[k] == c as usize;
                    assert(cur[k] == prev[k]);
                } else {
                    assert(cur[prev.len() as int] == c as usize);
                }
            }
            assert forall|a: int, b: int| 0 <= a < b < cur.len() implies #[trigger] cur[a] < #[trigger] cur[b] by {
                assert(cur[a] == prev[a]);
                if b < prev.len() {
                    assert(cur[b] == prev[b]);
                }
            }
        }
    }
}

/// Sessions of a table with strictly increasing ids differ in id.
proof fn lemma_ids_distinct(table: Seq<SessionSummary>, a: int, b: int)
    requires
        strictly_increasing(ids_of(table)),
        0 <= a < table.len(),
        0 <= b < table.len(),
        table[a].id@ == table[b].id@,
    ensures
        a == b,
{
    let ids = ids_of(table);
    assert(ids[a] == table[a].id@ && ids[b] == table[b].id@);
    lemma_text_lt_order(ids[a], ids[b], ids[a]);
    if a < b {
        assert(text_lt(ids[a], ids[b]));
    } else if b < a {
        assert(text_lt(ids[b], ids[a]));
    }
}

/// Whether some session of the table displayed below `p` has id `x`.
pub open spec fn subtree_has_id(table: Seq<SessionSummary>, su: Seq<Option<usize>>, p: int, x: Seq<char>) -> bool {
    exists|c: int| 0 <= c < table.len() && #[trigger] in_subtree(su, c, p) && table[c].id@ == x
}

/// Sessions below two different sessions shown under the same session
/// never share an id.
proof fn lemma_sibling_ids_disjoint(
    table: Seq<SessionSummary>,
    su: Seq<Option<usize>>,
    level: Seq<usize>,
    k1: int,
    k2: int,
    p: usize,
    x: Seq<char>,
)
    requires
        su.len() == table.len(),
        levels_ok(su, level),
        strictly_increasing(ids_of(table)),
        0 <= k1 < su.len(),
        0 <= k2 < su.len(),
        k1 != k2,
        su[k1] == Some(p),
        su[k2] == Some(p),
    ensures
        !(subtree_has_id(table, su, k1, x) && subtree_has_id(table, su, k2, x)),
{
    if subtree_has_id(table, su, k1, x) && subtree_has_id(table, su, k2, x) {
        let c1 = choose|c: int| 0 <= c < table.len() && #[trigger] in_subtree(su, c, k1) && table[c].id@ == x;
        let c2 = choose|c: int| 0 <= c < table.len() && #[trigger] in_subtree(su, c, k2) && table[c].id@ == x;
        lemma_ids_distinct(table, c1, c2);
        assert(level[k1] == level[p as int] + 1 && level[k2] == level[p as int] + 1);
        lemma_same_level_unique(su, level, c1, k1, k2);
    }
}

/// The node built for `p` from the trees of the sessions shown under it
/// shows exactly the sessions below `p`, each once.
proof fn lemma_node_shows(
    table: Seq<SessionSummary>,
    su: Seq<Option<usize>>,
    level: Seq<usize>,
    p: usize,
    kids: Seq<usize>,
    unsorted: Seq<BuiltTree>,
    sorted: Seq<BuiltTree>,
    node: SessionTreeNode,
)
    requires
        p < table.len(),
        su.len() == table.len(),
        table.len() <= usize::MAX,
        levels_ok(su, level),
        strictly_increasing(ids_of(table)),
        forall|c: int| 0 <= c < table.len() && su[c] == Some(p) ==> #[trigger] kids.contains(c as usize),
        forall|i: int| 0 <= i < kids.len() ==> (#[trigger] kids[i]) < table.len() && su[kids[i] as int] == Some(p),
        unsorted.len() == kids.len(),
        forall|i: int, x: Seq<char>| 0 <= i < unsorted.len() ==> (#[trigger] shows_id(unsorted[i].node, x)
            <==> subtree_has_id(table, su, kids[i] as int, x)),
        forall|i: int| 0 <= i < unsorted.len() ==> shown_once(#[trigger] unsorted[i].node),
        forall|i: int| 0 <= i < sorted.len() ==> unsorted.contains(#[trigger] sorted[i]),
        forall|i: int| 0 <= i < unsorted.len() ==> sorted.contains(#[trigger] unsorted[i]),
        disjoint_built(sorted),
        node.session == table[p as int],
        node.children@.len() == sorted.len(),
        forall|i: int| 0 <= i < sorted.len() ==> #[trigger] node.children@[i] == sorted[i].node,
    ensures
        forall|x: Seq<char>| #[trigger] shows_id(node, x) <==> subtree_has_id(table, su, p as int, x),
        shown_once(node),
{
    let ch = node.children@;
    assert(up(su, p as int, 0) == p as int);
    assert forall|x: Seq<char>| #[trigger] shows_id(node, x) implies subtree_has_id(table, su, p as int, x) by {
        if node.session.id@ == x {
            assert(in_subtree(su, p as int, p as int));
        } else {
            let i = choose|i: int| 0 <= i < ch.len() && shows_id(#[trigger] ch[i], x);
            assert(ch[i] == sorted[i].node);
            let j = choose|j: int| 0 <= j < unsorted.len() && unsorted[j] == sorted[i];
            assert(shows_id(unsorted[j].node, x));
            assert(subtree_has_id(table, su, kids[j] as int, x));
            let c = choose|c: int| 0 <= c < table.len() && #[trigger] in_subtree(su, c, kids[j] as int) && table[c].id@ == x;
            lemma_subtree_parent(su, c, kids[j] as int, p as int);
        }
    }
    assert forall|x: Seq<char>| subtree_has_id(table, su, p as int, x) implies #[trigger] shows_id(node, x) by {
        let c = choose|c: int| 0 <= c < table.len() && #[trigger] in_subtree(su, c, p as int) && table[c].id@ == x;
        if c != p {
            let k = lemma_subtree_step(su, level, c, p as int);
            assert(kids.contains(k as usize));
            let j = choose|j: int| 0 <= j < kids.len() && kids[j] == k as usize;
            assert(subtree_has_id(table, su, kids[j] as int, x));
            assert(shows_id(unsorted[j].node, x));
            assert(sorted.contains(unsorted[j]));
            let i = choose|i: int| 0 <= i < sorted.len() && sorted[i] == unsorted[j];
            assert(shows_id(ch[i], x));
        }
    }
    assert forall|i: int| 0 <= i < ch.len() implies !shows_id(#[trigger] ch[i], node.session.id@) by {
        assert(ch[i] == sorted[i].node);
        let j = choose|j: int| 0 <= j < unsorted.len() && unsorted[j] == sorted[i];
        if shows_id(ch[i], node.session.id@) {
            assert(shows_id(unsorted[j].node, node.session.id@));
            let c = choose|c: int| 0 <= c < table.len() && #[trigger] in_subtree(su, c, kids[j] as int) && table[c].id@
                == node.session.id@;
            lemma_ids_distinct(table, c, p as int);
            lemma_parent_not_below(su, level, p as int, kids[j] as int);
        }
    }
    assert forall|a: int, b: int, x: Seq<char>| 0 <= a < ch.len() && 0 <= b < ch.len() && a != b implies !(
    #[trigger] shows_id(ch[a], x) && #[trigger] shows_id(ch[b], x)) by {
        assert(ch[a] == sorted[a].node && ch[b] == sorted[b].node);
    }
    assert forall|i: int| 0 <= i < ch.len() implies shown_once(#[trigger] ch[i]) by {
        assert(ch[i] == sorted[i].node);
        let j = choose|j: int| 0 <= j < unsorted.len() && unsorted[j] == sorted[i];
        assert(shown_once(unsorted[j].node));
    }
}

/// Whether `s` names `t` as its parent.
pub open spec fn parent_names(s: SessionSummary, t: SessionSummary) -> bool {
    s.parent_thread_id matches Some(pid) && pid@ == t.id@
}

/// Whether every session of the tree is shown under the session it names
/// as its parent, or directly under the tree's root `root_id`.
pub open spec fn children_follow_parents(node: SessionTreeNode, root_id: Seq<char>) -> bool
    decreases node,
{
    forall|i: int| 0 <= i < node.children@.len() ==> (parent_names((#[trigger] node.children@[i]).session, node.session)
        || node.session.id@ == root_id) && children_follow_parents(node.children@[i], root_id)
}

/// The node built for `p` shows each session under its parent, or under the root.
proof fn lemma_node_edges(
    table: Seq<SessionSummary>,
    su: Seq<Option<usize>>,
    p: usize,
    top: usize,
    kids: Seq<usize>,
    unsorted: Seq<BuiltTree>,
    sorted: Seq<BuiltTree>,
    node: SessionTreeNode,
)
    requires
        p < table.len(),
        top < table.len(),
        su.len() == table.len(),
        su[top as int] is None,
        in_subtree(su, p as int, top as int),
        forall|c: int| 0 <= c < table.len() ==> (#[trigger] su[c] matches Some(q) ==> parent_names(table[c], table[q as int])
            || su[q as int] is None),
        forall|i: int| 0 <= i < kids.len() ==> (#[trigger] kids[i]) < table.len() && su[kids[i] as int] == Some(p),
        unsorted.len() == kids.len(),
        forall|i: int| 0 <= i < unsorted.len() ==> (#[trigger] unsorted[i]).node.session == table[kids[i] as int],
        forall|i: int| 0 <= i < unsorted.len() ==> children_follow_parents(#[trigger] unsorted[i].node, table[top as int].id@),
        forall|i: int| 0 <= i < sorted.len() ==> unsorted.contains(#[trigger] sorted[i]),
        node.session == table[p as int],
        node.children@.len() == sorted.len(),
        forall|i: int| 0 <= i < sorted.len() ==> #[trigger] node.children@[i] == sorted[i].node,
    ensures
        children_follow_parents(node, table[top as int].id@),
{
    let ch = node.children@;
    assert forall|i: int| 0 <= i < ch.len() implies (parent_names((#[trigger] ch[i]).session, node.session)
        || node.session.id@ == table[top as int].id@) && children_follow_parents(ch[i], table[top as int].id@) by {
        assert(ch[i] == sorted[i].node);
        assert(unsorted.contains(sorted[i]));
        let j = choose|j: int| 0 <= j < unsorted.len() && unsorted[j] == sorted[i];
        assert(unsorted[j].node.session == table[kids[j] as int]);
        assert(su[kids[j] as int] == Some(p));
        if !parent_names(ch[i].session, node.session) {
            assert(su[p as int] is None);
            let m = choose|m: nat| #[trigger] up(su, p as int, m) == top as int;
            if m > 0 {
                assert(up(su, p as int, m) == -1);
            }
        }
        assert(children_follow_parents(unsorted[j].node, table[top as int].id@));
    }
}

/// Whether every session of the tree is shown directly under the session it
/// names as its parent.
pub open spec fn follows_parents(node: SessionTreeNode) -> bool
    decreases node,
{
    forall|i: int| 0 <= i < node.children@.len() ==> parent_names((#[trigger] node.children@[i]).session, node.session)
        && follows_parents(node.children@[i])
}

/// Whether every session displayed below `p`, other than `p`, is displayed
/// under the session it names as its parent.
pub open spec fn edges_follow(table: Seq<SessionSummary>, su: Seq<Option<usize>>, p: int) -> bool {
    forall|c: int| 0 <= c < table.len() && c != p && #[trigger] in_subtree(su, c, p) ==> (su[c] matches Some(q)
        && parent_names(table[c], table[q as int]))
}

/// The node built for `p` follows the parent links exactly when every
/// session displayed below `p` is displayed under its parent.
proof fn lemma_node_follows(
    table: Seq<SessionSummary>,
    su: Seq<Option<usize>>,
    level: Seq<usize>,
    p: usize,
    kids: Seq<usize>,
    unsorted: Seq<BuiltTree>,
    sorted: Seq<BuiltTree>,
    node: SessionTreeNode,
)
    requires
        p < table.len(),
        su.len() == table.len(),
        table.len() <= usize::MAX,
        levels_ok(su, level),
        forall|c: int| 0 <= c < table.len() && su[c] == Some(p) ==> #[trigger] kids.contains(c as usize),
        forall|i: int| 0 <= i < kids.len() ==> (#[trigger] kids[i]) < table.len() && su[kids[i] as int] == Some(p),
        unsorted.len() == kids.len(),
        forall|i: int| 0 <= i < unsorted.len() ==> (#[trigger] unsorted[i]).node.session == table[kids[i] as int],
        forall|i: int| 0 <= i < unsorted.len() ==> (follows_parents(#[trigger] unsorted[i].node) <==> edges_follow(
            table,
            su,
            kids[i] as int,
        )),
        forall|i: int| 0 <= i < sorted.len() ==> unsorted.contains(#[trigger] sorted[i]),
        forall|i: int| 0 <= i < unsorted.len() ==> sorted.contains(#[trigger] unsorted[i]),
        node.session == table[p as int],
        node.children@.len() == sorted.len(),
        forall|i: int| 0 <= i < sorted.len() ==> #[trigger] node.children@[i] == sorted[i].node,
    ensures
        follows_parents(node) <==> edges_follow(table, su, p as int),
{
    let ch = node.children@;
    if edges_follow(table, su, p as int) {
        assert forall|i: int| 0 <= i < ch.len() implies parent_names((#[trigger] ch[i]).session, node.session)
            && follows_parents(ch[i]) by {
            assert(ch[i] == sorted[i].node);
            let j = choose|j: int| 0 <= j < unsorted.len() && unsorted[j] == sorted[i];
            let k = kids[j] as int;
            assert(up(su, p as int, 0) == p as int);
            assert(up(su, k, 1) == up(su, p as int, 0));
            assert(in_subtree(su, k, p as int));
            assert forall|c: int| 0 <= c < table.len() && c != k && #[trigger] in_subtree(su, c, k) implies (su[c] matches Some(q)
                && parent_names(table[c], table[q as int])) by {
                lemma_subtree_parent(su, c, k, p as int);
                lemma_parent_not_below(su, level, p as int, k);
            }
            assert(edges_follow(table, su, k));
        }
    }
    if follows_parents(node) {
        assert forall|c: int| 0 <= c < table.len() && c != p && #[trigger] in_subtree(su, c, p as int) implies (su[c] matches Some(
            q,
        ) && parent_names(table[c], table[q as int])) by {
            let k = lemma_subtree_step(su, level, c, p as int);
            assert(kids.contains(k as usize));
            let j = choose|j: int| 0 <= j < kids.len() && kids[j] == k as usize;
            assert(sorted.contains(unsorted[j]));
            let i = choose|i: int| 0 <= i < sorted.len() && sorted[i] == unsorted[j];
            assert(ch[i] == unsorted[j].node);
            assert(parent_names(ch[i].session, node.session) && follows_parents(ch[i]));
            if c != k {
                assert(edges_follow(table, su, kids[j] as int));
            }
        }
    }
}

/// Builds the subtree shown under session `p`, children first: it shows
/// exactly the sessions displayed below `p`, each once.
fn build_tree(
    p: usize,
    table: &Vec<SessionSummary>,
    shown: &Vec<Vec<usize>>,
    Ghost(shown_under): Ghost<Seq<Option<usize>>>,
    Ghost(level): Ghost<Seq<usize>>,
    Ghost(top): Ghost<usize>,
) -> (r: BuiltTree)
    requires
        p < table@.len(),
        top < table@.len(),
        shown_under[top as int] is None,
        in_subtree(shown_under, p as int, top as int),
        forall|c: int| 0 <= c < table@.len() ==> (#[trigger] shown_under[c] matches Some(q) ==> parent_names(table@[c], table@[q as int])
            || shown_under[q as int] is None),
        shown@.len() == table@.len(),
        shown_under.len() == table@.len(),
        level.len() == table@.len(),
        table@.len() <= usize::MAX,
        strictly_increasing(ids_of(table@)),
        forall|q: int| 0 <= q < table@.len() ==> #[trigger] shown@[q]@ == linked_to(shown_under, q, table@.len() as int),
        forall|c: int| 0 <= c < table@.len() ==> (#[trigger] shown_under[c] matches Some(q) ==> q < table@.len()
            && level[c] == level[q as int] + 1 && level[c] <= MAX_SESSION_TREE_DEPTH),
        1 <= level[p as int] <= MAX_SESSION_TREE_DEPTH,
    ensures
        r.node.session == table@[p as int],
        height_at_most(r.node, (MAX_SESSION_TREE_DEPTH + 1 - level[p as int]) as nat),
        forall|x: Seq<char>| #[trigger] shows_id(r.node, x) <==> subtree_has_id(table@, shown_under, p as int, x),
        shown_once(r.node),
        children_follow_parents(r.node, table@[top as int].id@),
        follows_parents(r.node) <==> edges_follow(table@, shown_under, p as int),
        latest_update(r.node, r.updated_at_micros as int),
        children_latest_first(r.node),
    decreases MAX_SESSION_TREE_DEPTH - level[p as int],
{
    let n = table.len();
    let kids = &shown[p];
    proof {
        lemma_linked_to(shown_under, p as int, n as int);
        lemma_linked_to_all(shown_under, p as int, n as int);
        assert(levels_ok(shown_under, level));
    }
    let ghost h: nat = (MAX_SESSION_TREE_DEPTH - level[p as int]) as nat;
    let mut built: Vec<BuiltTree> = Vec::new();
    let mut k: usize = 0;
    while k < kids.len()
        invariant
            k <= kids@.len(),
            n == table@.len(),
            p < n,
            shown@.len() == n,
            shown_under.len() == n,
            level.len() == n,
            n <= usize::MAX,
            levels_ok(shown_under, level),
            strictly_increasing(ids_of(table@)),
            forall|q: int| 0 <= q < n ==> #[trigger] shown@[q]@ == linked_to(shown_under, q, n as int),
            forall|c: int| 0 <= c < n ==> (#[trigger] shown_under[c] matches Some(q) ==> q < n
                && level[c] == level[q as int] + 1 && level[c] <= MAX_SESSION_TREE_DEPTH),
            1 <= level[p as int] <= MAX_SESSION_TREE_DEPTH,
            h == MAX_SESSION_TREE_DEPTH - level[p as int],
            kids@ == shown@[p as int]@,
            forall|i: int| 0 <= i < kids@.len() ==> (#[trigger] kids@[i]) < n && shown_under[kids@[i] as int] == Some(p),
            forall|a: int, b: int| 0 <= a < b < kids@.len() ==> #[trigger] kids@[a] < #[trigger] kids@[b],
            built@.len() == k,
            forall|i: int| 0 <= i < built@.len() ==> height_at_most(#[trigger] built@[i].node, h),
            forall|i: int, x: Seq<char>| 0 <= i < built@.len() ==> (#[trigger] shows_id(built@[i].node, x)
                <==> subtree_has_id(table@, shown_under, kids@[i] as int, x)),
            forall|i: int| 0 <= i < built@.len() ==> shown_once(#[trigger] built@[i].node),
            disjoint_built(built@),
            top < n,
            shown_under[top as int] is None,
            in_subtree(shown_under, p as int, top as int),
            forall|c: int| 0 <= c < n ==> (#[trigger] shown_under[c] matches Some(q) ==> parent_names(table@[c], table@[q as int])
                || shown_under[q as int] is None),
            forall|i: int| 0 <= i < built@.len() ==> (#[trigger] built@[i]).node.session == table@[kids@[i] as int],
            forall|i: int| 0 <= i < built@.len() ==> children_follow_parents(#[trigger] built@[i].node, table@[top as int].id@),
            forall|i: int| 0 <= i < built@.len() ==> (follows_parents(#[trigger] built@[i].node) <==> edges_follow(
                table@,
                shown_under,
                kids@[i] as int,
            )),
            forall|i: int| 0 <= i < built@.len() ==> latest_update(#[trigger] built@[i].node, built@[i].updated_at_micros as int)
                && children_latest_first(built@[i].node),
        decreases kids@.len() - k,
    {
        let c = kids[k];
        proof {
            let m = choose|m: nat| #[trigger] up(shown_under, p as int, m) == top as int;
            assert(up(shown_under, c as int, 1) == up(shown_under, p as int, 0));
            lemma_up_add(shown_under, c as int, 1, m);
            assert(up(shown_under, c as int, 1 + m) == top as int);
        }
        let sub = build_tree(c, table, shown, Ghost(shown_under), Ghost(level), Ghost(top));
        let ghost before = built@;
        built.push(sub);
        proof {
            assert forall|i: int| 0 <= i < built@.len() implies latest_update(#[trigger] built@[i].node, built@[i].updated_at_micros as int)
                && children_latest_first(built@[i].node) by {
                if i < before.len() {
                    assert(built@[i] == before[i]);
                }
            }
            assert forall|i: int| 0 <= i < built@.len() implies height_at_most(#[trigger] built@[i].node, h) by {
                if i < before.len() {
                    assert(built@[i] == before[i]);
                }
            }
            assert forall|i: int, x: Seq<char>| 0 <= i < built@.len() implies (#[trigger] shows_id(built@[i].node, x)
                <==> subtree_has_id(table@, shown_under, kids@[i] as int, x)) by {
                if i < before.len() {
                    assert(built@[i] == before[i]);
                }
            }
            assert forall|i: int| 0 <= i < built@.len() implies shown_once(#[trigger] built@[i].node) by {
                if i < before.len() {
                    assert(built@[i] == before[i]);
                }
            }
            assert forall|i: int| 0 <= i < built@.len() implies (#[trigger] built@[i]).node.session == table@[kids@[i] as int]
                && children_follow_parents(built@[i].node, table@[top as int].id@)
                && (follows_parents(built@[i].node) <==> edges_follow(table@, shown_under, kids@[i] as int)) by {
                if i < before.len() {
                    assert(built@[i] == before[i]);
                }
            }
            assert forall|a: int, b: int, x: Seq<char>| 0 <= a < built@.len() && 0 <= b < built@.len() && a != b implies !(
            #[trigger] shows_id(built@[a].node, x) && #[trigger] shows_id(built@[b].node, x)) by {
                if a < before.len() && b < before.len() {
                    assert(built@[a] == before[a] && built@[b] == before[b]);
                } else {
                    if a < before.len() {
                        assert(built@[a] == before[a]);
                        assert(kids@[a] < kids@[b]);
                    } else {
                        assert(built@[b] == before[b]);
                        assert(kids@[b] < kids@[a]);
                    }
                    lemma_sibling_ids_disjoint(table@, shown_under, level, kids@[a] as int, kids@[b] as int, p, x);
                }
            }
        }
        k = k + 1;
    }
    let ghost unsorted = built@;
    sort_siblings(&mut built, Ghost(h));
    let ghost sorted = built@;
    let session = table[p].duplicate();
    let mut updated_at_micros = micros(session.updated_at.as_str());
    let mut latest_created_at_micros = micros(session.created_at.as_str());
    let mut latest_session_id = session.id.clone();
    let ghost own = updated_of(table@[p as int]);
    proof {
        assert forall|i: int| 0 <= i < sorted.len() implies latest_update(#[trigger] sorted[i].node, sorted[i].updated_at_micros as int)
            && children_latest_first(sorted[i].node) by {
            assert(unsorted.contains(sorted[i]));
            let j = choose|j: int| 0 <= j < unsorted.len() && unsorted[j] == sorted[i];
            assert(latest_update(unsorted[j].node, unsorted[j].updated_at_micros as int));
        }
    }
    let mut i: usize = 0;
    while i < built.len()
        invariant
            i <= built@.len(),
            built@ == sorted,
            own == updated_of(table@[p as int]),
            session == table@[p as int],
            updated_at_micros as int >= own,
            forall|k: int| 0 <= k < i ==> updated_at_micros >= (#[trigger] sorted[k]).updated_at_micros,
            updated_at_micros as int == own || exists|k: int| 0 <= k < i && updated_at_micros == (#[trigger] sorted[k]).updated_at_micros,
        decreases built@.len() - i,
    {
        let child = &built[i];
        if child.updated_at_micros > updated_at_micros || (child.updated_at_micros == updated_at_micros
            && (child.latest_created_at_micros > latest_created_at_micros
            || (child.latest_created_at_micros == latest_created_at_micros
            && str_lt(child.latest_session_id.as_str(), latest_session_id.as_str())))) {
            updated_at_micros = child.updated_at_micros;
            latest_created_at_micros = child.latest_created_at_micros;
            latest_session_id = child.latest_session_id.clone();
        }
        i = i + 1;
    }
    let mut reversed: Vec<SessionTreeNode> = Vec::new();
    while built.len() > 0
        invariant
            built@.len() + reversed@.len() == sorted.len(),
            forall|i: int| 0 <= i < built@.len() ==> #[trigger] built@[i] == sorted[i],
            forall|i: int| 0 <= i < reversed@.len() ==> #[trigger] reversed@[i] == sorted[sorted.len() - 1 - i].node,
        decreases built@.len(),
    {
        let b = built.pop().unwrap();
        reversed.push(b.node);
    }
    let mut children: Vec<SessionTreeNode> = Vec::new();
    while reversed.len() > 0
        invariant
            children@.len() + reversed@.len() == sorted.len(),
            forall|i: int| 0 <= i < reversed@.len() ==> #[trigger] reversed@[i] == sorted[sorted.len() - 1 - i].node,
            forall|i: int| 0 <= i < children@.len() ==> #[trigger] children@[i] == sorted[i].node,
        decreases reversed@.len(),
    {
        let node = reversed.pop().unwrap();
        children.push(node);
    }
    let node = SessionTreeNode { session, children };
    proof {
        assert forall|i: int| 0 <= i < node.children@.len() implies height_at_most(#[trigger] node.children@[i], h) by {
            assert(node.children@[i] == sorted[i].node);
        }
        assert(height_at_most(node, h + 1));
        lemma_node_shows(table@, shown_under, level, p, kids@, unsorted, sorted, node);
        lemma_node_edges(table@, shown_under, p, top, kids@, unsorted, sorted, node);
        lemma_node_follows(table@, shown_under, level, p, kids@, unsorted, sorted, node);
        let u = updated_at_micros as int;
        assert(node.children@.len() == sorted.len());
        assert forall|c: int| 0 <= c < node.children@.len() implies all_updated_by(#[trigger] node.children@[c], u) by {
            assert(node.children@[c] == sorted[c].node);
            assert(latest_update(sorted[c].node, sorted[c].updated_at_micros as int));
            lemma_all_updated_by_mono(sorted[c].node, sorted[c].updated_at_micros as int, u);
        }
        assert(all_updated_by(node, u));
        if u != own {
            let k = choose|k: int| 0 <= k < sorted.len() && updated_at_micros == (#[trigger] sorted[k]).updated_at_micros;
            assert(node.children@[k] == sorted[k].node);
            assert(latest_update(sorted[k].node, sorted[k].updated_at_micros as int));
            assert(some_updated_at(node.children@[k], u));
        }
        assert(some_updated_at(node, u));
        law_siblings_latest_first(sorted);
        assert forall|a: int, b: int, ta: int, tb: int|
            0 <= a < b < node.children@.len() && #[trigger] latest_update(node.children@[a], ta) && #[trigger] latest_update(node.children@[b], tb)
            implies ta >= tb by {
            assert(node.children@[a] == sorted[a].node);
            assert(node.children@[b] == sorted[b].node);
            assert(latest_update(sorted[a].node, ta) && latest_update(sorted[b].node, tb));
        }
        assert forall|c: int| 0 <= c < node.children@.len() implies children_latest_first(#[trigger] node.children@[c]) by {
            assert(node.children@[c] == sorted[c].node);
        }
        assert(children_latest_first(node));
    }
    BuiltTree { node, updated_at_micros, latest_created_at_micros, latest_session_id }
}

/// Whether group `a` is listed before group `b`: latest update first, then
/// the smaller root id.
pub open spec fn group_listed_before(a: SessionGroup, b: SessionGroup) -> bool {
    micros_spec(a.updated_at@) > micros_spec(b.updated_at@) || (micros_spec(a.updated_at@) == micros_spec(b.updated_at@)
        && text_lt(a.root.session.id@, b.root.session.id@))
}

fn is_group_listed_before(a: &SessionGroup, b: &SessionGroup) -> (r: bool)
    ensures
        r == group_listed_before(*a, *b),
{
    let ua = micros(a.updated_at.as_str());
    let ub = micros(b.updated_at.as_str());
    ua > ub || (ua == ub && str_lt(a.root.session.id.as_str(), b.root.session.id.as_str()))
}

/// Listing order of groups is a strict order whose complement is transitive.
proof fn lemma_group_order(a: SessionGroup, b: SessionGroup, c: SessionGroup)
    ensures
        !group_listed_before(a, a),
        group_listed_before(a, b) ==> !group_listed_before(b, a),
        !group_listed_before(a, b) && !group_listed_before(b, c) ==> !group_listed_before(a, c),
{
    let (x, y, z) = (a.root.session.id@, b.root.session.id@, c.root.session.id@);
    lemma_text_lt_order(x, y, z);
    lemma_text_lt_order(z, y, x);
    lemma_text_lt_order(y, x, y);
    lemma_text_lt_order(x, z, x);
    lemma_text_lt_order(y, z, y);
    lemma_text_lt_order(z, x, z);
    lemma_text_lt_order(x, y, x);
}

/// Whether groups are in listing order.
pub open spec fn groups_in_order(v: Seq<SessionGroup>) -> bool {
    forall|a: int, b: int| 0 <= a < b < v.len() ==> !group_listed_before(#[trigger] v[b], #[trigger] v[a])
}

/// Whether no two groups show a session with the same id.
pub open spec fn disjoint_groups(v: Seq<SessionGroup>) -> bool {
    forall|a: int, b: int, x: Seq<char>| 0 <= a < v.len() && 0 <= b < v.len() && a != b ==> !(#[trigger] shows_id(
        v[a].root,
        x,
    ) && #[trigger] shows_id(v[b].root, x))
}

proof fn lemma_group_move_sorted(before: Seq<SessionGroup>, i: int, j: int)
    requires
        0 <= j <= i < before.len(),
        forall|a: int, b: int| 0 <= a < b < i ==> !group_listed_before(#[trigger] before[b], #[trigger] before[a]),
        j > 0 ==> !group_listed_before(before[i], before[j - 1]),
        forall|k: int| j <= k < i ==> group_listed_before(before[i], #[trigger] before[k]),
    ensures
        forall|a: int, b: int| 0 <= a < b < i + 1 ==> !group_listed_before(
            #[trigger] before.remove(i).insert(j, before[i])[b],
            #[trigger] before.remove(i).insert(j, before[i])[a],
        ),
{
    let x = before[i];
    let after = before.remove(i).insert(j, x);
    lemma_move(before, i, j);
    assert forall|a: int, b: int| 0 <= a < b < i + 1 implies !group_listed_before(#[trigger] after[b], #[trigger] after[a]) by {
        assert(after[a] == before[move_src(i, j, a)]);
        assert(after[b] == before[move_src(i, j, b)]);
        if b == j {
            lemma_group_order(x, before[j - 1], before[a]);
        } else if a == j {
            lemma_group_order(x, before[b - 1], x);
        }
    }
}

/// Sorts groups into listing order by insertion; the same groups stay,
/// each once.
fn sort_groups(v: &mut Vec<SessionGroup>)
    requires
        forall|i: int| 0 <= i < old(v)@.len() ==> height_at_most(#[trigger] old(v)@[i].root, MAX_SESSION_TREE_DEPTH as nat),
    ensures
        final(v)@.len() == old(v)@.len(),
        forall|i: int| 0 <= i < final(v)@.len() ==> height_at_most(#[trigger] final(v)@[i].root, MAX_SESSION_TREE_DEPTH as nat),
        forall|i: int| 0 <= i < final(v)@.len() ==> old(v)@.contains(#[trigger] final(v)@[i]),
        forall|i: int| 0 <= i < old(v)@.len() ==> final(v)@.contains(#[trigger] old(v)@[i]),
        disjoint_groups(old(v)@) ==> disjoint_groups(final(v)@),
        groups_in_order(final(v)@),
{
    let ghost h = MAX_SESSION_TREE_DEPTH as nat;
    let ghost orig = v@;
    let ghost mut pos: Seq<int> = Seq::new(v@.len(), |k: int| k);
    let ghost mut inv: Seq<int> = Seq::new(v@.len(), |k: int| k);
    if v.len() == 0 {
        return;
    }
    let mut i: usize = 1;
    while i < v.len()
        invariant
            1 <= i <= v@.len(),
            v@.len() == orig.len(),
            orig == old(v)@,
            h == MAX_SESSION_TREE_DEPTH as nat,
            forall|k: int| 0 <= k < v@.len() ==> height_at_most(#[trigger] v@[k].root, h),
            pos.len() == v@.len(),
            forall|k: int| 0 <= k < v@.len() ==> 0 <= #[trigger] pos[k] < orig.len() && v@[k] == orig[pos[k]],
            forall|k1: int, k2: int| 0 <= k1 < v@.len() && 0 <= k2 < v@.len() && k1 != k2 ==> #[trigger] pos[k1] != #[trigger] pos[k2],
            inv.len() == orig.len(),
            forall|t: int| 0 <= t < orig.len() ==> 0 <= #[trigger] inv[t] < v@.len() && pos[inv[t]] == t,
            forall|a: int, b: int| 0 <= a < b < i ==> !group_listed_before(#[trigger] v@[b], #[trigger] v@[a]),
        decreases v@.len() - i,
    {
        let ghost before = v@;
        let x = v.remove(i);
        let ghost mid = v@;
        let mut j: usize = i;
        while j > 0 && is_group_listed_before(&x, &v[j - 1])
            invariant
                j <= i,
                i <= v@.len(),
                v@ == mid,
                mid == before.remove(i as int),
                x == before[i as int],
                i < before.len(),
                forall|k: int| j <= k < i ==> group_listed_before(x, #[trigger] before[k]),
            decreases j,
        {
            assert(mid[j - 1] == before[j - 1]);
            j = j - 1;
        }
        proof {
            if j > 0 {
                assert(mid[j - 1] == before[j - 1]);
            }
            lemma_group_move_sorted(before, i as int, j as int);
        }
        v.insert(j, x);
        proof {
            lemma_move(before, i as int, j as int);
            lemma_move(pos, i as int, j as int);
            assert(v@ == before.remove(i as int).insert(j as int, before[i as int]));
            let old_pos = pos;
            pos = pos.remove(i as int).insert(j as int, pos[i as int]);
            assert forall|k: int| 0 <= k < v@.len() implies height_at_most(#[trigger] v@[k].root, h) by {
                assert(v@[k] == before[move_src(i as int, j as int, k)]);
            }
            assert forall|k: int| 0 <= k < v@.len() implies 0 <= #[trigger] pos[k] < orig.len() && v@[k] == orig[pos[k]] by {
                assert(pos[k] == old_pos[move_src(i as int, j as int, k)]);
                assert(v@[k] == before[move_src(i as int, j as int, k)]);
            }
            assert forall|k1: int, k2: int| 0 <= k1 < v@.len() && 0 <= k2 < v@.len() && k1 != k2 implies #[trigger] pos[k1]
                != #[trigger] pos[k2] by {
                assert(pos[k1] == old_pos[move_src(i as int, j as int, k1)]);
                assert(pos[k2] == old_pos[move_src(i as int, j as int, k2)]);
                assert(move_src(i as int, j as int, k1) != move_src(i as int, j as int, k2));
            }
            let old_inv = inv;
            inv = Seq::new(orig.len(), |t: int| move_dst(i as int, j as int, old_inv[t]));
            assert forall|t: int| 0 <= t < orig.len() implies 0 <= #[trigger] inv[t] < v@.len() && pos[inv[t]] == t by {
                assert(pos[move_dst(i as int, j as int, old_inv[t])] == old_pos[old_inv[t]]);
            }
        }
        i = i + 1;
    }
    proof {
        assert forall|k: int| 0 <= k < v@.len() implies orig.contains(#[trigger] v@[k]) by {
            assert(v@[k] == orig[pos[k]]);
        }
        assert forall|t: int| 0 <= t < orig.len() implies v@.contains(#[trigger] orig[t]) by {
            assert(v@[inv[t]] == orig[pos[inv[t]]]);
        }
        if disjoint_groups(orig) {
            assert forall|a: int, b: int, x: Seq<char>| 0 <= a < v@.len() && 0 <= b < v@.len() && a != b implies !(
            #[trigger] shows_id(v@[a].root, x) && #[trigger] shows_id(v@[b].root, x)) by {
                assert(v@[a] == orig[pos[a]] && v@[b] == orig[pos[b]]);
                assert(pos[a] != pos[b]);
            }
        }
    }
}

/// In a layout, each placed session is displayed below its group's root.
proof fn lemma_layout_subtree(
    links: Seq<Option<usize>>,
    su: Seq<Option<usize>>,
    level: Seq<usize>,
    group: Seq<Option<usize>>,
    c: int,
)
    requires
        layout_ok(links, su, level, group),
        0 <= c < links.len(),
        group[c] is Some,
    ensures
        in_subtree(su, c, group[c]->0 as int),
    decreases level[c],
{
    let g = group[c]->0 as int;
    match su[c] {
        None => {
            assert(up(su, c, 0) == c);
        },
        Some(q) => {
            lemma_layout_subtree(links, su, level, group, q as int);
            let m = choose|m: nat| #[trigger] up(su, q as int, m) == g;
            assert(up(su, c, m + 1) == up(su, q as int, m));
        },
    }
}

/// Every session given is shown in exactly one group, once: the groups
/// show the ids of the sessions given and no others, no id in two groups,
/// and no id twice in a group.
proof fn lemma_groups_complete(
    sessions: Seq<SessionSummary>,
    table: Seq<SessionSummary>,
    links: Seq<Option<usize>>,
    su: Seq<Option<usize>>,
    level: Seq<usize>,
    group: Seq<Option<usize>>,
    roots: Seq<usize>,
    built: Seq<SessionGroup>,
)
    requires
        table.len() == links.len(),
        table.len() <= usize::MAX,
        strictly_increasing(ids_of(table)),
        forall|p: int| 0 <= p < table.len() ==> last_of_its_id(sessions, #[trigger] table[p]),
        forall|k: int| 0 <= k < sessions.len() ==> lists_id(table, #[trigger] sessions[k].id@),
        layout_ok(links, su, level, group),
        forall|c: int| 0 <= c < links.len() ==> (#[trigger] group[c] matches Some(g) ==> belongs_to(links, c, g as int)),
        forall|c: int| 0 <= c < links.len() ==> #[trigger] group[c] is Some,
        forall|g: int| 0 <= g < links.len() && #[trigger] links[g] is None ==> roots.contains(g as usize),
        forall|u: int| 0 <= u < roots.len() ==> (#[trigger] roots[u]) < links.len() && group[roots[u] as int] == Some(roots[u]),
        forall|a: int, b: int| 0 <= a < b < roots.len() ==> #[trigger] roots[a] < #[trigger] roots[b],
        built.len() == roots.len(),
        forall|u: int, x: Seq<char>| 0 <= u < built.len() ==> (#[trigger] shows_id(built[u].root, x)
            <==> subtree_has_id(table, su, roots[u] as int, x)),
    ensures
        disjoint_groups(built),
        forall|x: Seq<char>| (exists|u: int| 0 <= u < built.len() && #[trigger] shows_id(built[u].root, x)) <==> lists_id(sessions, x),
{
    assert(levels_ok(su, level));
    assert forall|a: int, b: int, x: Seq<char>| 0 <= a < built.len() && 0 <= b < built.len() && a != b implies !(
    #[trigger] shows_id(built[a].root, x) && #[trigger] shows_id(built[b].root, x)) by {
        if shows_id(built[a].root, x) && shows_id(built[b].root, x) {
            let c1 = choose|c: int| 0 <= c < table.len() && #[trigger] in_subtree(su, c, roots[a] as int) && table[c].id@ == x;
            let c2 = choose|c: int| 0 <= c < table.len() && #[trigger] in_subtree(su, c, roots[b] as int) && table[c].id@ == x;
            lemma_ids_distinct(table, c1, c2);
            assert(level[roots[a] as int] == 1 && level[roots[b] as int] == 1);
            lemma_same_level_unique(su, level, c1, roots[a] as int, roots[b] as int);
            if a < b {
                assert(roots[a] < roots[b]);
            } else {
                assert(roots[b] < roots[a]);
            }
        }
    }
    assert forall|x: Seq<char>| (exists|u: int| 0 <= u < built.len() && #[trigger] shows_id(built[u].root, x)) implies lists_id(
        sessions,
        x,
    ) by {
        let u = choose|u: int| 0 <= u < built.len() && #[trigger] shows_id(built[u].root, x);
        let c = choose|c: int| 0 <= c < table.len() && #[trigger] in_subtree(su, c, roots[u] as int) && table[c].id@ == x;
        assert(last_of_its_id(sessions, table[c]));
        let k = choose|k: int| 0 <= k < sessions.len() && #[trigger] sessions[k] == table[c]
            && forall|k2: int| k < k2 < sessions.len() ==> #[trigger] sessions[k2].id@ != table[c].id@;
        assert(sessions[k].id@ == x);
    }
    assert forall|x: Seq<char>| lists_id(sessions, x) implies (exists|u: int| 0 <= u < built.len() && #[trigger] shows_id(
        built[u].root,
        x,
    )) by {
        let k = choose|k: int| 0 <= k < sessions.len() && #[trigger] sessions[k].id@ == x;
        assert(lists_id(table, sessions[k].id@));
        let c = choose|c: int| 0 <= c < table.len() && #[trigger] table[c].id@ == x;
        assert(group[c] is Some);
        let g = group[c]->0;
        lemma_layout_subtree(links, su, level, group, c);
        assert(belongs_to(links, c, g as int));
        let kk = choose|kk: nat| #[trigger] chain_ends_at(links, c, g as int, kk);
        lemma_chain_unique(links, c, g as int, g as int, kk, kk);
        assert(g < links.len());
        assert(roots.contains(g));
        let u = choose|u: int| 0 <= u < roots.len() && roots[u] == g;
        assert(subtree_has_id(table, su, roots[u] as int, x));
        assert(shows_id(built[u].root, x));
    }
}

/// From a session of a cycle whose least session alone was cut, the links
/// lead to that least session.
proof fn lemma_chain_to_least(orig: Seq<Option<usize>>, fin: Seq<Option<usize>>, ru: int, j: nat, m: nat)
    requires
        links_in_range(orig),
        fin.len() == orig.len(),
        forall|x: int| 0 <= x < orig.len() ==> #[trigger] fin[x] == orig[x] || (fin[x] is None && least_on_cycle(orig, x)),
        0 <= ru < orig.len(),
        least_on_cycle(orig, ru),
        fin[ru] is None,
        0 <= up(orig, ru, j),
        up(orig, up(orig, ru, j), m) == ru,
    ensures
        chain_ends_at(fin, up(orig, ru, j), ru, m + 1),
    decreases m,
{
    let y = up(orig, ru, j);
    lemma_up_chain_range(orig, ru, j);
    if y == ru {
    } else {
        assert(m > 0);
        if fin[y] != orig[y] {
            assert(least_on_cycle(orig, y));
            assert(y <= up(orig, y, m));
            assert(ru <= up(orig, ru, j));
        }
        assert(orig[y] is Some);
        let y2 = orig[y]->0;
        lemma_up_add(orig, ru, j, 1);
        assert(up(orig, y, 1) == up(orig, y2 as int, 0));
        assert(up(orig, ru, j + 1) == y2);
        assert(up(orig, y, m) == up(orig, y2 as int, (m - 1) as nat));
        lemma_chain_to_least(orig, fin, ru, j + 1, (m - 1) as nat);
        assert((m - 1) as nat + 1 == m);
    }
}

proof fn lemma_up_chain_range(links: Seq<Option<usize>>, x: int, j: nat)
    requires
        links_in_range(links),
        0 <= x < links.len(),
    ensures
        up(links, x, j) < links.len(),
    decreases j,
{
    if j > 0 {
        if let Some(q) = links[x] {
            lemma_up_chain_range(links, q as int, (j - 1) as nat);
        }
    }
}

/// Whether a group's root is a root for a reason the parent links give:
/// it names no parent, itself, or no session given, or its parent is shown
/// in its own group, the cycle it closed having been cut at it.
pub open spec fn root_parent_ok(sessions: Seq<SessionSummary>, root: SessionTreeNode) -> bool {
    match root.session.parent_thread_id {
        None => true,
        Some(pid) => pid@ == root.session.id@ || !lists_id(sessions, pid@) || shows_id(root, pid@),
    }
}

/// Whether no later session of `sessions` has the id of the `k`-th, which
/// is thus the one kept for its id.
pub open spec fn last_with_its_id(sessions: Seq<SessionSummary>, k: int) -> bool {
    forall|k2: int| k < k2 < sessions.len() ==> #[trigger] sessions[k2].id@ != sessions[k].id@
}

/// Whether some group has the session with id `x` as its root.
pub open spec fn roots_include(groups: Seq<SessionGroup>, x: Seq<char>) -> bool {
    exists|g: int| 0 <= g < groups.len() && #[trigger] groups[g].root.session.id@ == x
}

/// Whether the session `s` names no parent among `sessions`: none, itself,
/// or an id no session has.
pub open spec fn parentless(sessions: Seq<SessionSummary>, s: SessionSummary) -> bool {
    match s.parent_thread_id {
        None => true,
        Some(pid) => pid@ == s.id@ || !lists_id(sessions, pid@),
    }
}

/// The session kept for id `x`: the last one given with it.
pub open spec fn kept_with_id(sessions: Seq<SessionSummary>, x: Seq<char>) -> Option<SessionSummary>
    decreases sessions.len(),
{
    if sessions.len() == 0 {
        None
    } else if sessions.last().id@ == x {
        Some(sessions.last())
    } else {
        kept_with_id(sessions.drop_last(), x)
    }
}

/// The id of the parent that the session kept for `x` names, when that
/// parent is another session given.
pub open spec fn parent_of_id(sessions: Seq<SessionSummary>, x: Seq<char>) -> Option<Seq<char>> {
    match kept_with_id(sessions, x) {
        Some(s) => match s.parent_thread_id {
            Some(pid) => if pid@ != x && lists_id(sessions, pid@) { Some(pid@) } else { None },
            None => None,
        },
        None => None,
    }
}

/// The id reached from `x` by following `k` parent links, if the chain
/// goes that far.
pub open spec fn id_up(sessions: Seq<SessionSummary>, x: Seq<char>, k: nat) -> Option<Seq<char>>
    decreases k,
{
    if k == 0 {
        Some(x)
    } else {
        match parent_of_id(sessions, x) {
            Some(y) => id_up(sessions, y, (k - 1) as nat),
            None => None,
        }
    }
}

/// Whether `x` lies on a cycle of parent links and no id on it comes before
/// `x` in text order: the session at which such a cycle is broken.
pub open spec fn least_id_on_cycle(sessions: Seq<SessionSummary>, x: Seq<char>) -> bool {
    &&& exists|k: nat| k >= 1 && #[trigger] id_up(sessions, x, k) == Some(x)
    &&& forall|a: nat| #[trigger] id_up(sessions, x, a) is Some ==> !text_lt(id_up(sessions, x, a)->0, x)
}

/// Whether a session heads a group: it names no parent among those given,
/// or it has the smallest id on a cycle of parent links.
pub open spec fn heads_group(sessions: Seq<SessionSummary>, s: SessionSummary) -> bool {
    parentless(sessions, s) || least_id_on_cycle(sessions, s.id@)
}

proof fn lemma_kept_at(sessions: Seq<SessionSummary>, k: int)
    requires
        0 <= k < sessions.len(),
        forall|k2: int| k < k2 < sessions.len() ==> #[trigger] sessions[k2].id@ != sessions[k].id@,
    ensures
        kept_with_id(sessions, sessions[k].id@) == Some(sessions[k]),
    decreases sessions.len(),
{
    if k < sessions.len() - 1 {
        let d = sessions.drop_last();
        assert(sessions[sessions.len() - 1].id@ != sessions[k].id@);
        assert forall|k2: int| k < k2 < d.len() implies #[trigger] d[k2].id@ != d[k].id@ by {
            assert(d[k2] == sessions[k2]);
        }
        lemma_kept_at(d, k);
    }
}

proof fn lemma_kept_table(sessions: Seq<SessionSummary>, table: Seq<SessionSummary>, p: int)
    requires
        0 <= p < table.len(),
        last_of_its_id(sessions, table[p]),
    ensures
        kept_with_id(sessions, table[p].id@) == Some(table[p]),
{
    let k = choose|k: int| 0 <= k < sessions.len() && #[trigger] sessions[k] == table[p]
        && forall|k2: int| k < k2 < sessions.len() ==> #[trigger] sessions[k2].id@ != table[p].id@;
    lemma_kept_at(sessions, k);
}

/// Following parent links by id from a table session matches following
/// the table's links.
proof fn lemma_id_up(
    sessions: Seq<SessionSummary>,
    table: Seq<SessionSummary>,
    orig: Seq<Option<usize>>,
    p: int,
    k: nat,
)
    requires
        orig.len() == table.len(),
        0 <= p < table.len(),
        forall|q: int| 0 <= q < table.len() ==> last_of_its_id(sessions, #[trigger] table[q]),
        forall|j: int| 0 <= j < sessions.len() ==> lists_id(table, #[trigger] sessions[j].id@),
        links_in_range(orig),
        forall|q: int| 0 <= q < table.len() ==> parent_link(table, q, #[trigger] orig[q]),
    ensures
        -1 <= up(orig, p, k) < table.len(),
        id_up(sessions, table[p].id@, k) == (if up(orig, p, k) >= 0 { Some(table[up(orig, p, k)].id@) } else { None }),
    decreases k,
{
    if k > 0 {
        lemma_kept_table(sessions, table, p);
        assert(parent_link(table, p, orig[p]));
        if let Some(pid) = table[p].parent_thread_id {
            lemma_same_ids(sessions, table, pid@);
        }
        match orig[p] {
            Some(q) => {
                assert(parent_of_id(sessions, table[p].id@) == Some(table[q as int].id@));
                lemma_id_up(sessions, table, orig, q as int, (k - 1) as nat);
            },
            None => {
                assert(parent_of_id(sessions, table[p].id@) is None);
            },
        }
    }
}

/// A table session is the least of a cycle of table links exactly when its
/// id is the least of a cycle of parent links by id.
proof fn lemma_cycle_by_id(sessions: Seq<SessionSummary>, table: Seq<SessionSummary>, orig: Seq<Option<usize>>, p: int)
    requires
        orig.len() == table.len(),
        0 <= p < table.len(),
        strictly_increasing(ids_of(table)),
        forall|q: int| 0 <= q < table.len() ==> last_of_its_id(sessions, #[trigger] table[q]),
        forall|j: int| 0 <= j < sessions.len() ==> lists_id(table, #[trigger] sessions[j].id@),
        links_in_range(orig),
        forall|q: int| 0 <= q < table.len() ==> parent_link(table, q, #[trigger] orig[q]),
    ensures
        least_on_cycle(orig, p) <==> least_id_on_cycle(sessions, table[p].id@),
{
    let x = table[p].id@;
    let ids = ids_of(table);
    if least_on_cycle(orig, p) {
        let k = choose|k: nat| k >= 1 && #[trigger] up(orig, p, k) == p;
        lemma_id_up(sessions, table, orig, p, k);
        assert(id_up(sessions, x, k) == Some(x));
        assert forall|a: nat| #[trigger] id_up(sessions, x, a) is Some implies !text_lt(id_up(sessions, x, a)->0, x) by {
            lemma_id_up(sessions, table, orig, p, a);
            let u = up(orig, p, a);
            assert(u >= 0);
            assert(p <= u);
            lemma_text_lt_order(ids[u], ids[p], ids[u]);
            if p < u {
                assert(text_lt(ids[p], ids[u]));
            }
        }
    }
    if least_id_on_cycle(sessions, x) {
        let k = choose|k: nat| k >= 1 && #[trigger] id_up(sessions, x, k) == Some(x);
        lemma_id_up(sessions, table, orig, p, k);
        let u0 = up(orig, p, k);
        lemma_ids_distinct(table, u0, p);
        assert(on_cycle(orig, p));
        assert forall|a: nat| #[trigger] up(orig, p, a) >= 0 implies p <= up(orig, p, a) by {
            lemma_id_up(sessions, table, orig, p, a);
            let u = up(orig, p, a);
            assert(id_up(sessions, x, a) == Some(table[u].id@));
            if u < p {
                assert(text_lt(ids[u], ids[p]));
            }
        }
    }
}

/// The ids of a table of last sessions per id are the ids given.
proof fn lemma_same_ids(sessions: Seq<SessionSummary>, table: Seq<SessionSummary>, x: Seq<char>)
    requires
        forall|p: int| 0 <= p < table.len() ==> last_of_its_id(sessions, #[trigger] table[p]),
        forall|k: int| 0 <= k < sessions.len() ==> lists_id(table, #[trigger] sessions[k].id@),
    ensures
        lists_id(sessions, x) == lists_id(table, x),
{
    if lists_id(table, x) {
        let c = choose|c: int| 0 <= c < table.len() && #[trigger] table[c].id@ == x;
        assert(last_of_its_id(sessions, table[c]));
        let k = choose|k: int| 0 <= k < sessions.len() && #[trigger] sessions[k] == table[c]
            && forall|k2: int| k < k2 < sessions.len() ==> #[trigger] sessions[k2].id@ != table[c].id@;
        assert(sessions[k].id@ == x);
    }
    if lists_id(sessions, x) {
        let k = choose|k: int| 0 <= k < sessions.len() && #[trigger] sessions[k].id@ == x;
        assert(lists_id(table, sessions[k].id@));
    }
}

/// A group's root that was cut from its parent closed a cycle, so its
/// parent is shown in its own group.
proof fn lemma_cut_root_parent_shown(
    table: Seq<SessionSummary>,
    orig: Seq<Option<usize>>,
    links: Seq<Option<usize>>,
    su: Seq<Option<usize>>,
    level: Seq<usize>,
    group: Seq<Option<usize>>,
    ru: int,
    q: usize,
)
    requires
        table.len() == links.len(),
        orig.len() == links.len(),
        links_in_range(orig),
        links_in_range(links),
        0 <= ru < links.len(),
        orig[ru] == Some(q),
        least_on_cycle(orig, ru),
        links[ru] is None,
        forall|i: int| 0 <= i < orig.len() ==> #[trigger] links[i] == orig[i] || (links[i] is None && least_on_cycle(orig, i)),
        layout_ok(links, su, level, group),
        forall|c: int| 0 <= c < links.len() ==> (#[trigger] group[c] matches Some(g) ==> belongs_to(links, c, g as int)),
        forall|c: int| 0 <= c < links.len() ==> #[trigger] group[c] is Some,
    ensures
        subtree_has_id(table, su, ru, table[q as int].id@),
{
    let k = choose|k: nat| k >= 1 && #[trigger] up(orig, ru, k) == ru;
    assert(up(orig, ru, 1) == up(orig, q as int, 0));
    lemma_up_add(orig, ru, 1, (k - 1) as nat);
    assert(1 + (k - 1) as nat == k);
    lemma_chain_to_least(orig, links, ru, 1, (k - 1) as nat);
    assert(chain_ends_at(links, q as int, ru, k));
    let gq = group[q as int]->0 as int;
    assert(belongs_to(links, q as int, gq));
    let kq = choose|kq: nat| #[trigger] chain_ends_at(links, q as int, gq, kq);
    lemma_chain_unique(links, q as int, gq, ru, kq, k);
    lemma_layout_subtree(links, su, level, group, q as int);
    assert(in_subtree(su, q as int, ru));
}

/// The root of group `u` is a root for a reason the parent links give.
proof fn lemma_root_ok_at(
    sessions: Seq<SessionSummary>,
    table: Seq<SessionSummary>,
    orig: Seq<Option<usize>>,
    links: Seq<Option<usize>>,
    su: Seq<Option<usize>>,
    level: Seq<usize>,
    group: Seq<Option<usize>>,
    roots: Seq<usize>,
    built: Seq<SessionGroup>,
    u: int,
)
    requires
        table.len() == links.len(),
        orig.len() == links.len(),
        forall|p: int| 0 <= p < table.len() ==> last_of_its_id(sessions, #[trigger] table[p]),
        forall|k: int| 0 <= k < sessions.len() ==> lists_id(table, #[trigger] sessions[k].id@),
        links_in_range(orig),
        links_in_range(links),
        forall|p: int| 0 <= p < table.len() ==> parent_link(table, p, #[trigger] orig[p]),
        forall|i: int| 0 <= i < orig.len() ==> #[trigger] links[i] == orig[i] || links[i] is None,
        forall|i: int| 0 <= i < orig.len() ==> (#[trigger] links[i] is None <==> (orig[i] is None || least_on_cycle(orig, i))),
        layout_ok(links, su, level, group),
        forall|c: int| 0 <= c < links.len() ==> (#[trigger] group[c] matches Some(g) ==> belongs_to(links, c, g as int)),
        forall|c: int| 0 <= c < links.len() ==> #[trigger] group[c] is Some,
        forall|v: int| 0 <= v < roots.len() ==> (#[trigger] roots[v]) < links.len() && group[roots[v] as int] == Some(roots[v]),
        built.len() == roots.len(),
        0 <= u < built.len(),
        built[u].root.session == table[roots[u] as int],
        forall|x: Seq<char>| #[trigger] shows_id(built[u].root, x) <==> subtree_has_id(table, su, roots[u] as int, x),
        strictly_increasing(ids_of(table)),
    ensures
        root_parent_ok(sessions, built[u].root),
        heads_group(sessions, built[u].root.session),
{
    let ru = roots[u] as int;
    let g = group[ru]->0 as int;
    assert(belongs_to(links, ru, g));
    let kk = choose|kk: nat| #[trigger] chain_ends_at(links, ru, g, kk);
    lemma_chain_unique(links, ru, g, g, kk, kk);
    assert(links[ru] is None);
    assert(parent_link(table, ru, orig[ru]));
    lemma_cycle_by_id(sessions, table, orig, ru);
    if let Some(pid) = table[ru].parent_thread_id {
        lemma_same_ids(sessions, table, pid@);
    }
    if let Some(pid) = table[ru].parent_thread_id {
        lemma_same_ids(sessions, table, pid@);
        if let Some(q) = orig[ru] {
            assert(pid@ == table[q as int].id@);
            assert forall|i: int| 0 <= i < orig.len() implies #[trigger] links[i] == orig[i] || (links[i] is None && least_on_cycle(orig, i)) by {
                if links[i] != orig[i] {
                    assert(links[i] is None);
                }
            }
            lemma_cut_root_parent_shown(table, orig, links, su, level, group, ru, q);
            assert(shows_id(built[u].root, pid@));
        }
    }
}

/// A session that names no parent among those given is a group root.
proof fn lemma_parentless_is_root(
    sessions: Seq<SessionSummary>,
    table: Seq<SessionSummary>,
    orig: Seq<Option<usize>>,
    links: Seq<Option<usize>>,
    roots: Seq<usize>,
    built: Seq<SessionGroup>,
    k: int,
)
    requires
        table.len() == links.len(),
        table.len() <= usize::MAX,
        orig.len() == links.len(),
        forall|p: int| 0 <= p < table.len() ==> last_of_its_id(sessions, #[trigger] table[p]),
        forall|k: int| 0 <= k < sessions.len() ==> lists_id(table, #[trigger] sessions[k].id@),
        forall|p: int| 0 <= p < table.len() ==> parent_link(table, p, #[trigger] orig[p]),
        forall|i: int| 0 <= i < orig.len() ==> (#[trigger] links[i] is None <==> (orig[i] is None || least_on_cycle(orig, i))),
        forall|g: int| 0 <= g < links.len() && #[trigger] links[g] is None ==> roots.contains(g as usize),
        built.len() == roots.len(),
        forall|v: int| 0 <= v < built.len() ==> (#[trigger] built[v]).root.session == table[roots[v] as int],
        0 <= k < sessions.len(),
        last_with_its_id(sessions, k),
        parentless(sessions, sessions[k]),
    ensures
        roots_include(built, sessions[k].id@),
{
    assert(lists_id(table, sessions[k].id@));
    let c = choose|c: int| 0 <= c < table.len() && #[trigger] table[c].id@ == sessions[k].id@;
    assert(last_of_its_id(sessions, table[c]));
    let k1 = choose|k1: int| 0 <= k1 < sessions.len() && #[trigger] sessions[k1] == table[c]
        && forall|k2: int| k1 < k2 < sessions.len() ==> #[trigger] sessions[k2].id@ != table[c].id@;
    if k1 < k {
        assert(sessions[k].id@ != table[c].id@);
    } else if k < k1 {
        assert(sessions[k1].id@ != sessions[k].id@);
    }
    assert(table[c] == sessions[k]);
    if let Some(pid) = sessions[k].parent_thread_id {
        lemma_same_ids(sessions, table, pid@);
    }
    assert(parent_link(table, c, orig[c]));
    assert(orig[c] is None);
    assert(links[c] is None);
    assert(roots.contains(c as usize));
    let u = choose|u: int| 0 <= u < roots.len() && roots[u] == c as usize;
    assert(built[u].root.session == table[roots[u] as int]);
    assert(roots[u] as int == c);
    assert(built[u].root.session.id@ == sessions[k].id@);
}

/// A session at which a cycle of parent links is broken is a group root.
proof fn lemma_cycle_least_is_root(
    sessions: Seq<SessionSummary>,
    table: Seq<SessionSummary>,
    orig: Seq<Option<usize>>,
    links: Seq<Option<usize>>,
    roots: Seq<usize>,
    built: Seq<SessionGroup>,
    k: int,
)
    requires
        table.len() == links.len(),
        table.len() <= usize::MAX,
        orig.len() == links.len(),
        strictly_increasing(ids_of(table)),
        links_in_range(orig),
        forall|p: int| 0 <= p < table.len() ==> last_of_its_id(sessions, #[trigger] table[p]),
        forall|k: int| 0 <= k < sessions.len() ==> lists_id(table, #[trigger] sessions[k].id@),
        forall|p: int| 0 <= p < table.len() ==> parent_link(table, p, #[trigger] orig[p]),
        forall|i: int| 0 <= i < orig.len() ==> (#[trigger] links[i] is None <==> (orig[i] is None || least_on_cycle(orig, i))),
        forall|g: int| 0 <= g < links.len() && #[trigger] links[g] is None ==> roots.contains(g as usize),
        built.len() == roots.len(),
        forall|v: int| 0 <= v < built.len() ==> (#[trigger] built[v]).root.session == table[roots[v] as int],
        0 <= k < sessions.len(),
        last_with_its_id(sessions, k),
        least_id_on_cycle(sessions, sessions[k].id@),
    ensures
        roots_include(built, sessions[k].id@),
{
    assert(lists_id(table, sessions[k].id@));
    let c = choose|c: int| 0 <= c < table.len() && #[trigger] table[c].id@ == sessions[k].id@;
    lemma_cycle_by_id(sessions, table, orig, c);
    assert(least_on_cycle(orig, c));
    assert(links[c] is None);
    assert(roots.contains(c as usize));
    let u = choose|u: int| 0 <= u < roots.len() && roots[u] == c as usize;
    assert(built[u].root.session == table[roots[u] as int]);
    assert(built[u].root.session.id@ == sessions[k].id@);
}

/// Group roots are roots for a reason the parent links give, and every
/// session without a parent among those given is a group root.
proof fn lemma_group_roots(
    sessions: Seq<SessionSummary>,
    table: Seq<SessionSummary>,
    orig: Seq<Option<usize>>,
    links: Seq<Option<usize>>,
    su: Seq<Option<usize>>,
    level: Seq<usize>,
    group: Seq<Option<usize>>,
    roots: Seq<usize>,
    built: Seq<SessionGroup>,
)
    requires
        table.len() == links.len(),
        table.len() <= usize::MAX,
        orig.len() == links.len(),
        forall|p: int| 0 <= p < table.len() ==> last_of_its_id(sessions, #[trigger] table[p]),
        forall|k: int| 0 <= k < sessions.len() ==> lists_id(table, #[trigger] sessions[k].id@),
        links_in_range(orig),
        links_in_range(links),
        forall|p: int| 0 <= p < table.len() ==> parent_link(table, p, #[trigger] orig[p]),
        forall|i: int| 0 <= i < orig.len() ==> #[trigger] links[i] == orig[i] || links[i] is None,
        forall|i: int| 0 <= i < orig.len() ==> (#[trigger] links[i] is None <==> (orig[i] is None || least_on_cycle(orig, i))),
        layout_ok(links, su, level, group),
        forall|c: int| 0 <= c < links.len() ==> (#[trigger] group[c] matches Some(g) ==> belongs_to(links, c, g as int)),
        forall|c: int| 0 <= c < links.len() ==> #[trigger] group[c] is Some,
        forall|g: int| 0 <= g < links.len() && #[trigger] links[g] is None ==> roots.contains(g as usize),
        forall|v: int| 0 <= v < roots.len() ==> (#[trigger] roots[v]) < links.len() && group[roots[v] as int] == Some(roots[v]),
        built.len() == roots.len(),
        forall|v: int| 0 <= v < built.len() ==> (#[trigger] built[v]).root.session == table[roots[v] as int],
        forall|v: int, x: Seq<char>| 0 <= v < built.len() ==> (#[trigger] shows_id(built[v].root, x)
            <==> subtree_has_id(table, su, roots[v] as int, x)),
        strictly_increasing(ids_of(table)),
    ensures
        forall|u: int| 0 <= u < built.len() ==> heads_group(sessions, #[trigger] built[u].root.session),
        forall|k: int| 0 <= k < sessions.len() && last_with_its_id(sessions, k) && heads_group(sessions, #[trigger] sessions[k]) ==> roots_include(built, sessions[k].id@),
        forall|u: int| 0 <= u < built.len() ==> root_parent_ok(sessions, #[trigger] built[u].root),
        forall|k: int| 0 <= k < sessions.len() && last_with_its_id(sessions, k) && parentless(sessions, #[trigger] sessions[k]) ==> roots_include(built, sessions[k].id@),
{
    assert forall|u: int| 0 <= u < built.len() implies root_parent_ok(sessions, #[trigger] built[u].root) by {
        assert(built[u].root.session == table[roots[u] as int]);
        lemma_root_ok_at(sessions, table, orig, links, su, level, group, roots, built, u);
    }
    assert forall|k: int| 0 <= k < sessions.len() && last_with_its_id(sessions, k) && parentless(sessions, #[trigger] sessions[k]) implies roots_include(built, sessions[k].id@) by {
        lemma_parentless_is_root(sessions, table, orig, links, roots, built, k);
    }
    assert forall|u: int| 0 <= u < built.len() implies heads_group(sessions, #[trigger] built[u].root.session) by {
        assert(built[u].root.session == table[roots[u] as int]);
        lemma_root_ok_at(sessions, table, orig, links, su, level, group, roots, built, u);
    }
    assert forall|k: int| 0 <= k < sessions.len() && last_with_its_id(sessions, k) && heads_group(sessions, #[trigger] sessions[k]) implies roots_include(built, sessions[k].id@) by {
        if parentless(sessions, sessions[k]) {
            lemma_parentless_is_root(sessions, table, orig, links, roots, built, k);
        } else {
            lemma_cycle_least_is_root(sessions, table, orig, links, roots, built, k);
        }
    }
}

/// Sorting groups keeps what their roots say.
proof fn lemma_roots_after_sort(sessions: Seq<SessionSummary>, unsorted: Seq<SessionGroup>, sorted: Seq<SessionGroup>)
    requires
        forall|i: int| 0 <= i < sorted.len() ==> unsorted.contains(#[trigger] sorted[i]),
        forall|i: int| 0 <= i < unsorted.len() ==> sorted.contains(#[trigger] unsorted[i]),
        forall|u: int| 0 <= u < unsorted.len() ==> root_parent_ok(sessions, #[trigger] unsorted[u].root),
        forall|k: int| 0 <= k < sessions.len() && last_with_its_id(sessions, k) && parentless(sessions, #[trigger] sessions[k]) ==> roots_include(unsorted, sessions[k].id@),
        forall|u: int| 0 <= u < unsorted.len() ==> heads_group(sessions, #[trigger] unsorted[u].root.session),
        forall|k: int| 0 <= k < sessions.len() && last_with_its_id(sessions, k) && heads_group(sessions, #[trigger] sessions[k]) ==> roots_include(unsorted, sessions[k].id@),
    ensures
        forall|g: int| 0 <= g < sorted.len() ==> heads_group(sessions, #[trigger] sorted[g].root.session),
        forall|k: int| 0 <= k < sessions.len() && last_with_its_id(sessions, k) && heads_group(sessions, #[trigger] sessions[k]) ==> roots_include(sorted, sessions[k].id@),
        forall|g: int| 0 <= g < sorted.len() ==> root_parent_ok(sessions, #[trigger] sorted[g].root),
        forall|k: int| 0 <= k < sessions.len() && last_with_its_id(sessions, k) && parentless(sessions, #[trigger] sessions[k]) ==> roots_include(sorted, sessions[k].id@),
{
    assert forall|g: int| 0 <= g < sorted.len() implies root_parent_ok(sessions, #[trigger] sorted[g].root) by {
        assert(unsorted.contains(sorted[g]));
        let u = choose|u: int| 0 <= u < unsorted.len() && unsorted[u] == sorted[g];
        assert(root_parent_ok(sessions, unsorted[u].root));
    }
    assert forall|k: int| 0 <= k < sessions.len() && last_with_its_id(sessions, k) && parentless(sessions, #[trigger] sessions[k]) implies roots_include(sorted, sessions[k].id@) by {
        let u = choose|u: int| 0 <= u < unsorted.len() && #[trigger] unsorted[u].root.session.id@ == sessions[k].id@;
        assert(unsorted[u].root.session.id@ == sessions[k].id@);
        assert(sorted.contains(unsorted[u]));
        let g = choose|g: int| 0 <= g < sorted.len() && sorted[g] == unsorted[u];
        assert(sorted[g].root.session.id@ == sessions[k].id@);
    }
    assert forall|g: int| 0 <= g < sorted.len() implies heads_group(sessions, #[trigger] sorted[g].root.session) by {
        assert(unsorted.contains(sorted[g]));
        let u = choose|u: int| 0 <= u < unsorted.len() && unsorted[u] == sorted[g];
        assert(heads_group(sessions, unsorted[u].root.session));
    }
    assert forall|k: int| 0 <= k < sessions.len() && last_with_its_id(sessions, k) && heads_group(sessions, #[trigger] sessions[k]) implies roots_include(sorted, sessions[k].id@) by {
        let u = choose|u: int| 0 <= u < unsorted.len() && #[trigger] unsorted[u].root.session.id@ == sessions[k].id@;
        assert(unsorted[u].root.session.id@ == sessions[k].id@);
        assert(sorted.contains(unsorted[u]));
        let g = choose|g: int| 0 <= g < sorted.len() && sorted[g] == unsorted[u];
        assert(sorted[g].root.session.id@ == sessions[k].id@);
    }
}

/// In the layout each session is shown under the session it names as its
/// parent, or directly under its group's root.
proof fn lemma_layout_edges(
    table: Seq<SessionSummary>,
    orig: Seq<Option<usize>>,
    links: Seq<Option<usize>>,
    su: Seq<Option<usize>>,
    level: Seq<usize>,
    group: Seq<Option<usize>>,
)
    requires
        table.len() == links.len(),
        orig.len() == links.len(),
        forall|p: int| 0 <= p < table.len() ==> parent_link(table, p, #[trigger] orig[p]),
        forall|i: int| 0 <= i < orig.len() ==> #[trigger] links[i] == orig[i] || links[i] is None,
        layout_ok(links, su, level, group),
    ensures
        forall|c: int| 0 <= c < table.len() ==> (#[trigger] su[c] matches Some(q) ==> parent_names(table[c], table[q as int])
            || su[q as int] is None),
{
    assert forall|c: int| 0 <= c < table.len() implies (#[trigger] su[c] matches Some(q) ==> parent_names(table[c], table[q as int])
        || su[q as int] is None) by {
        if let Some(q) = su[c] {
            if links[c] == Some(q) {
                assert(links[c] == orig[c]);
                assert(parent_link(table, c, orig[c]));
            } else {
                assert(group[c] == Some(q));
            }
        }
    }
}

/// A group is complete exactly when every session displayed below its root
/// is displayed under the session it names as its parent.
proof fn lemma_complete_follows(
    table: Seq<SessionSummary>,
    orig: Seq<Option<usize>>,
    links: Seq<Option<usize>>,
    su: Seq<Option<usize>>,
    level: Seq<usize>,
    group: Seq<Option<usize>>,
    root: usize,
)
    requires
        table.len() == links.len(),
        orig.len() == links.len(),
        forall|p: int| 0 <= p < table.len() ==> parent_link(table, p, #[trigger] orig[p]),
        forall|i: int| 0 <= i < orig.len() ==> #[trigger] links[i] == orig[i] || links[i] is None,
        layout_ok(links, su, level, group),
        strictly_increasing(ids_of(table)),
        root < links.len(),
        group[root as int] == Some(root),
        forall|c: int| 0 <= c < links.len() ==> #[trigger] group[c] is Some,
    ensures
        group_complete(links, su, group, root) <==> edges_follow(table, su, root as int),
{
    assert(levels_ok(su, level));
    if group_complete(links, su, group, root) {
        assert forall|c: int| 0 <= c < table.len() && c != root && #[trigger] in_subtree(su, c, root as int) implies (su[c] matches Some(
            q,
        ) && parent_names(table[c], table[q as int])) by {
            assert(group[c] is Some);
            lemma_layout_subtree(links, su, level, group, c);
            let g = group[c]->0;
            assert(group[g as int] == Some(g) && level[g as int] == 1);
            lemma_same_level_unique(su, level, c, g as int, root as int);
            assert(su[c] is Some);
            assert(su[c] == links[c]);
            assert(links[c] == orig[c]);
            assert(parent_link(table, c, orig[c]));
        }
    }
    if edges_follow(table, su, root as int) {
        assert forall|c: int| 0 <= c < links.len() && #[trigger] group[c] == Some(root) && su[c] is Some implies su[c] == links[c] by {
            lemma_layout_subtree(links, su, level, group, c);
            let q = su[c]->0;
            assert(su[root as int] is None);
            assert(parent_names(table[c], table[q as int]));
            let q2 = links[c]->0;
            if q2 != q {
                assert(links[c] == orig[c]);
                assert(parent_link(table, c, orig[c]));
                lemma_ids_distinct(table, q as int, q2 as int);
            }
        }
    }
}

/// Arranges sessions into groups under their root ancestors. Sessions are
/// taken one per id (the last given wins); a parent link to a missing
/// session or to itself is ignored; cycles of parent links are broken at
/// their smallest id, so the group roots are exactly the sessions naming
/// no parent among those given and the smallest of each cycle. Each group
/// is shown at most `MAX_SESSION_TREE_DEPTH`
/// levels deep: deeper sessions are shown directly under the root and the
/// group is marked incomplete. Every session given is shown exactly once,
/// and the groups are in listing order.
pub fn build_session_groups(sessions: Vec<SessionSummary>) -> (r: Vec<SessionGroup>)
    ensures
        forall|g: int| 0 <= g < r@.len() ==> height_at_most(#[trigger] r@[g].root, MAX_SESSION_TREE_DEPTH as nat),
        forall|x: Seq<char>| (exists|g: int| 0 <= g < r@.len() && #[trigger] shows_id(r@[g].root, x)) <==> lists_id(sessions@, x),
        disjoint_groups(r@),
        forall|g: int| 0 <= g < r@.len() ==> shown_once(#[trigger] r@[g].root),
        groups_in_order(r@),
        forall|g: int| 0 <= g < r@.len() ==> root_parent_ok(sessions@, #[trigger] r@[g].root),
        forall|g: int| 0 <= g < r@.len() ==> children_follow_parents(#[trigger] r@[g].root, r@[g].root.session.id@),
        forall|k: int| 0 <= k < sessions@.len() && last_with_its_id(sessions@, k) && parentless(sessions@, #[trigger] sessions@[k]) ==> roots_include(r@, sessions@[k].id@),
        forall|g: int| 0 <= g < r@.len() ==> heads_group(sessions@, #[trigger] r@[g].root.session),
        forall|k: int| 0 <= k < sessions@.len() && last_with_its_id(sessions@, k) && heads_group(sessions@, #[trigger] sessions@[k]) ==> roots_include(r@, sessions@[k].id@),
        forall|g: int| 0 <= g < r@.len() ==> ((#[trigger] r@[g]).hierarchy_complete <==> follows_parents(r@[g].root)),
        forall|g: int| 0 <= g < r@.len() ==> children_latest_first(#[trigger] r@[g].root),
{
    let ghost given = sessions@;
    let table = unique_by_id(sessions);
    let n = table.len();
    let mut links = parent_links(&table);
    let ghost orig = links@;
    break_parent_cycles(&mut links);
    let children = linked_lists(&links);
    let mut shown_under: Vec<Option<usize>> = Vec::new();
    let mut level: Vec<usize> = Vec::new();
    let mut group: Vec<Option<usize>> = Vec::new();
    let mut i: usize = 0;
    while i < n
        invariant
            i <= n,
            shown_under@.len() == i,
            level@.len() == i,
            group@.len() == i,
            forall|c: int| 0 <= c < i ==> #[trigger] shown_under@[c] is None,
            forall|c: int| 0 <= c < i ==> #[trigger] level@[c] == 0,
            forall|c: int| 0 <= c < i ==> #[trigger] group@[c] is None,
        decreases n - i,
    {
        shown_under.push(None);
        level.push(0);
        group.push(None);
        i = i + 1;
    }
    let mut roots: Vec<usize> = Vec::new();
    let mut complete: Vec<bool> = Vec::new();
    let mut r: usize = 0;
    while r < n
        invariant
            r <= n,
            n == table@.len(),
            n == links@.len(),
            n <= usize::MAX,
            links_in_range(links@),
            children@.len() == n,
            forall|q: int| 0 <= q < n ==> #[trigger] children@[q]@ == linked_to(links@, q, n as int),
            layout_ok(links@, shown_under@, level@, group@),
            forall|c: int| 0 <= c < n ==> (#[trigger] group@[c] matches Some(g) ==> g < r),
            forall|c: int| 0 <= c < n ==> (#[trigger] group@[c] matches Some(g) ==> belongs_to(links@, c, g as int)),
            forall|c: int, g: int| 0 <= c < n && 0 <= g < r && #[trigger] belongs_to(links@, c, g) ==> group@[c] is Some,
            forall|g: int| 0 <= g < r && #[trigger] links@[g] is None ==> roots@.contains(g as usize),
            roots@.len() == complete@.len(),
            forall|t: int| 0 <= t < roots@.len() ==> (#[trigger] roots@[t]) < r && group@[roots@[t] as int] == Some(roots@[t]),
            forall|a: int, b: int| 0 <= a < b < roots@.len() ==> #[trigger] roots@[a] < #[trigger] roots@[b],
            forall|u: int| 0 <= u < complete@.len() ==> #[trigger] complete@[u] == group_complete(links@, shown_under@, group@, roots@[u]),
        decreases n - r,
    {
        if links[r].is_none() {
            proof {
                if group@[r as int] is Some {
                    assert(shown_under@[r as int] is None);
                }
            }
            let ghost group_before = group@;
            let ghost su_before = shown_under@;
            let ghost roots_before = roots@;
            let ghost complete_before = complete@;
            let c = place_group(r, &links, &children, &mut shown_under, &mut level, &mut group);
            roots.push(r);
            complete.push(c);
            proof {
                assert forall|x: int, g: int| 0 <= x < n && 0 <= g < r + 1 && #[trigger] belongs_to(links@, x, g) implies group@[x] is Some by {
                    if g < r {
                        assert(group_before[x] is Some);
                    }
                }
                assert forall|g: int| 0 <= g < r + 1 && #[trigger] links@[g] is None implies roots@.contains(g as usize) by {
                    if g < r {
                        let t = choose|t: int| 0 <= t < roots_before.len() && roots_before[t] == g as usize;
                        assert(roots@[t] == roots_before[t]);
                    } else {
                        assert(roots@[roots@.len() - 1] == r);
                    }
                }
                assert forall|t: int| 0 <= t < roots@.len() implies (#[trigger] roots@[t]) < r + 1 && group@[roots@[t] as int] == Some(roots@[t]) by {
                    if t < roots_before.len() {
                        assert(roots@[t] == roots_before[t]);
                        assert(group_before[roots@[t] as int] is Some);
                    }
                }
                assert forall|a: int, b: int| 0 <= a < b < roots@.len() implies #[trigger] roots@[a] < #[trigger] roots@[b] by {
                    assert(roots@[a] == roots_before[a]);
                    if b < roots_before.len() {
                        assert(roots@[b] == roots_before[b]);
                    }
                }
                assert forall|u: int| 0 <= u < complete@.len() implies #[trigger] complete@[u] == group_complete(
                    links@,
                    shown_under@,
                    group@,
                    roots@[u],
                ) by {
                    if u < roots_before.len() {
                        let ro = roots@[u];
                        assert(ro == roots_before[u] && complete@[u] == complete_before[u]);
                        assert(group_before[ro as int] is Some && ro != r);
                        assert forall|x: int| 0 <= x < n implies (#[trigger] group@[x] == Some(ro) <==> group_before[x] == Some(ro))
                            && (group@[x] == Some(ro) ==> shown_under@[x] == su_before[x]) by {
                            if group_before[x] is Some {
                                assert(group@[x] == group_before[x]);
                            }
                        }
                        if complete@[u] {
                            assert forall|x: int| 0 <= x < n && #[trigger] group@[x] == Some(ro) && shown_under@[x] is Some implies shown_under@[x]
                                == links@[x] by {
                                assert(group_before[x] == Some(ro));
                            }
                        }
                        if group_complete(links@, shown_under@, group@, ro) {
                            assert forall|x: int| 0 <= x < n && #[trigger] group_before[x] == Some(ro) && su_before[x] is Some implies su_before[x]
                                == links@[x] by {
                                assert(group@[x] == group_before[x]);
                            }
                        }
                    }
                }
            }
        } else {
            proof {
                assert forall|x: int, g: int| 0 <= x < n && 0 <= g < r + 1 && #[trigger] belongs_to(links@, x, g) implies group@[x] is Some by {
                    if g == r {
                        let kk = choose|kk: nat| #[trigger] chain_ends_at(links@, x, g, kk);
                        lemma_chain_unique(links@, x, g, g, kk, kk);
                    }
                }
            }
        }
        r = r + 1;
    }
    proof {
        assert forall|c: int| 0 <= c < n implies #[trigger] group@[c] is Some by {
            assert(ends_at_root(links@, c));
            let k = choose|k: nat| #[trigger] reaches_root(links@, c, k);
            let g = lemma_reaches_chain(links@, c, k);
            assert(belongs_to(links@, c, g));
        }
    }
    proof {
        lemma_layout_edges(table@, orig, links@, shown_under@, level@, group@);
        assert forall|u: int| 0 <= u < roots@.len() implies #[trigger] complete@[u] == edges_follow(table@, shown_under@, roots@[u] as int) by {
            lemma_complete_follows(table@, orig, links@, shown_under@, level@, group@, roots@[u]);
        }
    }
    let shown = linked_lists(&shown_under);
    let mut groups: Vec<SessionGroup> = Vec::new();
    let mut t: usize = 0;
    while t < roots.len()
        invariant
            t <= roots@.len(),
            n == table@.len(),
            strictly_increasing(ids_of(table@)),
            n == links@.len(),
            roots@.len() == complete@.len(),
            layout_ok(links@, shown_under@, level@, group@),
            shown@.len() == n,
            forall|q: int| 0 <= q < n ==> #[trigger] shown@[q]@ == linked_to(shown_under@, q, n as int),
            forall|u: int| 0 <= u < roots@.len() ==> (#[trigger] roots@[u]) < n && group@[roots@[u] as int] == Some(roots@[u]),
            groups@.len() == t,
            forall|g: int| 0 <= g < groups@.len() ==> height_at_most(#[trigger] groups@[g].root, MAX_SESSION_TREE_DEPTH as nat),
            forall|u: int, x: Seq<char>| 0 <= u < groups@.len() ==> (#[trigger] shows_id(groups@[u].root, x)
                <==> subtree_has_id(table@, shown_under@, roots@[u] as int, x)),
            forall|g: int| 0 <= g < groups@.len() ==> shown_once(#[trigger] groups@[g].root),
            forall|u: int| 0 <= u < groups@.len() ==> (#[trigger] groups@[u]).root.session == table@[roots@[u] as int],
            forall|c: int| 0 <= c < n ==> (#[trigger] shown_under@[c] matches Some(q) ==> parent_names(table@[c], table@[q as int])
                || shown_under@[q as int] is None),
            forall|u: int| 0 <= u < groups@.len() ==> children_follow_parents(#[trigger] groups@[u].root, groups@[u].root.session.id@),
            forall|u: int| 0 <= u < roots@.len() ==> #[trigger] complete@[u] == edges_follow(table@, shown_under@, roots@[u] as int),
            forall|u: int| 0 <= u < groups@.len() ==> ((#[trigger] groups@[u]).hierarchy_complete <==> follows_parents(groups@[u].root)),
            forall|u: int| 0 <= u < groups@.len() ==> children_latest_first(#[trigger] groups@[u].root),
        decreases roots@.len() - t,
    {
        let root = roots[t];
        proof {
            assert(up(shown_under@, root as int, 0) == root as int);
            assert(shown_under@[root as int] is None);
        }
        let built = build_tree(root, &table, &shown, Ghost(shown_under@), Ghost(level@), Ghost(root));
        let updated_at = format_time(built.updated_at_micros);
        let ghost before = groups@;
        groups.push(SessionGroup {
            root: built.node,
            latest_session_id: built.latest_session_id,
            updated_at,
            hierarchy_complete: complete[t],
        });
        proof {
            assert forall|g: int| 0 <= g < groups@.len() implies height_at_most(#[trigger] groups@[g].root, MAX_SESSION_TREE_DEPTH as nat) by {
                if g < before.len() {
                    assert(groups@[g] == before[g]);
                }
            }
            assert forall|u: int, x: Seq<char>| 0 <= u < groups@.len() implies (#[trigger] shows_id(groups@[u].root, x)
                <==> subtree_has_id(table@, shown_under@, roots@[u] as int, x)) by {
                if u < before.len() {
                    assert(groups@[u] == before[u]);
                }
            }
            assert forall|g: int| 0 <= g < groups@.len() implies shown_once(#[trigger] groups@[g].root) by {
                if g < before.len() {
                    assert(groups@[g] == before[g]);
                }
            }
            assert forall|u: int| 0 <= u < groups@.len() implies (#[trigger] groups@[u]).root.session == table@[roots@[u] as int]
                && children_follow_parents(groups@[u].root, groups@[u].root.session.id@)
                && (groups@[u].hierarchy_complete <==> follows_parents(groups@[u].root)) by {
                if u < before.len() {
                    assert(groups@[u] == before[u]);
                }
            }
            assert forall|u: int| 0 <= u < groups@.len() implies children_latest_first(#[trigger] groups@[u].root) by {
                if u < before.len() {
                    assert(groups@[u] == before[u]);
                }
            }
        }
        t = t + 1;
    }
    proof {
        lemma_groups_complete(given, table@, links@, shown_under@, level@, group@, roots@, groups@);
        lemma_group_roots(given, table@, orig, links@, shown_under@, level@, group@, roots@, groups@);
    }
    let ghost unsorted = groups@;
    sort_groups(&mut groups);
    proof {
        assert forall|x: Seq<char>| (exists|g: int| 0 <= g < groups@.len() && #[trigger] shows_id(groups@[g].root, x)) <==> lists_id(
            given,
            x,
        ) by {
            if exists|g: int| 0 <= g < groups@.len() && #[trigger] shows_id(groups@[g].root, x) {
                let g = choose|g: int| 0 <= g < groups@.len() && #[trigger] shows_id(groups@[g].root, x);
                assert(unsorted.contains(groups@[g]));
                let u = choose|u: int| 0 <= u < unsorted.len() && unsorted[u] == groups@[g];
                assert(shows_id(unsorted[u].root, x));
            }
            if lists_id(given, x) {
                let u = choose|u: int| 0 <= u < unsorted.len() && #[trigger] shows_id(unsorted[u].root, x);
                assert(groups@.contains(unsorted[u]));
                let g = choose|g: int| 0 <= g < groups@.len() && groups@[g] == unsorted[u];
                assert(shows_id(groups@[g].root, x));
            }
        }
        assert forall|g: int| 0 <= g < groups@.len() implies shown_once(#[trigger] groups@[g].root)
            && children_follow_parents(groups@[g].root, groups@[g].root.session.id@)
            && (groups@[g].hierarchy_complete <==> follows_parents(groups@[g].root)) by {
            assert(unsorted.contains(groups@[g]));
            let u = choose|u: int| 0 <= u < unsorted.len() && unsorted[u] == groups@[g];
            assert(shown_once(unsorted[u].root));
            assert(children_follow_parents(unsorted[u].root, unsorted[u].root.session.id@));
            assert(unsorted[u].hierarchy_complete <==> follows_parents(unsorted[u].root));
        }
        assert forall|g: int| 0 <= g < groups@.len() implies children_latest_first(#[trigger] groups@[g].root) by {
            assert(unsorted.contains(groups@[g]));
            let u = choose|u: int| 0 <= u < unsorted.len() && unsorted[u] == groups@[g];
            assert(children_latest_first(unsorted[u].root));
        }
        lemma_roots_after_sort(given, unsorted, groups@);
    }
    groups
}

/// Whether a session passes the listing filters: one of the requested
/// sources (any when none is requested), the archive filter, the working
/// directory and the parent (`root` asks for sessions without a parent).
pub open spec fn session_passes(s: SessionSummary, query: SessionsQueryView, archived: ArchiveFilter) -> bool {
    &&& (query.source.len() == 0 || query.source.contains(s.source))
    &&& match archived {
        ArchiveFilter::Exclude => !s.archived,
        ArchiveFilter::Only => s.archived,
        ArchiveFilter::Include => true,
    }
    &&& match query.cwd {
        None => true,
        Some(cwd) => s.cwd matches Some(c) && c@ == cwd,
    }
    &&& match query.parent {
        None => true,
        Some(p) => if p == "root"@ {
            s.parent_thread_id is None
        } else {
            s.parent_thread_id matches Some(x) && x@ == p
        },
    }
}

fn source_listed(sources: &Vec<SourceKind>, source: SourceKind) -> (r: bool)
    ensures
        r == sources@.contains(source),
{
    let mut i: usize = 0;
    while i < sources.len()
        invariant
            i <= sources@.len(),
            forall|j: int| 0 <= j < i ==> sources@[j] != source,
        decreases sources@.len() - i,
    {
        if sources[i] == source {
            assert(sources@[i as int] == source);
            return true;
        }
        i = i + 1;
    }
    false
}

/// Whether a session passes the listing filters.
pub fn session_matches(s: &SessionSummary, query: &SessionsQuery, archived: ArchiveFilter) -> (r: bool)
    ensures
        r == session_passes(*s, query@, archived),
{
    let source_matches = query.source.len() == 0 || source_listed(&query.source, s.source);
    let archive_matches = match archived {
        ArchiveFilter::Exclude => !s.archived,
        ArchiveFilter::Only => s.archived,
        ArchiveFilter::Include => true,
    };
    let cwd_matches = match &query.cwd {
        None => true,
        Some(cwd) => match &s.cwd {
            Some(c) => string_eq(c, cwd),
            None => false,
        },
    };
    let parent_matches = match &query.parent {
        None => true,
        Some(p) => if str_eq(p.as_str(), "root") {
            s.parent_thread_id.is_none()
        } else {
            match &s.parent_thread_id {
                Some(x) => string_eq(x, p),
                None => false,
            }
        },
    };
    source_matches && archive_matches && cwd_matches && parent_matches
}

/// Whether some session of a subtree passes the listing filters.
pub open spec fn subtree_passes(node: SessionTreeNode, query: SessionsQueryView, archived: ArchiveFilter) -> bool
    decreases node,
{
    session_passes(node.session, query, archived) || exists|i: int|
        0 <= i < node.children@.len() && subtree_passes(#[trigger] node.children@[i], query, archived)
}

fn node_matches(node: &SessionTreeNode, query: &SessionsQuery, archived: ArchiveFilter) -> (r: bool)
    ensures
        r == subtree_passes(*node, query@, archived),
    decreases node,
{
    if session_matches(&node.session, query, archived) {
        return true;
    }
    let mut i: usize = 0;
    while i < node.children.len()
        invariant
            i <= node.children@.len(),
            forall|j: int| 0 <= j < i ==> !subtree_passes(#[trigger] node.children@[j], query@, archived),
        decreases node.children@.len() - i,
    {
        if node_matches(&node.children[i], query, archived) {
            return true;
        }
        i = i + 1;
    }
    false
}

/// Whether any session of a group passes the listing filters.
pub fn group_matches(group: &SessionGroup, query: &SessionsQuery, archived: ArchiveFilter) -> (r: bool)
    ensures
        r == subtree_passes(group.root, query@, archived),
{
    node_matches(&group.root, query, archived)
}

/// Whether a group lies before a cursor at `(sort, id)` in listing order.
pub open spec fn before_cursor(g: SessionGroup, sort: i64, id: Seq<char>) -> bool {
    let updated = micros_spec(g.updated_at@);
    updated > sort || (updated == sort && text_lt(g.root.session.id@, id))
}

/// Whether a group lies after a cursor at `(sort, id)` in listing order.
pub open spec fn after_cursor(g: SessionGroup, sort: i64, id: Seq<char>) -> bool {
    let updated = micros_spec(g.updated_at@);
    updated < sort || (updated == sort && text_lt(id, g.root.session.id@))
}

/// The page `r` around a cursor at `(sort, id)`: going back, up to `limit`
/// groups before the first group that is not before the cursor; going on, up
/// to `limit` groups from the first group after it.
pub open spec fn cursor_page(groups: Seq<SessionGroup>, sort: i64, id: Seq<char>, previous: bool, limit: usize, r: (usize, usize)) -> bool {
    if previous {
        &&& forall|i: int| 0 <= i < r.1 ==> before_cursor(#[trigger] groups[i], sort, id)
        &&& (r.1 < groups.len() ==> !before_cursor(groups[r.1 as int], sort, id))
        &&& r.0 == (if r.1 >= limit { r.1 - limit } else { 0 })
    } else {
        &&& forall|i: int| 0 <= i < r.0 ==> !after_cursor(#[trigger] groups[i], sort, id)
        &&& (r.0 < groups.len() ==> after_cursor(groups[r.0 as int], sort, id))
        &&& r.1 == (if r.0 + limit < groups.len() { r.0 + limit } else { groups.len() as int })
    }
}

fn group_before_cursor(g: &SessionGroup, sort: i64, id: &str) -> (r: bool)
    ensures
        r == before_cursor(*g, sort, id@),
{
    let updated = micros(g.updated_at.as_str());
    updated > sort || (updated == sort && str_lt(g.root.session.id.as_str(), id))
}

fn group_after_cursor(g: &SessionGroup, sort: i64, id: &str) -> (r: bool)
    ensures
        r == after_cursor(*g, sort, id@),
{
    let updated = micros(g.updated_at.as_str());
    updated < sort || (updated == sort && str_lt(id, g.root.session.id.as_str()))
}

/// The range of `groups` on one page. Without a cursor, the first `limit`
/// groups. Going back from a cursor, up to `limit` groups before the first
/// group that is not before it. Going on, up to `limit` groups from the
/// first group after it.
pub fn group_page_bounds(
    groups: &Vec<SessionGroup>,
    decoded: Option<&(i64, String, String)>,
    previous: bool,
    limit: usize,
) -> (r: (usize, usize))
    ensures
        r.0 <= r.1 <= groups@.len(),
        decoded is None ==> r.0 == 0 && r.1 == (if limit < groups@.len() { limit as int } else { groups@.len() as int }),
        decoded matches Some(c) ==> cursor_page(groups@, c.0, c.1@, previous, limit, r),
{
    let len = groups.len();
    match decoded {
        None => {
            let e = if limit < len { limit } else { len };
            (0, e)
        },
        Some(cursor) => {
            let sort = cursor.0;
            let id = cursor.1.as_str();
            if previous {
                let mut end: usize = 0;
                while end < len && group_before_cursor(&groups[end], sort, id)
                    invariant
                        end <= len,
                        len == groups@.len(),
                        forall|i: int| 0 <= i < end ==> before_cursor(#[trigger] groups@[i], sort, id@),
                    decreases len - end,
                {
                    end = end + 1;
                }
                (if end >= limit { end - limit } else { 0 }, end)
            } else {
                let mut start: usize = 0;
                while start < len && !group_after_cursor(&groups[start], sort, id)
                    invariant
                        start <= len,
                        len == groups@.len(),
                        forall|i: int| 0 <= i < start ==> !after_cursor(#[trigger] groups@[i], sort, id@),
                    decreases len - start,
                {
                    start = start + 1;
                }
                let end = if limit < len - start { start + limit } else { len };
                (start, end)
            }
        },
    }
}

} // verus!
