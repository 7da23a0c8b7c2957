//! Folding duplicate and streamed records into one entry each, and the
//! stable ids entries get.

use vstd::prelude::*;

use crate::model::ToolStatus;
use crate::rollout::dedup::{is_attachment_count, is_streaming_prefix, normalize_text, normalize_text_spec, origin_rank, origin_rank_spec, streaming_prefix_spec};
use crate::rollout::entry::{i64_text, i64_to_text, json_from_u64, opt_text, source_item_id, source_item_of, texts, u64_data, EntryView, NormalizedEntry};
use crate::rollout::json::{json_view, JsonData, JsonValue};
use crate::rollout::types::{EntryOrigin, ParseSeed};
use crate::rollout::meta::{lemma_pairs_map_at, lemma_sorted_distinct, names_distinct, names_sorted, pairs_map, holds_name, Metadata};
use crate::text::{decimal_text, hex_encode, seq_contains_seq, sha256_hex, sha256_hex_prefix, sha256_spec, str_contains, str_eq, string_eq, string_push, string_push_str, u64_to_string};
use vstd::utf8::encode_utf8;

verus! {

/// How many lines apart two records may be and still be duplicates.
pub const DEDUP_LINE_WINDOW: u64 = 10;

/// How many microseconds apart two records may be and still be duplicates.
pub const DEDUP_TIME_WINDOW_MICROS: u64 = 2000000;

/// The first index of `s` whose element satisfies `p`.
pub open spec fn first_index<A>(s: Seq<A>, p: spec_fn(A) -> bool) -> Option<int>
    decreases s.len(),
{
    if s.len() == 0 {
        None
    } else if p(s[0]) {
        Some(0)
    } else {
        match first_index(s.drop_first(), p) {
            Some(i) => Some(i + 1),
            None => None,
        }
    }
}

/// The last index of `s` whose element satisfies `p`.
pub open spec fn last_index<A>(s: Seq<A>, p: spec_fn(A) -> bool) -> Option<int>
    decreases s.len(),
{
    if s.len() == 0 {
        None
    } else if p(s.last()) {
        Some(s.len() - 1)
    } else {
        last_index(s.drop_last(), p)
    }
}

/// What the front search finds satisfies the predicate.
pub proof fn lemma_first_index_found<A>(s: Seq<A>, p: spec_fn(A) -> bool)
    ensures
        first_index(s, p) matches Some(i) ==> 0 <= i < s.len() && p(s[i]),
    decreases s.len(),
{
    if s.len() > 0 && !p(s[0]) {
        lemma_first_index_found(s.drop_first(), p);
        if first_index(s.drop_first(), p) is Some {
            let i = first_index(s.drop_first(), p)->0;
            assert(s.drop_first()[i] == s[i + 1]);
        }
    }
}

/// What the back search finds satisfies the predicate.
pub proof fn lemma_last_index_found<A>(s: Seq<A>, p: spec_fn(A) -> bool)
    ensures
        last_index(s, p) matches Some(i) ==> 0 <= i < s.len() && p(s[i]),
    decreases s.len(),
{
    if s.len() > 0 && !p(s.last()) {
        lemma_last_index_found(s.drop_last(), p);
        if last_index(s.drop_last(), p) is Some {
            let i = last_index(s.drop_last(), p)->0;
            assert(s.drop_last()[i] == s[i]);
        }
    }
}

/// A search from the front that stopped at `i` found the first index.
pub proof fn lemma_first_index<A>(s: Seq<A>, p: spec_fn(A) -> bool, i: int)
    requires
        0 <= i <= s.len(),
        forall|j: int| 0 <= j < i ==> !p(#[trigger] s[j]),
        i < s.len() ==> p(s[i]),
    ensures
        first_index(s, p) == (if i < s.len() { Some(i) } else { None::<int> }),
    decreases s.len(),
{
    if s.len() > 0 && i > 0 {
        assert(!p(s[0]));
        assert forall|j: int| 0 <= j < i - 1 implies !p(#[trigger] s.drop_first()[j]) by {
            assert(s.drop_first()[j] == s[j + 1]);
        }
        if i - 1 < s.len() - 1 {
            assert(s.drop_first()[i - 1] == s[i]);
        }
        lemma_first_index(s.drop_first(), p, i - 1);
    }
}

/// A search from the back that stopped at `i` found the last index.
pub proof fn lemma_last_index<A>(s: Seq<A>, p: spec_fn(A) -> bool, i: int)
    requires
        -1 <= i < s.len(),
        forall|j: int| i < j < s.len() ==> !p(#[trigger] s[j]),
        i >= 0 ==> p(s[i]),
    ensures
        last_index(s, p) == (if i >= 0 { Some(i) } else { None::<int> }),
    decreases s.len(),
{
    if s.len() > 0 && i < s.len() - 1 {
        assert(!p(s[s.len() - 1]));
        assert forall|j: int| i < j < s.len() - 1 implies !p(#[trigger] s.drop_last()[j]) by {
            assert(s.drop_last()[j] == s[j]);
        }
        if i >= 0 {
            assert(s.drop_last()[i] == s[i]);
        }
        lemma_last_index(s.drop_last(), p, i);
    }
}

/// Whether a tool entry reached a final status.
pub open spec fn terminal_spec(e: EntryView) -> bool {
    e.tool_status matches Some(s) && (s == ToolStatus::Succeeded || s == ToolStatus::Failed || s == ToolStatus::Interrupted)
}

/// Whether a tool entry reached a final status.
pub fn is_terminal(entry: &NormalizedEntry) -> (r: bool)
    ensures
        r == terminal_spec(entry@),
{
    match entry.tool_status {
        Some(ToolStatus::Succeeded) | Some(ToolStatus::Failed) | Some(ToolStatus::Interrupted) => true,
        _ => false,
    }
}

/// The raw records of `existing` followed by those of `added` not yet among them.
pub open spec fn union_refs(existing: Seq<Seq<char>>, added: Seq<Seq<char>>) -> Seq<Seq<char>>
    decreases added.len(),
{
    if added.len() == 0 {
        existing
    } else {
        let acc = union_refs(existing, added.drop_last());
        if acc.contains(added.last()) { acc } else { acc.push(added.last()) }
    }
}

/// Whether a metadata name holds an attachment count.
pub open spec fn attachment_key(key: Seq<char>) -> bool {
    key == "attachmentCount"@ || key == "imageAttachmentCount"@ || key == "audioAttachmentCount"@
}

/// The unsigned integer a metadata value holds, or 0.
pub open spec fn count_of(v: Option<JsonData>) -> u64 {
    match v {
        Some(JsonData::Number(_, Some(n), _)) => n,
        _ => 0,
    }
}

/// Metadata merged with a candidate's pairs in order: attachment counts
/// keep the larger count (dropped when both are zero), other values are
/// replaced.
pub open spec fn merged_meta(m: Map<Seq<char>, JsonData>, pairs: Seq<(String, JsonValue)>) -> Map<Seq<char>, JsonData>
    decreases pairs.len(),
{
    if pairs.len() == 0 {
        m
    } else {
        let acc = merged_meta(m, pairs.drop_last());
        let k = pairs.last().0@;
        let v = json_view(pairs.last().1);
        if attachment_key(k) {
            let old_count = count_of(if acc.dom().contains(k) { Some(acc[k]) } else { None });
            let new_count = count_of(Some(v));
            let merged = if old_count >= new_count { old_count } else { new_count };
            if merged > 0 { acc.insert(k, u64_data(merged)) } else { acc }
        } else {
            acc.insert(k, v)
        }
    }
}

/// The larger of the counts an entry and a duplicate hold under `x`.
pub open spec fn merged_count(m: Map<Seq<char>, JsonData>, c: Map<Seq<char>, JsonData>, x: Seq<char>) -> u64 {
    let a = count_of(if m.dom().contains(x) { Some(m[x]) } else { None });
    let b = count_of(Some(c[x]));
    if a >= b { a } else { b }
}

/// Metadata merged with a duplicate's: a duplicate's attachment count
/// keeps the larger of the two counts (and is left out when both are zero);
/// its other values replace the entry's.
pub open spec fn merged_map(m: Map<Seq<char>, JsonData>, c: Map<Seq<char>, JsonData>) -> Map<Seq<char>, JsonData> {
    Map::new(
        |x: Seq<char>| m.dom().contains(x) || (c.dom().contains(x) && (!attachment_key(x) || merged_count(m, c, x) > 0)),
        |x: Seq<char>|
            if c.dom().contains(x) {
                if attachment_key(x) {
                    if merged_count(m, c, x) > 0 { u64_data(merged_count(m, c, x)) } else { m[x] }
                } else {
                    c[x]
                }
            } else {
                m[x]
            },
    )
}

/// Pairs with one more pair hold one more name.
proof fn lemma_pairs_map_push(s: Seq<(String, JsonValue)>, p: (String, JsonValue))
    requires
        names_distinct(s.push(p)),
    ensures
        pairs_map(s.push(p)) == pairs_map(s).insert(p.0@, json_view(p.1)),
        names_distinct(s),
        !pairs_map(s).dom().contains(p.0@),
{
    let t = s.push(p);
    assert forall|i: int, j: int| 0 <= i < s.len() && 0 <= j < s.len() && i != j implies #[trigger] s[i].0@
        != #[trigger] s[j].0@ by {
        assert(t[i] == s[i] && t[j] == s[j]);
    }
    if holds_name(s, p.0@) {
        let i = choose|i: int| 0 <= i < s.len() && #[trigger] s[i].0@ == p.0@;
        assert(t[i].0@ == t[s.len() as int].0@);
    }
    assert forall|x: Seq<char>| #[trigger] holds_name(t, x) == pairs_map(s).insert(p.0@, json_view(p.1)).dom().contains(x) by {
        if holds_name(t, x) {
            let i = choose|i: int| 0 <= i < t.len() && #[trigger] t[i].0@ == x;
            if i < s.len() {
                assert(s[i].0@ == x);
            }
        }
        if holds_name(s, x) {
            let i = choose|i: int| 0 <= i < s.len() && #[trigger] s[i].0@ == x;
            assert(t[i].0@ == x);
        }
        if x == p.0@ {
            assert(t[s.len() as int].0@ == x);
        }
    }
    assert forall|x: Seq<char>| #[trigger] pairs_map(t).dom().contains(x) implies pairs_map(t)[x] == pairs_map(s).insert(
        p.0@,
        json_view(p.1),
    )[x] by {
        let i = choose|i: int| 0 <= i < t.len() && #[trigger] t[i].0@ == x;
        lemma_pairs_map_at(t, i);
        if i < s.len() {
            assert(t[i] == s[i]);
            lemma_pairs_map_at(s, i);
        }
    }
    assert(pairs_map(t) =~= pairs_map(s).insert(p.0@, json_view(p.1)));
}

/// Merging pairs one by one gives the merged map, when their names are distinct.
pub proof fn lemma_merged_meta_map(m: Map<Seq<char>, JsonData>, pairs: Seq<(String, JsonValue)>)
    requires
        names_distinct(pairs),
    ensures
        merged_meta(m, pairs) == merged_map(m, pairs_map(pairs)),
    decreases pairs.len(),
{
    if pairs.len() == 0 {
        assert(pairs_map(pairs) =~= Map::<Seq<char>, JsonData>::empty());
        assert(merged_map(m, pairs_map(pairs)) =~= m);
    } else {
        let s = pairs.drop_last();
        let p = pairs.last();
        assert(s.push(p) =~= pairs);
        lemma_pairs_map_push(s, p);
        lemma_merged_meta_map(m, s);
        let c = pairs_map(s);
        let acc = merged_map(m, c);
        let k = p.0@;
        let v = json_view(p.1);
        let c2 = c.insert(k, v);
        assert(merged_meta(m, pairs) =~= merged_map(m, c2));
    }
}

/// The byte length of a text.
pub open spec fn byte_len(s: Seq<char>) -> nat {
    encode_utf8(s).len()
}

/// An entry with a duplicate's content when the duplicate's origin ranks higher.
pub open spec fn take_preferred(e: EntryView, c: EntryView) -> EntryView {
    if origin_rank_spec(c.origin) > origin_rank_spec(e.origin) {
        EntryView {
            kind: c.kind,
            title: c.title,
            primary_text: c.primary_text,
            secondary_text: c.secondary_text,
            presentation: c.presentation,
            role: c.role,
            phase: c.phase,
            tool_kind: c.tool_kind,
            tool_status: c.tool_status,
            call_id: c.call_id,
            parent_entry_id: c.parent_entry_id,
            origin: c.origin,
            searchable: c.searchable,
            default_collapsed: c.default_collapsed,
            ..e
        }
    } else {
        e
    }
}

/// An entry with its text filled or extended from a duplicate: a longer
/// streamed text (judged against `original`) wins, empty text and
/// secondary text are filled, a new secondary text is appended.
pub open spec fn fill_texts(e: EntryView, c: EntryView, original: Seq<char>) -> EntryView {
    let is_final = streaming_prefix_spec(original, c.primary_text) && byte_len(c.primary_text) > byte_len(original);
    let e2 = if is_final { EntryView { primary_text: c.primary_text, ..e } } else { e };
    let e3 = if e2.primary_text.len() == 0 && c.primary_text.len() > 0 { EntryView { primary_text: c.primary_text, ..e2 } } else { e2 };
    if c.secondary_text.len() > 0 {
        if e3.secondary_text.len() == 0 {
            EntryView { secondary_text: c.secondary_text, ..e3 }
        } else if !seq_contains_seq(e3.secondary_text, c.secondary_text) {
            EntryView { secondary_text: e3.secondary_text + "\n"@ + c.secondary_text, ..e3 }
        } else {
            e3
        }
    } else {
        e3
    }
}

/// An entry with a duplicate's status, and its title when it had none.
pub open spec fn fill_status_title(e: EntryView, c: EntryView) -> EntryView {
    let e5 = if c.tool_status is Some { EntryView { tool_status: c.tool_status, ..e } } else { e };
    if e5.title.len() == 0 && c.title.len() > 0 { EntryView { title: c.title, ..e5 } } else { e5 }
}

/// An entry merged with a duplicate: the raw records of both; the
/// duplicate's content when its origin ranks higher; a longer streamed text
/// wins; empty text, secondary text, status and title are filled from the
/// duplicate; secondary texts not already there are appended; metadata merged.
pub open spec fn merge_spec(e: EntryView, c: EntryView) -> EntryView {
    let e1 = take_preferred(EntryView { raw_refs: union_refs(e.raw_refs, c.raw_refs), ..e }, c);
    let e6 = fill_status_title(fill_texts(e1, c, e.primary_text), c);
    EntryView { metadata: merged_map(e6.metadata, c.metadata), ..e6 }
}

fn contains_string(v: &Vec<String>, s: &String) -> (r: bool)
    ensures
        r == texts(v@).contains(s@),
{
    let mut i: usize = 0;
    while i < v.len()
        invariant
            i <= v@.len(),
            forall|j: int| 0 <= j < i ==> (#[trigger] v@[j])@ != s@,
        decreases v@.len() - i,
    {
        if string_eq(&v[i], s) {
            assert(texts(v@)[i as int] == s@);
            return true;
        }
        i = i + 1;
    }
    assert forall|j: int| 0 <= j < texts(v@).len() implies texts(v@)[j] != s@ by {
        assert(texts(v@)[j] == v@[j]@);
    }
    false
}

fn merge_refs(existing: &mut Vec<String>, added: &Vec<String>)
    ensures
        texts(final(existing)@) == union_refs(texts(old(existing)@), texts(added@)),
{
    let ghost start = texts(existing@);
    let mut i: usize = 0;
    while i < added.len()
        invariant
            i <= added@.len(),
            texts(existing@) == union_refs(start, texts(added@).take(i as int)),
        decreases added@.len() - i,
    {
        proof {
            assert(texts(added@).take(i + 1).drop_last() =~= texts(added@).take(i as int));
            assert(texts(added@).take(i + 1).last() == added@[i as int]@);
        }
        if !contains_string(existing, &added[i]) {
            existing.push(added[i].clone());
            assert(texts(existing@) =~= union_refs(start, texts(added@).take(i + 1)));
        }
        i = i + 1;
    }
    assert(texts(added@).take(added@.len() as int) =~= texts(added@));
}

fn merge_metadata(existing: &mut Metadata, candidate: &Metadata)
    requires
        old(existing).wf(),
    ensures
        final(existing).wf(),
        final(existing)@ == merged_meta(old(existing)@, candidate.pairs@),
{
    let ghost start = existing@;
    let mut i: usize = 0;
    while i < candidate.pairs.len()
        invariant
            i <= candidate.pairs@.len(),
            existing.wf(),
            existing@ == merged_meta(start, candidate.pairs@.take(i as int)),
        decreases candidate.pairs@.len() - i,
    {
        proof {
            assert(candidate.pairs@.take(i + 1).drop_last() =~= candidate.pairs@.take(i as int));
            assert(candidate.pairs@.take(i + 1).last() == candidate.pairs@[i as int]);
        }
        let key = candidate.pairs[i].0.as_str();
        let value = &candidate.pairs[i].1;
        if is_attachment_count(key) {
            let old_count = match existing.get(key) {
                Some(v) => match v.as_u64() {
                    Some(n) => n,
                    None => 0,
                },
                None => 0,
            };
            let new_count = match value.as_u64() {
                Some(n) => n,
                None => 0,
            };
            let merged = if old_count >= new_count { old_count } else { new_count };
            if merged > 0 {
                existing.insert(key, json_from_u64(merged));
            }
        } else {
            existing.insert(key, value.duplicate());
        }
        i = i + 1;
    }
    assert(candidate.pairs@.take(candidate.pairs@.len() as int) =~= candidate.pairs@);
}

fn apply_preferred(existing: &mut NormalizedEntry, candidate: &NormalizedEntry)
    ensures
        final(existing)@ == take_preferred(old(existing)@, candidate@),
        final(existing).metadata == old(existing).metadata,
{
    if origin_rank(candidate.origin) > origin_rank(existing.origin) {
        existing.kind = candidate.kind;
        existing.title = candidate.title.clone();
        existing.primary_text = candidate.primary_text.clone();
        existing.secondary_text = candidate.secondary_text.clone();
        existing.presentation = candidate.presentation;
        existing.role = candidate.role;
        existing.phase = candidate.phase;
        existing.tool_kind = candidate.tool_kind;
        existing.tool_status = candidate.tool_status;
        existing.call_id = crate::rollout::entry::copy_opt(&candidate.call_id);
        existing.parent_entry_id = crate::rollout::entry::copy_opt(&candidate.parent_entry_id);
        existing.origin = candidate.origin;
        existing.searchable = candidate.searchable;
        existing.default_collapsed = candidate.default_collapsed;
    }
}

fn apply_texts(existing: &mut NormalizedEntry, candidate: &NormalizedEntry, is_final: bool, Ghost(original): Ghost<Seq<char>>)
    requires
        is_final == (streaming_prefix_spec(original, candidate@.primary_text) && byte_len(candidate@.primary_text)
            > byte_len(original)),
    ensures
        final(existing)@ == fill_texts(old(existing)@, candidate@, original),
        final(existing).metadata == old(existing).metadata,
{
    if is_final {
        existing.primary_text = candidate.primary_text.clone();
    }
    if existing.primary_text.as_str().is_empty() && !candidate.primary_text.as_str().is_empty() {
        existing.primary_text = candidate.primary_text.clone();
    }
    if !candidate.secondary_text.as_str().is_empty() {
        if existing.secondary_text.as_str().is_empty() {
            existing.secondary_text = candidate.secondary_text.clone();
        } else if !str_contains(existing.secondary_text.as_str(), candidate.secondary_text.as_str()) {
            string_push(&mut existing.secondary_text, '\n');
            string_push_str(&mut existing.secondary_text, candidate.secondary_text.as_str());
            proof {
                reveal_strlit("\n");
            }
        }
    }
}

fn apply_status_title(existing: &mut NormalizedEntry, candidate: &NormalizedEntry)
    ensures
        final(existing)@ == fill_status_title(old(existing)@, candidate@),
        final(existing).metadata == old(existing).metadata,
{
    if candidate.tool_status.is_some() {
        existing.tool_status = candidate.tool_status;
    }
    if existing.title.as_str().is_empty() && !candidate.title.as_str().is_empty() {
        existing.title = candidate.title.clone();
    }
}

/// Merges a duplicate record's entry into an existing entry.
pub fn merge_entries(existing: &mut NormalizedEntry, candidate: &NormalizedEntry)
    requires
        old(existing).wf(),
        candidate.wf(),
    ensures
        final(existing).wf(),
        final(existing)@ == merge_spec(old(existing)@, candidate@),
{
    let ghost original = existing@.primary_text;
    let is_final = is_streaming_prefix(existing.primary_text.as_str(), candidate.primary_text.as_str())
        && candidate.primary_text.as_str().as_bytes().len() > existing.primary_text.as_str().as_bytes().len();
    merge_refs(&mut existing.raw_refs, &candidate.raw_refs);
    apply_preferred(existing, candidate);
    apply_texts(existing, candidate, is_final, Ghost(original));
    apply_status_title(existing, candidate);
    let ghost m0 = existing.metadata@;
    merge_metadata(&mut existing.metadata, &candidate.metadata);
    proof {
        lemma_sorted_distinct(candidate.metadata.pairs@);
        lemma_merged_meta_map(m0, candidate.metadata.pairs@);
    }
}

/// An entry kept as a possible duplicate, with the line it came from.
#[derive(Debug)]
pub struct TrackedEntry {
    pub line_no: u64,
    pub entry: NormalizedEntry,
}

/// The line and entry of a kept entry.
pub open spec fn tracked_view(t: TrackedEntry) -> (u64, EntryView) {
    (t.line_no, t.entry@)
}

/// The lines and entries of item entries.
pub open spec fn tracked_views(s: Seq<TrackedEntry>) -> Seq<(u64, EntryView)> {
    s.map_values(|t: TrackedEntry| tracked_view(t))
}

/// The call ids, lines and entries of open tool calls.
pub open spec fn active_views(s: Seq<(String, TrackedEntry)>) -> Seq<(Seq<char>, (u64, EntryView))> {
    s.map_values(|p: (String, TrackedEntry)| (p.0@, tracked_view(p.1)))
}

/// The names and counts of entry id bases.
pub open spec fn occurrence_views(s: Seq<(String, u64)>) -> Seq<(Seq<char>, u64)> {
    s.map_values(|p: (String, u64)| (p.0@, p.1))
}

/// `a - b`, or 0 when `b` is larger.
pub open spec fn sat_sub_u64(a: u64, b: u64) -> int {
    if a >= b { a - b } else { 0 }
}

/// The distance between two instants.
pub open spec fn gap(a: i64, b: i64) -> int {
    if a >= b { a - b } else { b - a }
}

/// Whether a item entry is too old to be a duplicate of a record at
/// `line` and `time`: more lines apart than the window, and more time apart
/// (or with an instant missing).
pub open spec fn outside_window(line: u64, time: Option<i64>, t: (u64, EntryView)) -> bool {
    sat_sub_u64(line, t.0) > DEDUP_LINE_WINDOW && match (time, t.1.timestamp_micros) {
        (Some(a), Some(b)) => gap(a, b) > DEDUP_TIME_WINDOW_MICROS,
        _ => true,
    }
}

/// Tracked entries with the oldest ones outside the window dropped.
pub open spec fn trim_front(s: Seq<(u64, EntryView)>, line: u64, time: Option<i64>) -> Seq<(u64, EntryView)>
    decreases s.len(),
{
    if s.len() > 0 && outside_window(line, time, s[0]) {
        trim_front(s.drop_first(), line, time)
    } else {
        s
    }
}

/// Whether a item entry has the id `id`.
pub open spec fn has_id(id: Seq<char>) -> spec_fn((u64, EntryView)) -> bool {
    |t: (u64, EntryView)| t.1.id == id
}

/// The item entries after `t` is item: an entry with its id moves to
/// the back, and entries outside the window of `t` leave from the front.
pub open spec fn track_spec(recent: Seq<(u64, EntryView)>, t: (u64, EntryView)) -> Seq<(u64, EntryView)> {
    let removed = match first_index(recent, has_id(t.1.id)) {
        Some(i) => recent.remove(i),
        None => recent,
    };
    trim_front(removed.push(t), t.0, t.1.timestamp_micros)
}

/// Whether an open tool call has the call id `k`.
pub open spec fn has_call_key(k: Seq<char>) -> spec_fn((Seq<char>, (u64, EntryView))) -> bool {
    |p: (Seq<char>, (u64, EntryView))| p.0 == k
}

/// Open tool calls with `k` set to `t`.
pub open spec fn active_insert(a: Seq<(Seq<char>, (u64, EntryView))>, k: Seq<char>, t: (u64, EntryView)) -> Seq<(Seq<char>, (u64, EntryView))> {
    match first_index(a, has_call_key(k)) {
        Some(i) => a.update(i, (k, t)),
        None => a.push((k, t)),
    }
}

/// Open tool calls without `k`.
pub open spec fn active_remove(a: Seq<(Seq<char>, (u64, EntryView))>, k: Seq<char>) -> Seq<(Seq<char>, (u64, EntryView))> {
    match first_index(a, has_call_key(k)) {
        Some(i) => a.remove(i),
        None => a,
    }
}

/// The open tool call with call id `k`.
pub open spec fn active_get(a: Seq<(Seq<char>, (u64, EntryView))>, k: Seq<char>) -> Option<(u64, EntryView)> {
    match first_index(a, has_call_key(k)) {
        Some(i) => Some(a[i].1),
        None => None,
    }
}

/// Whether a count is kept for the id base `k`.
pub open spec fn has_base(k: Seq<char>) -> spec_fn((Seq<char>, u64)) -> bool {
    |p: (Seq<char>, u64)| p.0 == k
}

/// How many entries already got an id from the base `k`.
pub open spec fn occurrence_of(o: Seq<(Seq<char>, u64)>, k: Seq<char>) -> u64 {
    match first_index(o, has_base(k)) {
        Some(i) => o[i].1,
        None => 0,
    }
}

/// The counts with one more entry for the base `k`.
pub open spec fn occurrence_bump(o: Seq<(Seq<char>, u64)>, k: Seq<char>) -> Seq<(Seq<char>, u64)> {
    match first_index(o, has_base(k)) {
        Some(i) => o.update(i, (k, if o[i].1 == u64::MAX { u64::MAX } else { (o[i].1 + 1) as u64 })),
        None => o.push((k, 1)),
    }
}

/// The content an entry's id is derived from: its text, and its secondary
/// text too when it has one and is no tool call.
pub open spec fn id_body(e: EntryView) -> Seq<char> {
    if e.call_id is Some || e.secondary_text.len() == 0 {
        e.primary_text
    } else {
        e.primary_text + seq!['\0'] + e.secondary_text
    }
}

/// The base of an entry's id: session, kind, instant, call and a hash of
/// its content, separated by NUL.
pub open spec fn id_base(session_id: Seq<char>, e: EntryView) -> Seq<char> {
    session_id + seq!['\0'] + e.kind.name_spec() + seq!['\0'] + i64_text(
        match e.timestamp_micros {
            Some(t) => t,
            None => 0,
        },
    ) + seq!['\0'] + (match e.call_id {
        Some(c) => c,
        None => Seq::empty(),
    }) + seq!['\0'] + hex_encode(sha256_spec(encode_utf8(id_body(e))))
}

/// The id of the entry that is the `occurrence`-th with the base `base`:
/// `e_` and the first 20 bytes of the SHA-256 of base and occurrence, in hex.
pub open spec fn entry_id_spec(base: Seq<char>, occurrence: u64) -> Seq<char> {
    "e_"@ + hex_encode(sha256_spec(encode_utf8(base + seq!['\0'] + decimal_text(occurrence as nat))).take(20))
}

/// Whether a item entry may be a streamed or repeated copy of an entry
/// read at `line`: same kind, role and phase, close in lines or time, and
/// the same or a continued text.
pub open spec fn text_duplicate(c: EntryView, line: u64) -> spec_fn((u64, EntryView)) -> bool {
    |t: (u64, EntryView)| {
        let e = t.1;
        &&& e.kind == c.kind && e.role == c.role && e.phase == c.phase
        &&& sat_sub_u64(line, t.0) <= DEDUP_LINE_WINDOW || match (e.timestamp_micros, c.timestamp_micros) {
            (Some(a), Some(b)) => gap(a, b) <= DEDUP_TIME_WINDOW_MICROS,
            _ => false,
        }
        &&& e.primary_text == c.primary_text || streaming_prefix_spec(e.primary_text, c.primary_text)
    }
}

/// Whether a item entry came from the item `sid`.
pub open spec fn from_source(sid: Seq<char>) -> spec_fn((u64, EntryView)) -> bool {
    |t: (u64, EntryView)| source_item_of(t.1) == Some(sid)
}

/// Whether a item entry belongs to the call `cid` and is within the line
/// window of `line`.
pub open spec fn recent_call(cid: Seq<char>, line: u64) -> spec_fn((u64, EntryView)) -> bool {
    |t: (u64, EntryView)| t.1.call_id == Some(cid) && sat_sub_u64(line, t.0) <= DEDUP_LINE_WINDOW
}

/// What the deduplicator holds.
pub struct DedupView {
    pub session_id: Seq<char>,
    pub next_sequence: i64,
    pub occurrences: Seq<(Seq<char>, u64)>,
    pub recent: Seq<(u64, EntryView)>,
    pub active: Seq<(Seq<char>, (u64, EntryView))>,
}

/// Folds duplicate records of one rollout into single entries and gives
/// new entries their sequence numbers and ids.
#[derive(Debug)]
pub struct Deduper {
    pub session_id: String,
    pub next_sequence: i64,
    pub occurrences: Vec<(String, u64)>,
    pub recent: Vec<TrackedEntry>,
    pub active_tools: Vec<(String, TrackedEntry)>,
}

impl Deduper {
    /// What the deduplicator holds.
    pub open spec fn view(&self) -> DedupView {
        DedupView {
            session_id: self.session_id@,
            next_sequence: self.next_sequence,
            occurrences: occurrence_views(self.occurrences@),
            recent: tracked_views(self.recent@),
            active: active_views(self.active_tools@),
        }
    }

    /// Every entry it tracks has its metadata in order.
    pub open spec fn wf(&self) -> bool {
        &&& forall|i: int| 0 <= i < self.recent@.len() ==> (#[trigger] self.recent@[i]).entry.wf()
        &&& forall|i: int| 0 <= i < self.active_tools@.len() ==> (#[trigger] self.active_tools@[i]).1.entry.wf()
    }

    /// A deduplicator for a rollout read from the start.
    pub fn new(session_id: String) -> (r: Deduper)
        ensures
            r.wf(),
            r.view() == (DedupView { session_id: session_id@, next_sequence: 0, occurrences: Seq::empty(), recent: Seq::empty(), active: Seq::empty() }),
    {
        let r = Deduper { session_id, next_sequence: 0, occurrences: Vec::new(), recent: Vec::new(), active_tools: Vec::new() };
        assert(r.view().occurrences =~= Seq::<(Seq<char>, u64)>::empty());
        assert(r.view().recent =~= Seq::<(u64, EntryView)>::empty());
        assert(r.view().active =~= Seq::<(Seq<char>, (u64, EntryView))>::empty());
        r
    }

    /// Takes the id a `session_meta` record names, unless entries were numbered already.
    pub fn set_session_id(&mut self, session_id: String)
        ensures
            final(self).view() == (if old(self).next_sequence == 0 {
                DedupView { session_id: session_id@, ..old(self).view() }
            } else {
                old(self).view()
            }),
            final(self).wf() == old(self).wf(),
    {
        if self.next_sequence == 0 {
            self.session_id = session_id;
        }
    }
}

fn find_last_source(recent: &Vec<TrackedEntry>, sid: &str) -> (r: Option<usize>)
    requires
        forall|i: int| 0 <= i < recent@.len() ==> (#[trigger] recent@[i]).entry.wf(),
    ensures
        r matches Some(i) ==> i < recent@.len(),
        match last_index(tracked_views(recent@), from_source(sid@)) {
            Some(i) => (r matches Some(x) && x as int == i),
            None => r is None,
        },
{
    let ghost s = tracked_views(recent@);
    let mut i: usize = recent.len();
    while i > 0
        invariant
            i <= recent@.len(),
            s == tracked_views(recent@),
            forall|j: int| 0 <= j < recent@.len() ==> (#[trigger] recent@[j]).entry.wf(),
            forall|j: int| i <= j < s.len() ==> !from_source(sid@)(#[trigger] s[j]),
        decreases i,
    {
        let found = match source_item_id(&recent[i - 1].entry) {
            Some(x) => str_eq(x.as_str(), sid),
            None => false,
        };
        if found {
            assert(from_source(sid@)(s[i - 1]));
            proof {
                lemma_last_index(s, from_source(sid@), i - 1);
            }
            return Some(i - 1);
        }
        assert(!from_source(sid@)(s[i - 1]));
        i = i - 1;
    }
    proof {
        lemma_last_index(s, from_source(sid@), -1);
    }
    None
}

fn active_position(active: &Vec<(String, TrackedEntry)>, key: &str) -> (r: Option<usize>)
    ensures
        r matches Some(i) ==> i < active@.len(),
        match first_index(active_views(active@), has_call_key(key@)) {
            Some(i) => (r matches Some(x) && x as int == i),
            None => r is None,
        },
{
    let ghost s = active_views(active@);
    let mut i: usize = 0;
    while i < active.len()
        invariant
            i <= active@.len(),
            s == active_views(active@),
            forall|j: int| 0 <= j < i ==> !has_call_key(key@)(#[trigger] s[j]),
        decreases active@.len() - i,
    {
        if str_eq(active[i].0.as_str(), key) {
            assert(has_call_key(key@)(s[i as int]));
            proof {
                lemma_first_index(s, has_call_key(key@), i as int);
            }
            return Some(i);
        }
        assert(!has_call_key(key@)(s[i as int]));
        i = i + 1;
    }
    proof {
        lemma_first_index(s, has_call_key(key@), s.len() as int);
    }
    None
}

fn find_recent_call(recent: &Vec<TrackedEntry>, cid: &str, line: u64) -> (r: Option<usize>)
    ensures
        r matches Some(i) ==> i < recent@.len(),
        match first_index(tracked_views(recent@), recent_call(cid@, line)) {
            Some(i) => (r matches Some(x) && x as int == i),
            None => r is None,
        },
{
    let ghost s = tracked_views(recent@);
    let mut i: usize = 0;
    while i < recent.len()
        invariant
            i <= recent@.len(),
            s == tracked_views(recent@),
            forall|j: int| 0 <= j < i ==> !recent_call(cid@, line)(#[trigger] s[j]),
        decreases recent@.len() - i,
    {
        let t = &recent[i];
        let same_call = match &t.entry.call_id {
            Some(c) => str_eq(c.as_str(), cid),
            None => false,
        };
        let close = line.saturating_sub(t.line_no) <= DEDUP_LINE_WINDOW;
        if same_call && close {
            assert(recent_call(cid@, line)(s[i as int]));
            proof {
                lemma_first_index(s, recent_call(cid@, line), i as int);
            }
            return Some(i);
        }
        assert(!recent_call(cid@, line)(s[i as int]));
        i = i + 1;
    }
    proof {
        lemma_first_index(s, recent_call(cid@, line), s.len() as int);
    }
    None
}

fn abs_gap(a: i64, b: i64) -> (r: u64)
    ensures
        r == gap(a, b),
{
    if a >= b {
        (a as i128 - b as i128) as u64
    } else {
        (b as i128 - a as i128) as u64
    }
}

fn is_text_duplicate(t: &TrackedEntry, c: &NormalizedEntry, line: u64) -> (r: bool)
    ensures
        r == text_duplicate(c@, line)(tracked_view(*t)),
{
    let e = &t.entry;
    if e.kind != c.kind || e.role != c.role || e.phase != c.phase {
        return false;
    }
    let line_close = line.saturating_sub(t.line_no) <= DEDUP_LINE_WINDOW;
    let time_close = match (e.timestamp_micros, c.timestamp_micros) {
        (Some(a), Some(b)) => abs_gap(a, b) <= DEDUP_TIME_WINDOW_MICROS,
        _ => false,
    };
    if !line_close && !time_close {
        return false;
    }
    string_eq(&e.primary_text, &c.primary_text) || is_streaming_prefix(e.primary_text.as_str(), c.primary_text.as_str())
}

fn find_text_duplicate(recent: &Vec<TrackedEntry>, c: &NormalizedEntry, line: u64) -> (r: Option<usize>)
    ensures
        r matches Some(i) ==> i < recent@.len(),
        match last_index(tracked_views(recent@), text_duplicate(c@, line)) {
            Some(i) => (r matches Some(x) && x as int == i),
            None => r is None,
        },
{
    let ghost s = tracked_views(recent@);
    let mut i: usize = recent.len();
    while i > 0
        invariant
            i <= recent@.len(),
            s == tracked_views(recent@),
            forall|j: int| i <= j < s.len() ==> !text_duplicate(c@, line)(#[trigger] s[j]),
        decreases i,
    {
        if is_text_duplicate(&recent[i - 1], c, line) {
            proof {
                lemma_last_index(s, text_duplicate(c@, line), i - 1);
            }
            return Some(i - 1);
        }
        i = i - 1;
    }
    proof {
        lemma_last_index(s, text_duplicate(c@, line), -1);
    }
    None
}

fn is_outside_window(line: u64, time: Option<i64>, t: &TrackedEntry) -> (r: bool)
    ensures
        r == outside_window(line, time, tracked_view(*t)),
{
    let outside_line = line.saturating_sub(t.line_no) > DEDUP_LINE_WINDOW;
    let outside_time = match (time, t.entry.timestamp_micros) {
        (Some(a), Some(b)) => abs_gap(a, b) > DEDUP_TIME_WINDOW_MICROS,
        _ => true,
    };
    outside_line && outside_time
}

/// Tracks an entry: an entry with its id moves to the back, and entries
/// outside its window leave from the front.
fn track_recent(recent: &mut Vec<TrackedEntry>, item: TrackedEntry)
    requires
        forall|i: int| 0 <= i < old(recent)@.len() ==> (#[trigger] old(recent)@[i]).entry.wf(),
        item.entry.wf(),
    ensures
        forall|i: int| 0 <= i < final(recent)@.len() ==> (#[trigger] final(recent)@[i]).entry.wf(),
        tracked_views(final(recent)@) == track_spec(tracked_views(old(recent)@), tracked_view(item)),
{
    let ghost s0 = tracked_views(recent@);
    let ghost tv = tracked_view(item);
    let mut i: usize = 0;
    while i < recent.len() && !string_eq(&recent[i].entry.id, &item.entry.id)
        invariant
            i <= recent@.len(),
            s0 == tracked_views(recent@),
            tv == tracked_view(item),
            forall|j: int| 0 <= j < i ==> !has_id(tv.1.id)(#[trigger] s0[j]),
        decreases recent@.len() - i,
    {
        assert(!has_id(tv.1.id)(s0[i as int]));
        i = i + 1;
    }
    proof {
        if i < s0.len() {
            assert(has_id(tv.1.id)(s0[i as int]));
        }
        lemma_first_index(s0, has_id(tv.1.id), i as int);
    }
    if i < recent.len() {
        recent.remove(i);
        assert(tracked_views(recent@) =~= s0.remove(i as int));
    }
    let ghost removed = tracked_views(recent@);
    let latest_line = item.line_no;
    let latest_time = item.entry.timestamp_micros;
    recent.push(item);
    assert(tracked_views(recent@) =~= removed.push(tv));
    let ghost full = removed.push(tv);
    while recent.len() > 0 && is_outside_window(latest_line, latest_time, &recent[0])
        invariant
            forall|j: int| 0 <= j < recent@.len() ==> (#[trigger] recent@[j]).entry.wf(),
            trim_front(tracked_views(recent@), latest_line, latest_time) == trim_front(full, latest_line, latest_time),
        decreases recent@.len(),
    {
        let ghost before = tracked_views(recent@);
        recent.remove(0);
        assert(tracked_views(recent@) =~= before.drop_first());
    }
}

fn occurrence_index(o: &Vec<(String, u64)>, key: &str) -> (r: Option<usize>)
    ensures
        r matches Some(i) ==> i < o@.len(),
        match first_index(occurrence_views(o@), has_base(key@)) {
            Some(i) => (r matches Some(x) && x as int == i),
            None => r is None,
        },
{
    let ghost s = occurrence_views(o@);
    let mut i: usize = 0;
    while i < o.len() && !str_eq(o[i].0.as_str(), key)
        invariant
            i <= o@.len(),
            s == occurrence_views(o@),
            forall|j: int| 0 <= j < i ==> !has_base(key@)(#[trigger] s[j]),
        decreases o@.len() - i,
    {
        assert(!has_base(key@)(s[i as int]));
        i = i + 1;
    }
    proof {
        if i < s.len() {
            assert(has_base(key@)(s[i as int]));
        }
        lemma_first_index(s, has_base(key@), i as int);
    }
    if i < o.len() { Some(i) } else { None }
}

fn id_body_of(entry: &NormalizedEntry) -> (r: String)
    ensures
        r@ == id_body(entry@),
{
    if entry.call_id.is_some() || entry.secondary_text.as_str().is_empty() {
        entry.primary_text.clone()
    } else {
        let mut b = entry.primary_text.clone();
        string_push(&mut b, '\0');
        string_push_str(&mut b, entry.secondary_text.as_str());
        b
    }
}

fn id_base_of(session_id: &String, entry: &NormalizedEntry) -> (r: String)
    ensures
        r@ == id_base(session_id@, entry@),
{
    let body = id_body_of(entry);
    let body_hash = sha256_hex(body.as_str().as_bytes());
    let mut base = session_id.clone();
    string_push(&mut base, '\0');
    string_push_str(&mut base, entry.kind.as_str());
    string_push(&mut base, '\0');
    let ts = match entry.timestamp_micros {
        Some(t) => t,
        None => 0,
    };
    string_push_str(&mut base, i64_to_text(ts).as_str());
    string_push(&mut base, '\0');
    match &entry.call_id {
        Some(c) => string_push_str(&mut base, c.as_str()),
        None => {},
    }
    string_push(&mut base, '\0');
    string_push_str(&mut base, body_hash.as_str());
    base
}

impl Deduper {
    /// Gives an entry its id: the base it derives from, numbered by how
    /// many entries had that base before.
    fn entry_id(&mut self, entry: &mut NormalizedEntry) -> (r: String)
        ensures
            final(entry)@ == (EntryView { id_basis: id_base(old(self).session_id@, old(entry)@), ..old(entry)@ }),
            final(entry).metadata == old(entry).metadata,
            r@ == entry_id_spec(
                id_base(old(self).session_id@, old(entry)@),
                occurrence_of(old(self).view().occurrences, id_base(old(self).session_id@, old(entry)@)),
            ),
            final(self).view() == (DedupView {
                occurrences: occurrence_bump(old(self).view().occurrences, id_base(old(self).session_id@, old(entry)@)),
                ..old(self).view()
            }),
            final(self).recent == old(self).recent,
            final(self).active_tools == old(self).active_tools,
    {
        let base = id_base_of(&self.session_id, entry);
        entry.id_basis = base.clone();
        let ghost occ = occurrence_views(self.occurrences@);
        let index = occurrence_index(&self.occurrences, base.as_str());
        proof {
            lemma_first_index_found(occ, has_base(base@));
        }
        let occurrence = match index {
            Some(i) => self.occurrences[i].1,
            None => 0,
        };
        assert(occurrence == occurrence_of(occ, base@));
        match index {
            Some(i) => {
                let bumped = occurrence.saturating_add(1);
                let k = self.occurrences[i].0.clone();
                self.occurrences.set(i, (k, bumped));
                assert(occurrence_views(self.occurrences@) =~= occurrence_bump(occ, base@));
            },
            None => {
                self.occurrences.push((base.clone(), 1));
                assert(occurrence_views(self.occurrences@) =~= occurrence_bump(occ, base@));
            },
        }
        let mut input = base.clone();
        string_push(&mut input, '\0');
        string_push_str(&mut input, u64_to_string(occurrence).as_str());
        assert(input@ == base@ + seq!['\0'] + decimal_text(occurrence as nat));
        let digest = sha256_hex_prefix(input.as_str().as_bytes(), 20);
        assert(digest@ == hex_encode(sha256_spec(encode_utf8(input@)).take(20)));
        let mut id = String::new();
        string_push_str(&mut id, "e_");
        string_push_str(&mut id, digest.as_str());
        proof {
            reveal_strlit("e_");
        }
        assert(id@ == entry_id_spec(base@, occurrence));
        id
    }
}

fn active_put(active: &mut Vec<(String, TrackedEntry)>, key: String, item: TrackedEntry)
    requires
        forall|i: int| 0 <= i < old(active)@.len() ==> (#[trigger] old(active)@[i]).1.entry.wf(),
        item.entry.wf(),
    ensures
        forall|i: int| 0 <= i < final(active)@.len() ==> (#[trigger] final(active)@[i]).1.entry.wf(),
        active_views(final(active)@) == active_insert(active_views(old(active)@), key@, tracked_view(item)),
{
    let ghost a0 = active_views(active@);
    match active_position(active, key.as_str()) {
        Some(i) => {
            active.set(i, (key, item));
            assert(active_views(active@) =~= a0.update(i as int, (key@, tracked_view(item))));
        },
        None => {
            active.push((key, item));
            assert(active_views(active@) =~= a0.push((key@, tracked_view(item))));
        },
    }
}

fn active_take(active: &mut Vec<(String, TrackedEntry)>, key: &str) -> (r: Option<TrackedEntry>)
    requires
        forall|i: int| 0 <= i < old(active)@.len() ==> (#[trigger] old(active)@[i]).1.entry.wf(),
    ensures
        forall|i: int| 0 <= i < final(active)@.len() ==> (#[trigger] final(active)@[i]).1.entry.wf(),
        active_views(final(active)@) == active_remove(active_views(old(active)@), key@),
        match active_get(active_views(old(active)@), key@) {
            Some(t) => (r matches Some(x) && tracked_view(x) == t && x.entry.wf()),
            None => r is None,
        },
{
    let ghost a0 = active_views(active@);
    match active_position(active, key) {
        Some(i) => {
            let (_, t) = active.remove(i);
            assert(active_views(active@) =~= a0.remove(i as int));
            Some(t)
        },
        None => None,
    }
}

/// A candidate with its texts normalized.
pub open spec fn normalized_candidate(c: EntryView) -> EntryView {
    EntryView {
        primary_text: normalize_text_spec(c.primary_text),
        secondary_text: normalize_text_spec(c.secondary_text),
        ..c
    }
}

/// A new entry: the next sequence number, the session, and its id.
pub open spec fn accept_new(d: DedupView, cv: EntryView, line: u64) -> (DedupView, EntryView) {
    let next = if d.next_sequence == i64::MAX { i64::MAX } else { (d.next_sequence + 1) as i64 };
    let e0 = EntryView { sequence: next, session_id: d.session_id, ..cv };
    let base = id_base(d.session_id, e0);
    let e = EntryView { id: entry_id_spec(base, occurrence_of(d.occurrences, base)), id_basis: base, ..e0 };
    let t = (line, e);
    let a = if e.call_id is Some && !terminal_spec(e) { active_insert(d.active, e.call_id->0, t) } else { d.active };
    (
        DedupView {
            next_sequence: next,
            occurrences: occurrence_bump(d.occurrences, base),
            recent: track_spec(d.recent, t),
            active: a,
            ..d
        },
        e,
    )
}

/// What accepting a candidate entry read at `line` does: a tracked entry
/// from the same item, else an open or recent entry of the same call, else
/// a recent entry with the same or a continued text absorbs it; otherwise
/// it becomes a new entry.
#[verifier::opaque]
pub open spec fn accept_spec(d: DedupView, c: EntryView, line: u64) -> (DedupView, EntryView) {
    let cv = normalized_candidate(c);
    let by_source = match source_item_of(cv) {
        Some(sid) => last_index(d.recent, from_source(sid)),
        None => None,
    };
    if by_source is Some {
        let i = by_source->0;
        let old_t = d.recent[i];
        let merged = merge_spec(old_t.1, cv);
        let t2 = (line, merged);
        let a1 = match old_t.1.call_id {
            Some(k) => active_remove(d.active, k),
            None => d.active,
        };
        let a2 = if merged.call_id is Some && !terminal_spec(merged) { active_insert(a1, merged.call_id->0, t2) } else { a1 };
        (DedupView { recent: track_spec(d.recent.remove(i), t2), active: a2, ..d }, merged)
    } else if cv.call_id is Some {
        let cid = cv.call_id->0;
        match active_get(d.active, cid) {
            Some(old_t) => {
                let merged = merge_spec(old_t.1, cv);
                let t2 = (line, merged);
                let a1 = active_remove(d.active, cid);
                let a2 = if !terminal_spec(merged) { active_insert(a1, cid, t2) } else { a1 };
                (DedupView { recent: track_spec(d.recent, t2), active: a2, ..d }, merged)
            },
            None => match first_index(d.recent, recent_call(cid, line)) {
                Some(i) => {
                    let merged = merge_spec(d.recent[i].1, cv);
                    let t2 = (line, merged);
                    let a2 = if !terminal_spec(merged) { active_insert(d.active, cid, t2) } else { d.active };
                    (DedupView { recent: track_spec(d.recent.remove(i), t2), active: a2, ..d }, merged)
                },
                None => accept_new(d, cv, line),
            },
        }
    } else {
        match last_index(d.recent, text_duplicate(cv, line)) {
            Some(i) => {
                let merged = merge_spec(d.recent[i].1, cv);
                (DedupView { recent: track_spec(d.recent.remove(i), (line, merged)), ..d }, merged)
            },
            None => accept_new(d, cv, line),
        }
    }
}

/// A record that repeats an entry still tracked, and belongs to no call or
/// item, is merged into that entry: it keeps its id and sequence number,
/// gains the record's raw references, and no sequence number is used.
pub proof fn lemma_duplicate_keeps_identity(d: DedupView, c: EntryView, line: u64, i: int)
    requires
        source_item_of(normalized_candidate(c)) is None,
        c.call_id is None,
        last_index(d.recent, text_duplicate(normalized_candidate(c), line)) == Some(i),
    ensures
        accept_spec(d, c, line).1.id == d.recent[i].1.id,
        accept_spec(d, c, line).1.sequence == d.recent[i].1.sequence,
        accept_spec(d, c, line).1.raw_refs == union_refs(d.recent[i].1.raw_refs, c.raw_refs),
        accept_spec(d, c, line).0.next_sequence == d.next_sequence,
{
    reveal(accept_spec);
}

/// A record that repeats nothing tracked, and belongs to no call or item,
/// becomes a new entry: it takes the next sequence number and the
/// deduplicator's session, and its texts are normalized.
pub proof fn lemma_new_entry(d: DedupView, c: EntryView, line: u64)
    requires
        source_item_of(normalized_candidate(c)) is None,
        c.call_id is None,
        last_index(d.recent, text_duplicate(normalized_candidate(c), line)) is None,
        d.next_sequence < i64::MAX,
    ensures
        accept_spec(d, c, line).1.sequence == d.next_sequence + 1,
        accept_spec(d, c, line).0.next_sequence == d.next_sequence + 1,
        accept_spec(d, c, line).1.session_id == d.session_id,
        accept_spec(d, c, line).1.primary_text == normalize_text_spec(c.primary_text),
        accept_spec(d, c, line).1.secondary_text == normalize_text_spec(c.secondary_text),
{
    reveal(accept_spec);
}

/// A fresh deduplicator for session `sid`.
pub open spec fn fresh_dedup(sid: Seq<char>) -> DedupView {
    DedupView { session_id: sid, next_sequence: 0, occurrences: Seq::empty(), recent: Seq::empty(), active: Seq::empty() }
}

/// Two records of different kind, role or phase, belonging to no call or
/// item, read first into a fresh deduplicator become entries 1 and 2 of
/// its session, with their texts normalized.
pub proof fn lemma_first_two_entries(sid: Seq<char>, c1: EntryView, c2: EntryView)
    requires
        c1.call_id is None,
        c2.call_id is None,
        source_item_of(normalized_candidate(c1)) is None,
        source_item_of(normalized_candidate(c2)) is None,
        (c1.kind, c1.role, c1.phase) != (c2.kind, c2.role, c2.phase),
    ensures
        accept_spec(fresh_dedup(sid), c1, 1).1.sequence == 1,
        accept_spec(accept_spec(fresh_dedup(sid), c1, 1).0, c2, 2).1.sequence == 2,
        accept_spec(fresh_dedup(sid), c1, 1).1.session_id == sid,
        accept_spec(accept_spec(fresh_dedup(sid), c1, 1).0, c2, 2).1.session_id == sid,
        accept_spec(fresh_dedup(sid), c1, 1).1.primary_text == normalize_text_spec(c1.primary_text),
        accept_spec(accept_spec(fresh_dedup(sid), c1, 1).0, c2, 2).1.primary_text == normalize_text_spec(c2.primary_text),
        accept_spec(fresh_dedup(sid), c1, 1).1.secondary_text == normalize_text_spec(c1.secondary_text),
        accept_spec(accept_spec(fresh_dedup(sid), c1, 1).0, c2, 2).1.secondary_text == normalize_text_spec(c2.secondary_text),
        accept_spec(accept_spec(fresh_dedup(sid), c1, 1).0, c2, 2).0.next_sequence == 2,
{
    let d0 = fresh_dedup(sid);
    let cv2 = normalized_candidate(c2);
    assert(last_index(d0.recent, text_duplicate(normalized_candidate(c1), 1)) is None);
    lemma_new_entry(d0, c1, 1);
    reveal(accept_spec);
    let (d1, e1) = accept_spec(d0, c1, 1);
    let t = (1u64, e1);
    assert(first_index(Seq::<(u64, EntryView)>::empty(), has_id(e1.id)) is None);
    assert(!outside_window(1, e1.timestamp_micros, t));
    assert(d1.recent =~= seq![t]);
    assert(!text_duplicate(cv2, 2)(t));
    assert(d1.recent.drop_last() =~= Seq::<(u64, EntryView)>::empty());
    assert(d1.recent.last() == t);
    assert(last_index(d1.recent.drop_last(), text_duplicate(cv2, 2)) is None);
    assert(last_index(d1.recent, text_duplicate(cv2, 2)) is None);
    assert(d1.session_id == sid && d1.next_sequence == 1);
    lemma_new_entry(d1, c2, 2);
}

/// When duplicates merge, the content of the better origin wins: a
/// completed item over any other, an event's presentation over a response
/// item or a derived entry, a response item over a derived entry. The
/// winner's kind, role, phase, presentation, title, text and origin are
/// kept; a duplicate of no better origin leaves them as they were.
pub proof fn law_merge_prefers_origin(e: EntryView, c: EntryView)
    ensures
        ({
            let outranks = (c.origin == EntryOrigin::ItemCompleted && e.origin != EntryOrigin::ItemCompleted)
                || (c.origin == EntryOrigin::EventPresentation && (e.origin == EntryOrigin::ResponseItem || e.origin == EntryOrigin::Derived))
                || (c.origin == EntryOrigin::ResponseItem && e.origin == EntryOrigin::Derived);
            let m = merge_spec(e, c);
            &&& outranks ==> m.origin == c.origin && m.kind == c.kind && m.role == c.role && m.phase == c.phase
                && m.presentation == c.presentation && m.title == c.title && m.primary_text == c.primary_text
            &&& !outranks ==> m.origin == e.origin && m.kind == e.kind && m.role == e.role && m.phase == e.phase
                && m.presentation == e.presentation
        }),
{
}

/// A record read again within the line window into the deduplicator that
/// read it first into a fresh one, equal but for its raw references,
/// belonging to no call or item, is merged into the entry the first read
/// made: the entry keeps its id and sequence number, gains the new raw
/// references after its own, and no sequence number is used.
pub proof fn law_repeat_keeps_entry(sid: Seq<char>, c: EntryView, c2: EntryView, n: u64, k: u64)
    requires
        c.call_id is None,
        source_item_of(normalized_candidate(c)) is None,
        c2 == (EntryView { raw_refs: c2.raw_refs, ..c }),
        k <= DEDUP_LINE_WINDOW,
        n + k <= u64::MAX,
    ensures
        ({
            let (d1, e1) = accept_spec(fresh_dedup(sid), c, n);
            let (d2, e2) = accept_spec(d1, c2, (n + k) as u64);
            &&& e2.id == e1.id
            &&& e2.sequence == e1.sequence
            &&& d2.next_sequence == d1.next_sequence
            &&& e2.raw_refs == union_refs(e1.raw_refs, c2.raw_refs)
        }),
{
    let d0 = fresh_dedup(sid);
    reveal(accept_spec);
    let (d1, e1) = accept_spec(d0, c, n);
    let cv2 = normalized_candidate(c2);
    let t = (n, e1);
    assert(last_index(d0.recent, text_duplicate(normalized_candidate(c), n)) is None);
    assert(first_index(Seq::<(u64, EntryView)>::empty(), has_id(e1.id)) is None);
    assert(!outside_window(n, e1.timestamp_micros, t));
    assert(d1.recent =~= seq![t]);
    assert(cv2.metadata == normalized_candidate(c).metadata);
    assert(source_item_of(cv2) is None);
    assert(sat_sub_u64((n + k) as u64, n) <= DEDUP_LINE_WINDOW);
    assert(text_duplicate(cv2, (n + k) as u64)(t));
    assert(d1.recent.last() == t);
    assert(last_index(d1.recent, text_duplicate(cv2, (n + k) as u64)) == Some(0int));
    lemma_duplicate_keeps_identity(d1, c2, (n + k) as u64, 0);
}

impl Deduper {
    fn take_recent(&mut self, index: usize) -> (r: TrackedEntry)
        requires
            old(self).wf(),
            index < old(self).recent@.len(),
        ensures
            final(self).wf(),
            r.entry.wf(),
            tracked_view(r) == old(self).view().recent[index as int],
            final(self).view() == (DedupView { recent: old(self).view().recent.remove(index as int), ..old(self).view() }),
    {
        let ghost r0 = self.view().recent;
        let t = self.recent.remove(index);
        assert(self.view().recent =~= r0.remove(index as int));
        t
    }

    fn push_recent(&mut self, item: TrackedEntry)
        requires
            old(self).wf(),
            item.entry.wf(),
        ensures
            final(self).wf(),
            final(self).view() == (DedupView { recent: track_spec(old(self).view().recent, tracked_view(item)), ..old(self).view() }),
    {
        track_recent(&mut self.recent, item);
    }

    fn put_active(&mut self, key: String, item: TrackedEntry)
        requires
            old(self).wf(),
            item.entry.wf(),
        ensures
            final(self).wf(),
            final(self).view() == (DedupView { active: active_insert(old(self).view().active, key@, tracked_view(item)), ..old(self).view() }),
    {
        active_put(&mut self.active_tools, key, item);
    }

    fn take_active(&mut self, key: &str) -> (r: Option<TrackedEntry>)
        requires
            old(self).wf(),
        ensures
            final(self).wf(),
            final(self).view() == (DedupView { active: active_remove(old(self).view().active, key@), ..old(self).view() }),
            match active_get(old(self).view().active, key@) {
                Some(t) => (r matches Some(x) && tracked_view(x) == t && x.entry.wf()),
                None => r is None,
            },
    {
        active_take(&mut self.active_tools, key)
    }

    /// A tracked entry absorbs the candidate and moves to the back, and
    /// stays open for its call when the result is an unfinished tool call.
    fn absorb_into(&mut self, mut item: TrackedEntry, candidate: &NormalizedEntry, line_no: u64, reopen: Option<String>) -> (r: NormalizedEntry)
        requires
            old(self).wf(),
            candidate.wf(),
            item.entry.wf(),
        ensures
            final(self).wf(),
            r.wf(),
            r@ == merge_spec(item.entry@, candidate@),
            ({
                let t2 = (line_no, r@);
                let d1 = DedupView { recent: track_spec(old(self).view().recent, t2), ..old(self).view() };
                final(self).view() == match reopen {
                    Some(k) => if !terminal_spec(r@) { DedupView { active: active_insert(d1.active, k@, t2), ..d1 } } else { d1 },
                    None => d1,
                }
            }),
    {
        merge_entries(&mut item.entry, candidate);
        item.line_no = line_no;
        let result = item.entry.duplicate();
        let copy = TrackedEntry { line_no, entry: item.entry.duplicate() };
        self.push_recent(copy);
        if let Some(k) = reopen {
            if !is_terminal(&result) {
                self.put_active(k, item);
            }
        }
        result
    }

    /// The candidate becomes a new entry.
    fn accept_as_new(&mut self, mut candidate: NormalizedEntry, line_no: u64) -> (r: NormalizedEntry)
        requires
            old(self).wf(),
            candidate.wf(),
        ensures
            final(self).wf(),
            r.wf(),
            (final(self).view(), r@) == accept_new(old(self).view(), candidate@, line_no),
    {
        if self.next_sequence < 9223372036854775807i64 {
            self.next_sequence = self.next_sequence + 1;
        }
        candidate.sequence = self.next_sequence;
        candidate.session_id = self.session_id.clone();
        let id = self.entry_id(&mut candidate);
        candidate.id = id;
        let item = TrackedEntry { line_no, entry: candidate.duplicate() };
        self.push_recent(item);
        if let Some(call_id) = crate::rollout::entry::copy_opt(&candidate.call_id) {
            if !is_terminal(&candidate) {
                let t = TrackedEntry { line_no, entry: candidate.duplicate() };
                self.put_active(call_id, t);
            }
        }
        candidate
    }
}

impl Deduper {
    /// Accepts the entry normalized from a record at `line_no`: merges it
    /// into the entry it duplicates or continues, or numbers it as a new
    /// entry, and returns the entry as it now stands.
    pub fn accept(&mut self, candidate: NormalizedEntry, line_no: u64) -> (r: NormalizedEntry)
        requires
            old(self).wf(),
            candidate.wf(),
        ensures
            final(self).wf(),
            r.wf(),
            (final(self).view(), r@) == accept_spec(old(self).view(), candidate@, line_no),
    {
        proof {
            reveal(accept_spec);
        }
        let ghost d = self.view();
        let ghost c0 = candidate;
        let mut candidate = candidate;
        candidate.primary_text = normalize_text(candidate.primary_text.as_str());
        candidate.secondary_text = normalize_text(candidate.secondary_text.as_str());
        assert(candidate@ == normalized_candidate(c0@));
        assert(candidate.wf());
        let by_source = match source_item_id(&candidate) {
            Some(sid) => find_last_source(&self.recent, sid.as_str()),
            None => None,
        };
        proof {
            if source_item_of(candidate@) is Some {
                lemma_last_index_found(d.recent, from_source(source_item_of(candidate@)->0));
            }
        }
        if let Some(index) = by_source {
            let mut item = self.take_recent(index);
            let previous = crate::rollout::entry::copy_opt(&item.entry.call_id);
            merge_entries(&mut item.entry, &candidate);
            item.line_no = line_no;
            let result = item.entry.duplicate();
            self.push_recent(TrackedEntry { line_no, entry: item.entry.duplicate() });
            if let Some(k) = previous {
                self.take_active(k.as_str());
            }
            if let Some(k) = crate::rollout::entry::copy_opt(&result.call_id) {
                if !is_terminal(&result) {
                    self.put_active(k, item);
                }
            }
            return result;
        }
        if let Some(cid) = crate::rollout::entry::copy_opt(&candidate.call_id) {
            if let Some(item) = self.take_active(cid.as_str()) {
                return self.absorb_into(item, &candidate, line_no, Some(cid));
            }
            let found = find_recent_call(&self.recent, cid.as_str(), line_no);
            proof {
                lemma_first_index_found(d.recent, recent_call(cid@, line_no));
            }
            if let Some(index) = found {
                let item = self.take_recent(index);
                return self.absorb_into(item, &candidate, line_no, Some(cid));
            }
            self.accept_as_new(candidate, line_no)
        } else {
            let found = find_text_duplicate(&self.recent, &candidate, line_no);
            proof {
                lemma_last_index_found(d.recent, text_duplicate(candidate@, line_no));
            }
            if let Some(index) = found {
                let item = self.take_recent(index);
                return self.absorb_into(item, &candidate, line_no, None);
            }
            self.accept_as_new(candidate, line_no)
        }
    }
}

/// The lines and entries a seed keeps.
pub open spec fn seed_items(s: Seq<(u64, NormalizedEntry)>) -> Seq<(u64, EntryView)> {
    s.map_values(|p: (u64, NormalizedEntry)| (p.0, p.1@))
}

/// The deduplicator after replaying kept entries in order: each is tracked,
/// and the unfinished tool calls among them stay open.
pub open spec fn seed_replay(d: DedupView, items: Seq<(u64, EntryView)>) -> DedupView
    decreases items.len(),
{
    if items.len() == 0 {
        d
    } else {
        let d1 = seed_replay(d, items.drop_last());
        let t = items.last();
        DedupView {
            recent: track_spec(d1.recent, t),
            active: if t.1.call_id is Some && !terminal_spec(t.1) { active_insert(d1.active, t.1.call_id->0, t) } else { d1.active },
            ..d1
        }
    }
}

impl Deduper {
    /// A deduplicator continuing an earlier read: its session, numbering
    /// and id counts, with the kept entries replayed.
    pub fn from_seed(seed: &ParseSeed) -> (r: Deduper)
        requires
            forall|i: int| 0 <= i < seed.recent@.len() ==> (#[trigger] seed.recent@[i]).1.wf(),
        ensures
            r.wf(),
            r.view() == seed_replay(
                DedupView {
                    session_id: seed.session.id@,
                    next_sequence: seed.next_sequence,
                    occurrences: occurrence_views(seed.occurrences@),
                    recent: Seq::empty(),
                    active: Seq::empty(),
                },
                seed_items(seed.recent@),
            ),
    {
        let mut occurrences: Vec<(String, u64)> = Vec::new();
        let mut k: usize = 0;
        while k < seed.occurrences.len()
            invariant
                k <= seed.occurrences@.len(),
                occurrences@.len() == k,
                forall|j: int| 0 <= j < k ==> (#[trigger] occurrences@[j]).0@ == seed.occurrences@[j].0@ && occurrences@[j].1
                    == seed.occurrences@[j].1,
            decreases seed.occurrences@.len() - k,
        {
            occurrences.push((seed.occurrences[k].0.clone(), seed.occurrences[k].1));
            k = k + 1;
        }
        assert(occurrence_views(occurrences@) =~= occurrence_views(seed.occurrences@));
        let mut d = Deduper {
            session_id: seed.session.id.clone(),
            next_sequence: seed.next_sequence,
            occurrences,
            recent: Vec::new(),
            active_tools: Vec::new(),
        };
        let ghost d0 = d.view();
        assert(d0.recent =~= Seq::<(u64, EntryView)>::empty());
        assert(d0.active =~= Seq::<(Seq<char>, (u64, EntryView))>::empty());
        let ghost items = seed_items(seed.recent@);
        let mut i: usize = 0;
        while i < seed.recent.len()
            invariant
                i <= seed.recent@.len(),
                items == seed_items(seed.recent@),
                d.wf(),
                forall|j: int| 0 <= j < seed.recent@.len() ==> (#[trigger] seed.recent@[j]).1.wf(),
                d.view() == seed_replay(d0, items.take(i as int)),
            decreases seed.recent@.len() - i,
        {
            let line_no = seed.recent[i].0;
            let entry = &seed.recent[i].1;
            proof {
                assert(items.take(i + 1).drop_last() =~= items.take(i as int));
                assert(items.take(i + 1).last() == (line_no, entry@));
            }
            d.push_recent(TrackedEntry { line_no, entry: entry.duplicate() });
            if let Some(call_id) = crate::rollout::entry::copy_opt(&entry.call_id) {
                if !is_terminal(entry) {
                    d.put_active(call_id, TrackedEntry { line_no, entry: entry.duplicate() });
                }
            }
            i = i + 1;
        }
        assert(items.take(seed.recent@.len() as int) =~= items);
        d
    }
}

/// Tracking an entry keeps it, last.
proof fn lemma_track_ends_with(recent: Seq<(u64, EntryView)>, t: (u64, EntryView))
    ensures
        track_spec(recent, t).len() > 0,
        track_spec(recent, t).last() == t,
{
    let removed = match first_index(recent, has_id(t.1.id)) {
        Some(i) => recent.remove(i),
        None => recent,
    };
    lemma_trim_front_keeps_last(removed.push(t), t.0, t.1.timestamp_micros);
}

proof fn lemma_trim_front_keeps_last(s: Seq<(u64, EntryView)>, line: u64, time: Option<i64>)
    requires
        s.len() > 0,
        s.last().0 == line,
    ensures
        trim_front(s, line, time).len() > 0,
        trim_front(s, line, time).last() == s.last(),
    decreases s.len(),
{
    if outside_window(line, time, s[0]) {
        assert(s.len() > 1);
        assert(s.drop_first().last() == s.last());
        lemma_trim_front_keeps_last(s.drop_first(), line, time);
    }
}

/// A merged entry keeps the id, sequence and session of the entry it merged into.
proof fn lemma_merge_keeps_identity(e: EntryView, c: EntryView)
    ensures
        merge_spec(e, c).id == e.id,
        merge_spec(e, c).sequence == e.sequence,
        merge_spec(e, c).session_id == e.session_id,
        c.metadata.dom().contains("sourceItemId"@) ==> merge_spec(e, c).metadata.dom().contains("sourceItemId"@)
            && merge_spec(e, c).metadata["sourceItemId"@] == c.metadata["sourceItemId"@],
{
    reveal_strlit("sourceItemId");
    reveal_strlit("attachmentCount");
    reveal_strlit("imageAttachmentCount");
    reveal_strlit("audioAttachmentCount");
    assert("sourceItemId"@.len() != "attachmentCount"@.len());
    assert("sourceItemId"@.len() != "imageAttachmentCount"@.len());
    assert("sourceItemId"@.len() != "audioAttachmentCount"@.len());
    assert(!attachment_key("sourceItemId"@));
}

/// Whatever path accepting takes, the entry it returns records the
/// candidate's item id.
proof fn lemma_accept_keeps_source(d: DedupView, c: EntryView, line: u64)
    ensures
        source_item_of(c) is Some ==> source_item_of(accept_spec(d, c, line).1) == source_item_of(c),
        accept_spec(d, c, line).0.recent.len() > 0,
        accept_spec(d, c, line).0.recent.last() == (line, accept_spec(d, c, line).1),
{
    reveal(accept_spec);
    let cv = normalized_candidate(c);
    let r = accept_spec(d, c, line);
    lemma_track_ends_with(d.recent, (line, r.1));
    if source_item_of(cv) is Some {
        let sid = source_item_of(cv)->0;
        lemma_last_index_found(d.recent, from_source(sid));
    }
    if cv.call_id is Some {
        lemma_first_index_found(d.recent, recent_call(cv.call_id->0, line));
    } else {
        lemma_last_index_found(d.recent, text_duplicate(cv, line));
    }
    let by_source = match source_item_of(cv) {
        Some(sid) => last_index(d.recent, from_source(sid)),
        None => None,
    };
    if by_source is Some {
        let i = by_source->0;
        lemma_merge_keeps_identity(d.recent[i].1, cv);
        lemma_track_ends_with(d.recent.remove(i), (line, r.1));
    } else if cv.call_id is Some {
        let cid = cv.call_id->0;
        match active_get(d.active, cid) {
            Some(old_t) => {
                lemma_merge_keeps_identity(old_t.1, cv);
            },
            None => match first_index(d.recent, recent_call(cid, line)) {
                Some(i) => {
                    lemma_merge_keeps_identity(d.recent[i].1, cv);
                    lemma_track_ends_with(d.recent.remove(i), (line, r.1));
                },
                None => {},
            },
        }
    } else {
        match last_index(d.recent, text_duplicate(cv, line)) {
            Some(i) => {
                lemma_merge_keeps_identity(d.recent[i].1, cv);
                lemma_track_ends_with(d.recent.remove(i), (line, r.1));
            },
            None => {},
        }
    }
}

/// Records of one item fold into one entry: right after an entry from an
/// item is accepted, another entry from the same item is merged into it and
/// keeps its id and sequence number.
pub proof fn law_same_item_folds_into_one_entry(d: DedupView, c1: EntryView, c2: EntryView, l1: u64, l2: u64)
    requires
        source_item_of(c1) is Some,
        source_item_of(c2) == source_item_of(c1),
    ensures
        accept_spec(accept_spec(d, c1, l1).0, c2, l2).1.id == accept_spec(d, c1, l1).1.id,
        accept_spec(accept_spec(d, c1, l1).0, c2, l2).1.sequence == accept_spec(d, c1, l1).1.sequence,
{
    let first = accept_spec(d, c1, l1);
    lemma_accept_keeps_source(d, c1, l1);
    let d1 = first.0;
    let sid = source_item_of(c1)->0;
    let cv = normalized_candidate(c2);
    assert(source_item_of(cv) == Some(sid));
    let k = d1.recent.len() - 1;
    assert(from_source(sid)(d1.recent[k]));
    lemma_last_index(d1.recent, from_source(sid), k);
    lemma_merge_keeps_identity(d1.recent[k].1, cv);
    reveal(accept_spec);
}

/// Nothing before the first match satisfies the predicate.
proof fn lemma_first_index_minimal<A>(s: Seq<A>, p: spec_fn(A) -> bool)
    ensures
        first_index(s, p) matches Some(i) ==> forall|j: int| 0 <= j < i ==> !p(#[trigger] s[j]),
        first_index(s, p) is None ==> forall|j: int| 0 <= j < s.len() ==> !p(#[trigger] s[j]),
    decreases s.len(),
{
    if s.len() > 0 && !p(s[0]) {
        let t = s.drop_first();
        lemma_first_index_minimal(t, p);
        lemma_first_index_found(t, p);
        match first_index(t, p) {
            Some(i) => {
                assert forall|j: int| 0 <= j < i + 1 implies !p(#[trigger] s[j]) by {
                    if j > 0 {
                        assert(s[j] == t[j - 1]);
                    }
                }
            },
            None => {
                assert forall|j: int| 0 <= j < s.len() implies !p(#[trigger] s[j]) by {
                    if j > 0 {
                        assert(s[j] == t[j - 1]);
                    }
                }
            },
        }
    }
}

/// Counting one more entry for a base raises its count by one, saturating.
proof fn lemma_occurrence_bump(o: Seq<(Seq<char>, u64)>, k: Seq<char>)
    ensures
        occurrence_of(occurrence_bump(o, k), k) == (if occurrence_of(o, k) == u64::MAX {
            u64::MAX
        } else {
            (occurrence_of(o, k) + 1) as u64
        }),
{
    let p = has_base(k);
    lemma_first_index_found(o, p);
    lemma_first_index_minimal(o, p);
    match first_index(o, p) {
        Some(i) => {
            let v: u64 = if o[i].1 == u64::MAX { u64::MAX } else { (o[i].1 + 1) as u64 };
            let t = o.update(i, (k, v));
            assert forall|j: int| 0 <= j < i implies !p(#[trigger] t[j]) by {
                assert(t[j] == o[j]);
            }
            assert(p(t[i]));
            lemma_first_index(t, p, i);
        },
        None => {
            let t = o.push((k, 1u64));
            assert forall|j: int| 0 <= j < o.len() implies !p(#[trigger] t[j]) by {
                assert(t[j] == o[j]);
            }
            assert(p(t[o.len() as int]));
            lemma_first_index(t, p, o.len() as int);
        },
    }
}

/// A new entry's id is drawn from its id base and the number of entries
/// that base already gave ids to, and that number then grows by one: so
/// repeated content is numbered apart.
pub proof fn law_new_entries_take_the_next_occurrence(d: DedupView, cv: EntryView, line: u64)
    ensures
        accept_new(d, cv, line).1.id == entry_id_spec(
            accept_new(d, cv, line).1.id_basis,
            occurrence_of(d.occurrences, accept_new(d, cv, line).1.id_basis),
        ),
        occurrence_of(accept_new(d, cv, line).0.occurrences, accept_new(d, cv, line).1.id_basis) == (if occurrence_of(
            d.occurrences,
            accept_new(d, cv, line).1.id_basis,
        ) == u64::MAX {
            u64::MAX
        } else {
            (occurrence_of(d.occurrences, accept_new(d, cv, line).1.id_basis) + 1) as u64
        }),
{
    lemma_occurrence_bump(d.occurrences, accept_new(d, cv, line).1.id_basis);
}

/// Merging keeps every raw record of both entries.
pub proof fn law_merge_keeps_raw_records(e: EntryView, c: EntryView)
    ensures
        forall|i: int| 0 <= i < e.raw_refs.len() ==> merge_spec(e, c).raw_refs.contains(#[trigger] e.raw_refs[i]),
        forall|i: int| 0 <= i < c.raw_refs.len() ==> merge_spec(e, c).raw_refs.contains(#[trigger] c.raw_refs[i]),
{
    lemma_union_refs_keeps(e.raw_refs, c.raw_refs);
}

proof fn lemma_union_refs_keeps(a: Seq<Seq<char>>, b: Seq<Seq<char>>)
    ensures
        forall|i: int| 0 <= i < a.len() ==> union_refs(a, b).contains(#[trigger] a[i]),
        forall|i: int| 0 <= i < b.len() ==> union_refs(a, b).contains(#[trigger] b[i]),
    decreases b.len(),
{
    if b.len() > 0 {
        lemma_union_refs_keeps(a, b.drop_last());
        let acc = union_refs(a, b.drop_last());
        assert forall|i: int| 0 <= i < a.len() implies union_refs(a, b).contains(#[trigger] a[i]) by {
            assert(acc.contains(a[i]));
            if !acc.contains(b.last()) {
                let j = choose|j: int| 0 <= j < acc.len() && acc[j] == a[i];
                assert(acc.push(b.last())[j] == a[i]);
            }
        }
        assert forall|i: int| 0 <= i < b.len() implies union_refs(a, b).contains(#[trigger] b[i]) by {
            if i < b.len() - 1 {
                assert(b.drop_last()[i] == b[i]);
                assert(acc.contains(b[i]));
                if !acc.contains(b.last()) {
                    let j = choose|j: int| 0 <= j < acc.len() && acc[j] == b[i];
                    assert(acc.push(b.last())[j] == b[i]);
                }
            } else if !acc.contains(b.last()) {
                assert(acc.push(b.last())[acc.len() as int] == b[i]);
            }
        }
    }
}

} // verus!
