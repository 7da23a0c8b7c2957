//! Search filters and literal match highlighting.

use vstd::prelude::*;

use crate::model::{EntryKind, MatchRange, SourceKind};
use crate::text::{str_chars, string_push, string_push_str};
use crate::rollout::content::{concat, grapheme_clusters, graphemes};

verus! {

/// Which sessions a listing or search includes by archive state.
#[derive(Clone, Copy, Debug, PartialEq, Eq, Structural)]
pub enum ArchiveFilter {
    Exclude,
    Only,
    Include,
}

/// What a search is restricted to.
#[derive(Clone, Debug)]
pub struct SearchFilters {
    pub session_id: Option<String>,
    pub sources: Vec<SourceKind>,
    pub kinds: Vec<EntryKind>,
    pub from_micros: Option<i64>,
    pub to_micros: Option<i64>,
    pub archived: ArchiveFilter,
    pub all_types: bool,
}

impl Default for SearchFilters {
    /// No restriction but leaving archived sessions out.
    fn default() -> (r: Self)
        ensures
            r.session_id is None,
            r.sources@.len() == 0,
            r.kinds@.len() == 0,
            r.from_micros is None,
            r.to_micros is None,
            r.archived == ArchiveFilter::Exclude,
            !r.all_types,
    {
        SearchFilters {
            session_id: None,
            sources: Vec::new(),
            kinds: Vec::new(),
            from_micros: None,
            to_micros: None,
            archived: ArchiveFilter::Exclude,
            all_types: false,
        }
    }
}

/// A search: the text to find, how many hits at most, and the filters.
#[derive(Clone, Debug)]
pub struct SearchRequest {
    pub query: String,
    pub limit: usize,
    pub filters: SearchFilters,
}

/// How a search runs: through the full-text index for queries of three
/// characters or more, else by scanning for the literal text.
#[derive(Clone, Copy, Debug, PartialEq, Eq, Structural)]
pub enum SearchMode {
    FullText,
    Short,
}

/// Why a search request is refused.
#[derive(Clone, Copy, Debug, PartialEq, Eq, Structural)]
pub enum SearchRequestError {
    EmptyQuery,
    QueryTooLong,
    LimitOutOfRange,
}

impl SearchRequestError {
    /// The message the refusal is reported with.
    pub fn message(&self) -> (r: &'static str)
        ensures
            r@ == search_error_text(*self),
    {
        match self {
            SearchRequestError::EmptyQuery => "search query must not be empty",
            SearchRequestError::QueryTooLong => "search query exceeds 512 Unicode scalars",
            SearchRequestError::LimitOutOfRange => "search limit must be between 1 and 200",
        }
    }
}

/// The message of each refusal.
pub open spec fn search_error_text(e: SearchRequestError) -> Seq<char> {
    match e {
        SearchRequestError::EmptyQuery => "search query must not be empty"@,
        SearchRequestError::QueryTooLong => "search query exceeds 512 Unicode scalars"@,
        SearchRequestError::LimitOutOfRange => "search limit must be between 1 and 200"@,
    }
}

/// Checks a search request and says how it runs: the query must hold one
/// to 512 characters and the limit be 1 to 200; queries of three
/// characters or more go through the full-text index.
pub fn search_mode(request: &SearchRequest) -> (r: Result<SearchMode, SearchRequestError>)
    ensures
        r == (if request.query@.len() == 0 {
            Err::<SearchMode, SearchRequestError>(SearchRequestError::EmptyQuery)
        } else if request.query@.len() > 512 {
            Err(SearchRequestError::QueryTooLong)
        } else if request.limit == 0 || request.limit > 200 {
            Err(SearchRequestError::LimitOutOfRange)
        } else if request.query@.len() >= 3 {
            Ok(SearchMode::FullText)
        } else {
            Ok(SearchMode::Short)
        }),
{
    let count = request.query.as_str().unicode_len();
    if count == 0 {
        Err(SearchRequestError::EmptyQuery)
    } else if count > 512 {
        Err(SearchRequestError::QueryTooLong)
    } else if request.limit == 0 || request.limit > 200 {
        Err(SearchRequestError::LimitOutOfRange)
    } else if count >= 3 {
        Ok(SearchMode::FullText)
    } else {
        Ok(SearchMode::Short)
    }
}

/// The characters `char::to_lowercase` gives for one character.
pub uninterp spec fn char_lowercase(c: char) -> Seq<char>;

/// Calls `char::to_lowercase` and collects the characters; claims they are
/// the named lowercase of the character.
#[verifier::external_body]
fn lowercase_chars(c: char) -> (r: Vec<char>)
    ensures
        r@ == char_lowercase(c),
{
    c.to_lowercase().collect()
}

/// Text lowercased character by character.
pub open spec fn lowered_of(s: Seq<char>) -> Seq<char>
    decreases s.len(),
{
    if s.len() == 0 {
        Seq::empty()
    } else {
        lowered_of(s.drop_last()) + char_lowercase(s.last())
    }
}

/// For each lowered character, the position of the character it came from.
pub open spec fn scalar_map_of(s: Seq<char>) -> Seq<usize>
    decreases s.len(),
{
    if s.len() == 0 {
        Seq::empty()
    } else {
        scalar_map_of(s.drop_last()) + Seq::new(char_lowercase(s.last()).len(), |j: int| (s.len() - 1) as usize)
    }
}

proof fn lemma_scalar_map(s: Seq<char>)
    requires
        s.len() <= usize::MAX,
    ensures
        scalar_map_of(s).len() == lowered_of(s).len(),
        forall|i: int| 0 <= i < scalar_map_of(s).len() ==> #[trigger] scalar_map_of(s)[i] < s.len(),
        forall|i: int, j: int| 0 <= i <= j < scalar_map_of(s).len() ==> #[trigger] scalar_map_of(s)[i] <= #[trigger] scalar_map_of(s)[j],
    decreases s.len(),
{
    if s.len() > 0 {
        lemma_scalar_map(s.drop_last());
        let p = scalar_map_of(s.drop_last());
        let t = Seq::new(char_lowercase(s.last()).len(), |j: int| (s.len() - 1) as usize);
        assert(scalar_map_of(s) == p + t);
        assert forall|i: int, j: int| 0 <= i <= j < scalar_map_of(s).len() implies #[trigger] scalar_map_of(s)[i] <= #[trigger] scalar_map_of(s)[j] by {
            if j < p.len() {
                assert((p + t)[i] == p[i]);
                assert((p + t)[j] == p[j]);
                assert(p[i] <= p[j]);
            } else if i < p.len() {
                assert((p + t)[i] == p[i]);
                assert((p + t)[j] == t[j - p.len()]);
                assert(p[i] < s.len() - 1);
            } else {
                assert((p + t)[i] == t[i - p.len()]);
                assert((p + t)[j] == t[j - p.len()]);
            }
        }
    }
}

/// Lowercases text and maps every lowered character to the position of the
/// character it came from.
pub fn lowercase_with_map(text: &str) -> (r: (Vec<char>, Vec<usize>))
    ensures
        r.0@ == lowered_of(text@),
        r.1@ == scalar_map_of(text@),
        text@.len() <= usize::MAX,
{
    let chars = str_chars(text);
    let mut lowered: Vec<char> = Vec::new();
    let mut scalar_map: Vec<usize> = Vec::new();
    let mut i: usize = 0;
    while i < chars.len()
        invariant
            i <= chars@.len(),
            chars@ == text@,
            lowered@ == lowered_of(text@.take(i as int)),
            scalar_map@ == scalar_map_of(text@.take(i as int)),
        decreases chars@.len() - i,
    {
        let lower = lowercase_chars(chars[i]);
        let ghost before_l = lowered@;
        let ghost before_m = scalar_map@;
        let mut k: usize = 0;
        while k < lower.len()
            invariant
                k <= lower@.len(),
                lowered@ == before_l + lower@.take(k as int),
                scalar_map@ == before_m + Seq::new(k as nat, |j: int| i),
            decreases lower@.len() - k,
        {
            lowered.push(lower[k]);
            scalar_map.push(i);
            proof {
                assert(lower@.take(k + 1) =~= lower@.take(k as int).push(lower@[k as int]));
                assert(Seq::new((k + 1) as nat, |j: int| i) =~= Seq::new(k as nat, |j: int| i).push(i));
            }
            k = k + 1;
        }
        proof {
            let t = text@.take(i + 1);
            assert(t.drop_last() =~= text@.take(i as int));
            assert(lower@.take(lower@.len() as int) =~= lower@);
            assert(lowered@ =~= lowered_of(t));
            assert(Seq::new(lower@.len(), |j: int| i) =~= Seq::new(char_lowercase(t.last()).len(), |j: int| (t.len() - 1) as usize));
            assert(scalar_map@ =~= scalar_map_of(t));
        }
        i = i + 1;
    }
    assert(text@.take(chars@.len() as int) =~= text@);
    (lowered, scalar_map)
}

/// Whether `query` occurs in `text` at position `i`.
pub open spec fn window_at(text: Seq<char>, query: Seq<char>, i: int) -> bool {
    0 <= i && i + query.len() <= text.len() && text.subrange(i, i + query.len()) == query
}

/// The scalar ranges of the matches starting before position `k`, in order.
pub open spec fn ranges_before(lowered: Seq<char>, map: Seq<usize>, query: Seq<char>, k: int) -> Seq<(usize, usize)>
    decreases k,
{
    if k <= 0 {
        Seq::empty()
    } else {
        let rest = ranges_before(lowered, map, query, k - 1);
        if window_at(lowered, query, k - 1) {
            rest.push((map[k - 1], (map[k - 1 + query.len() - 1] + 1) as usize))
        } else {
            rest
        }
    }
}

/// The ranges, in scalars of `text`, of the case-insensitive matches of
/// `query`, in order; none for an empty query.
pub open spec fn match_scalar_ranges_spec(text: Seq<char>, query: Seq<char>) -> Seq<(usize, usize)> {
    let lowered = lowered_of(text);
    let q = lowered_of(query);
    if q.len() == 0 || q.len() > lowered.len() {
        Seq::empty()
    } else {
        ranges_before(lowered, scalar_map_of(text), q, lowered.len() - q.len() + 1)
    }
}

fn window_matches(text: &Vec<char>, query: &Vec<char>, i: usize) -> (r: bool)
    requires
        i + query@.len() <= text@.len(),
    ensures
        r == window_at(text@, query@, i as int),
{
    let tl = text.len();
    let mut k: usize = 0;
    while k < query.len()
        invariant
            k <= query@.len(),
            tl == text@.len(),
            i + query@.len() <= text@.len(),
            forall|j: int| 0 <= j < k ==> text@[i + j] == query@[j],
        decreases query@.len() - k,
    {
        if text[i + k] != query[k] {
            assert(text@.subrange(i as int, i + query@.len())[k as int] != query@[k as int]);
            return false;
        }
        k = k + 1;
    }
    assert(text@.subrange(i as int, i + query@.len()) =~= query@);
    true
}

/// The ranges, in scalars of `text`, of the case-insensitive matches of `query`.
pub fn match_scalar_ranges(text: &str, query: &str) -> (r: Vec<(usize, usize)>)
    ensures
        r@ == match_scalar_ranges_spec(text@, query@),
{
    let (lowered, scalar_map) = lowercase_with_map(text);
    let (q, _) = lowercase_with_map(query);
    proof {
        lemma_scalar_map(text@);
    }
    if q.len() == 0 || q.len() > lowered.len() {
        return Vec::new();
    }
    let ll = lowered.len();
    let last = ll - q.len() + 1;
    let mut out: Vec<(usize, usize)> = Vec::new();
    let mut i: usize = 0;
    while i < last
        invariant
            i <= last,
            ll == lowered@.len(),
            last == lowered@.len() - q@.len() + 1,
            q@.len() > 0,
            q@.len() <= lowered@.len(),
            scalar_map@.len() == lowered@.len(),
            scalar_map@ == scalar_map_of(text@),
            forall|j: int| 0 <= j < scalar_map_of(text@).len() ==> #[trigger] scalar_map_of(text@)[j] < text@.len(),
            text@.len() <= usize::MAX,
            out@ == ranges_before(lowered@, scalar_map@, q@, i as int),
        decreases last - i,
    {
        if window_matches(&lowered, &q, i) {
            let start = scalar_map[i];
            let end = scalar_map[i + q.len() - 1] + 1;
            out.push((start, end));
        }
        i = i + 1;
    }
    out
}

/// Whether `query`, lowercased, occurs in `text`, lowercased; never for an
/// empty query.
pub fn contains_unicode_lowercase(text: &str, query: &str) -> (r: bool)
    ensures
        r == (lowered_of(query@).len() > 0 && exists|i: int| window_at(lowered_of(text@), lowered_of(query@), i)),
{
    let (lowered, _) = lowercase_with_map(text);
    let (q, _) = lowercase_with_map(query);
    if q.len() == 0 || q.len() > lowered.len() {
        proof {
            if q@.len() > 0 {
                assert forall|i: int| !window_at(lowered@, q@, i) by {}
            }
        }
        return false;
    }
    let last = lowered.len() - q.len() + 1;
    let mut i: usize = 0;
    while i < last
        invariant
            i <= last,
            last == lowered@.len() - q@.len() + 1,
            q@.len() <= lowered@.len(),
            q@.len() > 0,
            lowered@ == lowered_of(text@),
            q@ == lowered_of(query@),
            forall|j: int| 0 <= j < i ==> !window_at(lowered@, q@, j),
        decreases last - i,
    {
        if window_matches(&lowered, &q, i) {
            assert(window_at(lowered@, q@, i as int));
            return true;
        }
        i = i + 1;
    }
    false
}

/// The scalar position of the first case-insensitive match of `query`.
pub fn first_match_scalar(text: &str, query: &str) -> (r: Option<usize>)
    ensures
        match_scalar_ranges_spec(text@, query@).len() == 0 ==> r is None,
        match_scalar_ranges_spec(text@, query@).len() > 0 ==> r == Some(match_scalar_ranges_spec(text@, query@)[0].0),
{
    let ranges = match_scalar_ranges(text, query);
    if ranges.len() == 0 {
        None
    } else {
        Some(ranges[0].0)
    }
}

/// A scalar position as `u32`, saturating.
pub open spec fn clamp_u32(n: usize) -> u32 {
    if n > u32::MAX { u32::MAX } else { n as u32 }
}

/// The highlighted ranges of the case-insensitive matches of `query`.
pub fn match_ranges(text: &str, query: &str) -> (r: Vec<MatchRange>)
    ensures
        r@.len() == match_scalar_ranges_spec(text@, query@).len(),
        forall|i: int| 0 <= i < r@.len() ==> #[trigger] r@[i] == (MatchRange {
            start: clamp_u32(match_scalar_ranges_spec(text@, query@)[i].0),
            end: clamp_u32(match_scalar_ranges_spec(text@, query@)[i].1),
        }),
{
    let ranges = match_scalar_ranges(text, query);
    let mut out: Vec<MatchRange> = Vec::new();
    let mut i: usize = 0;
    while i < ranges.len()
        invariant
            i <= ranges@.len(),
            out@.len() == i,
            forall|j: int| 0 <= j < i ==> #[trigger] out@[j] == (MatchRange {
                start: clamp_u32(ranges@[j].0),
                end: clamp_u32(ranges@[j].1),
            }),
        decreases ranges@.len() - i,
    {
        let (s, e) = ranges[i];
        let start = if s > 4294967295 { u32::MAX } else { s as u32 };
        let end = if e > 4294967295 { u32::MAX } else { e as u32 };
        out.push(MatchRange { start, end });
        i = i + 1;
    }
    out
}

/// A search text as an FTS5 string literal: in double quotes, with every
/// double quote doubled.
pub open spec fn fts_literal_spec(query: Seq<char>) -> Seq<char> {
    seq!['"'] + quote_doubled(query) + seq!['"']
}

/// Text with every double quote doubled.
pub open spec fn quote_doubled(s: Seq<char>) -> Seq<char>
    decreases s.len(),
{
    if s.len() == 0 {
        Seq::empty()
    } else if s.last() == '"' {
        quote_doubled(s.drop_last()) + seq!['"', '"']
    } else {
        quote_doubled(s.drop_last()).push(s.last())
    }
}

/// A search text as an FTS5 string literal.
pub fn fts_literal(query: &str) -> (r: String)
    ensures
        r@ == fts_literal_spec(query@),
{
    let chars = str_chars(query);
    let mut out = String::new();
    string_push(&mut out, '"');
    let mut i: usize = 0;
    while i < chars.len()
        invariant
            i <= chars@.len(),
            chars@ == query@,
            out@ == seq!['"'] + quote_doubled(query@.take(i as int)),
        decreases chars@.len() - i,
    {
        let c = chars[i];
        if c == '"' {
            string_push(&mut out, '"');
            string_push(&mut out, '"');
        } else {
            string_push(&mut out, c);
        }
        proof {
            assert(query@.take(i + 1).drop_last() =~= query@.take(i as int));
        }
        i = i + 1;
    }
    assert(query@.take(chars@.len() as int) =~= query@);
    string_push(&mut out, '"');
    out
}

/// The index of the cluster holding scalar `pos`, searching from cluster `k`
/// whose first scalar is `offset`; 0 when no cluster holds it.
pub open spec fn cluster_holding(clusters: Seq<Seq<char>>, pos: int, k: int, offset: int) -> int
    decreases clusters.len() - k,
{
    if k >= clusters.len() || k < 0 {
        0
    } else if offset <= pos < offset + clusters[k].len() {
        k
    } else {
        cluster_holding(clusters, pos, k + 1, offset + clusters[k].len())
    }
}

/// The window of `max` clusters a snippet shows: a third of it before the
/// cluster holding the first match, kept inside the text.
pub open spec fn snippet_start(count: int, holding: int, max: int) -> int {
    let back = if holding >= max / 3 { holding - max / 3 } else { 0 };
    if back < count - max { back } else { count - max }
}

/// The snippet of a search hit: the whole text when it has at most `max`
/// grapheme clusters, else `max` clusters around the first match; with the
/// ranges of the matches inside it.
pub open spec fn snippet_text_spec(text: Seq<char>, query: Seq<char>, max: int) -> Seq<char> {
    let g = grapheme_clusters(text);
    if g.len() <= max {
        text
    } else {
        let ranges = match_scalar_ranges_spec(text, query);
        let first = if ranges.len() > 0 { ranges[0].0 as int } else { 0 };
        let start = snippet_start(g.len() as int, cluster_holding(g, first, 0, 0), max);
        concat(g.subrange(start, start + max))
    }
}

proof fn lemma_cluster_holding_in_range(clusters: Seq<Seq<char>>, pos: int, k: int, offset: int)
    requires
        clusters.len() > 0,
    ensures
        0 <= cluster_holding(clusters, pos, k, offset) < clusters.len(),
    decreases clusters.len() - k,
{
    if 0 <= k < clusters.len() && !(offset <= pos < offset + clusters[k].len()) {
        lemma_cluster_holding_in_range(clusters, pos, k + 1, offset + clusters[k].len());
    }
}

/// When the text is longer than the snippet and the query occurs in it, the
/// snippet is `max` consecutive grapheme clusters of the text, and among them
/// is the cluster holding the first character of the first match: a third of
/// `max` clusters into the snippet, or fewer when the match is that close to
/// the start of the text, or more when the snippet ends with the text.
pub proof fn law_snippet_holds_first_match(text: Seq<char>, query: Seq<char>, max: int)
    requires
        max > 0,
        grapheme_clusters(text).len() > max,
        match_scalar_ranges_spec(text, query).len() > 0,
    ensures
        ({
            let g = grapheme_clusters(text);
            let h = cluster_holding(g, match_scalar_ranges_spec(text, query)[0].0 as int, 0, 0);
            exists|start: int| #![trigger g.subrange(start, start + max)]
                0 <= start && start + max <= g.len() && start <= h < start + max
                && ((start == 0 && h <= max / 3) || h - start == max / 3 || (start + max == g.len() && h - start >= max / 3))
                && snippet_text_spec(text, query, max) == concat(g.subrange(start, start + max))
        }),
{
    let g = grapheme_clusters(text);
    let first = match_scalar_ranges_spec(text, query)[0].0 as int;
    let h = cluster_holding(g, first, 0, 0);
    lemma_cluster_holding_in_range(g, first, 0, 0);
    let start = snippet_start(g.len() as int, h, max);
    assert(0 <= start && start + max <= g.len() && start <= h < start + max);
    assert(snippet_text_spec(text, query, max) == concat(g.subrange(start, start + max)));
}

/// Putting pieces back together distributes over joining lists of pieces.
proof fn lemma_concat_append(a: Seq<Seq<char>>, b: Seq<Seq<char>>)
    ensures
        concat(a + b) == concat(a) + concat(b),
    decreases b.len(),
{
    if b.len() == 0 {
        assert(a + b =~= a);
        assert(concat(a) + concat(b) =~= concat(a));
    } else {
        lemma_concat_append(a, b.drop_last());
        assert((a + b).drop_last() =~= a + b.drop_last());
        assert((a + b).last() == b.last());
        assert(concat(a) + concat(b) =~= concat(a) + concat(b.drop_last()) + b.last());
    }
}

/// The first `i` pieces put together are no longer than the first `j`.
proof fn lemma_concat_take_mono(g: Seq<Seq<char>>, i: int, j: int)
    requires
        0 <= i <= j <= g.len(),
    ensures
        concat(g.take(i)).len() <= concat(g.take(j)).len(),
{
    lemma_concat_append(g.take(i), g.subrange(i, j));
    assert(g.take(j) =~= g.take(i) + g.subrange(i, j));
}

/// Text lowercased in two parts is the parts lowercased one after the other;
/// the lowered characters of the first part come from it, the others from
/// the second.
proof fn lemma_lower_split(p: Seq<char>, s: Seq<char>)
    requires
        (p + s).len() <= usize::MAX,
    ensures
        lowered_of(p + s) == lowered_of(p) + lowered_of(s),
        scalar_map_of(p + s).len() == lowered_of(p + s).len(),
        forall|i: int| 0 <= i < lowered_of(p).len() ==> (#[trigger] scalar_map_of(p + s)[i]) < p.len(),
        forall|i: int| lowered_of(p).len() <= i < scalar_map_of(p + s).len() ==> (#[trigger] scalar_map_of(p + s)[i]) >= p.len(),
    decreases s.len(),
{
    lemma_scalar_map(p + s);
    if s.len() == 0 {
        assert(p + s =~= p);
        assert(lowered_of(p) + lowered_of(s) =~= lowered_of(p));
    } else {
        let s1 = s.drop_last();
        lemma_lower_split(p, s1);
        assert((p + s).drop_last() =~= p + s1);
        assert((p + s).last() == s.last());
        assert(lowered_of(p) + lowered_of(s) =~= lowered_of(p) + lowered_of(s1) + char_lowercase(s.last()));
        let m1 = scalar_map_of(p + s1);
        let t = Seq::new(char_lowercase(s.last()).len(), |j: int| ((p + s).len() - 1) as usize);
        assert(scalar_map_of(p + s) == m1 + t);
        assert forall|i: int| 0 <= i < lowered_of(p).len() implies (#[trigger] scalar_map_of(p + s)[i]) < p.len() by {
            assert((m1 + t)[i] == m1[i]);
        }
        assert forall|i: int| lowered_of(p).len() <= i < scalar_map_of(p + s).len() implies (#[trigger] scalar_map_of(p + s)[i]) >= p.len() by {
            if i < m1.len() {
                assert((m1 + t)[i] == m1[i]);
            } else {
                assert((m1 + t)[i] == t[i - m1.len()]);
            }
        }
    }
}

/// The first range found before position `k` comes from a match at some
/// position before `k`.
proof fn lemma_first_range(lowered: Seq<char>, map: Seq<usize>, query: Seq<char>, k: int) -> (w: int)
    requires
        ranges_before(lowered, map, query, k).len() > 0,
    ensures
        0 <= w < k,
        window_at(lowered, query, w),
        ranges_before(lowered, map, query, k)[0] == (map[w], (map[w + query.len() - 1] + 1) as usize),
    decreases k,
{
    let rest = ranges_before(lowered, map, query, k - 1);
    if rest.len() > 0 {
        let w = lemma_first_range(lowered, map, query, k - 1);
        if window_at(lowered, query, k - 1) {
            assert(rest.push((map[k - 1], (map[k - 1 + query.len() - 1] + 1) as usize))[0] == rest[0]);
        }
        w
    } else {
        k - 1
    }
}

/// A match at a position before `k` gives a range.
proof fn lemma_window_gives_range(lowered: Seq<char>, map: Seq<usize>, query: Seq<char>, k: int, w: int)
    requires
        0 <= w < k,
        window_at(lowered, query, w),
    ensures
        ranges_before(lowered, map, query, k).len() > 0,
    decreases k,
{
    if w < k - 1 {
        lemma_window_gives_range(lowered, map, query, k - 1, w);
    }
}

/// The cluster holding a position of the text has that position among its
/// characters.
proof fn lemma_cluster_holding_bounds(g: Seq<Seq<char>>, pos: int, k: int, offset: int)
    requires
        0 <= k <= g.len(),
        offset == concat(g.take(k)).len(),
        offset <= pos < concat(g).len(),
    ensures
        k <= cluster_holding(g, pos, k, offset) < g.len(),
        concat(g.take(cluster_holding(g, pos, k, offset))).len() <= pos < concat(g.take(cluster_holding(g, pos, k, offset) + 1)).len(),
    decreases g.len() - k,
{
    if k == g.len() {
        assert(g.take(k) =~= g);
    } else {
        assert(g.take(k + 1).drop_last() =~= g.take(k));
        assert(g.take(k + 1).last() == g[k]);
        if !(offset <= pos < offset + g[k].len()) {
            lemma_cluster_holding_bounds(g, pos, k + 1, offset + g[k].len());
        }
    }
}

/// When the text is longer than the snippet and its first match of the query
/// ends fewer than two thirds of `max` clusters after the cluster where it
/// starts, the snippet shows that match: its ranges are not empty.
pub proof fn law_snippet_highlights_first_match(text: Seq<char>, query: Seq<char>, max: int)
    requires
        max > 0,
        text.len() <= usize::MAX,
        concat(grapheme_clusters(text)) == text,
        grapheme_clusters(text).len() > max,
        match_scalar_ranges_spec(text, query).len() > 0,
        ({
            let g = grapheme_clusters(text);
            let first = match_scalar_ranges_spec(text, query)[0];
            cluster_holding(g, first.1 - 1, 0, 0) - cluster_holding(g, first.0 as int, 0, 0) < max - max / 3
        }),
    ensures
        match_scalar_ranges_spec(snippet_text_spec(text, query, max), query).len() > 0,
{
    let g = grapheme_clusters(text);
    let lt = lowered_of(text);
    let q = lowered_of(query);
    let mt = scalar_map_of(text);
    lemma_scalar_map(text);
    let kk = lemma_first_range(lt, mt, q, lt.len() - q.len() + 1);
    let a = mt[kk] as int;
    let b1 = mt[kk + q.len() - 1] as int;
    assert(match_scalar_ranges_spec(text, query)[0] == (mt[kk], (mt[kk + q.len() - 1] + 1) as usize));
    assert(g.take(0) =~= Seq::<Seq<char>>::empty());
    lemma_cluster_holding_bounds(g, a, 0, 0);
    lemma_cluster_holding_bounds(g, b1, 0, 0);
    let h = cluster_holding(g, a, 0, 0);
    let hb = cluster_holding(g, b1, 0, 0);
    let start = snippet_start(g.len() as int, h, max);
    assert(start <= h && hb + 1 <= start + max);
    let w = concat(g.subrange(start, start + max));
    assert(snippet_text_spec(text, query, max) == w);
    let pre = concat(g.take(start));
    let post = concat(g.skip(start + max));
    lemma_concat_append(g.take(start), g.subrange(start, start + max));
    lemma_concat_append(g.take(start + max), g.skip(start + max));
    assert(g.take(start + max) =~= g.take(start) + g.subrange(start, start + max));
    assert(g =~= g.take(start + max) + g.skip(start + max));
    assert(text =~= pre + w + post);
    lemma_concat_take_mono(g, start, h);
    lemma_concat_take_mono(g, hb + 1, start + max);
    assert(pre.len() <= a);
    assert(b1 < pre.len() + w.len());
    assert(pre + (w + post) =~= text);
    assert((pre + w) + post =~= text);
    lemma_lower_split(pre, w + post);
    lemma_lower_split(pre + w, post);
    lemma_lower_split(w, post);
    lemma_lower_split(pre, w);
    let l1 = lowered_of(pre).len() as int;
    let lw = lowered_of(w);
    assert(kk >= l1);
    assert(kk + q.len() - 1 < l1 + lw.len());
    assert(lt =~= lowered_of(pre) + lw + lowered_of(post));
    assert forall|j: int| 0 <= j < q.len() implies lw[kk - l1 + j] == q[j] by {
        assert(lt.subrange(kk, kk + q.len())[j] == q[j]);
        assert(lt[kk + j] == lw[kk - l1 + j]);
    }
    assert(lw.subrange(kk - l1, kk - l1 + q.len()) =~= q);
    lemma_window_gives_range(lw, scalar_map_of(w), q, lw.len() - q.len() + 1, kk - l1);
}

/// The snippet of a search hit and the ranges of the matches inside it.
pub fn snippet(text: &str, query: &str, max_graphemes: usize) -> (r: (String, Vec<MatchRange>))
    ensures
        r.0@ == snippet_text_spec(text@, query@, max_graphemes as int),
        r.1@.len() == match_scalar_ranges_spec(r.0@, query@).len(),
        forall|i: int| 0 <= i < r.1@.len() ==> #[trigger] r.1@[i] == (MatchRange {
            start: clamp_u32(match_scalar_ranges_spec(r.0@, query@)[i].0),
            end: clamp_u32(match_scalar_ranges_spec(r.0@, query@)[i].1),
        }),
{
    let clusters = graphemes(text);
    let ghost g = clusters@.map_values(|p: &str| p@);
    if clusters.len() <= max_graphemes {
        let whole = text.to_string();
        let ranges = match_ranges(text, query);
        return (whole, ranges);
    }
    let first = match first_match_scalar(text, query) {
        Some(f) => f,
        None => 0,
    };
    let mut cursor: usize = 0;
    let mut holding: usize = 0;
    let mut k: usize = 0;
    let mut found = false;
    while k < clusters.len() && !found
        invariant
            k <= clusters@.len(),
            g == clusters@.map_values(|p: &str| p@),
            !found ==> cursor <= first && cluster_holding(g, first as int, 0, 0) == cluster_holding(g, first as int, k as int, cursor as int),
            found ==> holding == cluster_holding(g, first as int, 0, 0) && holding < clusters@.len(),
        decreases clusters@.len() - k + (if found { 0int } else { 1int }),
    {
        let chars = str_chars(clusters[k]);
        let n = chars.len();
        assert(g[k as int] == clusters@[k as int]@);
        if first - cursor < n {
            holding = k;
            found = true;
        } else {
            cursor = cursor + n;
            k = k + 1;
        }
    }
    if !found {
        holding = 0;
    }
    let count = clusters.len();
    let third = max_graphemes / 3;
    let back = if holding >= third { holding - third } else { 0 };
    let start = if back < count - max_graphemes { back } else { count - max_graphemes };
    let mut piece = String::new();
    let mut t: usize = start;
    let stop = start + max_graphemes;
    while t < stop
        invariant
            stop == start + max_graphemes,
            start <= t <= start + max_graphemes,
            start + max_graphemes <= clusters@.len(),
            g == clusters@.map_values(|p: &str| p@),
            piece@ == concat(g.subrange(start as int, t as int)),
        decreases stop - t,
    {
        string_push_str(&mut piece, clusters[t]);
        proof {
            assert(g.subrange(start as int, t + 1).drop_last() =~= g.subrange(start as int, t as int));
            assert(g[t as int] == clusters@[t as int]@);
        }
        t = t + 1;
    }
    let ranges = match_ranges(piece.as_str(), query);
    (piece, ranges)
}

} // verus!
