//! How a page of fetched rows is cut, ordered and kept within the size the
//! API sends.

use vstd::prelude::*;

verus! {

/// The largest JSON page the API sends, in bytes.
pub const MAX_JSON_PAGE_BYTES: usize = 4194304;

/// `a`, saturating at `usize::MAX`.
pub open spec fn sat_usize(a: int) -> int {
    if a > usize::MAX { usize::MAX as int } else { a }
}

/// The bytes of a JSON array holding the first `k` items, whose encodings
/// take `item_bytes`: brackets, items and the commas between them,
/// saturating at `usize::MAX`.
pub open spec fn page_used(item_bytes: Seq<usize>, k: int) -> int
    decreases k,
{
    if k <= 0 {
        2
    } else {
        sat_usize(page_used(item_bytes, k - 1) + (if k > 1 { 1int } else { 0int }) + item_bytes[k - 1])
    }
}

/// Whether the array of the first `j + 1` items stays within the page size.
pub open spec fn fits_at(item_bytes: Seq<usize>, j: int) -> bool {
    page_used(item_bytes, j + 1) <= MAX_JSON_PAGE_BYTES
}

/// How many items, taken in order, go on a page: the first always, and each
/// next one while the array stays within `MAX_JSON_PAGE_BYTES`.
pub fn page_length(item_bytes: &Vec<usize>) -> (r: usize)
    ensures
        r <= item_bytes@.len(),
        item_bytes@.len() > 0 ==> r >= 1,
        forall|j: int| 1 <= j < r ==> #[trigger] fits_at(item_bytes@, j),
        r < item_bytes@.len() ==> r >= 1 && !fits_at(item_bytes@, r as int),
{
    let mut used: usize = 2;
    let mut k: usize = 0;
    while k < item_bytes.len()
        invariant
            k <= item_bytes@.len(),
            used == page_used(item_bytes@, k as int),
            forall|j: int| 1 <= j < k ==> #[trigger] fits_at(item_bytes@, j),
        decreases item_bytes@.len() - k,
    {
        let comma: usize = if k > 0 { 1 } else { 0 };
        let candidate = used.saturating_add(comma).saturating_add(item_bytes[k]);
        assert(candidate == page_used(item_bytes@, k + 1));
        if k > 0 && candidate > MAX_JSON_PAGE_BYTES {
            return k;
        }
        k = k + 1;
        used = candidate;
    }
    k
}

/// The rows of a page in reading order: at most `limit` of those fetched,
/// reversed when the page was fetched backward.
pub open spec fn page_rows_spec<T>(rows: Seq<T>, limit: usize, backward: bool) -> Seq<T> {
    let kept = if rows.len() > limit { rows.take(limit as int) } else { rows };
    if backward { kept.reverse() } else { kept }
}

/// Cuts the fetched rows to `limit` and puts them in reading order.
pub fn page_rows<T>(rows: Vec<T>, limit: usize, backward: bool) -> (r: Vec<T>)
    ensures
        r@ == page_rows_spec(rows@, limit, backward),
{
    let mut kept = rows;
    kept.truncate(limit);
    if !backward {
        return kept;
    }
    let ghost full = kept@;
    let mut reversed: Vec<T> = Vec::new();
    while kept.len() > 0
        invariant
            kept@.len() + reversed@.len() == full.len(),
            forall|i: int| 0 <= i < kept@.len() ==> #[trigger] kept@[i] == full[i],
            forall|i: int| 0 <= i < reversed@.len() ==> #[trigger] reversed@[i] == full[full.len() - 1 - i],
        decreases kept@.len(),
    {
        let last = kept.pop().unwrap();
        reversed.push(last);
    }
    assert(reversed@ =~= full.reverse());
    reversed
}

} // verus!
