//! The checks an entries request passes and the keyset bound its page is
//! read from.

use vstd::prelude::*;

use crate::api::entries::EntriesQuery;
use crate::api::query::{bounded_limit, valid_id_spec, validate_id};
use crate::failure::ApiFailure;
use crate::text::str_eq;

verus! {

/// The page size an entries request names, 100 when it names none.
pub open spec fn entries_limit(query: EntriesQuery) -> usize {
    match query.limit {
        Some(n) => n,
        None => 100,
    }
}

/// Whether an entries request names a direction it may: none, `forward`
/// or `backward`.
pub open spec fn direction_ok(query: EntriesQuery) -> bool {
    match query.direction {
        Some(d) => d@ == "forward"@ || d@ == "backward"@,
        None => true,
    }
}

/// Checks an entries request: a valid session id, not both a cursor and an
/// entry to center on, a page size of 1 to 500, and a known direction.
/// Gives the page size and whether the request reads backward.
pub fn entries_request(session_id: &str, query: &EntriesQuery) -> (r: Result<(usize, bool), ApiFailure>)
    ensures
        r is Ok <==> (valid_id_spec(session_id@) && !(query.cursor is Some && query.around_entry_id is Some)
            && 1 <= entries_limit(*query) <= 500 && direction_ok(*query)),
        r matches Ok(p) ==> p.0 == entries_limit(*query) && p.1 == (query.direction matches Some(d) && d@ == "backward"@),
        r matches Err(e) ==> e.is_invalid(),
        valid_id_spec(session_id@) && query.cursor is Some && query.around_entry_id is Some ==> (r matches Err(e)
            && e.message@ == "aroundEntryId and cursor are mutually exclusive"@),
        valid_id_spec(session_id@) && !(query.cursor is Some && query.around_entry_id is Some) && 1 <= entries_limit(*query) <= 500
            && !direction_ok(*query) ==> (r matches Err(e) && e.message@ == "direction must be forward or backward"@),
{
    validate_id(session_id)?;
    if query.cursor.is_some() && query.around_entry_id.is_some() {
        return Err(ApiFailure::invalid_str("aroundEntryId and cursor are mutually exclusive"));
    }
    let limit = bounded_limit(query.limit, 100, 500)?;
    let backward = match &query.direction {
        None => false,
        Some(d) => {
            if str_eq(d.as_str(), "backward") {
                true
            } else if str_eq(d.as_str(), "forward") {
                false
            } else {
                return Err(ApiFailure::invalid_str("direction must be forward or backward"));
            }
        },
    };
    Ok((limit, backward))
}

/// Where an entries page starts: at or after a sequence, strictly before
/// or strictly after a position, or from the start.
#[derive(Debug, PartialEq, Eq)]
pub enum KeysetBound {
    AtLeast(i64),
    Before(i64, String),
    After(i64, String),
    Start,
}

/// The half of the page size as a sequence offset: 0 when it does not fit
/// in an `i64`.
pub open spec fn half_page(limit: usize) -> i64 {
    if limit / 2 <= i64::MAX { (limit / 2) as i64 } else { 0 }
}

/// `a - b`, saturating.
pub open spec fn sat_sub_i64(a: i64, b: i64) -> i64 {
    if a - b < i64::MIN { i64::MIN } else if a - b > i64::MAX { i64::MAX } else { (a - b) as i64 }
}

/// Where an entries page starts and whether it is read backward: an entry
/// to center on starts the page half a page before its sequence; else a
/// cursor starts it strictly before its position when reading backward
/// (asked for, or a `previous` cursor) and strictly after it otherwise;
/// else the page starts at the beginning.
pub fn keyset_bound(anchor: Option<i64>, decoded: Option<(i64, String, String)>, backward: bool, limit: usize) -> (r: (KeysetBound, bool))
    ensures
        r.1 == (backward || (decoded matches Some(c) && c.2@ == "previous"@)),
        r.0 == match anchor {
            Some(a) => KeysetBound::AtLeast(sat_sub_i64(a, half_page(limit))),
            None => match decoded {
                Some(c) => if r.1 { KeysetBound::Before(c.0, c.1) } else { KeysetBound::After(c.0, c.1) },
                None => KeysetBound::Start,
            },
        },
{
    let reverse = backward || match &decoded {
        Some(c) => str_eq(c.2.as_str(), "previous"),
        None => false,
    };
    let half: usize = limit / 2;
    let wide: u64 = half as u64;
    let offset: i64 = if wide <= 9223372036854775807u64 { wide as i64 } else { 0 };
    let bound = match anchor {
        Some(a) => KeysetBound::AtLeast(if a < i64::MIN + offset { i64::MIN } else { a - offset }),
        None => match decoded {
            Some(c) => if reverse { KeysetBound::Before(c.0, c.1) } else { KeysetBound::After(c.0, c.1) },
            None => KeysetBound::Start,
        },
    };
    (bound, reverse)
}

} // verus!
