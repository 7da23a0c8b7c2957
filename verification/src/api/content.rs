//! Bounded, character-aligned windows of stored entry text.

use vstd::prelude::*;
use vstd::utf8::*;
use vstd::string::StringSliceAdditionalSpecFns;

use crate::failure::ApiFailure;
use crate::text::string_from_utf8;
use crate::model::{ContentChunk, ContentField};

verus! {

broadcast use {is_char_boundary_start_end_of_seq, encode_utf8_valid_utf8};

/// The largest character boundary of `b` that is at most `i`.
pub open spec fn floor_boundary(b: Seq<u8>, i: int) -> int
    decreases i,
{
    if i <= 0 {
        0
    } else if is_char_boundary(b, i) {
        i
    } else {
        floor_boundary(b, i - 1)
    }
}

/// The smallest character boundary of `b` that is at least `i`, or the end.
pub open spec fn ceil_boundary(b: Seq<u8>, i: int) -> int
    decreases b.len() - i,
{
    if i >= b.len() {
        b.len() as int
    } else if is_char_boundary(b, i) {
        i
    } else {
        ceil_boundary(b, i + 1)
    }
}

proof fn lemma_floor_boundary(b: Seq<u8>, i: int)
    requires
        valid_utf8(b),
        0 <= i <= b.len(),
    ensures
        0 <= floor_boundary(b, i) <= i,
        is_char_boundary(b, floor_boundary(b, i)),
    decreases i,
{
    if i > 0 && !is_char_boundary(b, i) {
        lemma_floor_boundary(b, i - 1);
    }
}

/// The longest prefix of `value` that is at most `max` bytes and ends on a
/// character boundary.
pub fn utf8_prefix(value: &str, max: usize) -> (r: String)
    ensures
        encode_utf8(r@) == encode_utf8(value@).subrange(
            0,
            if encode_utf8(value@).len() <= max {
                encode_utf8(value@).len() as int
            } else {
                floor_boundary(encode_utf8(value@), max as int)
            },
        ),
{
    let ghost b = encode_utf8(value@);
    let bytes = value.as_bytes();
    if bytes.len() <= max {
        assert(b.subrange(0, b.len() as int) =~= b);
        return value.to_owned();
    }
    let mut end = max;
    while !value.is_char_boundary(end)
        invariant
            end <= max,
            max < b.len(),
            b == encode_utf8(value@),
            floor_boundary(b, end as int) == floor_boundary(b, max as int),
        decreases end,
    {
        end = end - 1;
    }
    let (head, _tail) = value.split_at(end);
    head.to_owned()
}

/// A window of `text` starting near byte `requested_offset`, at most `limit`
/// bytes long, with both ends moved onto character boundaries.
pub open spec fn chunk_bounds(b: Seq<u8>, requested_offset: int, limit: int) -> (int, int) {
    let start = ceil_boundary(b, if requested_offset < b.len() { requested_offset } else { b.len() as int });
    let raw_end = if start + limit < b.len() { start + limit } else { b.len() as int };
    let end = if floor_boundary(b, raw_end) > start { floor_boundary(b, raw_end) } else { start };
    (start, end)
}

/// Cuts a bounded, character-aligned chunk of `text` for the content endpoint.
pub fn text_chunk(field: ContentField, text: &str, requested_offset: u64, limit: usize) -> (r: Result<ContentChunk, ApiFailure>)
    ensures
        r is Err <==> requested_offset > usize::MAX,
        r matches Err(e) ==> e.is_invalid(),
        r matches Ok(c) ==> ({
            let b = encode_utf8(text@);
            let (start, end) = chunk_bounds(b, requested_offset as int, limit as int);
            &&& c.field == field
            &&& encode_utf8(c.text@) == b.subrange(start, end)
            &&& c.byte_offset == start
            &&& c.next_offset == (if end < b.len() { Some(end as u64) } else { None })
            &&& c.total_bytes == b.len()
            &&& c.complete == (start == 0 && end == b.len())
        }),
{
    let ghost b = encode_utf8(text@);
    let total = text.as_bytes().len();
    if requested_offset > usize::MAX as u64 {
        return Err(ApiFailure::invalid_str("offset is too large"));
    }
    let offset = requested_offset as usize;
    let mut start = if offset < total { offset } else { total };
    while start < total && !text.is_char_boundary(start)
        invariant
            start <= total,
            total == b.len(),
            b == encode_utf8(text@),
            ceil_boundary(b, start as int) == ceil_boundary(b, if requested_offset < b.len() { requested_offset as int } else { b.len() as int }),
        decreases total - start,
    {
        start = start + 1;
    }
    assert(start == ceil_boundary(b, start as int));
    let raw_end = if limit < total - start { start + limit } else { total };
    let mut end = raw_end;
    while end > start && !text.is_char_boundary(end)
        invariant
            start <= end <= raw_end <= total,
            total == b.len(),
            b == encode_utf8(text@),
            is_char_boundary(b, start as int),
            end == raw_end || floor_boundary(b, end as int) == floor_boundary(b, raw_end as int),
            forall|j: int| end < j <= raw_end ==> !is_char_boundary(b, j),
        decreases end,
    {
        end = end - 1;
    }
    proof {
        lemma_floor_boundary(b, raw_end as int);
        lemma_floor_is_last(b, raw_end as int, end as int, start as int);
    }
    let (_before, from_start) = text.split_at(start);
    proof {
        assert(valid_utf8(b.subrange(start as int, b.len() as int)));
        lemma_boundary_shift(b, start as int, end as int);
    }
    let (window, _after) = from_start.split_at(end - start);
    proof {
        assert(b.subrange(start as int, b.len() as int).subrange(0, end - start) =~= b.subrange(start as int, end as int));
    }
    Ok(ContentChunk {
        field,
        text: window.to_owned(),
        byte_offset: start as u64,
        next_offset: if end < total { Some(end as u64) } else { None },
        total_bytes: total as u64,
        complete: start == 0 && end == total,
    })
}

proof fn lemma_floor_is_last(b: Seq<u8>, raw_end: int, end: int, start: int)
    requires
        valid_utf8(b),
        0 <= start <= end <= raw_end <= b.len(),
        is_char_boundary(b, start),
        end == start || is_char_boundary(b, end),
        forall|j: int| end < j <= raw_end ==> !is_char_boundary(b, j),
    ensures
        end == (if floor_boundary(b, raw_end) > start { floor_boundary(b, raw_end) } else { start }),
    decreases raw_end - end,
{
    if raw_end > end {
        assert(!is_char_boundary(b, raw_end));
        lemma_floor_is_last(b, raw_end - 1, end, start);
    }
}

proof fn lemma_boundary_shift(b: Seq<u8>, start: int, end: int)
    requires
        valid_utf8(b),
        0 <= start <= end <= b.len(),
        is_char_boundary(b, start),
        is_char_boundary(b, end),
    ensures
        is_char_boundary(b.subrange(start, b.len() as int), end - start),
{
    valid_utf8_split(b, start);
    let s2 = b.subrange(start, b.len() as int);
    if end == b.len() {
        is_char_boundary_start_end_of_seq(s2);
    } else if end > start {
        is_char_boundary_iff_not_is_continuation_byte(b, end);
        is_char_boundary_iff_not_is_continuation_byte(s2, end - start);
    }
}


/// Whether a byte continues a UTF-8 character rather than starting one.
pub open spec fn continuation(b: u8) -> bool {
    b & 0xC0u8 == 0x80u8
}

/// Where a raw record's bytes are read from and to for a chunk: from the
/// requested offset, clamped to the record, through `limit` bytes and four
/// more (enough to finish a character), clamped to the record too.
pub fn raw_retain_window(requested_offset: u64, byte_length: u64, limit: usize) -> (r: (u64, u64))
    ensures
        r.0 == (if requested_offset < byte_length { requested_offset } else { byte_length }),
        r.1 == (if r.0 + limit + 4 < byte_length { (r.0 + limit + 4) as u64 } else { byte_length }),
{
    let requested = if requested_offset < byte_length { requested_offset } else { byte_length };
    let limit64 = limit as u64;
    let end = requested.saturating_add(limit64).saturating_add(4);
    let retain_end = if end < byte_length { end } else { byte_length };
    (requested, retain_end)
}

/// The position of the first byte of `bytes` that starts a character, or
/// the length when none does.
pub open spec fn first_start(bytes: Seq<u8>, from: int) -> int
    decreases bytes.len() - from,
{
    if from >= bytes.len() {
        bytes.len() as int
    } else if !continuation(bytes[from]) {
        from
    } else {
        first_start(bytes, from + 1)
    }
}

/// Where a chunk of kept bytes ends: from `end`, moved back while the byte
/// there continues a character, the chunk would stay non-empty, and the
/// record goes on (`total` bytes kept from the requested offset to the end
/// of the record).
pub open spec fn chunk_end_back(bytes: Seq<u8>, start: int, end: int, total: int) -> int
    decreases end,
{
    if end > 0 && end > start && end < total && end < bytes.len() && continuation(bytes[end]) {
        chunk_end_back(bytes, start, end - 1, total)
    } else {
        end
    }
}

/// The bounds of a raw chunk within the bytes kept from `requested`: the
/// first character start, and the end `limit` bytes further (clamped to
/// the record) moved back off a continuing byte.
pub open spec fn raw_chunk_bounds(retained: Seq<u8>, requested: int, byte_length: int, limit: int) -> (int, int) {
    let rel_start = first_start(retained, 0);
    let end0 = if requested + rel_start + limit < byte_length { requested + rel_start + limit } else { byte_length };
    (rel_start, chunk_end_back(retained, rel_start, end0 - requested, byte_length - requested))
}

/// Cuts a chunk of a raw record from the bytes kept from `requested` (those
/// of `raw_retain_window`): it starts at the first character start and
/// ends at most `limit` bytes later on a character boundary. Bytes that are
/// no UTF-8 there mean the source changed.
pub fn raw_chunk(retained: &[u8], requested: u64, byte_length: u64, limit: usize) -> (r: Result<ContentChunk, ApiFailure>)
    requires
        requested <= byte_length,
        retained@.len() <= byte_length - requested,
        ({
            let rel_start = first_start(retained@, 0);
            let end0 = if requested + rel_start + limit < byte_length { requested + rel_start + limit } else { byte_length as int };
            end0 - requested <= retained@.len()
        }),
    ensures
        ({
            let (rs, re) = raw_chunk_bounds(retained@, requested as int, byte_length as int, limit as int);
            let piece = retained@.subrange(rs, re);
            &&& valid_utf8(piece) ==> (r matches Ok(c) && c.field == ContentField::Primary && c.text@ == decode_utf8(piece)
                && c.byte_offset == requested + rs && c.next_offset == (if requested + re < byte_length {
                Some((requested + re) as u64)
            } else {
                None
            }) && c.total_bytes == byte_length && c.complete == (requested + rs == 0 && requested + re == byte_length))
            &&& !valid_utf8(piece) ==> (r matches Err(e) && e.code@ == "source_changed"@ && e.message@ == "source encoding changed"@)
        }),
{
    let n = retained.len();
    let mut rel_start: usize = 0;
    while rel_start < n && retained[rel_start] & 0xC0u8 == 0x80u8
        invariant
            rel_start <= n,
            n == retained@.len(),
            first_start(retained@, rel_start as int) == first_start(retained@, 0),
        decreases n - rel_start,
    {
        rel_start = rel_start + 1;
    }
    let start: u64 = requested + rel_start as u64;
    let limit64 = limit as u64;
    let end0: u64 = if limit64 < byte_length - start { start + limit64 } else { byte_length };
    let total: u64 = byte_length - requested;
    let mut rel_end: usize = (end0 - requested) as usize;
    while rel_end > rel_start && (rel_end as u64) < total && rel_end < n && retained[rel_end] & 0xC0u8 == 0x80u8
        invariant
            rel_start <= rel_end <= n,
            n == retained@.len(),
            total == byte_length - requested,
            chunk_end_back(retained@, rel_start as int, rel_end as int, total as int) == chunk_end_back(
                retained@,
                rel_start as int,
                end0 - requested,
                total as int,
            ),
        decreases rel_end,
    {
        rel_end = rel_end - 1;
    }
    let mut piece: Vec<u8> = Vec::new();
    let mut k: usize = rel_start;
    while k < rel_end
        invariant
            rel_start <= k <= rel_end <= n,
            n == retained@.len(),
            piece@ == retained@.subrange(rel_start as int, k as int),
        decreases rel_end - k,
    {
        piece.push(retained[k]);
        assert(piece@ =~= retained@.subrange(rel_start as int, k + 1));
        k = k + 1;
    }
    let end: u64 = requested + rel_end as u64;
    match string_from_utf8(piece) {
        Some(text) => Ok(ContentChunk {
            field: ContentField::Primary,
            text,
            byte_offset: start,
            next_offset: if end < byte_length { Some(end) } else { None },
            total_bytes: byte_length,
            complete: start == 0 && end == byte_length,
        }),
        None => Err(ApiFailure::source_changed("source encoding changed".to_string())),
    }
}

} // verus!
