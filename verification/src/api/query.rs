//! Strict decoding of URL query strings.

use vstd::prelude::*;
use vstd::utf8::*;

use crate::failure::ApiFailure;
use crate::model::{EntryKind, SourceKind};
use crate::search::ArchiveFilter;
use crate::text::{
    split_once_spec, split_spec, str_eq, str_parse_usize, str_split_char, str_split_once_char,
    string_from_utf8, string_push_str, parse_usize_spec, usize_to_string, char_is_control,
    str_any_control,
};

verus! {

/// Whether a byte is an ASCII hexadecimal digit.
pub open spec fn is_hex_byte(b: u8) -> bool {
    (48 <= b <= 57) || (97 <= b <= 102) || (65 <= b <= 70)
}

/// The value of an ASCII hexadecimal digit.
pub open spec fn hex_byte_value(b: u8) -> u8 {
    if 48 <= b <= 57 {
        (b - 48) as u8
    } else if 97 <= b <= 102 {
        (b - 87) as u8
    } else {
        (b - 55) as u8
    }
}

/// Form-style percent decoding of bytes: `+` is a space, `%XY` is the byte
/// `0xXY`; a `%` without two hex digits after it fails.
pub open spec fn percent_decode_bytes(b: Seq<u8>) -> Option<Seq<u8>>
    decreases b.len(),
{
    if b.len() == 0 {
        Some(Seq::empty())
    } else if b[0] == 43 {
        match percent_decode_bytes(b.skip(1)) {
            Some(rest) => Some(seq![32u8] + rest),
            None => None,
        }
    } else if b[0] == 37 {
        if b.len() >= 3 && is_hex_byte(b[1]) && is_hex_byte(b[2]) {
            match percent_decode_bytes(b.skip(3)) {
                Some(rest) => Some(
                    seq![(hex_byte_value(b[1]) * 16 + hex_byte_value(b[2])) as u8] + rest,
                ),
                None => None,
            }
        } else {
            None
        }
    } else {
        match percent_decode_bytes(b.skip(1)) {
            Some(rest) => Some(seq![b[0]] + rest),
            None => None,
        }
    }
}

/// Percent-decoded text of `t`, if the escapes are well formed and the
/// decoded bytes are UTF-8.
pub open spec fn percent_decode_text(t: Seq<char>) -> Option<Seq<char>> {
    match percent_decode_bytes(encode_utf8(t)) {
        Some(bytes) => if valid_utf8(bytes) {
            Some(decode_utf8(bytes))
        } else {
            None
        },
        None => None,
    }
}

/// The value of one hex digit of a percent escape.
pub fn hex_digit(value: u8) -> (r: Result<u8, ApiFailure>)
    ensures
        r is Ok <==> is_hex_byte(value),
        r matches Ok(d) ==> d == hex_byte_value(value),
        r matches Err(e) ==> e.is_invalid(),
{
    if 48 <= value && value <= 57 {
        Ok(value - 48)
    } else if 97 <= value && value <= 102 {
        Ok(value - 87)
    } else if 65 <= value && value <= 70 {
        Ok(value - 55)
    } else {
        Err(ApiFailure::invalid_str("query contains invalid percent encoding"))
    }
}

proof fn lemma_skip_skip(b: Seq<u8>, i: int, k: int)
    requires
        0 <= i,
        0 <= k,
        i + k <= b.len(),
    ensures
        b.skip(i).skip(k) =~= b.skip(i + k),
{
}

/// Percent-decodes one query component and checks that it is UTF-8.
pub fn percent_decode(value: &str) -> (r: Result<String, ApiFailure>)
    ensures
        r is Ok <==> percent_decode_text(value@) is Some,
        r matches Ok(s) ==> s@ == percent_decode_text(value@).unwrap(),
        r matches Err(e) ==> e.is_invalid(),
{
    let bytes = value.as_bytes();
    let ghost b = bytes@;
    let mut decoded: Vec<u8> = Vec::new();
    let mut index: usize = 0;
    proof {
        assert(b.skip(0) =~= b);
        assert forall|rest: Seq<u8>| #![auto] (decoded@ + rest) =~= rest by {}
    }
    while index < bytes.len()
        invariant
            b == bytes@,
            b == encode_utf8(value@),
            index <= b.len(),
            percent_decode_bytes(b) == match percent_decode_bytes(b.skip(index as int)) {
                Some(rest) => Some(decoded@ + rest),
                None => None::<Seq<u8>>,
            },
        decreases b.len() - index,
    {
        let ghost tail = b.skip(index as int);
        assert(tail[0] == b[index as int]);
        let byte = bytes[index];
        if byte == 43 {
            proof {
                lemma_skip_skip(b, index as int, 1);
                assert(decoded@.push(32u8) =~= decoded@ + seq![32u8]);
                assert forall|rest: Seq<u8>| #![auto] (decoded@ + (seq![32u8] + rest)) =~= (decoded@.push(32u8) + rest) by {}
            }
            decoded.push(32);
            index = index + 1;
        } else if byte == 37 {
            if bytes.len() - index > 2 {
                let high = match hex_digit(bytes[index + 1]) {
                    Ok(d) => d,
                    Err(e) => {
                        assert(tail[1] == b[index + 1]);
                        return Err(e);
                    },
                };
                let low = match hex_digit(bytes[index + 2]) {
                    Ok(d) => d,
                    Err(e) => {
                        assert(tail[2] == b[index + 2]);
                        return Err(e);
                    },
                };
                let out: u8 = high * 16 + low;
                proof {
                    assert(tail[1] == b[index + 1]);
                    assert(tail[2] == b[index + 2]);
                    lemma_skip_skip(b, index as int, 3);
                    assert forall|rest: Seq<u8>| #![auto] (decoded@ + (seq![out] + rest)) =~= (decoded@.push(out) + rest) by {}
                }
                decoded.push(out);
                index = index + 3;
            } else {
                return Err(ApiFailure::invalid_str("query contains incomplete percent encoding"));
            }
        } else {
            proof {
                lemma_skip_skip(b, index as int, 1);
                assert forall|rest: Seq<u8>| #![auto] (decoded@ + (seq![byte] + rest)) =~= (decoded@.push(byte) + rest) by {}
            }
            decoded.push(byte);
            index = index + 1;
        }
    }
    proof {
        assert(b.skip(index as int) =~= Seq::<u8>::empty());
        assert(decoded@ + Seq::<u8>::empty() =~= decoded@);
    }
    match string_from_utf8(decoded) {
        Some(s) => Ok(s),
        None => Err(ApiFailure::invalid_str("query is not valid UTF-8")),
    }
}


/// The key and value text of one `key=value` piece; a piece without `=` is a
/// key with an empty value.
pub open spec fn query_pair_parts(piece: Seq<char>) -> (Seq<char>, Seq<char>) {
    match split_once_spec(piece, '=') {
        Some(parts) => parts,
        None => (piece, Seq::empty()),
    }
}

/// Decoded pairs of the `&`-separated pieces, skipping empty pieces; fails
/// when any key or value fails to decode.
pub open spec fn decode_pieces(pieces: Seq<Seq<char>>) -> Option<Seq<(Seq<char>, Seq<char>)>>
    decreases pieces.len(),
{
    if pieces.len() == 0 {
        Some(Seq::empty())
    } else {
        match decode_pieces(pieces.drop_last()) {
            None => None,
            Some(done) => {
                let piece = pieces.last();
                if piece.len() == 0 {
                    Some(done)
                } else {
                    let parts = query_pair_parts(piece);
                    match (percent_decode_text(parts.0), percent_decode_text(parts.1)) {
                        (Some(key), Some(value)) => Some(done.push((key, value))),
                        _ => None,
                    }
                }
            },
        }
    }
}

/// The decoded key/value pairs of a raw query string (absent means empty).
pub open spec fn query_pairs_spec(raw: Option<Seq<char>>) -> Option<Seq<(Seq<char>, Seq<char>)>> {
    let text = match raw {
        Some(t) => t,
        None => Seq::empty(),
    };
    decode_pieces(split_spec(text, '&'))
}

/// The text views of decoded pairs.
pub open spec fn pairs_view(v: Seq<(String, String)>) -> Seq<(Seq<char>, Seq<char>)> {
    v.map_values(|p: (String, String)| (p.0@, p.1@))
}

/// The view of an optional string argument.
pub open spec fn opt_str_view(raw: Option<&str>) -> Option<Seq<char>> {
    match raw {
        Some(t) => Some(t@),
        None => None,
    }
}

/// The view of an optional owned string.
pub open spec fn opt_string_view(v: Option<String>) -> Option<Seq<char>> {
    match v {
        Some(t) => Some(t@),
        None => None,
    }
}

/// Splits a raw query string on `&`, skips empty pieces, splits each piece at
/// its first `=` and percent-decodes both sides.
pub fn query_pairs(raw: Option<&str>) -> (r: Result<Vec<(String, String)>, ApiFailure>)
    ensures
        r is Ok <==> query_pairs_spec(opt_str_view(raw)) is Some,
        r matches Ok(v) ==> pairs_view(v@) == query_pairs_spec(opt_str_view(raw)).unwrap(),
        r matches Err(e) ==> e.is_invalid(),
{
    let text: &str = match raw {
        Some(t) => t,
        None => "",
    };
    proof {
        if raw is None {
            reveal_strlit("");
        }
    }
    let pieces = str_split_char(text, '&');
    let ghost pv = pieces@.map_values(|p: &str| p@);
    let mut out: Vec<(String, String)> = Vec::new();
    let mut i: usize = 0;
    while i < pieces.len()
        invariant
            i <= pieces@.len(),
            pv == pieces@.map_values(|p: &str| p@),
            pv == split_spec(text@, '&'),
            query_pairs_spec(opt_str_view(raw)) == decode_pieces(pv),
            decode_pieces(pv.take(i as int)) == Some(pairs_view(out@)),
        decreases pieces@.len() - i,
    {
        let piece = pieces[i];
        proof {
            assert(pv.take(i + 1).drop_last() =~= pv.take(i as int));
            assert(pv.take(i + 1).last() == piece@);
        }
        if piece.is_empty() {
            proof {
                assert(piece@.len() == 0);
                let t = pv.take(i + 1);
                assert(t.len() == i + 1);
                assert(t.last().len() == 0);
                assert(decode_pieces(t.drop_last()) == Some(pairs_view(out@)));
                assert(decode_pieces(pv.take(i + 1)) == Some(pairs_view(out@)));
            }
        } else {
            let (key, value) = match str_split_once_char(piece, '=') {
                Some(parts) => parts,
                None => {
                    proof {
                        reveal_strlit("");
                    }
                    (piece, "")
                },
            };
            assert(query_pair_parts(piece@) == (key@, value@));
            let k = match percent_decode(key) {
                Ok(k) => k,
                Err(e) => {
                    proof {
                        assert(decode_pieces(pv.take(i + 1)) is None);
                        lemma_decode_pieces_stays_failed(pv, i + 1);
                    }
                    return Err(e);
                },
            };
            let v = match percent_decode(value) {
                Ok(v) => v,
                Err(e) => {
                    proof {
                        assert(decode_pieces(pv.take(i + 1)) is None);
                        lemma_decode_pieces_stays_failed(pv, i + 1);
                    }
                    return Err(e);
                },
            };
            proof {
                assert(pairs_view(out@.push((k, v))) =~= pairs_view(out@).push((k@, v@)));
                assert(percent_decode_text(key@) == Some(k@));
                assert(percent_decode_text(value@) == Some(v@));
                assert(decode_pieces(pv.take(i + 1)) == Some(pairs_view(out@).push((k@, v@))));
            }
            out.push((k, v));
        }
        i = i + 1;
    }
    assert(pv.take(pieces@.len() as int) =~= pv);
    Ok(out)
}

/// Replaces the value in `slot`; fails when a value was already there.
pub fn set_once<T>(slot: &mut Option<T>, value: T, name: &str) -> (r: Result<(), ApiFailure>)
    ensures
        *final(slot) == Some(value),
        r is Err <==> (*old(slot)) is Some,
        r matches Err(e) ==> e.is_invalid(),
{
    let occupied = slot.is_some();
    *slot = Some(value);
    if occupied {
        let mut message = name.to_owned();
        string_push_str(&mut message, " may only appear once");
        Err(ApiFailure::invalid(message))
    } else {
        Ok(())
    }
}

/// Parses a base-10 `usize` parameter.
pub fn parse_usize(value: &str, name: &str) -> (r: Result<usize, ApiFailure>)
    ensures
        r is Ok <==> parse_usize_spec(value@) is Some,
        r matches Ok(n) ==> parse_usize_spec(value@) == Some(n),
        r matches Err(e) ==> e.is_invalid(),
{
    match str_parse_usize(value) {
        Some(n) => Ok(n),
        None => {
            let mut message = name.to_owned();
            string_push_str(&mut message, " must be a positive integer");
            Err(ApiFailure::invalid(message))
        },
    }
}

/// The boolean spelled `true` or `false`.
pub open spec fn parse_bool_spec(value: Seq<char>) -> Option<bool> {
    if value == "true"@ {
        Some(true)
    } else if value == "false"@ {
        Some(false)
    } else {
        None
    }
}

/// Parses a boolean parameter spelled `true` or `false`.
pub fn parse_bool(value: &str, name: &str) -> (r: Result<bool, ApiFailure>)
    ensures
        r is Ok <==> parse_bool_spec(value@) is Some,
        r matches Ok(b) ==> parse_bool_spec(value@) == Some(b),
        r matches Err(e) ==> e.is_invalid(),
{
    if str_eq(value, "true") {
        Ok(true)
    } else if str_eq(value, "false") {
        Ok(false)
    } else {
        let mut message = name.to_owned();
        string_push_str(&mut message, " must be true or false");
        Err(ApiFailure::invalid(message))
    }
}

/// Why a query was rejected: a bad argument, or a value the service cannot decode.
pub enum QueryError {
    Invalid,
    Internal,
}

/// Whether `r` is the outcome `expected` describes.
pub open spec fn failure_matches(e: ApiFailure, expected: QueryError) -> bool {
    match expected {
        QueryError::Invalid => e.is_invalid(),
        QueryError::Internal => e.is_internal(),
    }
}

/// The error for an unknown query parameter.
fn unknown_parameter(key: &str) -> (e: ApiFailure)
    ensures
        e.is_invalid(),
{
    let mut message = "unknown query parameter: ".to_owned();
    string_push_str(&mut message, key);
    ApiFailure::invalid(message)
}

/// Filters of the session listing endpoints.
pub struct SessionsQuery {
    pub source: Vec<SourceKind>,
    pub archived: Option<String>,
    pub cwd: Option<String>,
    pub parent: Option<String>,
    pub limit: Option<usize>,
    pub cursor: Option<String>,
}

/// The mathematical content of a `SessionsQuery`.
pub struct SessionsQueryView {
    pub source: Seq<SourceKind>,
    pub archived: Option<Seq<char>>,
    pub cwd: Option<Seq<char>>,
    pub parent: Option<Seq<char>>,
    pub limit: Option<usize>,
    pub cursor: Option<Seq<char>>,
}

impl View for SessionsQuery {
    type V = SessionsQueryView;

    open spec fn view(&self) -> SessionsQueryView {
        SessionsQueryView {
            source: self.source@,
            archived: opt_string_view(self.archived),
            cwd: opt_string_view(self.cwd),
            parent: opt_string_view(self.parent),
            limit: self.limit,
            cursor: opt_string_view(self.cursor),
        }
    }
}

/// The empty session filter.
pub open spec fn empty_sessions_query() -> SessionsQueryView {
    SessionsQueryView {
        source: Seq::empty(),
        archived: None,
        cwd: None,
        parent: None,
        limit: None,
        cursor: None,
    }
}

/// The session filter after one more `key=value` pair.
pub open spec fn sessions_step(q: SessionsQueryView, key: Seq<char>, value: Seq<char>) -> Result<
    SessionsQueryView,
    QueryError,
> {
    if key == "source"@ {
        match SourceKind::from_name_spec(value) {
            Some(k) => Ok(SessionsQueryView { source: q.source.push(k), ..q }),
            None => Err(QueryError::Internal),
        }
    } else if key == "archived"@ {
        if q.archived is Some {
            Err(QueryError::Invalid)
        } else {
            Ok(SessionsQueryView { archived: Some(value), ..q })
        }
    } else if key == "cwd"@ {
        if q.cwd is Some {
            Err(QueryError::Invalid)
        } else {
            Ok(SessionsQueryView { cwd: Some(value), ..q })
        }
    } else if key == "parent"@ {
        if q.parent is Some {
            Err(QueryError::Invalid)
        } else {
            Ok(SessionsQueryView { parent: Some(value), ..q })
        }
    } else if key == "limit"@ {
        match parse_usize_spec(value) {
            None => Err(QueryError::Invalid),
            Some(n) => if q.limit is Some {
                Err(QueryError::Invalid)
            } else {
                Ok(SessionsQueryView { limit: Some(n), ..q })
            },
        }
    } else if key == "cursor"@ {
        if q.cursor is Some {
            Err(QueryError::Invalid)
        } else {
            Ok(SessionsQueryView { cursor: Some(value), ..q })
        }
    } else {
        Err(QueryError::Invalid)
    }
}

/// The session filter built from decoded pairs, in order.
pub open spec fn sessions_fold(pairs: Seq<(Seq<char>, Seq<char>)>) -> Result<
    SessionsQueryView,
    QueryError,
>
    decreases pairs.len(),
{
    if pairs.len() == 0 {
        Ok(empty_sessions_query())
    } else {
        match sessions_fold(pairs.drop_last()) {
            Err(e) => Err(e),
            Ok(q) => sessions_step(q, pairs.last().0, pairs.last().1),
        }
    }
}

/// The session filter of a raw query string.
pub open spec fn sessions_query_spec(raw: Option<Seq<char>>) -> Result<
    SessionsQueryView,
    QueryError,
> {
    match query_pairs_spec(raw) {
        None => Err(QueryError::Invalid),
        Some(pairs) => sessions_fold(pairs),
    }
}


/// Once a prefix of the pieces fails to decode, every longer prefix fails.
proof fn lemma_decode_pieces_stays_failed(pieces: Seq<Seq<char>>, j: int)
    requires
        0 <= j <= pieces.len(),
        decode_pieces(pieces.take(j)) is None,
    ensures
        decode_pieces(pieces) is None,
    decreases pieces.len() - j,
{
    if j < pieces.len() {
        assert(pieces.take(j + 1).drop_last() =~= pieces.take(j));
        lemma_decode_pieces_stays_failed(pieces, j + 1);
    } else {
        assert(pieces.take(j) =~= pieces);
    }
}

/// Once a prefix of the pairs fails, the whole sequence fails the same way.
proof fn lemma_sessions_fold_stays_failed(pairs: Seq<(Seq<char>, Seq<char>)>, j: int)
    requires
        0 <= j <= pairs.len(),
        sessions_fold(pairs.take(j)) is Err,
    ensures
        sessions_fold(pairs) == sessions_fold(pairs.take(j)),
    decreases pairs.len() - j,
{
    if j < pairs.len() {
        assert(pairs.take(j + 1).drop_last() =~= pairs.take(j));
        lemma_sessions_fold_stays_failed(pairs, j + 1);
    } else {
        assert(pairs.take(j) =~= pairs);
    }
}

/// Decodes the query of the session listing endpoints; repeated scalar
/// parameters and unknown keys are rejected, `source` may repeat.
pub fn parse_sessions_query(raw: Option<&str>) -> (r: Result<SessionsQuery, ApiFailure>)
    ensures
        match sessions_query_spec(opt_str_view(raw)) {
            Ok(v) => r matches Ok(q) && q@ == v,
            Err(kind) => r matches Err(e) && failure_matches(e, kind),
        },
{
    let pairs = query_pairs(raw)?;
    let ghost pv = pairs_view(pairs@);
    let mut query = SessionsQuery {
        source: Vec::new(),
        archived: None,
        cwd: None,
        parent: None,
        limit: None,
        cursor: None,
    };
    assert(query@ == empty_sessions_query()) by {
        assert(query.source@ =~= Seq::<SourceKind>::empty());
    }
    let mut i: usize = 0;
    while i < pairs.len()
        invariant
            i <= pairs@.len(),
            pv == pairs_view(pairs@),
            query_pairs_spec(opt_str_view(raw)) == Some(pv),
            sessions_fold(pv.take(i as int)) == Ok::<SessionsQueryView, QueryError>(query@),
        decreases pairs@.len() - i,
    {
        let key = pairs[i].0.as_str();
        let value = &pairs[i].1;
        let ghost before = query@;
        proof {
            assert(pv.take(i + 1).drop_last() =~= pv.take(i as int));
            assert(pv.take(i + 1).last() == (key@, value@));
        }
        if str_eq(key, "source") {
            match SourceKind::parse(value.as_str()) {
                Some(k) => {
                    query.source.push(k);
                    assert(query@ == SessionsQueryView { source: before.source.push(k), ..before });
                },
                None => {
                    proof {
                        lemma_sessions_fold_stays_failed(pv, i + 1);
                    }
                    return Err(ApiFailure::internal());
                },
            }
        } else {
            let step = if str_eq(key, "archived") {
                set_once(&mut query.archived, value.clone(), "archived")
            } else if str_eq(key, "cwd") {
                set_once(&mut query.cwd, value.clone(), "cwd")
            } else if str_eq(key, "parent") {
                set_once(&mut query.parent, value.clone(), "parent")
            } else if str_eq(key, "limit") {
                match parse_usize(value.as_str(), "limit") {
                    Ok(n) => set_once(&mut query.limit, n, "limit"),
                    Err(e) => Err(e),
                }
            } else if str_eq(key, "cursor") {
                set_once(&mut query.cursor, value.clone(), "cursor")
            } else {
                Err(unknown_parameter(key))
            };
            if let Err(e) = step {
                proof {
                    lemma_sessions_fold_stays_failed(pv, i + 1);
                }
                return Err(e);
            }
        }
        i = i + 1;
    }
    assert(pv.take(pairs@.len() as int) =~= pv);
    Ok(query)
}

/// Filters of the search endpoint.
pub struct SearchQuery {
    pub q: Option<String>,
    pub limit: Option<usize>,
    pub session: Option<String>,
    pub source: Vec<SourceKind>,
    pub kind: Vec<EntryKind>,
    pub from: Option<String>,
    pub to: Option<String>,
    pub archived: Option<String>,
    pub all_types: Option<bool>,
}

/// The mathematical content of a `SearchQuery`.
pub struct SearchQueryView {
    pub q: Option<Seq<char>>,
    pub limit: Option<usize>,
    pub session: Option<Seq<char>>,
    pub source: Seq<SourceKind>,
    pub kind: Seq<EntryKind>,
    pub from: Option<Seq<char>>,
    pub to: Option<Seq<char>>,
    pub archived: Option<Seq<char>>,
    pub all_types: Option<bool>,
}

impl View for SearchQuery {
    type V = SearchQueryView;

    open spec fn view(&self) -> SearchQueryView {
        SearchQueryView {
            q: opt_string_view(self.q),
            limit: self.limit,
            session: opt_string_view(self.session),
            source: self.source@,
            kind: self.kind@,
            from: opt_string_view(self.from),
            to: opt_string_view(self.to),
            archived: opt_string_view(self.archived),
            all_types: self.all_types,
        }
    }
}

/// The empty search filter.
pub open spec fn empty_search_query() -> SearchQueryView {
    SearchQueryView {
        q: None,
        limit: None,
        session: None,
        source: Seq::empty(),
        kind: Seq::empty(),
        from: None,
        to: None,
        archived: None,
        all_types: None,
    }
}

/// Sets a once-only text parameter.
pub open spec fn set_text_once(slot: Option<Seq<char>>, value: Seq<char>) -> Option<Seq<char>> {
    if slot is Some {
        None
    } else {
        Some(value)
    }
}

/// The search filter after one more `key=value` pair.
pub open spec fn search_step(q: SearchQueryView, key: Seq<char>, value: Seq<char>) -> Result<
    SearchQueryView,
    QueryError,
> {
    if key == "q"@ {
        if q.q is Some { Err(QueryError::Invalid) } else { Ok(SearchQueryView { q: Some(value), ..q }) }
    } else if key == "limit"@ {
        match parse_usize_spec(value) {
            None => Err(QueryError::Invalid),
            Some(n) => if q.limit is Some {
                Err(QueryError::Invalid)
            } else {
                Ok(SearchQueryView { limit: Some(n), ..q })
            },
        }
    } else if key == "session"@ {
        if q.session is Some {
            Err(QueryError::Invalid)
        } else {
            Ok(SearchQueryView { session: Some(value), ..q })
        }
    } else if key == "source"@ {
        match SourceKind::from_name_spec(value) {
            Some(k) => Ok(SearchQueryView { source: q.source.push(k), ..q }),
            None => Err(QueryError::Internal),
        }
    } else if key == "kind"@ {
        match EntryKind::from_name_spec(value) {
            Some(k) => Ok(SearchQueryView { kind: q.kind.push(k), ..q }),
            None => Err(QueryError::Internal),
        }
    } else if key == "from"@ {
        if q.from is Some { Err(QueryError::Invalid) } else { Ok(SearchQueryView { from: Some(value), ..q }) }
    } else if key == "to"@ {
        if q.to is Some { Err(QueryError::Invalid) } else { Ok(SearchQueryView { to: Some(value), ..q }) }
    } else if key == "archived"@ {
        if q.archived is Some {
            Err(QueryError::Invalid)
        } else {
            Ok(SearchQueryView { archived: Some(value), ..q })
        }
    } else if key == "allTypes"@ {
        match parse_bool_spec(value) {
            None => Err(QueryError::Invalid),
            Some(b) => if q.all_types is Some {
                Err(QueryError::Invalid)
            } else {
                Ok(SearchQueryView { all_types: Some(b), ..q })
            },
        }
    } else {
        Err(QueryError::Invalid)
    }
}

/// The search filter built from decoded pairs, in order.
pub open spec fn search_fold(pairs: Seq<(Seq<char>, Seq<char>)>) -> Result<SearchQueryView, QueryError>
    decreases pairs.len(),
{
    if pairs.len() == 0 {
        Ok(empty_search_query())
    } else {
        match search_fold(pairs.drop_last()) {
            Err(e) => Err(e),
            Ok(q) => search_step(q, pairs.last().0, pairs.last().1),
        }
    }
}

/// The search filter of a raw query string.
pub open spec fn search_query_spec(raw: Option<Seq<char>>) -> Result<SearchQueryView, QueryError> {
    match query_pairs_spec(raw) {
        None => Err(QueryError::Invalid),
        Some(pairs) => search_fold(pairs),
    }
}

/// Once a prefix of the pairs fails, the whole sequence fails the same way.
proof fn lemma_search_fold_stays_failed(pairs: Seq<(Seq<char>, Seq<char>)>, j: int)
    requires
        0 <= j <= pairs.len(),
        search_fold(pairs.take(j)) is Err,
    ensures
        search_fold(pairs) == search_fold(pairs.take(j)),
    decreases pairs.len() - j,
{
    if j < pairs.len() {
        assert(pairs.take(j + 1).drop_last() =~= pairs.take(j));
        lemma_search_fold_stays_failed(pairs, j + 1);
    } else {
        assert(pairs.take(j) =~= pairs);
    }
}

/// Decodes the search endpoint's query; `source` and `kind` may repeat, other
/// parameters may appear once, unknown keys are rejected.
pub fn parse_search_query(raw: Option<&str>) -> (r: Result<SearchQuery, ApiFailure>)
    ensures
        match search_query_spec(opt_str_view(raw)) {
            Ok(v) => r matches Ok(q) && q@ == v,
            Err(kind) => r matches Err(e) && failure_matches(e, kind),
        },
{
    let pairs = query_pairs(raw)?;
    let ghost pv = pairs_view(pairs@);
    let mut query = SearchQuery {
        q: None,
        limit: None,
        session: None,
        source: Vec::new(),
        kind: Vec::new(),
        from: None,
        to: None,
        archived: None,
        all_types: None,
    };
    assert(query@ == empty_search_query()) by {
        assert(query.source@ =~= Seq::<SourceKind>::empty());
        assert(query.kind@ =~= Seq::<EntryKind>::empty());
    }
    let mut i: usize = 0;
    while i < pairs.len()
        invariant
            i <= pairs@.len(),
            pv == pairs_view(pairs@),
            query_pairs_spec(opt_str_view(raw)) == Some(pv),
            search_fold(pv.take(i as int)) == Ok::<SearchQueryView, QueryError>(query@),
        decreases pairs@.len() - i,
    {
        let key = pairs[i].0.as_str();
        let value = &pairs[i].1;
        let ghost before = query@;
        proof {
            assert(pv.take(i + 1).drop_last() =~= pv.take(i as int));
            assert(pv.take(i + 1).last() == (key@, value@));
        }
        let step: Result<(), ApiFailure> = if str_eq(key, "q") {
            set_once(&mut query.q, value.clone(), "q")
        } else if str_eq(key, "limit") {
            match parse_usize(value.as_str(), "limit") {
                Ok(n) => set_once(&mut query.limit, n, "limit"),
                Err(e) => Err(e),
            }
        } else if str_eq(key, "session") {
            set_once(&mut query.session, value.clone(), "session")
        } else if str_eq(key, "source") {
            match SourceKind::parse(value.as_str()) {
                Some(k) => {
                    query.source.push(k);
                    assert(query@ == SearchQueryView { source: before.source.push(k), ..before });
                    Ok(())
                },
                None => Err(ApiFailure::internal()),
            }
        } else if str_eq(key, "kind") {
            match EntryKind::parse(value.as_str()) {
                Some(k) => {
                    query.kind.push(k);
                    assert(query@ == SearchQueryView { kind: before.kind.push(k), ..before });
                    Ok(())
                },
                None => Err(ApiFailure::internal()),
            }
        } else if str_eq(key, "from") {
            set_once(&mut query.from, value.clone(), "from")
        } else if str_eq(key, "to") {
            set_once(&mut query.to, value.clone(), "to")
        } else if str_eq(key, "archived") {
            set_once(&mut query.archived, value.clone(), "archived")
        } else if str_eq(key, "allTypes") {
            match parse_bool(value.as_str(), "allTypes") {
                Ok(b) => set_once(&mut query.all_types, b, "allTypes"),
                Err(e) => Err(e),
            }
        } else {
            Err(unknown_parameter(key))
        };
        if let Err(e) = step {
            proof {
                lemma_search_fold_stays_failed(pv, i + 1);
            }
            return Err(e);
        }
        i = i + 1;
    }
    assert(pv.take(pairs@.len() as int) =~= pv);
    Ok(query)
}

/// Which sessions a listing includes by archive state.
pub open spec fn parse_archive_spec(value: Option<Seq<char>>) -> Option<ArchiveFilter> {
    let v = match value {
        Some(t) => t,
        None => "exclude"@,
    };
    if v == "exclude"@ {
        Some(ArchiveFilter::Exclude)
    } else if v == "only"@ {
        Some(ArchiveFilter::Only)
    } else if v == "include"@ {
        Some(ArchiveFilter::Include)
    } else {
        None
    }
}

/// Parses the `archived` filter; absent means `exclude`.
pub fn parse_archive(value: Option<&str>) -> (r: Result<ArchiveFilter, ApiFailure>)
    ensures
        r is Ok <==> parse_archive_spec(opt_str_view(value)) is Some,
        r matches Ok(f) ==> parse_archive_spec(opt_str_view(value)) == Some(f),
        r matches Err(e) ==> e.is_invalid(),
{
    let v: &str = match value {
        Some(t) => t,
        None => "exclude",
    };
    if str_eq(v, "exclude") {
        Ok(ArchiveFilter::Exclude)
    } else if str_eq(v, "only") {
        Ok(ArchiveFilter::Only)
    } else if str_eq(v, "include") {
        Ok(ArchiveFilter::Include)
    } else {
        Err(ApiFailure::invalid_str("archived must be exclude, only, or include"))
    }
}

/// A page size: `default` when absent, rejected unless within `1..=max`.
pub fn bounded_limit(value: Option<usize>, default: usize, max: usize) -> (r: Result<usize, ApiFailure>)
    ensures
        ({
            let v = match value {
                Some(n) => n,
                None => default,
            };
            &&& (r is Ok <==> 1 <= v <= max)
            &&& (r matches Ok(n) ==> n == v)
        }),
        r matches Err(e) ==> e.is_invalid(),
{
    let v = match value {
        Some(n) => n,
        None => default,
    };
    if v == 0 || v > max {
        let mut message = "limit must be between 1 and ".to_owned();
        string_push_str(&mut message, usize_to_string(max).as_str());
        Err(ApiFailure::invalid(message))
    } else {
        Ok(v)
    }
}

/// Default size of a content chunk in bytes.
pub const DEFAULT_CONTENT_BYTES: usize = 262144;
/// Largest content chunk in bytes.
pub const MAX_CONTENT_BYTES: usize = 1048576;

/// A content chunk size: 256 KiB when absent, rejected unless within 1 B..=1 MiB.
pub fn bounded_content(value: Option<usize>) -> (r: Result<usize, ApiFailure>)
    ensures
        ({
            let v = match value {
                Some(n) => n,
                None => DEFAULT_CONTENT_BYTES,
            };
            &&& (r is Ok <==> 1 <= v <= MAX_CONTENT_BYTES)
            &&& (r matches Ok(n) ==> n == v)
        }),
        r matches Err(e) ==> e.is_invalid(),
{
    let v = match value {
        Some(n) => n,
        None => DEFAULT_CONTENT_BYTES,
    };
    if v == 0 || v > MAX_CONTENT_BYTES {
        Err(ApiFailure::invalid_str("content limit must be between 1 and 1048576"))
    } else {
        Ok(v)
    }
}

/// Whether an identifier is acceptable: 1 to 512 bytes, no control characters.
pub open spec fn valid_id_spec(value: Seq<char>) -> bool {
    &&& value.len() > 0
    &&& encode_utf8(value).len() <= 512
    &&& forall|i: int| 0 <= i < value.len() ==> !char_is_control(#[trigger] value[i])
}

/// Rejects empty, over-long (512 bytes) or control-character identifiers.
pub fn validate_id(value: &str) -> (r: Result<(), ApiFailure>)
    ensures
        r is Ok <==> valid_id_spec(value@),
        r matches Err(e) ==> e.is_invalid(),
{
    let bytes = value.as_bytes();
    if value.is_empty() || bytes.len() > 512 || str_any_control(value) {
        Err(ApiFailure::invalid_str("ID is invalid"))
    } else {
        Ok(())
    }
}

} // verus!
