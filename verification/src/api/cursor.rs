//! Opaque page cursors: which endpoint and filters they belong to, where
//! they point, and the base64url text they travel as.

use vstd::prelude::*;

use crate::failure::ApiFailure;
use crate::text::{hex_encode, sha256_hex_prefix, sha256_spec, str_eq};
use vstd::utf8::encode_utf8;
use base64::Engine;

verus! {

/// The longest cursor text accepted, in bytes.
pub const MAX_CURSOR_BYTES: usize = 2048;

/// The longest id a cursor may carry, in bytes.
pub const MAX_CURSOR_ID_BYTES: usize = 512;

/// The fields a cursor carries.
#[derive(Clone, Debug)]
pub struct Cursor {
    pub v: u8,
    pub endpoint: String,
    pub filter_hash: String,
    pub sort: i64,
    pub id: String,
    pub direction: String,
}

/// The fingerprint of a canonical filter set: 32 hex digits of its SHA-256.
pub open spec fn filter_hash_spec(filters: Seq<char>) -> Seq<char> {
    hex_encode(sha256_spec(encode_utf8(filters)).take(16))
}

/// The fingerprint of a canonical filter set.
pub fn filter_hash(value: &str) -> (r: String)
    ensures
        r@ == filter_hash_spec(value@),
{
    sha256_hex_prefix(value.as_bytes(), 16)
}

/// The cursor for a page boundary at `(sort, id)` of `endpoint` under the
/// given filters, going `direction`.
pub fn new_cursor(endpoint: &str, canonical_filters: &str, sort: i64, id: &str, direction: &str) -> (r: Cursor)
    ensures
        r.v == 1,
        r.endpoint@ == endpoint@,
        r.filter_hash@ == filter_hash_spec(canonical_filters@),
        r.sort == sort,
        r.id@ == id@,
        r.direction@ == direction@,
{
    Cursor {
        v: 1,
        endpoint: endpoint.to_string(),
        filter_hash: filter_hash(canonical_filters),
        sort,
        id: id.to_string(),
        direction: direction.to_string(),
    }
}

/// What `base64::engine::general_purpose::URL_SAFE_NO_PAD.encode` writes for bytes.
pub uninterp spec fn base64url_text(bytes: Seq<u8>) -> Seq<char>;

/// What `base64::engine::general_purpose::URL_SAFE_NO_PAD.decode` reads
/// from a text: the bytes, or nothing when the text is no unpadded base64url.
pub uninterp spec fn base64url_bytes(text: Seq<char>) -> Option<Seq<u8>>;

/// Calls `URL_SAFE_NO_PAD.encode`; claims the result is the named text.
#[verifier::external_body]
fn base64url_encode(bytes: &[u8]) -> (r: String)
    ensures
        r@ == base64url_text(bytes@),
{
    base64::engine::general_purpose::URL_SAFE_NO_PAD.encode(bytes)
}

/// Calls `URL_SAFE_NO_PAD.decode`; claims the result is the named bytes,
/// and that text the same engine wrote for some bytes reads back as those
/// bytes (it writes no padding and zero trailing bits, and reads no padding).
#[verifier::external_body]
fn base64url_decode(text: &str) -> (r: Option<Vec<u8>>)
    ensures
        r is None <==> base64url_bytes(text@) is None,
        r matches Some(b) ==> base64url_bytes(text@) == Some(b@),
        r matches Some(v) ==> forall|b: Seq<u8>| #[trigger] base64url_text(b) == text@ ==> v@ == b,
        r is None ==> forall|b: Seq<u8>| #[trigger] base64url_text(b) != text@,
{
    base64::engine::general_purpose::URL_SAFE_NO_PAD.decode(text).ok()
}

/// The text a serialized cursor travels as.
pub fn encode_cursor_bytes(json: &[u8]) -> (r: String)
    ensures
        r@ == base64url_text(json@),
{
    base64url_encode(json)
}

/// The serialized cursor a cursor text carries: refused when the text is
/// longer than 2048 bytes or is no base64url. Text written by
/// `encode_cursor_bytes` reads back as the bytes it was written for.
pub fn cursor_bytes(value: &str) -> (r: Result<Vec<u8>, ApiFailure>)
    ensures
        forall|b: Seq<u8>| #[trigger] base64url_text(b) == value@ && encode_utf8(value@).len() <= MAX_CURSOR_BYTES ==> (r matches Ok(
            v,
        ) && v@ == b),
        encode_utf8(value@).len() > MAX_CURSOR_BYTES ==> (r matches Err(e) && e.is_invalid()
            && e.message@ == "cursor is too long"@),
        encode_utf8(value@).len() <= MAX_CURSOR_BYTES ==> match base64url_bytes(value@) {
            Some(b) => (r matches Ok(v) && v@ == b),
            None => (r matches Err(e) && e.is_invalid() && e.message@ == "cursor is not valid base64url"@),
        },
{
    if value.as_bytes().len() > MAX_CURSOR_BYTES {
        return Err(ApiFailure::invalid_str("cursor is too long"));
    }
    match base64url_decode(value) {
        Some(bytes) => Ok(bytes),
        None => Err(ApiFailure::invalid_str("cursor is not valid base64url")),
    }
}

/// Whether a cursor belongs to `endpoint` under the given filters and is
/// well formed: version 1, an id of 1 to 512 bytes, a direction of `next`
/// or `previous`.
pub open spec fn cursor_fits(c: Cursor, endpoint: Seq<char>, filters: Seq<char>) -> bool {
    c.v == 1 && c.endpoint@ == endpoint && c.filter_hash@ == filter_hash_spec(filters)
        && 0 < encode_utf8(c.id@).len() <= MAX_CURSOR_ID_BYTES
        && (c.direction@ == "next"@ || c.direction@ == "previous"@)
}

/// The position and direction a decoded cursor carries, when it fits.
pub fn check_cursor(cursor: Cursor, endpoint: &str, canonical_filters: &str) -> (r: Result<(i64, String, String), ApiFailure>)
    ensures
        cursor_fits(cursor, endpoint@, canonical_filters@) ==> (r matches Ok(t) && t.0 == cursor.sort
            && t.1@ == cursor.id@ && t.2@ == cursor.direction@),
        !cursor_fits(cursor, endpoint@, canonical_filters@) ==> (r matches Err(e) && e.is_invalid()
            && e.message@ == "cursor does not match this endpoint or filter set"@),
{
    let expected = filter_hash(canonical_filters);
    let id_len = cursor.id.as_str().as_bytes().len();
    if cursor.v != 1 || !str_eq(cursor.endpoint.as_str(), endpoint)
        || !str_eq(cursor.filter_hash.as_str(), expected.as_str()) || id_len == 0 || id_len > MAX_CURSOR_ID_BYTES
        || !(str_eq(cursor.direction.as_str(), "next") || str_eq(cursor.direction.as_str(), "previous")) {
        return Err(ApiFailure::invalid_str("cursor does not match this endpoint or filter set"));
    }
    Ok((cursor.sort, cursor.id, cursor.direction))
}

} // verus!
