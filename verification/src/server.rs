//! Small rules of the HTTP server: cacheable assets, allowed hosts and
//! event names.

use vstd::prelude::*;

use crate::model::SseEventType;
use crate::text::{
    ascii_lower, decimal_text, split_spec, str_chars, str_eq_ignore_ascii_case, str_lt, str_split_char, string_eq,
    string_push_str, text_lt, u64_to_string,
};

verus! {

/// Whether a character is an ASCII hexadecimal digit.
pub open spec fn hex_digit_char(c: char) -> bool {
    ('0' <= c && c <= '9') || ('a' <= c && c <= 'f') || ('A' <= c && c <= 'F')
}

/// Whether a file name piece looks like a content hash: 8 to 64 hex digits.
pub open spec fn hash_piece(piece: Seq<char>) -> bool {
    8 <= piece.len() <= 64 && forall|i: int| 0 <= i < piece.len() ==> hex_digit_char(#[trigger] piece[i])
}

/// Whether an asset path carries a content hash in one of its dot-separated
/// pieces, so that it can be cached for good.
pub open spec fn hashed_asset_spec(path: Seq<char>) -> bool {
    exists|i: int| 0 <= i < split_spec(path, '.').len() && hash_piece(#[trigger] split_spec(path, '.')[i])
}

fn is_hash_piece(piece: &str) -> (r: bool)
    ensures
        r == hash_piece(piece@),
{
    let chars = str_chars(piece);
    if chars.len() < 8 || chars.len() > 64 {
        return false;
    }
    let mut i: usize = 0;
    while i < chars.len()
        invariant
            i <= chars@.len(),
            chars@ == piece@,
            forall|j: int| 0 <= j < i ==> hex_digit_char(#[trigger] piece@[j]),
        decreases chars@.len() - i,
    {
        let c = chars[i];
        if !(('0' <= c && c <= '9') || ('a' <= c && c <= 'f') || ('A' <= c && c <= 'F')) {
            return false;
        }
        i = i + 1;
    }
    true
}

/// Whether an asset path carries a content hash.
pub fn is_hashed_asset(path: &str) -> (r: bool)
    ensures
        r == hashed_asset_spec(path@),
{
    let pieces = str_split_char(path, '.');
    let ghost ps = pieces@.map_values(|p: &str| p@);
    let mut i: usize = 0;
    while i < pieces.len()
        invariant
            i <= pieces@.len(),
            ps == pieces@.map_values(|p: &str| p@),
            ps == split_spec(path@, '.'),
            forall|j: int| 0 <= j < i ==> !hash_piece(#[trigger] ps[j]),
        decreases pieces@.len() - i,
    {
        assert(ps[i as int] == pieces@[i as int]@);
        if is_hash_piece(pieces[i]) {
            return true;
        }
        i = i + 1;
    }
    false
}

/// The name an event type is sent under.
pub fn event_name(event: SseEventType) -> (r: &'static str)
    ensures
        r@ == event.name_spec(),
{
    event.as_str()
}

/// The `Host` authorities the server answers: the address it is bound to
/// and `localhost` on its port.
#[derive(Clone, Debug)]
pub struct SecurityConfig {
    allowed_authorities: Vec<String>,
}

impl View for SecurityConfig {
    type V = Seq<Seq<char>>;

    closed spec fn view(&self) -> Seq<Seq<char>> {
        self.allowed_authorities@.map_values(|a: String| a@)
    }
}

impl SecurityConfig {
    /// The authorities for a server bound to `bound` (an address and port as
    /// text) on `port`, sorted, without repeats.
    pub fn new(bound: &str, port: u16) -> (r: Self)
        ensures
            ({
                let local = "localhost:"@ + decimal_text(port as nat);
                if bound@ == local {
                    r@ == seq![local]
                } else if text_lt(local, bound@) {
                    r@ == seq![local, bound@]
                } else {
                    r@ == seq![bound@, local]
                }
            }),
    {
        let mut first = String::new();
        string_push_str(&mut first, bound);
        let mut local = String::new();
        string_push_str(&mut local, "localhost:");
        let digits = u64_to_string(port as u64);
        string_push_str(&mut local, digits.as_str());
        let mut allowed: Vec<String> = Vec::new();
        if string_eq(&first, &local) {
            allowed.push(first);
        } else if str_lt(local.as_str(), first.as_str()) {
            allowed.push(local);
            allowed.push(first);
        } else {
            allowed.push(first);
            allowed.push(local);
        }
        let r = SecurityConfig { allowed_authorities: allowed };
        assert(r@ =~= r.allowed_authorities@.map_values(|a: String| a@));
        r
    }

    /// Whether a request's `Host` authority is one the server answers,
    /// ignoring ASCII case.
    pub fn allows(&self, authority: &str) -> (r: bool)
        ensures
            r == exists|i: int| 0 <= i < self@.len() && ascii_lower(#[trigger] self@[i]) == ascii_lower(authority@),
    {
        let mut i: usize = 0;
        while i < self.allowed_authorities.len()
            invariant
                i <= self.allowed_authorities@.len(),
                self@ == self.allowed_authorities@.map_values(|a: String| a@),
                forall|j: int| 0 <= j < i ==> ascii_lower(#[trigger] self@[j]) != ascii_lower(authority@),
            decreases self.allowed_authorities@.len() - i,
        {
            assert(self@[i as int] == self.allowed_authorities@[i as int]@);
            if str_eq_ignore_ascii_case(self.allowed_authorities[i].as_str(), authority) {
                return true;
            }
            i = i + 1;
        }
        false
    }
}

/// What the source watcher reports.
#[derive(Clone, Debug, PartialEq, Eq)]
pub enum WatchEvent {
    /// Files that changed.
    Paths(Vec<String>),
    /// Events were lost; everything must be reconciled.
    Reconcile,
    /// The watcher stopped working, for the reason given.
    Degraded(String),
}

} // verus!
