//! Classification and truncation of the text found in rollout content.

use vstd::prelude::*;

use crate::text::{
    ascii_lower, seq_contains_seq, starts_with, str_contains, str_starts_with, str_to_ascii_lowercase,
    str_trim_start, string_push_str, trim_start_spec,
};
use unicode_segmentation::UnicodeSegmentation;
use crate::rollout::json::{json_get, json_str, str_member, string_option, JsonValue};
use crate::text::str_eq;

verus! {

/// Whether a content item's type names text, an image, audio or encrypted content.
pub open spec fn content_item_kind_spec(kind: Seq<char>) -> bool {
    let k = ascii_lower(kind);
    seq_contains_seq(k, "text"@) || seq_contains_seq(k, "image"@) || seq_contains_seq(k, "audio"@)
        || seq_contains_seq(k, "encrypted"@)
}

/// Whether a content item's type names text, an image, audio or encrypted
/// content, ignoring ASCII case.
pub fn is_content_item_kind(kind: &str) -> (r: bool)
    ensures
        r == content_item_kind_spec(kind@),
{
    let lowered = str_to_ascii_lowercase(kind);
    let k = lowered.as_str();
    str_contains(k, "text") || str_contains(k, "image") || str_contains(k, "audio") || str_contains(k, "encrypted")
}

/// Whether text is an inline image, audio or video data URI.
pub open spec fn media_data_uri_spec(value: Seq<char>) -> bool {
    let v = ascii_lower(trim_start_spec(value));
    starts_with(v, "data:image/"@) || starts_with(v, "data:audio/"@) || starts_with(v, "data:video/"@)
}

/// Whether text, after leading whitespace, opens with an image, audio or
/// video data URI prefix, ignoring ASCII case.
pub fn is_media_data_uri(value: &str) -> (r: bool)
    ensures
        r == media_data_uri_spec(value@),
{
    let lowered = str_to_ascii_lowercase(str_trim_start(value));
    let v = lowered.as_str();
    str_starts_with(v, "data:image/") || str_starts_with(v, "data:audio/") || str_starts_with(v, "data:video/")
}

/// The extended grapheme clusters of a text, as `unicode_segmentation` splits it.
pub uninterp spec fn grapheme_clusters(text: Seq<char>) -> Seq<Seq<char>>;

/// Pieces of text put back together.
pub open spec fn concat(pieces: Seq<Seq<char>>) -> Seq<char>
    decreases pieces.len(),
{
    if pieces.len() == 0 {
        Seq::empty()
    } else {
        concat(pieces.drop_last()) + pieces.last()
    }
}

/// Calls `UnicodeSegmentation::graphemes(value, true)` and collects the
/// clusters; claims they are the named clusters of the text, which are
/// non-empty and, put back together, are the text: the iterator steps from
/// one boundary to the next until it reaches the end.
#[verifier::external_body]
pub(crate) fn graphemes(value: &str) -> (r: Vec<&str>)
    ensures
        r@.map_values(|p: &str| p@) == grapheme_clusters(value@),
        concat(r@.map_values(|p: &str| p@)) == value@,
        forall|i: int| 0 <= i < r@.len() ==> (#[trigger] r@[i])@.len() > 0,
{
    value.graphemes(true).collect()
}

proof fn lemma_concat_prefix(cs: Seq<Seq<char>>, i: int)
    requires
        0 <= i <= cs.len(),
    ensures
        concat(cs.take(i)).len() <= concat(cs).len(),
        concat(cs).take(concat(cs.take(i)).len() as int) == concat(cs.take(i)),
    decreases cs.len(),
{
    if i == cs.len() {
        assert(cs.take(i) =~= cs);
        assert(concat(cs).take(concat(cs).len() as int) =~= concat(cs));
    } else {
        lemma_concat_prefix(cs.drop_last(), i);
        assert(cs.drop_last().take(i) =~= cs.take(i));
        let a = concat(cs.drop_last());
        let k = concat(cs.take(i)).len() as int;
        assert((a + cs.last()).take(k) =~= a.take(k));
    }
}

/// The first `max` grapheme clusters of a text: a prefix of it, and all of
/// it when it has no more than `max` clusters.
pub fn truncate_graphemes(value: &str, max: usize) -> (r: String)
    ensures
        r@ == concat(grapheme_clusters(value@).take(
            if max < grapheme_clusters(value@).len() { max as int } else { grapheme_clusters(value@).len() as int },
        )),
        r@.len() <= value@.len(),
        value@.take(r@.len() as int) == r@,
        grapheme_clusters(value@).len() <= max ==> r@ == value@,
{
    let clusters = graphemes(value);
    let ghost cs = clusters@.map_values(|p: &str| p@);
    let n = if max < clusters.len() { max } else { clusters.len() };
    let mut out = String::new();
    let mut i: usize = 0;
    while i < n
        invariant
            i <= n,
            n <= clusters@.len(),
            cs == clusters@.map_values(|p: &str| p@),
            out@ == concat(cs.take(i as int)),
        decreases n - i,
    {
        string_push_str(&mut out, clusters[i]);
        proof {
            assert(cs.take(i + 1).drop_last() =~= cs.take(i as int));
            assert(cs[i as int] == clusters@[i as int]@);
        }
        i = i + 1;
    }
    proof {
        lemma_concat_prefix(cs, n as int);
        if n == clusters@.len() {
            assert(cs.take(n as int) =~= cs);
        }
    }
    out
}

/// Pieces joined with `sep` between them.
pub open spec fn join_spec(parts: Seq<Seq<char>>, sep: Seq<char>) -> Seq<char>
    decreases parts.len(),
{
    if parts.len() == 0 {
        Seq::empty()
    } else if parts.len() == 1 {
        parts[0]
    } else {
        join_spec(parts.drop_last(), sep) + sep + parts.last()
    }
}

/// Joins pieces with `sep` between them.
pub fn join_with(parts: &Vec<String>, sep: &str) -> (r: String)
    ensures
        r@ == join_spec(parts@.map_values(|p: String| p@), sep@),
{
    let ghost ps = parts@.map_values(|p: String| p@);
    let mut out = String::new();
    let mut i: usize = 0;
    while i < parts.len()
        invariant
            i <= parts@.len(),
            ps == parts@.map_values(|p: String| p@),
            out@ == join_spec(ps.take(i as int), sep@),
        decreases parts@.len() - i,
    {
        if i > 0 {
            string_push_str(&mut out, sep);
        }
        string_push_str(&mut out, parts[i].as_str());
        proof {
            assert(ps.take(i + 1).drop_last() =~= ps.take(i as int));
            assert(ps[i as int] == parts@[i as int]@);
            if i == 0 {
                assert(join_spec(ps.take(1), sep@) == ps.take(1)[0]);
            }
        }
        i = i + 1;
    }
    assert(ps.take(parts@.len() as int) =~= ps);
    out
}

/// Whether an item's `type` names an image, audio or encrypted payload.
pub open spec fn attachment_item(item: JsonValue) -> bool {
    match str_member(item, "type"@) {
        Some(k) => {
            let l = ascii_lower(k);
            seq_contains_seq(l, "image"@) || seq_contains_seq(l, "audio"@) || seq_contains_seq(l, "encrypted"@)
        },
        None => false,
    }
}

fn is_attachment_item(item: &JsonValue) -> (r: bool)
    ensures
        r == attachment_item(*item),
{
    match item.get("type") {
        Some(v) => match v.as_str() {
            Some(kind) => {
                let lowered = str_to_ascii_lowercase(kind);
                let l = lowered.as_str();
                str_contains(l, "image") || str_contains(l, "audio") || str_contains(l, "encrypted")
            },
            None => false,
        },
        None => false,
    }
}

/// The text of one content item: none for attachments, else its `text`, or
/// the item itself when it is a string.
pub open spec fn item_text(item: JsonValue) -> Option<Seq<char>> {
    if attachment_item(item) {
        None
    } else {
        match str_member(item, "text"@) {
            Some(t) => Some(t),
            None => json_str(item),
        }
    }
}

/// The texts of content items, in order.
pub open spec fn item_texts(items: Seq<JsonValue>) -> Seq<Seq<char>>
    decreases items.len(),
{
    if items.len() == 0 {
        Seq::empty()
    } else {
        let rest = item_texts(items.drop_last());
        match item_text(items.last()) {
            Some(t) => rest.push(t),
            None => rest,
        }
    }
}

/// The text of a value: a string itself, the texts of content items joined
/// by lines, a number as written, a boolean as `true` or `false`.
pub open spec fn value_text_spec(value: Option<JsonValue>) -> Option<Seq<char>> {
    match value {
        Some(JsonValue::String(s)) => Some(s@),
        Some(JsonValue::Array(items)) => {
            let parts = item_texts(items@);
            if parts.len() == 0 { None } else { Some(join_spec(parts, "\n"@)) }
        },
        Some(JsonValue::Number(n)) => Some(n.text@),
        Some(JsonValue::Bool(b)) => Some(if b { "true"@ } else { "false"@ }),
        _ => None,
    }
}

/// An optional reference as an optional value.
pub open spec fn deref_opt(value: Option<&JsonValue>) -> Option<JsonValue> {
    match value {
        Some(v) => Some(*v),
        None => None,
    }
}

/// The text of a value, when it has one.
pub fn value_text(value: Option<&JsonValue>) -> (r: Option<String>)
    ensures
        match value_text_spec(deref_opt(value)) {
            Some(t) => (r matches Some(s) && s@ == t),
            None => r is None,
        },
{
    let v = match value {
        Some(v) => v,
        None => return None,
    };
    match v {
        JsonValue::String(text) => Some(text.clone()),
        JsonValue::Array(items) => {
            let mut parts: Vec<String> = Vec::new();
            let mut i: usize = 0;
            while i < items.len()
                invariant
                    i <= items@.len(),
                    parts@.map_values(|p: String| p@) == item_texts(items@.take(i as int)),
                decreases items@.len() - i,
            {
                let item = &items[i];
                let text = if is_attachment_item(item) {
                    None
                } else {
                    match string_option(item, "text") {
                        Some(t) => Some(t),
                        None => match item.as_str() {
                            Some(t) => Some(t.to_string()),
                            None => None,
                        },
                    }
                };
                proof {
                    assert(items@.take(i + 1).drop_last() =~= items@.take(i as int));
                }
                if let Some(t) = text {
                    parts.push(t);
                    assert(parts@.map_values(|p: String| p@) =~= item_texts(items@.take(i + 1)));
                }
                i = i + 1;
            }
            assert(items@.take(items@.len() as int) =~= items@);
            if parts.len() == 0 {
                None
            } else {
                Some(join_with(&parts, "\n"))
            }
        },
        JsonValue::Number(n) => Some(n.text.clone()),
        JsonValue::Bool(b) => Some(if *b { "true".to_string() } else { "false".to_string() }),
        _ => None,
    }
}

/// The text of the first of `keys` whose value has text; empty when none does.
pub open spec fn string_field_spec(payload: JsonValue, keys: Seq<Seq<char>>) -> Seq<char>
    decreases keys.len(),
{
    if keys.len() == 0 {
        Seq::empty()
    } else {
        match value_text_spec(json_get(payload, keys[0])) {
            Some(t) => t,
            None => string_field_spec(payload, keys.drop_first()),
        }
    }
}

/// The text of the first of `keys` whose value has text.
pub fn string_field(payload: &JsonValue, keys: &[&str]) -> (r: String)
    ensures
        r@ == string_field_spec(*payload, keys@.map_values(|k: &str| k@)),
{
    let ghost ks = keys@.map_values(|k: &str| k@);
    let mut i: usize = 0;
    assert(ks.skip(0) =~= ks);
    while i < keys.len()
        invariant
            i <= keys@.len(),
            ks == keys@.map_values(|k: &str| k@),
            string_field_spec(*payload, ks) == string_field_spec(*payload, ks.skip(i as int)),
        decreases keys@.len() - i,
    {
        proof {
            assert(ks.skip(i as int)[0] == keys@[i as int]@);
            assert(ks.skip(i as int).drop_first() =~= ks.skip(i + 1));
        }
        if let Some(text) = value_text(payload.get(keys[i])) {
            return text;
        }
        i = i + 1;
    }
    assert(ks.skip(keys@.len() as int) =~= Seq::<Seq<char>>::empty());
    String::new()
}

/// The text of a value; empty when it has none.
pub fn content_text(value: Option<&JsonValue>) -> (r: String)
    ensures
        r@ == match value_text_spec(deref_opt(value)) {
            Some(t) => t,
            None => Seq::empty(),
        },
{
    match value_text(value) {
        Some(t) => t,
        None => String::new(),
    }
}

/// The strings of an array joined with `separator`, a string itself, or empty.
pub open spec fn string_array_spec(value: Option<JsonValue>, separator: Seq<char>) -> Seq<char> {
    match value {
        Some(JsonValue::Array(items)) => join_spec(strings_of(items@), separator),
        Some(JsonValue::String(s)) => s@,
        _ => Seq::empty(),
    }
}

/// The strings among values, in order.
pub open spec fn strings_of(items: Seq<JsonValue>) -> Seq<Seq<char>>
    decreases items.len(),
{
    if items.len() == 0 {
        Seq::empty()
    } else {
        let rest = strings_of(items.drop_last());
        match json_str(items.last()) {
            Some(t) => rest.push(t),
            None => rest,
        }
    }
}

/// The strings of an array joined with `separator`, a string itself, or empty.
pub fn string_array(value: Option<&JsonValue>, separator: &str) -> (r: String)
    ensures
        r@ == string_array_spec(deref_opt(value), separator@),
{
    match value {
        Some(JsonValue::Array(items)) => {
            let mut parts: Vec<String> = Vec::new();
            let mut i: usize = 0;
            while i < items.len()
                invariant
                    i <= items@.len(),
                    parts@.map_values(|p: String| p@) == strings_of(items@.take(i as int)),
                decreases items@.len() - i,
            {
                proof {
                    assert(items@.take(i + 1).drop_last() =~= items@.take(i as int));
                }
                if let Some(t) = items[i].as_str() {
                    parts.push(t.to_string());
                    assert(parts@.map_values(|p: String| p@) =~= strings_of(items@.take(i + 1)));
                }
                i = i + 1;
            }
            assert(items@.take(items@.len() as int) =~= items@);
            join_with(&parts, separator)
        },
        Some(JsonValue::String(s)) => s.clone(),
        _ => String::new(),
    }
}

/// The counts of image and audio items among content items, by their `type`.
pub open spec fn content_counts(items: Seq<JsonValue>) -> (nat, nat)
    decreases items.len(),
{
    if items.len() == 0 {
        (0, 0)
    } else {
        let rest = content_counts(items.drop_last());
        let kind = ascii_lower(match str_member(items.last(), "type"@) {
            Some(k) => k,
            None => Seq::empty(),
        });
        if seq_contains_seq(kind, "image"@) {
            (rest.0 + 1, rest.1)
        } else if seq_contains_seq(kind, "audio"@) {
            (rest.0, rest.1 + 1)
        } else {
            rest
        }
    }
}

/// The counts of image and audio items among content items.
pub fn content_attachment_counts(items: &[JsonValue]) -> (r: (usize, usize))
    ensures
        r.0 == content_counts(items@).0 && r.1 == content_counts(items@).1,
{
    let mut images: usize = 0;
    let mut audio: usize = 0;
    let mut i: usize = 0;
    while i < items.len()
        invariant
            i <= items@.len(),
            images == content_counts(items@.take(i as int)).0,
            audio == content_counts(items@.take(i as int)).1,
            images + audio <= i,
        decreases items@.len() - i,
    {
        proof {
            assert(items@.take(i + 1).drop_last() =~= items@.take(i as int));
            reveal_strlit("");
        }
        let named: &str = match items[i].get("type") {
            Some(v) => match v.as_str() {
                Some(s) => s,
                None => "",
            },
            None => "",
        };
        assert(named@ == match str_member(items@.take(i + 1).last(), "type"@) {
            Some(k) => k,
            None => Seq::<char>::empty(),
        });
        let lowered = str_to_ascii_lowercase(named);
        if str_contains(lowered.as_str(), "image") {
            images = images + 1;
        } else if str_contains(lowered.as_str(), "audio") {
            audio = audio + 1;
        }
        i = i + 1;
    }
    assert(items@.take(items@.len() as int) =~= items@);
    (images, audio)
}

/// The text one user-input item contributes: its text, or a marker for a
/// skill or a mention.
pub open spec fn input_item_text(item: JsonValue) -> Option<Seq<char>> {
    let kind = match str_member(item, "type"@) {
        Some(k) => k,
        None => Seq::empty(),
    };
    if kind == "text"@ || kind == "input_text"@ {
        str_member(item, "text"@)
    } else if kind == "skill"@ {
        match str_member(item, "name"@) {
            Some(n) => Some("[skill: "@ + n + "]"@),
            None => None,
        }
    } else if kind == "mention"@ {
        match str_member(item, "name"@) {
            Some(n) => Some("[mention: "@ + n + "]"@),
            None => None,
        }
    } else {
        None
    }
}

/// The texts user-input items contribute, in order.
pub open spec fn input_texts(items: Seq<JsonValue>) -> Seq<Seq<char>>
    decreases items.len(),
{
    if items.len() == 0 {
        Seq::empty()
    } else {
        let rest = input_texts(items.drop_last());
        match input_item_text(items.last()) {
            Some(t) => rest.push(t),
            None => rest,
        }
    }
}

/// The text of a user's input: the texts of its items joined by lines, or
/// the text of the value when it is not a list.
pub open spec fn user_input_text_spec(value: Option<JsonValue>) -> Seq<char> {
    match value {
        Some(JsonValue::Array(items)) => join_spec(input_texts(items@), "\n"@),
        _ => match value_text_spec(value) {
            Some(t) => t,
            None => Seq::empty(),
        },
    }
}

fn marker(open: &str, name: &str) -> (r: String)
    ensures
        r@ == open@ + name@ + "]"@,
{
    let mut out = String::new();
    string_push_str(&mut out, open);
    string_push_str(&mut out, name);
    string_push_str(&mut out, "]");
    out
}

/// The text of a user's input.
pub fn user_input_text(value: Option<&JsonValue>) -> (r: String)
    ensures
        r@ == user_input_text_spec(deref_opt(value)),
{
    let items = match value {
        Some(JsonValue::Array(items)) => items,
        _ => return content_text(value),
    };
    let mut parts: Vec<String> = Vec::new();
    let mut i: usize = 0;
    while i < items.len()
        invariant
            i <= items@.len(),
            parts@.map_values(|p: String| p@) == input_texts(items@.take(i as int)),
        decreases items@.len() - i,
    {
        proof {
            assert(items@.take(i + 1).drop_last() =~= items@.take(i as int));
            reveal_strlit("");
        }
        let item = &items[i];
        let kind: &str = match item.get("type") {
            Some(v) => match v.as_str() {
                Some(k) => k,
                None => "",
            },
            None => "",
        };
        assert(kind@ == match str_member(items@.take(i + 1).last(), "type"@) {
            Some(k) => k,
            None => Seq::<char>::empty(),
        });
        let text = if str_eq(kind, "text") || str_eq(kind, "input_text") {
            string_option(item, "text")
        } else if str_eq(kind, "skill") {
            match item.get("name") {
                Some(v) => match v.as_str() {
                    Some(n) => Some(marker("[skill: ", n)),
                    None => None,
                },
                None => None,
            }
        } else if str_eq(kind, "mention") {
            match item.get("name") {
                Some(v) => match v.as_str() {
                    Some(n) => Some(marker("[mention: ", n)),
                    None => None,
                },
                None => None,
            }
        } else {
            None
        };
        if let Some(t) = text {
            parts.push(t);
            assert(parts@.map_values(|p: String| p@) =~= input_texts(items@.take(i + 1)));
        }
        i = i + 1;
    }
    assert(items@.take(items@.len() as int) =~= items@);
    join_with(&parts, "\n")
}

/// The steps of a plan's items, in order.
pub open spec fn steps_of(items: Seq<JsonValue>) -> Seq<Seq<char>>
    decreases items.len(),
{
    if items.len() == 0 {
        Seq::empty()
    } else {
        let rest = steps_of(items.drop_last());
        match str_member(items.last(), "step"@) {
            Some(t) => rest.push(t),
            None => rest,
        }
    }
}

/// The text of a plan update: its steps joined by lines, else its message
/// or delta.
pub open spec fn plan_text_spec(payload: JsonValue) -> Seq<char> {
    let fallback = string_field_spec(payload, seq!["message"@, "delta"@]);
    match json_get(payload, "plan"@) {
        Some(JsonValue::Array(items)) => {
            let t = join_spec(steps_of(items@), "\n"@);
            if t.len() > 0 { t } else { fallback }
        },
        _ => fallback,
    }
}

/// The text of a plan update.
pub fn plan_text(payload: &JsonValue) -> (r: String)
    ensures
        r@ == plan_text_spec(*payload),
{
    let keys: [&str; 2] = ["message", "delta"];
    assert(keys@.map_values(|k: &str| k@) =~= seq!["message"@, "delta"@]);
    if let Some(JsonValue::Array(items)) = payload.get("plan") {
        let mut parts: Vec<String> = Vec::new();
        let mut i: usize = 0;
        while i < items.len()
            invariant
                i <= items@.len(),
                parts@.map_values(|p: String| p@) == steps_of(items@.take(i as int)),
            decreases items@.len() - i,
        {
            proof {
                assert(items@.take(i + 1).drop_last() =~= items@.take(i as int));
            }
            if let Some(step) = string_option(&items[i], "step") {
                parts.push(step);
                assert(parts@.map_values(|p: String| p@) =~= steps_of(items@.take(i + 1)));
            }
            i = i + 1;
        }
        assert(items@.take(items@.len() as int) =~= items@);
        let text = join_with(&parts, "\n");
        if !text.as_str().is_empty() {
            return text;
        }
    }
    string_field(payload, keys.as_slice())
}

/// Whether a value is present and not `null`.
pub open spec fn present(value: Option<JsonValue>) -> bool {
    value matches Some(v) && !(v is Null)
}

/// The encrypted content of a value, under either spelling.
pub open spec fn encrypted_member(value: JsonValue) -> Option<JsonValue> {
    match json_get(value, "encrypted_content"@) {
        Some(v) => Some(v),
        None => json_get(value, "encryptedContent"@),
    }
}

/// Whether a content item is or carries encrypted content.
pub open spec fn item_encrypted(item: JsonValue) -> bool {
    (str_member(item, "type"@) matches Some(k) && seq_contains_seq(ascii_lower(k), "encrypted"@))
        || present(encrypted_member(item))
}

/// Whether the list under `key` holds an encrypted item.
pub open spec fn list_encrypted(payload: JsonValue, key: Seq<char>) -> bool {
    json_get(payload, key) matches Some(JsonValue::Array(items))
        && exists|i: int| 0 <= i < items@.len() && item_encrypted(#[trigger] items@[i])
}

/// Whether a payload has encrypted content of its own or in its content lists.
pub open spec fn has_encrypted_spec(payload: JsonValue) -> bool {
    present(encrypted_member(payload)) || list_encrypted(payload, "content"@)
        || list_encrypted(payload, "content_items"@) || list_encrypted(payload, "contentItems"@)
}

fn encrypted_of(value: &JsonValue) -> (r: Option<&JsonValue>)
    ensures
        match encrypted_member(*value) {
            Some(m) => (r matches Some(x) && *x == m),
            None => r is None,
        },
{
    match value.get("encrypted_content") {
        Some(v) => Some(v),
        None => value.get("encryptedContent"),
    }
}

fn is_item_encrypted(item: &JsonValue) -> (r: bool)
    ensures
        r == item_encrypted(*item),
{
    let typed = match item.get("type") {
        Some(v) => match v.as_str() {
            Some(k) => {
                let lowered = str_to_ascii_lowercase(k);
                str_contains(lowered.as_str(), "encrypted")
            },
            None => false,
        },
        None => false,
    };
    typed || match encrypted_of(item) {
        Some(v) => !v.is_null(),
        None => false,
    }
}

fn is_list_encrypted(payload: &JsonValue, key: &str) -> (r: bool)
    ensures
        r == list_encrypted(*payload, key@),
{
    if let Some(JsonValue::Array(items)) = payload.get(key) {
        let mut i: usize = 0;
        while i < items.len()
            invariant
                i <= items@.len(),
                json_get(*payload, key@) == Some(JsonValue::Array(*items)),
                forall|j: int| 0 <= j < i ==> !item_encrypted(#[trigger] items@[j]),
            decreases items@.len() - i,
        {
            if is_item_encrypted(&items[i]) {
                assert(item_encrypted(items@[i as int]));
                assert(json_get(*payload, key@) matches Some(JsonValue::Array(v)) && v@ == items@);
                return true;
            }
            i = i + 1;
        }
        false
    } else {
        false
    }
}

/// Whether a payload has encrypted content of its own or in its content lists.
pub fn has_encrypted_content(payload: &JsonValue) -> (r: bool)
    ensures
        r == has_encrypted_spec(*payload),
{
    let own = match encrypted_of(payload) {
        Some(v) => !v.is_null(),
        None => false,
    };
    own || is_list_encrypted(payload, "content") || is_list_encrypted(payload, "content_items")
        || is_list_encrypted(payload, "contentItems")
}

} // verus!
