//! How payload values are shown in entries: display text, inline media and
//! encrypted data hidden, and the attachments a payload carries.

use vstd::prelude::*;

use crate::rollout::content::{
    attachment_item, content_attachment_counts, content_counts, content_item_kind_spec,
    is_content_item_kind, is_media_data_uri, join_spec, join_with, media_data_uri_spec, string_array,
    string_array_spec, strings_of, value_text, value_text_spec,
};
use crate::rollout::json::{json_get, json_str, json_view, members_get, str_member, JsonData, JsonNumber, JsonValue};
use crate::rollout::pretty::{json_pretty_text, pretty_json};
use crate::text::{str_eq, u64_to_string, decimal_text, string_push, string_push_str};

verus! {

/// The value found for a name is one of the object's members.
pub proof fn lemma_members_get_at(ms: Seq<(String, JsonValue)>, key: Seq<char>)
    ensures
        members_get(ms, key) matches Some(m) ==> exists|j: int| 0 <= j < ms.len() && (#[trigger] ms[j]).1 == m,
    decreases ms.len(),
{
    if ms.len() > 0 && ms[0].0@ != key {
        lemma_members_get_at(ms.drop_first(), key);
        if members_get(ms, key) is Some {
            let j = choose|j: int| 0 <= j < ms.drop_first().len() && (#[trigger] ms.drop_first()[j]).1
                == members_get(ms, key)->0;
            assert(ms[j + 1] == ms.drop_first()[j]);
        }
    } else if ms.len() > 0 {
        assert(ms[0].1 == members_get(ms, key)->0);
    }
}

/// A member of an object is nested inside it.
pub proof fn lemma_member_within(v: JsonValue, key: Seq<char>)
    ensures
        json_get(v, key) matches Some(m) ==> decreases_to!(v => m),
{
    if let JsonValue::Object(members) = v {
        lemma_members_get_at(members@, key);
        if json_get(v, key) is Some {
            let m = json_get(v, key)->0;
            let j = choose|j: int| 0 <= j < members@.len() && (#[trigger] members@[j]).1 == m;
            assert(decreases_to!(v => v->Object_0));
            assert(decreases_to!(members => members@));
            assert(decreases_to!(members@ => members@[j]));
            assert(decreases_to!(members@[j] => members@[j].1));
        }
    }
}

/// Whether a member name is hidden from display: inline media URLs and
/// encrypted content always, raw data fields of an attachment item too.
pub open spec fn hidden_key(key: Seq<char>, attachment: bool) -> bool {
    key == "image_url"@ || key == "imageUrl"@ || key == "audio_url"@ || key == "audioUrl"@
        || key == "encrypted_content"@ || key == "encryptedContent"@ || (attachment && (key == "data"@
        || key == "blob"@ || key == "base64"@ || key == "b64_json"@))
}

/// A value with its hidden members removed at every depth.
pub open spec fn sanitized(v: JsonValue) -> JsonData
    decreases v,
{
    match v {
        JsonValue::Array(items) => JsonData::Array(sanitized_items(items@)),
        JsonValue::Object(members) => JsonData::Object(sanitized_members(members@, attachment_item(v))),
        _ => json_view(v),
    }
}

/// Items with their hidden members removed.
pub open spec fn sanitized_items(items: Seq<JsonValue>) -> Seq<JsonData>
    decreases items,
{
    if items.len() == 0 {
        Seq::empty()
    } else {
        sanitized_items(items.subrange(0, items.len() - 1)).push(sanitized(items[items.len() - 1]))
    }
}

/// Members without the hidden ones, the rest with their hidden members removed.
pub open spec fn sanitized_members(ms: Seq<(String, JsonValue)>, attachment: bool) -> Seq<(Seq<char>, JsonData)>
    decreases ms,
{
    if ms.len() == 0 {
        Seq::empty()
    } else {
        let rest = sanitized_members(ms.subrange(0, ms.len() - 1), attachment);
        let last = ms[ms.len() - 1];
        if hidden_key(last.0@, attachment) {
            rest
        } else {
            rest.push((last.0@, sanitized(last.1)))
        }
    }
}

fn is_hidden_key(key: &str, attachment: bool) -> (r: bool)
    ensures
        r == hidden_key(key@, attachment),
{
    str_eq(key, "image_url") || str_eq(key, "imageUrl") || str_eq(key, "audio_url") || str_eq(key, "audioUrl")
        || str_eq(key, "encrypted_content") || str_eq(key, "encryptedContent") || (attachment && (str_eq(
        key,
        "data",
    ) || str_eq(key, "blob") || str_eq(key, "base64") || str_eq(key, "b64_json")))
}

fn is_attachment_payload(v: &JsonValue) -> (r: bool)
    ensures
        r == attachment_item(*v),
{
    match v.get("type") {
        Some(t) => match t.as_str() {
            Some(kind) => {
                let lowered = crate::text::str_to_ascii_lowercase(kind);
                let l = lowered.as_str();
                crate::text::str_contains(l, "image") || crate::text::str_contains(l, "audio")
                    || crate::text::str_contains(l, "encrypted")
            },
            None => false,
        },
        None => false,
    }
}

/// A value with inline media URLs and encrypted content removed at every
/// depth, and the raw data of attachment items too.
pub fn sanitize_for_display(v: &JsonValue) -> (r: JsonValue)
    ensures
        json_view(r) == sanitized(*v),
    decreases v,
{
    match v {
        JsonValue::Array(items) => {
            let mut out: Vec<JsonValue> = Vec::new();
            let mut i: usize = 0;
            while i < items.len()
                invariant
                    i <= items@.len(),
                    *v == JsonValue::Array(*items),
                    crate::rollout::json::items_view(out@) == sanitized_items(items@.take(i as int)),
                decreases items@.len() - i,
            {
                proof {
                    assert(decreases_to!(*v => (*v)->Array_0));
                    assert(decreases_to!(*items => items@));
                    assert(decreases_to!(items@ => items@[i as int]));
                }
                let x = sanitize_for_display(&items[i]);
                let ghost prev = out@;
                out.push(x);
                proof {
                    assert(out@.subrange(0, out@.len() - 1) =~= prev);
                    let t = items@.take(i + 1);
                    assert(t.subrange(0, t.len() - 1) =~= items@.take(i as int));
                }
                i = i + 1;
            }
            assert(items@.take(items@.len() as int) =~= items@);
            JsonValue::Array(out)
        },
        JsonValue::Object(members) => {
            let attachment = is_attachment_payload(v);
            let mut out: Vec<(String, JsonValue)> = Vec::new();
            let mut i: usize = 0;
            while i < members.len()
                invariant
                    i <= members@.len(),
                    *v == JsonValue::Object(*members),
                    attachment == attachment_item(*v),
                    crate::rollout::json::members_view(out@) == sanitized_members(members@.take(i as int), attachment),
                decreases members@.len() - i,
            {
                proof {
                    assert(decreases_to!(*v => (*v)->Object_0));
                    assert(decreases_to!(*members => members@));
                    assert(decreases_to!(members@ => members@[i as int]));
                    assert(decreases_to!(members@[i as int] => members@[i as int].1));
                    let t = members@.take(i + 1);
                    assert(t.subrange(0, t.len() - 1) =~= members@.take(i as int));
                }
                if !is_hidden_key(members[i].0.as_str(), attachment) {
                    let x = sanitize_for_display(&members[i].1);
                    let ghost prev = out@;
                    out.push((members[i].0.clone(), x));
                    proof {
                        assert(out@.subrange(0, out@.len() - 1) =~= prev);
                    }
                }
                i = i + 1;
            }
            assert(members@.take(members@.len() as int) =~= members@);
            JsonValue::Object(out)
        },
        _ => v.duplicate(),
    }
}

/// The display form of a value with hidden members removed; nothing when
/// that is `null`.
pub open spec fn pretty_sanitized_spec(v: JsonValue) -> Option<Seq<char>> {
    if sanitized(v) is Null {
        None
    } else {
        json_pretty_text(sanitized(v))
    }
}

/// The display form of a value with hidden members removed.
pub fn pretty_sanitized(v: &JsonValue) -> (r: Option<String>)
    ensures
        match pretty_sanitized_spec(*v) {
            Some(t) => (r matches Some(s) && s@ == t),
            None => r is None,
        },
{
    let s = sanitize_for_display(v);
    if s.is_null() {
        None
    } else {
        pretty_json(&s)
    }
}

/// The display form of an optional value: empty when absent or `null`.
pub open spec fn pretty_value_spec(value: Option<JsonValue>) -> Seq<char> {
    match value {
        Some(v) => if v is Null {
            Seq::empty()
        } else {
            match json_pretty_text(json_view(v)) {
                Some(t) => t,
                None => Seq::empty(),
            }
        },
        None => Seq::empty(),
    }
}

/// The display form of an optional value: empty when absent or `null`.
pub fn pretty_value(value: Option<&JsonValue>) -> (r: String)
    ensures
        r@ == pretty_value_spec(crate::rollout::content::deref_opt(value)),
{
    match value {
        Some(v) => if v.is_null() {
            String::new()
        } else {
            match pretty_json(v) {
                Some(t) => t,
                None => String::new(),
            }
        },
        None => String::new(),
    }
}

/// The first of `content`, `content_items` and `contentItems` present.
pub open spec fn content_member(v: JsonValue) -> Option<JsonValue> {
    match json_get(v, "content"@) {
        Some(c) => Some(c),
        None => match json_get(v, "content_items"@) {
            Some(c) => Some(c),
            None => json_get(v, "contentItems"@),
        },
    }
}

/// Whether an item's `type` names content (text, image, audio, encrypted).
pub open spec fn typed_content_item(item: JsonValue) -> bool {
    str_member(item, "type"@) matches Some(k) && content_item_kind_spec(k)
}

/// The text a value is shown with: nothing for `null` and media data URIs;
/// strings, numbers and booleans as written; content lists by their text;
/// lists of strings one per line; an object by its content or message;
/// anything else in its display form with hidden members removed.
pub open spec fn display_spec(v: JsonValue) -> Option<Seq<char>>
    decreases v,
{
    match v {
        JsonValue::Null => None,
        JsonValue::String(t) => if media_data_uri_spec(t@) {
            None
        } else {
            Some(t@)
        },
        JsonValue::Number(n) => Some(n.text@),
        JsonValue::Bool(b) => Some(if b { "true"@ } else { "false"@ }),
        JsonValue::Array(items) => if exists|i: int| 0 <= i < items@.len() && typed_content_item(#[trigger] items@[i]) {
            value_text_spec(Some(v))
        } else if forall|i: int| 0 <= i < items@.len() ==> (#[trigger] items@[i]) is String {
            Some(join_spec(strings_of(items@), "\n"@))
        } else {
            pretty_sanitized_spec(v)
        },
        JsonValue::Object(_) => match content_member(v) {
            Some(c) => {
                proof {
                    lemma_member_within(v, "content"@);
                    lemma_member_within(v, "content_items"@);
                    lemma_member_within(v, "contentItems"@);
                }
                let t = match display_spec(c) {
                    Some(t) => t,
                    None => Seq::empty(),
                };
                if t.len() == 0 {
                    None
                } else {
                    Some(t)
                }
            },
            None => match str_member(v, "message"@) {
                Some(m) => Some(m),
                None => pretty_sanitized_spec(v),
            },
        },
    }
}

/// The text an optional value is shown with; empty when it has none.
pub open spec fn output_spec(value: Option<JsonValue>) -> Seq<char> {
    match value {
        Some(v) => match display_spec(v) {
            Some(t) => t,
            None => Seq::empty(),
        },
        None => Seq::empty(),
    }
}

fn has_typed_content(items: &Vec<JsonValue>) -> (r: bool)
    ensures
        r == exists|i: int| 0 <= i < items@.len() && typed_content_item(#[trigger] items@[i]),
{
    let mut i: usize = 0;
    while i < items.len()
        invariant
            i <= items@.len(),
            forall|j: int| 0 <= j < i ==> !typed_content_item(#[trigger] items@[j]),
        decreases items@.len() - i,
    {
        let typed = match items[i].get("type") {
            Some(t) => match t.as_str() {
                Some(k) => is_content_item_kind(k),
                None => false,
            },
            None => false,
        };
        if typed {
            assert(typed_content_item(items@[i as int]));
            return true;
        }
        i = i + 1;
    }
    false
}

fn all_strings(items: &Vec<JsonValue>) -> (r: bool)
    ensures
        r == forall|i: int| 0 <= i < items@.len() ==> (#[trigger] items@[i]) is String,
{
    let mut i: usize = 0;
    while i < items.len()
        invariant
            i <= items@.len(),
            forall|j: int| 0 <= j < i ==> (#[trigger] items@[j]) is String,
        decreases items@.len() - i,
    {
        match &items[i] {
            JsonValue::String(_) => {},
            _ => {
                assert(!(items@[i as int] is String));
                return false;
            },
        }
        i = i + 1;
    }
    true
}

/// The text a value is shown with, when it has one.
pub fn display_value(v: &JsonValue) -> (r: Option<String>)
    ensures
        match display_spec(*v) {
            Some(t) => (r matches Some(s) && s@ == t),
            None => r is None,
        },
    decreases v,
{
    match v {
        JsonValue::Null => None,
        JsonValue::String(text) => if is_media_data_uri(text.as_str()) {
            None
        } else {
            Some(text.clone())
        },
        JsonValue::Number(n) => Some(n.text.clone()),
        JsonValue::Bool(b) => Some(if *b { "true".to_string() } else { "false".to_string() }),
        JsonValue::Array(items) => {
            if has_typed_content(items) {
                value_text(Some(v))
            } else if all_strings(items) {
                Some(string_array(Some(v), "\n"))
            } else {
                pretty_sanitized(v)
            }
        },
        JsonValue::Object(_) => {
            let content = match v.get("content") {
                Some(c) => Some(c),
                None => match v.get("content_items") {
                    Some(c) => Some(c),
                    None => v.get("contentItems"),
                },
            };
            match content {
                Some(c) => {
                    proof {
                        lemma_member_within(*v, "content"@);
                        lemma_member_within(*v, "content_items"@);
                        lemma_member_within(*v, "contentItems"@);
                    }
                    let text = match display_value(c) {
                        Some(t) => t,
                        None => String::new(),
                    };
                    if text.as_str().is_empty() {
                        None
                    } else {
                        Some(text)
                    }
                },
                None => match v.get("message") {
                    Some(m) => match m.as_str() {
                        Some(s) => Some(s.to_string()),
                        None => pretty_sanitized(v),
                    },
                    None => pretty_sanitized(v),
                },
            }
        },
    }
}

/// The text an optional value is shown with; empty when it has none.
pub fn output_text(value: Option<&JsonValue>) -> (r: String)
    ensures
        r@ == output_spec(crate::rollout::content::deref_opt(value)),
{
    match value {
        Some(v) => match display_value(v) {
            Some(t) => t,
            None => String::new(),
        },
        None => String::new(),
    }
}

/// The non-empty display texts of the members named `keys`, in key order.
pub open spec fn joined_parts(payload: JsonValue, keys: Seq<Seq<char>>) -> Seq<Seq<char>>
    decreases keys.len(),
{
    if keys.len() == 0 {
        Seq::empty()
    } else {
        let rest = joined_parts(payload, keys.drop_last());
        match json_get(payload, keys.last()) {
            Some(m) => match display_spec(m) {
                Some(t) => if t.len() > 0 {
                    rest.push(t)
                } else {
                    rest
                },
                None => rest,
            },
            None => rest,
        }
    }
}

/// The display texts of the members named `keys`, one per line.
pub fn joined_fields(payload: &JsonValue, keys: &[&str]) -> (r: String)
    ensures
        r@ == join_spec(joined_parts(*payload, keys@.map_values(|k: &str| k@)), "\n"@),
{
    let ghost ks = keys@.map_values(|k: &str| k@);
    let mut parts: Vec<String> = Vec::new();
    let mut i: usize = 0;
    while i < keys.len()
        invariant
            i <= keys@.len(),
            ks == keys@.map_values(|k: &str| k@),
            parts@.map_values(|p: String| p@) == joined_parts(*payload, ks.take(i as int)),
        decreases keys@.len() - i,
    {
        proof {
            assert(ks.take(i + 1).drop_last() =~= ks.take(i as int));
            assert(ks.take(i + 1).last() == keys@[i as int]@);
        }
        if let Some(m) = payload.get(keys[i]) {
            if let Some(t) = display_value(m) {
                if !t.as_str().is_empty() {
                    parts.push(t);
                    assert(parts@.map_values(|p: String| p@) =~= joined_parts(*payload, ks.take(i + 1)));
                }
            }
        }
        i = i + 1;
    }
    assert(ks.take(keys@.len() as int) =~= ks);
    join_with(&parts, "\n")
}

/// A count held in a `usize`: the count itself, or `usize::MAX` past it.
pub open spec fn clamp_count(n: int) -> usize {
    if n > usize::MAX { usize::MAX } else { n as usize }
}

/// The length of a list value; 0 for anything else.
pub open spec fn list_len(value: Option<JsonValue>) -> nat {
    match value {
        Some(JsonValue::Array(items)) => items@.len(),
        _ => 0,
    }
}

/// The image and audio items of the content list under `key`.
pub open spec fn listed_counts(payload: JsonValue, key: Seq<char>) -> (nat, nat) {
    match json_get(payload, key) {
        Some(JsonValue::Array(items)) => content_counts(items@),
        _ => (0, 0),
    }
}

/// The attachments of the result under `key`: those of its items when it
/// is a list, those it carries when it is an object.
pub open spec fn nested_counts(payload: JsonValue, key: Seq<char>) -> (nat, nat)
    decreases payload, 0nat,
{
    match json_get(payload, key) {
        Some(JsonValue::Array(items)) => content_counts(items@),
        Some(m) => if m is Object {
            proof {
                lemma_member_within(payload, key);
            }
            attachment_counts_spec(m)
        } else {
            (0, 0)
        },
        None => (0, 0),
    }
}

/// The images and audio clips a payload carries: the lengths of its image
/// and audio lists, the media items of its content lists, and those of its
/// output or result.
pub open spec fn attachment_counts_spec(payload: JsonValue) -> (nat, nat)
    decreases payload, 1nat,
{
    let images = list_len(json_get(payload, "images"@)) + list_len(json_get(payload, "local_images"@))
        + list_len(json_get(payload, "localImages"@));
    let audio = list_len(json_get(payload, "audio"@)) + list_len(json_get(payload, "local_audio"@))
        + list_len(json_get(payload, "localAudio"@)) + list_len(json_get(payload, "audios"@))
        + list_len(json_get(payload, "local_audios"@)) + list_len(json_get(payload, "localAudios"@));
    let c1 = listed_counts(payload, "content"@);
    let c2 = listed_counts(payload, "content_items"@);
    let c3 = listed_counts(payload, "contentItems"@);
    let n1 = nested_counts(payload, "output"@);
    let n2 = nested_counts(payload, "result"@);
    let n3 = nested_counts(payload, "Ok"@);
    let n4 = nested_counts(payload, "ok"@);
    (
        images + c1.0 + c2.0 + c3.0 + n1.0 + n2.0 + n3.0 + n4.0,
        audio + c1.1 + c2.1 + c3.1 + n1.1 + n2.1 + n3.1 + n4.1,
    )
}

/// Adds two clamped counts, saturating.
proof fn lemma_clamp_add(a: int, b: int)
    requires
        a >= 0,
        b >= 0,
    ensures
        clamp_count(a).saturating_add(clamp_count(b)) == clamp_count(a + b),
{
}

fn sum_counts(a: usize, b: usize, Ghost(x): Ghost<int>, Ghost(y): Ghost<int>) -> (r: usize)
    requires
        x >= 0,
        y >= 0,
        a == clamp_count(x),
        b == clamp_count(y),
    ensures
        r == clamp_count(x + y),
{
    proof {
        lemma_clamp_add(x, y);
    }
    a.saturating_add(b)
}

fn list_length(value: Option<&JsonValue>) -> (r: usize)
    ensures
        r == list_len(crate::rollout::content::deref_opt(value)),
{
    match value {
        Some(JsonValue::Array(items)) => items.len(),
        _ => 0,
    }
}

fn listed_attachment_counts(payload: &JsonValue, key: &str) -> (r: (usize, usize))
    ensures
        r.0 == listed_counts(*payload, key@).0,
        r.1 == listed_counts(*payload, key@).1,
{
    match payload.get(key) {
        Some(JsonValue::Array(items)) => content_attachment_counts(items.as_slice()),
        _ => (0, 0),
    }
}

fn nested_attachment_counts(payload: &JsonValue, key: &str) -> (r: (usize, usize))
    ensures
        r.0 == clamp_count(nested_counts(*payload, key@).0 as int),
        r.1 == clamp_count(nested_counts(*payload, key@).1 as int),
    decreases payload, 0nat,
{
    match payload.get(key) {
        Some(JsonValue::Array(items)) => content_attachment_counts(items.as_slice()),
        Some(m) => if m.is_object() {
            proof {
                lemma_member_within(*payload, key@);
            }
            attachment_counts(m)
        } else {
            (0, 0)
        },
        None => (0, 0),
    }
}

/// The images and audio clips a payload carries, each count saturating at
/// `usize::MAX`.
pub fn attachment_counts(payload: &JsonValue) -> (r: (usize, usize))
    ensures
        r.0 == clamp_count(attachment_counts_spec(*payload).0 as int),
        r.1 == clamp_count(attachment_counts_spec(*payload).1 as int),
    decreases payload, 1nat,
{
    let ghost sp = attachment_counts_spec(*payload);
    let i1 = list_length(payload.get("images"));
    let i2 = list_length(payload.get("local_images"));
    let i3 = list_length(payload.get("localImages"));
    let a1 = list_length(payload.get("audio"));
    let a2 = list_length(payload.get("local_audio"));
    let a3 = list_length(payload.get("localAudio"));
    let a4 = list_length(payload.get("audios"));
    let a5 = list_length(payload.get("local_audios"));
    let a6 = list_length(payload.get("localAudios"));
    let c1 = listed_attachment_counts(payload, "content");
    let c2 = listed_attachment_counts(payload, "content_items");
    let c3 = listed_attachment_counts(payload, "contentItems");
    let n1 = nested_attachment_counts(payload, "output");
    let n2 = nested_attachment_counts(payload, "result");
    let n3 = nested_attachment_counts(payload, "Ok");
    let n4 = nested_attachment_counts(payload, "ok");
    let ghost gi1: int = i1 as int;
    let ghost gi2 = i2 as int;
    let ghost gi3 = i3 as int;
    let mut images = sum_counts(i1, i2, Ghost(gi1), Ghost(gi2));
    images = sum_counts(images, i3, Ghost(gi1 + gi2), Ghost(gi3));
    let ghost g = gi1 + gi2 + gi3;
    images = sum_counts(images, c1.0, Ghost(g), Ghost(c1.0 as int));
    let ghost g = g + c1.0;
    images = sum_counts(images, c2.0, Ghost(g), Ghost(c2.0 as int));
    let ghost g = g + c2.0;
    images = sum_counts(images, c3.0, Ghost(g), Ghost(c3.0 as int));
    let ghost g = g + c3.0;
    images = sum_counts(images, n1.0, Ghost(g), Ghost(nested_counts(*payload, "output"@).0 as int));
    let ghost g = g + nested_counts(*payload, "output"@).0 as int;
    images = sum_counts(images, n2.0, Ghost(g), Ghost(nested_counts(*payload, "result"@).0 as int));
    let ghost g = g + nested_counts(*payload, "result"@).0 as int;
    images = sum_counts(images, n3.0, Ghost(g), Ghost(nested_counts(*payload, "Ok"@).0 as int));
    let ghost g = g + nested_counts(*payload, "Ok"@).0 as int;
    images = sum_counts(images, n4.0, Ghost(g), Ghost(nested_counts(*payload, "ok"@).0 as int));
    let ghost ga1 = a1 as int;
    let mut audio = sum_counts(a1, a2, Ghost(ga1), Ghost(a2 as int));
    let ghost h = ga1 + a2;
    audio = sum_counts(audio, a3, Ghost(h), Ghost(a3 as int));
    let ghost h = h + a3;
    audio = sum_counts(audio, a4, Ghost(h), Ghost(a4 as int));
    let ghost h = h + a4;
    audio = sum_counts(audio, a5, Ghost(h), Ghost(a5 as int));
    let ghost h = h + a5;
    audio = sum_counts(audio, a6, Ghost(h), Ghost(a6 as int));
    let ghost h = h + a6;
    audio = sum_counts(audio, c1.1, Ghost(h), Ghost(c1.1 as int));
    let ghost h = h + c1.1;
    audio = sum_counts(audio, c2.1, Ghost(h), Ghost(c2.1 as int));
    let ghost h = h + c2.1;
    audio = sum_counts(audio, c3.1, Ghost(h), Ghost(c3.1 as int));
    let ghost h = h + c3.1;
    audio = sum_counts(audio, n1.1, Ghost(h), Ghost(nested_counts(*payload, "output"@).1 as int));
    let ghost h = h + nested_counts(*payload, "output"@).1 as int;
    audio = sum_counts(audio, n2.1, Ghost(h), Ghost(nested_counts(*payload, "result"@).1 as int));
    let ghost h = h + nested_counts(*payload, "result"@).1 as int;
    audio = sum_counts(audio, n3.1, Ghost(h), Ghost(nested_counts(*payload, "Ok"@).1 as int));
    let ghost h = h + nested_counts(*payload, "Ok"@).1 as int;
    audio = sum_counts(audio, n4.1, Ghost(h), Ghost(nested_counts(*payload, "ok"@).1 as int));
    (images, audio)
}

} // verus!
