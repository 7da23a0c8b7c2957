//! Rollout records: the envelope around each payload, and what each kind
//! of envelope normalizes to.

use vstd::prelude::*;

use crate::model::EntryKind;
use crate::rollout::content::deref_opt;
use crate::rollout::display::{pretty_value, pretty_value_spec};
use crate::rollout::entry::{simple_entry, simple_entry_spec, source_item_id, source_item_of, with_meta, EntryView, NormalizedEntry};
use crate::rollout::json::{json_get, json_view, str_member, JsonData, JsonValue};
use crate::rollout::normalize::{all_wf, entry_views, normalize_event, normalize_event_spec, NormalizeResult, ResultView};
use crate::rollout::response::{
    inter_agent_communication_entry, inter_agent_entry_spec, normalize_realtime_item, normalize_realtime_item_spec,
    normalize_response_item, normalize_response_item_spec, with_trigger_turn,
};
use crate::rollout::session::{metadata_applied, u64_member, SessionBuilder};
use crate::rollout::types::EntryOrigin;
use crate::text::str_eq;

verus! {

/// One record of a rollout: when it was written, its position in a
/// subagent's inherited history, its kind, its payload and what the
/// harness attached to it.
#[derive(Debug)]
pub struct Envelope {
    pub timestamp: Option<String>,
    pub ordinal: Option<u64>,
    pub kind: String,
    pub payload: JsonValue,
    pub harness_metadata: JsonValue,
}

/// The member `key` of a record, or `null`.
pub open spec fn member_or_null(v: JsonValue, key: Seq<char>) -> JsonData {
    match json_get(v, key) {
        Some(m) => json_view(m),
        None => JsonData::Null,
    }
}

impl Envelope {
    /// The envelope of a parsed record: its `timestamp`, `ordinal`, `type`,
    /// `payload` and `harness_metadata`; a record that is no object is an
    /// envelope of no kind with a `null` payload.
    pub fn from_value(value: &JsonValue) -> (r: Envelope)
        ensures
            value is Object ==> {
                &&& crate::rollout::entry::opt_text(r.timestamp) == str_member(*value, "timestamp"@)
                &&& r.ordinal == u64_member(*value, "ordinal"@)
                &&& r.kind@ == match str_member(*value, "type"@) {
                    Some(k) => k,
                    None => Seq::empty(),
                }
                &&& json_view(r.payload) == member_or_null(*value, "payload"@)
                &&& json_view(r.harness_metadata) == member_or_null(*value, "harness_metadata"@)
            },
            !(value is Object) ==> r.timestamp is None && r.ordinal is None && r.kind@.len() == 0
                && r.payload is Null && r.harness_metadata is Null,
    {
        if !value.is_object() {
            return Envelope {
                timestamp: None,
                ordinal: None,
                kind: String::new(),
                payload: JsonValue::Null,
                harness_metadata: JsonValue::Null,
            };
        }
        let timestamp = crate::rollout::json::string_option(value, "timestamp");
        let ordinal = match value.get("ordinal") {
            Some(o) => o.as_u64(),
            None => None,
        };
        let kind = match crate::rollout::json::string_option(value, "type") {
            Some(k) => k,
            None => String::new(),
        };
        let payload = match value.get("payload") {
            Some(p) => p.duplicate(),
            None => JsonValue::Null,
        };
        let harness_metadata = match value.get("harness_metadata") {
            Some(h) => h.duplicate(),
            None => JsonValue::Null,
        };
        proof {
            reveal_strlit("");
        }
        Envelope { timestamp, ordinal, kind, payload, harness_metadata }
    }
}

/// A context entry showing a whole payload.
pub open spec fn context_entry_spec(title: Seq<char>, payload: JsonValue, timestamp_micros: Option<i64>, raw_id: Seq<char>) -> EntryView {
    simple_entry_spec(EntryKind::Context, title, pretty_value_spec(Some(payload)), timestamp_micros, raw_id, EntryOrigin::Derived, false, true)
}

/// A context entry showing a whole payload.
pub fn context_entry(title: &str, payload: &JsonValue, timestamp_micros: Option<i64>, raw_id: &str) -> (r: NormalizedEntry)
    ensures
        r.wf(),
        r@ == context_entry_spec(title@, *payload, timestamp_micros, raw_id@),
{
    simple_entry(EntryKind::Context, title, pretty_value(Some(payload)), timestamp_micros, raw_id, EntryOrigin::Derived, false, true)
}

/// Whether a harness says a client wrote a response item.
pub open spec fn client_authored(metadata: JsonValue) -> Option<bool> {
    match crate::rollout::entry::either_member(metadata, "client_authored"@, "clientAuthored"@) {
        Some(JsonValue::Bool(b)) => Some(b),
        _ => None,
    }
}

/// `r` with every entry marked as written by a client, or not, when the
/// harness says so.
pub open spec fn with_client_authored(r: ResultView, metadata: JsonValue) -> ResultView {
    match client_authored(metadata) {
        Some(b) => {
            let mark = |e: EntryView| with_meta(e, "clientAuthored"@, JsonData::Bool(b));
            match r {
                ResultView::Entry(e) => ResultView::Entry(mark(e)),
                ResultView::Unknown(e, code) => ResultView::Unknown(mark(e), code),
                ResultView::Entries(es) => ResultView::Entries(es.map_values(mark)),
                ResultView::NoEntry => ResultView::NoEntry,
            }
        },
        None => r,
    }
}

fn mark_all(entries: Vec<NormalizedEntry>, b: bool) -> (r: Vec<NormalizedEntry>)
    requires
        all_wf(entries@),
    ensures
        all_wf(r@),
        entry_views(r@) == entry_views(entries@).map_values(|e: EntryView| with_meta(e, "clientAuthored"@, JsonData::Bool(b))),
{
    let ghost orig = entries@;
    let mut rest = entries;
    let mut out: Vec<NormalizedEntry> = Vec::new();
    while rest.len() > 0
        invariant
            out@.len() + rest@.len() == orig.len(),
            rest@ == orig.skip(out@.len() as int),
            all_wf(orig),
            all_wf(out@),
            forall|j: int| 0 <= j < out@.len() ==> (#[trigger] out@[j])@ == with_meta(orig[j]@, "clientAuthored"@, JsonData::Bool(b)),
        decreases rest@.len(),
    {
        let ghost k = out@.len() as int;
        let mut e = rest.remove(0);
        assert(e == orig[k]);
        e.metadata.insert("clientAuthored", JsonValue::Bool(b));
        out.push(e);
        assert(rest@ =~= orig.skip(k + 1));
    }
    assert(entry_views(out@) =~= entry_views(orig).map_values(|e: EntryView| with_meta(e, "clientAuthored"@, JsonData::Bool(b))));
    out
}

/// Marks every entry of a response item as written by a client, or not,
/// when the harness says so.
pub fn add_response_item_envelope_metadata(result: NormalizeResult, metadata: &JsonValue) -> (r: NormalizeResult)
    requires
        result.wf(),
    ensures
        r.wf(),
        r@ == with_client_authored(result@, *metadata),
{
    let flag = match metadata.get("client_authored") {
        Some(v) => v.as_bool(),
        None => match metadata.get("clientAuthored") {
            Some(v) => v.as_bool(),
            None => None,
        },
    };
    match flag {
        Some(b) => match result {
            NormalizeResult::Entry(mut e) => {
                e.metadata.insert("clientAuthored", JsonValue::Bool(b));
                NormalizeResult::Entry(e)
            },
            NormalizeResult::Unknown(mut e, code) => {
                e.metadata.insert("clientAuthored", JsonValue::Bool(b));
                NormalizeResult::Unknown(e, code)
            },
            NormalizeResult::Entries(es) => NormalizeResult::Entries(mark_all(es, b)),
            NormalizeResult::NoEntry => NormalizeResult::NoEntry,
        },
        None => result,
    }
}

/// The entry recording how a message between agents was delivered: linked
/// to the last such message, with its `trigger_turn`.
pub open spec fn delivery_entry_spec(payload: JsonValue, ts: Option<i64>, raw_id: Seq<char>, last_source: Option<Seq<char>>) -> EntryView {
    let e = simple_entry_spec(EntryKind::Context, "Inter-agent delivery metadata"@, Seq::empty(), ts, raw_id, EntryOrigin::Derived, false, true);
    let e = match last_source {
        Some(s) => with_meta(e, "sourceItemId"@, JsonData::Str(s)),
        None => e,
    };
    with_trigger_turn(e, payload)
}

fn delivery_entry(payload: &JsonValue, ts: Option<i64>, raw_id: &str, last_source: &Option<String>) -> (r: NormalizedEntry)
    ensures
        r.wf(),
        r@ == delivery_entry_spec(*payload, ts, raw_id@, crate::rollout::entry::opt_text(*last_source)),
{
    let mut e = simple_entry(EntryKind::Context, "Inter-agent delivery metadata", String::new(), ts, raw_id, EntryOrigin::Derived, false, true);
    if let Some(s) = last_source {
        e.metadata.insert("sourceItemId", JsonValue::String(s.clone()));
    }
    if let Some(v) = payload.get("trigger_turn") {
        if let Some(b) = v.as_bool() {
            e.metadata.insert("triggerTurn", JsonValue::Bool(b));
        }
    }
    e
}

/// The title of a context envelope, when the kind is one.
pub open spec fn context_title(kind: Seq<char>) -> Option<Seq<char>> {
    if kind == "turn_context"@ {
        Some("Turn context"@)
    } else if kind == "token_usage_record"@ {
        Some("Token usage record"@)
    } else if kind == "world_state"@ {
        Some("World state"@)
    } else if kind == "security_risk_score"@ {
        Some("Security risk score"@)
    } else {
        None
    }
}

fn context_title_of(kind: &str) -> (r: Option<&'static str>)
    ensures
        match context_title(kind@) {
            Some(t) => (r matches Some(x) && x@ == t),
            None => r is None,
        },
{
    if str_eq(kind, "turn_context") {
        Some("Turn context")
    } else if str_eq(kind, "token_usage_record") {
        Some("Token usage record")
    } else if str_eq(kind, "world_state") {
        Some("World state")
    } else if str_eq(kind, "security_risk_score") {
        Some("Security risk score")
    } else {
        None
    }
}

/// What a record normalizes to, by its kind, given the session learned so
/// far (whether the user spoke, the last message between agents); `parsed`
/// is the value of a response item's text to read as JSON.
#[verifier::opaque]
pub open spec fn normalize_envelope_spec(
    envelope: Envelope,
    timestamp_micros: Option<i64>,
    raw_id: Seq<char>,
    saw_user: bool,
    last_source: Option<Seq<char>>,
    parsed: Option<JsonValue>,
) -> ResultView {
    let kind = envelope.kind@;
    let payload = envelope.payload;
    let ts = timestamp_micros;
    if kind == "session_meta"@ {
        ResultView::NoEntry
    } else if context_title(kind) is Some {
        ResultView::Entry(context_entry_spec(context_title(kind)->0, payload, ts, raw_id))
    } else if kind == "inter_agent_communication"@ {
        ResultView::Entry(inter_agent_entry_spec(payload, ts, raw_id))
    } else if kind == "inter_agent_communication_metadata"@ {
        ResultView::Entry(delivery_entry_spec(payload, ts, raw_id, last_source))
    } else if kind == "event_msg"@ {
        normalize_event_spec(payload, ts, raw_id)
    } else if kind == "response_item"@ {
        with_client_authored(normalize_response_item_spec(payload, ts, raw_id, saw_user, parsed), envelope.harness_metadata)
    } else if kind == "realtime_item"@ {
        normalize_realtime_item_spec(payload, ts, raw_id)
    } else if kind == "compacted"@ {
        ResultView::Entry(simple_entry_spec(EntryKind::Marker, "Conversation compacted"@, Seq::empty(), ts, raw_id, EntryOrigin::Derived, false, true))
    } else {
        ResultView::Unknown(
            simple_entry_spec(
                EntryKind::Unknown,
                if kind.len() == 0 { "Unknown record"@ } else { "Unknown envelope"@ },
                Seq::empty(),
                ts,
                raw_id,
                EntryOrigin::Derived,
                false,
                true,
            ),
            "unknown_envelope"@,
        )
    }
}

/// How the session changes while a record is normalized: a `session_meta`
/// record teaches it metadata, a message between agents becomes the last one.
pub open spec fn envelope_session_step(
    envelope: Envelope,
    timestamp_micros: Option<i64>,
    raw_id: Seq<char>,
    line_no: u64,
    a: SessionBuilder,
    b: SessionBuilder,
) -> bool {
    let kind = envelope.kind@;
    if kind == "session_meta"@ {
        metadata_applied(a, b, envelope.payload, timestamp_micros, line_no)
    } else if kind == "inter_agent_communication"@ && context_title(kind) is None {
        crate::rollout::entry::opt_text(b.last_inter_agent_source_id) == source_item_of(
            inter_agent_entry_spec(envelope.payload, timestamp_micros, raw_id),
        ) && b == SessionBuilder { last_inter_agent_source_id: b.last_inter_agent_source_id, ..a }
    } else {
        b == a
    }
}

/// Normalizes one record by its kind: session metadata teaches the session,
/// context records show their payload, messages between agents and their
/// delivery, events, response items, realtime items and compactions become
/// entries; anything else an unknown entry.
pub fn normalize_envelope(
    envelope: &Envelope,
    timestamp_micros: Option<i64>,
    raw_id: &str,
    line_no: u64,
    session: &mut SessionBuilder,
    parsed: Option<&JsonValue>,
) -> (r: NormalizeResult)
    ensures
        r.wf(),
        r@ == normalize_envelope_spec(
            *envelope,
            timestamp_micros,
            raw_id@,
            old(session).saw_user,
            crate::rollout::entry::opt_text(old(session).last_inter_agent_source_id),
            deref_opt(parsed),
        ),
        envelope_session_step(*envelope, timestamp_micros, raw_id@, line_no, *old(session), *final(session)),
{
    proof {
        reveal(normalize_envelope_spec);
    }
    let kind = envelope.kind.as_str();
    let payload = &envelope.payload;
    let ts = timestamp_micros;
    if str_eq(kind, "session_meta") {
        session.apply_metadata(payload, ts, line_no);
        NormalizeResult::NoEntry
    } else if let Some(title) = context_title_of(kind) {
        NormalizeResult::Entry(context_entry(title, payload, ts, raw_id))
    } else if str_eq(kind, "inter_agent_communication") {
        let e = inter_agent_communication_entry(payload, ts, raw_id);
        session.last_inter_agent_source_id = source_item_id(&e);
        NormalizeResult::Entry(e)
    } else if str_eq(kind, "inter_agent_communication_metadata") {
        NormalizeResult::Entry(delivery_entry(payload, ts, raw_id, &session.last_inter_agent_source_id))
    } else if str_eq(kind, "event_msg") {
        normalize_event(payload, ts, raw_id)
    } else if str_eq(kind, "response_item") {
        let result = normalize_response_item(payload, ts, raw_id, session, parsed);
        add_response_item_envelope_metadata(result, &envelope.harness_metadata)
    } else if str_eq(kind, "realtime_item") {
        normalize_realtime_item(payload, ts, raw_id)
    } else if str_eq(kind, "compacted") {
        NormalizeResult::Entry(simple_entry(EntryKind::Marker, "Conversation compacted", String::new(), ts, raw_id, EntryOrigin::Derived, false, true))
    } else {
        let title: &str = if kind.is_empty() { "Unknown record" } else { "Unknown envelope" };
        NormalizeResult::Unknown(
            simple_entry(EntryKind::Unknown, title, String::new(), ts, raw_id, EntryOrigin::Derived, false, true),
            "unknown_envelope",
        )
    }
}

} // verus!
