//! Decoding rollout records: JSON text to values, values to envelopes.

use vstd::prelude::*;

use crate::rollout::entry::opt_text;
use crate::rollout::envelope::Envelope;
use crate::rollout::json::{json_get, json_view, members_get, members_view, JsonData, JsonNumber, JsonValue};
use crate::rollout::driver::{
    envelope_parse_text, header_codes, inherited_record, sat_add_u64, CollectingSink, ParsedRollout, ParserOutput, RolloutParser,
};
use crate::rollout::identity::known_envelope;
use crate::rollout::metadata::payload_session_id_spec;
use crate::rollout::reader::{lemma_records_tile, line_matches, line_matches_at, read_lines, read_lines_from, records_from, records_tile, stable_end_from, FileCheckpoint, LineReadStatus, ReadLine};
use crate::rollout::session::{session_id_from_filename_spec, uuid_canonical};
use crate::rollout::types::{ParseContext, ParseSeed, RawRecord};
use crate::rollout::fold::{
    diag_view, diag_views, input_fits, lemma_envelope_step, lemma_unreadable_step, outs_diags, outs_entries, parser_state, read_fold,
    read_step, seed_state, start_state, summary_from_state, DiagnosticView,
};
use crate::rollout::normalize::entry_views;
use crate::rollout::entry::EntryView;
use crate::model::IndexState;
use crate::text::{hex_encode, sha256_spec};
use vstd::utf8::valid_utf8;

verus! {

#[verifier::external_type_specification]
#[verifier::external_body]
pub struct ExSerdeValue(serde_json::Value);

/// The JSON document that bytes hold, as `serde_json::from_slice` decodes
/// them; nothing when they hold none.
pub uninterp spec fn json_document(bytes: Seq<u8>) -> Option<JsonData>;

/// The JSON document that text holds, as `serde_json::from_str` decodes it;
/// nothing when it holds none.
pub uninterp spec fn json_text_document(text: Seq<char>) -> Option<JsonData>;

/// Converts a value decoded by serde_json into the library's value, variant
/// by variant; it is used only by the two decoding calls below.
#[verifier::external_body]
fn value_from_serde(v: &serde_json::Value) -> JsonValue {
    match v {
        serde_json::Value::Null => JsonValue::Null,
        serde_json::Value::Bool(b) => JsonValue::Bool(*b),
        serde_json::Value::Number(n) => JsonValue::Number(
            JsonNumber { text: n.to_string(), as_u64: n.as_u64(), as_i64: n.as_i64() },
        ),
        serde_json::Value::String(s) => JsonValue::String(s.clone()),
        serde_json::Value::Array(items) => JsonValue::Array(items.iter().map(value_from_serde).collect()),
        serde_json::Value::Object(members) => JsonValue::Object(
            members.iter().map(|(k, m)| (k.clone(), value_from_serde(m))).collect(),
        ),
    }
}

/// Calls `serde_json::from_slice::<serde_json::Value>`: the document the
/// bytes hold, when they hold one. Its result is named `json_document`.
#[verifier::external_body]
pub(crate) fn parse_json_bytes(bytes: &[u8]) -> (r: Option<JsonValue>)
    ensures
        r is None <==> json_document(bytes@) is None,
        r matches Some(v) ==> json_document(bytes@) == Some(json_view(v)),
{
    serde_json::from_slice::<serde_json::Value>(bytes).ok().map(|v| value_from_serde(&v))
}

/// Calls `serde_json::from_str::<serde_json::Value>`: the document the text
/// holds, when it holds one. Its result is named `json_text_document`.
#[verifier::external_body]
pub(crate) fn parse_json_text(text: &str) -> (r: Option<JsonValue>)
    ensures
        r is None <==> json_text_document(text@) is None,
        r matches Some(v) ==> json_text_document(text@) == Some(json_view(v)),
{
    serde_json::from_str::<serde_json::Value>(text).ok().map(|v| value_from_serde(&v))
}

/// The member `key` of members, the first with that name.
pub open spec fn data_members_get(ms: Seq<(Seq<char>, JsonData)>, key: Seq<char>) -> Option<JsonData>
    decreases ms.len(),
{
    if ms.len() == 0 {
        None
    } else if ms[0].0 == key {
        Some(ms[0].1)
    } else {
        data_members_get(ms.drop_first(), key)
    }
}

/// The member `key` of an object; nothing for other documents.
pub open spec fn data_get(d: JsonData, key: Seq<char>) -> Option<JsonData> {
    match d {
        JsonData::Object(ms) => data_members_get(ms, key),
        _ => None,
    }
}

/// The text of the member `key`, when it is a string.
pub open spec fn data_str_member(d: JsonData, key: Seq<char>) -> Option<Seq<char>> {
    match data_get(d, key) {
        Some(JsonData::Str(s)) => Some(s),
        _ => None,
    }
}

/// The member `key` as an unsigned integer, when it is one.
pub open spec fn data_u64_member(d: JsonData, key: Seq<char>) -> Option<u64> {
    match data_get(d, key) {
        Some(JsonData::Number(_, u, _)) => u,
        _ => None,
    }
}

/// The member `key`, or `null`.
pub open spec fn data_member_or_null(d: JsonData, key: Seq<char>) -> JsonData {
    match data_get(d, key) {
        Some(m) => m,
        None => JsonData::Null,
    }
}

/// The kind a record names: its `type` when that is a string, else nothing.
pub open spec fn data_kind(d: JsonData) -> Seq<char> {
    match data_str_member(d, "type"@) {
        Some(k) => k,
        None => Seq::empty(),
    }
}

/// Whether `e` is the envelope of the document `d`.
pub open spec fn envelope_holds(d: JsonData, e: Envelope) -> bool {
    &&& e.kind@ == data_kind(d)
    &&& opt_text(e.timestamp) == data_str_member(d, "timestamp"@)
    &&& e.ordinal == data_u64_member(d, "ordinal"@)
    &&& json_view(e.payload) == data_member_or_null(d, "payload"@)
    &&& json_view(e.harness_metadata) == data_member_or_null(d, "harness_metadata"@)
}

proof fn lemma_members_view_at(ms: Seq<(String, JsonValue)>)
    ensures
        members_view(ms).len() == ms.len(),
        forall|i: int| 0 <= i < ms.len() ==> #[trigger] members_view(ms)[i] == (ms[i].0@, json_view(ms[i].1)),
    decreases ms.len(),
{
    if ms.len() > 0 {
        let front = ms.subrange(0, ms.len() - 1);
        lemma_members_view_at(front);
        assert forall|i: int| 0 <= i < ms.len() implies #[trigger] members_view(ms)[i] == (ms[i].0@, json_view(ms[i].1)) by {
            if i < ms.len() - 1 {
                assert(front[i] == ms[i]);
            }
        }
    }
}

/// Looking a member up commutes with taking the view.
proof fn lemma_members_get_view(ms: Seq<(String, JsonValue)>, key: Seq<char>)
    ensures
        data_members_get(members_view(ms), key) == match members_get(ms, key) {
            Some(m) => Some(json_view(m)),
            None => None,
        },
    decreases ms.len(),
{
    lemma_members_view_at(ms);
    if ms.len() > 0 {
        let rest = ms.drop_first();
        lemma_members_view_at(rest);
        assert(members_view(rest) =~= members_view(ms).drop_first()) by {
            assert forall|i: int| 0 <= i < rest.len() implies members_view(rest)[i] == members_view(ms).drop_first()[i] by {
                assert(rest[i] == ms[i + 1]);
            }
        }
        lemma_members_get_view(rest, key);
    }
}

/// Looking a member up in a value and in its view agree.
pub proof fn lemma_get_view(v: JsonValue, key: Seq<char>)
    ensures
        data_get(json_view(v), key) == match json_get(v, key) {
            Some(m) => Some(json_view(m)),
            None => None,
        },
{
    if let JsonValue::Object(ms) = v {
        lemma_members_get_view(ms@, key);
    }
}

/// Whether `e` is the envelope of the document that `bytes` hold.
pub open spec fn document_envelope(bytes: Seq<u8>, e: Envelope) -> bool {
    match json_document(bytes) {
        Some(d) => envelope_holds(d, e),
        None => false,
    }
}

impl Envelope {
    /// The envelope of a rollout record's bytes, when they hold JSON: its
    /// `timestamp`, `ordinal`, `type`, `payload` and `harness_metadata`; a
    /// document that is no object gives an envelope of no kind.
    pub fn parse(bytes: &[u8]) -> (r: Option<Envelope>)
        ensures
            r is None <==> json_document(bytes@) is None,
            r matches Some(e) ==> document_envelope(bytes@, e),
    {
        match parse_json_bytes(bytes) {
            None => None,
            Some(value) => {
                let e = Envelope::from_value(&value);
                proof {
                    lemma_get_view(value, "type"@);
                    lemma_get_view(value, "timestamp"@);
                    lemma_get_view(value, "ordinal"@);
                    lemma_get_view(value, "payload"@);
                    lemma_get_view(value, "harness_metadata"@);
                    if let Some(m) = json_get(value, "ordinal"@) {
                        if let JsonValue::Number(n) = m {
                            assert(json_view(m) == JsonData::Number(n.text@, n.as_u64, n.as_i64));
                        }
                    }
                    let d = json_view(value);
                    if value is Object {
                        if let Some(m) = json_get(value, "type"@) {
                            if let JsonValue::String(t) = m {
                                assert(json_view(m) == JsonData::Str(t@));
                            }
                        }
                        if let Some(m) = json_get(value, "timestamp"@) {
                            if let JsonValue::String(t) = m {
                                assert(json_view(m) == JsonData::Str(t@));
                            }
                        }
                        assert(e.kind@ == data_kind(d));
                        assert(opt_text(e.timestamp) == data_str_member(d, "timestamp"@));
                        assert(e.ordinal == data_u64_member(d, "ordinal"@));
                        assert(json_view(e.payload) == data_member_or_null(d, "payload"@));
                        assert(json_view(e.harness_metadata) == data_member_or_null(d, "harness_metadata"@));
                    } else {
                        assert(!(d is Object));
                        assert(e.kind@ =~= Seq::<char>::empty());
                        assert(json_view(e.payload) == JsonData::Null);
                        assert(json_view(e.harness_metadata) == JsonData::Null);
                    }
                    assert(envelope_holds(d, e));
                    assert(json_document(bytes@) == Some(d));
                }
                Some(e)
            },
        }
    }
}

/// The envelope type a record's raw entry names: the `type` of the JSON
/// document a complete UTF-8 line holds, and none otherwise.
pub open spec fn record_type(status: LineReadStatus, bytes: Seq<u8>) -> Seq<char> {
    if status == LineReadStatus::Complete && valid_utf8(bytes) {
        match json_document(bytes) {
            Some(d) => data_kind(d),
            None => Seq::empty(),
        }
    } else {
        Seq::empty()
    }
}

/// Whether a raw entry describes the record `rec` of `data`.
pub open spec fn raw_describes(raw: RawRecord, rec: (int, int, int, LineReadStatus), data: Seq<u8>) -> bool {
    raw_describes_at(raw, rec, data, 0)
}

/// Whether a raw entry describes the record `rec` of `data`, the bytes of
/// a file from offset `base`.
pub open spec fn raw_describes_at(raw: RawRecord, rec: (int, int, int, LineReadStatus), data: Seq<u8>, base: int) -> bool {
    &&& raw.line_no == rec.0
    &&& raw.byte_offset == base + rec.1
    &&& raw.byte_length == rec.2
    &&& raw.content_hash@ == hex_encode(sha256_spec(data.subrange(rec.1, rec.1 + rec.2)))
    &&& raw.envelope_type@ == record_type(rec.3, data.subrange(rec.1, rec.1 + rec.2))
}

/// Whether the outputs of one line start with its raw entry, naming `etype`,
/// and hold no other raw entry.
pub open spec fn single_raw_first(out: Seq<ParserOutput>, line: ReadLine, etype: Seq<char>) -> bool {
    &&& out.len() >= 1
    &&& out[0] matches ParserOutput::Raw(r) && r.line_no == line.line_no && r.byte_offset == line.byte_offset
        && r.byte_length == line.byte_length && r.content_hash == line.content_hash && r.envelope_type@ == etype
    &&& forall|j: int| 1 <= j < out.len() ==> !(#[trigger] out[j] is Raw)
}

/// The records of a rollout's bytes, numbered from 1, with lines longer
/// than `max` oversize.
pub open spec fn rollout_records(data: Seq<u8>, max: usize) -> Seq<(int, int, int, LineReadStatus)> {
    records_from(data, 0, 1, max as int)
}

/// The bytes of a record of `data`.
pub open spec fn record_bytes(data: Seq<u8>, rec: (int, int, int, LineReadStatus)) -> Seq<u8> {
    data.subrange(rec.1, rec.1 + rec.2)
}

/// Whether a record is recognized: a complete UTF-8 line holding a JSON
/// document of a known envelope type.
pub open spec fn record_recognized(status: LineReadStatus, bytes: Seq<u8>) -> bool {
    &&& status == LineReadStatus::Complete
    &&& valid_utf8(bytes)
    &&& json_document(bytes) matches Some(d) && known_envelope(data_kind(d))
}

/// How many of the records are recognized.
pub open spec fn recognized_count(data: Seq<u8>, recs: Seq<(int, int, int, LineReadStatus)>) -> nat
    decreases recs.len(),
{
    if recs.len() == 0 {
        0
    } else {
        recognized_count(data, recs.drop_last()) + if record_recognized(recs.last().3, record_bytes(data, recs.last())) { 1nat } else { 0nat }
    }
}

/// The session id a `session_meta` payload names: its `session_id`, else
/// its `id`, when that is a UUID, in canonical form.
pub open spec fn data_session_id(p: JsonData) -> Option<Seq<char>> {
    let first = match data_str_member(p, "session_id"@) {
        Some(t) => uuid_canonical(t),
        None => None,
    };
    match first {
        Some(id) => Some(id),
        None => match data_str_member(p, "id"@) {
            Some(t) => uuid_canonical(t),
            None => None,
        },
    }
}

proof fn lemma_payload_session_id(v: JsonValue)
    ensures
        payload_session_id_spec(v) == data_session_id(json_view(v)),
{
    lemma_get_view(v, "session_id"@);
    lemma_get_view(v, "id"@);
}

/// The session a record names: that of a complete UTF-8 `session_meta`
/// record whose payload names one.
pub open spec fn record_named_session(status: LineReadStatus, bytes: Seq<u8>) -> Option<Seq<char>> {
    if status == LineReadStatus::Complete && valid_utf8(bytes) {
        match json_document(bytes) {
            Some(d) => if data_kind(d) == "session_meta"@ {
                data_session_id(data_member_or_null(d, "payload"@))
            } else {
                None
            },
            None => None,
        }
    } else {
        None
    }
}

/// The session id once the records are read, starting from `init`: the
/// last one a record names.
pub open spec fn session_after(data: Seq<u8>, recs: Seq<(int, int, int, LineReadStatus)>, init: Seq<char>) -> Seq<char>
    decreases recs.len(),
{
    if recs.len() == 0 {
        init
    } else {
        match record_named_session(recs.last().3, record_bytes(data, recs.last())) {
            Some(id) => id,
            None => session_after(data, recs.drop_last(), init),
        }
    }
}

/// Runs a parser over the records of `data`, the bytes of a file from
/// offset `base` where line `first_line` starts, as `lines` holds them:
/// decodes each complete record as JSON and then as an envelope, decodes the
/// text a response item carries, and collects what the parser outputs.
#[verifier::rlimit(80)]
fn read_records(
    parser: RolloutParser,
    data: &[u8],
    lines: Vec<ReadLine>,
    checkpoint: FileCheckpoint,
    context: &ParseContext,
    first_line: u64,
    base: u64,
) -> (r: ParsedRollout)
    requires
        parser.wf(),
        !parser.incomplete_tail,
        lines@.len() == records_from(data@, 0, first_line as int, context.max_event_bytes as int).len(),
        forall|i: int| 0 <= i < lines@.len() ==> line_matches_at(
            #[trigger] lines@[i],
            records_from(data@, 0, first_line as int, context.max_event_bytes as int)[i],
            data@,
            base as int,
        ),
    ensures
        ({
            let recs = records_from(data@, 0, first_line as int, context.max_event_bytes as int);
            &&& r.raw_records@.len() == recs.len()
            &&& forall|k: int| 0 <= k < r.raw_records@.len() ==> raw_describes_at(#[trigger] r.raw_records@[k], recs[k], data@, base as int)
            &&& r.summary.raw_record_count == sat_add_u64(parser.raw_record_count, recs.len() as int)
            &&& r.summary.incomplete_tail == (recs.len() > 0 && recs.last().3 == LineReadStatus::IncompleteTail)
            &&& r.summary.stable_prefix_bytes == checkpoint.offset
            &&& r.summary.stable_prefix_hash == checkpoint.prefix_hash
            &&& r.summary.recognized_record_count == sat_add_u64(parser.recognized_record_count, recognized_count(data@, recs) as int)
            &&& recognized_count(data@, recs) <= recs.len()
            &&& r.summary.session.id@ == session_after(data@, recs, parser.session.id@)
            &&& exists|inputs: Seq<(Option<Envelope>, Option<JsonValue>)>| #![trigger read_fold(parser_state(parser), data@, base as int, recs, inputs)]
                inputs.len() == recs.len()
                && (forall|i: int| 0 <= i < inputs.len() ==> input_fits(data@, recs[i], #[trigger] inputs[i]))
                && entry_views(r.entries@) == read_fold(parser_state(parser), data@, base as int, recs, inputs).1
                && diag_views(r.diagnostics@) == read_fold(parser_state(parser), data@, base as int, recs, inputs).2
                && summary_from_state(r.summary, read_fold(parser_state(parser), data@, base as int, recs, inputs).0, *context)
        }),
{
    let ghost recs = records_from(data@, 0, first_line as int, context.max_event_bytes as int);
    let ghost st0 = parser_state(parser);
    let ghost p0 = parser;
    let ghost mut inputs: Seq<(Option<Envelope>, Option<JsonValue>)> = Seq::empty();
    let mut parser = parser;
    let ghost init_id = parser.session.id@;
    let mut sink = CollectingSink::new();
    let n = data.len();
    let mut k: usize = 0;
    while k < lines.len()
        invariant
            k <= lines@.len(),
            lines@.len() == recs.len(),
            recs == records_from(data@, 0, first_line as int, context.max_event_bytes as int),
            forall|i: int| 0 <= i < lines@.len() ==> line_matches_at(#[trigger] lines@[i], recs[i], data@, base as int),
            n == data@.len(),
            parser.wf(),
            parser.raw_record_count == sat_add_u64(p0.raw_record_count, k as int),
            sink.raw_records@.len() == k,
            parser.incomplete_tail == exists|i: int| 0 <= i < k && (#[trigger] recs[i]).3 == LineReadStatus::IncompleteTail,
            parser.recognized_record_count == sat_add_u64(p0.recognized_record_count, recognized_count(data@, recs.take(k as int)) as int),
            parser.seed_next_sequence == p0.seed_next_sequence,
            recognized_count(data@, recs.take(k as int)) <= k,
            parser.session.id@ == session_after(data@, recs.take(k as int), init_id),
            forall|i: int| 0 <= i < k ==> raw_describes_at(#[trigger] sink.raw_records@[i], recs[i], data@, base as int),
            st0 == parser_state(p0),
            inputs.len() == k,
            forall|i: int| 0 <= i < k ==> input_fits(data@, recs[i], #[trigger] inputs[i]),
            parser_state(parser) == read_fold(st0, data@, base as int, recs.take(k as int), inputs).0,
            entry_views(sink.entries@) == read_fold(st0, data@, base as int, recs.take(k as int), inputs).1,
            diag_views(sink.diagnostics@) == read_fold(st0, data@, base as int, recs.take(k as int), inputs).2,
        decreases lines@.len() - k,
    {
        let line = &lines[k];
        let envelope = match &line.bytes {
            Some(b) => Envelope::parse(b.as_slice()),
            None => None,
        };
        let parsed = match &envelope {
            Some(e) => match envelope_parse_text(e) {
                Some(t) => parse_json_text(t.as_str()),
                None => None,
            },
            None => None,
        };
        let ghost before = sink.raw_records@;
        let ghost rec = recs[k as int];
        let ghost seg = data@.subrange(rec.1, rec.1 + rec.2);
        assert(line_matches_at(lines@[k as int], rec, data@, base as int));
        let ghost pa = parser;
        let mut out = parser.process_line(line, envelope.as_ref(), parsed.as_ref());
        proof {
            let pre = recs.take(k as int);
            let post = recs.take(k + 1);
            assert(post.drop_last() =~= pre);
            assert(post.last() == rec);
            assert(record_bytes(data@, rec) == seg);
            if line.status == LineReadStatus::Complete && valid_utf8(line.bytes->0@) && envelope is Some {
                let env = envelope->0;
                lemma_payload_session_id(env.payload);
                assert(line.bytes->0@ == seg);
                assert(document_envelope(seg, env));
            }
            assert(parser.recognized_record_count == sat_add_u64(p0.recognized_record_count, recognized_count(data@, post) as int));
            assert(parser.raw_record_count == sat_add_u64(p0.raw_record_count, k + 1));
            assert(parser.session.id@ == session_after(data@, post, init_id));
            assert(parser.incomplete_tail == exists|i: int| 0 <= i < k + 1 && (#[trigger] recs[i]).3 == LineReadStatus::IncompleteTail) by {
                if line.status == LineReadStatus::IncompleteTail {
                    assert(recs[k as int].3 == LineReadStatus::IncompleteTail);
                }
            }
        }
        proof {
            let etype = record_type(rec.3, seg);
            let o = out@;
            if line.status == LineReadStatus::Complete {
                let b = line.bytes->0@;
                assert(b == seg);
                if !valid_utf8(b) {
                    assert(etype =~= Seq::<char>::empty());
                    assert(o[1] is Diagnostic);
                } else if envelope is None {
                    assert(json_document(b) is None);
                    assert(etype =~= Seq::<char>::empty());
                    assert(o[1] is Diagnostic);
                } else {
                    let env = envelope->0;
                    assert(document_envelope(b, env));
                    assert(env.kind@ == etype);
                    let hd = header_codes(env);
                    let n1 = 1 + hd.len();
                    assert forall|j: int| 1 <= j < o.len() implies !(#[trigger] o[j] is Raw) by {
                        if j < n1 {
                            let jj = j - 1;
                            assert(o[1 + jj] is Diagnostic);
                        } else {
                            assert(!inherited_record(env, pa.session.subagent_history_start_ordinal));
                            let i = j - n1;
                            if o[n1 + i] is Raw {
                                assert(o[n1 + i] == o[j]);
                            }
                        }
                    }
                }
            } else {
                assert(etype =~= Seq::<char>::empty());
                assert(o[1] is Diagnostic);
            }
            assert(single_raw_first(o, *line, etype));
        }
        let ghost inp = (envelope, parsed);
        let ghost e0 = entry_views(sink.entries@);
        let ghost d0s = diag_views(sink.diagnostics@);
        let ghost step = read_step(parser_state(pa), data@, base as int, rec, inp);
        proof {
            assert(line.line_no == rec.0 && line.byte_offset == base + rec.1 && line.byte_length == rec.2 && line.status == rec.3);
            if line.status == LineReadStatus::IncompleteTail {
                lemma_unreadable_step(pa, parser, *line, "incomplete_tail"@, true, false, None, crate::model::DiagnosticSeverity::Info,
                    "incomplete_tail"@, "trailing JSONL record is incomplete and will be retried"@, out@, e0);
            } else if line.status == LineReadStatus::Oversize {
                lemma_unreadable_step(pa, parser, *line, "oversize"@, true, true, None, crate::model::DiagnosticSeverity::Warning,
                    "content_too_large"@, "JSONL record exceeds configured event size limit"@, out@, e0);
            } else {
                assert(line.bytes->0@ == seg);
                if !valid_utf8(line.bytes->0@) {
                    let b = line.bytes->0@;
                    lemma_unreadable_step(pa, parser, *line, "invalid_utf8"@, false, false,
                        Some(hex_encode(b.take(if b.len() < 4096 { b.len() as int } else { 4096 }))),
                        crate::model::DiagnosticSeverity::Warning, "invalid_utf8"@, "JSONL record is not valid UTF-8"@, out@, e0);
                } else if envelope is None {
                    lemma_unreadable_step(pa, parser, *line, "invalid_json"@, true, false, None, crate::model::DiagnosticSeverity::Warning,
                        "invalid_json"@, "JSONL record is not valid JSON"@, out@, e0);
                } else {
                    lemma_envelope_step(pa, parser, *line, envelope->0, parsed, out@, e0);
                }
            }
            assert(outs_entries(e0, out@) == crate::rollout::fold::upserts(e0, step.1));
            assert(outs_diags(out@) == step.2);
            assert(parser_state(parser) == step.0);
            assert(input_fits(data@, rec, inp));
        }
        let mut rev: Vec<ParserOutput> = Vec::new();
        let ghost all = out@;
        while out.len() > 0
            invariant
                out@.len() + rev@.len() == all.len(),
                forall|i: int| 0 <= i < out@.len() ==> #[trigger] out@[i] == all[i],
                forall|i: int| 0 <= i < rev@.len() ==> #[trigger] rev@[i] == all[all.len() - 1 - i],
            decreases out@.len(),
        {
            let o = out.pop().unwrap();
            rev.push(o);
        }
        let mut done: usize = 0;
        let total: usize = rev.len();
        assert(total == all.len());
        while rev.len() > 0
            invariant
                all.len() <= usize::MAX,
                done + rev@.len() == all.len(),
                forall|i: int| 0 <= i < rev@.len() ==> #[trigger] rev@[i] == all[all.len() - 1 - i],
                single_raw_first(all, *line, record_type(rec.3, seg)),
                done == 0 ==> sink.raw_records@ == before,
                done > 0 ==> sink.raw_records@ == before.push(all[0]->Raw_0),
                entry_views(sink.entries@) == outs_entries(e0, all.take(done as int)),
                diag_views(sink.diagnostics@) == d0s + outs_diags(all.take(done as int)),
            decreases rev@.len(),
        {
            let o = rev.pop().unwrap();
            assert(o == all[done as int]);
            let ghost ds_before = sink.diagnostics@;
            sink.emit(o);
            proof {
                assert(all.take(done + 1).drop_last() =~= all.take(done as int));
                assert(all.take(done + 1).last() == all[done as int]);
                if let ParserOutput::Diagnostic(d) = all[done as int] {
                    assert(diag_views(sink.diagnostics@) =~= diag_views(ds_before).push(diag_view(d)));
                    assert(d0s + outs_diags(all.take(done + 1)) =~= (d0s + outs_diags(all.take(done as int))).push(diag_view(d)));
                }
            }
            done = done + 1;
        }
        proof {
            assert(all.take(all.len() as int) =~= all);
            let pre = recs.take(k as int);
            let post = recs.take(k + 1);
            let inputs2 = inputs.push(inp);
            assert(post.drop_last() =~= pre);
            assert(inputs2.drop_last() =~= inputs);
            assert(post.last() == rec);
            assert(inputs2.last() == inp);
            assert(d0s + step.2 == read_fold(st0, data@, base as int, post, inputs2).2);
            inputs = inputs2;
            assert forall|i: int| 0 <= i < k + 1 implies input_fits(data@, recs[i], #[trigger] inputs[i]) by {
                if i < k {
                    assert(inputs[i] == inputs2.drop_last()[i]);
                }
            }
        }
        proof {
            let raw = all[0]->Raw_0;
            assert(raw_describes_at(raw, rec, data@, base as int));
            assert forall|i: int| 0 <= i < k + 1 implies raw_describes_at(#[trigger] sink.raw_records@[i], recs[i], data@, base as int) by {
                if i < k {
                    assert(sink.raw_records@[i] == before[i]);
                }
            }
        }
        k = k + 1;
    }
    let summary = parser.finish(context, &checkpoint);
    proof {
        lemma_records_tile(data@, 0, first_line as int, context.max_event_bytes as int);
        assert(recs.take(recs.len() as int) =~= recs);
        let n = recs.len();
        if parser.incomplete_tail {
            let i = choose|i: int| 0 <= i < n && (#[trigger] recs[i]).3 == LineReadStatus::IncompleteTail;
            assert(i == n - 1);
        } else if n > 0 {
            assert(recs[n - 1].3 != LineReadStatus::IncompleteTail);
        }
    }
    proof {
        assert(recs.take(recs.len() as int) =~= recs);
        assert(read_fold(st0, data@, base as int, recs, inputs).0 == parser_state(parser));
    }
    sink.finish(summary)
}


/// Reads a whole rollout: splits its bytes into records, decodes each
/// complete record as JSON and then as an envelope, decodes the text a
/// response item carries, and runs the parser over every record in order.
/// There is one raw entry per record, in order, naming the type the
/// record's JSON document gives. The entries, the diagnostics and the
/// session the summary describes are those of `read_fold`: each record in
/// turn, from the state a fresh parser starts in, with the envelope and
/// parsed text its bytes decode to.
pub fn parse_rollout(data: &[u8], context: &ParseContext) -> (r: ParsedRollout)
    requires
        vstd::utf8::encode_utf8(crate::rollout::session::filename_stem(context.file_name@)).len() >= 36
            ==> vstd::utf8::is_char_boundary(
            vstd::utf8::encode_utf8(crate::rollout::session::filename_stem(context.file_name@)),
            vstd::utf8::encode_utf8(crate::rollout::session::filename_stem(context.file_name@)).len() - 36,
        ),
    ensures
        r.raw_records@.len() == records_from(data@, 0, 1, context.max_event_bytes as int).len(),
        forall|k: int| 0 <= k < r.raw_records@.len() ==> raw_describes(
            #[trigger] r.raw_records@[k],
            records_from(data@, 0, 1, context.max_event_bytes as int)[k],
            data@,
        ),
        r.summary.raw_record_count == records_from(data@, 0, 1, context.max_event_bytes as int).len(),
        r.summary.incomplete_tail == (rollout_records(data@, context.max_event_bytes).len() > 0
            && rollout_records(data@, context.max_event_bytes).last().3 == LineReadStatus::IncompleteTail),
        r.summary.stable_prefix_bytes == stable_end_from(data@, 0),
        r.summary.stable_prefix_hash@ == hex_encode(sha256_spec(data@.take(stable_end_from(data@, 0)))),
        r.summary.recognized_record_count == recognized_count(data@, rollout_records(data@, context.max_event_bytes)),
        r.summary.recognized_record_count <= r.summary.raw_record_count,
        r.summary.session.id@ == session_after(
            data@,
            rollout_records(data@, context.max_event_bytes),
            session_id_from_filename_spec(context.file_name@, context.relative_path@),
        ),
        exists|inputs: Seq<(Option<Envelope>, Option<JsonValue>)>| #![trigger read_fold(start_state(*context), data@, 0, rollout_records(data@, context.max_event_bytes), inputs)]
            inputs.len() == rollout_records(data@, context.max_event_bytes).len()
            && (forall|i: int| 0 <= i < inputs.len() ==> input_fits(data@, rollout_records(data@, context.max_event_bytes)[i], #[trigger] inputs[i]))
            && entry_views(r.entries@) == read_fold(start_state(*context), data@, 0, rollout_records(data@, context.max_event_bytes), inputs).1
            && diag_views(r.diagnostics@) == read_fold(start_state(*context), data@, 0, rollout_records(data@, context.max_event_bytes), inputs).2
            && summary_from_state(r.summary, read_fold(start_state(*context), data@, 0, rollout_records(data@, context.max_event_bytes), inputs).0, *context),
{
    let parser = RolloutParser::new(context);
    let (lines, checkpoint) = read_lines(data, context.max_event_bytes);
    let count = lines.len();
    let r = read_records(parser, data, lines, checkpoint, context, 1, 0);
    proof {
        let recs = records_from(data@, 0, 1, context.max_event_bytes as int);
        assert(count == recs.len());
        assert forall|k: int| 0 <= k < r.raw_records@.len() implies raw_describes(#[trigger] r.raw_records@[k], recs[k], data@) by {
            assert(raw_describes_at(r.raw_records@[k], recs[k], data@, 0));
        }
    }
    r
}

/// Resumes reading a rollout from `seed`: `data` holds the file's bytes
/// from the seed's checkpoint offset on, where line `checkpoint_line + 1`
/// starts. The counts go on from the seed's, the session and the
/// deduplicator start where the seed left them, and the checkpoint is taken
/// over these bytes, at its offset in the file.
pub fn parse_rollout_from_seed(data: &[u8], context: &ParseContext, seed: &ParseSeed) -> (r: ParsedRollout)
    requires
        forall|i: int| 0 <= i < seed.recent@.len() ==> (#[trigger] seed.recent@[i]).1.wf(),
        seed.checkpoint_line + 1 + data@.len() <= u64::MAX,
        seed.checkpoint_offset + data@.len() <= u64::MAX,
    ensures
        ({
            let recs = records_from(data@, 0, seed.checkpoint_line + 1, context.max_event_bytes as int);
            let base = seed.checkpoint_offset as int;
            &&& r.raw_records@.len() == recs.len()
            &&& forall|k: int| 0 <= k < r.raw_records@.len() ==> raw_describes_at(#[trigger] r.raw_records@[k], recs[k], data@, base)
            &&& r.summary.raw_record_count == sat_add_u64(seed.raw_record_count, recs.len() as int)
            &&& r.summary.incomplete_tail == (recs.len() > 0 && recs.last().3 == LineReadStatus::IncompleteTail)
            &&& r.summary.stable_prefix_bytes == base + stable_end_from(data@, 0)
            &&& r.summary.stable_prefix_hash@ == hex_encode(sha256_spec(data@.take(stable_end_from(data@, 0))))
            &&& r.summary.recognized_record_count == sat_add_u64(seed.recognized_record_count, recognized_count(data@, recs) as int)
            &&& recognized_count(data@, recs) <= recs.len()
            &&& r.summary.session.id@ == session_after(data@, recs, seed.session.id@)
            &&& exists|inputs: Seq<(Option<Envelope>, Option<JsonValue>)>| #![trigger read_fold(seed_state(*seed), data@, base, recs, inputs)]
                inputs.len() == recs.len()
                && (forall|i: int| 0 <= i < inputs.len() ==> input_fits(data@, recs[i], #[trigger] inputs[i]))
                && entry_views(r.entries@) == read_fold(seed_state(*seed), data@, base, recs, inputs).1
                && diag_views(r.diagnostics@) == read_fold(seed_state(*seed), data@, base, recs, inputs).2
                && summary_from_state(r.summary, read_fold(seed_state(*seed), data@, base, recs, inputs).0, *context)
        }),
{
    let parser = RolloutParser::from_seed(seed);
    assert(parser_state(parser) == seed_state(*seed));
    let first_line = seed.checkpoint_line + 1;
    let (lines, checkpoint) = read_lines_from(data, context.max_event_bytes, first_line, seed.checkpoint_offset);
    read_records(parser, data, lines, checkpoint, context, first_line, seed.checkpoint_offset)
}


/// The envelope types a rollout is read as knowing are exactly the ten that
/// Codex writes: a record counts as recognized exactly when it is a
/// complete UTF-8 line whose JSON document has one of these types.
pub proof fn law_recognized_records(status: LineReadStatus, bytes: Seq<u8>)
    ensures
        record_recognized(status, bytes) <==> (status == LineReadStatus::Complete && valid_utf8(bytes) && (json_document(bytes) matches Some(d) && {
            let k = data_kind(d);
            ||| k == "session_meta"@
            ||| k == "turn_context"@
            ||| k == "world_state"@
            ||| k == "security_risk_score"@
            ||| k == "inter_agent_communication"@
            ||| k == "inter_agent_communication_metadata"@
            ||| k == "event_msg"@
            ||| k == "response_item"@
            ||| k == "realtime_item"@
            ||| k == "compacted"@
        })),
{
}

/// A record of one of the ten known envelope types that is not inherited
/// history is recorded as valid; one of any other type as unknown.
pub proof fn law_record_status_by_type(kind: Seq<char>)
    ensures
        (kind == "session_meta"@ || kind == "turn_context"@ || kind == "world_state"@ || kind == "security_risk_score"@
            || kind == "inter_agent_communication"@ || kind == "inter_agent_communication_metadata"@ || kind == "event_msg"@
            || kind == "response_item"@ || kind == "realtime_item"@ || kind == "compacted"@)
            ==> crate::rollout::driver::record_status(false, known_envelope(kind)) == "valid"@,
        !(kind == "session_meta"@ || kind == "turn_context"@ || kind == "world_state"@ || kind == "security_risk_score"@
            || kind == "inter_agent_communication"@ || kind == "inter_agent_communication_metadata"@ || kind == "event_msg"@
            || kind == "response_item"@ || kind == "realtime_item"@ || kind == "compacted"@)
            ==> crate::rollout::driver::record_status(false, known_envelope(kind)) == "unknown"@,
{
}

} // verus!
