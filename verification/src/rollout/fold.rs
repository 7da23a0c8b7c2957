//! What a whole read of a rollout yields, record by record: the state each
//! record hands to the next, the entries it upserts and the diagnostics it
//! reports.

use vstd::prelude::*;

use crate::model::DiagnosticSeverity;
use crate::rollout::decode::{document_envelope, json_text_document, record_bytes};
use crate::rollout::deduper::{fresh_dedup, DedupView};
use crate::rollout::driver::{
    accept_all, candidates, created_after, diag_output, envelope_parse_text_spec, envelope_recorded, envelope_time, header_codes, header_dedup,
    later_time, sat_add_u64, title_after, updated_after,
    header_message, inherited_record, ordinal_after, record_session_id, saw_after, source_after, unreadable_recorded, upsert_is,
    upsert_spec, ParserOutput, RolloutParser,
};
use crate::rollout::entry::{opt_text, EntryView};
use crate::rollout::envelope::{normalize_envelope_spec, Envelope};
use crate::rollout::identity::raw_ref_id_spec;
use crate::rollout::json::{json_view, JsonValue};
use crate::rollout::normalize::ResultView;
use crate::rollout::reader::{LineReadStatus, ReadLine};
use crate::rollout::session::{session_id_from_filename_spec, timestamp_from_filename_spec};
use crate::rollout::types::{ParseContext, ParseSeed, ParseSummary, ParserDiagnostic};
use crate::rollout::session::{completeness_spec, fallback_title_spec};
use crate::model::IndexState;
use crate::rollout::deduper::{occurrence_views, seed_items, seed_replay};
use crate::rollout::driver::seed_last_source;
use crate::text::starts_with;
use vstd::utf8::valid_utf8;

verus! {

/// A diagnostic as plain values: severity, code, message, line and raw record.
pub type DiagnosticView = (DiagnosticSeverity, Seq<char>, Seq<char>, Option<u64>, Option<Seq<char>>);

/// A diagnostic as plain values.
pub open spec fn diag_view(d: ParserDiagnostic) -> DiagnosticView {
    (d.severity, d.code@, d.message@, d.line_no, opt_text(d.raw_ref_id))
}

/// Diagnostics as plain values.
pub open spec fn diag_views(ds: Seq<ParserDiagnostic>) -> Seq<DiagnosticView> {
    ds.map_values(|d: ParserDiagnostic| diag_view(d))
}

/// What one record hands to the next: the session id, where inherited
/// history starts, whether a user message was seen, the source item of the
/// last message between agents, whether the read is partial, the
/// deduplicator, the session's title, start and latest time, and how many
/// diagnostics it has.
pub struct ReadState {
    pub session: Seq<char>,
    pub ordinal: Option<u64>,
    pub saw_user: bool,
    pub last_source: Option<Seq<char>>,
    pub partial: bool,
    pub dedup: DedupView,
    pub title: Option<Seq<char>>,
    pub created: i64,
    pub updated: i64,
    pub diagnostics: u64,
}

/// The state a parser carries.
pub open spec fn parser_state(p: RolloutParser) -> ReadState {
    ReadState {
        session: p.session.id@,
        ordinal: p.session.subagent_history_start_ordinal,
        saw_user: p.session.saw_user,
        last_source: opt_text(p.session.last_inter_agent_source_id),
        partial: p.partial,
        dedup: p.deduper.view(),
        title: opt_text(p.session.title),
        created: p.session.created_at_micros,
        updated: p.session.updated_at_micros,
        diagnostics: p.session.diagnostic_count,
    }
}

/// The state a read from the start begins with.
pub open spec fn start_state(context: ParseContext) -> ReadState {
    let id = session_id_from_filename_spec(context.file_name@, context.relative_path@);
    ReadState {
        session: id,
        ordinal: None,
        saw_user: false,
        last_source: None,
        partial: false,
        dedup: fresh_dedup(id),
        title: None,
        created: match timestamp_from_filename_spec(context.file_name@) {
            Some(t) => t,
            None => context.modified_at_micros,
        },
        updated: context.modified_at_micros,
        diagnostics: 0,
    }
}

/// The state a read resumed from a seed begins with.
pub open spec fn seed_state(seed: ParseSeed) -> ReadState {
    ReadState {
        session: seed.session.id@,
        ordinal: None,
        saw_user: !starts_with(seed.session.title@, "Untitled · "@),
        last_source: seed_last_source(seed.recent@),
        partial: seed.partial,
        dedup: seed_replay(
            DedupView {
                session_id: seed.session.id@,
                next_sequence: seed.next_sequence,
                occurrences: occurrence_views(seed.occurrences@),
                recent: Seq::empty(),
                active: Seq::empty(),
            },
            seed_items(seed.recent@),
        ),
        title: if starts_with(seed.session.title@, "Untitled · "@) { None } else { Some(seed.session.title@) },
        created: seed.session.created_at_micros,
        updated: seed.session.updated_at_micros,
        diagnostics: seed.session.diagnostic_count,
    }
}

/// Whether a read's summary says of the session what the state after the
/// last record holds: its id, title (a fallback from its start time when no
/// user message named it), start and latest time, completeness, whether
/// the read is partial, and how many diagnostics it has.
pub open spec fn summary_from_state(s: ParseSummary, st: ReadState, context: ParseContext) -> bool {
    &&& s.session.id@ == st.session
    &&& s.session.index_state == (if st.partial { IndexState::Partial } else { IndexState::Ready })
    &&& s.session.title@ == match st.title {
        Some(t) => t,
        None => fallback_title_spec(st.created),
    }
    &&& s.session.created_at_micros == st.created
    &&& s.session.updated_at_micros == st.updated
    &&& s.session.diagnostic_count == st.diagnostics
    &&& s.session.completeness == completeness_spec(
        context.root_kind,
        context.now_micros,
        st.updated,
        s.recognized_record_count,
        st.partial,
        s.incomplete_tail,
    )
}

/// Whether the value parsed from the text an envelope names for it is
/// the document that text holds.
pub open spec fn parsed_fits(e: Envelope, p: Option<JsonValue>) -> bool {
    match envelope_parse_text_spec(e) {
        None => p is None,
        Some(t) => (p is None <==> json_text_document(t) is None) && (p matches Some(v) ==> json_text_document(t) == Some(
            json_view(v),
        )),
    }
}

/// Whether `inp` is what a complete UTF-8 record decodes to: its envelope,
/// when it holds JSON, and the value parsed from the text the envelope
/// names. Other records decode to nothing that is read.
pub open spec fn input_fits(data: Seq<u8>, rec: (int, int, int, LineReadStatus), inp: (Option<Envelope>, Option<JsonValue>)) -> bool {
    let bytes = record_bytes(data, rec);
    rec.3 == LineReadStatus::Complete && valid_utf8(bytes) ==> {
        &&& (inp.0 is None <==> crate::rollout::decode::json_document(bytes) is None)
        &&& inp.0 matches Some(e) ==> document_envelope(bytes, e) && parsed_fits(e, inp.1)
    }
}

/// A diagnostic of a record as plain values.
pub open spec fn record_diag(severity: DiagnosticSeverity, code: Seq<char>, message: Seq<char>, line_no: u64, rid: Seq<char>) -> DiagnosticView {
    (severity, code, message, Some(line_no), Some(rid))
}

/// What a record that holds an envelope does.
pub open spec fn envelope_step(st: ReadState, e: Envelope, parsed: Option<JsonValue>, line_no: u64, offset: u64, length: u64) -> (
    ReadState,
    Seq<EntryView>,
    Seq<DiagnosticView>,
) {
    let sid = record_session_id(e, st.session);
    let rid = raw_ref_id_spec(sid, offset, length);
    let inherited = inherited_record(e, st.ordinal);
    let hd = header_codes(e);
    let d0 = header_dedup(e, st.dedup, sid);
    let res = normalize_envelope_spec(e, envelope_time(e), rid, st.saw_user, st.last_source, parsed);
    let acc = accept_all(d0, candidates(res), line_no);
    let hdiag = hd.map_values(|c: Seq<char>| record_diag(DiagnosticSeverity::Warning, c, header_message(c), line_no, rid));
    if inherited {
        (
            ReadState {
                session: sid,
                ordinal: ordinal_after(e, st.ordinal),
                partial: st.partial || hd.len() > 0,
                dedup: d0,
                updated: later_time(envelope_time(e), st.updated),
                diagnostics: sat_add_u64(st.diagnostics, hd.len() as int),
                ..st
            },
            Seq::empty(),
            hdiag,
        )
    } else {
        (
            ReadState {
                session: sid,
                ordinal: ordinal_after(e, st.ordinal),
                saw_user: saw_after(st.saw_user, !(res is Unknown), acc.1),
                last_source: source_after(e, rid, st.last_source),
                partial: st.partial || hd.len() > 0 || res is Unknown,
                dedup: acc.0,
                title: title_after(st.title, st.saw_user, !(res is Unknown), acc.1),
                created: created_after(e, st.created),
                updated: updated_after(e, st.updated),
                diagnostics: sat_add_u64(st.diagnostics, hd.len() + (if res is Unknown { 1int } else { 0int })),
            },
            acc.1,
            hdiag + match res {
                ResultView::Unknown(_, code) => seq![
                    record_diag(DiagnosticSeverity::Warning, code, "record type is not supported; raw metadata remains available"@, line_no, rid),
                ],
                _ => Seq::empty(),
            },
        )
    }
}

/// What one record does: an unfinished, oversized, non-UTF-8 or non-JSON
/// line reports a diagnostic; a record holding an envelope is normalized.
pub open spec fn read_step(
    st: ReadState,
    data: Seq<u8>,
    base: int,
    rec: (int, int, int, LineReadStatus),
    inp: (Option<Envelope>, Option<JsonValue>),
) -> (
    ReadState,
    Seq<EntryView>,
    Seq<DiagnosticView>,
) {
    let ln = rec.0 as u64;
    let off = (base + rec.1) as u64;
    let len = rec.2 as u64;
    let rid = raw_ref_id_spec(st.session, off, len);
    if rec.3 == LineReadStatus::IncompleteTail {
        (ReadState { diagnostics: sat_add_u64(st.diagnostics, 1), ..st }, Seq::empty(), seq![record_diag(DiagnosticSeverity::Info, "incomplete_tail"@, "trailing JSONL record is incomplete and will be retried"@, ln, rid)])
    } else if rec.3 == LineReadStatus::Oversize {
        (
            ReadState { partial: true, diagnostics: sat_add_u64(st.diagnostics, 1), ..st },
            Seq::empty(),
            seq![record_diag(DiagnosticSeverity::Warning, "content_too_large"@, "JSONL record exceeds configured event size limit"@, ln, rid)],
        )
    } else if !valid_utf8(record_bytes(data, rec)) {
        (ReadState { partial: true, diagnostics: sat_add_u64(st.diagnostics, 1), ..st }, Seq::empty(), seq![record_diag(DiagnosticSeverity::Warning, "invalid_utf8"@, "JSONL record is not valid UTF-8"@, ln, rid)])
    } else {
        match inp.0 {
            None => (
                ReadState { partial: true, diagnostics: sat_add_u64(st.diagnostics, 1), ..st },
                Seq::empty(),
                seq![record_diag(DiagnosticSeverity::Warning, "invalid_json"@, "JSONL record is not valid JSON"@, ln, rid)],
            ),
            Some(e) => envelope_step(st, e, inp.1, ln, off, len),
        }
    }
}

/// Entries upserted one after another.
pub open spec fn upserts(entries: Seq<EntryView>, news: Seq<EntryView>) -> Seq<EntryView>
    decreases news.len(),
{
    if news.len() == 0 {
        entries
    } else {
        upsert_spec(upserts(entries, news.drop_last()), news.last())
    }
}

/// The records read in order from `st0`, the bytes of `data` starting at
/// offset `base` of the file: the final state, the entries as upserted and
/// the diagnostics in order.
pub open spec fn read_fold(
    st0: ReadState,
    data: Seq<u8>,
    base: int,
    recs: Seq<(int, int, int, LineReadStatus)>,
    inputs: Seq<(Option<Envelope>, Option<JsonValue>)>,
) -> (ReadState, Seq<EntryView>, Seq<DiagnosticView>)
    decreases recs.len(),
{
    if recs.len() == 0 || inputs.len() == 0 {
        (st0, Seq::empty(), Seq::empty())
    } else {
        let prev = read_fold(st0, data, base, recs.drop_last(), inputs.drop_last());
        let step = read_step(prev.0, data, base, recs.last(), inputs.last());
        (step.0, upserts(prev.1, step.1), prev.2 + step.2)
    }
}

/// The entries a sequence of outputs upserts into `entries`.
pub open spec fn outs_entries(entries: Seq<EntryView>, outs: Seq<ParserOutput>) -> Seq<EntryView>
    decreases outs.len(),
{
    if outs.len() == 0 {
        entries
    } else {
        let p = outs_entries(entries, outs.drop_last());
        match outs.last() {
            ParserOutput::EntryUpsert(e) => upsert_spec(p, e@),
            _ => p,
        }
    }
}

/// The diagnostics among outputs, in order.
pub open spec fn outs_diags(outs: Seq<ParserOutput>) -> Seq<DiagnosticView>
    decreases outs.len(),
{
    if outs.len() == 0 {
        Seq::empty()
    } else {
        match outs.last() {
            ParserOutput::Diagnostic(d) => outs_diags(outs.drop_last()).push(diag_view(d)),
            _ => outs_diags(outs.drop_last()),
        }
    }
}

proof fn lemma_outs_concat(entries: Seq<EntryView>, a: Seq<ParserOutput>, b: Seq<ParserOutput>)
    ensures
        outs_entries(entries, a + b) == outs_entries(outs_entries(entries, a), b),
        outs_diags(a + b) == outs_diags(a) + outs_diags(b),
    decreases b.len(),
{
    if b.len() == 0 {
        assert(a + b =~= a);
        assert(outs_diags(a) + outs_diags(b) =~= outs_diags(a));
    } else {
        lemma_outs_concat(entries, a, b.drop_last());
        assert((a + b).drop_last() =~= a + b.drop_last());
        assert((a + b).last() == b.last());
        match b.last() {
            ParserOutput::Diagnostic(d) => {
                assert(outs_diags(a) + outs_diags(b) =~= (outs_diags(a) + outs_diags(b.drop_last())).push(diag_view(d)));
            },
            _ => {},
        }
    }
}

/// Whether an output is the diagnostic `v`.
pub open spec fn is_diag(o: ParserOutput, v: DiagnosticView) -> bool {
    o matches ParserOutput::Diagnostic(d) && diag_view(d) == v
}

proof fn lemma_outs_diags_only(entries: Seq<EntryView>, xs: Seq<ParserOutput>, ds: Seq<DiagnosticView>)
    requires
        xs.len() == ds.len(),
        forall|i: int| 0 <= i < xs.len() ==> is_diag(#[trigger] xs[i], ds[i]),
    ensures
        outs_entries(entries, xs) == entries,
        outs_diags(xs) == ds,
    decreases xs.len(),
{
    if xs.len() > 0 {
        lemma_outs_diags_only(entries, xs.drop_last(), ds.drop_last());
        assert(xs.last() == xs[xs.len() - 1]);
        assert(ds =~= ds.drop_last().push(ds.last()));
    }
}

proof fn lemma_outs_upserts_only(entries: Seq<EntryView>, xs: Seq<ParserOutput>, es: Seq<EntryView>)
    requires
        xs.len() == es.len(),
        forall|i: int| 0 <= i < xs.len() ==> upsert_is(#[trigger] xs[i], es[i]),
    ensures
        outs_entries(entries, xs) == upserts(entries, es),
        outs_diags(xs) == Seq::<DiagnosticView>::empty(),
    decreases xs.len(),
{
    if xs.len() > 0 {
        lemma_outs_upserts_only(entries, xs.drop_last(), es.drop_last());
        assert(upsert_is(xs[xs.len() - 1], es[es.len() - 1]));
    }
}

proof fn lemma_outs_raw(entries: Seq<EntryView>, xs: Seq<ParserOutput>)
    requires
        xs.len() == 1,
        xs[0] is Raw,
    ensures
        outs_entries(entries, xs) == entries,
        outs_diags(xs) == Seq::<DiagnosticView>::empty(),
{
    assert(xs.drop_last() =~= Seq::<ParserOutput>::empty());
    assert(outs_entries(entries, xs.drop_last()) == entries);
    assert(outs_diags(xs.drop_last()) == Seq::<DiagnosticView>::empty());
    assert(xs.last() == xs[0]);
}

/// One diagnostic.
pub open spec fn one_diag(d: DiagnosticView) -> Seq<DiagnosticView> {
    seq![d]
}

/// A line that holds no envelope: its outputs and what it hands on.
pub proof fn lemma_unreadable_step(
    a: RolloutParser,
    b: RolloutParser,
    line: ReadLine,
    status: Seq<char>,
    utf8: bool,
    oversize: bool,
    hex: Option<Seq<char>>,
    severity: DiagnosticSeverity,
    code: Seq<char>,
    message: Seq<char>,
    out: Seq<ParserOutput>,
    entries: Seq<EntryView>,
)
    requires
        unreadable_recorded(a, b, line, status, utf8, oversize, hex, severity, code, message, out),
    ensures
        outs_entries(entries, out) == entries,
        outs_diags(out) == one_diag(record_diag(severity, code, message, line.line_no, raw_ref_id_spec(a.session.id@, line.byte_offset, line.byte_length))),
        parser_state(b) == (ReadState { partial: b.partial, diagnostics: sat_add_u64(a.session.diagnostic_count, 1), ..parser_state(a) }),
{
    let rid = raw_ref_id_spec(a.session.id@, line.byte_offset, line.byte_length);
    lemma_outs_raw(entries, out.take(1));
    lemma_outs_diags_only(entries, out.subrange(1, 2), one_diag(record_diag(severity, code, message, line.line_no, rid)));
    lemma_outs_concat(entries, out.take(1), out.subrange(1, 2));
    assert(out.take(1) + out.subrange(1, 2) =~= out);
}

/// A record that holds an envelope: its outputs and what it hands on.
pub proof fn lemma_envelope_step(
    a: RolloutParser,
    b: RolloutParser,
    line: ReadLine,
    env: Envelope,
    parsed: Option<JsonValue>,
    out: Seq<ParserOutput>,
    entries: Seq<EntryView>,
)
    requires
        envelope_recorded(a, b, line, env, parsed, out),
    ensures
        ({
            let step = envelope_step(parser_state(a), env, parsed, line.line_no, line.byte_offset, line.byte_length);
            &&& outs_entries(entries, out) == upserts(entries, step.1)
            &&& outs_diags(out) == step.2
            &&& parser_state(b) == step.0
        }),
{
    let st = parser_state(a);
    let sid = record_session_id(env, st.session);
    let rid = raw_ref_id_spec(sid, line.byte_offset, line.byte_length);
    let inherited = inherited_record(env, st.ordinal);
    let hd = header_codes(env);
    let d0 = header_dedup(env, st.dedup, sid);
    let res = normalize_envelope_spec(env, envelope_time(env), rid, st.saw_user, st.last_source, parsed);
    let acc = accept_all(d0, candidates(res), line.line_no);
    let hdiag = hd.map_values(|c: Seq<char>| record_diag(DiagnosticSeverity::Warning, c, header_message(c), line.line_no, rid));
    let n: int = 1 + hd.len() as int;
    let head = out.take(1);
    let hs = out.subrange(1, n);
    lemma_outs_raw(entries, head);
    assert forall|i: int| 0 <= i < hs.len() implies is_diag(#[trigger] hs[i], hdiag[i]) by {
        assert(hs[i] == out[1 + i]);
        assert(diag_output(out[1 + i], DiagnosticSeverity::Warning, hd[i], header_message(hd[i]), line.line_no, rid));
    }
    lemma_outs_diags_only(entries, hs, hdiag);
    lemma_outs_concat(entries, head, hs);
    if inherited {
        assert(head + hs =~= out);
        assert(upserts(entries, Seq::<EntryView>::empty()) == entries);
        assert(hdiag =~= hdiag);
    } else {
        let m: int = acc.1.len() as int;
        let us = out.subrange(n, n + m);
        assert forall|i: int| 0 <= i < us.len() implies upsert_is(#[trigger] us[i], acc.1[i]) by {
            assert(us[i] == out[n + i]);
        }
        lemma_outs_upserts_only(entries, us, acc.1);
        lemma_outs_concat(entries, head + hs, us);
        let tail = out.subrange(n + m, out.len() as int);
        let tdiag: Seq<DiagnosticView> = match res {
            ResultView::Unknown(_, code) => seq![
                record_diag(DiagnosticSeverity::Warning, code, "record type is not supported; raw metadata remains available"@, line.line_no, rid),
            ],
            _ => Seq::empty(),
        };
        assert forall|i: int| 0 <= i < tail.len() implies is_diag(#[trigger] tail[i], tdiag[i]) by {
            assert(tail[i] == out[out.len() - 1]);
        }
        lemma_outs_diags_only(upserts(entries, acc.1), tail, tdiag);
        lemma_outs_concat(entries, head + hs + us, tail);
        assert(head + hs + us + tail =~= out);
        assert(outs_diags(head + hs + us + tail) == outs_diags(head) + outs_diags(hs) + outs_diags(us) + outs_diags(tail));
        assert(outs_diags(head) + hdiag + Seq::<DiagnosticView>::empty() + tdiag =~= hdiag + tdiag);
    }
}


/// The session's diagnostic count after a read counts the diagnostics the
/// read reports, on top of those counted before it (saturating).
pub proof fn law_diagnostics_are_counted(
    st0: ReadState,
    data: Seq<u8>,
    base: int,
    recs: Seq<(int, int, int, LineReadStatus)>,
    inputs: Seq<(Option<Envelope>, Option<JsonValue>)>,
)
    ensures
        read_fold(st0, data, base, recs, inputs).0.diagnostics == sat_add_u64(
            st0.diagnostics,
            read_fold(st0, data, base, recs, inputs).2.len() as int,
        ),
    decreases recs.len(),
{
    if recs.len() > 0 && inputs.len() > 0 {
        law_diagnostics_are_counted(st0, data, base, recs.drop_last(), inputs.drop_last());
        let prev = read_fold(st0, data, base, recs.drop_last(), inputs.drop_last());
        let rec = recs.last();
        let inp = inputs.last();
        let step = read_step(prev.0, data, base, rec, inp);
        if rec.3 != LineReadStatus::IncompleteTail && rec.3 != LineReadStatus::Oversize && valid_utf8(record_bytes(data, rec)) {
            if let Some(e) = inp.0 {
                let st = prev.0;
                let sid = record_session_id(e, st.session);
                let rid = raw_ref_id_spec(sid, (base + rec.1) as u64, rec.2 as u64);
                let hd = header_codes(e);
                let hdiag = hd.map_values(|c: Seq<char>| record_diag(DiagnosticSeverity::Warning, c, header_message(c), rec.0 as u64, rid));
                assert(hdiag.len() == hd.len());
            }
        }
        assert(step.0.diagnostics == sat_add_u64(prev.0.diagnostics, step.2.len() as int));
    }
}

} // verus!
