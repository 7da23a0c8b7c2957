//! Reading a rollout record by record: what each physical line contributes
//! to the raw records, the entries and the diagnostics, and the summary of
//! the whole read.

use vstd::prelude::*;

use crate::model::DiagnosticSeverity;
use crate::rollout::deduper::{accept_spec, DedupView, Deduper};
use crate::rollout::entry::{opt_text, EntryView, NormalizedEntry};
use crate::rollout::envelope::{normalize_envelope, normalize_envelope_spec, Envelope};
use crate::rollout::identity::{hex_preview, is_known_envelope, known_envelope, raw_ref_id, raw_ref_id_spec};
use crate::rollout::json::{json_get, JsonValue};
use crate::rollout::metadata::{parse_timestamp, payload_session_id, payload_session_id_spec};
use crate::rollout::normalize::{all_wf, entry_views, NormalizeResult, ResultView};
use crate::rollout::reader::{FileCheckpoint, LineReadStatus, ReadLine};
use crate::rollout::session::{completeness_spec, fallback_title_spec, SessionBuilder};
use crate::rollout::response::{response_parse_text, response_parse_text_spec};
use crate::rollout::types::ParseSeed;
use crate::rollout::types::{ParseContext, ParseSummary, ParserDiagnostic, RawRecord};
use crate::text::{hex_encode, string_eq, string_from_utf8, trim_end_spec, trim_start_spec};
use crate::model::EntryPresentation;
use crate::rollout::entry::source_item_of;
use crate::rollout::envelope::context_title;
use crate::rollout::response::inter_agent_entry_spec;
use crate::rollout::session::{meta_time, title_spec, u64_member};
use crate::time::rfc3339_micros;
use vstd::utf8::valid_utf8;

verus! {

/// What reading a rollout produces, in order.
#[derive(Debug)]
pub enum ParserOutput {
    Raw(RawRecord),
    EntryUpsert(NormalizedEntry),
    Diagnostic(ParserDiagnostic),
}

/// Whether an entry is a user message with text, which names the session.
pub open spec fn user_text(e: EntryView) -> bool {
    e.presentation == EntryPresentation::User && trim_end_spec(trim_start_spec(e.primary_text)).len() > 0
}

/// Whether the session has seen a user message once `entries` were
/// observed (when `observe`), having seen one before when `saw`.
pub open spec fn saw_after(saw: bool, observe: bool, entries: Seq<EntryView>) -> bool
    decreases entries.len(),
{
    if entries.len() == 0 {
        saw
    } else {
        saw_after(saw, observe, entries.drop_last()) || (observe && user_text(entries.last()))
    }
}

/// The session title once `entries` were observed (when `observe`): the
/// title of the first user message with text, when none was seen before.
pub open spec fn title_after(title: Option<Seq<char>>, saw: bool, observe: bool, entries: Seq<EntryView>) -> Option<Seq<char>>
    decreases entries.len(),
{
    if entries.len() == 0 {
        title
    } else if observe && !saw_after(saw, observe, entries.drop_last()) && user_text(entries.last()) {
        Some(title_spec(entries.last().primary_text))
    } else {
        title_after(title, saw, observe, entries.drop_last())
    }
}

/// The latest time seen once a record with time `t` is read.
pub open spec fn later_time(t: Option<i64>, updated: i64) -> i64 {
    match t {
        Some(v) => if v > updated { v } else { updated },
        None => updated,
    }
}

/// When the session began once a record is read: session metadata may say.
pub open spec fn created_after(env: Envelope, created: i64) -> i64 {
    if env.kind@ == "session_meta"@ {
        match meta_time(env.payload, envelope_time(env)) {
            Some(t) => t,
            None => created,
        }
    } else {
        created
    }
}

/// The latest time seen once a record is read: its own time, and for
/// session metadata the time it names.
pub open spec fn updated_after(env: Envelope, updated: i64) -> i64 {
    let u = later_time(envelope_time(env), updated);
    if env.kind@ == "session_meta"@ {
        later_time(meta_time(env.payload, envelope_time(env)), u)
    } else {
        u
    }
}

/// Seeing nothing never names the session.
proof fn lemma_title_after_unobserved(title: Option<Seq<char>>, saw: bool, entries: Seq<EntryView>)
    ensures
        title_after(title, saw, false, entries) == title,
    decreases entries.len(),
{
    if entries.len() > 0 {
        lemma_title_after_unobserved(title, saw, entries.drop_last());
    }
}

/// Seeing nothing never teaches the session a user message.
proof fn lemma_saw_after_unobserved(saw: bool, entries: Seq<EntryView>)
    ensures
        saw_after(saw, false, entries) == saw,
    decreases entries.len(),
{
    if entries.len() > 0 {
        lemma_saw_after_unobserved(saw, entries.drop_last());
    }
}

/// Where inherited history starts once a record is read: session metadata
/// may name it; other records keep it.
pub open spec fn ordinal_after(env: Envelope, ordinal: Option<u64>) -> Option<u64> {
    if env.kind@ == "session_meta"@ {
        match u64_member(env.payload, "subagent_history_start_ordinal"@) {
            Some(v) => Some(v),
            None => ordinal,
        }
    } else {
        ordinal
    }
}

/// The source item of the last message between agents once a record
/// (with raw reference `rid`) is read.
pub open spec fn source_after(env: Envelope, rid: Seq<char>, last: Option<Seq<char>>) -> Option<Seq<char>> {
    if env.kind@ == "inter_agent_communication"@ && context_title(env.kind@) is None {
        source_item_of(inter_agent_entry_spec(env.payload, envelope_time(env), rid))
    } else {
        last
    }
}

/// The source item of the last message between agents among a seed's
/// recent entries: that of the latest entry titled as such that names one.
pub open spec fn seed_last_source(recent: Seq<(u64, NormalizedEntry)>) -> Option<Seq<char>>
    decreases recent.len(),
{
    if recent.len() == 0 {
        None
    } else if recent.last().1.title@ == "Inter-agent message"@ && source_item_of(recent.last().1@) is Some {
        source_item_of(recent.last().1@)
    } else {
        seed_last_source(recent.drop_last())
    }
}

/// `a + 1`, saturating.
pub open spec fn inc(a: u64) -> u64 {
    if a == u64::MAX { u64::MAX } else { (a + 1) as u64 }
}

/// Whether `o` is the raw record of `line` with the given id, type and status.
pub open spec fn raw_output(
    o: ParserOutput,
    id: Seq<char>,
    line: ReadLine,
    envelope_type: Seq<char>,
    status: Seq<char>,
    utf8: bool,
    oversize: bool,
    hex: Option<Seq<char>>,
) -> bool {
    o matches ParserOutput::Raw(r) && r.id@ == id && r.line_no == line.line_no && r.byte_offset == line.byte_offset
        && r.byte_length == line.byte_length && r.envelope_type@ == envelope_type && r.parse_status@ == status
        && r.content_hash == line.content_hash && r.utf8 == utf8 && r.oversize == oversize && opt_text(r.hex_preview)
        == hex
}

/// Whether `o` is the diagnostic `code` for the line `line_no` and raw record `id`.
pub open spec fn diag_output(
    o: ParserOutput,
    severity: DiagnosticSeverity,
    code: Seq<char>,
    message: Seq<char>,
    line_no: u64,
    id: Seq<char>,
) -> bool {
    o matches ParserOutput::Diagnostic(d) && d.severity == severity && d.code@ == code && d.message@ == message
        && d.line_no == Some(line_no) && opt_text(d.raw_ref_id) == Some(id)
}

/// Whether `o` outputs the entry `v`.
pub open spec fn upsert_is(o: ParserOutput, v: EntryView) -> bool {
    o matches ParserOutput::EntryUpsert(e) && e@ == v
}

/// The entries accepted one after another.
pub open spec fn accept_all(d: DedupView, cands: Seq<EntryView>, line: u64) -> (DedupView, Seq<EntryView>)
    decreases cands.len(),
{
    if cands.len() == 0 {
        (d, Seq::empty())
    } else {
        let prev = accept_all(d, cands.drop_last(), line);
        let step = accept_spec(prev.0, cands.last(), line);
        (step.0, prev.1.push(step.1))
    }
}

/// Accepting candidates gives one entry per candidate.
pub proof fn lemma_accept_all_len(d: DedupView, cands: Seq<EntryView>, line: u64)
    ensures
        accept_all(d, cands, line).1.len() == cands.len(),
    decreases cands.len(),
{
    if cands.len() > 0 {
        lemma_accept_all_len(d, cands.drop_last(), line);
    }
}

/// The candidate entries of a normalization result.
pub open spec fn candidates(r: ResultView) -> Seq<EntryView> {
    match r {
        ResultView::NoEntry => Seq::empty(),
        ResultView::Entry(e) => seq![e],
        ResultView::Entries(es) => es,
        ResultView::Unknown(e, _) => seq![e],
    }
}

/// The entries among outputs, as entries.
pub open spec fn upserts(outs: Seq<ParserOutput>) -> Seq<EntryView>
    decreases outs.len(),
{
    if outs.len() == 0 {
        Seq::empty()
    } else {
        let rest = upserts(outs.drop_last());
        match outs.last() {
            ParserOutput::EntryUpsert(e) => rest.push(e@),
            _ => rest,
        }
    }
}

/// The ids of accepted entries numbered after `seed_next`.
pub open spec fn new_ids(entries: Seq<EntryView>, seed_next: i64) -> Set<Seq<char>> {
    Set::new(|id: Seq<char>| exists|i: int| 0 <= i < entries.len() && (#[trigger] entries[i]).sequence > seed_next && entries[i].id == id)
}

/// The state of one read of a rollout.
#[derive(Debug)]
pub struct RolloutParser {
    pub session: SessionBuilder,
    pub deduper: Deduper,
    pub seed_next_sequence: i64,
    pub raw_record_count: u64,
    pub recognized_record_count: u64,
    pub incomplete_tail: bool,
    pub partial: bool,
    pub new_entry_ids: Vec<String>,
}

/// The texts of the ids of new entries.
pub open spec fn id_set(v: Seq<String>) -> Set<Seq<char>> {
    Set::new(|id: Seq<char>| exists|i: int| 0 <= i < v.len() && (#[trigger] v[i])@ == id)
}

/// Whether no id occurs twice.
pub open spec fn ids_distinct(v: Seq<String>) -> bool {
    forall|i: int, j: int| 0 <= i < v.len() && 0 <= j < v.len() && i != j ==> (#[trigger] v[i])@ != (#[trigger] v[j])@
}

impl RolloutParser {
    /// Its deduplicator tracks well-formed entries and no new id is listed twice.
    pub open spec fn wf(&self) -> bool {
        self.deduper.wf() && ids_distinct(self.new_entry_ids@)
    }

    /// A read of a rollout from its start.
    pub fn new(context: &ParseContext) -> (r: RolloutParser)
        requires
            vstd::utf8::encode_utf8(crate::rollout::session::filename_stem(context.file_name@)).len() >= 36
                ==> vstd::utf8::is_char_boundary(
                vstd::utf8::encode_utf8(crate::rollout::session::filename_stem(context.file_name@)),
                vstd::utf8::encode_utf8(crate::rollout::session::filename_stem(context.file_name@)).len() - 36,
            ),
        ensures
            r.wf(),
            r.session.id@ == crate::rollout::session::session_id_from_filename_spec(context.file_name@, context.relative_path@),
            r.deduper.view().session_id == r.session.id@,
            r.deduper.view().next_sequence == 0,
            r.deduper.view() == crate::rollout::deduper::fresh_dedup(r.session.id@),
            !r.session.saw_user && r.session.subagent_history_start_ordinal is None && r.session.last_inter_agent_source_id is None,
            r.session.title is None,
            r.session.created_at_micros == match crate::rollout::session::timestamp_from_filename_spec(context.file_name@) {
                Some(t) => t,
                None => context.modified_at_micros,
            },
            r.session.updated_at_micros == context.modified_at_micros,
            r.session.diagnostic_count == 0,
            r.seed_next_sequence == 0 && r.raw_record_count == 0 && r.recognized_record_count == 0,
            !r.incomplete_tail && !r.partial && r.new_entry_ids@.len() == 0,
    {
        let id = crate::rollout::session::session_id_from_file(context);
        let session = SessionBuilder::new(context, id.clone());
        RolloutParser {
            session,
            deduper: Deduper::new(id),
            seed_next_sequence: 0,
            raw_record_count: 0,
            recognized_record_count: 0,
            incomplete_tail: false,
            partial: false,
            new_entry_ids: Vec::new(),
        }
    }

    fn emit_diagnostic(
        &mut self,
        out: &mut Vec<ParserOutput>,
        severity: DiagnosticSeverity,
        code: &str,
        message: &str,
        line_no: u64,
        raw_id: &String,
    )
        ensures
            final(out)@.len() == old(out)@.len() + 1,
            final(out)@.subrange(0, old(out)@.len() as int) == old(out)@,
            diag_output(final(out)@.last(), severity, code@, message@, line_no, raw_id@),
            final(self).session.diagnostic_count == inc(old(self).session.diagnostic_count),
            final(self).session == (SessionBuilder { diagnostic_count: final(self).session.diagnostic_count, ..old(self).session }),
            final(self).deduper == old(self).deduper,
            final(self).new_entry_ids == old(self).new_entry_ids,
            final(self).partial == old(self).partial && final(self).incomplete_tail == old(self).incomplete_tail,
            final(self).raw_record_count == old(self).raw_record_count,
            final(self).recognized_record_count == old(self).recognized_record_count,
            final(self).seed_next_sequence == old(self).seed_next_sequence,
    {
        self.session.diagnostic_count = self.session.diagnostic_count.saturating_add(1);
        out.push(ParserOutput::Diagnostic(ParserDiagnostic {
            severity,
            code: code.to_string(),
            message: message.to_string(),
            line_no: Some(line_no),
            raw_ref_id: Some(raw_id.clone()),
        }));
    }

    /// Records a line that holds no envelope: an unfinished last line, an
    /// oversized line, one that is not UTF-8 or not JSON.
    fn unreadable_line(
        &mut self,
        out: &mut Vec<ParserOutput>,
        line: &ReadLine,
        status: &str,
        utf8: bool,
        oversize: bool,
        hex: Option<String>,
        severity: DiagnosticSeverity,
        code: &str,
        message: &str,
    )
        requires
            old(out)@.len() == 0,
        ensures
            final(out)@.len() == 2,
            raw_output(final(out)@[0], raw_ref_id_spec(old(self).session.id@, line.byte_offset, line.byte_length), *line, Seq::empty(), status@, utf8, oversize, opt_text(hex)),
            diag_output(final(out)@[1], severity, code@, message@, line.line_no, raw_ref_id_spec(old(self).session.id@, line.byte_offset, line.byte_length)),
            final(self).session == (SessionBuilder { diagnostic_count: inc(old(self).session.diagnostic_count), ..old(self).session }),
            final(self).deduper == old(self).deduper,
            final(self).new_entry_ids == old(self).new_entry_ids,
            final(self).partial == old(self).partial && final(self).incomplete_tail == old(self).incomplete_tail,
            final(self).raw_record_count == old(self).raw_record_count,
            final(self).recognized_record_count == old(self).recognized_record_count,
            final(self).seed_next_sequence == old(self).seed_next_sequence,
    {
        let raw_id = raw_ref_id(self.session.id.as_str(), line.byte_offset, line.byte_length);
        out.push(ParserOutput::Raw(RawRecord {
            id: raw_id.clone(),
            line_no: line.line_no,
            byte_offset: line.byte_offset,
            byte_length: line.byte_length,
            envelope_type: String::new(),
            parse_status: status.to_string(),
            content_hash: line.content_hash.clone(),
            utf8,
            oversize,
            hex_preview: hex,
        }));
        let ghost first = out@[0];
        self.emit_diagnostic(out, severity, code, message, line.line_no, &raw_id);
        assert(out@[0] == first);
    }
}

/// The instant a record was written, when its timestamp is RFC 3339.
pub open spec fn envelope_time(env: Envelope) -> Option<i64> {
    match env.timestamp {
        Some(t) => rfc3339_micros(t@),
        None => None,
    }
}

/// The message of a diagnostic about a record's header.
pub open spec fn header_message(code: Seq<char>) -> Seq<char> {
    if code == "invalid_timestamp"@ {
        "record timestamp is not valid RFC3339"@
    } else {
        "history_base references another rollout; only this rollout's local records are indexed"@
    }
}

/// The diagnostics a record's header earns: a timestamp that is not RFC
/// 3339, and a session history based on another rollout.
pub open spec fn header_codes(env: Envelope) -> Seq<Seq<char>> {
    let t = if envelope_time(env) is None && env.timestamp is Some { seq!["invalid_timestamp"@] } else { Seq::empty() };
    let h = if env.kind@ == "session_meta"@ && (json_get(env.payload, "history_base"@) matches Some(v) && !(v is Null)) {
        seq!["unsupported_history_base"@]
    } else {
        Seq::empty()
    };
    t + h
}

/// The parse status of a record: inherited history, a known kind, or unknown.
pub open spec fn record_status(inherited: bool, known: bool) -> Seq<char> {
    if inherited { "inherited"@ } else if known { "valid"@ } else { "unknown"@ }
}

/// Whether a record belongs to history a subagent inherited.
pub open spec fn inherited_record(env: Envelope, start: Option<u64>) -> bool {
    env.kind@ != "session_meta"@ && (env.ordinal matches Some(o) && start matches Some(s) && o < s)
}

/// The session a record is attributed to: a `session_meta` record's own id
/// when it names one.
pub open spec fn record_session_id(env: Envelope, current: Seq<char>) -> Seq<char> {
    if env.kind@ == "session_meta"@ && payload_session_id_spec(env.payload) is Some {
        payload_session_id_spec(env.payload)->0
    } else {
        current
    }
}

impl RolloutParser {
    /// Accepts candidate entries in order; each accepted entry is output,
    /// learned from when `observe`, and noted when it is new.
    fn accept_entries(&mut self, out: &mut Vec<ParserOutput>, cands: Vec<NormalizedEntry>, line_no: u64, observe: bool)
        requires
            old(self).wf(),
            all_wf(cands@),
        ensures
            final(self).wf(),
            final(self).deduper.view() == accept_all(old(self).deduper.view(), entry_views(cands@), line_no).0,
            final(out)@.len() == old(out)@.len() + cands@.len(),
            final(out)@.subrange(0, old(out)@.len() as int) == old(out)@,
            forall|i: int| 0 <= i < cands@.len() ==> upsert_is(#[trigger] final(out)@[old(out)@.len() + i], accept_all(old(self).deduper.view(), entry_views(cands@), line_no).1[i]),
            id_set(final(self).new_entry_ids@) == id_set(old(self).new_entry_ids@).union(
                new_ids(accept_all(old(self).deduper.view(), entry_views(cands@), line_no).1, old(self).seed_next_sequence),
            ),
            final(self).session.diagnostic_count == old(self).session.diagnostic_count,
            final(self).session.id == old(self).session.id,
            final(self).partial == old(self).partial && final(self).incomplete_tail == old(self).incomplete_tail,
            final(self).raw_record_count == old(self).raw_record_count,
            final(self).recognized_record_count == old(self).recognized_record_count,
            final(self).seed_next_sequence == old(self).seed_next_sequence,
            final(self).session.saw_user == saw_after(old(self).session.saw_user, observe, accept_all(old(self).deduper.view(), entry_views(cands@), line_no).1),
            opt_text(final(self).session.title) == title_after(opt_text(old(self).session.title), old(self).session.saw_user, observe, accept_all(old(self).deduper.view(), entry_views(cands@), line_no).1),
            final(self).session.created_at_micros == old(self).session.created_at_micros,
            final(self).session.updated_at_micros == old(self).session.updated_at_micros,
            final(self).session.last_inter_agent_source_id == old(self).session.last_inter_agent_source_id,
            final(self).session.subagent_history_start_ordinal == old(self).session.subagent_history_start_ordinal,
    {
        let ghost d0 = self.deduper.view();
        let ghost o0 = out@;
        let ghost cs = entry_views(cands@);
        let ghost ids0 = id_set(self.new_entry_ids@);
        let n = cands.len();
        let mut rest = cands;
        let mut k: usize = 0;
        let ghost all = rest@;
        while rest.len() > 0
            invariant
                k + rest@.len() == n,
                n == all.len(),
                rest@ == all.skip(k as int),
                all_wf(all),
                cs == entry_views(all),
                self.wf(),
                self.deduper.view() == accept_all(d0, cs.take(k as int), line_no).0,
                out@.len() == o0.len() + k,
                out@.subrange(0, o0.len() as int) == o0,
                forall|i: int| 0 <= i < k ==> upsert_is(#[trigger] out@[o0.len() + i], accept_all(d0, cs.take(k as int), line_no).1[i]),
                accept_all(d0, cs.take(k as int), line_no).1.len() == k,
                id_set(self.new_entry_ids@) == ids0.union(new_ids(accept_all(d0, cs.take(k as int), line_no).1, self.seed_next_sequence)),
                self.session.diagnostic_count == old(self).session.diagnostic_count,
                self.session.id == old(self).session.id,
                self.partial == old(self).partial && self.incomplete_tail == old(self).incomplete_tail,
                self.raw_record_count == old(self).raw_record_count,
                self.recognized_record_count == old(self).recognized_record_count,
                self.seed_next_sequence == old(self).seed_next_sequence,
                ids0 == id_set(old(self).new_entry_ids@),
                self.session.saw_user == saw_after(old(self).session.saw_user, observe, accept_all(d0, cs.take(k as int), line_no).1),
                opt_text(self.session.title) == title_after(opt_text(old(self).session.title), old(self).session.saw_user, observe, accept_all(d0, cs.take(k as int), line_no).1),
                self.session.created_at_micros == old(self).session.created_at_micros,
                self.session.updated_at_micros == old(self).session.updated_at_micros,
                self.session.last_inter_agent_source_id == old(self).session.last_inter_agent_source_id,
                self.session.subagent_history_start_ordinal == old(self).session.subagent_history_start_ordinal,
            decreases rest@.len(),
        {
            let ghost prev = accept_all(d0, cs.take(k as int), line_no);
            let candidate = rest.remove(0);
            assert(candidate == all[k as int]);
            proof {
                assert(cs.take(k + 1).drop_last() =~= cs.take(k as int));
                assert(cs.take(k + 1).last() == candidate@);
            }
            let entry = self.deduper.accept(candidate, line_no);
            if observe {
                self.session.observe_entry(&entry);
            }
            if entry.sequence > self.seed_next_sequence {
                note_new_id(&mut self.new_entry_ids, &entry.id);
            }
            let ghost out_before = out@;
            out.push(ParserOutput::EntryUpsert(entry));
            k = k + 1;
            proof {
                let next = accept_all(d0, cs.take(k as int), line_no);
                assert(next.1 == prev.1.push(entry@));
                assert(next.1.drop_last() =~= prev.1);
                assert(rest@ =~= all.skip(k as int));
                assert(out@.subrange(0, o0.len() as int) =~= o0) by {
                    assert(out@.subrange(0, out_before.len() as int) =~= out_before);
                }
                lemma_new_ids_push(prev.1, entry@, self.seed_next_sequence);
                assert(id_set(self.new_entry_ids@) =~= ids0.union(new_ids(next.1, self.seed_next_sequence)));
                assert forall|i: int| 0 <= i < k implies upsert_is(#[trigger] out@[o0.len() + i], next.1[i]) by {
                    if i < k - 1 {
                        assert(out@[o0.len() + i] == out_before[o0.len() + i]);
                        assert(next.1[i] == prev.1[i]);
                    }
                }
            }
        }
        assert(cs.take(k as int) =~= cs);
    }
}

/// One more accepted entry adds its id when it is new.
proof fn lemma_new_ids_push(prev: Seq<EntryView>, e: EntryView, seed_next: i64)
    ensures
        new_ids(prev.push(e), seed_next) == (if e.sequence > seed_next { new_ids(prev, seed_next).insert(e.id) } else {
            new_ids(prev, seed_next)
        }),
{
    let next = prev.push(e);
    assert forall|x: Seq<char>| #[trigger] new_ids(next, seed_next).contains(x) == (new_ids(prev, seed_next).contains(x)
        || (e.sequence > seed_next && x == e.id)) by {
        if new_ids(prev, seed_next).contains(x) {
            let m = choose|m: int| 0 <= m < prev.len() && (#[trigger] prev[m]).sequence > seed_next && prev[m].id == x;
            assert(next[m] == prev[m]);
        }
        if new_ids(next, seed_next).contains(x) {
            let m = choose|m: int| 0 <= m < next.len() && (#[trigger] next[m]).sequence > seed_next && next[m].id == x;
            if m < prev.len() {
                assert(next[m] == prev[m]);
            }
        }
        if e.sequence > seed_next && x == e.id {
            assert(next[prev.len() as int] == e);
        }
    }
    if e.sequence > seed_next {
        assert(new_ids(next, seed_next) =~= new_ids(prev, seed_next).insert(e.id));
    } else {
        assert(new_ids(next, seed_next) =~= new_ids(prev, seed_next));
    }
}

/// Notes the id of a new entry, once.
fn note_new_id(ids: &mut Vec<String>, id: &String)
    requires
        ids_distinct(old(ids)@),
    ensures
        ids_distinct(final(ids)@),
        id_set(final(ids)@) == id_set(old(ids)@).insert(id@),
{
    let mut j: usize = 0;
    let mut seen = false;
    while j < ids.len()
        invariant
            j <= ids@.len(),
            seen == exists|m: int| 0 <= m < j && (#[trigger] ids@[m])@ == id@,
        decreases ids@.len() - j,
    {
        if string_eq(&ids[j], id) {
            seen = true;
        }
        j = j + 1;
    }
    let ghost before = ids@;
    if !seen {
        ids.push(id.clone());
        proof {
            assert forall|a: int, b: int| 0 <= a < ids@.len() && 0 <= b < ids@.len() && a != b implies (#[trigger] ids@[a])@
                != (#[trigger] ids@[b])@ by {
                if a < before.len() && b < before.len() {
                    assert(before[a] == ids@[a] && before[b] == ids@[b]);
                } else if a < before.len() {
                    assert(before[a] == ids@[a]);
                } else {
                    assert(before[b] == ids@[b]);
                }
            }
            assert forall|x: Seq<char>| #[trigger] id_set(ids@).contains(x) == id_set(before).insert(id@).contains(x) by {
                if id_set(before).contains(x) {
                    let m = choose|m: int| 0 <= m < before.len() && (#[trigger] before[m])@ == x;
                    assert(ids@[m] == before[m]);
                }
                if id_set(ids@).contains(x) {
                    let m = choose|m: int| 0 <= m < ids@.len() && (#[trigger] ids@[m])@ == x;
                    if m < before.len() {
                        assert(ids@[m] == before[m]);
                    }
                }
                if x == id@ {
                    assert(ids@[before.len() as int]@ == x);
                }
            }
            assert(id_set(ids@) =~= id_set(before).insert(id@));
        }
    } else {
        proof {
            assert(id_set(ids@).contains(id@));
            assert(id_set(ids@) =~= id_set(ids@).insert(id@));
        }
    }
}

impl RolloutParser {
    /// Records the header of an envelope: the session id a `session_meta`
    /// record names, the raw record, the instant (a later one moves the
    /// session's update time), diagnostics for a bad timestamp and a history
    /// based on another rollout, and the count of recognized records.
    fn record_header(&mut self, out: &mut Vec<ParserOutput>, line: &ReadLine, env: &Envelope) -> (r: (String, bool, Option<i64>))
        requires
            old(self).wf(),
            old(out)@.len() == 0,
        ensures
            final(self).wf(),
            ({
                let sid = record_session_id(*env, old(self).session.id@);
                let rid = raw_ref_id_spec(sid, line.byte_offset, line.byte_length);
                let inherited = inherited_record(*env, old(self).session.subagent_history_start_ordinal);
                let hd = header_codes(*env);
                &&& r.0@ == rid && r.1 == inherited && r.2 == envelope_time(*env)
                &&& final(self).session.id@ == sid
                &&& final(out)@.len() == 1 + hd.len()
                &&& raw_output(final(out)@[0], rid, *line, env.kind@, record_status(inherited, known_envelope(env.kind@)), true, false, None)
                &&& forall|j: int| 0 <= j < hd.len() ==> diag_output(#[trigger] final(out)@[1 + j], DiagnosticSeverity::Warning, hd[j], header_message(hd[j]), line.line_no, rid)
                &&& final(self).recognized_record_count == if known_envelope(env.kind@) { inc(old(self).recognized_record_count) } else { old(self).recognized_record_count }
                &&& final(self).partial == (old(self).partial || hd.len() > 0)
                &&& final(self).deduper.view() == if env.kind@ == "session_meta"@ && payload_session_id_spec(env.payload) is Some && old(self).deduper.next_sequence == 0 {
                    DedupView { session_id: sid, ..old(self).deduper.view() }
                } else {
                    old(self).deduper.view()
                }
            }),
            final(self).session.saw_user == old(self).session.saw_user,
            final(self).session.last_inter_agent_source_id == old(self).session.last_inter_agent_source_id,
            final(self).session.subagent_history_start_ordinal == old(self).session.subagent_history_start_ordinal,
            final(self).session.title == old(self).session.title,
            final(self).session.created_at_micros == old(self).session.created_at_micros,
            final(self).session.updated_at_micros == later_time(envelope_time(*env), old(self).session.updated_at_micros),
            final(self).session.diagnostic_count == sat_add_u64(old(self).session.diagnostic_count, header_codes(*env).len() as int),
            final(self).new_entry_ids == old(self).new_entry_ids,
            final(self).incomplete_tail == old(self).incomplete_tail,
            final(self).raw_record_count == old(self).raw_record_count,
            final(self).seed_next_sequence == old(self).seed_next_sequence,
    {
        let kind = env.kind.as_str();
        let is_meta = crate::text::str_eq(kind, "session_meta");
        if is_meta {
            if let Some(id) = payload_session_id(&env.payload) {
                self.session.id = id.clone();
                self.deduper.set_session_id(id);
            }
        }
        let raw_id = raw_ref_id(self.session.id.as_str(), line.byte_offset, line.byte_length);
        let known = is_known_envelope(kind);
        let inherited = !is_meta && self.session.is_inherited_ordinal(env.ordinal);
        let status = if inherited { "inherited" } else if known { "valid" } else { "unknown" };
        out.push(ParserOutput::Raw(RawRecord {
            id: raw_id.clone(),
            line_no: line.line_no,
            byte_offset: line.byte_offset,
            byte_length: line.byte_length,
            envelope_type: env.kind.clone(),
            parse_status: status.to_string(),
            content_hash: line.content_hash.clone(),
            utf8: true,
            oversize: false,
            hex_preview: None,
        }));
        let ghost raw0 = out@[0];
        let ts = match &env.timestamp {
            Some(t) => parse_timestamp(t.as_str()),
            None => None,
        };
        let ghost t_codes: Seq<Seq<char>> = if ts is None && env.timestamp is Some { seq!["invalid_timestamp"@] } else { Seq::empty() };
        if let Some(t) = ts {
            if t > self.session.updated_at_micros {
                self.session.updated_at_micros = t;
            }
        } else if env.timestamp.is_some() {
            self.partial = true;
            self.emit_diagnostic(out, DiagnosticSeverity::Warning, "invalid_timestamp", "record timestamp is not valid RFC3339", line.line_no, &raw_id);
        }
        assert(out@.len() == 1 + t_codes.len());
        assert(out@[0] == raw0);
        let ghost after_t = out@;
        let history = is_meta && match env.payload.get("history_base") {
            Some(v) => !v.is_null(),
            None => false,
        };
        if history {
            self.partial = true;
            self.emit_diagnostic(
                out,
                DiagnosticSeverity::Warning,
                "unsupported_history_base",
                "history_base references another rollout; only this rollout's local records are indexed",
                line.line_no,
                &raw_id,
            );
        }
        proof {
            reveal_strlit("session_meta");
            reveal_strlit("invalid_timestamp");
            reveal_strlit("unsupported_history_base");
            reveal_strlit("record timestamp is not valid RFC3339");
            reveal_strlit("history_base references another rollout; only this rollout's local records are indexed");
            reveal_strlit("inherited");
            reveal_strlit("valid");
            reveal_strlit("unknown");
            assert(out@[0] == raw0);
            let hd = header_codes(*env);
            assert(hd =~= t_codes + (if history { seq!["unsupported_history_base"@] } else { Seq::<Seq<char>>::empty() }));
            if history {
                assert(out@.subrange(0, after_t.len() as int) == after_t);
                assert forall|j: int| 0 <= j < t_codes.len() implies #[trigger] out@[1 + j] == after_t[1 + j] by {}
            }
        }
        if known {
            self.recognized_record_count = self.recognized_record_count.saturating_add(1);
        }
        proof {
            let sid = record_session_id(*env, old(self).session.id@);
            let rid = raw_ref_id_spec(sid, line.byte_offset, line.byte_length);
            let hd = header_codes(*env);
            assert(self.session.id@ == sid);
            assert(raw_id@ == rid);
            assert(inherited == inherited_record(*env, old(self).session.subagent_history_start_ordinal));
            assert(ts == envelope_time(*env));
            assert(out@.len() == 1 + hd.len());
            assert(raw_output(out@[0], rid, *line, env.kind@, record_status(inherited, known_envelope(env.kind@)), true, false, None));
            assert(header_message("invalid_timestamp"@) == "record timestamp is not valid RFC3339"@);
            assert("unsupported_history_base"@.len() != "invalid_timestamp"@.len());
            assert("unsupported_history_base"@ != "invalid_timestamp"@);
            assert(header_message("unsupported_history_base"@) == "history_base references another rollout; only this rollout's local records are indexed"@);
            if t_codes.len() > 0 {
                assert(diag_output(after_t[1], DiagnosticSeverity::Warning, hd[0], header_message(hd[0]), line.line_no, rid));
                assert(out@[1] == after_t[1]);
            }
            if history {
                assert(diag_output(out@[out@.len() - 1], DiagnosticSeverity::Warning, hd[hd.len() - 1], header_message(hd[hd.len() - 1]), line.line_no, rid));
            }
            assert(forall|j: int| 0 <= j < hd.len() ==> diag_output(#[trigger] out@[1 + j], DiagnosticSeverity::Warning, hd[j], header_message(hd[j]), line.line_no, rid));
            assert(self.partial == (old(self).partial || hd.len() > 0));
        }
        (raw_id, inherited, ts)
    }
}

/// What reading a record that parsed as an envelope does: outputs its raw
/// record and header diagnostics; unless the record is inherited history,
/// the entries its normalization yields as the deduplicator accepts them,
/// with a diagnostic when its type is not supported; and it counts it.
pub open spec fn envelope_recorded(
    a: RolloutParser,
    b: RolloutParser,
    line: ReadLine,
    env: Envelope,
    parsed: Option<JsonValue>,
    out: Seq<ParserOutput>,
) -> bool {
    let sid = record_session_id(env, a.session.id@);
    let rid = raw_ref_id_spec(sid, line.byte_offset, line.byte_length);
    let inherited = inherited_record(env, a.session.subagent_history_start_ordinal);
    let hd = header_codes(env);
    let d0 = header_dedup(env, a.deduper.view(), sid);
    let res = normalize_envelope_spec(
        env,
        envelope_time(env),
        rid,
        a.session.saw_user,
        opt_text(a.session.last_inter_agent_source_id),
        parsed,
    );
    let acc = accept_all(d0, candidates(res), line.line_no);
    &&& out.len() >= 1 + hd.len()
    &&& raw_output(out[0], rid, line, env.kind@, record_status(inherited, known_envelope(env.kind@)), true, false, None)
    &&& forall|j: int| 0 <= j < hd.len() ==> diag_output(#[trigger] out[1 + j], DiagnosticSeverity::Warning, hd[j], header_message(hd[j]), line.line_no, rid)
    &&& b.recognized_record_count == if known_envelope(env.kind@) { inc(a.recognized_record_count) } else { a.recognized_record_count }
    &&& inherited ==> out.len() == 1 + hd.len() && b.deduper.view() == d0 && b.partial == (a.partial || hd.len() > 0)
        && b.new_entry_ids == a.new_entry_ids
    &&& !inherited ==> envelope_outputs(out, line, rid, hd, res, acc.1) && b.deduper.view() == acc.0
        && id_set(b.new_entry_ids@) == id_set(a.new_entry_ids@).union(new_ids(acc.1, a.seed_next_sequence))
        && b.partial == (a.partial || hd.len() > 0 || res is Unknown)
    &&& b.incomplete_tail == a.incomplete_tail
    &&& b.seed_next_sequence == a.seed_next_sequence
    &&& b.session.id@ == sid
    &&& b.session.subagent_history_start_ordinal == ordinal_after(env, a.session.subagent_history_start_ordinal)
    &&& opt_text(b.session.last_inter_agent_source_id) == if inherited {
        opt_text(a.session.last_inter_agent_source_id)
    } else {
        source_after(env, rid, opt_text(a.session.last_inter_agent_source_id))
    }
    &&& b.session.saw_user == if inherited { a.session.saw_user } else { saw_after(a.session.saw_user, !(res is Unknown), acc.1) }
    &&& opt_text(b.session.title) == if inherited {
        opt_text(a.session.title)
    } else {
        title_after(opt_text(a.session.title), a.session.saw_user, !(res is Unknown), acc.1)
    }
    &&& b.session.created_at_micros == if inherited { a.session.created_at_micros } else { created_after(env, a.session.created_at_micros) }
    &&& b.session.diagnostic_count == sat_add_u64(
        a.session.diagnostic_count,
        hd.len() + (if !inherited && res is Unknown { 1int } else { 0int }),
    )
    &&& b.session.updated_at_micros == if inherited {
        later_time(envelope_time(env), a.session.updated_at_micros)
    } else {
        updated_after(env, a.session.updated_at_micros)
    }
}

/// What reading a line without an envelope does: outputs its raw record
/// with `status` and a diagnostic `code`, and counts the diagnostic.
pub open spec fn unreadable_recorded(
    a: RolloutParser,
    b: RolloutParser,
    line: ReadLine,
    status: Seq<char>,
    utf8: bool,
    oversize: bool,
    hex: Option<Seq<char>>,
    severity: DiagnosticSeverity,
    code: Seq<char>,
    message: Seq<char>,
    out: Seq<ParserOutput>,
) -> bool {
    let rid = raw_ref_id_spec(a.session.id@, line.byte_offset, line.byte_length);
    &&& out.len() == 2
    &&& raw_output(out[0], rid, line, Seq::empty(), status, utf8, oversize, hex)
    &&& diag_output(out[1], severity, code, message, line.line_no, rid)
    &&& b.session == (SessionBuilder { diagnostic_count: inc(a.session.diagnostic_count), ..a.session })
    &&& b.deduper == a.deduper && b.new_entry_ids == a.new_entry_ids
    &&& b.recognized_record_count == a.recognized_record_count && b.seed_next_sequence == a.seed_next_sequence
}

/// The deduplicator once a record's header is read.
pub open spec fn header_dedup(env: Envelope, d: DedupView, sid: Seq<char>) -> DedupView {
    if env.kind@ == "session_meta"@ && payload_session_id_spec(env.payload) is Some && d.next_sequence == 0 {
        DedupView { session_id: sid, ..d }
    } else {
        d
    }
}

/// Whether `out` holds what a record of a known envelope gives: its raw
/// record, header diagnostics, the entries its normalization yields as
/// accepted by the deduplicator `d0`, and a diagnostic when its type is
/// not supported.
pub open spec fn envelope_outputs(out: Seq<ParserOutput>, line: ReadLine, rid: Seq<char>, hd: Seq<Seq<char>>, res: ResultView, accepted: Seq<EntryView>) -> bool {
    let n = 1 + hd.len();
    &&& out.len() == n + accepted.len() + (if res is Unknown { 1int } else { 0 })
    &&& forall|i: int| 0 <= i < accepted.len() ==> upsert_is(#[trigger] out[n + i], accepted[i])
    &&& res matches ResultView::Unknown(_, code) ==> diag_output(
        out.last(),
        DiagnosticSeverity::Warning,
        code,
        "record type is not supported; raw metadata remains available"@,
        line.line_no,
        rid,
    )
}

impl RolloutParser {
    /// Reads one record that parsed as an envelope.
    fn record_envelope(&mut self, line: &ReadLine, env: &Envelope, parsed: Option<&JsonValue>) -> (out: Vec<ParserOutput>)
        requires
            old(self).wf(),
        ensures
            final(self).wf(),
            envelope_recorded(*old(self), *final(self), *line, *env, crate::rollout::content::deref_opt(parsed), out@),
            final(self).raw_record_count == old(self).raw_record_count,
    {
        let mut out: Vec<ParserOutput> = Vec::new();
        let ghost s0 = self.session;
        let ghost a = *self;
        let (raw_id, inherited, ts) = self.record_header(&mut out, line, env);
        if inherited {
            assert(envelope_recorded(a, *self, *line, *env, crate::rollout::content::deref_opt(parsed), out@));
            return out;
        }
        let ghost header_out = out@;
        let ghost d0 = self.deduper.view();
        let ghost ids0 = id_set(self.new_entry_ids@);
        let ghost sh = self.session;
        let normalized = normalize_envelope(env, ts, raw_id.as_str(), line.line_no, &mut self.session, parsed);
        let ghost res = normalized@;
        let ghost s1 = self.session;
        proof {
            let sid = record_session_id(*env, old(self).session.id@);
            let rid = raw_ref_id_spec(sid, line.byte_offset, line.byte_length);
            assert(raw_id@ == rid);
            reveal_strlit("session_meta");
            reveal_strlit("inter_agent_communication");
            assert(sh.subagent_history_start_ordinal == a.session.subagent_history_start_ordinal);
            assert(sh.saw_user == a.session.saw_user);
            assert(sh.last_inter_agent_source_id == a.session.last_inter_agent_source_id);
            assert(s1.subagent_history_start_ordinal == ordinal_after(*env, a.session.subagent_history_start_ordinal));
            assert(ts == envelope_time(*env));
            if env.kind@ == "session_meta"@ {
                assert(s1.last_inter_agent_source_id == sh.last_inter_agent_source_id);
                assert("session_meta"@ != "inter_agent_communication"@) by {
                    assert("session_meta"@.len() != "inter_agent_communication"@.len());
                }
                assert(opt_text(s1.last_inter_agent_source_id) == source_after(*env, rid, opt_text(a.session.last_inter_agent_source_id)));
            } else if env.kind@ == "inter_agent_communication"@ && context_title(env.kind@) is None {
                assert(opt_text(s1.last_inter_agent_source_id) == source_item_of(inter_agent_entry_spec(env.payload, ts, raw_id@)));
                assert(opt_text(s1.last_inter_agent_source_id) == source_after(*env, rid, opt_text(a.session.last_inter_agent_source_id)));
            } else {
                assert(s1 == sh);
                assert(opt_text(s1.last_inter_agent_source_id) == source_after(*env, rid, opt_text(a.session.last_inter_agent_source_id)));
            }
            assert(opt_text(s1.last_inter_agent_source_id) == source_after(*env, rid, opt_text(a.session.last_inter_agent_source_id)));
            assert(s1.saw_user == a.session.saw_user);
            assert(s1.title == a.session.title);
            assert(s1.created_at_micros == created_after(*env, a.session.created_at_micros));
            assert(s1.updated_at_micros == updated_after(*env, a.session.updated_at_micros));
            assert(s1.diagnostic_count == sh.diagnostic_count);
        }
        match normalized {
            NormalizeResult::NoEntry => {
                assert(accept_all(d0, Seq::<EntryView>::empty(), line.line_no).1 =~= Seq::<EntryView>::empty());
            },
            NormalizeResult::Entry(c) => {
                let v = vec![c];
                assert(entry_views(v@) =~= candidates(res));
                self.accept_entries(&mut out, v, line.line_no, true);
            },
            NormalizeResult::Entries(cs) => {
                assert(entry_views(cs@) == candidates(res));
                self.accept_entries(&mut out, cs, line.line_no, true);
            },
            NormalizeResult::Unknown(c, code) => {
                self.partial = true;
                let v = vec![c];
                assert(entry_views(v@) =~= candidates(res));
                self.accept_entries(&mut out, v, line.line_no, false);
                let ghost before_diag = out@;
                self.emit_diagnostic(
                    &mut out,
                    DiagnosticSeverity::Warning,
                    code,
                    "record type is not supported; raw metadata remains available",
                    line.line_no,
                    &raw_id,
                );
                assert(forall|i: int| 0 <= i < before_diag.len() ==> #[trigger] out@[i] == before_diag[i]);
            },
        }
        proof {
            let sid = record_session_id(*env, old(self).session.id@);
            let rid = raw_ref_id_spec(sid, line.byte_offset, line.byte_length);
            let hd = header_codes(*env);
            let acc = accept_all(d0, candidates(res), line.line_no);
            let n = header_out.len() as int;
            assert(n == 1 + hd.len());
            assert(res == normalize_envelope_spec(*env, envelope_time(*env), rid, old(self).session.saw_user, opt_text(old(self).session.last_inter_agent_source_id), crate::rollout::content::deref_opt(parsed)));
            assert(out@[0] == header_out[0]);
            assert(forall|j: int| 0 <= j < hd.len() ==> #[trigger] out@[1 + j] == header_out[1 + j]);
            lemma_accept_all_len(d0, candidates(res), line.line_no);
            assert(out@.len() == n + acc.1.len() + (if res is Unknown { 1int } else { 0 }));
            assert(forall|i: int| 0 <= i < acc.1.len() ==> upsert_is(#[trigger] out@[n + i], acc.1[i]));
            assert(envelope_outputs(out@, *line, rid, hd, res, acc.1));
            assert(self.deduper.view() == acc.0);
            assert(id_set(self.new_entry_ids@) == id_set(a.new_entry_ids@).union(new_ids(acc.1, a.seed_next_sequence)));
            assert(self.partial == (a.partial || hd.len() > 0 || res is Unknown));
            assert(self.recognized_record_count == if known_envelope(env.kind@) { inc(a.recognized_record_count) } else { a.recognized_record_count });
            assert(self.incomplete_tail == a.incomplete_tail);
            assert(raw_output(out@[0], rid, *line, env.kind@, record_status(false, known_envelope(env.kind@)), true, false, None));
            if res is Unknown {
                lemma_saw_after_unobserved(s1.saw_user, acc.1);
                lemma_title_after_unobserved(opt_text(s1.title), s1.saw_user, acc.1);
            }
            if res is NoEntry {
                assert(acc.1 =~= Seq::<EntryView>::empty());
            }
            assert(self.session.saw_user == saw_after(a.session.saw_user, !(res is Unknown), acc.1));
            assert(envelope_recorded(a, *self, *line, *env, crate::rollout::content::deref_opt(parsed), out@));
        }
        out
    }
}

impl RolloutParser {
    /// Reads one physical line of the rollout. `envelope` is the record
    /// the line's bytes parse to (none when they are not JSON) and `parsed`
    /// the value of the text `envelope_parse_text` names for it. An
    /// unfinished last line marks the read incomplete; an oversized line,
    /// one that is not UTF-8 and one that is not JSON mark it partial; each
    /// gets a raw record and a diagnostic.
    pub fn process_line(&mut self, line: &ReadLine, envelope: Option<&Envelope>, parsed: Option<&JsonValue>) -> (out: Vec<ParserOutput>)
        requires
            old(self).wf(),
            line.status == LineReadStatus::Complete ==> line.bytes is Some,
        ensures
            final(self).wf(),
            final(self).raw_record_count == inc(old(self).raw_record_count),
            line.status == LineReadStatus::IncompleteTail ==> final(self).incomplete_tail && final(self).partial == old(self).partial
                && unreadable_recorded(
                *old(self),
                *final(self),
                *line,
                "incomplete_tail"@,
                true,
                false,
                None,
                DiagnosticSeverity::Info,
                "incomplete_tail"@,
                "trailing JSONL record is incomplete and will be retried"@,
                out@,
            ),
            line.status == LineReadStatus::Oversize ==> final(self).partial && final(self).incomplete_tail == old(self).incomplete_tail
                && unreadable_recorded(
                *old(self),
                *final(self),
                *line,
                "oversize"@,
                true,
                true,
                None,
                DiagnosticSeverity::Warning,
                "content_too_large"@,
                "JSONL record exceeds configured event size limit"@,
                out@,
            ),
            line.status == LineReadStatus::Complete && !valid_utf8(line.bytes->0@) ==> final(self).partial
                && final(self).incomplete_tail == old(self).incomplete_tail && unreadable_recorded(
                *old(self),
                *final(self),
                *line,
                "invalid_utf8"@,
                false,
                false,
                Some(hex_encode(line.bytes->0@.take(if line.bytes->0@.len() < 4096 { line.bytes->0@.len() as int } else { 4096 }))),
                DiagnosticSeverity::Warning,
                "invalid_utf8"@,
                "JSONL record is not valid UTF-8"@,
                out@,
            ),
            line.status == LineReadStatus::Complete && valid_utf8(line.bytes->0@) && envelope is None ==> final(self).partial
                && final(self).incomplete_tail == old(self).incomplete_tail && unreadable_recorded(
                *old(self),
                *final(self),
                *line,
                "invalid_json"@,
                true,
                false,
                None,
                DiagnosticSeverity::Warning,
                "invalid_json"@,
                "JSONL record is not valid JSON"@,
                out@,
            ),
            line.status == LineReadStatus::Complete && valid_utf8(line.bytes->0@) && envelope is Some ==> envelope_recorded(
                *old(self),
                *final(self),
                *line,
                *envelope->0,
                crate::rollout::content::deref_opt(parsed),
                out@,
            ),
    {
        self.raw_record_count = self.raw_record_count.saturating_add(1);
        let ghost a = *self;
        let mut out: Vec<ParserOutput> = Vec::new();
        match line.status {
            LineReadStatus::IncompleteTail => {
                self.incomplete_tail = true;
                self.unreadable_line(
                    &mut out,
                    line,
                    "incomplete_tail",
                    true,
                    false,
                    None,
                    DiagnosticSeverity::Info,
                    "incomplete_tail",
                    "trailing JSONL record is incomplete and will be retried",
                );
                out
            },
            LineReadStatus::Oversize => {
                self.partial = true;
                self.unreadable_line(
                    &mut out,
                    line,
                    "oversize",
                    true,
                    true,
                    None,
                    DiagnosticSeverity::Warning,
                    "content_too_large",
                    "JSONL record exceeds configured event size limit",
                );
                out
            },
            LineReadStatus::Complete => {
                let bytes = match &line.bytes {
                    Some(b) => b,
                    None => {
                        return out;
                    },
                };
                let text = string_from_utf8(bytes.clone());
                if text.is_none() {
                    self.partial = true;
                    let hex = hex_preview(bytes.as_slice());
                    self.unreadable_line(
                        &mut out,
                        line,
                        "invalid_utf8",
                        false,
                        false,
                        Some(hex),
                        DiagnosticSeverity::Warning,
                        "invalid_utf8",
                        "JSONL record is not valid UTF-8",
                    );
                    return out;
                }
                match envelope {
                    None => {
                        self.partial = true;
                        self.unreadable_line(
                            &mut out,
                            line,
                            "invalid_json",
                            true,
                            false,
                            None,
                            DiagnosticSeverity::Warning,
                            "invalid_json",
                            "JSONL record is not valid JSON",
                        );
                        out
                    },
                    Some(env) => self.record_envelope(line, env, parsed),
                }
            },
        }
    }
}

/// The text of a record that its normalization reads as JSON: a response
/// item's, when it has one.
pub open spec fn envelope_parse_text_spec(env: Envelope) -> Option<Seq<char>> {
    if env.kind@ == "response_item"@ { response_parse_text_spec(env.payload) } else { None }
}

/// The text of a record that its normalization reads as JSON, when it has
/// one: the caller parses it and hands the value to `process_line`.
pub fn envelope_parse_text(env: &Envelope) -> (r: Option<String>)
    ensures
        opt_text(r) == envelope_parse_text_spec(*env),
{
    if crate::text::str_eq(env.kind.as_str(), "response_item") {
        response_parse_text(&env.payload)
    } else {
        None
    }
}

/// `a + b`, saturating.
pub open spec fn sat_add_u64(a: u64, b: int) -> u64 {
    if a + b > u64::MAX { u64::MAX } else { (a + b) as u64 }
}

impl RolloutParser {
    /// The summary of the read: the session with the new entries counted,
    /// the counts, whether the last line was unfinished, and the checkpoint
    /// up to the last complete line.
    pub fn finish(self, context: &ParseContext, checkpoint: &FileCheckpoint) -> (r: ParseSummary)
        ensures
            r.raw_record_count == self.raw_record_count,
            r.recognized_record_count == self.recognized_record_count,
            r.incomplete_tail == self.incomplete_tail,
            r.stable_prefix_bytes == checkpoint.offset,
            r.stable_prefix_hash == checkpoint.prefix_hash,
            r.session.entry_count == sat_add_u64(self.session.entry_count, self.new_entry_ids@.len() as int),
            r.session.completeness == completeness_spec(
                context.root_kind,
                context.now_micros,
                self.session.updated_at_micros,
                self.recognized_record_count,
                self.partial,
                self.incomplete_tail,
            ),
            r.session.index_state == (if self.partial { crate::model::IndexState::Partial } else { crate::model::IndexState::Ready }),
            r.session.title@ == match self.session.title {
                Some(t) => t@,
                None => fallback_title_spec(self.session.created_at_micros),
            },
            r.session.id == self.session.id && r.session.source == self.session.source,
            r.session.diagnostic_count == self.session.diagnostic_count,
            r.session.created_at_micros == self.session.created_at_micros,
            r.session.updated_at_micros == self.session.updated_at_micros,
    {
        let mut session = self.session;
        let count = self.new_entry_ids.len() as u64;
        session.entry_count = session.entry_count.saturating_add(count);
        ParseSummary {
            session: session.finish(context, self.recognized_record_count, self.partial, self.incomplete_tail),
            raw_record_count: self.raw_record_count,
            recognized_record_count: self.recognized_record_count,
            incomplete_tail: self.incomplete_tail,
            stable_prefix_bytes: checkpoint.offset,
            stable_prefix_hash: checkpoint.prefix_hash.clone(),
        }
    }

    /// A read continuing where an earlier one stopped: the stored session,
    /// the last message between agents among the kept entries, the
    /// deduplicator replayed from the seed, and the counts so far.
    pub fn from_seed(seed: &ParseSeed) -> (r: RolloutParser)
        requires
            forall|i: int| 0 <= i < seed.recent@.len() ==> (#[trigger] seed.recent@[i]).1.wf(),
        ensures
            r.wf(),
            r.session.id == seed.session.id,
            r.seed_next_sequence == seed.next_sequence,
            r.raw_record_count == seed.raw_record_count,
            r.recognized_record_count == seed.recognized_record_count,
            r.partial == seed.partial && !r.incomplete_tail && r.new_entry_ids@.len() == 0,
            r.session.saw_user == !crate::text::starts_with(seed.session.title@, "Untitled · "@),
            r.session.subagent_history_start_ordinal is None,
            opt_text(r.session.last_inter_agent_source_id) == seed_last_source(seed.recent@),
            opt_text(r.session.title) == (if crate::text::starts_with(seed.session.title@, "Untitled · "@) {
                None
            } else {
                Some(seed.session.title@)
            }),
            r.session.created_at_micros == seed.session.created_at_micros,
            r.session.updated_at_micros == seed.session.updated_at_micros,
            r.session.diagnostic_count == seed.session.diagnostic_count,
            r.deduper.view() == crate::rollout::deduper::seed_replay(
                DedupView {
                    session_id: seed.session.id@,
                    next_sequence: seed.next_sequence,
                    occurrences: crate::rollout::deduper::occurrence_views(seed.occurrences@),
                    recent: Seq::empty(),
                    active: Seq::empty(),
                },
                crate::rollout::deduper::seed_items(seed.recent@),
            ),
    {
        let record = crate::rollout::types::copy_session_record(&seed.session);
        let mut session = SessionBuilder::from_record(record);
        let mut i: usize = seed.recent.len();
        let mut last: Option<String> = None;
        assert(seed.recent@.take(i as int) =~= seed.recent@);
        while i > 0 && last.is_none()
            invariant
                i <= seed.recent@.len(),
                forall|j: int| 0 <= j < seed.recent@.len() ==> (#[trigger] seed.recent@[j]).1.wf(),
                last is None ==> seed_last_source(seed.recent@) == seed_last_source(seed.recent@.take(i as int)),
                last is Some ==> seed_last_source(seed.recent@) == opt_text(last),
            decreases i,
        {
            let entry = &seed.recent[i - 1].1;
            proof {
                assert(seed.recent@.take(i as int).drop_last() =~= seed.recent@.take(i - 1));
                assert(seed.recent@.take(i as int).last() == seed.recent@[i - 1]);
            }
            if crate::text::str_eq(entry.title.as_str(), "Inter-agent message") {
                last = crate::rollout::entry::source_item_id(entry);
            }
            i = i - 1;
        }
        proof {
            if last is None {
                assert(seed.recent@.take(0) =~= Seq::<(u64, NormalizedEntry)>::empty());
            }
        }
        if last.is_some() {
            session.last_inter_agent_source_id = last;
        }
        RolloutParser {
            session,
            deduper: Deduper::from_seed(seed),
            seed_next_sequence: seed.next_sequence,
            raw_record_count: seed.raw_record_count,
            recognized_record_count: seed.recognized_record_count,
            incomplete_tail: false,
            partial: seed.partial,
            new_entry_ids: Vec::new(),
        }
    }
}

/// Whether an entry has the id `id`.
pub open spec fn entry_has_id(id: Seq<char>) -> spec_fn(EntryView) -> bool {
    |e: EntryView| e.id == id
}

/// Entries with `e` put in: replacing the entry with its id, else at the end.
pub open spec fn upsert_spec(entries: Seq<EntryView>, e: EntryView) -> Seq<EntryView> {
    match crate::rollout::deduper::first_index(entries, entry_has_id(e.id)) {
        Some(i) => entries.update(i, e),
        None => entries.push(e),
    }
}

/// Everything one read of a rollout produced.
#[derive(Debug)]
pub struct ParsedRollout {
    pub summary: ParseSummary,
    pub raw_records: Vec<RawRecord>,
    pub entries: Vec<NormalizedEntry>,
    pub diagnostics: Vec<ParserDiagnostic>,
}

/// Collects a read's outputs: raw records and diagnostics in order, and
/// each entry once, in the place it was first seen, as last updated.
#[derive(Debug)]
pub struct CollectingSink {
    pub raw_records: Vec<RawRecord>,
    pub entries: Vec<NormalizedEntry>,
    pub diagnostics: Vec<ParserDiagnostic>,
}

impl CollectingSink {
    /// A sink that has collected nothing.
    pub fn new() -> (r: CollectingSink)
        ensures
            r.raw_records@.len() == 0 && r.entries@.len() == 0 && r.diagnostics@.len() == 0,
    {
        CollectingSink { raw_records: Vec::new(), entries: Vec::new(), diagnostics: Vec::new() }
    }

    /// Takes one output.
    pub fn emit(&mut self, output: ParserOutput)
        ensures
            match output {
                ParserOutput::Raw(r) => final(self).raw_records@ == old(self).raw_records@.push(r)
                    && final(self).entries == old(self).entries && final(self).diagnostics == old(self).diagnostics,
                ParserOutput::Diagnostic(d) => final(self).diagnostics@ == old(self).diagnostics@.push(d)
                    && final(self).entries == old(self).entries && final(self).raw_records == old(self).raw_records,
                ParserOutput::EntryUpsert(e) => entry_views(final(self).entries@) == upsert_spec(entry_views(old(self).entries@), e@)
                    && final(self).raw_records == old(self).raw_records && final(self).diagnostics == old(self).diagnostics,
            },
    {
        match output {
            ParserOutput::Raw(r) => self.raw_records.push(r),
            ParserOutput::Diagnostic(d) => self.diagnostics.push(d),
            ParserOutput::EntryUpsert(e) => {
                let ghost s = entry_views(self.entries@);
                let mut i: usize = 0;
                while i < self.entries.len() && !string_eq(&self.entries[i].id, &e.id)
                    invariant
                        i <= self.entries@.len(),
                        s == entry_views(self.entries@),
                        forall|j: int| 0 <= j < i ==> !entry_has_id(e@.id)(#[trigger] s[j]),
                    decreases self.entries@.len() - i,
                {
                    assert(!entry_has_id(e@.id)(s[i as int]));
                    i = i + 1;
                }
                proof {
                    if i < s.len() {
                        assert(entry_has_id(e@.id)(s[i as int]));
                    }
                    crate::rollout::deduper::lemma_first_index(s, entry_has_id(e@.id), i as int);
                }
                if i < self.entries.len() {
                    let ghost ev = e@;
                    self.entries.set(i, e);
                    assert(entry_views(self.entries@) =~= s.update(i as int, ev));
                } else {
                    let ghost ev = e@;
                    self.entries.push(e);
                    assert(entry_views(self.entries@) =~= s.push(ev));
                }
            },
        }
    }

    /// Everything collected, with the read's summary.
    pub fn finish(self, summary: ParseSummary) -> (r: ParsedRollout)
        ensures
            r.summary == summary && r.raw_records == self.raw_records && r.entries == self.entries
                && r.diagnostics == self.diagnostics,
    {
        ParsedRollout { summary, raw_records: self.raw_records, entries: self.entries, diagnostics: self.diagnostics }
    }
}

} // verus!
