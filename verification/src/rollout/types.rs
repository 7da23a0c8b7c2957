//! Records produced while reading a rollout file.

use vstd::prelude::*;

use crate::model::{Completeness, DiagnosticSeverity, IndexState, SessionParentRelation, SourceKind};
use crate::rollout::entry::NormalizedEntry;

verus! {

/// Version of the rollout normalizer; snapshots of other versions are rebuilt.
pub const PARSER_VERSION: u32 = 2;

/// Which Codex directory a rollout lives in.
#[derive(Clone, Copy, Debug, PartialEq, Eq, Structural)]
pub enum RootKind {
    Active,
    Archived,
}

/// What the parser knows about the file it reads.
#[derive(Clone, Debug)]
pub struct ParseContext {
    pub root_kind: RootKind,
    pub relative_path: String,
    pub file_name: String,
    pub modified_at_micros: i64,
    pub now_micros: i64,
    pub max_event_bytes: usize,
}

/// Where a normalized entry came from.
#[derive(Clone, Copy, Debug, PartialEq, Eq, Structural)]
pub enum EntryOrigin {
    ItemCompleted,
    EventPresentation,
    ResponseItem,
    Derived,
}

/// One physical JSONL record.
#[derive(Clone, Debug, PartialEq, Eq)]
pub struct RawRecord {
    pub id: String,
    pub line_no: u64,
    pub byte_offset: u64,
    pub byte_length: u64,
    pub envelope_type: String,
    pub parse_status: String,
    pub content_hash: String,
    pub utf8: bool,
    pub oversize: bool,
    pub hex_preview: Option<String>,
}

/// A problem the parser found.
#[derive(Clone, Debug, PartialEq, Eq)]
pub struct ParserDiagnostic {
    pub severity: DiagnosticSeverity,
    pub code: String,
    pub message: String,
    pub line_no: Option<u64>,
    pub raw_ref_id: Option<String>,
}

/// The session a rollout describes.
#[derive(Clone, Debug, PartialEq, Eq)]
pub struct SessionRecord {
    pub id: String,
    pub source: SourceKind,
    pub parent_thread_id: Option<String>,
    pub parent_relation: Option<SessionParentRelation>,
    pub proposed_plan_hash: Option<String>,
    pub proposed_plan_at_micros: Option<i64>,
    pub handoff_plan_hash: Option<String>,
    pub handoff_at_micros: Option<i64>,
    pub cwd: Option<String>,
    pub title: String,
    pub preview: String,
    pub created_at_micros: i64,
    pub updated_at_micros: i64,
    pub archived: bool,
    pub cli_version: Option<String>,
    pub provider: Option<String>,
    pub history_line: Option<u64>,
    pub git_branch: Option<String>,
    pub git_commit: Option<String>,
    pub entry_count: u64,
    pub index_state: IndexState,
    pub completeness: Completeness,
    pub diagnostic_count: u64,
}

/// Totals of one parse.
#[derive(Clone, Debug, PartialEq, Eq)]
pub struct ParseSummary {
    pub session: SessionRecord,
    pub raw_record_count: u64,
    pub recognized_record_count: u64,
    pub incomplete_tail: bool,
    pub stable_prefix_bytes: u64,
    pub stable_prefix_hash: String,
}

/// Where an earlier read of a rollout stopped, to continue from there: the
/// session so far, the next entry number, how often each id base was used,
/// the entries still open to duplicates, the counts so far, and the
/// checkpoint.
#[derive(Debug)]
pub struct ParseSeed {
    pub session: SessionRecord,
    pub next_sequence: i64,
    pub occurrences: Vec<(String, u64)>,
    pub recent: Vec<(u64, NormalizedEntry)>,
    pub raw_record_count: u64,
    pub recognized_record_count: u64,
    pub checkpoint_offset: u64,
    pub checkpoint_line: u64,
    pub partial: bool,
}

fn copy_opt_string(s: &Option<String>) -> (r: Option<String>)
    ensures
        r == *s,
{
    match s {
        Some(t) => Some(t.clone()),
        None => None,
    }
}

/// A copy of a session record.
pub fn copy_session_record(s: &SessionRecord) -> (r: SessionRecord)
    ensures
        r == *s,
{
    SessionRecord {
        id: s.id.clone(),
        source: s.source,
        parent_thread_id: copy_opt_string(&s.parent_thread_id),
        parent_relation: s.parent_relation,
        proposed_plan_hash: copy_opt_string(&s.proposed_plan_hash),
        proposed_plan_at_micros: s.proposed_plan_at_micros,
        handoff_plan_hash: copy_opt_string(&s.handoff_plan_hash),
        handoff_at_micros: s.handoff_at_micros,
        cwd: copy_opt_string(&s.cwd),
        title: s.title.clone(),
        preview: s.preview.clone(),
        created_at_micros: s.created_at_micros,
        updated_at_micros: s.updated_at_micros,
        archived: s.archived,
        cli_version: copy_opt_string(&s.cli_version),
        provider: copy_opt_string(&s.provider),
        history_line: s.history_line,
        git_branch: copy_opt_string(&s.git_branch),
        git_commit: copy_opt_string(&s.git_commit),
        entry_count: s.entry_count,
        index_state: s.index_state,
        completeness: s.completeness,
        diagnostic_count: s.diagnostic_count,
    }
}

} // verus!
