//! Rollout source files found on disk and the catalog's record of them.

use vstd::prelude::*;

use crate::rollout::types::{RootKind, SessionRecord};
use crate::text::{str_lt, string_eq, string_push_str, text_lt};

verus! {

/// How a source is (re)indexed.
#[derive(Clone, Copy, Debug, PartialEq, Eq, Structural)]
pub enum ScanMode {
    Full,
    Append { checkpoint_offset: u64 },
}

/// The catalog's record of one source file.
#[derive(Clone, Debug)]
pub struct SourceFileRecord {
    pub root_kind: RootKind,
    pub relative_path: String,
    pub file_key: String,
    pub size_bytes: u64,
    pub mtime_ns: i64,
    pub head_hash: Option<String>,
    pub tail_hash: Option<String>,
    pub generation: u64,
    pub placeholder: Option<SessionRecord>,
}

/// A rollout file found during discovery, with the session it belongs to.
#[derive(Clone, Debug)]
pub struct DiscoveredSource {
    pub root: String,
    pub path: String,
    pub session_id: String,
    pub created_at_micros: i64,
    pub source: SourceFileRecord,
    pub duplicate_paths: Vec<String>,
}

/// A problem met while walking the source directories.
#[derive(Clone, Debug)]
pub struct DiscoveryIssue {
    pub code: String,
    pub message: String,
}

/// The outcome of one discovery pass.
#[derive(Clone, Debug)]
pub struct Discovery {
    pub sources: Vec<DiscoveredSource>,
    pub issues: Vec<DiscoveryIssue>,
    pub total_bytes: u64,
    pub excluded_files: u64,
    pub excluded_bytes: u64,
}

/// The outcome of scanning one source.
#[derive(Clone, Debug)]
pub struct ScanOutcome {
    pub source_file_id: i64,
    pub session_id: String,
    pub changed_during_scan: bool,
    pub appended: bool,
}

/// The outcome of refreshing one source's catalog entry.
#[derive(Clone, Debug)]
pub struct CatalogOutcome {
    pub source: DiscoveredSource,
    pub has_snapshot: bool,
    pub changed: bool,
}

/// Whether `left` should represent a session rather than `right` when two
/// files carry the same session: active before archived, then the newer
/// file, then the smaller relative path.
pub open spec fn precedes_spec(left: &DiscoveredSource, right: &DiscoveredSource) -> bool {
    let la = left.source.root_kind == RootKind::Active;
    let ra = right.source.root_kind == RootKind::Active;
    if la != ra {
        la
    } else if left.source.mtime_ns != right.source.mtime_ns {
        left.source.mtime_ns > right.source.mtime_ns
    } else {
        text_lt(left.source.relative_path@, right.source.relative_path@)
    }
}

/// Whether `left` should represent a session rather than `right`.
pub fn source_precedes(left: &DiscoveredSource, right: &DiscoveredSource) -> (r: bool)
    ensures
        r == precedes_spec(left, right),
{
    let la = left.source.root_kind == RootKind::Active;
    let ra = right.source.root_kind == RootKind::Active;
    if la != ra {
        la
    } else if left.source.mtime_ns != right.source.mtime_ns {
        left.source.mtime_ns > right.source.mtime_ns
    } else {
        str_lt(left.source.relative_path.as_str(), right.source.relative_path.as_str())
    }
}

/// The stored name of a root kind.
pub open spec fn root_kind_name(root_kind: RootKind) -> Seq<char> {
    match root_kind {
        RootKind::Active => "active"@,
        RootKind::Archived => "archived"@,
    }
}

/// The stored name of a root kind.
pub fn root_kind_value(root_kind: RootKind) -> (r: &'static str)
    ensures
        r@ == root_kind_name(root_kind),
{
    match root_kind {
        RootKind::Active => "active",
        RootKind::Archived => "archived",
    }
}

/// The catalog key of a source: root kind, a NUL, then the relative path.
pub open spec fn stored_key_spec(root_kind: RootKind, relative_path: Seq<char>) -> Seq<char> {
    root_kind_name(root_kind) + seq!['\0'] + relative_path
}

/// The catalog key of a source: root kind, a NUL, then the relative path.
pub fn stored_key(root_kind: RootKind, relative_path: &str) -> (r: String)
    ensures
        r@ == stored_key_spec(root_kind, relative_path@),
{
    let mut key = root_kind_value(root_kind).to_owned();
    proof {
        reveal_strlit("\0");
    }
    string_push_str(&mut key, "\0");
    string_push_str(&mut key, relative_path);
    key
}

/// The catalog key of a discovered source.
pub fn source_key(source: &DiscoveredSource) -> (r: String)
    ensures
        r@ == stored_key_spec(source.source.root_kind, source.source.relative_path@),
{
    stored_key(source.source.root_kind, source.source.relative_path.as_str())
}

/// What identifies one observed state of a source file.
#[derive(Clone, Debug)]
pub struct SourceFingerprint {
    pub root_kind: &'static str,
    pub relative_path: String,
    pub file_key: String,
    pub size_bytes: u64,
    pub mtime_ns: i64,
}

/// The fingerprint of a discovered source.
pub fn source_fingerprint(source: &DiscoveredSource) -> (r: SourceFingerprint)
    ensures
        r.root_kind@ == root_kind_name(source.source.root_kind),
        r.relative_path@ == source.source.relative_path@,
        r.file_key@ == source.source.file_key@,
        r.size_bytes == source.source.size_bytes,
        r.mtime_ns == source.source.mtime_ns,
{
    SourceFingerprint {
        root_kind: root_kind_value(source.source.root_kind),
        relative_path: source.source.relative_path.clone(),
        file_key: source.source.file_key.clone(),
        size_bytes: source.source.size_bytes,
        mtime_ns: source.source.mtime_ns,
    }
}

/// What the catalog last recorded about a source file.
#[derive(Clone, Debug)]
pub struct StoredSource {
    pub root_kind: RootKind,
    pub relative_path: String,
    pub file_key: String,
    pub size_bytes: u64,
    pub mtime_ns: i64,
    pub snapshot_file_key: Option<String>,
    pub snapshot_size_bytes: Option<u64>,
    pub snapshot_mtime_ns: Option<i64>,
    pub snapshot_revision: u64,
    pub catalog_complete: bool,
    pub scan_state: String,
    pub session_id: Option<String>,
}

/// Whether the indexed snapshot was taken of exactly this file state.
pub open spec fn snapshot_matches_spec(stored: &StoredSource, source: &DiscoveredSource) -> bool {
    &&& stored.snapshot_revision > 0
    &&& stored.snapshot_file_key matches Some(k) && k@ == source.source.file_key@
    &&& stored.snapshot_size_bytes == Some(source.source.size_bytes)
    &&& stored.snapshot_mtime_ns == Some(source.source.mtime_ns)
}

/// Whether the indexed snapshot was taken of exactly this file state.
pub fn snapshot_matches(stored: &StoredSource, source: &DiscoveredSource) -> (r: bool)
    ensures
        r == snapshot_matches_spec(stored, source),
{
    stored.snapshot_revision > 0 && match &stored.snapshot_file_key {
        Some(k) => string_eq(k, &source.source.file_key),
        None => false,
    } && stored.snapshot_size_bytes == Some(source.source.size_bytes)
        && stored.snapshot_mtime_ns == Some(source.source.mtime_ns)
}

/// Whether the catalog's record still describes this file and session.
pub open spec fn metadata_matches_spec(stored: &StoredSource, source: &DiscoveredSource) -> bool {
    &&& stored.file_key@ == source.source.file_key@
    &&& stored.size_bytes == source.source.size_bytes
    &&& stored.mtime_ns == source.source.mtime_ns
    &&& stored.session_id matches Some(id) && id@ == source.session_id@
    &&& (stored.catalog_complete || snapshot_matches_spec(stored, source))
}

/// Whether the catalog's record still describes this file and session.
pub fn metadata_matches(stored: &StoredSource, source: &DiscoveredSource) -> (r: bool)
    ensures
        r == metadata_matches_spec(stored, source),
{
    string_eq(&stored.file_key, &source.source.file_key)
        && stored.size_bytes == source.source.size_bytes
        && stored.mtime_ns == source.source.mtime_ns
        && match &stored.session_id {
            Some(id) => string_eq(id, &source.session_id),
            None => false,
        } && (stored.catalog_complete || snapshot_matches(stored, source))
}

} // verus!
