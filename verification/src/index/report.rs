//! Reports of reconcile cycles and the updates the index coordinator sends.

use vstd::prelude::*;

use crate::index::sources::ScanOutcome;
use crate::model::IndexProgress;

verus! {

/// Where synchronization of one session stands.
#[derive(Clone, Copy, Debug, PartialEq, Eq, Structural)]
pub enum SessionSyncState {
    Checking,
    Queued,
    Indexing,
    Current,
    NotFound,
    SourceMissing,
}

/// Why the index coordinator could not serve a request.
#[derive(Clone, Debug)]
pub enum CoordinatorError {
    /// The catalog lock was poisoned while `context` held it.
    LockPoisoned { context: &'static str },
    /// The direct synchronization queue did not take the request.
    QueueUnavailable { reason: String },
}

impl CoordinatorError {
    /// Whether the failure is internal rather than a refused request.
    pub fn is_internal(&self) -> (r: bool)
        ensures
            r == (*self is LockPoisoned),
    {
        match self {
            CoordinatorError::LockPoisoned { .. } => true,
            CoordinatorError::QueueUnavailable { .. } => false,
        }
    }
}

/// What one reconcile cycle did.
#[derive(Clone, Debug)]
pub struct ReconcileReport {
    pub generation: u64,
    pub discovered_files: u64,
    pub discovered_bytes: u64,
    pub indexed_files: u64,
    pub appended_files: u64,
    pub failed_files: u64,
    pub removed_files: u64,
    pub discovery_issues: u64,
    pub excluded_files: u64,
    pub excluded_bytes: u64,
    pub reconcile_again: bool,
    pub failures: Vec<String>,
    pub updated_sessions: Vec<String>,
    pub appended_sessions: Vec<String>,
}

impl Default for ReconcileReport {
    fn default() -> (r: Self)
        ensures
            r.generation == 0 && r.discovered_files == 0 && r.discovered_bytes == 0,
            r.indexed_files == 0 && r.appended_files == 0 && r.failed_files == 0,
            r.removed_files == 0 && r.discovery_issues == 0,
            r.excluded_files == 0 && r.excluded_bytes == 0 && !r.reconcile_again,
            r.failures@.len() == 0 && r.updated_sessions@.len() == 0 && r.appended_sessions@.len() == 0,
    {
        ReconcileReport {
            generation: 0,
            discovered_files: 0,
            discovered_bytes: 0,
            indexed_files: 0,
            appended_files: 0,
            failed_files: 0,
            removed_files: 0,
            discovery_issues: 0,
            excluded_files: 0,
            excluded_bytes: 0,
            reconcile_again: false,
            failures: Vec::new(),
            updated_sessions: Vec::new(),
            appended_sessions: Vec::new(),
        }
    }
}

/// What the index coordinator tells its listeners.
#[derive(Clone, Debug)]
pub enum IndexUpdate {
    Discovering { generation: u64 },
    Progress { generation: u64, progress: IndexProgress },
    SessionCommitted { generation: u64, session_id: String },
    SessionState { generation: u64, session_id: String, state: SessionSyncState },
    Completed { report: ReconcileReport, foreground: bool },
}

/// `a + b`, saturating at `u64::MAX`.
pub open spec fn sat_add(a: u64, b: u64) -> u64 {
    if a + b > u64::MAX { u64::MAX } else { (a + b) as u64 }
}

/// `a - b`, saturating at 0.
pub open spec fn sat_sub(a: u64, b: u64) -> u64 {
    if a >= b { (a - b) as u64 } else { 0 }
}

/// Counts one indexed file in a report: it was indexed, perhaps appended,
/// and its session was updated (and appended to, when it was).
pub fn record_outcome(report: &mut ReconcileReport, outcome: &ScanOutcome)
    ensures
        final(report).indexed_files == sat_add(old(report).indexed_files, 1),
        final(report).appended_files == sat_add(old(report).appended_files, if outcome.appended { 1 } else { 0 }),
        final(report).reconcile_again == (old(report).reconcile_again || outcome.changed_during_scan),
        final(report).appended_sessions@ == if outcome.appended {
            old(report).appended_sessions@.push(outcome.session_id)
        } else {
            old(report).appended_sessions@
        },
        final(report).updated_sessions@ == old(report).updated_sessions@.push(outcome.session_id),
        final(report).generation == old(report).generation,
        final(report).discovered_files == old(report).discovered_files,
        final(report).discovered_bytes == old(report).discovered_bytes,
        final(report).failed_files == old(report).failed_files,
        final(report).removed_files == old(report).removed_files,
        final(report).discovery_issues == old(report).discovery_issues,
        final(report).excluded_files == old(report).excluded_files,
        final(report).excluded_bytes == old(report).excluded_bytes,
        final(report).failures@ == old(report).failures@,
{
    report.indexed_files = report.indexed_files.saturating_add(1);
    report.appended_files = report.appended_files.saturating_add(if outcome.appended { 1 } else { 0 });
    report.reconcile_again = report.reconcile_again || outcome.changed_during_scan;
    if outcome.appended {
        report.appended_sessions.push(outcome.session_id.clone());
    }
    report.updated_sessions.push(outcome.session_id.clone());
}

/// Whether a cycle finished cleanly: no failed file, no discovery issue and
/// no request to reconcile again.
pub fn report_is_healthy(report: &ReconcileReport) -> (r: bool)
    ensures
        r == (report.failed_files == 0 && report.discovery_issues == 0 && !report.reconcile_again),
{
    report.failed_files == 0 && report.discovery_issues == 0 && !report.reconcile_again
}

/// The progress a finished cycle reports: every file and byte outside the
/// exclusions counts as processed.
pub fn report_progress(report: &ReconcileReport) -> (r: IndexProgress)
    ensures
        r.total_files == sat_sub(report.discovered_files, report.excluded_files),
        r.processed_files == r.total_files,
        r.total_bytes == sat_sub(report.discovered_bytes, report.excluded_bytes),
        r.processed_bytes == r.total_bytes,
        r.failed_files == report.failed_files,
        r.excluded_files == report.excluded_files,
        r.excluded_bytes == report.excluded_bytes,
{
    let files = report.discovered_files.saturating_sub(report.excluded_files);
    let bytes = report.discovered_bytes.saturating_sub(report.excluded_bytes);
    IndexProgress {
        total_files: files,
        processed_files: files,
        total_bytes: bytes,
        processed_bytes: bytes,
        failed_files: report.failed_files,
        excluded_files: report.excluded_files,
        excluded_bytes: report.excluded_bytes,
    }
}

} // verus!
