//! The viewer's API data model: wire enums and the records the HTTP API returns.

use vstd::prelude::*;
use std::collections::BTreeMap;

use crate::text::str_eq;

verus! {

/// Which Codex front end produced a session.
#[derive(Clone, Copy, Debug, PartialEq, Eq, Structural)]
pub enum SourceKind {
    Cli,
    Vscode,
    Exec,
    Review,
    Subagent,
    AppServer,
    Unknown,
}

impl SourceKind {
    /// The wire name of this value.
    pub open spec fn name_spec(self) -> Seq<char> {
        match self {
            SourceKind::Cli => "cli"@,
            SourceKind::Vscode => "vscode"@,
            SourceKind::Exec => "exec"@,
            SourceKind::Review => "review"@,
            SourceKind::Subagent => "subagent"@,
            SourceKind::AppServer => "appServer"@,
            SourceKind::Unknown => "unknown"@,
        }
    }

    /// The wire name of this value.
    pub fn as_str(self) -> (r: &'static str)
        ensures
            r@ == self.name_spec(),
    {
        match self {
            SourceKind::Cli => "cli",
            SourceKind::Vscode => "vscode",
            SourceKind::Exec => "exec",
            SourceKind::Review => "review",
            SourceKind::Subagent => "subagent",
            SourceKind::AppServer => "appServer",
            SourceKind::Unknown => "unknown",
        }
    }

    /// The value whose wire name is `value`, if any.
    pub open spec fn from_name_spec(value: Seq<char>) -> Option<Self> {
        if value == "cli"@ {
            Some(SourceKind::Cli)
        } else if value == "vscode"@ {
            Some(SourceKind::Vscode)
        } else if value == "exec"@ {
            Some(SourceKind::Exec)
        } else if value == "review"@ {
            Some(SourceKind::Review)
        } else if value == "subagent"@ {
            Some(SourceKind::Subagent)
        } else if value == "appServer"@ {
            Some(SourceKind::AppServer)
        } else if value == "unknown"@ {
            Some(SourceKind::Unknown)
        } else {
            None
        }
    }

    /// The value whose wire name is `value`, if any.
    pub fn parse(value: &str) -> (r: Option<Self>)
        ensures
            r == Self::from_name_spec(value@),
            r matches Some(k) ==> k.name_spec() == value@,
            r is None ==> forall|k: Self| k.name_spec() != value@,
    {
        if str_eq(value, "cli") {
            return Some(SourceKind::Cli);
        }
        if str_eq(value, "vscode") {
            return Some(SourceKind::Vscode);
        }
        if str_eq(value, "exec") {
            return Some(SourceKind::Exec);
        }
        if str_eq(value, "review") {
            return Some(SourceKind::Review);
        }
        if str_eq(value, "subagent") {
            return Some(SourceKind::Subagent);
        }
        if str_eq(value, "appServer") {
            return Some(SourceKind::AppServer);
        }
        if str_eq(value, "unknown") {
            return Some(SourceKind::Unknown);
        }
        proof {
            assert forall|k: Self| k.name_spec() != value@ by {
                match k {
                    SourceKind::Cli => {},
                    SourceKind::Vscode => {},
                    SourceKind::Exec => {},
                    SourceKind::Review => {},
                    SourceKind::Subagent => {},
                    SourceKind::AppServer => {},
                    SourceKind::Unknown => {},
                }
            }
        }
        None
    }
}

/// How a session relates to its parent thread.
#[derive(Clone, Copy, Debug, PartialEq, Eq, Structural)]
pub enum SessionParentRelation {
    Parent,
    Fork,
    PlanHandoff,
}

impl SessionParentRelation {
    /// The wire name of this value.
    pub open spec fn name_spec(self) -> Seq<char> {
        match self {
            SessionParentRelation::Parent => "parent"@,
            SessionParentRelation::Fork => "fork"@,
            SessionParentRelation::PlanHandoff => "planHandoff"@,
        }
    }

    /// The wire name of this value.
    pub fn as_str(self) -> (r: &'static str)
        ensures
            r@ == self.name_spec(),
    {
        match self {
            SessionParentRelation::Parent => "parent",
            SessionParentRelation::Fork => "fork",
            SessionParentRelation::PlanHandoff => "planHandoff",
        }
    }
}

/// Indexing state of a session snapshot.
#[derive(Clone, Copy, Debug, PartialEq, Eq, Structural)]
pub enum IndexState {
    Pending,
    Indexing,
    Ready,
    Partial,
    Error,
}

impl IndexState {
    /// The wire name of this value.
    pub open spec fn name_spec(self) -> Seq<char> {
        match self {
            IndexState::Pending => "pending"@,
            IndexState::Indexing => "indexing"@,
            IndexState::Ready => "ready"@,
            IndexState::Partial => "partial"@,
            IndexState::Error => "error"@,
        }
    }

    /// The wire name of this value.
    pub fn as_str(self) -> (r: &'static str)
        ensures
            r@ == self.name_spec(),
    {
        match self {
            IndexState::Pending => "pending",
            IndexState::Indexing => "indexing",
            IndexState::Ready => "ready",
            IndexState::Partial => "partial",
            IndexState::Error => "error",
        }
    }
}

/// How complete a session's transcript is.
#[derive(Clone, Copy, Debug, PartialEq, Eq, Structural)]
pub enum Completeness {
    Live,
    Complete,
    Partial,
    Unsupported,
}

impl Completeness {
    /// The wire name of this value.
    pub open spec fn name_spec(self) -> Seq<char> {
        match self {
            Completeness::Live => "live"@,
            Completeness::Complete => "complete"@,
            Completeness::Partial => "partial"@,
            Completeness::Unsupported => "unsupported"@,
        }
    }

    /// The wire name of this value.
    pub fn as_str(self) -> (r: &'static str)
        ensures
            r@ == self.name_spec(),
    {
        match self {
            Completeness::Live => "live",
            Completeness::Complete => "complete",
            Completeness::Partial => "partial",
            Completeness::Unsupported => "unsupported",
        }
    }
}

/// Kind of a normalized transcript entry.
#[derive(Clone, Copy, Debug, PartialEq, Eq, Structural)]
pub enum EntryKind {
    Message,
    Reasoning,
    Tool,
    Plan,
    Context,
    Marker,
    Warning,
    Error,
    Unknown,
}

impl EntryKind {
    /// The wire name of this value.
    pub open spec fn name_spec(self) -> Seq<char> {
        match self {
            EntryKind::Message => "message"@,
            EntryKind::Reasoning => "reasoning"@,
            EntryKind::Tool => "tool"@,
            EntryKind::Plan => "plan"@,
            EntryKind::Context => "context"@,
            EntryKind::Marker => "marker"@,
            EntryKind::Warning => "warning"@,
            EntryKind::Error => "error"@,
            EntryKind::Unknown => "unknown"@,
        }
    }

    /// The wire name of this value.
    pub fn as_str(self) -> (r: &'static str)
        ensures
            r@ == self.name_spec(),
    {
        match self {
            EntryKind::Message => "message",
            EntryKind::Reasoning => "reasoning",
            EntryKind::Tool => "tool",
            EntryKind::Plan => "plan",
            EntryKind::Context => "context",
            EntryKind::Marker => "marker",
            EntryKind::Warning => "warning",
            EntryKind::Error => "error",
            EntryKind::Unknown => "unknown",
        }
    }

    /// The value whose wire name is `value`, if any.
    pub open spec fn from_name_spec(value: Seq<char>) -> Option<Self> {
        if value == "message"@ {
            Some(EntryKind::Message)
        } else if value == "reasoning"@ {
            Some(EntryKind::Reasoning)
        } else if value == "tool"@ {
            Some(EntryKind::Tool)
        } else if value == "plan"@ {
            Some(EntryKind::Plan)
        } else if value == "context"@ {
            Some(EntryKind::Context)
        } else if value == "marker"@ {
            Some(EntryKind::Marker)
        } else if value == "warning"@ {
            Some(EntryKind::Warning)
        } else if value == "error"@ {
            Some(EntryKind::Error)
        } else if value == "unknown"@ {
            Some(EntryKind::Unknown)
        } else {
            None
        }
    }

    /// The value whose wire name is `value`, if any.
    pub fn parse(value: &str) -> (r: Option<Self>)
        ensures
            r == Self::from_name_spec(value@),
            r matches Some(k) ==> k.name_spec() == value@,
            r is None ==> forall|k: Self| k.name_spec() != value@,
    {
        if str_eq(value, "message") {
            return Some(EntryKind::Message);
        }
        if str_eq(value, "reasoning") {
            return Some(EntryKind::Reasoning);
        }
        if str_eq(value, "tool") {
            return Some(EntryKind::Tool);
        }
        if str_eq(value, "plan") {
            return Some(EntryKind::Plan);
        }
        if str_eq(value, "context") {
            return Some(EntryKind::Context);
        }
        if str_eq(value, "marker") {
            return Some(EntryKind::Marker);
        }
        if str_eq(value, "warning") {
            return Some(EntryKind::Warning);
        }
        if str_eq(value, "error") {
            return Some(EntryKind::Error);
        }
        if str_eq(value, "unknown") {
            return Some(EntryKind::Unknown);
        }
        proof {
            assert forall|k: Self| k.name_spec() != value@ by {
                match k {
                    EntryKind::Message => {},
                    EntryKind::Reasoning => {},
                    EntryKind::Tool => {},
                    EntryKind::Plan => {},
                    EntryKind::Context => {},
                    EntryKind::Marker => {},
                    EntryKind::Warning => {},
                    EntryKind::Error => {},
                    EntryKind::Unknown => {},
                }
            }
        }
        None
    }
}

/// How a transcript entry is presented.
#[derive(Clone, Copy, Debug, PartialEq, Eq, Structural)]
pub enum EntryPresentation {
    User,
    Response,
    Technical,
    Internal,
}

impl EntryPresentation {
    /// The wire name of this value.
    pub open spec fn name_spec(self) -> Seq<char> {
        match self {
            EntryPresentation::User => "user"@,
            EntryPresentation::Response => "response"@,
            EntryPresentation::Technical => "technical"@,
            EntryPresentation::Internal => "internal"@,
        }
    }

    /// The wire name of this value.
    pub fn as_str(self) -> (r: &'static str)
        ensures
            r@ == self.name_spec(),
    {
        match self {
            EntryPresentation::User => "user",
            EntryPresentation::Response => "response",
            EntryPresentation::Technical => "technical",
            EntryPresentation::Internal => "internal",
        }
    }
}

/// Author role of a message.
#[derive(Clone, Copy, Debug, PartialEq, Eq, Structural)]
pub enum MessageRole {
    User,
    Assistant,
    Developer,
    System,
}

impl MessageRole {
    /// The wire name of this value.
    pub open spec fn name_spec(self) -> Seq<char> {
        match self {
            MessageRole::User => "user"@,
            MessageRole::Assistant => "assistant"@,
            MessageRole::Developer => "developer"@,
            MessageRole::System => "system"@,
        }
    }

    /// The wire name of this value.
    pub fn as_str(self) -> (r: &'static str)
        ensures
            r@ == self.name_spec(),
    {
        match self {
            MessageRole::User => "user",
            MessageRole::Assistant => "assistant",
            MessageRole::Developer => "developer",
            MessageRole::System => "system",
        }
    }

    /// The value whose wire name is `value`, if any.
    pub open spec fn from_name_spec(value: Seq<char>) -> Option<Self> {
        if value == "user"@ {
            Some(MessageRole::User)
        } else if value == "assistant"@ {
            Some(MessageRole::Assistant)
        } else if value == "developer"@ {
            Some(MessageRole::Developer)
        } else if value == "system"@ {
            Some(MessageRole::System)
        } else {
            None
        }
    }

    /// The value whose wire name is `value`, if any.
    pub fn parse(value: &str) -> (r: Option<Self>)
        ensures
            r == Self::from_name_spec(value@),
            r matches Some(k) ==> k.name_spec() == value@,
            r is None ==> forall|k: Self| k.name_spec() != value@,
    {
        if str_eq(value, "user") {
            return Some(MessageRole::User);
        }
        if str_eq(value, "assistant") {
            return Some(MessageRole::Assistant);
        }
        if str_eq(value, "developer") {
            return Some(MessageRole::Developer);
        }
        if str_eq(value, "system") {
            return Some(MessageRole::System);
        }
        proof {
            assert forall|k: Self| k.name_spec() != value@ by {
                match k {
                    MessageRole::User => {},
                    MessageRole::Assistant => {},
                    MessageRole::Developer => {},
                    MessageRole::System => {},
                }
            }
        }
        None
    }
}

/// Phase of an assistant message.
#[derive(Clone, Copy, Debug, PartialEq, Eq, Structural)]
pub enum Phase {
    Commentary,
    Final,
    Analysis,
    Unknown,
}

impl Phase {
    /// The wire name of this value.
    pub open spec fn name_spec(self) -> Seq<char> {
        match self {
            Phase::Commentary => "commentary"@,
            Phase::Final => "final"@,
            Phase::Analysis => "analysis"@,
            Phase::Unknown => "unknown"@,
        }
    }

    /// The wire name of this value.
    pub fn as_str(self) -> (r: &'static str)
        ensures
            r@ == self.name_spec(),
    {
        match self {
            Phase::Commentary => "commentary",
            Phase::Final => "final",
            Phase::Analysis => "analysis",
            Phase::Unknown => "unknown",
        }
    }
}

/// Kind of tool activity.
#[derive(Clone, Copy, Debug, PartialEq, Eq, Structural)]
pub enum ToolKind {
    Command,
    Patch,
    Mcp,
    WebSearch,
    Function,
    Dynamic,
    Terminal,
    ViewImage,
    Other,
    RequestUserInput,
}

impl ToolKind {
    /// The wire name of this value.
    pub open spec fn name_spec(self) -> Seq<char> {
        match self {
            ToolKind::Command => "command"@,
            ToolKind::Patch => "patch"@,
            ToolKind::Mcp => "mcp"@,
            ToolKind::WebSearch => "webSearch"@,
            ToolKind::Function => "function"@,
            ToolKind::Dynamic => "dynamic"@,
            ToolKind::Terminal => "terminal"@,
            ToolKind::ViewImage => "viewImage"@,
            ToolKind::Other => "other"@,
            ToolKind::RequestUserInput => "requestUserInput"@,
        }
    }

    /// The wire name of this value.
    pub fn as_str(self) -> (r: &'static str)
        ensures
            r@ == self.name_spec(),
    {
        match self {
            ToolKind::Command => "command",
            ToolKind::Patch => "patch",
            ToolKind::Mcp => "mcp",
            ToolKind::WebSearch => "webSearch",
            ToolKind::Function => "function",
            ToolKind::Dynamic => "dynamic",
            ToolKind::Terminal => "terminal",
            ToolKind::ViewImage => "viewImage",
            ToolKind::Other => "other",
            ToolKind::RequestUserInput => "requestUserInput",
        }
    }
}

/// Status of a tool call.
#[derive(Clone, Copy, Debug, PartialEq, Eq, Structural)]
pub enum ToolStatus {
    Pending,
    Running,
    Succeeded,
    Failed,
    Interrupted,
    Unknown,
}

impl ToolStatus {
    /// The wire name of this value.
    pub open spec fn name_spec(self) -> Seq<char> {
        match self {
            ToolStatus::Pending => "pending"@,
            ToolStatus::Running => "running"@,
            ToolStatus::Succeeded => "succeeded"@,
            ToolStatus::Failed => "failed"@,
            ToolStatus::Interrupted => "interrupted"@,
            ToolStatus::Unknown => "unknown"@,
        }
    }

    /// The wire name of this value.
    pub fn as_str(self) -> (r: &'static str)
        ensures
            r@ == self.name_spec(),
    {
        match self {
            ToolStatus::Pending => "pending",
            ToolStatus::Running => "running",
            ToolStatus::Succeeded => "succeeded",
            ToolStatus::Failed => "failed",
            ToolStatus::Interrupted => "interrupted",
            ToolStatus::Unknown => "unknown",
        }
    }
}

/// Phase of the viewer service.
#[derive(Clone, Copy, Debug, PartialEq, Eq, Structural)]
pub enum ServicePhase {
    Starting,
    Discovering,
    Indexing,
    Ready,
    Degraded,
    ShuttingDown,
}

impl ServicePhase {
    /// The wire name of this value.
    pub open spec fn name_spec(self) -> Seq<char> {
        match self {
            ServicePhase::Starting => "starting"@,
            ServicePhase::Discovering => "discovering"@,
            ServicePhase::Indexing => "indexing"@,
            ServicePhase::Ready => "ready"@,
            ServicePhase::Degraded => "degraded"@,
            ServicePhase::ShuttingDown => "shuttingDown"@,
        }
    }

    /// The wire name of this value.
    pub fn as_str(self) -> (r: &'static str)
        ensures
            r@ == self.name_spec(),
    {
        match self {
            ServicePhase::Starting => "starting",
            ServicePhase::Discovering => "discovering",
            ServicePhase::Indexing => "indexing",
            ServicePhase::Ready => "ready",
            ServicePhase::Degraded => "degraded",
            ServicePhase::ShuttingDown => "shuttingDown",
        }
    }
}

/// Severity of a parser diagnostic.
#[derive(Clone, Copy, Debug, PartialEq, Eq, Structural)]
pub enum DiagnosticSeverity {
    Info,
    Warning,
    Error,
}

impl DiagnosticSeverity {
    /// The wire name of this value.
    pub open spec fn name_spec(self) -> Seq<char> {
        match self {
            DiagnosticSeverity::Info => "info"@,
            DiagnosticSeverity::Warning => "warning"@,
            DiagnosticSeverity::Error => "error"@,
        }
    }

    /// The wire name of this value.
    pub fn as_str(self) -> (r: &'static str)
        ensures
            r@ == self.name_spec(),
    {
        match self {
            DiagnosticSeverity::Info => "info",
            DiagnosticSeverity::Warning => "warning",
            DiagnosticSeverity::Error => "error",
        }
    }
}

/// Which text field of an entry a chunk comes from.
#[derive(Clone, Copy, Debug, PartialEq, Eq, Structural)]
pub enum ContentField {
    Primary,
    Secondary,
}

impl ContentField {
    /// The wire name of this value.
    pub open spec fn name_spec(self) -> Seq<char> {
        match self {
            ContentField::Primary => "primary"@,
            ContentField::Secondary => "secondary"@,
        }
    }

    /// The wire name of this value.
    pub fn as_str(self) -> (r: &'static str)
        ensures
            r@ == self.name_spec(),
    {
        match self {
            ContentField::Primary => "primary",
            ContentField::Secondary => "secondary",
        }
    }
}

/// Which field a search hit matched.
#[derive(Clone, Copy, Debug, PartialEq, Eq, Structural)]
pub enum SearchField {
    SessionTitle,
    EntryTitle,
    Primary,
    Secondary,
}

impl SearchField {
    /// The wire name of this value.
    pub open spec fn name_spec(self) -> Seq<char> {
        match self {
            SearchField::SessionTitle => "sessionTitle"@,
            SearchField::EntryTitle => "entryTitle"@,
            SearchField::Primary => "primary"@,
            SearchField::Secondary => "secondary"@,
        }
    }

    /// The wire name of this value.
    pub fn as_str(self) -> (r: &'static str)
        ensures
            r@ == self.name_spec(),
    {
        match self {
            SearchField::SessionTitle => "sessionTitle",
            SearchField::EntryTitle => "entryTitle",
            SearchField::Primary => "primary",
            SearchField::Secondary => "secondary",
        }
    }
}

/// Encoding of a raw JSONL record.
#[derive(Clone, Copy, Debug, PartialEq, Eq, Structural)]
pub enum RawEncoding {
    Utf8,
    Binary,
}

impl RawEncoding {
    /// The wire name of this value.
    pub open spec fn name_spec(self) -> Seq<char> {
        match self {
            RawEncoding::Utf8 => "utf8"@,
            RawEncoding::Binary => "binary"@,
        }
    }

    /// The wire name of this value.
    pub fn as_str(self) -> (r: &'static str)
        ensures
            r@ == self.name_spec(),
    {
        match self {
            RawEncoding::Utf8 => "utf8",
            RawEncoding::Binary => "binary",
        }
    }
}

/// Parse status of a raw JSONL record.
#[derive(Clone, Copy, Debug, PartialEq, Eq, Structural)]
pub enum RawParseStatus {
    Valid,
    InvalidJson,
    InvalidUtf8,
    Oversize,
    IncompleteTail,
    Unknown,
}

impl RawParseStatus {
    /// The wire name of this value.
    pub open spec fn name_spec(self) -> Seq<char> {
        match self {
            RawParseStatus::Valid => "valid"@,
            RawParseStatus::InvalidJson => "invalidJson"@,
            RawParseStatus::InvalidUtf8 => "invalidUtf8"@,
            RawParseStatus::Oversize => "oversize"@,
            RawParseStatus::IncompleteTail => "incompleteTail"@,
            RawParseStatus::Unknown => "unknown"@,
        }
    }

    /// The wire name of this value.
    pub fn as_str(self) -> (r: &'static str)
        ensures
            r@ == self.name_spec(),
    {
        match self {
            RawParseStatus::Valid => "valid",
            RawParseStatus::InvalidJson => "invalidJson",
            RawParseStatus::InvalidUtf8 => "invalidUtf8",
            RawParseStatus::Oversize => "oversize",
            RawParseStatus::IncompleteTail => "incompleteTail",
            RawParseStatus::Unknown => "unknown",
        }
    }
}

/// Type of a server-sent event.
#[derive(Clone, Copy, Debug, PartialEq, Eq, Structural)]
pub enum SseEventType {
    IndexProgress,
    SessionUpdated,
    EntryUpdated,
    Diagnostic,
    Resync,
    Heartbeat,
}

impl SseEventType {
    /// The wire name of this value.
    pub open spec fn name_spec(self) -> Seq<char> {
        match self {
            SseEventType::IndexProgress => "indexProgress"@,
            SseEventType::SessionUpdated => "sessionUpdated"@,
            SseEventType::EntryUpdated => "entryUpdated"@,
            SseEventType::Diagnostic => "diagnostic"@,
            SseEventType::Resync => "resync"@,
            SseEventType::Heartbeat => "heartbeat"@,
        }
    }

    /// The wire name of this value.
    pub fn as_str(self) -> (r: &'static str)
        ensures
            r@ == self.name_spec(),
    {
        match self {
            SseEventType::IndexProgress => "indexProgress",
            SseEventType::SessionUpdated => "sessionUpdated",
            SseEventType::EntryUpdated => "entryUpdated",
            SseEventType::Diagnostic => "diagnostic",
            SseEventType::Resync => "resync",
            SseEventType::Heartbeat => "heartbeat",
        }
    }
}

/// Indexing progress counters.
#[derive(Clone, Debug, PartialEq, Eq)]
pub struct IndexProgress {
    pub total_files: u64,
    pub processed_files: u64,
    pub total_bytes: u64,
    pub processed_bytes: u64,
    pub failed_files: u64,
    pub excluded_files: u64,
    pub excluded_bytes: u64,
}

/// Service status reported by `/api/v1/status`.
#[derive(Clone, Debug, PartialEq, Eq)]
pub struct Status {
    pub app_version: String,
    pub source_home: String,
    pub cache_dir: String,
    pub initial_index_days: i64,
    pub initial_index_cutoff: Option<String>,
    pub generation: u64,
    pub phase: ServicePhase,
    pub progress: IndexProgress,
    pub fts_ready: bool,
    pub database_bytes: u64,
    pub last_reconcile_at: Option<String>,
}

/// Git metadata of a session.
#[derive(Clone, Debug, PartialEq, Eq)]
pub struct GitMetadata {
    pub branch: Option<String>,
    pub commit: Option<String>,
}

/// Summary of one session.
#[derive(Clone, Debug, PartialEq, Eq)]
pub struct SessionSummary {
    pub id: String,
    pub source: SourceKind,
    pub parent_thread_id: Option<String>,
    pub parent_relation: Option<SessionParentRelation>,
    pub cwd: Option<String>,
    pub title: String,
    pub preview: String,
    pub created_at: String,
    pub updated_at: String,
    pub archived: bool,
    pub cli_version: Option<String>,
    pub provider: Option<String>,
    pub git: Option<GitMetadata>,
    pub entry_count: u64,
    pub diagnostic_count: u64,
    pub index_state: IndexState,
    pub completeness: Completeness,
}

/// An exact copy of optional text.
pub fn duplicate_text(s: &Option<String>) -> (r: Option<String>)
    ensures
        r == *s,
{
    match s {
        Some(t) => Some(t.clone()),
        None => None,
    }
}

impl GitMetadata {
    /// An exact copy.
    pub fn duplicate(&self) -> (r: Self)
        ensures
            r == *self,
    {
        GitMetadata { branch: duplicate_text(&self.branch), commit: duplicate_text(&self.commit) }
    }
}

impl SessionSummary {
    /// An exact copy.
    pub fn duplicate(&self) -> (r: Self)
        ensures
            r == *self,
    {
        SessionSummary {
            id: self.id.clone(),
            source: self.source,
            parent_thread_id: duplicate_text(&self.parent_thread_id),
            parent_relation: self.parent_relation,
            cwd: duplicate_text(&self.cwd),
            title: self.title.clone(),
            preview: self.preview.clone(),
            created_at: self.created_at.clone(),
            updated_at: self.updated_at.clone(),
            archived: self.archived,
            cli_version: duplicate_text(&self.cli_version),
            provider: duplicate_text(&self.provider),
            git: match &self.git {
                Some(g) => Some(g.duplicate()),
                None => None,
            },
            entry_count: self.entry_count,
            diagnostic_count: self.diagnostic_count,
            index_state: self.index_state,
            completeness: self.completeness,
        }
    }
}

/// A session and the sessions displayed beneath it.
#[derive(Debug)]
pub struct SessionTreeNode {
    pub session: SessionSummary,
    pub children: Vec<SessionTreeNode>,
}

/// A root session with its displayed descendants.
#[derive(Debug)]
pub struct SessionGroup {
    pub root: SessionTreeNode,
    pub latest_session_id: String,
    pub updated_at: String,
    pub hierarchy_complete: bool,
}

/// A stored parser diagnostic.
#[derive(Clone, Debug, PartialEq, Eq)]
pub struct Diagnostic {
    pub id: i64,
    pub severity: DiagnosticSeverity,
    pub code: String,
    pub message: String,
    pub first_seen_at: String,
    pub last_seen_at: String,
    pub count: u64,
}

/// A session with its diagnostics.
#[derive(Clone, Debug, PartialEq, Eq)]
pub struct SessionDetail {
    pub summary: SessionSummary,
    pub diagnostics: Vec<Diagnostic>,
}

/// Reference from an entry to a raw JSONL record.
#[derive(Clone, Debug, PartialEq, Eq)]
pub struct RawRefSummary {
    pub id: String,
    pub line: u64,
    pub byte_offset: u64,
    pub byte_length: u64,
    pub envelope_type: String,
}

/// A bounded window of an entry's text.
#[derive(Clone, Debug, PartialEq, Eq)]
pub struct ContentChunk {
    pub field: ContentField,
    pub text: String,
    pub byte_offset: u64,
    pub next_offset: Option<u64>,
    pub total_bytes: u64,
    pub complete: bool,
}

/// Summary of one raw JSONL record.
#[derive(Clone, Debug, PartialEq, Eq)]
pub struct RawRecordSummary {
    pub id: String,
    pub session_id: String,
    pub line: u64,
    pub byte_offset: u64,
    pub byte_length: u64,
    pub envelope_type: String,
    pub parse_status: RawParseStatus,
    pub encoding: RawEncoding,
    pub oversize: bool,
}

/// A raw record with a chunk of its text.
#[derive(Clone, Debug, PartialEq, Eq)]
pub struct RawRecord {
    pub summary: RawRecordSummary,
    pub chunk: ContentChunk,
}

/// A matched range, in Unicode scalars, of a search snippet.
#[derive(Clone, Copy, Debug, PartialEq, Eq)]
pub struct MatchRange {
    pub start: u32,
    pub end: u32,
}

/// One page of API results.
#[derive(Clone, Debug, PartialEq, Eq)]
pub struct ApiPage<T> {
    pub data: Vec<T>,
    pub next_cursor: Option<String>,
    pub previous_cursor: Option<String>,
    pub partial: bool,
}

/// Body of an API error.
#[derive(Clone, Debug, PartialEq, Eq)]
pub struct ApiError {
    pub code: String,
    pub message: String,
    pub details: Option<BTreeMap<String, String>>,
}

/// Envelope around an API error.
#[derive(Clone, Debug, PartialEq, Eq)]
pub struct ApiErrorEnvelope {
    pub error: ApiError,
}

/// Payload of a server-sent event.
#[derive(Clone, Debug, PartialEq, Eq)]
pub struct SseEventPayload {
    pub generation: u64,
    pub phase: Option<ServicePhase>,
    pub session_id: Option<String>,
    pub entry_id: Option<String>,
    pub progress: Option<IndexProgress>,
    pub diagnostic: Option<Diagnostic>,
}

/// A server-sent event.
#[derive(Clone, Debug, PartialEq, Eq)]
pub struct SseEvent {
    pub id: u64,
    pub event: SseEventType,
    pub data: SseEventPayload,
}

} // verus!
