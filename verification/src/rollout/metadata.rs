//! Session and message metadata read from rollout payloads.

use vstd::prelude::*;

use crate::model::{MessageRole, Phase, SourceKind, ToolStatus};
use crate::rollout::json::{json_get, json_str, str_member, string_option, JsonValue};
use crate::rollout::session::{uuid_canonical, uuid_canonical_text};
use crate::time::{parse_rfc3339_micros, rfc3339_micros};
use crate::text::{ascii_lower, seq_contains_seq, starts_with, str_contains, str_eq, str_starts_with, str_to_ascii_lowercase};

verus! {

/// The role named by a message's `role`.
pub open spec fn role_spec(role: Option<Seq<char>>) -> Option<MessageRole> {
    match role {
        Some(r) => if r == "user"@ {
            Some(MessageRole::User)
        } else if r == "assistant"@ {
            Some(MessageRole::Assistant)
        } else if r == "developer"@ {
            Some(MessageRole::Developer)
        } else if r == "system"@ {
            Some(MessageRole::System)
        } else {
            None
        },
        None => None,
    }
}

/// The role of a message payload, when it names a known one.
pub fn role_field(payload: &JsonValue) -> (r: Option<MessageRole>)
    ensures
        r == role_spec(str_member(*payload, "role"@)),
{
    let role = match payload.get("role") {
        Some(v) => match v.as_str() {
            Some(s) => s,
            None => return None,
        },
        None => return None,
    };
    if str_eq(role, "user") {
        Some(MessageRole::User)
    } else if str_eq(role, "assistant") {
        Some(MessageRole::Assistant)
    } else if str_eq(role, "developer") {
        Some(MessageRole::Developer)
    } else if str_eq(role, "system") {
        Some(MessageRole::System)
    } else {
        None
    }
}

/// The phase named by a message's `phase`; unknown names are `Unknown`.
pub open spec fn phase_spec(phase: Option<Seq<char>>) -> Option<Phase> {
    match phase {
        Some(p) => if p == "commentary"@ {
            Some(Phase::Commentary)
        } else if p == "final"@ || p == "final_answer"@ {
            Some(Phase::Final)
        } else if p == "analysis"@ {
            Some(Phase::Analysis)
        } else {
            Some(Phase::Unknown)
        },
        None => None,
    }
}

/// The phase of a message payload, when it has a textual `phase`.
pub fn phase_field(payload: &JsonValue) -> (r: Option<Phase>)
    ensures
        r == phase_spec(str_member(*payload, "phase"@)),
{
    let phase = match payload.get("phase") {
        Some(v) => match v.as_str() {
            Some(s) => s,
            None => return None,
        },
        None => return None,
    };
    if str_eq(phase, "commentary") {
        Some(Phase::Commentary)
    } else if str_eq(phase, "final") || str_eq(phase, "final_answer") {
        Some(Phase::Final)
    } else if str_eq(phase, "analysis") {
        Some(Phase::Analysis)
    } else {
        Some(Phase::Unknown)
    }
}

/// The tool status named by a payload's `status`; unknown names are `Unknown`.
pub open spec fn status_spec(status: Option<Seq<char>>) -> Option<ToolStatus> {
    match status {
        Some(s) => if s == "pending"@ {
            Some(ToolStatus::Pending)
        } else if s == "in_progress"@ || s == "running"@ {
            Some(ToolStatus::Running)
        } else if s == "completed"@ || s == "succeeded"@ || s == "success"@ {
            Some(ToolStatus::Succeeded)
        } else if s == "failed"@ || s == "error"@ {
            Some(ToolStatus::Failed)
        } else if s == "interrupted"@ || s == "cancelled"@ || s == "canceled"@ || s == "declined"@ {
            Some(ToolStatus::Interrupted)
        } else {
            Some(ToolStatus::Unknown)
        },
        None => None,
    }
}

/// The status of a tool payload, when it has a textual `status`.
pub fn status_field(payload: &JsonValue) -> (r: Option<ToolStatus>)
    ensures
        r == status_spec(str_member(*payload, "status"@)),
{
    let status = match payload.get("status") {
        Some(v) => match v.as_str() {
            Some(s) => s,
            None => return None,
        },
        None => return None,
    };
    if str_eq(status, "pending") {
        Some(ToolStatus::Pending)
    } else if str_eq(status, "in_progress") || str_eq(status, "running") {
        Some(ToolStatus::Running)
    } else if str_eq(status, "completed") || str_eq(status, "succeeded") || str_eq(status, "success") {
        Some(ToolStatus::Succeeded)
    } else if str_eq(status, "failed") || str_eq(status, "error") {
        Some(ToolStatus::Failed)
    } else if str_eq(status, "interrupted") || str_eq(status, "cancelled") || str_eq(status, "canceled")
        || str_eq(status, "declined") {
        Some(ToolStatus::Interrupted)
    } else {
        Some(ToolStatus::Unknown)
    }
}

/// The call a payload belongs to: its `call_id`, else an `id` that starts with `call`.
pub open spec fn call_id_spec(payload: JsonValue) -> Option<Seq<char>> {
    match str_member(payload, "call_id"@) {
        Some(c) => Some(c),
        None => match str_member(payload, "id"@) {
            Some(id) => if starts_with(id, "call"@) { Some(id) } else { None },
            None => None,
        },
    }
}

/// The call a payload belongs to.
pub fn call_id(payload: &JsonValue) -> (r: Option<String>)
    ensures
        match call_id_spec(*payload) {
            Some(c) => (r matches Some(s) && s@ == c),
            None => r is None,
        },
{
    match string_option(payload, "call_id") {
        Some(c) => Some(c),
        None => match string_option(payload, "id") {
            Some(id) => if str_starts_with(id.as_str(), "call") { Some(id) } else { None },
            None => None,
        },
    }
}

/// The non-empty `id` of an item payload.
pub fn item_id(payload: &JsonValue) -> (r: Option<String>)
    ensures
        match str_member(*payload, "id"@) {
            Some(id) => if id.len() > 0 { r matches Some(s) && s@ == id } else { r is None },
            None => r is None,
        },
{
    match string_option(payload, "id") {
        Some(id) => if id.as_str().is_empty() { None } else { Some(id) },
        None => None,
    }
}

/// The front end an originator name points to.
pub open spec fn originator_source_spec(originator: Seq<char>) -> SourceKind {
    if seq_contains_seq(originator, "vscode"@) {
        SourceKind::Vscode
    } else if seq_contains_seq(originator, "exec"@) {
        SourceKind::Exec
    } else if seq_contains_seq(originator, "app-server"@) || seq_contains_seq(originator, "appserver"@) {
        SourceKind::AppServer
    } else if seq_contains_seq(originator, "cli"@) {
        SourceKind::Cli
    } else {
        SourceKind::Unknown
    }
}

/// The front end an originator name points to.
pub fn source_from_originator(originator: &str) -> (r: SourceKind)
    ensures
        r == originator_source_spec(originator@),
{
    if str_contains(originator, "vscode") {
        SourceKind::Vscode
    } else if str_contains(originator, "exec") {
        SourceKind::Exec
    } else if str_contains(originator, "app-server") || str_contains(originator, "appserver") {
        SourceKind::AppServer
    } else if str_contains(originator, "cli") {
        SourceKind::Cli
    } else {
        SourceKind::Unknown
    }
}

/// The subagent description inside a `source` object.
pub open spec fn subagent_of(source: JsonValue) -> Option<JsonValue> {
    match json_get(source, "subagent"@) {
        Some(s) => Some(s),
        None => json_get(source, "sub_agent"@),
    }
}

/// The front end a session's metadata names: a textual `source`, else a
/// subagent or review description, else its originator.
pub open spec fn source_kind_spec(payload: JsonValue) -> SourceKind {
    let originator = ascii_lower(match str_member(payload, "originator"@) {
        Some(o) => o,
        None => Seq::empty(),
    });
    match json_get(payload, "source"@) {
        Some(source) => match json_str(source) {
            Some(text) => {
                let v = ascii_lower(text);
                if v == "cli"@ {
                    SourceKind::Cli
                } else if v == "vscode"@ || v == "vs_code"@ {
                    SourceKind::Vscode
                } else if v == "exec"@ {
                    SourceKind::Exec
                } else if v == "mcp"@ || v == "appserver"@ || v == "app-server"@ || v == "app_server"@ {
                    SourceKind::AppServer
                } else {
                    originator_source_spec(originator)
                }
            },
            None => if source is Object && subagent_of(source) is Some {
                let subagent = subagent_of(source)->0;
                if json_str(subagent) == Some("review"@) || json_get(subagent, "review"@) is Some
                    || json_get(source, "review"@) is Some {
                    SourceKind::Review
                } else {
                    SourceKind::Subagent
                }
            } else {
                originator_source_spec(originator)
            },
        },
        None => originator_source_spec(originator),
    }
}

/// The front end a session's metadata names.
pub fn source_kind(payload: &JsonValue) -> (r: SourceKind)
    ensures
        r == source_kind_spec(*payload),
{
    let named: &str = match payload.get("originator") {
        Some(v) => match v.as_str() {
            Some(s) => s,
            None => "",
        },
        None => "",
    };
    proof {
        reveal_strlit("");
    }
    assert(named@ == match str_member(*payload, "originator"@) {
        Some(o) => o,
        None => Seq::<char>::empty(),
    });
    let originator = str_to_ascii_lowercase(named);
    let source = match payload.get("source") {
        Some(s) => s,
        None => return source_from_originator(originator.as_str()),
    };
    if let Some(value) = source.as_str() {
        let lowered = str_to_ascii_lowercase(value);
        let v = lowered.as_str();
        return if str_eq(v, "cli") {
            SourceKind::Cli
        } else if str_eq(v, "vscode") || str_eq(v, "vs_code") {
            SourceKind::Vscode
        } else if str_eq(v, "exec") {
            SourceKind::Exec
        } else if str_eq(v, "mcp") || str_eq(v, "appserver") || str_eq(v, "app-server") || str_eq(v, "app_server") {
            SourceKind::AppServer
        } else {
            source_from_originator(originator.as_str())
        };
    }
    if source.is_object() {
        let subagent = match source.get("subagent") {
            Some(s) => Some(s),
            None => source.get("sub_agent"),
        };
        if let Some(subagent) = subagent {
            let named_review = match subagent.as_str() {
                Some(s) => str_eq(s, "review"),
                None => false,
            };
            if named_review || subagent.get("review").is_some() || source.get("review").is_some() {
                return SourceKind::Review;
            }
            return SourceKind::Subagent;
        }
    }
    source_from_originator(originator.as_str())
}

/// The parent a subagent session names: its spawn's `parent_thread_id`,
/// else the subagent's own.
pub open spec fn source_parent_spec(source: Option<JsonValue>) -> Option<Seq<char>> {
    match source {
        Some(s) => if s is Object && subagent_of(s) is Some {
            let subagent = subagent_of(s)->0;
            let spawned = match json_get(subagent, "thread_spawn"@) {
                Some(spawn) => str_member(spawn, "parent_thread_id"@),
                None => None,
            };
            match spawned {
                Some(p) => Some(p),
                None => str_member(subagent, "parent_thread_id"@),
            }
        } else {
            None
        },
        None => None,
    }
}

/// The parent a subagent session names in its `source`.
pub fn source_parent(source: Option<&JsonValue>) -> (r: Option<String>)
    ensures
        match source_parent_spec(match source { Some(s) => Some(*s), None => None }) {
            Some(p) => (r matches Some(t) && t@ == p),
            None => r is None,
        },
{
    let object = match source {
        Some(s) => s,
        None => return None,
    };
    if !object.is_object() {
        return None;
    }
    let subagent = match object.get("subagent") {
        Some(s) => s,
        None => match object.get("sub_agent") {
            Some(s) => s,
            None => return None,
        },
    };
    let spawned = match subagent.get("thread_spawn") {
        Some(spawn) => string_option(spawn, "parent_thread_id"),
        None => None,
    };
    match spawned {
        Some(p) => Some(p),
        None => string_option(subagent, "parent_thread_id"),
    }
}

/// The session id a metadata payload names: the first of `session_id` and
/// `id` that is a UUID, in canonical form.
pub open spec fn payload_session_id_spec(payload: JsonValue) -> Option<Seq<char>> {
    let first = match str_member(payload, "session_id"@) {
        Some(t) => uuid_canonical(t),
        None => None,
    };
    match first {
        Some(id) => Some(id),
        None => match str_member(payload, "id"@) {
            Some(t) => uuid_canonical(t),
            None => None,
        },
    }
}

/// The session id a metadata payload names.
pub fn payload_session_id(payload: &JsonValue) -> (r: Option<String>)
    ensures
        match payload_session_id_spec(*payload) {
            Some(id) => (r matches Some(s) && s@ == id),
            None => r is None,
        },
{
    if let Some(v) = payload.get("session_id") {
        if let Some(text) = v.as_str() {
            if let Some(id) = uuid_canonical_text(text) {
                return Some(id);
            }
        }
    }
    match payload.get("id") {
        Some(v) => match v.as_str() {
            Some(text) => uuid_canonical_text(text),
            None => None,
        },
        None => None,
    }
}

/// The instant of an RFC 3339 timestamp in microseconds, when it is one.
pub fn parse_timestamp(value: &str) -> (r: Option<i64>)
    ensures
        r == rfc3339_micros(value@),
{
    parse_rfc3339_micros(value)
}

} // verus!
