//! Stable names and identifiers derived from rollout records.

use vstd::prelude::*;

use crate::text::{decimal_text, hex_encode, sha256_hex, sha256_spec, str_eq, string_push, string_push_str, u64_to_string};
use vstd::utf8::encode_utf8;

verus! {

/// The heading shown for an event of type `event`.
pub open spec fn event_title_spec(event: Seq<char>) -> Seq<char> {
    if event == "task_started"@ || event == "turn_started"@ {
        "Turn started"@
    } else if event == "task_complete"@ || event == "turn_complete"@ {
        "Turn completed"@
    } else if event == "turn_aborted"@ {
        "Turn interrupted"@
    } else if event == "context_compacted"@ {
        "Conversation compacted"@
    } else if event == "thread_rolled_back"@ {
        "Conversation rolled back"@
    } else if event == "entered_review_mode"@ {
        "Review started"@
    } else if event == "exited_review_mode"@ {
        "Review completed"@
    } else if event == "thread_goal_updated"@ {
        "Goal updated"@
    } else if event == "token_count"@ {
        "Token usage"@
    } else if event == "session_configured"@ {
        "Session configured"@
    } else if event == "mcp_startup_update"@ {
        "MCP startup"@
    } else if event == "mcp_startup_complete"@ {
        "MCP ready"@
    } else if event == "exec_command_begin"@ || event == "exec_command_output_delta"@ || event == "exec_command_end"@ {
        "Command"@
    } else if event == "terminal_interaction"@ {
        "Terminal"@
    } else if event == "patch_apply_begin"@ || event == "patch_apply_updated"@ || event == "patch_apply_end"@ {
        "Patch"@
    } else if event == "mcp_tool_call_begin"@ || event == "mcp_tool_call_end"@ {
        "MCP tool"@
    } else if event == "web_search_begin"@ || event == "web_search_end"@ {
        "Web search"@
    } else if event == "dynamic_tool_call_request"@ || event == "dynamic_tool_call_response"@ {
        "Dynamic tool"@
    } else if event == "view_image_tool_call"@ {
        "Image attachment"@
    } else if event == "image_generation_begin"@ || event == "image_generation_end"@ {
        "Image generation"@
    } else {
        "Activity"@
    }
}

/// The heading shown for an event of type `event`; unknown events are "Activity".
pub fn event_title(event: &str) -> (r: &'static str)
    ensures
        r@ == event_title_spec(event@),
{
    if str_eq(event, "task_started") || str_eq(event, "turn_started") {
        "Turn started"
    } else if str_eq(event, "task_complete") || str_eq(event, "turn_complete") {
        "Turn completed"
    } else if str_eq(event, "turn_aborted") {
        "Turn interrupted"
    } else if str_eq(event, "context_compacted") {
        "Conversation compacted"
    } else if str_eq(event, "thread_rolled_back") {
        "Conversation rolled back"
    } else if str_eq(event, "entered_review_mode") {
        "Review started"
    } else if str_eq(event, "exited_review_mode") {
        "Review completed"
    } else if str_eq(event, "thread_goal_updated") {
        "Goal updated"
    } else if str_eq(event, "token_count") {
        "Token usage"
    } else if str_eq(event, "session_configured") {
        "Session configured"
    } else if str_eq(event, "mcp_startup_update") {
        "MCP startup"
    } else if str_eq(event, "mcp_startup_complete") {
        "MCP ready"
    } else if str_eq(event, "exec_command_begin") || str_eq(event, "exec_command_output_delta") || str_eq(event, "exec_command_end") {
        "Command"
    } else if str_eq(event, "terminal_interaction") {
        "Terminal"
    } else if str_eq(event, "patch_apply_begin") || str_eq(event, "patch_apply_updated") || str_eq(event, "patch_apply_end") {
        "Patch"
    } else if str_eq(event, "mcp_tool_call_begin") || str_eq(event, "mcp_tool_call_end") {
        "MCP tool"
    } else if str_eq(event, "web_search_begin") || str_eq(event, "web_search_end") {
        "Web search"
    } else if str_eq(event, "dynamic_tool_call_request") || str_eq(event, "dynamic_tool_call_response") {
        "Dynamic tool"
    } else if str_eq(event, "view_image_tool_call") {
        "Image attachment"
    } else if str_eq(event, "image_generation_begin") || str_eq(event, "image_generation_end") {
        "Image generation"
    } else {
        "Activity"
    }
}

/// The envelope types a rollout line may carry.
pub open spec fn known_envelope(kind: Seq<char>) -> bool {
    kind == "session_meta"@
        || kind == "turn_context"@
        || kind == "world_state"@
        || kind == "security_risk_score"@
        || kind == "inter_agent_communication"@
        || kind == "inter_agent_communication_metadata"@
        || kind == "event_msg"@
        || kind == "response_item"@
        || kind == "realtime_item"@
        || kind == "compacted"@
}

/// Whether `kind` is one of the envelope types a rollout line may carry.
pub fn is_known_envelope(kind: &str) -> (r: bool)
    ensures
        r == known_envelope(kind@),
{
    str_eq(kind, "session_meta")
        || str_eq(kind, "turn_context")
        || str_eq(kind, "world_state")
        || str_eq(kind, "security_risk_score")
        || str_eq(kind, "inter_agent_communication")
        || str_eq(kind, "inter_agent_communication_metadata")
        || str_eq(kind, "event_msg")
        || str_eq(kind, "response_item")
        || str_eq(kind, "realtime_item")
        || str_eq(kind, "compacted")
}

/// The text hashed into a raw record's identifier.
pub open spec fn raw_ref_key(session_id: Seq<char>, offset: u64, length: u64) -> Seq<char> {
    session_id + seq!['\0'] + decimal_text(offset as nat) + seq!['\0'] + decimal_text(length as nat)
}

/// The identifier of a raw record: `r_` and the SHA-256, in hex, of its
/// session, offset and length.
pub open spec fn raw_ref_id_spec(session_id: Seq<char>, offset: u64, length: u64) -> Seq<char> {
    seq!['r', '_'] + hex_encode(sha256_spec(encode_utf8(raw_ref_key(session_id, offset, length))))
}

/// The stable identifier of the raw record at `offset..offset + length` of a session.
pub fn raw_ref_id(session_id: &str, offset: u64, length: u64) -> (r: String)
    ensures
        r@ == raw_ref_id_spec(session_id@, offset, length),
{
    let mut key = String::new();
    string_push_str(&mut key, session_id);
    string_push(&mut key, '\0');
    let off = u64_to_string(offset);
    string_push_str(&mut key, off.as_str());
    string_push(&mut key, '\0');
    let len = u64_to_string(length);
    string_push_str(&mut key, len.as_str());
    let digest = sha256(key.as_str().as_bytes());
    let mut out = String::new();
    string_push(&mut out, 'r');
    string_push(&mut out, '_');
    string_push_str(&mut out, digest.as_str());
    assert(key@ =~= raw_ref_key(session_id@, offset, length));
    assert(out@ =~= raw_ref_id_spec(session_id@, offset, length));
    out
}

/// SHA-256 of `bytes` as 64 lowercase hex digits.
pub fn sha256(bytes: &[u8]) -> (r: String)
    ensures
        r@ == hex_encode(sha256_spec(bytes@)),
        r@.len() == 64,
{
    sha256_hex(bytes)
}

/// The most bytes a hex preview shows.
pub const HEX_PREVIEW_BYTES: usize = 4096;

/// Lowercase hex of the first 4096 bytes of `bytes`.
pub fn hex_preview(bytes: &[u8]) -> (r: String)
    ensures
        r@ == hex_encode(bytes@.take(if bytes@.len() < 4096 { bytes@.len() as int } else { 4096 })),
{
    let n: usize = if bytes.len() < HEX_PREVIEW_BYTES { bytes.len() } else { HEX_PREVIEW_BYTES };
    let mut prefix: Vec<u8> = Vec::new();
    let mut i: usize = 0;
    while i < n
        invariant
            i <= n,
            n <= bytes@.len(),
            prefix@ =~= bytes@.take(i as int),
        decreases n - i,
    {
        prefix.push(bytes[i]);
        i = i + 1;
    }
    crate::text::bytes_to_hex(prefix.as_slice())
}

} // verus!
