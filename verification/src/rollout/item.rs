//! Completed turn items and extension items.

use vstd::prelude::*;

use crate::model::{EntryKind, MessageRole, ToolKind, ToolStatus};
use crate::rollout::content::{
    content_text, deref_opt, string_array, string_array_spec, string_field_spec, user_input_text, user_input_text_spec,
    value_text_spec,
};
use crate::rollout::display::{pretty_value, pretty_value_spec};
use crate::rollout::entry::{
    add_attachment_counts, add_attachment_metadata, add_event_timing_metadata, add_execution_attribution_metadata,
    add_image_generation_failure_metadata, add_source_item_id, add_tool_capability_metadata, either_member,
    item_id_spec, message_entry, message_entry_spec, reasoning_entry, reasoning_entry_spec, simple_entry,
    simple_entry_spec, tool_entry, tool_entry_spec, with_attachment_counts, with_attachments, with_event_timing,
    with_execution_attribution, with_image_generation_failure, with_meta, with_source_item_id, with_tool_capability,
    EntryView, NormalizedEntry,
};
use crate::rollout::json::{json_get, json_view, str_member, JsonData, JsonValue};
use crate::rollout::metadata::{item_id, phase_field, phase_spec, status_field, status_spec};
use crate::rollout::normalize::{
    all_wf, assistant_entries_spec, assistant_message_entries, entry_views, failed_flag, field1, field2, joined2,
    joined3, joined4, joined_spec, payload_type, reports_failure, type_of, unknown_entry, unknown_entry_spec,
    NormalizeResult, ResultView,
};
use crate::rollout::types::EntryOrigin;
use crate::text::{decimal_text, str_eq, string_push, string_push_str, u64_to_string};

verus! {

/// The text of an optional value; empty when it has none.
pub open spec fn content_text_spec(value: Option<JsonValue>) -> Seq<char> {
    match value_text_spec(value) {
        Some(t) => t,
        None => Seq::empty(),
    }
}

/// The item of an `item_completed` event; `null` when it has none.
pub open spec fn item_of(payload: JsonValue) -> JsonValue {
    match json_get(payload, "item"@) {
        Some(i) => i,
        None => JsonValue::Null,
    }
}

/// `e` with the event's `turn_id`, when it has one, as `turnId`.
pub open spec fn with_turn_id(e: EntryView, payload: JsonValue) -> EntryView {
    match str_member(payload, "turn_id"@) {
        Some(t) => with_meta(e, "turnId"@, JsonData::Str(t)),
        None => e,
    }
}

fn add_turn_id(entry: &mut NormalizedEntry, payload: &JsonValue)
    requires
        old(entry).wf(),
    ensures
        final(entry).wf(),
        final(entry)@ == with_turn_id(old(entry)@, *payload),
{
    if let Some(t) = crate::rollout::json::string_option(payload, "turn_id") {
        entry.metadata.insert("turnId", JsonValue::String(t));
    }
}

/// What every completed item entry records: the item's id, plugin and
/// script, tool hints, and the event's timing and turn.
pub open spec fn finish_item(e: EntryView, item: JsonValue, payload: JsonValue) -> EntryView {
    with_turn_id(
        with_event_timing(with_tool_capability(with_execution_attribution(with_source_item_id(e, item), item), item), payload),
        payload,
    )
}

fn finish_item_entry(entry: &mut NormalizedEntry, item: &JsonValue, payload: &JsonValue)
    requires
        old(entry).wf(),
    ensures
        final(entry).wf(),
        final(entry)@ == finish_item(old(entry)@, *item, *payload),
{
    add_source_item_id(entry, item);
    add_execution_attribution_metadata(entry, item);
    add_tool_capability_metadata(entry, item);
    add_event_timing_metadata(entry, payload);
    add_turn_id(entry, payload);
}

/// What an entry of a completed agent message records: the item's id on
/// the message itself, and the rest as for every completed item.
pub open spec fn decorate_item_message(e: EntryView, item: JsonValue, payload: JsonValue) -> EntryView {
    let e1 = if e.kind == EntryKind::Message { with_source_item_id(e, item) } else { e };
    with_turn_id(with_event_timing(with_tool_capability(with_execution_attribution(e1, item), item), payload), payload)
}

fn decorate_item_messages(entries: Vec<NormalizedEntry>, item: &JsonValue, payload: &JsonValue) -> (r: Vec<NormalizedEntry>)
    requires
        all_wf(entries@),
    ensures
        all_wf(r@),
        entry_views(r@) == entry_views(entries@).map_values(|e: EntryView| decorate_item_message(e, *item, *payload)),
{
    let ghost orig = entries@;
    let mut rest = entries;
    let mut out: Vec<NormalizedEntry> = Vec::new();
    while rest.len() > 0
        invariant
            out@.len() + rest@.len() == orig.len(),
            rest@ == orig.skip(out@.len() as int),
            all_wf(orig),
            all_wf(out@),
            forall|j: int| 0 <= j < out@.len() ==> (#[trigger] out@[j])@ == decorate_item_message(orig[j]@, *item, *payload),
        decreases rest@.len(),
    {
        let ghost k = out@.len() as int;
        let mut e = rest.remove(0);
        assert(e == orig[k]);
        let ghost v0 = e@;
        if e.kind == EntryKind::Message {
            add_source_item_id(&mut e, item);
        }
        add_execution_attribution_metadata(&mut e, item);
        add_tool_capability_metadata(&mut e, item);
        add_event_timing_metadata(&mut e, payload);
        add_turn_id(&mut e, payload);
        assert(e@ == decorate_item_message(v0, *item, *payload));
        out.push(e);
        assert(rest@ =~= orig.skip(k + 1));
    }
    assert(entry_views(out@) =~= entry_views(orig).map_values(|e: EntryView| decorate_item_message(e, *item, *payload)));
    out
}

/// How long a sleep lasted, in milliseconds, as shown.
pub open spec fn sleep_text(item: JsonValue) -> Seq<char> {
    match either_member(item, "durationMs"@, "duration_ms"@) {
        Some(JsonValue::Number(n)) => match n.as_u64 {
            Some(d) => decimal_text(d as nat) + " ms"@,
            None => Seq::empty(),
        },
        _ => Seq::empty(),
    }
}

fn sleep_duration(item: &JsonValue) -> (r: String)
    ensures
        r@ == sleep_text(*item),
{
    let d = match item.get("durationMs") {
        Some(v) => v.as_u64(),
        None => match item.get("duration_ms") {
            Some(v) => v.as_u64(),
            None => None,
        },
    };
    match d {
        Some(ms) => {
            let mut t = u64_to_string(ms);
            string_push_str(&mut t, " ms");
            t
        },
        None => String::new(),
    }
}

/// The `kind` of an extension item; empty when it has none.
pub open spec fn extension_kind(item: JsonValue) -> Seq<char> {
    match str_member(item, "kind"@) {
        Some(k) => k,
        None => Seq::empty(),
    }
}

/// What an extension item normalizes to, by its `kind`.
pub open spec fn normalize_extension_item_spec(item: JsonValue, timestamp_micros: Option<i64>, raw_id: Seq<char>) -> ResultView {
    let kind = extension_kind(item);
    if kind == "clock.sleep"@ {
        ResultView::Entry(sleep_entry_spec(item, timestamp_micros, raw_id))
    } else if kind == "web.search"@ {
        ResultView::Entry(extension_search_spec(item, timestamp_micros, raw_id))
    } else if kind == "image_gen.generation"@ {
        ResultView::Entry(extension_image_spec(item, timestamp_micros, raw_id))
    } else {
        ResultView::Unknown(unknown_entry_spec(kind, "Unknown extension"@, timestamp_micros, raw_id), "unknown_extension_item"@)
    }
}

/// The entry of a sleep extension item.
pub open spec fn sleep_entry_spec(item: JsonValue, ts: Option<i64>, raw_id: Seq<char>) -> EntryView {
    with_source_item_id(
        tool_entry_spec(ToolKind::Other, "Sleep"@, sleep_text(item), Seq::empty(), item_id_spec(item), Some(ToolStatus::Succeeded), ts, raw_id, EntryOrigin::ItemCompleted),
        item,
    )
}

fn sleep_entry(item: &JsonValue, ts: Option<i64>, raw_id: &str) -> (r: NormalizedEntry)
    ensures
        r.wf(),
        r@ == sleep_entry_spec(*item, ts, raw_id@),
{
    let mut e = tool_entry(
        ToolKind::Other,
        "Sleep",
        sleep_duration(item),
        String::new(),
        item_id(item),
        Some(ToolStatus::Succeeded),
        ts,
        raw_id,
        EntryOrigin::ItemCompleted,
    );
    add_source_item_id(&mut e, item);
    e
}

/// The entry of a web search extension item.
pub open spec fn extension_search_spec(item: JsonValue, ts: Option<i64>, raw_id: Seq<char>) -> EntryView {
    with_source_item_id(
        tool_entry_spec(
            ToolKind::WebSearch,
            "Web search"@,
            string_field_spec(item, seq!["query"@]),
            joined_spec(item, seq!["action"@, "results"@]),
            item_id_spec(item),
            Some(ToolStatus::Succeeded),
            ts,
            raw_id,
            EntryOrigin::ItemCompleted,
        ),
        item,
    )
}

fn extension_search(item: &JsonValue, ts: Option<i64>, raw_id: &str) -> (r: NormalizedEntry)
    ensures
        r.wf(),
        r@ == extension_search_spec(*item, ts, raw_id@),
{
    let mut e = tool_entry(
        ToolKind::WebSearch,
        "Web search",
        field1(item, "query"),
        joined2(item, "action", "results"),
        item_id(item),
        Some(ToolStatus::Succeeded),
        ts,
        raw_id,
        EntryOrigin::ItemCompleted,
    );
    add_source_item_id(&mut e, item);
    e
}

/// The entry of an image generation extension item.
pub open spec fn extension_image_spec(item: JsonValue, ts: Option<i64>, raw_id: Seq<char>) -> EntryView {
    let e = tool_entry_spec(
        ToolKind::Other,
        "Image generation"@,
        string_field_spec(item, seq!["revisedPrompt"@, "revised_prompt"@]),
        string_field_spec(item, seq!["savedPath"@, "saved_path"@]),
        item_id_spec(item),
        status_spec(str_member(item, "status"@)),
        ts,
        raw_id,
        EntryOrigin::ItemCompleted,
    );
    with_source_item_id(with_image_generation_failure(with_tool_capability(with_attachment_counts(e, 1, 0), item), item), item)
}

fn extension_image(item: &JsonValue, ts: Option<i64>, raw_id: &str) -> (r: NormalizedEntry)
    ensures
        r.wf(),
        r@ == extension_image_spec(*item, ts, raw_id@),
{
    let mut e = tool_entry(
        ToolKind::Other,
        "Image generation",
        field2(item, "revisedPrompt", "revised_prompt"),
        field2(item, "savedPath", "saved_path"),
        item_id(item),
        status_field(item),
        ts,
        raw_id,
        EntryOrigin::ItemCompleted,
    );
    add_attachment_counts(&mut e, 1, 0);
    add_tool_capability_metadata(&mut e, item);
    add_image_generation_failure_metadata(&mut e, item);
    add_source_item_id(&mut e, item);
    e
}

/// Normalizes an extension item by its `kind`: sleeps, web searches and
/// image generations; anything else as an unknown entry.
pub fn normalize_extension_item(item: &JsonValue, timestamp_micros: Option<i64>, raw_id: &str) -> (r: NormalizeResult)
    ensures
        r.wf(),
        r@ == normalize_extension_item_spec(*item, timestamp_micros, raw_id@),
{
    proof {
        reveal_strlit("");
    }
    let kind: &str = match item.get("kind") {
        Some(k) => match k.as_str() {
            Some(s) => s,
            None => "",
        },
        None => "",
    };
    assert(kind@ == extension_kind(*item));
    if str_eq(kind, "clock.sleep") {
        let e = sleep_entry(item, timestamp_micros, raw_id);
        assert(e@ == sleep_entry_spec(*item, timestamp_micros, raw_id@));
        NormalizeResult::Entry(e)
    } else if str_eq(kind, "web.search") {
        NormalizeResult::Entry(extension_search(item, timestamp_micros, raw_id))
    } else if str_eq(kind, "image_gen.generation") {
        NormalizeResult::Entry(extension_image(item, timestamp_micros, raw_id))
    } else {
        NormalizeResult::Unknown(unknown_entry(kind, "Unknown extension", timestamp_micros, raw_id), "unknown_extension_item")
    }
}

/// Whether a completed item's type is `pascal` or `snake`.
pub open spec fn is_kind(kind: Seq<char>, pascal: Seq<char>, snake: Seq<char>) -> bool {
    kind == pascal || kind == snake
}

fn kind_is(kind: &str, pascal: &str, snake: &str) -> (r: bool)
    ensures
        r == is_kind(kind@, pascal@, snake@),
{
    str_eq(kind, pascal) || str_eq(kind, snake)
}

/// The status of a dynamic tool call: failed when it reports no success,
/// else as reported.
pub open spec fn dynamic_status(item: JsonValue) -> Option<ToolStatus> {
    if failed_flag(item) { Some(ToolStatus::Failed) } else { status_spec(str_member(item, "status"@)) }
}

/// The title of an MCP tool call: `server/tool`, or `MCP tool` when both are empty.
pub open spec fn mcp_title(item: JsonValue) -> Seq<char> {
    let server = string_field_spec(item, seq!["server"@]);
    let tool = string_field_spec(item, seq!["tool"@]);
    if server.len() == 0 && tool.len() == 0 { "MCP tool"@ } else { server + "/"@ + tool }
}

/// The entry a completed item of a known, non-agent-message, non-extension
/// type starts from.
pub open spec fn item_base_spec(kind: Seq<char>, item: JsonValue, timestamp_micros: Option<i64>, raw_id: Seq<char>) -> Option<EntryView> {
    let ts = timestamp_micros;
    let o = EntryOrigin::ItemCompleted;
    if is_kind(kind, "UserMessage"@, "user_message"@) {
        Some(with_attachments(message_entry_spec(MessageRole::User, None, user_input_text_spec(json_get(item, "content"@)), ts, raw_id, o), item))
    } else if is_kind(kind, "HookPrompt"@, "hook_prompt"@) {
        Some(simple_entry_spec(EntryKind::Context, "Hook prompt"@, content_text_spec(json_get(item, "fragments"@)), ts, raw_id, o, false, true))
    } else if is_kind(kind, "Plan"@, "plan"@) {
        Some(simple_entry_spec(EntryKind::Plan, "Plan"@, string_field_spec(item, seq!["text"@]), ts, raw_id, o, true, false))
    } else if is_kind(kind, "Reasoning"@, "reasoning"@) {
        let text = content_text_spec(json_get(item, "summary_text"@));
        Some(EntryView { origin: o, ..reasoning_entry_spec(text, ts, raw_id, text.len() > 0) })
    } else if is_kind(kind, "CommandExecution"@, "command_execution"@) {
        Some(tool_entry_spec(
            ToolKind::Command,
            "Command"@,
            string_array_spec(json_get(item, "command"@), " "@),
            joined_spec(item, seq!["formatted_output"@, "aggregated_output"@, "stdout"@, "stderr"@]),
            item_id_spec(item),
            status_spec(str_member(item, "status"@)),
            ts,
            raw_id,
            o,
        ))
    } else if is_kind(kind, "DynamicToolCall"@, "dynamic_tool_call"@) {
        Some(with_attachments(
            tool_entry_spec(
                ToolKind::Dynamic,
                string_field_spec(item, seq!["tool"@]),
                pretty_value_spec(json_get(item, "arguments"@)),
                joined_spec(item, seq!["content_items"@, "error"@]),
                item_id_spec(item),
                dynamic_status(item),
                ts,
                raw_id,
                o,
            ),
            item,
        ))
    } else if is_kind(kind, "CollabAgentToolCall"@, "collab_agent_tool_call"@) {
        Some(tool_entry_spec(
            ToolKind::Other,
            "Collaboration"@,
            string_field_spec(item, seq!["prompt"@, "tool"@]),
            joined_spec(item, seq!["receiver_agents"@, "receiver_thread_ids"@, "agents_states"@]),
            item_id_spec(item),
            status_spec(str_member(item, "status"@)),
            ts,
            raw_id,
            o,
        ))
    } else if is_kind(kind, "SubAgentActivity"@, "sub_agent_activity"@) {
        Some(simple_entry_spec(EntryKind::Marker, "Sub-agent activity"@, string_field_spec(item, seq!["kind"@, "agent_path"@]), ts, raw_id, o, true, true))
    } else if is_kind(kind, "WebSearch"@, "web_search"@) {
        Some(tool_entry_spec(
            ToolKind::WebSearch,
            "Web search"@,
            string_field_spec(item, seq!["query"@]),
            joined_spec(item, seq!["action"@, "results"@]),
            item_id_spec(item),
            Some(ToolStatus::Succeeded),
            ts,
            raw_id,
            o,
        ))
    } else if is_kind(kind, "ImageView"@, "image_view"@) {
        Some(tool_entry_spec(
            ToolKind::ViewImage,
            "Image attachment"@,
            string_field_spec(item, seq!["path"@]),
            Seq::empty(),
            item_id_spec(item),
            Some(ToolStatus::Succeeded),
            ts,
            raw_id,
            o,
        ))
    } else if is_kind(kind, "ImageGeneration"@, "image_generation"@) {
        Some(with_image_generation_failure(
            with_attachment_counts(
                tool_entry_spec(
                    ToolKind::Other,
                    "Image generation"@,
                    string_field_spec(item, seq!["revised_prompt"@, "revisedPrompt"@]),
                    string_field_spec(item, seq!["saved_path"@, "savedPath"@]),
                    item_id_spec(item),
                    status_spec(str_member(item, "status"@)),
                    ts,
                    raw_id,
                    o,
                ),
                1,
                0,
            ),
            item,
        ))
    } else if is_kind(kind, "EnteredReviewMode"@, "entered_review_mode"@) {
        Some(simple_entry_spec(EntryKind::Marker, "Review started"@, string_field_spec(item, seq!["user_facing_hint"@]), ts, raw_id, o, true, true))
    } else if is_kind(kind, "ExitedReviewMode"@, "exited_review_mode"@) {
        Some(simple_entry_spec(EntryKind::Marker, "Review completed"@, pretty_value_spec(json_get(item, "review_output"@)), ts, raw_id, o, true, true))
    } else if is_kind(kind, "FileChange"@, "file_change"@) {
        Some(tool_entry_spec(
            ToolKind::Patch,
            "Patch"@,
            pretty_value_spec(json_get(item, "changes"@)),
            joined_spec(item, seq!["stdout"@, "stderr"@]),
            item_id_spec(item),
            match status_spec(str_member(item, "status"@)) {
                Some(s) => Some(s),
                None => Some(ToolStatus::Succeeded),
            },
            ts,
            raw_id,
            o,
        ))
    } else if is_kind(kind, "McpToolCall"@, "mcp_tool_call"@) {
        Some(tool_entry_spec(
            ToolKind::Mcp,
            mcp_title(item),
            pretty_value_spec(json_get(item, "arguments"@)),
            joined_spec(item, seq!["result"@, "error"@]),
            item_id_spec(item),
            status_spec(str_member(item, "status"@)),
            ts,
            raw_id,
            o,
        ))
    } else if is_kind(kind, "ContextCompaction"@, "context_compaction"@) {
        Some(simple_entry_spec(EntryKind::Marker, "Conversation compacted"@, Seq::empty(), ts, raw_id, o, false, true))
    } else {
        None
    }
}

fn item_base(kind: &str, item: &JsonValue, timestamp_micros: Option<i64>, raw_id: &str) -> (r: Option<NormalizedEntry>)
    ensures
        match item_base_spec(kind@, *item, timestamp_micros, raw_id@) {
            Some(v) => (r matches Some(e) && e.wf() && e@ == v),
            None => r is None,
        },
{
    let ts = timestamp_micros;
    let o = EntryOrigin::ItemCompleted;
    if kind_is(kind, "UserMessage", "user_message") {
        let mut e = message_entry(MessageRole::User, None, user_input_text(item.get("content")), ts, raw_id, o);
        add_attachment_metadata(&mut e, item);
        Some(e)
    } else if kind_is(kind, "HookPrompt", "hook_prompt") {
        Some(simple_entry(EntryKind::Context, "Hook prompt", content_text(item.get("fragments")), ts, raw_id, o, false, true))
    } else if kind_is(kind, "Plan", "plan") {
        Some(simple_entry(EntryKind::Plan, "Plan", field1(item, "text"), ts, raw_id, o, true, false))
    } else if kind_is(kind, "Reasoning", "reasoning") {
        let text = content_text(item.get("summary_text"));
        let searchable = !text.as_str().is_empty();
        let mut e = reasoning_entry(text, ts, raw_id, searchable);
        e.origin = o;
        Some(e)
    } else if kind_is(kind, "CommandExecution", "command_execution") {
        Some(tool_entry(
            ToolKind::Command,
            "Command",
            string_array(item.get("command"), " "),
            joined4(item, "formatted_output", "aggregated_output", "stdout", "stderr"),
            item_id(item),
            status_field(item),
            ts,
            raw_id,
            o,
        ))
    } else if kind_is(kind, "DynamicToolCall", "dynamic_tool_call") {
        let status = if reports_failure(item) { Some(ToolStatus::Failed) } else { status_field(item) };
        let title = field1(item, "tool");
        let mut e = tool_entry(
            ToolKind::Dynamic,
            title.as_str(),
            pretty_value(item.get("arguments")),
            joined2(item, "content_items", "error"),
            item_id(item),
            status,
            ts,
            raw_id,
            o,
        );
        add_attachment_metadata(&mut e, item);
        Some(e)
    } else if kind_is(kind, "CollabAgentToolCall", "collab_agent_tool_call") {
        Some(tool_entry(
            ToolKind::Other,
            "Collaboration",
            field2(item, "prompt", "tool"),
            joined3(item, "receiver_agents", "receiver_thread_ids", "agents_states"),
            item_id(item),
            status_field(item),
            ts,
            raw_id,
            o,
        ))
    } else if kind_is(kind, "SubAgentActivity", "sub_agent_activity") {
        Some(simple_entry(EntryKind::Marker, "Sub-agent activity", field2(item, "kind", "agent_path"), ts, raw_id, o, true, true))
    } else if kind_is(kind, "WebSearch", "web_search") {
        Some(tool_entry(
            ToolKind::WebSearch,
            "Web search",
            field1(item, "query"),
            joined2(item, "action", "results"),
            item_id(item),
            Some(ToolStatus::Succeeded),
            ts,
            raw_id,
            o,
        ))
    } else if kind_is(kind, "ImageView", "image_view") {
        Some(tool_entry(
            ToolKind::ViewImage,
            "Image attachment",
            field1(item, "path"),
            String::new(),
            item_id(item),
            Some(ToolStatus::Succeeded),
            ts,
            raw_id,
            o,
        ))
    } else if kind_is(kind, "ImageGeneration", "image_generation") {
        let mut e = tool_entry(
            ToolKind::Other,
            "Image generation",
            field2(item, "revised_prompt", "revisedPrompt"),
            field2(item, "saved_path", "savedPath"),
            item_id(item),
            status_field(item),
            ts,
            raw_id,
            o,
        );
        add_attachment_counts(&mut e, 1, 0);
        add_image_generation_failure_metadata(&mut e, item);
        Some(e)
    } else if kind_is(kind, "EnteredReviewMode", "entered_review_mode") {
        Some(simple_entry(EntryKind::Marker, "Review started", field1(item, "user_facing_hint"), ts, raw_id, o, true, true))
    } else if kind_is(kind, "ExitedReviewMode", "exited_review_mode") {
        Some(simple_entry(EntryKind::Marker, "Review completed", pretty_value(item.get("review_output")), ts, raw_id, o, true, true))
    } else if kind_is(kind, "FileChange", "file_change") {
        let status = match status_field(item) {
            Some(s) => Some(s),
            None => Some(ToolStatus::Succeeded),
        };
        Some(tool_entry(
            ToolKind::Patch,
            "Patch",
            pretty_value(item.get("changes")),
            joined2(item, "stdout", "stderr"),
            item_id(item),
            status,
            ts,
            raw_id,
            o,
        ))
    } else if kind_is(kind, "McpToolCall", "mcp_tool_call") {
        let server = field1(item, "server");
        let tool = field1(item, "tool");
        let title = if server.as_str().is_empty() && tool.as_str().is_empty() {
            "MCP tool".to_string()
        } else {
            let mut t = server.clone();
            string_push_str(&mut t, "/");
            string_push_str(&mut t, tool.as_str());
            t
        };
        proof {
            reveal_strlit("/");
        }
        Some(tool_entry(
            ToolKind::Mcp,
            title.as_str(),
            pretty_value(item.get("arguments")),
            joined2(item, "result", "error"),
            item_id(item),
            status_field(item),
            ts,
            raw_id,
            o,
        ))
    } else if kind_is(kind, "ContextCompaction", "context_compaction") {
        Some(simple_entry(EntryKind::Marker, "Conversation compacted", String::new(), ts, raw_id, o, false, true))
    } else {
        None
    }
}

/// What an `item_completed` event normalizes to, by its item's `type`.
pub open spec fn normalize_item_completed_spec(payload: JsonValue, timestamp_micros: Option<i64>, raw_id: Seq<char>) -> ResultView {
    let item = item_of(payload);
    let kind = type_of(item);
    if is_kind(kind, "AgentMessage"@, "agent_message"@) {
        ResultView::Entries(
            assistant_entries_spec(
                phase_spec(str_member(item, "phase"@)),
                content_text_spec(json_get(item, "content"@)),
                timestamp_micros,
                raw_id,
                EntryOrigin::ItemCompleted,
            ).map_values(|e: EntryView| decorate_item_message(e, item, payload)),
        )
    } else if is_kind(kind, "Extension"@, "extension"@) {
        match normalize_extension_item_spec(item, timestamp_micros, raw_id) {
            ResultView::Entry(e) => ResultView::Entry(finish_item(e, item, payload)),
            other => other,
        }
    } else {
        match item_base_spec(kind, item, timestamp_micros, raw_id) {
            Some(e) => ResultView::Entry(finish_item(e, item, payload)),
            None => ResultView::Unknown(unknown_entry_spec(kind, "Unknown item"@, timestamp_micros, raw_id), "unknown_turn_item"@),
        }
    }
}

fn agent_message_item(item: &JsonValue, payload: &JsonValue, timestamp_micros: Option<i64>, raw_id: &str) -> (r: Vec<NormalizedEntry>)
    ensures
        all_wf(r@),
        entry_views(r@) == assistant_entries_spec(
            phase_spec(str_member(*item, "phase"@)),
            content_text_spec(json_get(*item, "content"@)),
            timestamp_micros,
            raw_id@,
            EntryOrigin::ItemCompleted,
        ).map_values(|e: EntryView| decorate_item_message(e, *item, *payload)),
{
    let entries = assistant_message_entries(
        phase_field(item),
        content_text(item.get("content")),
        timestamp_micros,
        raw_id,
        EntryOrigin::ItemCompleted,
    );
    decorate_item_messages(entries, item, payload)
}

fn other_item(kind: &str, item: &JsonValue, payload: &JsonValue, timestamp_micros: Option<i64>, raw_id: &str) -> (r: NormalizeResult)
    ensures
        r.wf(),
        r@ == match item_base_spec(kind@, *item, timestamp_micros, raw_id@) {
            Some(e) => ResultView::Entry(finish_item(e, *item, *payload)),
            None => ResultView::Unknown(unknown_entry_spec(kind@, "Unknown item"@, timestamp_micros, raw_id@), "unknown_turn_item"@),
        },
{
    match item_base(kind, item, timestamp_micros, raw_id) {
        Some(mut e) => {
            finish_item_entry(&mut e, item, payload);
            NormalizeResult::Entry(e)
        },
        None => NormalizeResult::Unknown(unknown_entry(kind, "Unknown item", timestamp_micros, raw_id), "unknown_turn_item"),
    }
}

fn extension_item(item: &JsonValue, payload: &JsonValue, timestamp_micros: Option<i64>, raw_id: &str) -> (r: NormalizeResult)
    ensures
        r.wf(),
        r@ == match normalize_extension_item_spec(*item, timestamp_micros, raw_id@) {
            ResultView::Entry(e) => ResultView::Entry(finish_item(e, *item, *payload)),
            other => other,
        },
{
    match normalize_extension_item(item, timestamp_micros, raw_id) {
        NormalizeResult::Entry(mut e) => {
            finish_item_entry(&mut e, item, payload);
            NormalizeResult::Entry(e)
        },
        other => other,
    }
}

/// Normalizes an `item_completed` event by its item's `type`: agent and
/// user messages, hook prompts, plans, reasoning, tool calls, review
/// markers, compactions and extension items; anything else as unknown.
pub fn normalize_item_completed(payload: &JsonValue, timestamp_micros: Option<i64>, raw_id: &str) -> (r: NormalizeResult)
    ensures
        r.wf(),
        r@ == normalize_item_completed_spec(*payload, timestamp_micros, raw_id@),
{
    let null = JsonValue::Null;
    let item: &JsonValue = match payload.get("item") {
        Some(i) => i,
        None => &null,
    };
    let kind = payload_type(item);
    if kind_is(kind, "AgentMessage", "agent_message") {
        NormalizeResult::Entries(agent_message_item(item, payload, timestamp_micros, raw_id))
    } else if kind_is(kind, "Extension", "extension") {
        extension_item(item, payload, timestamp_micros, raw_id)
    } else {
        other_item(kind, item, payload, timestamp_micros, raw_id)
    }
}

} // verus!
