//! Turning rollout records into conversation entries: events, completed
//! turn items, response items and realtime items.

use vstd::prelude::*;

use crate::model::{EntryKind, EntryPresentation, MessageRole, Phase, ToolKind, ToolStatus};
use crate::rollout::content::{
    deref_opt, plan_text, plan_text_spec, string_field, string_field_spec, user_input_text, user_input_text_spec,
};
use crate::rollout::display::{joined_fields, joined_parts, pretty_value, pretty_value_spec};
use crate::rollout::content::join_spec;
use crate::rollout::entry::{
    add_attachment_counts, add_attachment_metadata, add_event_timing_metadata, add_execution_attribution_metadata,
    add_image_generation_failure_metadata, add_request_user_input_questions, add_tool_capability_metadata,
    message_entry, message_entry_spec, reasoning_entry, reasoning_entry_spec, simple_entry, simple_entry_spec,
    tool_entry, tool_entry_spec, with_attachment_counts, with_attachments, with_event_timing,
    with_execution_attribution, with_image_generation_failure, with_meta, with_questions, with_tool_capability,
    EntryView, NormalizedEntry,
};
use crate::rollout::identity::{event_title, event_title_spec};
use crate::rollout::json::{json_get, json_view, str_member, JsonData, JsonValue};
use crate::rollout::message::{
    split_plan_spec, split_proposed_plan_blocks, tool_event_kind, tool_event_kind_spec,
};
use crate::rollout::metadata::{call_id, call_id_spec, phase_field, phase_spec, status_field, status_spec};
use crate::rollout::types::EntryOrigin;
use crate::rollout::item::{normalize_item_completed, normalize_item_completed_spec};
use crate::text::{ends_with, str_ends_with, str_eq, str_trim, trim_end_spec, trim_start_spec};

verus! {

/// What normalizing one record gives.
#[derive(Debug)]
pub enum NormalizeResult {
    NoEntry,
    Entry(NormalizedEntry),
    Entries(Vec<NormalizedEntry>),
    Unknown(NormalizedEntry, &'static str),
}

/// What a normalization result holds.
pub enum ResultView {
    NoEntry,
    Entry(EntryView),
    Entries(Seq<EntryView>),
    Unknown(EntryView, Seq<char>),
}

/// The views of entries.
pub open spec fn entry_views(v: Seq<NormalizedEntry>) -> Seq<EntryView> {
    v.map_values(|e: NormalizedEntry| e@)
}

/// Whether every entry's metadata is in order.
pub open spec fn all_wf(v: Seq<NormalizedEntry>) -> bool {
    forall|i: int| 0 <= i < v.len() ==> (#[trigger] v[i]).wf()
}

impl NormalizeResult {
    /// What the result holds.
    pub open spec fn view(&self) -> ResultView {
        match self {
            NormalizeResult::NoEntry => ResultView::NoEntry,
            NormalizeResult::Entry(e) => ResultView::Entry(e@),
            NormalizeResult::Entries(v) => ResultView::Entries(entry_views(v@)),
            NormalizeResult::Unknown(e, code) => ResultView::Unknown(e@, code@),
        }
    }

    /// Whether every entry's metadata is in order.
    pub open spec fn wf(&self) -> bool {
        match self {
            NormalizeResult::NoEntry => true,
            NormalizeResult::Entry(e) => e.wf(),
            NormalizeResult::Entries(v) => all_wf(v@),
            NormalizeResult::Unknown(e, _) => e.wf(),
        }
    }
}

/// The `type` of a payload; empty when it has none.
pub open spec fn type_of(v: JsonValue) -> Seq<char> {
    match str_member(v, "type"@) {
        Some(k) => k,
        None => Seq::empty(),
    }
}

/// The `type` of a payload; empty when it has none.
pub fn payload_type(v: &JsonValue) -> (r: &str)
    ensures
        r@ == type_of(*v),
{
    proof {
        reveal_strlit("");
    }
    match v.get("type") {
        Some(t) => match t.as_str() {
            Some(k) => k,
            None => "",
        },
        None => "",
    }
}

pub(crate) fn field1(payload: &JsonValue, a: &str) -> (r: String)
    ensures
        r@ == string_field_spec(*payload, seq![a@]),
{
    let keys: [&str; 1] = [a];
    assert(keys@.map_values(|k: &str| k@) =~= seq![a@]);
    string_field(payload, keys.as_slice())
}

pub(crate) fn field2(payload: &JsonValue, a: &str, b: &str) -> (r: String)
    ensures
        r@ == string_field_spec(*payload, seq![a@, b@]),
{
    let keys: [&str; 2] = [a, b];
    assert(keys@.map_values(|k: &str| k@) =~= seq![a@, b@]);
    string_field(payload, keys.as_slice())
}

pub(crate) fn field3(payload: &JsonValue, a: &str, b: &str, c: &str) -> (r: String)
    ensures
        r@ == string_field_spec(*payload, seq![a@, b@, c@]),
{
    let keys: [&str; 3] = [a, b, c];
    assert(keys@.map_values(|k: &str| k@) =~= seq![a@, b@, c@]);
    string_field(payload, keys.as_slice())
}

pub(crate) fn field5(payload: &JsonValue, a: &str, b: &str, c: &str, d: &str, e: &str) -> (r: String)
    ensures
        r@ == string_field_spec(*payload, seq![a@, b@, c@, d@, e@]),
{
    let keys: [&str; 5] = [a, b, c, d, e];
    assert(keys@.map_values(|k: &str| k@) =~= seq![a@, b@, c@, d@, e@]);
    string_field(payload, keys.as_slice())
}

/// The display texts of the members named `keys`, one per line.
pub open spec fn joined_spec(payload: JsonValue, keys: Seq<Seq<char>>) -> Seq<char> {
    join_spec(joined_parts(payload, keys), "\n"@)
}

pub(crate) fn joined1(payload: &JsonValue, a: &str) -> (r: String)
    ensures
        r@ == joined_spec(*payload, seq![a@]),
{
    let keys: [&str; 1] = [a];
    assert(keys@.map_values(|k: &str| k@) =~= seq![a@]);
    joined_fields(payload, keys.as_slice())
}

pub(crate) fn joined2(payload: &JsonValue, a: &str, b: &str) -> (r: String)
    ensures
        r@ == joined_spec(*payload, seq![a@, b@]),
{
    let keys: [&str; 2] = [a, b];
    assert(keys@.map_values(|k: &str| k@) =~= seq![a@, b@]);
    joined_fields(payload, keys.as_slice())
}

pub(crate) fn joined3(payload: &JsonValue, a: &str, b: &str, c: &str) -> (r: String)
    ensures
        r@ == joined_spec(*payload, seq![a@, b@, c@]),
{
    let keys: [&str; 3] = [a, b, c];
    assert(keys@.map_values(|k: &str| k@) =~= seq![a@, b@, c@]);
    joined_fields(payload, keys.as_slice())
}

pub(crate) fn joined4(payload: &JsonValue, a: &str, b: &str, c: &str, d: &str) -> (r: String)
    ensures
        r@ == joined_spec(*payload, seq![a@, b@, c@, d@]),
{
    let keys: [&str; 4] = [a, b, c, d];
    assert(keys@.map_values(|k: &str| k@) =~= seq![a@, b@, c@, d@]);
    joined_fields(payload, keys.as_slice())
}

/// The entries of an assistant message: the message itself, or, when it
/// holds a proposed plan, its text outside the plan (unless blank) and the
/// plan as a plan entry.
pub open spec fn assistant_entries_spec(
    phase: Option<Phase>,
    text: Seq<char>,
    timestamp_micros: Option<i64>,
    raw_id: Seq<char>,
    origin: EntryOrigin,
) -> Seq<EntryView> {
    match split_plan_spec(text) {
        None => seq![message_entry_spec(MessageRole::Assistant, phase, text, timestamp_micros, raw_id, origin)],
        Some(parts) => {
            let plan = simple_entry_spec(EntryKind::Plan, "Plan"@, parts.1, timestamp_micros, raw_id, origin, true, false);
            if trim_end_spec(trim_start_spec(parts.0)).len() > 0 {
                seq![message_entry_spec(MessageRole::Assistant, phase, parts.0, timestamp_micros, raw_id, origin), plan]
            } else {
                seq![plan]
            }
        },
    }
}

/// The entries of an assistant message, its proposed plan split out.
pub fn assistant_message_entries(
    phase: Option<Phase>,
    text: String,
    timestamp_micros: Option<i64>,
    raw_id: &str,
    origin: EntryOrigin,
) -> (r: Vec<NormalizedEntry>)
    ensures
        all_wf(r@),
        entry_views(r@) == assistant_entries_spec(phase, text@, timestamp_micros, raw_id@, origin),
{
    match split_proposed_plan_blocks(text.as_str()) {
        None => {
            let e = message_entry(MessageRole::Assistant, phase, text, timestamp_micros, raw_id, origin);
            let r = vec![e];
            assert(entry_views(r@) =~= assistant_entries_spec(phase, text@, timestamp_micros, raw_id@, origin));
            r
        },
        Some(parts) => {
            let mut r: Vec<NormalizedEntry> = Vec::new();
            let visible_blank = str_trim(parts.visible_text.as_str()).is_empty();
            if !visible_blank {
                r.push(message_entry(MessageRole::Assistant, phase, parts.visible_text, timestamp_micros, raw_id, origin));
            }
            r.push(simple_entry(EntryKind::Plan, "Plan", parts.plan_text, timestamp_micros, raw_id, origin, true, false));
            assert(entry_views(r@) =~= assistant_entries_spec(phase, text@, timestamp_micros, raw_id@, origin));
            r
        },
    }
}

/// Whether a payload reports `success: false`.
pub open spec fn failed_flag(payload: JsonValue) -> bool {
    json_get(payload, "success"@) matches Some(JsonValue::Bool(b)) && !b
}

pub(crate) fn reports_failure(payload: &JsonValue) -> (r: bool)
    ensures
        r == failed_flag(*payload),
{
    match payload.get("success") {
        Some(v) => v.as_bool() == Some(false),
        None => false,
    }
}

/// The fields a tool event's output is read from.
pub open spec fn tool_event_output_keys(event: Seq<char>) -> Seq<Seq<char>> {
    if event == "mcp_tool_call_end"@ {
        seq!["result"@]
    } else if event == "web_search_end"@ {
        seq!["action"@, "results"@]
    } else if event == "image_generation_end"@ {
        seq!["saved_path"@]
    } else {
        seq!["delta"@, "output"@, "stdout"@, "stderr"@]
    }
}

/// The status of a tool event: as reported at its end or response (else
/// failed or succeeded by its `success` flag), running before that.
pub open spec fn tool_event_status(event: Seq<char>, payload: JsonValue) -> Option<ToolStatus> {
    if ends_with(event, "_end"@) || ends_with(event, "_response"@) {
        match status_spec(str_member(payload, "status"@)) {
            Some(s) => Some(s),
            None => Some(if failed_flag(payload) { ToolStatus::Failed } else { ToolStatus::Succeeded }),
        }
    } else {
        Some(ToolStatus::Running)
    }
}

/// The entry of a tool event.
pub open spec fn tool_event_entry_spec(
    event: Seq<char>,
    payload: JsonValue,
    timestamp_micros: Option<i64>,
    raw_id: Seq<char>,
) -> EntryView {
    let e = tool_event_base(event, payload, timestamp_micros, raw_id);
    let e = with_event_timing(with_tool_capability(with_execution_attribution(with_attachments(e, payload), payload), payload), payload);
    if event == "image_generation_end"@ {
        with_image_generation_failure(with_attachment_counts(e, 1, 0), payload)
    } else {
        e
    }
}

fn tool_event_output(event: &str, payload: &JsonValue) -> (r: String)
    ensures
        r@ == joined_spec(*payload, tool_event_output_keys(event@)),
{
    if str_eq(event, "mcp_tool_call_end") {
        joined1(payload, "result")
    } else if str_eq(event, "web_search_end") {
        joined2(payload, "action", "results")
    } else if str_eq(event, "image_generation_end") {
        joined1(payload, "saved_path")
    } else {
        joined4(payload, "delta", "output", "stdout", "stderr")
    }
}

fn tool_event_status_of(event: &str, payload: &JsonValue) -> (r: Option<ToolStatus>)
    ensures
        r == tool_event_status(event@, *payload),
{
    if str_ends_with(event, "_end") || str_ends_with(event, "_response") {
        match status_field(payload) {
            Some(s) => Some(s),
            None => Some(if reports_failure(payload) { ToolStatus::Failed } else { ToolStatus::Succeeded }),
        }
    } else {
        Some(ToolStatus::Running)
    }
}

/// The bare entry of a tool event, before its payload's metadata.
pub open spec fn tool_event_base(event: Seq<char>, payload: JsonValue, timestamp_micros: Option<i64>, raw_id: Seq<char>) -> EntryView {
    let kind = match tool_event_kind_spec(event) {
        Some(k) => k,
        None => ToolKind::Other,
    };
    let title = string_field_spec(payload, seq!["name"@, "server"@, "query"@]);
    tool_entry_spec(
        kind,
        if title.len() == 0 { event_title_spec(event) } else { title },
        string_field_spec(payload, seq!["command"@, "input"@, "arguments"@, "query"@, "revised_prompt"@]),
        joined_spec(payload, tool_event_output_keys(event)),
        call_id_spec(payload),
        tool_event_status(event, payload),
        timestamp_micros,
        raw_id,
        EntryOrigin::EventPresentation,
    )
}

fn tool_event_start(event: &str, payload: &JsonValue, timestamp_micros: Option<i64>, raw_id: &str) -> (r: NormalizedEntry)
    ensures
        r.wf(),
        r@ == tool_event_base(event@, *payload, timestamp_micros, raw_id@),
{
    let kind = match tool_event_kind(event) {
        Some(k) => k,
        None => ToolKind::Other,
    };
    let title = field3(payload, "name", "server", "query");
    let primary = field5(payload, "command", "input", "arguments", "query", "revised_prompt");
    let secondary = tool_event_output(event, payload);
    let status = tool_event_status_of(event, payload);
    let shown_title: &str = if title.as_str().is_empty() { event_title(event) } else { title.as_str() };
    tool_entry(kind, shown_title, primary, secondary, call_id(payload), status, timestamp_micros, raw_id, EntryOrigin::EventPresentation)
}

/// The entry of a tool event: its tool, title, input, output and status.
pub fn tool_event_entry(event: &str, payload: &JsonValue, timestamp_micros: Option<i64>, raw_id: &str) -> (r: NormalizedEntry)
    ensures
        r.wf(),
        r@ == tool_event_entry_spec(event@, *payload, timestamp_micros, raw_id@),
{
    let mut e = tool_event_start(event, payload, timestamp_micros, raw_id);
    add_attachment_metadata(&mut e, payload);
    add_execution_attribution_metadata(&mut e, payload);
    add_tool_capability_metadata(&mut e, payload);
    add_event_timing_metadata(&mut e, payload);
    if str_eq(event, "image_generation_end") {
        add_attachment_counts(&mut e, 1, 0);
        add_image_generation_failure_metadata(&mut e, payload);
    }
    e
}

/// The entry of a request for user input: the whole request shown, its
/// questions kept.
pub open spec fn request_user_input_event_entry_spec(
    payload: JsonValue,
    timestamp_micros: Option<i64>,
    raw_id: Seq<char>,
) -> EntryView {
    with_questions(
        tool_entry_spec(
            ToolKind::RequestUserInput,
            "request_user_input"@,
            pretty_value_spec(Some(payload)),
            Seq::empty(),
            call_id_spec(payload),
            Some(ToolStatus::Running),
            timestamp_micros,
            raw_id,
            EntryOrigin::EventPresentation,
        ),
        json_get(payload, "questions"@),
    )
}

/// The entry of a request for user input.
pub fn request_user_input_event_entry(payload: &JsonValue, timestamp_micros: Option<i64>, raw_id: &str) -> (r: NormalizedEntry)
    ensures
        r.wf(),
        r@ == request_user_input_event_entry_spec(*payload, timestamp_micros, raw_id@),
{
    let mut e = tool_entry(
        ToolKind::RequestUserInput,
        "request_user_input",
        pretty_value(Some(payload)),
        String::new(),
        call_id(payload),
        Some(ToolStatus::Running),
        timestamp_micros,
        raw_id,
        EntryOrigin::EventPresentation,
    );
    add_request_user_input_questions(&mut e, payload.get("questions"));
    e
}

/// Whether an event only marks a point in the conversation.
pub open spec fn marker_event(kind: Seq<char>) -> bool {
    kind == "context_compacted"@ || kind == "thread_rolled_back"@ || kind == "task_started"@ || kind
        == "turn_started"@ || kind == "task_complete"@ || kind == "turn_complete"@ || kind == "turn_aborted"@
        || kind == "entered_review_mode"@ || kind == "exited_review_mode"@ || kind
        == "collab_agent_spawn_begin"@ || kind == "collab_agent_spawn_end"@ || kind
        == "collab_agent_interaction_begin"@ || kind == "collab_agent_interaction_end"@ || kind
        == "sub_agent_activity"@ || kind == "thread_goal_updated"@
}

fn is_marker_event(kind: &str) -> (r: bool)
    ensures
        r == marker_event(kind@),
{
    str_eq(kind, "context_compacted") || str_eq(kind, "thread_rolled_back") || str_eq(kind, "task_started")
        || str_eq(kind, "turn_started") || str_eq(kind, "task_complete") || str_eq(kind, "turn_complete")
        || str_eq(kind, "turn_aborted") || str_eq(kind, "entered_review_mode") || str_eq(
        kind,
        "exited_review_mode",
    ) || str_eq(kind, "collab_agent_spawn_begin") || str_eq(kind, "collab_agent_spawn_end") || str_eq(
        kind,
        "collab_agent_interaction_begin",
    ) || str_eq(kind, "collab_agent_interaction_end") || str_eq(kind, "sub_agent_activity") || str_eq(
        kind,
        "thread_goal_updated",
    )
}

/// Whether an event reports setup or usage.
pub open spec fn context_event(kind: Seq<char>) -> bool {
    kind == "token_count"@ || kind == "session_configured"@ || kind == "mcp_startup_update"@ || kind
        == "mcp_startup_complete"@
}

/// Whether an event is a warning.
pub open spec fn warning_event(kind: Seq<char>) -> bool {
    kind == "warning"@ || kind == "guardian_warning"@ || kind == "stream_error"@ || kind == "deprecation_notice"@
}

/// `title`, or `fallback` when it is empty.
pub open spec fn or_fallback(title: Seq<char>, fallback: Seq<char>) -> Seq<char> {
    if title.len() == 0 { fallback } else { title }
}

/// An entry for a record of a kind the normalizer does not know.
pub open spec fn unknown_entry_spec(
    kind: Seq<char>,
    fallback: Seq<char>,
    timestamp_micros: Option<i64>,
    raw_id: Seq<char>,
) -> EntryView {
    simple_entry_spec(EntryKind::Unknown, or_fallback(kind, fallback), Seq::empty(), timestamp_micros, raw_id, EntryOrigin::Derived, false, true)
}

pub(crate) fn unknown_entry(kind: &str, fallback: &str, timestamp_micros: Option<i64>, raw_id: &str) -> (r: NormalizedEntry)
    ensures
        r.wf(),
        r@ == unknown_entry_spec(kind@, fallback@, timestamp_micros, raw_id@),
{
    let title: &str = if kind.is_empty() { fallback } else { kind };
    simple_entry(EntryKind::Unknown, title, String::new(), timestamp_micros, raw_id, EntryOrigin::Derived, false, true)
}

/// `e` with metadata `eventType` naming the event.
pub open spec fn with_event_type(e: EntryView, kind: Seq<char>) -> EntryView {
    with_meta(e, "eventType"@, JsonData::Str(kind))
}

/// What an event record normalizes to, by its `type`.
pub open spec fn normalize_event_spec(payload: JsonValue, timestamp_micros: Option<i64>, raw_id: Seq<char>) -> ResultView {
    let kind = type_of(payload);
    let ts = timestamp_micros;
    if kind == "user_message"@ {
        ResultView::Entry(with_attachments(
            message_entry_spec(MessageRole::User, None, string_field_spec(payload, seq!["message"@, "text"@]), ts, raw_id, EntryOrigin::EventPresentation),
            payload,
        ))
    } else if kind == "agent_message"@ {
        ResultView::Entries(assistant_entries_spec(
            phase_spec(str_member(payload, "phase"@)),
            string_field_spec(payload, seq!["message"@]),
            ts,
            raw_id,
            EntryOrigin::EventPresentation,
        ))
    } else if kind == "agent_reasoning"@ {
        ResultView::Entry(reasoning_entry_spec(string_field_spec(payload, seq!["text"@, "message"@]), ts, raw_id, true))
    } else if kind == "agent_reasoning_raw_content"@ || kind == "reasoning_raw_content_delta"@ {
        ResultView::NoEntry
    } else if kind == "item_completed"@ {
        normalize_item_completed_spec(payload, ts, raw_id)
    } else if kind == "thread_settings_applied"@ {
        ResultView::Entry(with_event_type(
            simple_entry_spec(EntryKind::Context, "Thread settings applied"@, pretty_value_spec(json_get(payload, "thread_settings"@)), ts, raw_id, EntryOrigin::EventPresentation, false, true),
            "thread_settings_applied"@,
        ))
    } else if kind == "plan_update"@ || kind == "plan_delta"@ {
        ResultView::Entry(simple_entry_spec(EntryKind::Plan, "Plan"@, plan_text_spec(payload), ts, raw_id, EntryOrigin::EventPresentation, true, false))
    } else if warning_event(kind) {
        ResultView::Entry(simple_entry_spec(EntryKind::Warning, "Warning"@, string_field_spec(payload, seq!["message"@, "text"@]), ts, raw_id, EntryOrigin::EventPresentation, true, false))
    } else if kind == "error"@ {
        ResultView::Entry(simple_entry_spec(EntryKind::Error, "Error"@, string_field_spec(payload, seq!["message"@, "text"@]), ts, raw_id, EntryOrigin::EventPresentation, true, false))
    } else if kind == "request_user_input"@ {
        ResultView::Entry(request_user_input_event_entry_spec(payload, ts, raw_id))
    } else if tool_event_kind_spec(kind) is Some {
        ResultView::Entry(tool_event_entry_spec(kind, payload, ts, raw_id))
    } else if marker_event(kind) {
        ResultView::Entry(simple_entry_spec(EntryKind::Marker, event_title_spec(kind), string_field_spec(payload, seq!["message"@, "goal"@]), ts, raw_id, EntryOrigin::EventPresentation, false, true))
    } else if context_event(kind) {
        ResultView::Entry(with_event_type(
            simple_entry_spec(EntryKind::Context, event_title_spec(kind), Seq::empty(), ts, raw_id, EntryOrigin::Derived, false, true),
            kind,
        ))
    } else {
        ResultView::Unknown(unknown_entry_spec(kind, "Unknown event"@, ts, raw_id), "unknown_event"@)
    }
}

/// Normalizes an event record by its `type`: messages, reasoning, plans,
/// warnings and errors, tool activity, markers and context; anything else
/// as an unknown entry.
pub fn normalize_event(payload: &JsonValue, timestamp_micros: Option<i64>, raw_id: &str) -> (r: NormalizeResult)
    ensures
        r.wf(),
        r@ == normalize_event_spec(*payload, timestamp_micros, raw_id@),
{
    let kind = payload_type(payload);
    let ts = timestamp_micros;
    if str_eq(kind, "user_message") {
        let text = field2(payload, "message", "text");
        let mut e = message_entry(MessageRole::User, None, text, ts, raw_id, EntryOrigin::EventPresentation);
        add_attachment_metadata(&mut e, payload);
        NormalizeResult::Entry(e)
    } else if str_eq(kind, "agent_message") {
        NormalizeResult::Entries(assistant_message_entries(
            phase_field(payload),
            field1(payload, "message"),
            ts,
            raw_id,
            EntryOrigin::EventPresentation,
        ))
    } else if str_eq(kind, "agent_reasoning") {
        NormalizeResult::Entry(reasoning_entry(field2(payload, "text", "message"), ts, raw_id, true))
    } else if str_eq(kind, "agent_reasoning_raw_content") || str_eq(kind, "reasoning_raw_content_delta") {
        NormalizeResult::NoEntry
    } else if str_eq(kind, "item_completed") {
        normalize_item_completed(payload, ts, raw_id)
    } else if str_eq(kind, "thread_settings_applied") {
        let mut e = simple_entry(
            EntryKind::Context,
            "Thread settings applied",
            pretty_value(payload.get("thread_settings")),
            ts,
            raw_id,
            EntryOrigin::EventPresentation,
            false,
            true,
        );
        e.metadata.insert("eventType", JsonValue::String("thread_settings_applied".to_string()));
        NormalizeResult::Entry(e)
    } else if str_eq(kind, "plan_update") || str_eq(kind, "plan_delta") {
        NormalizeResult::Entry(simple_entry(EntryKind::Plan, "Plan", plan_text(payload), ts, raw_id, EntryOrigin::EventPresentation, true, false))
    } else if str_eq(kind, "warning") || str_eq(kind, "guardian_warning") || str_eq(kind, "stream_error") || str_eq(
        kind,
        "deprecation_notice",
    ) {
        NormalizeResult::Entry(simple_entry(
            EntryKind::Warning,
            "Warning",
            field2(payload, "message", "text"),
            ts,
            raw_id,
            EntryOrigin::EventPresentation,
            true,
            false,
        ))
    } else if str_eq(kind, "error") {
        NormalizeResult::Entry(simple_entry(
            EntryKind::Error,
            "Error",
            field2(payload, "message", "text"),
            ts,
            raw_id,
            EntryOrigin::EventPresentation,
            true,
            false,
        ))
    } else if str_eq(kind, "request_user_input") {
        NormalizeResult::Entry(request_user_input_event_entry(payload, ts, raw_id))
    } else if tool_event_kind(kind).is_some() {
        NormalizeResult::Entry(tool_event_entry(kind, payload, ts, raw_id))
    } else if is_marker_event(kind) {
        NormalizeResult::Entry(simple_entry(
            EntryKind::Marker,
            event_title(kind),
            field2(payload, "message", "goal"),
            ts,
            raw_id,
            EntryOrigin::EventPresentation,
            false,
            true,
        ))
    } else if str_eq(kind, "token_count") || str_eq(kind, "session_configured") || str_eq(kind, "mcp_startup_update")
        || str_eq(kind, "mcp_startup_complete") {
        let mut e = simple_entry(EntryKind::Context, event_title(kind), String::new(), ts, raw_id, EntryOrigin::Derived, false, true);
        e.metadata.insert("eventType", JsonValue::String(kind.to_string()));
        NormalizeResult::Entry(e)
    } else {
        NormalizeResult::Unknown(unknown_entry(kind, "Unknown event", ts, raw_id), "unknown_event")
    }
}

} // verus!
