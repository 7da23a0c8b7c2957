//! Response items, inter-agent messages and realtime items.

use vstd::prelude::*;

use crate::model::{EntryKind, EntryPresentation, MessageRole, ToolKind, ToolStatus};
use crate::rollout::content::{
    content_text, deref_opt, has_encrypted_content, has_encrypted_spec, join_spec, join_with, present,
    string_field_spec, value_text, value_text_spec,
};
use crate::rollout::display::{output_spec, output_text, pretty_value, pretty_value_spec};
use crate::rollout::entry::{
    add_attachment_counts, add_attachment_metadata, add_request_user_input_questions, add_response_item_metadata,
    add_source_item_id, item_id_spec, message_entry, message_entry_spec, reasoning_entry, reasoning_entry_spec,
    simple_entry, simple_entry_spec, tool_entry, tool_entry_spec, with_attachment_counts, with_attachments,
    with_meta, with_questions, with_response_item, with_source_item_id, EntryView, NormalizedEntry,
};
use crate::rollout::item::content_text_spec;
use crate::rollout::json::{json_get, json_view, str_member, string_option, JsonData, JsonValue};
use crate::rollout::message::{tool_kind_from_name, tool_kind_from_name_spec};
use crate::rollout::metadata::{call_id, call_id_spec, phase_field, phase_spec, role_field, role_spec, status_field, status_spec};
use crate::rollout::normalize::{
    all_wf, assistant_entries_spec, assistant_message_entries, entry_views, field1, field2, payload_type, type_of,
    unknown_entry, unknown_entry_spec, NormalizeResult, ResultView,
};
use crate::rollout::session::SessionBuilder;
use crate::rollout::types::EntryOrigin;
use crate::text::str_eq;

verus! {

/// `e` with the member `source` of `payload`, when present and not `null`,
/// as `target`.
pub open spec fn with_present_member(e: EntryView, payload: JsonValue, source: Seq<char>, target: Seq<char>) -> EntryView {
    match json_get(payload, source) {
        Some(v) => if v is Null { e } else { with_meta(e, target, json_view(v)) },
        None => e,
    }
}

fn copy_present_member(entry: &mut NormalizedEntry, payload: &JsonValue, source: &str, target: &str)
    requires
        old(entry).wf(),
    ensures
        final(entry).wf(),
        final(entry)@ == with_present_member(old(entry)@, *payload, source@, target@),
{
    if let Some(v) = payload.get(source) {
        if !v.is_null() {
            entry.metadata.insert(target, v.duplicate());
        }
    }
}

/// `e` with the boolean `trigger_turn` of a payload as `triggerTurn`.
pub open spec fn with_trigger_turn(e: EntryView, payload: JsonValue) -> EntryView {
    match json_get(payload, "trigger_turn"@) {
        Some(JsonValue::Bool(b)) => with_meta(e, "triggerTurn"@, JsonData::Bool(b)),
        _ => e,
    }
}

fn add_trigger_turn(entry: &mut NormalizedEntry, payload: &JsonValue)
    requires
        old(entry).wf(),
    ensures
        final(entry).wf(),
        final(entry)@ == with_trigger_turn(old(entry)@, *payload),
{
    if let Some(v) = payload.get("trigger_turn") {
        if let Some(b) = v.as_bool() {
            entry.metadata.insert("triggerTurn", JsonValue::Bool(b));
        }
    }
}

/// The entry of a message between agents: technical and collapsed, its
/// text hidden when encrypted, with its author and recipients.
#[verifier::opaque]
pub open spec fn inter_agent_entry_spec(payload: JsonValue, timestamp_micros: Option<i64>, raw_id: Seq<char>) -> EntryView {
    let encrypted = has_encrypted_spec(payload);
    let text = if encrypted { "Encrypted inter-agent message"@ } else { string_field_spec(payload, seq!["content"@]) };
    let base = message_entry_spec(MessageRole::Assistant, None, text, timestamp_micros, raw_id, EntryOrigin::ResponseItem);
    let e = EntryView {
        presentation: EntryPresentation::Technical,
        title: "Inter-agent message"@,
        default_collapsed: true,
        searchable: !encrypted && text.len() > 0,
        ..base
    };
    with_trigger_turn(
        with_present_member(
            with_present_member(
                with_present_member(with_source_item_id(e, payload), payload, "author"@, "author"@),
                payload,
                "recipient"@,
                "recipient"@,
            ),
            payload,
            "other_recipients"@,
            "otherRecipients"@,
        ),
        payload,
    )
}

/// The entry of a message between agents.
pub fn inter_agent_communication_entry(payload: &JsonValue, timestamp_micros: Option<i64>, raw_id: &str) -> (r: NormalizedEntry)
    ensures
        r.wf(),
        r@ == inter_agent_entry_spec(*payload, timestamp_micros, raw_id@),
{
    proof {
        reveal(inter_agent_entry_spec);
    }
    let plaintext = field1(payload, "content");
    let encrypted = has_encrypted_content(payload);
    let text = if encrypted { "Encrypted inter-agent message".to_string() } else { plaintext };
    let mut e = message_entry(MessageRole::Assistant, None, text, timestamp_micros, raw_id, EntryOrigin::ResponseItem);
    e.presentation = EntryPresentation::Technical;
    e.title = "Inter-agent message".to_string();
    e.default_collapsed = true;
    e.searchable = !encrypted && !e.primary_text.as_str().is_empty();
    add_source_item_id(&mut e, payload);
    copy_present_member(&mut e, payload, "author", "author");
    copy_present_member(&mut e, payload, "recipient", "recipient");
    copy_present_member(&mut e, payload, "other_recipients", "otherRecipients");
    add_trigger_turn(&mut e, payload);
    e
}

/// What an assistant entry of a response message records.
pub open spec fn decorate_response_assistant(e: EntryView, payload: JsonValue) -> EntryView {
    let e1 = if e.kind == EntryKind::Message { with_source_item_id(with_attachments(e, payload), payload) } else { e };
    with_response_item(e1, payload)
}

fn decorate_response_assistants(entries: Vec<NormalizedEntry>, payload: &JsonValue) -> (r: Vec<NormalizedEntry>)
    requires
        all_wf(entries@),
    ensures
        all_wf(r@),
        entry_views(r@) == entry_views(entries@).map_values(|e: EntryView| decorate_response_assistant(e, *payload)),
{
    let ghost orig = entries@;
    let mut rest = entries;
    let mut out: Vec<NormalizedEntry> = Vec::new();
    while rest.len() > 0
        invariant
            out@.len() + rest@.len() == orig.len(),
            rest@ == orig.skip(out@.len() as int),
            all_wf(orig),
            all_wf(out@),
            forall|j: int| 0 <= j < out@.len() ==> (#[trigger] out@[j])@ == decorate_response_assistant(orig[j]@, *payload),
        decreases rest@.len(),
    {
        let ghost k = out@.len() as int;
        let mut e = rest.remove(0);
        assert(e == orig[k]);
        let ghost v0 = e@;
        if e.kind == EntryKind::Message {
            add_attachment_metadata(&mut e, payload);
            add_source_item_id(&mut e, payload);
        }
        add_response_item_metadata(&mut e, payload);
        assert(e@ == decorate_response_assistant(v0, *payload));
        out.push(e);
        assert(rest@ =~= orig.skip(k + 1));
    }
    assert(entry_views(out@) =~= entry_views(orig).map_values(|e: EntryView| decorate_response_assistant(e, *payload)));
    out
}

/// The role of a response message; assistant when it names none known.
pub open spec fn response_role(payload: JsonValue) -> MessageRole {
    match role_spec(str_member(payload, "role"@)) {
        Some(r) => r,
        None => MessageRole::Assistant,
    }
}

/// What a response message normalizes to: an assistant message split
/// around its plan, or one message; system and developer messages before
/// the user spoke are collapsed and not searchable.
#[verifier::opaque]
pub open spec fn response_message_spec(payload: JsonValue, timestamp_micros: Option<i64>, raw_id: Seq<char>, saw_user: bool) -> ResultView {
    let role = response_role(payload);
    let phase = phase_spec(str_member(payload, "phase"@));
    let text = content_text_spec(json_get(payload, "content"@));
    if role == MessageRole::Assistant {
        ResultView::Entries(
            assistant_entries_spec(phase, text, timestamp_micros, raw_id, EntryOrigin::ResponseItem).map_values(
                |e: EntryView| decorate_response_assistant(e, payload),
            ),
        )
    } else {
        let e = message_entry_spec(role, phase, text, timestamp_micros, raw_id, EntryOrigin::ResponseItem);
        let startup = !saw_user && (role == MessageRole::System || role == MessageRole::Developer);
        let e = if startup { EntryView { default_collapsed: true, searchable: false, ..e } } else { e };
        ResultView::Entry(with_response_item(with_source_item_id(with_attachments(e, payload), payload), payload))
    }
}

fn response_message(payload: &JsonValue, timestamp_micros: Option<i64>, raw_id: &str, saw_user: bool) -> (r: NormalizeResult)
    ensures
        r.wf(),
        r@ == response_message_spec(*payload, timestamp_micros, raw_id@, saw_user),
{
    proof {
        reveal(response_message_spec);
    }
    let role = match role_field(payload) {
        Some(r) => r,
        None => MessageRole::Assistant,
    };
    let startup = !saw_user && (role == MessageRole::System || role == MessageRole::Developer);
    if role == MessageRole::Assistant {
        let entries = assistant_message_entries(
            phase_field(payload),
            content_text(payload.get("content")),
            timestamp_micros,
            raw_id,
            EntryOrigin::ResponseItem,
        );
        return NormalizeResult::Entries(decorate_response_assistants(entries, payload));
    }
    let mut e = message_entry(role, phase_field(payload), content_text(payload.get("content")), timestamp_micros, raw_id, EntryOrigin::ResponseItem);
    if startup {
        e.default_collapsed = true;
        e.searchable = false;
    }
    add_attachment_metadata(&mut e, payload);
    add_source_item_id(&mut e, payload);
    add_response_item_metadata(&mut e, payload);
    NormalizeResult::Entry(e)
}

/// Whether a response item is a tool call.
pub open spec fn tool_call_kind(kind: Seq<char>) -> bool {
    kind == "function_call"@ || kind == "custom_tool_call"@ || kind == "tool_search_call"@
}

/// Whether a response item is a tool call's output.
pub open spec fn tool_output_kind(kind: Seq<char>) -> bool {
    kind == "function_call_output"@ || kind == "custom_tool_call_output"@ || kind == "tool_search_output"@
}

/// The name of a tool call, by `name` or `execution`.
pub open spec fn tool_call_name(payload: JsonValue) -> Seq<char> {
    string_field_spec(payload, seq!["name"@, "execution"@])
}

/// The input of a tool call, by `arguments` or `input`.
pub open spec fn tool_call_input(payload: JsonValue) -> Seq<char> {
    string_field_spec(payload, seq!["arguments"@, "input"@])
}

/// The non-empty texts among `parts`.
pub open spec fn nonempty_parts(parts: Seq<Seq<char>>) -> Seq<Seq<char>>
    decreases parts.len(),
{
    if parts.len() == 0 {
        Seq::empty()
    } else {
        let rest = nonempty_parts(parts.drop_last());
        if parts.last().len() > 0 { rest.push(parts.last()) } else { rest }
    }
}

/// The output shown for a tool call's output item: its output, execution
/// and tools, the non-empty ones one per line.
pub open spec fn tool_output_text(payload: JsonValue) -> Seq<char> {
    let execution = match value_text_spec(json_get(payload, "execution"@)) {
        Some(t) => t,
        None => Seq::empty(),
    };
    join_spec(
        nonempty_parts(seq![output_spec(json_get(payload, "output"@)), execution, pretty_value_spec(json_get(payload, "tools"@))]),
        "\n"@,
    )
}

fn tool_output(payload: &JsonValue) -> (r: String)
    ensures
        r@ == tool_output_text(*payload),
{
    let a = output_text(payload.get("output"));
    let b = match value_text(payload.get("execution")) {
        Some(t) => t,
        None => String::new(),
    };
    let c = pretty_value(payload.get("tools"));
    let ghost all = seq![a@, b@, c@];
    let mut parts: Vec<String> = Vec::new();
    if !a.as_str().is_empty() {
        parts.push(a);
    }
    assert(all.take(1).drop_last() =~= Seq::<Seq<char>>::empty());
    assert(nonempty_parts(Seq::<Seq<char>>::empty()) =~= Seq::<Seq<char>>::empty());
    assert(all.take(1).last() == a@);
    assert(parts@.map_values(|p: String| p@) =~= nonempty_parts(all.take(1)));
    if !b.as_str().is_empty() {
        parts.push(b);
    }
    assert(all.take(2).drop_last() =~= all.take(1));
    assert(all.take(2).last() == b@);
    assert(parts@.map_values(|p: String| p@) =~= nonempty_parts(all.take(2)));
    if !c.as_str().is_empty() {
        parts.push(c);
    }
    assert(all.take(3).drop_last() =~= all.take(2));
    assert(all.take(3).last() == c@);
    assert(all.take(3) =~= all);
    assert(parts@.map_values(|p: String| p@) =~= nonempty_parts(all));
    join_with(&parts, "\n")
}

/// The text a response item asks to be read as JSON: a request for user
/// input's arguments, or a tool output.
pub open spec fn response_parse_text_spec(payload: JsonValue) -> Option<Seq<char>> {
    let kind = type_of(payload);
    if kind == "message"@ || kind == "agent_message"@ || kind == "reasoning"@ {
        None
    } else if tool_call_kind(kind) {
        if tool_kind_from_name_spec(tool_call_name(payload)) == ToolKind::RequestUserInput {
            Some(tool_call_input(payload))
        } else {
            None
        }
    } else if tool_output_kind(kind) {
        Some(tool_output_text(payload))
    } else {
        None
    }
}

fn is_tool_call_kind(kind: &str) -> (r: bool)
    ensures
        r == tool_call_kind(kind@),
{
    str_eq(kind, "function_call") || str_eq(kind, "custom_tool_call") || str_eq(kind, "tool_search_call")
}

fn is_tool_output_kind(kind: &str) -> (r: bool)
    ensures
        r == tool_output_kind(kind@),
{
    str_eq(kind, "function_call_output") || str_eq(kind, "custom_tool_call_output") || str_eq(kind, "tool_search_output")
}

/// The text of a response item that its normalization reads as JSON, when
/// it has one: the caller parses it and hands the value back.
pub fn response_parse_text(payload: &JsonValue) -> (r: Option<String>)
    ensures
        match response_parse_text_spec(*payload) {
            Some(t) => (r matches Some(s) && s@ == t),
            None => r is None,
        },
{
    let kind = payload_type(payload);
    if str_eq(kind, "message") || str_eq(kind, "agent_message") || str_eq(kind, "reasoning") {
        None
    } else if is_tool_call_kind(kind) {
        let name = field2(payload, "name", "execution");
        if tool_kind_from_name(name.as_str()) == ToolKind::RequestUserInput {
            Some(field2(payload, "arguments", "input"))
        } else {
            None
        }
    } else if is_tool_output_kind(kind) {
        Some(tool_output(payload))
    } else {
        None
    }
}

/// `e` with the questions of a parsed request for user input.
pub open spec fn with_parsed_questions(e: EntryView, parsed: Option<JsonValue>) -> EntryView {
    match parsed {
        Some(v) => with_questions(e, json_get(v, "questions"@)),
        None => e,
    }
}

/// `e` with the answers and notes of a parsed user-input response.
pub open spec fn with_parsed_answers(e: EntryView, parsed: Option<JsonValue>) -> EntryView {
    match parsed {
        Some(v) => {
            let e1 = match json_get(v, "answers"@) {
                Some(a) => if a is Object { with_meta(e, "requestUserInputAnswers"@, json_view(a)) } else { e },
                None => e,
            };
            match json_get(v, "notes"@) {
                Some(n) => if n is String { with_meta(e1, "requestUserInputNotes"@, json_view(n)) } else { e1 },
                None => e1,
            }
        },
        None => e,
    }
}

/// Records the answers and notes of a parsed response to a request for user input.
pub fn add_request_user_input_response(entry: &mut NormalizedEntry, parsed: Option<&JsonValue>)
    requires
        old(entry).wf(),
    ensures
        final(entry).wf(),
        final(entry)@ == with_parsed_answers(old(entry)@, deref_opt(parsed)),
{
    if let Some(v) = parsed {
        if let Some(a) = v.get("answers") {
            if a.is_object() {
                entry.metadata.insert("requestUserInputAnswers", a.duplicate());
            }
        }
        if let Some(n) = v.get("notes") {
            if let JsonValue::String(_) = n {
                entry.metadata.insert("requestUserInputNotes", n.duplicate());
            }
        }
    }
}

/// The entry of a tool call: its tool by name, its input, running.
#[verifier::opaque]
pub open spec fn tool_call_spec(payload: JsonValue, ts: Option<i64>, raw_id: Seq<char>, parsed: Option<JsonValue>) -> EntryView {
    let name = tool_call_name(payload);
    let kind = tool_kind_from_name_spec(name);
    let e = tool_entry_spec(
        kind,
        if name.len() == 0 { "Tool call"@ } else { name },
        tool_call_input(payload),
        Seq::empty(),
        call_id_spec(payload),
        Some(ToolStatus::Running),
        ts,
        raw_id,
        EntryOrigin::ResponseItem,
    );
    let e = if kind == ToolKind::RequestUserInput { with_parsed_questions(e, parsed) } else { e };
    with_response_item(with_source_item_id(e, payload), payload)
}

fn tool_call(payload: &JsonValue, ts: Option<i64>, raw_id: &str, parsed: Option<&JsonValue>) -> (r: NormalizedEntry)
    ensures
        r.wf(),
        r@ == tool_call_spec(*payload, ts, raw_id@, deref_opt(parsed)),
{
    proof {
        reveal(tool_call_spec);
    }
    let name = field2(payload, "name", "execution");
    let primary = field2(payload, "arguments", "input");
    let kind = tool_kind_from_name(name.as_str());
    let title: &str = if name.as_str().is_empty() { "Tool call" } else { name.as_str() };
    let mut e = tool_entry(kind, title, primary, String::new(), call_id(payload), Some(ToolStatus::Running), ts, raw_id, EntryOrigin::ResponseItem);
    if kind == ToolKind::RequestUserInput {
        if let Some(v) = parsed {
            add_request_user_input_questions(&mut e, v.get("questions"));
        }
    }
    add_source_item_id(&mut e, payload);
    add_response_item_metadata(&mut e, payload);
    e
}

/// The entry of a tool call's output: its output, succeeded.
#[verifier::opaque]
pub open spec fn tool_output_spec(payload: JsonValue, ts: Option<i64>, raw_id: Seq<char>, parsed: Option<JsonValue>) -> EntryView {
    let e = tool_entry_spec(
        ToolKind::Function,
        "Tool output"@,
        Seq::empty(),
        tool_output_text(payload),
        call_id_spec(payload),
        Some(ToolStatus::Succeeded),
        ts,
        raw_id,
        EntryOrigin::ResponseItem,
    );
    with_response_item(with_source_item_id(with_attachments(with_parsed_answers(e, parsed), payload), payload), payload)
}

fn tool_output_entry(payload: &JsonValue, ts: Option<i64>, raw_id: &str, parsed: Option<&JsonValue>) -> (r: NormalizedEntry)
    ensures
        r.wf(),
        r@ == tool_output_spec(*payload, ts, raw_id@, deref_opt(parsed)),
{
    proof {
        reveal(tool_output_spec);
    }
    let mut e = tool_entry(
        ToolKind::Function,
        "Tool output",
        String::new(),
        tool_output(payload),
        call_id(payload),
        Some(ToolStatus::Succeeded),
        ts,
        raw_id,
        EntryOrigin::ResponseItem,
    );
    add_request_user_input_response(&mut e, parsed);
    add_attachment_metadata(&mut e, payload);
    add_source_item_id(&mut e, payload);
    add_response_item_metadata(&mut e, payload);
    e
}

/// The call a response item belongs to, else its `id`.
pub open spec fn call_or_id(payload: JsonValue) -> Option<Seq<char>> {
    match call_id_spec(payload) {
        Some(c) => Some(c),
        None => str_member(payload, "id"@),
    }
}

fn call_or_id_of(payload: &JsonValue) -> (r: Option<String>)
    ensures
        crate::rollout::entry::opt_text(r) == call_or_id(*payload),
{
    match call_id(payload) {
        Some(c) => Some(c),
        None => string_option(payload, "id"),
    }
}

/// The reasoning shown for a reasoning item: its summary; else a notice
/// when only encrypted content is there.
pub open spec fn reasoning_text(payload: JsonValue) -> Seq<char> {
    let summary = content_text_spec(json_get(payload, "summary"@));
    if summary.len() > 0 {
        summary
    } else if present(json_get(payload, "encrypted_content"@)) {
        "Encrypted reasoning"@
    } else {
        Seq::empty()
    }
}

/// The entry of a reasoning item, searchable when it has a summary.
#[verifier::opaque]
pub open spec fn response_reasoning_spec(payload: JsonValue, ts: Option<i64>, raw_id: Seq<char>) -> EntryView {
    let summary = content_text_spec(json_get(payload, "summary"@));
    let e = reasoning_entry_spec(reasoning_text(payload), ts, raw_id, summary.len() > 0);
    with_response_item(with_source_item_id(EntryView { origin: EntryOrigin::ResponseItem, ..e }, payload), payload)
}

fn response_reasoning(payload: &JsonValue, ts: Option<i64>, raw_id: &str) -> (r: NormalizedEntry)
    ensures
        r.wf(),
        r@ == response_reasoning_spec(*payload, ts, raw_id@),
{
    proof {
        reveal(response_reasoning_spec);
    }
    let summary = content_text(payload.get("summary"));
    let searchable = !summary.as_str().is_empty();
    let text = if searchable {
        summary
    } else if match payload.get("encrypted_content") {
        Some(v) => !v.is_null(),
        None => false,
    } {
        "Encrypted reasoning".to_string()
    } else {
        String::new()
    };
    let mut e = reasoning_entry(text, ts, raw_id, searchable);
    e.origin = EntryOrigin::ResponseItem;
    add_source_item_id(&mut e, payload);
    add_response_item_metadata(&mut e, payload);
    e
}

/// Whether a response item marks a compaction.
pub open spec fn compaction_kind(kind: Seq<char>) -> bool {
    kind == "compaction"@ || kind == "compaction_summary"@ || kind == "context_compaction"@ || kind == "compaction_trigger"@
}

/// The entry of a response item of another known kind: shell calls, web
/// searches, image generations and compactions.
#[verifier::opaque]
pub open spec fn response_other_spec(kind: Seq<char>, payload: JsonValue, ts: Option<i64>, raw_id: Seq<char>) -> Option<EntryView> {
    let o = EntryOrigin::ResponseItem;
    let status = status_spec(str_member(payload, "status"@));
    let base = if kind == "local_shell_call"@ {
        Some(tool_entry_spec(
            ToolKind::Command,
            "Command"@,
            pretty_value_spec(json_get(payload, "action"@)),
            Seq::empty(),
            call_id_spec(payload),
            match status {
                Some(s) => Some(s),
                None => Some(ToolStatus::Running),
            },
            ts,
            raw_id,
            o,
        ))
    } else if kind == "web_search_call"@ {
        Some(tool_entry_spec(ToolKind::WebSearch, "Web search"@, pretty_value_spec(json_get(payload, "action"@)), Seq::empty(), call_or_id(payload), status, ts, raw_id, o))
    } else if kind == "image_generation_call"@ {
        Some(with_attachment_counts(
            tool_entry_spec(ToolKind::Other, "Image generation"@, string_field_spec(payload, seq!["revised_prompt"@]), Seq::empty(), call_or_id(payload), status, ts, raw_id, o),
            1,
            0,
        ))
    } else if compaction_kind(kind) {
        Some(simple_entry_spec(EntryKind::Marker, "Conversation compacted"@, Seq::empty(), ts, raw_id, EntryOrigin::Derived, false, true))
    } else {
        None
    };
    match base {
        Some(e) => Some(with_response_item(with_source_item_id(e, payload), payload)),
        None => None,
    }
}

fn response_other(kind: &str, payload: &JsonValue, ts: Option<i64>, raw_id: &str) -> (r: Option<NormalizedEntry>)
    ensures
        match response_other_spec(kind@, *payload, ts, raw_id@) {
            Some(v) => (r matches Some(e) && e.wf() && e@ == v),
            None => r is None,
        },
{
    proof {
        reveal(response_other_spec);
    }
    let o = EntryOrigin::ResponseItem;
    let base = if str_eq(kind, "local_shell_call") {
        let status = match status_field(payload) {
            Some(s) => Some(s),
            None => Some(ToolStatus::Running),
        };
        Some(tool_entry(ToolKind::Command, "Command", pretty_value(payload.get("action")), String::new(), call_id(payload), status, ts, raw_id, o))
    } else if str_eq(kind, "web_search_call") {
        Some(tool_entry(
            ToolKind::WebSearch,
            "Web search",
            pretty_value(payload.get("action")),
            String::new(),
            call_or_id_of(payload),
            status_field(payload),
            ts,
            raw_id,
            o,
        ))
    } else if str_eq(kind, "image_generation_call") {
        let mut e = tool_entry(
            ToolKind::Other,
            "Image generation",
            field1(payload, "revised_prompt"),
            String::new(),
            call_or_id_of(payload),
            status_field(payload),
            ts,
            raw_id,
            o,
        );
        add_attachment_counts(&mut e, 1, 0);
        Some(e)
    } else if str_eq(kind, "compaction") || str_eq(kind, "compaction_summary") || str_eq(kind, "context_compaction")
        || str_eq(kind, "compaction_trigger") {
        Some(simple_entry(EntryKind::Marker, "Conversation compacted", String::new(), ts, raw_id, EntryOrigin::Derived, false, true))
    } else {
        None
    };
    match base {
        Some(mut e) => {
            add_source_item_id(&mut e, payload);
            add_response_item_metadata(&mut e, payload);
            Some(e)
        },
        None => None,
    }
}

/// What a response item normalizes to, by its `type`; `parsed` is the
/// value of the text `response_parse_text_spec` names, when it was JSON.
pub open spec fn normalize_response_item_spec(
    payload: JsonValue,
    timestamp_micros: Option<i64>,
    raw_id: Seq<char>,
    saw_user: bool,
    parsed: Option<JsonValue>,
) -> ResultView {
    let kind = type_of(payload);
    let ts = timestamp_micros;
    if kind == "message"@ {
        response_message_spec(payload, ts, raw_id, saw_user)
    } else if kind == "agent_message"@ {
        ResultView::Entry(response_agent_message_spec(payload, ts, raw_id))
    } else if kind == "reasoning"@ {
        ResultView::Entry(response_reasoning_spec(payload, ts, raw_id))
    } else if tool_call_kind(kind) {
        ResultView::Entry(tool_call_spec(payload, ts, raw_id, parsed))
    } else if tool_output_kind(kind) {
        ResultView::Entry(tool_output_spec(payload, ts, raw_id, parsed))
    } else {
        match response_other_spec(kind, payload, ts, raw_id) {
            Some(e) => ResultView::Entry(e),
            None => ResultView::Unknown(unknown_entry_spec(kind, "Unknown response"@, ts, raw_id), "unknown_response_item"@),
        }
    }
}

/// The entry of a message between agents found among response items.
#[verifier::opaque]
pub open spec fn response_agent_message_spec(payload: JsonValue, ts: Option<i64>, raw_id: Seq<char>) -> EntryView {
    with_response_item(EntryView { origin: EntryOrigin::ResponseItem, ..inter_agent_entry_spec(payload, ts, raw_id) }, payload)
}

fn response_agent_message(payload: &JsonValue, ts: Option<i64>, raw_id: &str) -> (r: NormalizedEntry)
    ensures
        r.wf(),
        r@ == response_agent_message_spec(*payload, ts, raw_id@),
{
    proof {
        reveal(response_agent_message_spec);
    }
    let mut e = inter_agent_communication_entry(payload, ts, raw_id);
    e.origin = EntryOrigin::ResponseItem;
    add_response_item_metadata(&mut e, payload);
    e
}

fn response_tools(kind: &str, payload: &JsonValue, ts: Option<i64>, raw_id: &str, parsed: Option<&JsonValue>) -> (r: NormalizeResult)
    ensures
        r.wf(),
        r@ == (if tool_call_kind(kind@) {
            ResultView::Entry(tool_call_spec(*payload, ts, raw_id@, deref_opt(parsed)))
        } else if tool_output_kind(kind@) {
            ResultView::Entry(tool_output_spec(*payload, ts, raw_id@, deref_opt(parsed)))
        } else {
            match response_other_spec(kind@, *payload, ts, raw_id@) {
                Some(e) => ResultView::Entry(e),
                None => ResultView::Unknown(unknown_entry_spec(kind@, "Unknown response"@, ts, raw_id@), "unknown_response_item"@),
            }
        }),
{
    if is_tool_call_kind(kind) {
        NormalizeResult::Entry(tool_call(payload, ts, raw_id, parsed))
    } else if is_tool_output_kind(kind) {
        NormalizeResult::Entry(tool_output_entry(payload, ts, raw_id, parsed))
    } else {
        match response_other(kind, payload, ts, raw_id) {
            Some(e) => NormalizeResult::Entry(e),
            None => NormalizeResult::Unknown(unknown_entry(kind, "Unknown response", ts, raw_id), "unknown_response_item"),
        }
    }
}

/// Normalizes a response item by its `type`: messages, messages between
/// agents, reasoning, tool calls and their outputs, shell calls, web
/// searches, image generations and compactions; anything else as unknown.
/// `parsed` is the value of the text `response_parse_text` gives for the
/// payload, when that text is JSON.
pub fn normalize_response_item(
    payload: &JsonValue,
    timestamp_micros: Option<i64>,
    raw_id: &str,
    session: &SessionBuilder,
    parsed: Option<&JsonValue>,
) -> (r: NormalizeResult)
    ensures
        r.wf(),
        r@ == normalize_response_item_spec(*payload, timestamp_micros, raw_id@, session.saw_user, deref_opt(parsed)),
{
    let kind = payload_type(payload);
    let ts = timestamp_micros;
    if str_eq(kind, "message") {
        response_message(payload, ts, raw_id, session.saw_user)
    } else if str_eq(kind, "agent_message") {
        NormalizeResult::Entry(response_agent_message(payload, ts, raw_id))
    } else if str_eq(kind, "reasoning") {
        NormalizeResult::Entry(response_reasoning(payload, ts, raw_id))
    } else {
        response_tools(kind, payload, ts, raw_id, parsed)
    }
}

/// The speaker of a realtime transcript segment, when it is the user or
/// the assistant.
pub open spec fn realtime_role(payload: JsonValue) -> Option<MessageRole> {
    match str_member(payload, "role"@) {
        Some(r) => if r == "user"@ {
            Some(MessageRole::User)
        } else if r == "assistant"@ {
            Some(MessageRole::Assistant)
        } else {
            None
        },
        None => None,
    }
}

/// `e` with the string member `source` of `payload`, when present, as `target`.
pub open spec fn with_string_member(e: EntryView, payload: JsonValue, source: Seq<char>, target: Seq<char>) -> EntryView {
    match str_member(payload, source) {
        Some(v) => with_meta(e, target, JsonData::Str(v)),
        None => e,
    }
}

fn copy_string_member(entry: &mut NormalizedEntry, payload: &JsonValue, source: &str, target: &str)
    requires
        old(entry).wf(),
    ensures
        final(entry).wf(),
        final(entry)@ == with_string_member(old(entry)@, *payload, source@, target@),
{
    if let Some(v) = string_option(payload, source) {
        entry.metadata.insert(target, JsonValue::String(v));
    }
}

/// The entry a realtime item of a known type starts from.
pub open spec fn realtime_base_spec(kind: Seq<char>, payload: JsonValue, ts: Option<i64>, raw_id: Seq<char>) -> Option<EntryView> {
    let marker = |title: Seq<char>| simple_entry_spec(EntryKind::Marker, title, Seq::empty(), ts, raw_id, EntryOrigin::Derived, false, true);
    if kind == "transcript_segment"@ {
        match realtime_role(payload) {
            Some(role) => Some(message_entry_spec(role, None, string_field_spec(payload, seq!["text"@]), ts, raw_id, EntryOrigin::ResponseItem)),
            None => None,
        }
    } else if kind == "realtime_session_started"@ {
        Some(marker("Realtime session started"@))
    } else if kind == "bem_item_promoted"@ {
        let e = with_string_member(with_string_member(marker("Realtime item promoted"@), payload, "turn_id"@, "turnId"@), payload, "item_id"@, "promotedItemId"@);
        Some(match json_get(payload, "presentation"@) {
            Some(p) => with_meta(e, "realtimePresentation"@, json_view(p)),
            None => e,
        })
    } else if kind == "realtime_session_closed"@ {
        Some(with_string_member(marker("Realtime session closed"@), payload, "outcome"@, "realtimeOutcome"@))
    } else {
        None
    }
}

/// What a realtime item normalizes to, by its `type`.
pub open spec fn normalize_realtime_item_spec(payload: JsonValue, timestamp_micros: Option<i64>, raw_id: Seq<char>) -> ResultView {
    let kind = type_of(payload);
    if kind == "transcript_segment"@ && realtime_role(payload) is None {
        ResultView::Unknown(
            simple_entry_spec(EntryKind::Unknown, "Realtime transcript"@, Seq::empty(), timestamp_micros, raw_id, EntryOrigin::Derived, false, true),
            "unknown_realtime_role"@,
        )
    } else {
        match realtime_base_spec(kind, payload, timestamp_micros, raw_id) {
            Some(e) => ResultView::Entry(with_string_member(with_source_item_id(e, payload), payload, "realtime_session_id"@, "realtimeSessionId"@)),
            None => ResultView::Unknown(unknown_entry_spec(kind, "Unknown realtime item"@, timestamp_micros, raw_id), "unknown_realtime_item"@),
        }
    }
}

fn realtime_base(kind: &str, payload: &JsonValue, ts: Option<i64>, raw_id: &str) -> (r: Option<NormalizedEntry>)
    ensures
        match realtime_base_spec(kind@, *payload, ts, raw_id@) {
            Some(v) => (r matches Some(e) && e.wf() && e@ == v),
            None => r is None,
        },
{
    if str_eq(kind, "transcript_segment") {
        let role = match payload.get("role") {
            Some(v) => match v.as_str() {
                Some(r) => if str_eq(r, "user") {
                    Some(MessageRole::User)
                } else if str_eq(r, "assistant") {
                    Some(MessageRole::Assistant)
                } else {
                    None
                },
                None => None,
            },
            None => None,
        };
        match role {
            Some(role) => Some(message_entry(role, None, field1(payload, "text"), ts, raw_id, EntryOrigin::ResponseItem)),
            None => None,
        }
    } else if str_eq(kind, "realtime_session_started") {
        Some(simple_entry(EntryKind::Marker, "Realtime session started", String::new(), ts, raw_id, EntryOrigin::Derived, false, true))
    } else if str_eq(kind, "bem_item_promoted") {
        let mut e = simple_entry(EntryKind::Marker, "Realtime item promoted", String::new(), ts, raw_id, EntryOrigin::Derived, false, true);
        copy_string_member(&mut e, payload, "turn_id", "turnId");
        copy_string_member(&mut e, payload, "item_id", "promotedItemId");
        if let Some(p) = payload.get("presentation") {
            e.metadata.insert("realtimePresentation", p.duplicate());
        }
        Some(e)
    } else if str_eq(kind, "realtime_session_closed") {
        let mut e = simple_entry(EntryKind::Marker, "Realtime session closed", String::new(), ts, raw_id, EntryOrigin::Derived, false, true);
        copy_string_member(&mut e, payload, "outcome", "realtimeOutcome");
        Some(e)
    } else {
        None
    }
}

/// Normalizes a realtime item by its `type`: transcript segments of the
/// user or assistant, and session markers; anything else as unknown.
pub fn normalize_realtime_item(payload: &JsonValue, timestamp_micros: Option<i64>, raw_id: &str) -> (r: NormalizeResult)
    ensures
        r.wf(),
        r@ == normalize_realtime_item_spec(*payload, timestamp_micros, raw_id@),
{
    let kind = payload_type(payload);
    if str_eq(kind, "transcript_segment") {
        let known = match payload.get("role") {
            Some(v) => match v.as_str() {
                Some(r) => str_eq(r, "user") || str_eq(r, "assistant"),
                None => false,
            },
            None => false,
        };
        if !known {
            return NormalizeResult::Unknown(
                simple_entry(EntryKind::Unknown, "Realtime transcript", String::new(), timestamp_micros, raw_id, EntryOrigin::Derived, false, true),
                "unknown_realtime_role",
            );
        }
    }
    match realtime_base(kind, payload, timestamp_micros, raw_id) {
        Some(mut e) => {
            add_source_item_id(&mut e, payload);
            copy_string_member(&mut e, payload, "realtime_session_id", "realtimeSessionId");
            NormalizeResult::Entry(e)
        },
        None => NormalizeResult::Unknown(unknown_entry(kind, "Unknown realtime item", timestamp_micros, raw_id), "unknown_realtime_item"),
    }
}

} // verus!
