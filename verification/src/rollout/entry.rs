//! Normalized entries: what one record of a rollout shows in a conversation,
//! how each kind of entry is built, and the metadata added from payloads.

use vstd::prelude::*;

use crate::model::{EntryKind, EntryPresentation, MessageRole, Phase, ToolKind, ToolStatus};
use crate::rollout::display::{attachment_counts, attachment_counts_spec, clamp_count, sanitize_for_display, sanitized};
use crate::rollout::json::{json_get, json_view, str_member, JsonData, JsonNumber, JsonValue};
use crate::rollout::message::{message_presentation, message_title, message_title_spec, presentation_spec};
use crate::rollout::meta::Metadata;
use crate::rollout::metadata::item_id;
use crate::rollout::types::EntryOrigin;
use crate::text::{decimal_text, string_push, string_push_str, u64_to_string};

verus! {

/// What an entry holds.
#[verifier::ext_equal]
pub struct EntryView {
    pub id: Seq<char>,
    pub session_id: Seq<char>,
    pub sequence: i64,
    pub timestamp_micros: Option<i64>,
    pub kind: EntryKind,
    pub presentation: EntryPresentation,
    pub role: Option<MessageRole>,
    pub phase: Option<Phase>,
    pub tool_kind: Option<ToolKind>,
    pub tool_status: Option<ToolStatus>,
    pub title: Seq<char>,
    pub primary_text: Seq<char>,
    pub secondary_text: Seq<char>,
    pub metadata: Map<Seq<char>, JsonData>,
    pub call_id: Option<Seq<char>>,
    pub parent_entry_id: Option<Seq<char>>,
    pub default_collapsed: bool,
    pub searchable: bool,
    pub raw_refs: Seq<Seq<char>>,
    pub origin: EntryOrigin,
    pub id_basis: Seq<char>,
}

/// One entry of a conversation.
#[derive(Debug)]
pub struct NormalizedEntry {
    pub id: String,
    pub session_id: String,
    pub sequence: i64,
    pub timestamp_micros: Option<i64>,
    pub kind: EntryKind,
    pub presentation: EntryPresentation,
    pub role: Option<MessageRole>,
    pub phase: Option<Phase>,
    pub tool_kind: Option<ToolKind>,
    pub tool_status: Option<ToolStatus>,
    pub title: String,
    pub primary_text: String,
    pub secondary_text: String,
    pub metadata: Metadata,
    pub call_id: Option<String>,
    pub parent_entry_id: Option<String>,
    pub default_collapsed: bool,
    pub searchable: bool,
    pub raw_refs: Vec<String>,
    pub origin: EntryOrigin,
    pub id_basis: String,
}

/// The text of an optional string.
pub open spec fn opt_text(s: Option<String>) -> Option<Seq<char>> {
    match s {
        Some(t) => Some(t@),
        None => None,
    }
}

/// The texts of strings.
pub open spec fn texts(v: Seq<String>) -> Seq<Seq<char>> {
    v.map_values(|s: String| s@)
}

impl View for NormalizedEntry {
    type V = EntryView;

    open spec fn view(&self) -> EntryView {
        EntryView {
            id: self.id@,
            session_id: self.session_id@,
            sequence: self.sequence,
            timestamp_micros: self.timestamp_micros,
            kind: self.kind,
            presentation: self.presentation,
            role: self.role,
            phase: self.phase,
            tool_kind: self.tool_kind,
            tool_status: self.tool_status,
            title: self.title@,
            primary_text: self.primary_text@,
            secondary_text: self.secondary_text@,
            metadata: self.metadata@,
            call_id: opt_text(self.call_id),
            parent_entry_id: opt_text(self.parent_entry_id),
            default_collapsed: self.default_collapsed,
            searchable: self.searchable,
            raw_refs: texts(self.raw_refs@),
            origin: self.origin,
            id_basis: self.id_basis@,
        }
    }
}

impl NormalizedEntry {
    /// The metadata's names are in order.
    pub open spec fn wf(&self) -> bool {
        self.metadata.wf()
    }

    /// A copy of the entry.
    pub fn duplicate(&self) -> (r: NormalizedEntry)
        requires
            self.wf(),
        ensures
            r.wf(),
            r@ == self@,
            r.metadata.pairs@.len() == self.metadata.pairs@.len(),
    {
        let r = NormalizedEntry {
            id: self.id.clone(),
            session_id: self.session_id.clone(),
            sequence: self.sequence,
            timestamp_micros: self.timestamp_micros,
            kind: self.kind,
            presentation: self.presentation,
            role: self.role,
            phase: self.phase,
            tool_kind: self.tool_kind,
            tool_status: self.tool_status,
            title: self.title.clone(),
            primary_text: self.primary_text.clone(),
            secondary_text: self.secondary_text.clone(),
            metadata: self.metadata.duplicate(),
            call_id: copy_opt(&self.call_id),
            parent_entry_id: copy_opt(&self.parent_entry_id),
            default_collapsed: self.default_collapsed,
            searchable: self.searchable,
            raw_refs: copy_strings(&self.raw_refs),
            origin: self.origin,
            id_basis: self.id_basis.clone(),
        };
        r
    }
}

/// Strings copied.
pub fn copy_strings(v: &Vec<String>) -> (r: Vec<String>)
    ensures
        texts(r@) == texts(v@),
{
    let mut r: Vec<String> = Vec::new();
    let mut i: usize = 0;
    while i < v.len()
        invariant
            i <= v@.len(),
            r@.len() == i,
            forall|j: int| 0 <= j < i ==> (#[trigger] r@[j])@ == v@[j]@,
        decreases v@.len() - i,
    {
        r.push(v[i].clone());
        i = i + 1;
    }
    assert(texts(r@) =~= texts(v@));
    r
}

/// The item an entry came from, when it records one as text.
pub open spec fn source_item_of(e: EntryView) -> Option<Seq<char>> {
    if e.metadata.dom().contains("sourceItemId"@) {
        match e.metadata["sourceItemId"@] {
            JsonData::Str(s) => Some(s),
            _ => None,
        }
    } else {
        None
    }
}

/// The item an entry came from, when it records one as text.
pub fn source_item_id(entry: &NormalizedEntry) -> (r: Option<String>)
    requires
        entry.wf(),
    ensures
        opt_text(r) == source_item_of(entry@),
{
    match entry.metadata.get("sourceItemId") {
        Some(v) => match v.as_str() {
            Some(s) => Some(s.to_string()),
            None => None,
        },
        None => None,
    }
}

/// An optional string copied.
pub fn copy_opt(s: &Option<String>) -> (r: Option<String>)
    ensures
        opt_text(r) == opt_text(*s),
{
    match s {
        Some(t) => Some(t.clone()),
        None => None,
    }
}

/// `e` with metadata `key` set to `value`.
pub open spec fn with_meta(e: EntryView, key: Seq<char>, value: JsonData) -> EntryView {
    EntryView { metadata: e.metadata.insert(key, value), ..e }
}

/// An entry of `kind` shown as technical content, with no role, tool or
/// secondary text.
pub open spec fn simple_entry_spec(
    kind: EntryKind,
    title: Seq<char>,
    primary: Seq<char>,
    timestamp_micros: Option<i64>,
    raw_id: Seq<char>,
    origin: EntryOrigin,
    searchable: bool,
    default_collapsed: bool,
) -> EntryView {
    EntryView {
        id: Seq::empty(),
        session_id: Seq::empty(),
        sequence: 0,
        timestamp_micros,
        kind,
        presentation: EntryPresentation::Technical,
        role: None,
        phase: None,
        tool_kind: None,
        tool_status: None,
        title,
        primary_text: primary,
        secondary_text: Seq::empty(),
        metadata: Map::empty(),
        call_id: None,
        parent_entry_id: None,
        default_collapsed,
        searchable,
        raw_refs: seq![raw_id],
        origin,
        id_basis: Seq::empty(),
    }
}

/// An entry of `kind` shown as technical content.
pub fn simple_entry(
    kind: EntryKind,
    title: &str,
    primary: String,
    timestamp_micros: Option<i64>,
    raw_id: &str,
    origin: EntryOrigin,
    searchable: bool,
    default_collapsed: bool,
) -> (r: NormalizedEntry)
    ensures
        r.wf(),
        r@ == simple_entry_spec(kind, title@, primary@, timestamp_micros, raw_id@, origin, searchable, default_collapsed),
{
    let r = NormalizedEntry {
        id: String::new(),
        session_id: String::new(),
        sequence: 0,
        timestamp_micros,
        kind,
        presentation: EntryPresentation::Technical,
        role: None,
        phase: None,
        tool_kind: None,
        tool_status: None,
        title: title.to_string(),
        primary_text: primary,
        secondary_text: String::new(),
        metadata: Metadata::new(),
        call_id: None,
        parent_entry_id: None,
        default_collapsed,
        searchable,
        raw_refs: vec![raw_id.to_string()],
        origin,
        id_basis: String::new(),
    };
    assert(texts(r.raw_refs@) =~= seq![raw_id@]);
    r
}

/// A tool entry: technical and collapsed, searchable, with its call.
pub open spec fn tool_entry_spec(
    kind: ToolKind,
    title: Seq<char>,
    primary: Seq<char>,
    secondary: Seq<char>,
    call_id: Option<Seq<char>>,
    status: Option<ToolStatus>,
    timestamp_micros: Option<i64>,
    raw_id: Seq<char>,
    origin: EntryOrigin,
) -> EntryView {
    EntryView {
        kind: EntryKind::Tool,
        tool_kind: Some(kind),
        tool_status: status,
        secondary_text: secondary,
        call_id,
        ..simple_entry_spec(EntryKind::Tool, title, primary, timestamp_micros, raw_id, origin, true, true)
    }
}

/// A tool entry: technical and collapsed, searchable, with its call.
pub fn tool_entry(
    kind: ToolKind,
    title: &str,
    primary: String,
    secondary: String,
    call_id: Option<String>,
    status: Option<ToolStatus>,
    timestamp_micros: Option<i64>,
    raw_id: &str,
    origin: EntryOrigin,
) -> (r: NormalizedEntry)
    ensures
        r.wf(),
        r@ == tool_entry_spec(kind, title@, primary@, secondary@, opt_text(call_id), status, timestamp_micros, raw_id@, origin),
{
    let mut r = simple_entry(EntryKind::Tool, title, primary, timestamp_micros, raw_id, origin, true, true);
    r.tool_kind = Some(kind);
    r.tool_status = status;
    r.secondary_text = secondary;
    r.call_id = call_id;
    r
}

/// A message entry: presented by role and text, collapsed and not
/// searchable when internal or technical.
pub open spec fn message_entry_spec(
    role: MessageRole,
    phase: Option<Phase>,
    text: Seq<char>,
    timestamp_micros: Option<i64>,
    raw_id: Seq<char>,
    origin: EntryOrigin,
) -> EntryView {
    let presentation = presentation_spec(role, text);
    let hidden = presentation == EntryPresentation::Internal || presentation == EntryPresentation::Technical;
    EntryView {
        presentation,
        role: Some(role),
        phase,
        ..simple_entry_spec(
            EntryKind::Message,
            message_title_spec(presentation, role),
            text,
            timestamp_micros,
            raw_id,
            origin,
            !hidden,
            hidden,
        )
    }
}

/// A message entry: presented by role and text, collapsed and not
/// searchable when internal or technical.
pub fn message_entry(
    role: MessageRole,
    phase: Option<Phase>,
    text: String,
    timestamp_micros: Option<i64>,
    raw_id: &str,
    origin: EntryOrigin,
) -> (r: NormalizedEntry)
    ensures
        r.wf(),
        r@ == message_entry_spec(role, phase, text@, timestamp_micros, raw_id@, origin),
{
    let presentation = message_presentation(role, text.as_str());
    let hidden = presentation == EntryPresentation::Internal || presentation == EntryPresentation::Technical;
    let title = message_title(presentation, role);
    let mut r = simple_entry(EntryKind::Message, title, text, timestamp_micros, raw_id, origin, !hidden, hidden);
    r.presentation = presentation;
    r.role = Some(role);
    r.phase = phase;
    r
}

/// A reasoning entry, in the analysis phase and collapsed.
pub open spec fn reasoning_entry_spec(
    text: Seq<char>,
    timestamp_micros: Option<i64>,
    raw_id: Seq<char>,
    searchable: bool,
) -> EntryView {
    EntryView {
        phase: Some(Phase::Analysis),
        ..simple_entry_spec(
            EntryKind::Reasoning,
            "Reasoning"@,
            text,
            timestamp_micros,
            raw_id,
            EntryOrigin::EventPresentation,
            searchable,
            true,
        )
    }
}

/// A reasoning entry, in the analysis phase and collapsed.
pub fn reasoning_entry(text: String, timestamp_micros: Option<i64>, raw_id: &str, searchable: bool) -> (r: NormalizedEntry)
    ensures
        r.wf(),
        r@ == reasoning_entry_spec(text@, timestamp_micros, raw_id@, searchable),
{
    let mut r = simple_entry(
        EntryKind::Reasoning,
        "Reasoning",
        text,
        timestamp_micros,
        raw_id,
        EntryOrigin::EventPresentation,
        searchable,
        true,
    );
    r.phase = Some(Phase::Analysis);
    r
}

/// What a JSON number written from an unsigned integer holds.
pub open spec fn u64_data(n: u64) -> JsonData {
    JsonData::Number(decimal_text(n as nat), Some(n), if n <= i64::MAX { Some(n as i64) } else { None })
}

/// A JSON number for an unsigned integer.
pub fn json_from_u64(n: u64) -> (r: JsonValue)
    ensures
        json_view(r) == u64_data(n),
{
    JsonValue::Number(JsonNumber {
        text: u64_to_string(n),
        as_u64: Some(n),
        as_i64: if n <= 9223372036854775807u64 { Some(n as i64) } else { None },
    })
}

/// The decimal text of a signed integer.
pub open spec fn i64_text(n: i64) -> Seq<char> {
    if n < 0 {
        seq!['-'] + decimal_text((0 - n) as nat)
    } else {
        decimal_text(n as nat)
    }
}

/// What a JSON number written from a signed integer holds.
pub open spec fn i64_data(n: i64) -> JsonData {
    JsonData::Number(i64_text(n), if n >= 0 { Some(n as u64) } else { None }, Some(n))
}

/// A JSON number for a signed integer.
pub fn json_from_i64(n: i64) -> (r: JsonValue)
    ensures
        json_view(r) == i64_data(n),
{
    let text = i64_to_text(n);
    JsonValue::Number(JsonNumber { text, as_u64: if n >= 0 { Some(n as u64) } else { None }, as_i64: Some(n) })
}

/// The decimal text of a signed integer.
pub fn i64_to_text(n: i64) -> (r: String)
    ensures
        r@ == i64_text(n),
{
    if n < 0 {
        let magnitude: u64 = if n == -9223372036854775808i64 {
            9223372036854775808u64
        } else {
            (0 - n) as u64
        };
        let mut t = String::new();
        string_push(&mut t, '-');
        string_push_str(&mut t, u64_to_string(magnitude).as_str());
        t
    } else {
        u64_to_string(n as u64)
    }
}

/// The non-empty `id` of an item payload.
pub open spec fn item_id_spec(payload: JsonValue) -> Option<Seq<char>> {
    match str_member(payload, "id"@) {
        Some(id) => if id.len() > 0 { Some(id) } else { None },
        None => None,
    }
}

/// `e` with the item id of `payload`, when it has one, as `sourceItemId`.
pub open spec fn with_source_item_id(e: EntryView, payload: JsonValue) -> EntryView {
    match item_id_spec(payload) {
        Some(id) => with_meta(e, "sourceItemId"@, JsonData::Str(id)),
        None => e,
    }
}

/// Records the id of the item an entry came from.
pub fn add_source_item_id(entry: &mut NormalizedEntry, payload: &JsonValue)
    requires
        old(entry).wf(),
    ensures
        final(entry).wf(),
        final(entry)@ == with_source_item_id(old(entry)@, *payload),
{
    if let Some(id) = item_id(payload) {
        entry.metadata.insert("sourceItemId", JsonValue::String(id));
    }
}

/// `e` with the string member `source` of `payload`, when present and not
/// empty, as `target`.
pub open spec fn with_nonempty_string(e: EntryView, payload: JsonValue, source: Seq<char>, target: Seq<char>) -> EntryView {
    match str_member(payload, source) {
        Some(v) => if v.len() > 0 { with_meta(e, target, JsonData::Str(v)) } else { e },
        None => e,
    }
}

fn copy_nonempty_string(entry: &mut NormalizedEntry, payload: &JsonValue, source: &str, target: &str)
    requires
        old(entry).wf(),
    ensures
        final(entry).wf(),
        final(entry)@ == with_nonempty_string(old(entry)@, *payload, source@, target@),
{
    if let Some(v) = crate::rollout::json::string_option(payload, source) {
        if !v.as_str().is_empty() {
            entry.metadata.insert(target, JsonValue::String(v));
        }
    }
}

/// `e` with the plugin and script a payload names.
pub open spec fn with_execution_attribution(e: EntryView, payload: JsonValue) -> EntryView {
    with_nonempty_string(with_nonempty_string(e, payload, "plugin_id"@, "pluginId"@), payload, "script_path"@, "scriptPath"@)
}

/// Records the plugin and script that ran a tool.
pub fn add_execution_attribution_metadata(entry: &mut NormalizedEntry, payload: &JsonValue)
    requires
        old(entry).wf(),
    ensures
        final(entry).wf(),
        final(entry)@ == with_execution_attribution(old(entry)@, *payload),
{
    copy_nonempty_string(entry, payload, "plugin_id", "pluginId");
    copy_nonempty_string(entry, payload, "script_path", "scriptPath");
}

/// The member `snake`, else `camel`.
pub open spec fn either_member(payload: JsonValue, snake: Seq<char>, camel: Seq<char>) -> Option<JsonValue> {
    match json_get(payload, snake) {
        Some(v) => Some(v),
        None => json_get(payload, camel),
    }
}

fn either_of<'a>(payload: &'a JsonValue, snake: &str, camel: &str) -> (r: Option<&'a JsonValue>)
    ensures
        match either_member(*payload, snake@, camel@) {
            Some(m) => (r matches Some(x) && *x == m),
            None => r is None,
        },
{
    match payload.get(snake) {
        Some(v) => Some(v),
        None => payload.get(camel),
    }
}

/// `e` with a boolean flag, spelled `snake` or `camel`, as `camel`.
pub open spec fn with_flag(e: EntryView, payload: JsonValue, snake: Seq<char>, camel: Seq<char>) -> EntryView {
    match either_member(payload, snake, camel) {
        Some(JsonValue::Bool(b)) => with_meta(e, camel, JsonData::Bool(b)),
        _ => e,
    }
}

fn copy_flag(entry: &mut NormalizedEntry, payload: &JsonValue, snake: &str, camel: &str)
    requires
        old(entry).wf(),
    ensures
        final(entry).wf(),
        final(entry)@ == with_flag(old(entry)@, *payload, snake@, camel@),
{
    if let Some(v) = either_of(payload, snake, camel) {
        if let Some(b) = v.as_bool() {
            entry.metadata.insert(camel, JsonValue::Bool(b));
        }
    }
}

/// `e` with the read-only and transparent-background hints of a tool.
pub open spec fn with_tool_capability(e: EntryView, payload: JsonValue) -> EntryView {
    with_flag(
        with_flag(e, payload, "read_only_hint"@, "readOnlyHint"@),
        payload,
        "transparent_background"@,
        "transparentBackground"@,
    )
}

/// Records the read-only and transparent-background hints of a tool.
pub fn add_tool_capability_metadata(entry: &mut NormalizedEntry, payload: &JsonValue)
    requires
        old(entry).wf(),
    ensures
        final(entry).wf(),
        final(entry)@ == with_tool_capability(old(entry)@, *payload),
{
    copy_flag(entry, payload, "read_only_hint", "readOnlyHint");
    copy_flag(entry, payload, "transparent_background", "transparentBackground");
}

/// `e` with an integer time, spelled `snake` or `camel`, as `camel`.
pub open spec fn with_time(e: EntryView, payload: JsonValue, snake: Seq<char>, camel: Seq<char>) -> EntryView {
    match either_member(payload, snake, camel) {
        Some(JsonValue::Number(n)) => match n.as_i64 {
            Some(t) => with_meta(e, camel, i64_data(t)),
            None => e,
        },
        _ => e,
    }
}

fn copy_time(entry: &mut NormalizedEntry, payload: &JsonValue, snake: &str, camel: &str)
    requires
        old(entry).wf(),
    ensures
        final(entry).wf(),
        final(entry)@ == with_time(old(entry)@, *payload, snake@, camel@),
{
    if let Some(v) = either_of(payload, snake, camel) {
        if let Some(t) = v.as_i64() {
            entry.metadata.insert(camel, json_from_i64(t));
        }
    }
}

/// `e` with the start and completion times of an event, in milliseconds.
pub open spec fn with_event_timing(e: EntryView, payload: JsonValue) -> EntryView {
    with_time(with_time(e, payload, "started_at_ms"@, "startedAtMs"@), payload, "completed_at_ms"@, "completedAtMs"@)
}

/// Records when an event started and completed.
pub fn add_event_timing_metadata(entry: &mut NormalizedEntry, payload: &JsonValue)
    requires
        old(entry).wf(),
    ensures
        final(entry).wf(),
        final(entry)@ == with_event_timing(old(entry)@, *payload),
{
    copy_time(entry, payload, "started_at_ms", "startedAtMs");
    copy_time(entry, payload, "completed_at_ms", "completedAtMs");
}

/// `e` with its attachment counts: the total when there is any, and each
/// kind when there is any of it.
pub open spec fn with_attachment_counts(e: EntryView, images: usize, audio: usize) -> EntryView {
    let total = images.saturating_add(audio);
    let e1 = if total > 0 { with_meta(e, "attachmentCount"@, u64_data(total as u64)) } else { e };
    let e2 = if images > 0 { with_meta(e1, "imageAttachmentCount"@, u64_data(images as u64)) } else { e1 };
    if audio > 0 { with_meta(e2, "audioAttachmentCount"@, u64_data(audio as u64)) } else { e2 }
}

/// Records how many images and audio clips an entry carries.
pub fn add_attachment_counts(entry: &mut NormalizedEntry, image_count: usize, audio_count: usize)
    requires
        old(entry).wf(),
    ensures
        final(entry).wf(),
        final(entry)@ == with_attachment_counts(old(entry)@, image_count, audio_count),
{
    let total = image_count.saturating_add(audio_count);
    if total > 0 {
        entry.metadata.insert("attachmentCount", json_from_u64(total as u64));
    }
    if image_count > 0 {
        entry.metadata.insert("imageAttachmentCount", json_from_u64(image_count as u64));
    }
    if audio_count > 0 {
        entry.metadata.insert("audioAttachmentCount", json_from_u64(audio_count as u64));
    }
}

/// `e` with the attachments its payload carries.
pub open spec fn with_attachments(e: EntryView, payload: JsonValue) -> EntryView {
    let c = attachment_counts_spec(payload);
    with_attachment_counts(e, clamp_count(c.0 as int), clamp_count(c.1 as int))
}

/// Records the images and audio clips a payload carries.
pub fn add_attachment_metadata(entry: &mut NormalizedEntry, payload: &JsonValue)
    requires
        old(entry).wf(),
    ensures
        final(entry).wf(),
        final(entry)@ == with_attachments(old(entry)@, *payload),
{
    let (images, audio) = attachment_counts(payload);
    add_attachment_counts(entry, images, audio);
}

/// `e` with the failure of an image generation, hidden members removed.
pub open spec fn with_image_generation_failure(e: EntryView, payload: JsonValue) -> EntryView {
    match json_get(payload, "failure"@) {
        Some(f) => if f is Null { e } else { with_meta(e, "imageGenerationFailure"@, sanitized(f)) },
        None => e,
    }
}

/// Records why an image generation failed.
pub fn add_image_generation_failure_metadata(entry: &mut NormalizedEntry, payload: &JsonValue)
    requires
        old(entry).wf(),
    ensures
        final(entry).wf(),
        final(entry)@ == with_image_generation_failure(old(entry)@, *payload),
{
    if let Some(f) = payload.get("failure") {
        if !f.is_null() {
            entry.metadata.insert("imageGenerationFailure", sanitize_for_display(f));
        }
    }
}

/// `e` with `value`, when it is a list, as its questions.
pub open spec fn with_questions(e: EntryView, questions: Option<JsonValue>) -> EntryView {
    match questions {
        Some(q) => if q is Array { with_meta(e, "requestUserInputQuestions"@, json_view(q)) } else { e },
        None => e,
    }
}

/// Records the questions of a request for user input, when they are a list.
pub fn add_request_user_input_questions(entry: &mut NormalizedEntry, questions: Option<&JsonValue>)
    requires
        old(entry).wf(),
    ensures
        final(entry).wf(),
        final(entry)@ == with_questions(old(entry)@, crate::rollout::content::deref_opt(questions)),
{
    if let Some(q) = questions {
        if let JsonValue::Array(_) = q {
            entry.metadata.insert("requestUserInputQuestions", q.duplicate());
        }
    }
}

/// `a + b`, saturating at `u64::MAX`.
pub open spec fn sat_add_u64(a: u64, b: u64) -> u64 {
    if a + b > u64::MAX { u64::MAX } else { (a + b) as u64 }
}

/// The number of calls a truncated executed-tool-call record left out.
pub open spec fn omitted_of(call: JsonValue) -> u64 {
    match json_get(call, "arguments"@) {
        Some(a) => match json_get(a, "_codex_executed_tool_call_truncated"@) {
            Some(t) => match json_get(t, "omitted_calls"@) {
                Some(JsonValue::Number(n)) => match n.as_u64 {
                    Some(c) => c,
                    None => 0,
                },
                _ => 0,
            },
            None => 0,
        },
        None => 0,
    }
}

/// The calls left out by all truncated records, saturating.
pub open spec fn omitted_total(calls: Seq<JsonValue>) -> u64
    decreases calls.len(),
{
    if calls.len() == 0 {
        0
    } else {
        sat_add_u64(omitted_total(calls.drop_last()), omitted_of(calls.last()))
    }
}

/// The non-empty names of executed calls, in order.
pub open spec fn call_names(calls: Seq<JsonValue>) -> Seq<JsonData>
    decreases calls.len(),
{
    if calls.len() == 0 {
        Seq::empty()
    } else {
        let rest = call_names(calls.drop_last());
        match str_member(calls.last(), "name"@) {
            Some(n) => if n.len() > 0 { rest.push(JsonData::Str(n)) } else { rest },
            None => rest,
        }
    }
}

/// `e` with what the executed tool calls of a passthrough record say: how
/// many, their names when any has one, and how many were left out when any were.
pub open spec fn with_executed_calls(e: EntryView, calls: Seq<JsonValue>) -> EntryView {
    let e1 = with_meta(e, "executedToolCallCount"@, u64_data(calls.len() as u64));
    let names = call_names(calls);
    let e2 = if names.len() > 0 { with_meta(e1, "executedToolCallNames"@, JsonData::Array(names)) } else { e1 };
    let omitted = omitted_total(calls);
    if omitted > 0 { with_meta(e2, "executedToolCallOmittedCount"@, u64_data(omitted)) } else { e2 }
}

/// `e` with what a response item's passthrough metadata says: its turn,
/// its creation time, and its executed tool calls.
pub open spec fn with_passthrough(e: EntryView, m: JsonValue) -> EntryView {
    let e1 = match either_member(m, "turn_id"@, "turnId"@) {
        Some(JsonValue::String(t)) => if t@.len() > 0 { with_meta(e, "turnId"@, JsonData::Str(t@)) } else { e },
        _ => e,
    };
    let e2 = match either_member(m, "create_time"@, "createTime"@) {
        Some(c) => if c is Number { with_meta(e1, "createTime"@, json_view(c)) } else { e1 },
        None => e1,
    };
    match either_member(m, "executed_tool_calls"@, "executedToolCalls"@) {
        Some(JsonValue::Array(calls)) => with_executed_calls(e2, calls@),
        _ => e2,
    }
}

/// `e` with what a response item payload says about its tool, its
/// encrypted arguments and its passthrough metadata.
pub open spec fn with_response_item(e: EntryView, payload: JsonValue) -> EntryView {
    let e1 = with_tool_capability(e, payload);
    let e2 = match either_member(payload, "encrypted_function_args"@, "encryptedFunctionArgs"@) {
        Some(JsonValue::Array(args)) => with_meta(e1, "encryptedFunctionArgsCount"@, u64_data(args@.len() as u64)),
        _ => e1,
    };
    match either_member(payload, "internal_chat_message_metadata_passthrough"@, "internalChatMessageMetadataPassthrough"@) {
        Some(m) => if m is Object { with_passthrough(e2, m) } else { e2 },
        None => e2,
    }
}

fn omitted_calls_of(call: &JsonValue) -> (r: u64)
    ensures
        r == omitted_of(*call),
{
    match call.get("arguments") {
        Some(a) => match a.get("_codex_executed_tool_call_truncated") {
            Some(t) => match t.get("omitted_calls") {
                Some(c) => match c {
                    JsonValue::Number(n) => match n.as_u64 {
                        Some(x) => x,
                        None => 0,
                    },
                    _ => 0,
                },
                None => 0,
            },
            None => 0,
        },
        None => 0,
    }
}

fn add_executed_calls(entry: &mut NormalizedEntry, calls: &Vec<JsonValue>)
    requires
        old(entry).wf(),
    ensures
        final(entry).wf(),
        final(entry)@ == with_executed_calls(old(entry)@, calls@),
{
    entry.metadata.insert("executedToolCallCount", json_from_u64(calls.len() as u64));
    let mut names: Vec<JsonValue> = Vec::new();
    let mut omitted: u64 = 0;
    let mut i: usize = 0;
    while i < calls.len()
        invariant
            i <= calls@.len(),
            crate::rollout::json::items_view(names@) == call_names(calls@.take(i as int)),
            omitted == omitted_total(calls@.take(i as int)),
        decreases calls@.len() - i,
    {
        proof {
            assert(calls@.take(i + 1).drop_last() =~= calls@.take(i as int));
            assert(calls@.take(i + 1).last() == calls@[i as int]);
        }
        if let Some(n) = crate::rollout::json::string_option(&calls[i], "name") {
            if !n.as_str().is_empty() {
                let ghost prev = names@;
                names.push(JsonValue::String(n));
                proof {
                    assert(names@.subrange(0, names@.len() - 1) =~= prev);
                    assert(crate::rollout::json::items_view(names@) == crate::rollout::json::items_view(prev).push(
                        json_view(names@[names@.len() - 1]),
                    ));
                }
            }
        }
        omitted = omitted.saturating_add(omitted_calls_of(&calls[i]));
        i = i + 1;
    }
    proof {
        assert(calls@.take(calls@.len() as int) =~= calls@);
        lemma_items_view_len(names@);
    }
    if names.len() > 0 {
        entry.metadata.insert("executedToolCallNames", JsonValue::Array(names));
    }
    if omitted > 0 {
        entry.metadata.insert("executedToolCallOmittedCount", json_from_u64(omitted));
    }
}

/// The view of items has one element per item.
proof fn lemma_items_view_len(items: Seq<JsonValue>)
    ensures
        crate::rollout::json::items_view(items).len() == items.len(),
    decreases items.len(),
{
    if items.len() > 0 {
        lemma_items_view_len(items.subrange(0, items.len() - 1));
    }
}

fn add_passthrough(entry: &mut NormalizedEntry, m: &JsonValue)
    requires
        old(entry).wf(),
    ensures
        final(entry).wf(),
        final(entry)@ == with_passthrough(old(entry)@, *m),
{
    if let Some(t) = either_of(m, "turn_id", "turnId") {
        if let JsonValue::String(text) = t {
            if !text.as_str().is_empty() {
                entry.metadata.insert("turnId", JsonValue::String(text.clone()));
            }
        }
    }
    if let Some(c) = either_of(m, "create_time", "createTime") {
        if let JsonValue::Number(_) = c {
            entry.metadata.insert("createTime", c.duplicate());
        }
    }
    if let Some(JsonValue::Array(calls)) = either_of(m, "executed_tool_calls", "executedToolCalls") {
        add_executed_calls(entry, calls);
    }
}

/// Records what a response item payload says about its tool, its encrypted
/// arguments and its passthrough metadata.
pub fn add_response_item_metadata(entry: &mut NormalizedEntry, payload: &JsonValue)
    requires
        old(entry).wf(),
    ensures
        final(entry).wf(),
        final(entry)@ == with_response_item(old(entry)@, *payload),
{
    add_tool_capability_metadata(entry, payload);
    if let Some(JsonValue::Array(args)) = either_of(payload, "encrypted_function_args", "encryptedFunctionArgs") {
        entry.metadata.insert("encryptedFunctionArgsCount", json_from_u64(args.len() as u64));
    }
    if let Some(m) = either_of(payload, "internal_chat_message_metadata_passthrough", "internalChatMessageMetadataPassthrough") {
        if m.is_object() {
            add_passthrough(entry, m);
        }
    }
}

} // verus!
