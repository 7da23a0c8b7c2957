use agents_viewer::model::{EntryKind, EntryPresentation, MessageRole, Phase, SourceKind, ToolKind, ToolStatus};
use agents_viewer::rollout::dedup::normalize_text;
use agents_viewer::rollout::content::{string_field, truncate_graphemes};
use agents_viewer::rollout::decode::{parse_rollout, parse_rollout_from_seed};
use agents_viewer::rollout::deduper::Deduper;
use agents_viewer::rollout::display::{attachment_counts, display_value, pretty_value, sanitize_for_display};
use agents_viewer::rollout::driver::{envelope_parse_text, CollectingSink, ParserOutput, RolloutParser};
use agents_viewer::rollout::entry::{message_entry, simple_entry, tool_entry, NormalizedEntry};
use agents_viewer::rollout::envelope::{normalize_envelope, Envelope};
use agents_viewer::rollout::item::normalize_item_completed;
use agents_viewer::rollout::json::{JsonNumber, JsonValue};
use agents_viewer::rollout::meta::Metadata;
use agents_viewer::rollout::metadata::{parse_timestamp, source_kind};
use agents_viewer::rollout::normalize::{normalize_event, NormalizeResult};
use agents_viewer::rollout::reader::read_lines;
use agents_viewer::rollout::response::{normalize_response_item, response_parse_text};
use agents_viewer::rollout::session::SessionBuilder;
use agents_viewer::rollout::types::{EntryOrigin, ParseContext, ParseSeed, RootKind};

fn to_json(value: &serde_json::Value) -> JsonValue {
    match value {
        serde_json::Value::Null => JsonValue::Null,
        serde_json::Value::Bool(b) => JsonValue::Bool(*b),
        serde_json::Value::Number(n) => JsonValue::Number(JsonNumber {
            text: n.to_string(),
            as_u64: n.as_u64(),
            as_i64: n.as_i64(),
        }),
        serde_json::Value::String(s) => JsonValue::String(s.clone()),
        serde_json::Value::Array(items) => JsonValue::Array(items.iter().map(to_json).collect()),
        serde_json::Value::Object(members) => {
            JsonValue::Object(members.iter().map(|(k, v)| (k.clone(), to_json(v))).collect())
        }
    }
}

fn json(text: &str) -> JsonValue {
    to_json(&serde_json::from_str::<serde_json::Value>(text).expect("test JSON"))
}

fn context() -> ParseContext {
    ParseContext {
        root_kind: RootKind::Active,
        relative_path: "2026/08/22/direct.jsonl".to_string(),
        file_name: "direct.jsonl".to_string(),
        modified_at_micros: 1_776_777_600_000_000,
        now_micros: 1_776_777_700_000_000,
        max_event_bytes: 1024 * 1024,
    }
}

fn single(result: NormalizeResult) -> NormalizedEntry {
    match result {
        NormalizeResult::Entry(entry) => entry,
        other => panic!("expected one entry, got {other:?}"),
    }
}

fn meta_str(entry: &NormalizedEntry, key: &str) -> Option<String> {
    match entry.metadata.get(key) {
        Some(JsonValue::String(s)) => Some(s.clone()),
        _ => None,
    }
}

fn meta_u64(entry: &NormalizedEntry, key: &str) -> Option<u64> {
    entry.metadata.get(key).and_then(|v| v.as_u64())
}

fn parse_all(bytes: &[u8]) -> (agents_viewer::rollout::types::ParseSummary, CollectingSink) {
    let ctx = context();
    let mut parser = RolloutParser::new(&ctx);
    let mut sink = CollectingSink::new();
    let (lines, checkpoint) = read_lines(bytes, ctx.max_event_bytes);
    for line in &lines {
        let record = line
            .bytes
            .as_ref()
            .and_then(|b| serde_json::from_slice::<serde_json::Value>(b).ok())
            .map(|v| Envelope::from_value(&to_json(&v)));
        let parsed = record
            .as_ref()
            .and_then(envelope_parse_text)
            .and_then(|text| serde_json::from_str::<serde_json::Value>(&text).ok())
            .map(|v| to_json(&v));
        for output in parser.process_line(line, record.as_ref(), parsed.as_ref()) {
            sink.emit(output);
        }
    }
    (parser.finish(&ctx, &checkpoint), sink)
}

#[test]
fn driver_parses_a_minimal_rollout_directly() {
    let bytes = br#"{"timestamp":"2026-08-22T00:00:00Z","type":"session_meta","payload":{"id":"11111111-1111-4111-8111-111111111111","source":"cli"}}
"#;
    let (summary, _) = parse_all(bytes);
    assert_eq!(summary.recognized_record_count, 1);
    assert_eq!(summary.session.id, "11111111-1111-4111-8111-111111111111");
}

#[test]
fn envelope_dispatches_compaction_directly() {
    let mut session = SessionBuilder::new(&context(), "session".to_string());
    let result = normalize_envelope(
        &Envelope {
            timestamp: None,
            ordinal: None,
            kind: "compacted".to_string(),
            payload: JsonValue::Null,
            harness_metadata: JsonValue::Null,
        },
        None,
        "raw",
        1,
        &mut session,
        None,
    );
    let entry = single(result);
    assert_eq!(entry.title, "Conversation compacted");
}

#[test]
fn event_normalizes_user_messages_directly() {
    let result = normalize_event(&json(r#"{"type": "user_message", "message": "Direct event"}"#), Some(1), "raw");
    let entry = single(result);
    assert_eq!(entry.primary_text, "Direct event");
    assert_eq!(entry.presentation, EntryPresentation::User);
}

#[test]
fn item_normalizes_plans_directly() {
    let result = normalize_item_completed(
        &json(r##"{"item": {"type": "Plan", "id": "plan", "text": "# Direct plan"}}"##),
        Some(2),
        "raw",
    );
    let entry = single(result);
    assert_eq!(entry.kind, EntryKind::Plan);
    assert_eq!(entry.primary_text, "# Direct plan");
    assert_eq!(meta_str(&entry, "sourceItemId").as_deref(), Some("plan"));
}

#[test]
fn message_builds_presentation_directly() {
    let entry = message_entry(
        MessageRole::Assistant,
        Some(Phase::Final),
        "Direct answer".to_string(),
        Some(3),
        "raw",
        EntryOrigin::ResponseItem,
    );
    assert_eq!(entry.presentation, EntryPresentation::Response);
    assert_eq!(entry.phase, Some(Phase::Final));
}

#[test]
fn metadata_parses_source_and_timestamp_directly() {
    assert_eq!(parse_timestamp("2026-08-22T12:34:56Z"), Some(1_787_402_096_000_000));
    assert_eq!(source_kind(&json(r#"{"source": "vscode"}"#)), SourceKind::Vscode);
}

#[test]
fn content_extracts_nested_text_directly() {
    assert_eq!(string_field(&json(r#"{"message": "nested"}"#), &["message"]), "nested");
    assert_eq!(truncate_graphemes("a🙂b", 2), "a🙂");
}

#[test]
fn session_derives_title_directly() {
    let context = context();
    let mut builder = SessionBuilder::new(&context, "session".to_string());
    let entry = message_entry(
        MessageRole::User,
        None,
        "# Direct session".to_string(),
        Some(4),
        "raw",
        EntryOrigin::ResponseItem,
    );
    builder.observe_entry(&entry);
    assert_eq!(builder.finish(&context, 1, false, false).title, "Direct session");
}

#[test]
fn pretty_values_are_written_as_serde_json_writes_them() {
    let text = r#"{"a": [1, "two\n\"q\"", {"b": null, "c": true}], "d": {}, "e": [], "f": "\u0001\u001f\ttab", "g": -3.5}"#;
    let value: serde_json::Value = serde_json::from_str(text).unwrap();
    assert_eq!(pretty_value(Some(&to_json(&value))), serde_json::to_string_pretty(&value).unwrap());
    let scalar: serde_json::Value = serde_json::from_str("\"x\\\\y\"").unwrap();
    assert_eq!(pretty_value(Some(&to_json(&scalar))), "\"x\\\\y\"");
}

#[test]
fn metadata_keeps_names_in_byte_order_and_replaces_values() {
    let mut meta = Metadata::new();
    meta.insert("turnId", JsonValue::String("b".to_string()));
    meta.insert("attachmentCount", JsonValue::Bool(true));
    meta.insert("turnId", JsonValue::String("c".to_string()));
    meta.insert("Zulu", JsonValue::Null);
    let names: Vec<&str> = meta.pairs.iter().map(|(k, _)| k.as_str()).collect();
    assert_eq!(names, vec!["Zulu", "attachmentCount", "turnId"]);
    assert!(matches!(meta.get("turnId"), Some(JsonValue::String(s)) if s == "c"));
    assert!(meta.get("missing").is_none());
}

#[test]
fn sanitizing_hides_media_and_encrypted_content() {
    let value = json(r#"{"type": "input_image", "data": "AAAA", "image_url": "data:image/png;base64,AAAA", "keep": [{"encrypted_content": "x", "y": 1}]}"#);
    let clean = sanitize_for_display(&value);
    assert_eq!(pretty_value(Some(&clean)), "{\n  \"keep\": [\n    {\n      \"y\": 1\n    }\n  ],\n  \"type\": \"input_image\"\n}");
    let plain = json(r#"{"data": "kept", "type": "text"}"#);
    assert_eq!(pretty_value(Some(&sanitize_for_display(&plain))), pretty_value(Some(&plain)));
}

#[test]
fn display_value_reads_content_and_hides_data_uris() {
    assert_eq!(display_value(&json(r#""data:image/png;base64,AAAA""#)), None);
    assert_eq!(display_value(&json(r#"["a", "b"]"#)).as_deref(), Some("a\nb"));
    assert_eq!(display_value(&json(r#"{"content": [{"type": "output_text", "text": "done"}]}"#)).as_deref(), Some("done"));
    assert_eq!(display_value(&json(r#"{"message": "failed"}"#)).as_deref(), Some("failed"));
    assert_eq!(display_value(&json("null")), None);
}

#[test]
fn attachment_counts_include_nested_results() {
    let payload = json(
        r#"{"images": [1, 2], "local_audio": [1], "content": [{"type": "input_image"}, {"type": "text"}],
            "output": {"content": [{"type": "audio"}]}, "result": [{"type": "image"}]}"#,
    );
    assert_eq!(attachment_counts(&payload), (4, 2));
    let mut entry = simple_entry(EntryKind::Message, "t", String::new(), None, "raw", EntryOrigin::Derived, true, false);
    agents_viewer::rollout::entry::add_attachment_metadata(&mut entry, &payload);
    assert_eq!(meta_u64(&entry, "attachmentCount"), Some(6));
    assert_eq!(meta_u64(&entry, "imageAttachmentCount"), Some(4));
    assert_eq!(meta_u64(&entry, "audioAttachmentCount"), Some(2));
}

#[test]
fn events_map_to_tools_markers_and_unknowns() {
    let tool = single(normalize_event(
        &json(r#"{"type": "exec_command_end", "call_id": "call_1", "command": "ls", "stdout": "a\n", "success": false}"#),
        Some(5),
        "raw",
    ));
    assert_eq!(tool.tool_kind, Some(ToolKind::Command));
    assert_eq!(tool.tool_status, Some(ToolStatus::Failed));
    assert_eq!(tool.title, "Command");
    assert_eq!(tool.primary_text, "ls");
    assert_eq!(tool.secondary_text, "a\n");
    assert_eq!(tool.call_id.as_deref(), Some("call_1"));
    let marker = single(normalize_event(&json(r#"{"type": "task_started"}"#), None, "raw"));
    assert_eq!(marker.kind, EntryKind::Marker);
    assert_eq!(marker.title, "Turn started");
    match normalize_event(&json(r#"{"type": "brand_new"}"#), None, "raw") {
        NormalizeResult::Unknown(entry, code) => {
            assert_eq!(entry.title, "brand_new");
            assert_eq!(code, "unknown_event");
        }
        other => panic!("unexpected {other:?}"),
    }
    assert!(matches!(normalize_event(&json(r#"{"type": "agent_reasoning_raw_content"}"#), None, "raw"), NormalizeResult::NoEntry));
}

#[test]
fn agent_messages_split_out_proposed_plans() {
    let result = normalize_event(
        &json(r#"{"type": "agent_message", "message": "Here it is\n<proposed_plan>\n1. Do it\n</proposed_plan>\n"}"#),
        None,
        "raw",
    );
    match result {
        NormalizeResult::Entries(entries) => {
            assert_eq!(entries.len(), 2);
            assert_eq!(entries[0].primary_text, "Here it is\n");
            assert_eq!(entries[1].kind, EntryKind::Plan);
            assert_eq!(entries[1].primary_text, "1. Do it\n");
        }
        other => panic!("unexpected {other:?}"),
    }
}

#[test]
fn response_items_read_tool_calls_and_request_user_input() {
    let session = SessionBuilder::new(&context(), "s".to_string());
    let call = json(r#"{"type": "function_call", "name": "request_user_input", "call_id": "call_9", "arguments": "{\"questions\": [\"Why?\"]}"}"#);
    let text = response_parse_text(&call).expect("arguments are read as JSON");
    assert_eq!(text, "{\"questions\": [\"Why?\"]}");
    let parsed = json(&text);
    let entry = single(normalize_response_item(&call, None, "raw", &session, Some(&parsed)));
    assert_eq!(entry.tool_kind, Some(ToolKind::RequestUserInput));
    assert_eq!(entry.tool_status, Some(ToolStatus::Running));
    assert!(matches!(entry.metadata.get("requestUserInputQuestions"), Some(JsonValue::Array(q)) if q.len() == 1));
    let shell = json(r#"{"type": "function_call", "name": "shell", "arguments": "{}"}"#);
    assert_eq!(response_parse_text(&shell), None);
    let startup = json(r#"{"type": "message", "role": "developer", "content": "rules"}"#);
    let entry = single(normalize_response_item(&startup, None, "raw", &session, None));
    assert_eq!(entry.presentation, EntryPresentation::Internal);
    assert!(entry.default_collapsed && !entry.searchable);
}

#[test]
fn deduper_merges_streamed_text_and_numbers_new_entries() {
    let mut dedup = Deduper::new("s".to_string());
    let first = message_entry(MessageRole::Assistant, None, "Hello".to_string(), Some(10), "r1", EntryOrigin::ResponseItem);
    let a = dedup.accept(first, 1);
    assert_eq!(a.sequence, 1);
    assert!(a.id.starts_with("e_") && a.id.len() == 42);
    let second = message_entry(MessageRole::Assistant, None, "Hello world\r\n".to_string(), Some(11), "r2", EntryOrigin::EventPresentation);
    let b = dedup.accept(second, 2);
    assert_eq!(b.id, a.id);
    assert_eq!(b.sequence, 1);
    assert_eq!(b.primary_text, "Hello world");
    assert_eq!(b.raw_refs, vec!["r1".to_string(), "r2".to_string()]);
    let other = message_entry(MessageRole::Assistant, None, "Different".to_string(), Some(12), "r3", EntryOrigin::ResponseItem);
    let c = dedup.accept(other, 3);
    assert_eq!(c.sequence, 2);
    assert_ne!(c.id, a.id);
}

#[test]
fn deduper_gives_repeated_content_distinct_ids() {
    let mut dedup = Deduper::new("s".to_string());
    let one = simple_entry(EntryKind::Context, "Turn context", "same".to_string(), None, "r1", EntryOrigin::Derived, false, true);
    let two = simple_entry(EntryKind::Context, "Turn context", "same".to_string(), None, "r2", EntryOrigin::Derived, false, true);
    let a = dedup.accept(one, 1);
    let b = dedup.accept(two, 100);
    assert_ne!(a.id, b.id);
    assert_eq!(a.id_basis, b.id_basis);
    assert_eq!(b.sequence, 2);
}

#[test]
fn deduper_completes_an_open_tool_call() {
    let mut dedup = Deduper::new("s".to_string());
    let begin = tool_entry(ToolKind::Command, "Command", "make".to_string(), String::new(), Some("call_x".to_string()), Some(ToolStatus::Running), Some(1), "r1", EntryOrigin::EventPresentation);
    let end = tool_entry(ToolKind::Command, "Command", String::new(), "ok".to_string(), Some("call_x".to_string()), Some(ToolStatus::Succeeded), Some(2), "r2", EntryOrigin::EventPresentation);
    let a = dedup.accept(begin, 1);
    let b = dedup.accept(end, 50);
    assert_eq!(a.id, b.id);
    assert_eq!(b.primary_text, "make");
    assert_eq!(b.secondary_text, "ok");
    assert_eq!(b.tool_status, Some(ToolStatus::Succeeded));
}

#[test]
fn driver_reports_bad_lines_and_counts_entries() {
    let bytes = b"{\"timestamp\":\"2026-08-22T00:00:00Z\",\"type\":\"event_msg\",\"payload\":{\"type\":\"user_message\",\"message\":\"Hi there\"}}\nnot json\n\xff\xfe\n{\"type\":\"mystery\"}\n{\"timestamp\":\"2026-08-22T00:00:01Z\",\"type\":\"event_msg\",\"payload\":{\"type\":\"agent_message\",\"message\":\"Hello\"}}\n{\"type\":\"event_msg\"";
    let (summary, sink) = parse_all(bytes);
    assert_eq!(summary.raw_record_count, 6);
    assert_eq!(summary.recognized_record_count, 2);
    assert!(summary.incomplete_tail);
    let codes: Vec<&str> = sink.diagnostics.iter().map(|d| d.code.as_str()).collect();
    assert_eq!(codes, vec!["invalid_json", "invalid_utf8", "unknown_envelope", "incomplete_tail"]);
    let statuses: Vec<&str> = sink.raw_records.iter().map(|r| r.parse_status.as_str()).collect();
    assert_eq!(statuses, vec!["valid", "invalid_json", "invalid_utf8", "unknown", "valid", "incomplete_tail"]);
    assert_eq!(sink.entries.len(), 3);
    assert_eq!(summary.session.title, "Hi there");
    assert_eq!(summary.session.entry_count, 3);
    assert_eq!(summary.session.diagnostic_count, 4);
    assert_eq!(summary.session.index_state, agents_viewer::model::IndexState::Partial);
    assert!(sink.raw_records[2].hex_preview.as_deref() == Some("fffe"));
    let outputs_are_entries = sink.entries.iter().all(|e| !e.id.is_empty());
    assert!(outputs_are_entries);
    let _ = ParserOutput::Raw(sink.raw_records[0].clone());
}

#[test]
fn whole_rollout_is_decoded_and_parsed_in_the_library() {
    let bytes = br#"{"timestamp":"2026-08-22T00:00:00Z","type":"session_meta","payload":{"id":"11111111-1111-4111-8111-111111111111","source":"cli"}}
not json
{"type":"compacted","payload":null}
partial"#;
    let parsed = parse_rollout(bytes, &context());
    assert_eq!(parsed.raw_records.len(), 4);
    assert_eq!(parsed.raw_records[0].envelope_type, "session_meta");
    assert_eq!(parsed.raw_records[1].envelope_type, "");
    assert_eq!(parsed.raw_records[1].parse_status, "invalid_json");
    assert_eq!(parsed.raw_records[2].envelope_type, "compacted");
    assert_eq!(parsed.raw_records[3].parse_status, "incomplete_tail");
    assert_eq!(parsed.summary.raw_record_count, 4);
    assert_eq!(parsed.summary.session.id, "11111111-1111-4111-8111-111111111111");
    assert!(parsed.summary.incomplete_tail);
    assert_eq!(parsed.summary.recognized_record_count, 2);
    assert_eq!(parsed.summary.stable_prefix_bytes as usize, bytes.len() - "partial".len());
    let (_, checkpoint) = read_lines(bytes, context().max_event_bytes);
    assert_eq!(parsed.summary.stable_prefix_hash, checkpoint.prefix_hash);
    let (summary, sink) = parse_all(bytes);
    assert_eq!(summary.recognized_record_count, parsed.summary.recognized_record_count);
    assert_eq!(sink.entries.len(), parsed.entries.len());
    assert_eq!(sink.diagnostics.len(), parsed.diagnostics.len());
}

#[test]
fn envelope_parse_reads_the_record_fields() {
    let envelope = Envelope::parse(br#"{"timestamp":"t","ordinal":7,"type":"event_msg","payload":{"a":1}}"#).unwrap();
    assert_eq!(envelope.timestamp.as_deref(), Some("t"));
    assert_eq!(envelope.ordinal, Some(7));
    assert_eq!(envelope.kind, "event_msg");
    assert_eq!(to_json_text(&envelope.payload), "{\"a\":1}");
    let scalar = Envelope::parse(b"42").unwrap();
    assert_eq!(scalar.kind, "");
    assert!(Envelope::parse(b"{oops").is_none());
}

fn to_json_text(value: &JsonValue) -> String {
    pretty_value(Some(value)).replace(['\n', ' '], "")
}

#[test]
fn normalized_text_has_no_cr_and_no_trailing_whitespace() {

    assert_eq!(normalize_text("a \r\nb\t\r\n\r\n"), "a\nb");
    assert_eq!(normalize_text("x\ry  \n\n z\u{3000}"), "x\ny\n\n z");
    let once = normalize_text("one \t\r\n two\r\r\n three \n");
    assert!(!once.contains('\r'));
    assert!(once.lines().all(|l| l == l.trim_end()));
    assert_eq!(normalize_text(&once), once);
    let raw = "a\r\r\nb \rc\t";
    let endings = raw.replace("\r\n", "\n").replace('\r', "\n");
    assert_eq!(normalize_text(&endings), normalize_text(raw));
    assert_eq!(normalize_text(raw), "a\n\nb\nc");
}

#[test]
fn whole_read_of_a_minimal_rollout_names_its_session() {
    let bytes = br#"{"timestamp":"2026-08-22T00:00:00Z","type":"session_meta","payload":{"id":"11111111-1111-4111-8111-111111111111","source":"cli"}}
"#;
    let parsed = parse_rollout(bytes, &context());
    assert_eq!(parsed.summary.session.id, "11111111-1111-4111-8111-111111111111");
    assert_eq!(parsed.summary.recognized_record_count, 1);
    assert_eq!(parsed.summary.raw_record_count, 1);
    assert!(!parsed.summary.incomplete_tail);
    assert_eq!(parsed.summary.stable_prefix_bytes as usize, bytes.len());
}

#[test]
fn a_read_resumes_from_its_seed() {
    let head = br#"{"timestamp":"2026-08-22T00:00:00Z","type":"session_meta","payload":{"id":"11111111-1111-4111-8111-111111111111","source":"cli"}}
"#;
    let tail = br#"{"type":"compacted","payload":null}
oops
"#;
    let first = parse_rollout(head, &context());
    let seed = ParseSeed {
        session: first.summary.session.clone(),
        next_sequence: 0,
        occurrences: Vec::new(),
        recent: Vec::new(),
        raw_record_count: first.summary.raw_record_count,
        recognized_record_count: first.summary.recognized_record_count,
        checkpoint_offset: first.summary.stable_prefix_bytes,
        checkpoint_line: 1,
        partial: false,
    };
    let resumed = parse_rollout_from_seed(tail, &context(), &seed);
    assert_eq!(resumed.raw_records.len(), 2);
    assert_eq!(resumed.raw_records[0].line_no, 2);
    assert_eq!(resumed.raw_records[0].byte_offset as usize, head.len());
    assert_eq!(resumed.raw_records[1].line_no, 3);
    assert_eq!(resumed.raw_records[1].parse_status, "invalid_json");
    assert_eq!(resumed.summary.raw_record_count, 3);
    assert_eq!(resumed.summary.recognized_record_count, 2);
    assert_eq!(resumed.summary.session.id, "11111111-1111-4111-8111-111111111111");
    assert_eq!(resumed.summary.stable_prefix_bytes as usize, head.len() + tail.len());
    assert_eq!(resumed.entries.len(), 1);
    assert_eq!(resumed.entries[0].session_id, "11111111-1111-4111-8111-111111111111");
    assert_eq!(resumed.diagnostics.len(), 1);
    assert_eq!(resumed.diagnostics[0].code, "invalid_json");
    assert_eq!(resumed.summary.session.index_state, agents_viewer::model::IndexState::Partial);
}

#[test]
fn a_repeated_record_keeps_its_entry_and_adds_its_raw_reference() {
    let mut dedup = Deduper::new("s".to_string());
    let first = simple_entry(EntryKind::Marker, "Conversation compacted", String::new(), None, "r1", EntryOrigin::Derived, false, true);
    let again = simple_entry(EntryKind::Marker, "Conversation compacted", String::new(), None, "r2", EntryOrigin::Derived, false, true);
    let other = simple_entry(EntryKind::Context, "Turn context", "x".to_string(), None, "r3", EntryOrigin::Derived, false, true);
    let a = dedup.accept(first, 5);
    let b = dedup.accept(again, 7);
    assert_eq!(a.sequence, 1);
    assert_eq!(b.id, a.id);
    assert_eq!(b.sequence, a.sequence);
    assert_eq!(b.raw_refs, vec!["r1".to_string(), "r2".to_string()]);
    let c = dedup.accept(other, 8);
    assert_eq!(c.sequence, 2);
    assert_ne!(c.id, a.id);
    assert!(a.id.starts_with("e_") && a.id.len() == 42);
    assert!(a.id[2..].chars().all(|ch| ch.is_ascii_hexdigit() && !ch.is_ascii_uppercase()));
}
