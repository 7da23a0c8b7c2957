use agents_viewer::api::content::{raw_chunk, raw_retain_window};
use agents_viewer::model::ContentField;
use agents_viewer::events::{EventRing, SSE_RING_CAPACITY};
use agents_viewer::search::{search_mode, ArchiveFilter, SearchFilters, SearchMode, SearchRequest, SearchRequestError};
use agents_viewer::api::keyset::{entries_request, keyset_bound, KeysetBound};
use agents_viewer::api::entries::{entry_visibility, EntriesQuery};
use agents_viewer::api::query::{parse_search_query, parse_sessions_query, query_pairs};
use agents_viewer::model::SourceKind;

fn entries_query(include_technical: Option<bool>, display_types: Option<&str>) -> EntriesQuery {
    EntriesQuery {
        limit: None,
        cursor: None,
        direction: None,
        around_entry_id: None,
        include_technical,
        display_types: display_types.map(str::to_owned),
    }
}

#[test]
fn display_types_are_validated_deduplicated_and_canonicalized() {
    let visibility = entry_visibility(&entries_query(None, Some("sent,received,sent"))).unwrap();
    assert_eq!(
        visibility.cursor_filters("session"),
        "session=session;display_types=received,sent"
    );

    let Err(error) = entry_visibility(&entries_query(Some(true), Some("sent"))) else {
        panic!("conflicting visibility controls must be rejected");
    };
    assert_eq!(error.status, 400);
}

#[test]
fn query_decoding_rejects_duplicates_and_bad_percent_encoding() {
    assert_eq!(
        query_pairs(Some("a=hello+world&b=%2Ftmp")).unwrap(),
        vec![
            ("a".to_owned(), "hello world".to_owned()),
            ("b".to_owned(), "/tmp".to_owned())
        ]
    );
    assert!(query_pairs(Some("bad=%")).is_err());
    assert!(parse_sessions_query(Some("limit=1&limit=2")).is_err());
}

#[test]
fn search_query_parsing_is_strict_and_keeps_repeated_filters() {
    let query =
        parse_search_query(Some("q=hello+world&source=cli&source=exec&allTypes=true")).unwrap();
    assert_eq!(query.q.as_deref(), Some("hello world"));
    assert_eq!(query.source, vec![SourceKind::Cli, SourceKind::Exec]);
    assert_eq!(query.all_types, Some(true));

    assert!(parse_search_query(Some("q=one&q=two")).is_err());
}

#[test]
fn cursor_text_reads_back_as_its_bytes() {
    let json = br#"{"v":1,"endpoint":"sessions","sort":5,"id":"a"}"#;
    let text = agents_viewer::api::cursor::encode_cursor_bytes(json);
    assert!(!text.contains('=') && !text.contains('+') && !text.contains('/'));
    let back = agents_viewer::api::cursor::cursor_bytes(&text).ok().unwrap();
    assert_eq!(back, json.to_vec());
    assert!(agents_viewer::api::cursor::cursor_bytes("not base64!").is_err());
    let long = "A".repeat(2049);
    assert!(agents_viewer::api::cursor::cursor_bytes(&long).is_err());
}

#[test]
fn pages_are_cut_ordered_and_kept_within_the_json_limit() {
    use_page_helpers();
}

fn use_page_helpers() {
    let rows = vec![1, 2, 3, 4, 5];
    assert_eq!(agents_viewer::api::page::page_rows(rows.clone(), 3, false), vec![1, 2, 3]);
    assert_eq!(agents_viewer::api::page::page_rows(rows.clone(), 3, true), vec![3, 2, 1]);
    assert_eq!(agents_viewer::api::page::page_rows(rows, 9, true), vec![5, 4, 3, 2, 1]);
    let max = agents_viewer::api::page::MAX_JSON_PAGE_BYTES;
    assert_eq!(agents_viewer::api::page::page_length(&vec![]), 0);
    assert_eq!(agents_viewer::api::page::page_length(&vec![max * 2]), 1);
    assert_eq!(agents_viewer::api::page::page_length(&vec![10, 20, 30]), 3);
    assert_eq!(agents_viewer::api::page::page_length(&vec![max - 3, 1, 5]), 1);
    assert_eq!(agents_viewer::api::page::page_length(&vec![max - 5, 1, 5]), 2);
}

#[test]
fn display_type_names_read_back() {
    use_display_types();
}

fn use_display_types() {
    use_type_list(&[
        agents_viewer::api::entries::ConversationDisplayType::Received,
        agents_viewer::api::entries::ConversationDisplayType::RequestUserInput,
        agents_viewer::api::entries::ConversationDisplayType::WebSearch,
        agents_viewer::api::entries::ConversationDisplayType::TechnicalMessage,
        agents_viewer::api::entries::ConversationDisplayType::Unknown,
    ]);
    assert_eq!(agents_viewer::api::entries::ConversationDisplayType::parse("Received"), None);
}

fn use_type_list(types: &[agents_viewer::api::entries::ConversationDisplayType]) {
    for t in types {
        assert_eq!(agents_viewer::api::entries::ConversationDisplayType::parse(t.as_str()), Some(*t));
    }
}

#[test]
fn entries_requests_are_checked_and_bounded_by_keyset() {
    let mut q = entries_query(None, None);
    assert_eq!(entries_request("s1", &q).ok(), Some((100, false)));
    q.direction = Some("backward".into());
    q.limit = Some(7);
    assert_eq!(entries_request("s1", &q).ok(), Some((7, true)));
    q.direction = Some("sideways".into());
    assert_eq!(entries_request("s1", &q).err().unwrap().message, "direction must be forward or backward");
    q.direction = None;
    q.cursor = Some("c".into());
    q.around_entry_id = Some("e".into());
    assert_eq!(entries_request("s1", &q).err().unwrap().message, "aroundEntryId and cursor are mutually exclusive");
    q.around_entry_id = None;
    q.limit = Some(501);
    assert!(entries_request("s1", &q).is_err());
    assert!(entries_request("", &entries_query(None, None)).is_err());
    assert_eq!(keyset_bound(Some(10), None, false, 100), (KeysetBound::AtLeast(-40), false));
    assert_eq!(keyset_bound(Some(i64::MIN + 1), None, false, 100), (KeysetBound::AtLeast(i64::MIN), false));
    let previous = Some((5, "e5".to_string(), "previous".to_string()));
    assert_eq!(keyset_bound(None, previous, false, 10), (KeysetBound::Before(5, "e5".into()), true));
    let next = Some((5, "e5".to_string(), "next".to_string()));
    assert_eq!(keyset_bound(None, next, false, 10), (KeysetBound::After(5, "e5".into()), false));
    assert_eq!(keyset_bound(None, None, true, 10), (KeysetBound::Start, true));
}

fn request(query: &str, limit: usize) -> SearchRequest {
    SearchRequest { query: query.to_string(), limit, filters: SearchFilters::default() }
}

#[test]
fn search_requests_are_checked_and_routed_by_length() {
    assert_eq!(search_mode(&request("", 10)), Err(SearchRequestError::EmptyQuery));
    assert_eq!(search_mode(&request(&"é".repeat(513), 10)), Err(SearchRequestError::QueryTooLong));
    assert_eq!(search_mode(&request(&"é".repeat(512), 10)), Ok(SearchMode::FullText));
    assert_eq!(search_mode(&request("abc", 0)), Err(SearchRequestError::LimitOutOfRange));
    assert_eq!(search_mode(&request("abc", 201)), Err(SearchRequestError::LimitOutOfRange));
    assert_eq!(search_mode(&request("abc", 200)), Ok(SearchMode::FullText));
    assert_eq!(search_mode(&request("ab", 1)), Ok(SearchMode::Short));
    assert_eq!(SearchRequestError::EmptyQuery.message(), "search query must not be empty");
    let filters = SearchFilters::default();
    assert_eq!(filters.archived, ArchiveFilter::Exclude);
    assert!(filters.sources.is_empty() && filters.kinds.is_empty() && !filters.all_types);
}

#[test]
fn event_ring_replays_what_a_client_missed() {
    let mut ring: EventRing<&str> = EventRing::new();
    assert_eq!(ring.last_published(), 0);
    assert_eq!(ring.replay_after(Some(0)), (0, false));
    assert_eq!(ring.publish("a"), 1);
    assert_eq!(ring.publish("b"), 2);
    assert_eq!(ring.publish("c"), 3);
    assert_eq!(ring.replay_after(Some(1)), (1, false));
    assert_eq!(ring.get(1), &(2, "b"));
    assert_eq!(ring.replay_after(Some(3)), (3, false));
    assert_eq!(ring.replay_after(None), (3, false));
    for _ in 0..600 {
        ring.publish("x");
    }
    assert_eq!(ring.len(), SSE_RING_CAPACITY);
    assert_eq!(ring.last_published(), 603);
    assert_eq!(ring.get(0).0, 92);
    assert_eq!(ring.replay_after(Some(10)), (0, true));
    assert_eq!(ring.replay_after(Some(91)), (0, false));
    assert_eq!(ring.replay_after(Some(600)), (509, false));
}

#[test]
fn raw_chunks_keep_to_character_boundaries() {
    let record = "h\u{e9}llo".as_bytes().to_vec();
    assert_eq!(record.len(), 6);
    let (from, to) = raw_retain_window(0, 6, 2);
    assert_eq!((from, to), (0, 6));
    let chunk = raw_chunk(&record[from as usize..to as usize], from, 6, 2).unwrap();
    assert_eq!(chunk.field, ContentField::Primary);
    assert_eq!(chunk.text, "h");
    assert_eq!(chunk.byte_offset, 0);
    assert_eq!(chunk.next_offset, Some(1));
    assert_eq!(chunk.total_bytes, 6);
    assert!(!chunk.complete);

    let (from, to) = raw_retain_window(2, 6, 10);
    assert_eq!((from, to), (2, 6));
    let chunk = raw_chunk(&record[from as usize..to as usize], from, 6, 10).unwrap();
    assert_eq!(chunk.text, "llo");
    assert_eq!(chunk.byte_offset, 3);
    assert_eq!(chunk.next_offset, None);
    assert!(!chunk.complete);

    let whole = raw_chunk(&record, 0, 6, 100).unwrap();
    assert_eq!(whole.text, "h\u{e9}llo");
    assert!(whole.complete);
    assert_eq!(raw_retain_window(9, 6, 1), (6, 6));

    let bad = raw_chunk(&[0xFF], 0, 1, 5).unwrap_err();
    assert_eq!(bad.code, "source_changed");
    assert_eq!(bad.message, "source encoding changed");
}

#[test]
fn entry_visibility_refusals_say_why() {
    let Err(e) = entry_visibility(&entries_query(Some(true), Some("sent"))) else { panic!("expected refusal") };
    assert_eq!(e.message, "displayTypes and includeTechnical are mutually exclusive");
    let Err(e) = entry_visibility(&entries_query(None, Some(""))) else { panic!("expected refusal") };
    assert_eq!(e.message, "displayTypes must not be empty");
    let Err(e) = entry_visibility(&entries_query(None, Some("sent,bogus,worse"))) else { panic!("expected refusal") };
    assert_eq!(e.message, "unknown display type: bogus");
}
