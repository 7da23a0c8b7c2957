use agents_viewer::config::check_initial_index_days;
use agents_viewer::config::{check_listen, is_loopback, ListenAddress};
use agents_viewer::config::{
    parse_event_bytes, resolve_config_path, FileConfig, LogLevel, DEFAULT_CONFIG_TOML,
    DEFAULT_MAX_EVENT_BYTES,
};
use agents_viewer::error::ViewerError;

#[test]
fn configured_scalar_validation_is_strict() {
    assert_eq!(parse_event_bytes("32MiB").unwrap(), 32 * 1024 * 1024);
    assert!(parse_event_bytes("32MB").is_err());
}

#[test]
fn event_size_limits_report_each_refusal() {
    assert_eq!(parse_event_bytes("1MiB").unwrap(), 1024 * 1024);
    assert_eq!(parse_event_bytes("256MiB").unwrap(), 256 * 1024 * 1024);
    assert_eq!(parse_event_bytes("1048576B").unwrap(), 1024 * 1024);
    assert_eq!(parse_event_bytes("1024KiB").unwrap(), 1024 * 1024);
    assert_eq!(
        parse_event_bytes("MiB").unwrap_err(),
        "size must start with a base-10 integer"
    );
    assert_eq!(
        parse_event_bytes("99999999999999999999B").unwrap_err(),
        "size must start with a base-10 integer"
    );
    assert_eq!(
        parse_event_bytes("32 MiB").unwrap_err(),
        "size suffix must be B, KiB, MiB, or GiB"
    );
    assert_eq!(
        parse_event_bytes("18446744073GiB").unwrap_err(),
        "size exceeds this platform's range"
    );
    assert_eq!(
        parse_event_bytes("1023KiB").unwrap_err(),
        "size must be between 1MiB and 256MiB"
    );
    assert_eq!(
        parse_event_bytes("257MiB").unwrap_err(),
        "size must be between 1MiB and 256MiB"
    );
}

#[test]
fn configuration_paths_expand_home_and_stay_beside_the_file() {
    assert_eq!(resolve_config_path("~", "/cfg", "/home/u").unwrap(), "/home/u");
    assert_eq!(
        resolve_config_path("~/.codex", "/cfg", "/home/u").unwrap(),
        "/home/u/.codex"
    );
    assert_eq!(resolve_config_path("/data", "/cfg", "/home/u").unwrap(), "/data");
    assert_eq!(
        resolve_config_path("data", "/cfg", "/home/u").unwrap(),
        "/cfg/data"
    );
    match resolve_config_path("~other/x", "/cfg", "/home/u") {
        Err(ViewerError::InvalidArgument(message)) => assert_eq!(
            message,
            "only ~ and ~/... current-user paths are supported: ~other/x"
        ),
        other => panic!("unexpected {other:?}"),
    }
}

#[test]
fn default_configuration_documents_every_field() {
    assert!(DEFAULT_CONFIG_TOML.starts_with("#:schema ./schema.json\n"));
    for field in [
        "source_dir",
        "data_dir",
        "initial_index_days",
        "listen",
        "max_event_bytes",
        "log_level",
    ] {
        assert!(DEFAULT_CONFIG_TOML.contains(field));
    }
    let defaults = FileConfig::default();
    assert_eq!(defaults.source_dir, "~/.codex");
    assert_eq!(defaults.initial_index_days, 7);
    assert_eq!(defaults.log_level, LogLevel::Warn);
    assert_eq!(
        parse_event_bytes(&defaults.max_event_bytes).unwrap(),
        DEFAULT_MAX_EVENT_BYTES
    );
    assert_eq!(LogLevel::Warn.as_filter(), "warn");
}

#[test]
fn log_level_defaults_to_warn() {
    assert_eq!(LogLevel::default(), LogLevel::Warn);
    assert_eq!(LogLevel::default().as_filter(), "warn");
    assert_eq!(LogLevel::Trace.as_filter(), "trace");
    assert_eq!(LogLevel::Debug.as_filter(), "debug");
    assert_eq!(LogLevel::Info.as_filter(), "info");
    assert_eq!(LogLevel::Error.as_filter(), "error");
    assert_eq!(LogLevel::Off.as_filter(), "off");
}

#[test]
fn a_path_overlaps_itself() {
    let r = agents_viewer::paths::validate_no_overlap("/home/user/.codex", "/home/user/.codex");
    assert!(matches!(r, Err(ViewerError::PathOverlap { .. })));
    let nested = agents_viewer::paths::validate_no_overlap("/home/user/.codex", "/home/user/.codex/cache");
    assert!(matches!(nested, Err(ViewerError::PathOverlap { .. })));
    assert!(agents_viewer::paths::validate_no_overlap("/home/user/.codex", "/home/user/.cache/viewer").is_ok());
}

#[test]
fn changed_paths_are_placed_under_their_root() {
    use_roots();
}

fn use_roots() {
    let roots = agents_viewer::paths::SourceRoots {
        home: "/h/.codex".to_owned(),
        active: Some("/h/.codex/sessions".to_owned()),
        archived: Some("/h/.codex/archived_sessions".to_owned()),
    };
    let active = agents_viewer::paths::changed_path_root(&roots, "/h/.codex/sessions/2026/01/01/rollout-a.jsonl");
    assert_eq!(active, Some((agents_viewer::rollout::types::RootKind::Active, "/h/.codex/sessions".to_owned())));
    let archived = agents_viewer::paths::changed_path_root(&roots, "/h/.codex/archived_sessions/rollout-b.jsonl");
    assert_eq!(archived, Some((agents_viewer::rollout::types::RootKind::Archived, "/h/.codex/archived_sessions".to_owned())));
    assert_eq!(agents_viewer::paths::changed_path_root(&roots, "/h/.codex/sessions/notes.txt"), None);
    assert_eq!(agents_viewer::paths::changed_path_root(&roots, "/elsewhere/rollout-c.jsonl"), None);
    assert_eq!(agents_viewer::paths::changed_path_root(&roots, "/h/.codex/sessions_old/rollout-d.jsonl"), None);
}

#[test]
fn listen_accepts_only_loopback_addresses() {
    let v4 = ListenAddress::V4 { octets: [127, 0, 0, 1], port: 8080 };
    assert_eq!(check_listen(Some(v4)), Ok(v4));
    assert!(is_loopback(&ListenAddress::V4 { octets: [127, 9, 9, 9], port: 1 }));
    let v6 = ListenAddress::V6 { segments: [0, 0, 0, 0, 0, 0, 0, 1], port: 80 };
    assert_eq!(check_listen(Some(v6)), Ok(v6));
    assert_eq!(
        check_listen(Some(ListenAddress::V4 { octets: [0, 0, 0, 0], port: 80 })),
        Err("listen address must be IPv4 or IPv6 loopback".to_string())
    );
    assert_eq!(
        check_listen(Some(ListenAddress::V6 { segments: [0, 0, 0, 0, 0, 0, 0, 2], port: 80 })),
        Err("listen address must be IPv4 or IPv6 loopback".to_string())
    );
    assert_eq!(
        check_listen(None),
        Err("listen must be an IP address and port (hostnames are not accepted)".to_string())
    );
}

#[test]
fn initial_index_days_must_be_all_history_or_a_window() {
    assert!(matches!(check_initial_index_days(-1), Ok(-1)));
    assert!(matches!(check_initial_index_days(0), Ok(0)));
    assert!(matches!(check_initial_index_days(30), Ok(30)));
    match check_initial_index_days(-2) {
        Err(ViewerError::InvalidArgument(m)) => assert_eq!(m, "initial_index_days must be -1 or a non-negative integer"),
        _ => panic!("expected refusal"),
    }
}
