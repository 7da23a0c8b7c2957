use agents_viewer::index::changes::{plan_deletions, plan_rediscovered};
use agents_viewer::index::full_discovery::plan_full_discovery;
use agents_viewer::index::policy_store::{resolve_index_policy, PolicyResolution, StoredPolicyError};
use agents_viewer::index::policy::PolicyError;
use agents_viewer::index::full_discovery::{
    catalog_update_ids, freshness_after_discovery, recovered_session, returning_source, snapshot_session_ids,
    source_gone,
};
use agents_viewer::index::sources::CatalogOutcome;
use agents_viewer::index::changes::{
    covered_by_deletion, session_freshness, sorted_distinct_sources, sorted_distinct_texts, takes_place,
    SessionFreshness,
};
use agents_viewer::index::reconcile::sort_updated_sessions;
use agents_viewer::index::report::ReconcileReport;
use agents_viewer::index::coordinator::{
    coordinator_finished, coordinator_start, coordinator_step, sweep_done, sweep_due, CoordinatorEvent,
    EventAction, WatchSignal,
};
use agents_viewer::index::control::{IoGate, MAX_READ_CHUNK_BYTES};
use agents_viewer::index::discovery::discover_sources;
use agents_viewer::index::policy::{InitialIndexPolicy, WorkPriority};
use agents_viewer::index::sources::{DiscoveredSource, SourceFileRecord};
use agents_viewer::index::reconcile::{reconcile_plan, reconcile_start, StoredSource};
use agents_viewer::index::sources::{Discovery, DiscoveryIssue};
use agents_viewer::index::work::{automatic_priority, WorkItem, WorkQueue};
use agents_viewer::rollout::types::RootKind;

fn source(id: &str, mtime_ns: i64, created_at_micros: i64) -> DiscoveredSource {
    DiscoveredSource {
        root: "/source".to_owned(),
        path: format!("/source/{id}.jsonl"),
        session_id: id.into(),
        created_at_micros,
        source: SourceFileRecord {
            root_kind: RootKind::Active,
            relative_path: format!("{id}.jsonl"),
            file_key: id.into(),
            size_bytes: 1,
            mtime_ns,
            head_hash: None,
            tail_hash: None,
            generation: 1,
            placeholder: None,
        },
        duplicate_paths: Vec::new(),
    }
}

#[test]
fn work_order_is_priority_then_mtime_then_creation() {
    let mut queue = WorkQueue::new();
    queue.push(WorkItem::new(source("recent-old", 20, 1), WorkPriority::Recent, None));
    queue.push(WorkItem::new(source("recent-new", 20, 2), WorkPriority::Recent, None));
    queue.push(WorkItem::new(source("direct", 1, 1), WorkPriority::Interactive, None));
    queue.push(WorkItem::new(source("background", 100, 100), WorkPriority::Background, None));
    assert_eq!(queue.pop().unwrap().source.session_id, "direct");
    assert_eq!(queue.pop().unwrap().source.session_id, "recent-new");
    assert_eq!(queue.pop().unwrap().source.session_id, "recent-old");
    assert_eq!(queue.pop().unwrap().source.session_id, "background");
}

#[test]
fn rolling_window_defers_old_history_but_zero_disables_backfill() {
    const DAY_MICROS: i64 = 86_400_000_000;
    let now = 20 * DAY_MICROS;
    let mut recent = source("recent", (19 * DAY_MICROS) * 1_000, 1);
    let old = source("old", (10 * DAY_MICROS) * 1_000, 2);
    assert_eq!(
        automatic_priority(InitialIndexPolicy::new(7, now).unwrap(), &recent, now),
        Some(WorkPriority::Recent)
    );
    assert_eq!(
        automatic_priority(InitialIndexPolicy::new(7, now).unwrap(), &old, now),
        Some(WorkPriority::Background)
    );
    assert_eq!(
        automatic_priority(InitialIndexPolicy::new(0, now).unwrap(), &old, now),
        None
    );
    recent.source.mtime_ns = i64::MIN;
    assert_eq!(
        automatic_priority(InitialIndexPolicy::all(), &recent, now),
        Some(WorkPriority::Recent)
    );
}

#[test]
fn zero_and_all_windows_have_explicit_semantics() {
    let zero = InitialIndexPolicy::new(0, 123).unwrap();
    assert!(!zero.includes(122));
    assert!(zero.includes(123));
    assert!(InitialIndexPolicy::all().includes(i64::MIN));
}

#[test]
fn promotion_is_monotonic() {
    let mut scheduler = IoGate::new();
    let mut lease = scheduler.register(WorkPriority::Background);
    scheduler.promote(&mut lease, WorkPriority::Recent);
    scheduler.promote(&mut lease, WorkPriority::Background);
    assert_eq!(lease.priority(), WorkPriority::Recent);
    scheduler.promote(&mut lease, WorkPriority::Interactive);
    assert_eq!(lease.priority(), WorkPriority::Interactive);
}

#[test]
fn higher_priority_work_preempts_at_a_permit_boundary() {
    let mut scheduler = IoGate::new();
    let background = scheduler.register(WorkPriority::Background);
    let first = scheduler
        .acquire(&background, MAX_READ_CHUNK_BYTES, MAX_READ_CHUNK_BYTES)
        .unwrap();
    let interactive = scheduler.register(WorkPriority::Interactive);
    scheduler.release(first);
    let permit = scheduler.acquire(&interactive, MAX_READ_CHUNK_BYTES, 0).unwrap();
    assert_eq!(permit.max_bytes(), MAX_READ_CHUNK_BYTES);
}

#[test]
fn scheduler_holds_back_less_urgent_reads_and_limits_reads_in_flight() {
    let mut scheduler = IoGate::new();
    let background = scheduler.register(WorkPriority::Background);
    let recent = scheduler.register(WorkPriority::Recent);
    assert_eq!(background.id, 1);
    assert_eq!(recent.id, 2);
    assert!(scheduler.higher_priority_waiting(WorkPriority::Background));
    assert!(!scheduler.higher_priority_waiting(WorkPriority::Recent));
    assert!(scheduler.acquire(&background, 100, 1_000).is_none());
    let a = scheduler.acquire(&recent, 0, 0).unwrap();
    assert_eq!(a.max_bytes(), 1);
    let b = scheduler.acquire(&recent, 10 * MAX_READ_CHUNK_BYTES, 0).unwrap();
    assert_eq!(b.max_bytes(), MAX_READ_CHUNK_BYTES);
    assert!(scheduler.acquire(&recent, 100, 0).is_none());
    scheduler.release(a);
    scheduler.release(b);
    scheduler.unregister(recent);
    assert!(!scheduler.higher_priority_waiting(WorkPriority::Background));
    assert!(scheduler.acquire(&background, 100, 0).is_none());
    let c = scheduler.acquire(&background, 100, 40).unwrap();
    assert_eq!(c.max_bytes(), 40);
    scheduler.record_read(40);
    scheduler.record_read(2);
    assert_eq!(scheduler.bytes_read(), 42);
}

#[test]
fn discovery_keeps_one_source_per_session_and_lists_the_others() {
    let mut old_copy = source("shared", 10, 5);
    old_copy.source.relative_path = "2026/01/old.jsonl".to_owned();
    let mut new_copy = source("shared", 30, 5);
    new_copy.source.relative_path = "2026/01/new.jsonl".to_owned();
    let mut archived = source("shared", 50, 5);
    archived.source.root_kind = RootKind::Archived;
    archived.source.relative_path = "2026/01/archived.jsonl".to_owned();
    let other = source("other", 20, 1);
    let found = vec![old_copy, other, new_copy, archived];
    let discovery = discover_sources(found, Vec::new(), InitialIndexPolicy::all());
    assert_eq!(discovery.sources.len(), 2);
    let shared = &discovery.sources[0];
    assert_eq!(shared.session_id, "shared");
    assert_eq!(shared.source.relative_path, "2026/01/new.jsonl");
    let mut duplicates = shared.duplicate_paths.clone();
    duplicates.sort();
    assert_eq!(duplicates, vec!["2026/01/archived.jsonl", "2026/01/old.jsonl"]);
    assert_eq!(discovery.sources[1].session_id, "other");
    assert!(discovery.sources[1].duplicate_paths.is_empty());
    assert_eq!(discovery.total_bytes, 2);
}

fn stored(id: &str, size_bytes: u64, mtime_ns: i64, scan_state: &str) -> StoredSource {
    StoredSource {
        root_kind: RootKind::Active,
        relative_path: format!("{id}.jsonl"),
        file_key: id.into(),
        size_bytes,
        mtime_ns,
        snapshot_file_key: None,
        snapshot_size_bytes: None,
        snapshot_mtime_ns: None,
        snapshot_revision: 0,
        catalog_complete: true,
        scan_state: scan_state.into(),
        session_id: Some(id.into()),
    }
}

#[test]
fn reconcile_plan_scans_changes_and_marks_missing_and_returning_sources() {
    const DAY_MICROS: i64 = 86_400_000_000;
    let now = 20 * DAY_MICROS;
    let recent_ns = (19 * DAY_MICROS) * 1_000;
    let old_ns = (2 * DAY_MICROS) * 1_000;
    let mut grown = source("grown", recent_ns, 1);
    grown.source.size_bytes = 10;
    let sources = vec![
        source("same", recent_ns, 1),
        grown,
        source("new", recent_ns, 1),
        source("back", recent_ns, 1),
        source("old", old_ns, 1),
    ];
    let catalog = vec![
        stored("same", 1, recent_ns, "indexed"),
        stored("grown", 1, recent_ns, "indexed"),
        stored("back", 1, recent_ns, "source_missing"),
        stored("gone", 1, recent_ns, "indexed"),
        stored("long-gone", 1, recent_ns, "source_missing"),
    ];
    let discovery = Discovery { sources, issues: Vec::new(), total_bytes: 14, excluded_files: 0, excluded_bytes: 0 };
    let policy = InitialIndexPolicy::new(7, now).unwrap();
    let plan = reconcile_plan(&discovery, &catalog, policy, now);
    assert_eq!(plan.missing, vec![(RootKind::Active, "gone.jsonl".to_owned())]);
    assert_eq!(plan.present, vec![(RootKind::Active, "back.jsonl".to_owned())]);
    assert_eq!(plan.changed, vec![1, 2]);
    assert_eq!((plan.processed_files, plan.processed_bytes), (2, 2));
    assert_eq!((plan.excluded_files, plan.excluded_bytes), (1, 1));
    let (progress, report) = reconcile_start(&discovery, &plan, 7);
    assert_eq!((progress.total_files, progress.processed_files), (4, 2));
    assert_eq!((progress.total_bytes, progress.processed_bytes), (13, 2));
    assert_eq!((report.generation, report.discovered_files, report.removed_files), (7, 5, 1));
    assert!(!report.reconcile_again);

    let troubled = Discovery {
        issues: vec![DiscoveryIssue { code: "walk".into(), message: "denied".into() }],
        ..discovery
    };
    let cautious = reconcile_plan(&troubled, &catalog, policy, now);
    assert!(cautious.missing.is_empty());
    let (_, report) = reconcile_start(&troubled, &cautious, 8);
    assert!(report.reconcile_again);
    assert_eq!(report.discovery_issues, 1);
}

#[test]
fn coordinator_answers_signals_drains_and_backs_off_sweeps() {
    use_coordinator();
}

fn use_coordinator() {
    let s = coordinator_start(1_000);
    assert!(!sweep_due(s, true, 1_000));
    let out = coordinator_step(s, CoordinatorEvent::Watch(WatchSignal::Reconcile), 1_000, true);
    assert!(out.schedule && out.state.recovery_requested);
    assert!(sweep_due(out.state, true, 1_000));
    assert!(!sweep_due(out.state, false, 1_000));
    let after = sweep_done(out.state, true, 2_000);
    assert_eq!((after.recovery_backoff, after.next_recovery_sweep_millis), (1, 62_000));
    assert!(!sweep_due(after, true, 61_999) && sweep_due(after, true, 62_000));
    let again = sweep_done(after, false, 70_000);
    assert_eq!((again.recovery_backoff, again.next_recovery_sweep_millis, again.recovery_requested), (2, 370_000, false));
    let swept = coordinator_step(again, CoordinatorEvent::SafetySweep, 400_000, true).state;
    assert_eq!((swept.recovery_backoff, swept.next_recovery_sweep_millis), (0, 400_000));
    let paths = coordinator_step(swept, CoordinatorEvent::Watch(WatchSignal::Paths(vec!["a".into()])), 1, true);
    assert!(matches!(paths.action, EventAction::HandlePaths(ref p) if p == &vec!["a".to_string()]));
    let hot = coordinator_step(swept, CoordinatorEvent::HotRefresh, 1, false);
    assert!(matches!(hot.action, EventAction::Nothing));
    let down = coordinator_step(swept, CoordinatorEvent::Shutdown, 1, true);
    assert!(down.state.draining && !down.schedule);
    let ignored = coordinator_step(down.state, CoordinatorEvent::EnsureSession("s".into()), 1, true);
    assert!(matches!(ignored.action, EventAction::Nothing));
    let done = coordinator_step(down.state, CoordinatorEvent::Completion, 1, true);
    assert!(matches!(done.action, EventAction::HandleCompletion));
    assert!(coordinator_finished(done.state, true) && !coordinator_finished(done.state, false));
}

#[test]
fn changed_paths_decide_catalog_places_freshness_and_missing_sources() {
    let newer = source("new", 20, 1);
    let older = source("old", 10, 1);
    assert!(takes_place(&newer, None));
    assert!(takes_place(&newer, Some(&older)));
    assert!(!takes_place(&older, Some(&newer)));
    assert!(takes_place(&older, Some(&older.clone())));
    assert_eq!(session_freshness(true, true), SessionFreshness::Current);
    assert_eq!(session_freshness(false, true), SessionFreshness::Stale);
    assert_eq!(session_freshness(false, false), SessionFreshness::Checking);
    let catalog = vec![source("a", 1, 1), source("b", 1, 1), source("c", 1, 1)];
    assert_eq!(covered_by_deletion(&catalog, "/source/b.jsonl"), vec![1]);
    assert_eq!(covered_by_deletion(&catalog, "/source"), vec![0, 1, 2]);
    assert_eq!(covered_by_deletion(&catalog, "/elsewhere"), Vec::<usize>::new());
    let missing = vec![
        (RootKind::Archived, "z.jsonl".to_string()),
        (RootKind::Active, "b.jsonl".to_string()),
        (RootKind::Active, "a.jsonl".to_string()),
        (RootKind::Active, "b.jsonl".to_string()),
    ];
    assert_eq!(
        sorted_distinct_sources(&missing),
        vec![
            (RootKind::Active, "a.jsonl".to_string()),
            (RootKind::Active, "b.jsonl".to_string()),
            (RootKind::Archived, "z.jsonl".to_string()),
        ]
    );
    let ids = vec!["s2".to_string(), "s1".to_string(), "s2".to_string()];
    assert_eq!(sorted_distinct_texts(&ids), vec!["s1".to_string(), "s2".to_string()]);
    let mut report = ReconcileReport::default();
    report.updated_sessions = ids;
    report.indexed_files = 3;
    sort_updated_sessions(&mut report);
    assert_eq!(report.updated_sessions, vec!["s1".to_string(), "s2".to_string()]);
    assert_eq!(report.indexed_files, 3);
}

#[test]
fn full_discovery_decides_sessions_freshness_and_catalog_updates() {
    const DAY_MICROS: i64 = 86_400_000_000;
    let recent_ns = (19 * DAY_MICROS) * 1_000;
    let mut snap = stored("snap", 1, recent_ns, "indexed");
    snap.snapshot_revision = 2;
    snap.snapshot_file_key = Some("snap".into());
    snap.snapshot_size_bytes = Some(1);
    snap.snapshot_mtime_ns = Some(recent_ns);
    let mut old_snap = stored("old", 1, recent_ns, "indexed");
    old_snap.snapshot_revision = 1;
    old_snap.snapshot_file_key = Some("other".into());
    let back = stored("back", 1, recent_ns, "source_missing");
    let gone = stored("gone", 1, recent_ns, "indexed");
    let catalog = vec![snap, old_snap, back, gone];
    let snapshots = snapshot_session_ids(&catalog);
    assert_eq!(snapshots, vec!["snap".to_string(), "old".to_string()]);
    assert_eq!(freshness_after_discovery(&catalog, &snapshots, &source("snap", recent_ns, 1)), SessionFreshness::Current);
    assert_eq!(freshness_after_discovery(&catalog, &snapshots, &source("old", recent_ns, 1)), SessionFreshness::Stale);
    assert_eq!(freshness_after_discovery(&catalog, &snapshots, &source("new", recent_ns, 1)), SessionFreshness::Checking);
    assert_eq!(recovered_session(&catalog, &source("back", recent_ns, 1)), Some("back".to_string()));
    assert_eq!(recovered_session(&catalog, &source("new", recent_ns, 1)), None);
    assert_eq!(returning_source(&catalog, &source("back", recent_ns, 1)), Some((RootKind::Active, "back.jsonl".to_string())));
    assert_eq!(returning_source(&catalog, &source("snap", recent_ns, 1)), None);
    let discovered = vec![source("snap", recent_ns, 1), source("back", recent_ns, 1)];
    let ids = vec!["snap".to_string(), "back".to_string()];
    assert!(source_gone(&catalog[3], &ids, &discovered));
    assert!(!source_gone(&catalog[0], &ids, &discovered));
    let outcomes = vec![
        CatalogOutcome { source: source("snap", recent_ns, 1), has_snapshot: true, changed: false },
        CatalogOutcome { source: source("zeta", recent_ns, 1), has_snapshot: false, changed: true },
    ];
    assert_eq!(
        catalog_update_ids(&outcomes, &vec!["gone".to_string(), "back".to_string(), "zeta".to_string()]),
        vec!["back".to_string(), "gone".to_string(), "zeta".to_string()]
    );
}

#[test]
fn fresh_index_stores_the_configured_window() {
    let now: i64 = 10 * 86_400_000_000;
    let r = resolve_index_policy(None, None, None, 0, 7, 4096, now).unwrap();
    assert_eq!(
        r,
        PolicyResolution {
            policy: InitialIndexPolicy { days: 7, cutoff_micros: Some(3 * 86_400_000_000) },
            store_days: true,
            store_cutoff: Some(3 * 86_400_000_000),
            store_max_event_bytes: true,
        }
    );
}

#[test]
fn stored_window_is_kept_as_first_chosen() {
    let r = resolve_index_policy(Some("7"), Some("123"), Some("4096"), 5, 7, 4096, 999_999).unwrap();
    assert_eq!(r.policy, InitialIndexPolicy { days: 7, cutoff_micros: Some(123) });
    assert!(!r.store_days);
    assert_eq!(r.store_cutoff, None);
    assert!(!r.store_max_event_bytes);
}

#[test]
fn stored_policy_mismatches_ask_for_a_rebuild() {
    assert_eq!(
        resolve_index_policy(Some("7"), Some("1"), None, 0, 3, 10, 0),
        Err(StoredPolicyError::DaysChanged { stored: 7, requested: 3 })
    );
    assert_eq!(resolve_index_policy(Some("x"), None, None, 0, 3, 10, 0), Err(StoredPolicyError::InvalidDays));
    assert_eq!(resolve_index_policy(Some("-1"), Some("5"), None, 0, -1, 10, 0), Err(StoredPolicyError::AllHistoryCutoff));
    assert_eq!(resolve_index_policy(Some("-1"), Some(""), None, 0, -1, 10, 0).unwrap().policy, InitialIndexPolicy::all());
    assert_eq!(resolve_index_policy(Some("3"), None, None, 0, 3, 10, 0), Err(StoredPolicyError::MissingCutoff));
    assert_eq!(resolve_index_policy(Some("3"), Some("z"), None, 0, 3, 10, 0), Err(StoredPolicyError::InvalidCutoff));
    assert_eq!(resolve_index_policy(None, None, None, 2, 3, 10, 0), Err(StoredPolicyError::PredatesDays));
    assert_eq!(resolve_index_policy(None, Some("1"), None, 0, 3, 10, 0), Err(StoredPolicyError::Incomplete));
    assert_eq!(
        resolve_index_policy(Some("3"), Some("1"), Some("20"), 1, 3, 10, 0),
        Err(StoredPolicyError::MaxBytesChanged { stored: 20, requested: 10 })
    );
    assert_eq!(resolve_index_policy(Some("3"), Some("1"), Some("q"), 1, 3, 10, 0), Err(StoredPolicyError::InvalidMaxBytes));
    assert_eq!(resolve_index_policy(Some("3"), Some("1"), None, 1, 3, 10, 0), Err(StoredPolicyError::PredatesMaxBytes));
    assert_eq!(resolve_index_policy(None, None, None, 0, -2, 10, 0), Err(StoredPolicyError::Window(PolicyError::NegativeDays)));
    let all = resolve_index_policy(None, None, None, 4, -1, 10, 0);
    assert_eq!(all, Err(StoredPolicyError::PredatesMaxBytes));
    let all = resolve_index_policy(None, None, Some("10"), 4, -1, 10, 0).unwrap();
    assert_eq!(all.policy, InitialIndexPolicy::all());
    assert!(all.store_days);
}

#[test]
fn full_discovery_plan_installs_freshness_and_marks_sources() {
    let mut a = stored("a", 1, 5, "indexed");
    a.snapshot_file_key = Some("a".into());
    a.snapshot_size_bytes = Some(1);
    a.snapshot_mtime_ns = Some(5);
    a.snapshot_revision = 1;
    let b = stored("b", 1, 5, "source_missing");
    let mut c = stored("c", 1, 5, "indexed");
    c.snapshot_revision = 1;
    let mut f = stored("f", 1, 5, "indexed");
    f.session_id = Some("f-session".into());
    let catalog = vec![a, b, c, f];
    let discovered = vec![source("a", 5, 1), source("b", 5, 1), source("f", 5, 1)];
    let outcomes = vec![
        CatalogOutcome { source: source("a", 5, 1), has_snapshot: true, changed: false },
        CatalogOutcome { source: source("b", 5, 1), has_snapshot: false, changed: true },
    ];
    let failed = vec![source("f", 5, 1)];
    let plan = plan_full_discovery(&catalog, &discovered, &outcomes, &failed, true, false);
    assert_eq!(plan.session_ids, vec!["a".to_string(), "b".to_string(), "f-session".to_string()]);
    assert_eq!(plan.snapshots, vec!["a".to_string(), "c".to_string()]);
    assert_eq!(
        plan.freshness,
        vec![
            ("a".to_string(), SessionFreshness::Current),
            ("b".to_string(), SessionFreshness::Checking),
            ("f-session".to_string(), SessionFreshness::Checking),
            ("c".to_string(), SessionFreshness::SourceMissing),
        ]
    );
    assert_eq!(plan.missing, vec![(RootKind::Active, "c.jsonl".to_string())]);
    assert_eq!(plan.present, vec![(RootKind::Active, "b.jsonl".to_string())]);
    assert_eq!(plan.catalog_updates, vec!["b".to_string(), "c".to_string()]);
    assert_eq!(plan.indexed_files, 1);
    assert_eq!(plan.removed_files, 1);
    assert!(plan.reconcile_again);

    let with_issues = plan_full_discovery(&catalog, &discovered, &outcomes, &Vec::new(), false, true);
    assert!(with_issues.missing.is_empty());
    assert_eq!(with_issues.session_ids, vec!["a".to_string(), "b".to_string()]);
    assert_eq!(with_issues.catalog_updates, vec!["b".to_string()]);
    assert!(with_issues.reconcile_again);
}

#[test]
fn deletions_take_away_covered_sources_not_found_again() {
    let catalog = vec![source("a", 1, 1), source("b", 1, 1), source("c", 1, 1)];
    let deleted = vec!["/source/a.jsonl".to_string(), "/source".to_string()];
    let files = vec![(RootKind::Active, "a.jsonl".to_string()), (RootKind::Active, "zz.jsonl".to_string())];
    let plan = plan_deletions(&catalog, &deleted, &files, &vec!["b".to_string()], &vec!["a".to_string()]);
    assert_eq!(plan.removed, vec![0, 2]);
    assert_eq!(plan.now_missing, vec!["a".to_string()]);
    assert_eq!(
        plan.mark_missing,
        vec![
            (RootKind::Active, "a.jsonl".to_string()),
            (RootKind::Active, "c.jsonl".to_string()),
            (RootKind::Active, "zz.jsonl".to_string()),
        ]
    );
    let none = plan_deletions(&catalog, &vec!["/elsewhere".to_string()], &Vec::new(), &Vec::new(), &Vec::new());
    assert!(none.removed.is_empty());
    assert!(none.mark_missing.is_empty());
}

#[test]
fn rediscovered_sources_replace_only_by_precedence() {
    let mut held = source("s", 10, 1);
    held.session_id = "s".into();
    let catalog = vec![held];
    let mut older = source("s2", 5, 1);
    older.session_id = "s".into();
    let mut newer = source("s3", 20, 1);
    newer.session_id = "s".into();
    let mut middle = source("s4", 15, 1);
    middle.session_id = "s".into();
    let fresh = source("n", 7, 1);
    let batch = vec![older, newer, middle, fresh];
    let stored_sources = vec![stored("n", 1, 7, "source_missing")];
    let decisions = plan_rediscovered(&catalog, &batch, &stored_sources, &vec!["s".to_string()]);
    assert_eq!(decisions.len(), 4);
    assert!(!decisions[0].takes_place);
    assert!(decisions[1].takes_place);
    assert!(!decisions[1].current);
    assert_eq!(decisions[1].freshness, SessionFreshness::Stale);
    assert_eq!(decisions[1].returning, None);
    assert!(!decisions[2].takes_place);
    assert!(decisions[3].takes_place);
    assert!(decisions[3].current);
    assert_eq!(decisions[3].freshness, SessionFreshness::Current);
    assert_eq!(decisions[3].returning, Some((RootKind::Active, "n.jsonl".to_string())));
}

#[test]
fn stored_policy_refusals_name_the_rebuild() {
    assert_eq!(
        StoredPolicyError::DaysChanged { stored: 7, requested: 0 }.message(),
        "initial_index_days changed from 7 to 0; run agents-viewer --rebuild-index to apply the new fixed window"
    );
    assert_eq!(
        StoredPolicyError::DaysChanged { stored: -1, requested: 3 }.message(),
        "initial_index_days changed from -1 to 3; run agents-viewer --rebuild-index to apply the new fixed window"
    );
    assert_eq!(
        StoredPolicyError::MaxBytesChanged { stored: 33554432, requested: 16777216 }.message(),
        "max_event_bytes changed from 33554432 to 16777216; run agents-viewer --rebuild-index to apply it consistently"
    );
    assert!(StoredPolicyError::PredatesDays.message().contains("--rebuild-index"));
    assert!(StoredPolicyError::Incomplete.message().contains("--rebuild-index"));
    assert_eq!(StoredPolicyError::Window(PolicyError::NegativeDays).message(), "initial index days must be -1 or non-negative");
    let err = resolve_index_policy(Some("7"), Some("1"), Some("33554432"), 3, 0, 33554432, 0).unwrap_err();
    assert!(err.message().contains("--rebuild-index"));
}
