use std::collections::HashSet;

use agents_viewer::api::sessions::{break_parent_cycles, build_session_groups, MAX_SESSION_TREE_DEPTH};
use agents_viewer::model::{
    Completeness, IndexState, SessionParentRelation, SessionSummary, SessionTreeNode, SourceKind,
};

fn session(id: String, parent_thread_id: Option<String>) -> SessionSummary {
    SessionSummary {
        id: id.clone(),
        source: SourceKind::Cli,
        parent_thread_id,
        parent_relation: Some(SessionParentRelation::Parent),
        cwd: None,
        title: id,
        preview: String::new(),
        created_at: "2026-01-01T00:00:00.000000Z".to_owned(),
        updated_at: "2026-01-01T00:00:00.000000Z".to_owned(),
        archived: false,
        cli_version: None,
        provider: None,
        git: None,
        entry_count: 0,
        diagnostic_count: 0,
        index_state: IndexState::Ready,
        completeness: Completeness::Complete,
    }
}

#[test]
fn deep_session_groups_are_complete_bounded_and_iterative() {
    const SESSION_COUNT: usize = 10_000;
    let sessions = (0..SESSION_COUNT)
        .map(|index| {
            let id = format!("session-{index:05}");
            let parent = (index > 0).then(|| format!("session-{:05}", index - 1));
            session(id, parent)
        })
        .collect();

    let groups = build_session_groups(sessions);

    assert_eq!(groups.len(), 1);
    assert!(!groups[0].hierarchy_complete);
    let mut seen = HashSet::new();
    let mut max_depth = 0;
    let mut stack: Vec<(&SessionTreeNode, usize)> = vec![(&groups[0].root, 1_usize)];
    while let Some((node, depth)) = stack.pop() {
        assert!(seen.insert(node.session.id.clone()));
        max_depth = max_depth.max(depth);
        stack.extend(node.children.iter().map(|child| (child, depth + 1)));
    }
    assert_eq!(seen.len(), SESSION_COUNT);
    assert!(max_depth <= MAX_SESSION_TREE_DEPTH);
}

#[test]
fn parent_cycles_are_broken_at_a_stable_node() {
    // Sessions a, b and c, in id order; each names its parent by index.
    let mut parents = vec![Some(1), Some(0), Some(1)];

    break_parent_cycles(&mut parents);

    assert_eq!(parents[0], None);
    assert_eq!(parents[1], Some(0));
    assert_eq!(parents[2], Some(1));
}

#[test]
fn groups_list_latest_first_and_show_each_session_once() {
    let mut older = session("b-root".to_owned(), None);
    older.updated_at = "2026-01-01T00:00:00.000000Z".to_owned();
    let mut newer = session("c-root".to_owned(), None);
    newer.updated_at = "2026-03-01T00:00:00.000000Z".to_owned();
    let child = session("a-child".to_owned(), Some("b-root".to_owned()));
    let duplicate = session("a-child".to_owned(), Some("b-root".to_owned()));
    let orphan = session("d-orphan".to_owned(), Some("missing".to_owned()));
    let cycle_x = session("e-x".to_owned(), Some("f-y".to_owned()));
    let cycle_y = session("f-y".to_owned(), Some("e-x".to_owned()));
    let groups = build_session_groups(vec![older, newer, child, duplicate, orphan, cycle_x, cycle_y]);
    let roots: Vec<&str> = groups.iter().map(|g| g.root.session.id.as_str()).collect();
    assert_eq!(roots, vec!["c-root", "b-root", "d-orphan", "e-x"]);
    let mut seen = HashSet::new();
    for group in &groups {
        let mut stack: Vec<&SessionTreeNode> = vec![&group.root];
        while let Some(node) = stack.pop() {
            assert!(seen.insert(node.session.id.clone()));
            stack.extend(node.children.iter());
        }
    }
    assert_eq!(seen.len(), 6);
    assert_eq!(groups[1].root.children.len(), 1);
    assert_eq!(groups[1].root.children[0].session.id, "a-child");
    assert_eq!(groups[3].root.children[0].session.id, "f-y");
}

#[test]
fn a_three_session_cycle_is_rooted_at_its_smallest_id() {
    let a = session("a".to_owned(), Some("c".to_owned()));
    let b = session("b".to_owned(), Some("a".to_owned()));
    let c = session("c".to_owned(), Some("b".to_owned()));
    let d = session("d".to_owned(), Some("c".to_owned()));
    let groups = build_session_groups(vec![c, d, b, a]);
    assert_eq!(groups.len(), 1);
    assert_eq!(groups[0].root.session.id, "a");
    assert_eq!(groups[0].root.children.len(), 1);
    assert_eq!(groups[0].root.children[0].session.id, "b");
}
