use agents_viewer::permissions::broad_principal_has_unsafe_rights;
use agents_viewer::rollout::identity;
use agents_viewer::rollout::reader::{
    checkpoint_for_file, read_lines, read_lines_from, verify_checkpoint, LineReadStatus,
};

#[test]
fn identity_is_stable_directly() {
    assert_eq!(identity::event_title("web_search_begin"), "Web search");
    assert_eq!(
        identity::raw_ref_id("session", 1, 2),
        identity::raw_ref_id("session", 1, 2)
    );
}

#[test]
fn synthetic_broad_principal_rights_fail_closed() {
    assert!(broad_principal_has_unsafe_rights(&[0, 1, 0]));
    assert!(broad_principal_has_unsafe_rights(&[0x4000_0000]));
    assert!(!broad_principal_has_unsafe_rights(&[0, 0, 0]));
}

#[test]
fn resumed_read_matches_full_read() {
    let data: &[u8] = b"{\"a\":1}\n{\"b\":2}\npartial";
    let (full, checkpoint) = read_lines(data, 1024);
    assert_eq!(full.len(), 3);
    assert_eq!(checkpoint.offset, 16);
    assert_eq!(full[2].status, LineReadStatus::IncompleteTail);
    let (tail, resumed) = read_lines_from(&data[8..], 1024, 2, 8);
    assert_eq!(tail.len(), 2);
    for (a, b) in full[1..].iter().zip(tail.iter()) {
        assert_eq!(a.line_no, b.line_no);
        assert_eq!(a.byte_offset, b.byte_offset);
        assert_eq!(a.byte_length, b.byte_length);
        assert_eq!(a.content_hash, b.content_hash);
        assert_eq!(a.status, b.status);
        assert_eq!(a.bytes, b.bytes);
    }
    assert_eq!(tail[0].bytes.as_deref(), Some(&b"{\"b\":2}"[..]));
    assert_eq!(resumed.offset, 16);
}

#[test]
fn checkpoints_survive_appends_but_not_rewrites() {
    let data: &[u8] = b"{\"a\":1}\n{\"b\":2}\npart";
    let (_, checkpoint) = read_lines(data, 1024);
    assert!(verify_checkpoint(data, &checkpoint));
    let mut grown = data.to_vec();
    grown.extend_from_slice(b"ial\n{\"c\":3}\n");
    assert!(verify_checkpoint(&grown, &checkpoint));
    let mut rewritten = grown.clone();
    rewritten[2] = b'z';
    assert!(!verify_checkpoint(&rewritten, &checkpoint));
    assert!(!verify_checkpoint(&data[..10], &checkpoint));
    let explicit = checkpoint_for_file(data, 16).unwrap();
    assert_eq!(explicit.prefix_hash, checkpoint.prefix_hash);
    assert!(checkpoint_for_file(data, 100).is_none());
}

#[test]
fn lines_are_numbered_and_tile_the_data() {
    let (lines, checkpoint) = read_lines(b"a\n\nbcdef\nxy", 3);
    let shape: Vec<(u64, u64, u64, LineReadStatus)> =
        lines.iter().map(|l| (l.line_no, l.byte_offset, l.byte_length, l.status)).collect();
    assert_eq!(
        shape,
        vec![
            (1, 0, 1, LineReadStatus::Complete),
            (2, 2, 0, LineReadStatus::Complete),
            (3, 3, 5, LineReadStatus::Oversize),
            (4, 9, 2, LineReadStatus::IncompleteTail),
        ]
    );
    assert_eq!(checkpoint.offset, 9);
    let (ended, _) = read_lines(b"a\nb\n", 3);
    assert!(ended.iter().all(|l| l.status == LineReadStatus::Complete));
    assert_eq!(ended.len(), 2);
}

#[test]
fn checkpoint_survives_appends_only() {
    let data = b"{\"a\":1}\n{\"b\":2}\n";
    let cp = checkpoint_for_file(data, 8).unwrap();
    let mut grown = data.to_vec();
    grown.extend_from_slice(b"{\"c\":3}\n");
    assert!(verify_checkpoint(data, &cp));
    assert!(verify_checkpoint(&grown, &cp));
    assert!(!verify_checkpoint(&data[..5], &cp));
    let mut changed = data.to_vec();
    changed[2] = b'z';
    assert!(!verify_checkpoint(&changed, &cp));
}
