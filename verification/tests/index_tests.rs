use win_expl::fs_model::EntryKind;
use win_expl::fs_model::FsEntry;
use win_expl::memory::index::Index;
use win_expl::memory::index::IndexError;
use win_expl::memory::index::IndexType;
use win_expl::memory::index_codec::parse_index;
use win_expl::memory::index_codec::serialize_index;

fn sample_tree() -> FsEntry {
    FsEntry::directory(
        String::from("root"),
        vec![
            FsEntry::file(String::from("a.txt"), 1, 0),
            FsEntry::directory(
                String::from("sub"),
                vec![
                    FsEntry::file(String::from("b.txt"), 2, 0),
                    FsEntry::directory(String::from("deep"), vec![FsEntry::file(
                        String::from("c.txt"),
                        3,
                        0,
                    )]),
                ],
            ),
        ],
    )
}

#[test]
fn traverse_builds_the_expected_tree() {
    let t = Index::traverse_and_generate(&sample_tree(), 2);
    let expected = IndexType::Dir(
        String::from("root"),
        vec![
            IndexType::File(String::from("a.txt")),
            IndexType::Dir(
                String::from("sub"),
                vec![
                    IndexType::File(String::from("b.txt")),
                    IndexType::Dir(String::from("deep"), vec![IndexType::File(
                        String::from("c.txt"),
                    )]),
                ],
            ),
        ],
    );
    assert_eq!(t, expected);
}

#[test]
fn traverse_stops_at_the_depth_bound() {
    let t = Index::traverse_and_generate(&sample_tree(), 1);
    let expected = IndexType::Dir(
        String::from("root"),
        vec![
            IndexType::File(String::from("a.txt")),
            IndexType::Dir(String::from("sub"), vec![IndexType::File(String::from(
                "b.txt",
            ))]),
        ],
    );
    assert_eq!(t, expected);

    let t = Index::traverse_and_generate(&sample_tree(), 0);
    let expected = IndexType::Dir(String::from("root"), vec![IndexType::File(
        String::from("a.txt"),
    )]);
    assert_eq!(t, expected);
}

#[test]
fn traverse_skips_symlinks_and_unreadable_listings() {
    let mut link = FsEntry::file(String::from("link"), 0, 0);
    link.kind = EntryKind::Symlink;
    let mut locked = FsEntry::directory(String::from("locked"), vec![FsEntry::file(
        String::from("hidden.txt"),
        1,
        0,
    )]);
    locked.readable = false;
    let root = FsEntry::directory(String::from("r"), vec![
        link,
        locked,
        FsEntry::file(String::from("seen.txt"), 1, 0),
    ]);
    let t = Index::traverse_and_generate(&root, 3);
    let expected = IndexType::Dir(String::from("r"), vec![
        IndexType::Dir(String::from("locked"), vec![]),
        IndexType::File(String::from("seen.txt")),
    ]);
    assert_eq!(t, expected);
}

#[test]
fn snapshot_text_has_the_documented_shape() {
    let t = IndexType::Dir(String::from("root"), vec![
        IndexType::File(String::from("a.txt")),
        IndexType::Dir(String::from("sub"), vec![]),
    ]);
    assert_eq!(
        serialize_index(&t),
        "{\"Dir\":[\"root\",[{\"File\":\"a.txt\"},{\"Dir\":[\"sub\",[]]}]]}"
    );
    assert_eq!(
        serialize_index(&IndexType::File(String::from("x"))),
        "{\"File\":\"x\"}"
    );
}

#[test]
fn snapshot_escapes_quotes_and_backslashes() {
    let t = IndexType::File(String::from("a\"b\\c"));
    let text = serialize_index(&t);
    assert_eq!(text, "{\"File\":\"a\\\"b\\\\c\"}");
    assert_eq!(parse_index(&text), Ok(t));
}

#[test]
fn snapshot_round_trips_exactly() {
    let t = Index::traverse_and_generate(&sample_tree(), 2);
    let text = serialize_index(&t);
    assert_eq!(parse_index(&text), Ok(t));
}

#[test]
fn corrupt_snapshot_is_rejected() {
    assert_eq!(parse_index(""), Err(IndexError::Corrupt));
    assert_eq!(parse_index("{\"File\":\"x\"} "), Err(IndexError::Corrupt));
    assert_eq!(parse_index("{\"File\":\"x}"), Err(IndexError::Corrupt));
    assert_eq!(parse_index("{\"Dir\":[\"a\",[}"), Err(IndexError::Corrupt));
    assert_eq!(parse_index("not json"), Err(IndexError::Corrupt));
}

#[test]
fn refresh_then_check_for_updates_restores_the_same_tree() {
    let mut index = Index::new(5);
    let snapshot = index.refresh(&sample_tree(), 2);
    let built = match &index.root {
        Some(t) => serialize_index(t),
        None => panic!("refresh left no tree"),
    };
    assert_eq!(snapshot, built);

    let mut loaded = Index::new(5);
    assert!(loaded
        .check_for_updates(Some((snapshot.as_str(), 42)))
        .is_ok());
    assert_eq!(loaded.modified_date, 42);
    assert_eq!(loaded.root, index.root);
}

#[test]
fn check_for_updates_without_snapshot_is_a_no_op() {
    let mut index = Index::new(9);
    assert!(index.check_for_updates(None).is_ok());
    assert!(index.root.is_none());
    assert_eq!(index.modified_date, 9);
}

#[test]
fn check_for_updates_rejects_a_corrupt_snapshot() {
    let mut index = Index::new(9);
    let r = index.check_for_updates(Some(("garbage", 42)));
    assert_eq!(r, Err(IndexError::Corrupt));
    assert!(index.root.is_none());
    assert_eq!(index.modified_date, 9);
}
