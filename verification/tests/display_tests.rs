use win_expl::display::prep_data;
use win_expl::fs_model::EntryKind;
use win_expl::search_engine::result::SearchEngineResult;

fn entry(name: &str, kind: EntryKind, modified: i64, size: u64) -> SearchEngineResult {
    SearchEngineResult {
        name: String::from(name),
        modified,
        file_type: kind,
        size,
        full_path: format!("c\\{}", name),
    }
}

#[test]
fn rows_render_time_kind_and_size() {
    let results = vec![
        entry("a.txt", EntryKind::File, 0, 2500),
        entry("d", EntryKind::Directory, 86400, 0),
        entry("l", EntryKind::Symlink, 946684800, 500),
        entry("o", EntryKind::Other, 1700000000, 7),
    ];
    let rows = prep_data(&results, 0, 50);
    assert_eq!(rows.len(), 4);

    assert_eq!(rows[0].ind, 0);
    assert_eq!(
        rows[0].items,
        vec!["a.txt", "1970-01-01 00:00", "File", "2 KiB", "c\\a.txt"]
    );
    assert_eq!(
        rows[1].items,
        vec!["d", "1970-01-02 00:00", "Directory", "", "c\\d"]
    );
    assert_eq!(
        rows[2].items,
        vec!["l", "2000-01-01 00:00", "Symlink", "1 KiB", "c\\l"]
    );
    assert_eq!(
        rows[3].items,
        vec!["o", "2023-11-14 22:13", "Unknown", "", "c\\o"]
    );
}

#[test]
fn rows_skip_and_take_number_from_zero() {
    let results = vec![
        entry("one.txt", EntryKind::File, 0, 1),
        entry("two.txt", EntryKind::File, 0, 1),
        entry("three.txt", EntryKind::File, 0, 1),
    ];
    let rows = prep_data(&results, 1, 1);
    assert_eq!(rows.len(), 1);
    assert_eq!(rows[0].ind, 0);
    assert_eq!(rows[0].items[0], "two.txt");

    let rows = prep_data(&results, 2, 50);
    assert_eq!(rows.len(), 1);
    assert_eq!(rows[0].items[0], "three.txt");

    let rows = prep_data(&results, 5, 50);
    assert!(rows.is_empty());
}

#[test]
fn small_file_size_rounds_up_to_one_kib() {
    let results = vec![entry("tiny.txt", EntryKind::File, 60, 3)];
    let rows = prep_data(&results, 0, 10);
    assert_eq!(rows[0].items[1], "1970-01-01 00:01");
    assert_eq!(rows[0].items[3], "1 KiB");
}
