use win_expl::fs_model::EntryKind;
use win_expl::fs_model::FsEntry;
use win_expl::search_engine::parameter_parser::SearchEngineParameter;
use win_expl::search_engine::SearchEngine;

fn init_folder_structure() -> FsEntry {
    FsEntry::directory(
        String::from("search_root"),
        vec![
            FsEntry::directory(
                String::from("Windows"),
                vec![FsEntry::file(String::from("tmp-win.txt"), 10, 0)],
            ),
            FsEntry::directory(
                String::from("bin"),
                vec![FsEntry::file(String::from("tmp-bin.txt"), 10, 0)],
            ),
            FsEntry::directory(
                String::from("tmp"),
                vec![FsEntry::file(String::from("tmp-tmptxt"), 10, 0)],
            ),
            FsEntry::directory(
                String::from("lib"),
                vec![FsEntry::file(String::from("tmp-lib.txt"), 10, 0)],
            ),
            FsEntry::directory(
                String::from("Test"),
                vec![FsEntry::file(String::from("tmp-test.txt"), 10, 0)],
            ),
        ],
    )
}

#[test]
fn test_folder_ignored() {
    let root = init_folder_structure();
    let t = ".txt!d1";
    let p = SearchEngineParameter::parse_search_term(t).expect("Failed to parse paramter");
    assert!(!p.search_windows_folder);
    assert!(!p.search_hidden_dirs);
    assert!(!p.search_bin_dirs);
    assert!(!p.search_lib_dirs);
    assert!(!p.search_readonly_dirs);
    assert!(!p.search_tmp_dirs);
    let result = SearchEngine::search(&p, &root, "search_root", 0).expect("Failed to search");
    assert!(
        result.iter().all(|r| !(r.file_type == EntryKind::Directory
            && (r.name == "tmp-win"
                || r.name.starts_with("tmp-bin")
                || r.name == "tmp-tmp"
                || r.name == "tmp-lib"))),
        "Blacklisted folder was falsely returned!"
    );
    assert!(result.len() == 1);
    assert!(result.first().unwrap().name.starts_with("tmp-test"));
}

#[test]
fn test_only_windows_folder_ignored() {
    let root = init_folder_structure();
    let t = ".txt!d1!r!h!b!l!t";
    let p = SearchEngineParameter::parse_search_term(t).expect("Failed to parse paramter");
    assert!(!p.search_windows_folder);
    let result = SearchEngine::search(&p, &root, "search_root", 0).expect("Failed to search");
    assert!(
        result
            .iter()
            .all(|r| !(r.file_type == EntryKind::Directory && r.name == "tmp-win")),
        "Blacklisted folder was falsely returned!"
    );
    assert!(result.len() == 4);
}

#[test]
fn test_only_lib_folder_ignored() {
    let root = init_folder_structure();
    let t = ".txt!d1!r!h!b!w!t";
    let p = SearchEngineParameter::parse_search_term(t).expect("Failed to parse paramter");
    assert!(!p.search_lib_dirs);
    let result = SearchEngine::search(&p, &root, "search_root", 0).expect("Failed to search");
    assert!(
        result
            .iter()
            .all(|r| !(r.file_type == EntryKind::Directory && r.name == "tmp-lib")),
        "Blacklisted folder was falsely returned!"
    );
    assert!(result.len() == 4);
}

#[test]
fn test_only_bin_folder_ignored() {
    let root = init_folder_structure();
    let t = ".txt!d1!r!h!l!w!t";
    let p = SearchEngineParameter::parse_search_term(t).expect("Failed to parse paramter");
    assert!(!p.search_bin_dirs);
    let result = SearchEngine::search(&p, &root, "search_root", 0).expect("Failed to search");
    assert!(
        result
            .iter()
            .all(|r| !(r.file_type == EntryKind::Directory && r.name == "tmp-bin")),
        "Blacklisted folder was falsely returned!"
    );
    assert!(result.len() == 4);
}

#[test]
fn test_only_tmp_folder_ignored() {
    let root = init_folder_structure();
    let t = ".txt!d1!r!h!l!w!b";
    let p = SearchEngineParameter::parse_search_term(t).expect("Failed to parse paramter");
    assert!(!p.search_tmp_dirs);
    let result = SearchEngine::search(&p, &root, "search_root", 0).expect("Failed to search");
    assert!(
        result
            .iter()
            .all(|r| !(r.file_type == EntryKind::Directory && r.name == "tmp-tmp")),
        "Blacklisted folder was falsely returned!"
    );
    assert!(result.len() == 4);
}

#[test]
fn test_depth_correctly_used() {
    let root = init_folder_structure();
    let mut t = ".txt!d0";
    let mut p = SearchEngineParameter::parse_search_term(t).expect("Failed to parse paramter");
    assert!(p.depth == 0);

    t = ".txt";
    p = SearchEngineParameter::parse_search_term(t).expect("Failed to parse paramter");
    assert!(p.depth == 0);

    t = ".txt!d=5";
    p = SearchEngineParameter::parse_search_term(t).expect("Failed to parse paramter");
    assert!(p.depth == 0);

    let result = SearchEngine::search(&p, &root, "search_root", 0).expect("Failed to search");
    assert!(result.is_empty());

    t = ".txt!d1";
    p = SearchEngineParameter::parse_search_term(t).expect("Failed to parse paramter");
    assert!(p.depth == 1);

    let result = SearchEngine::search(&p, &root, "search_root", 0).expect("Failed to search");
    assert!(result.len() == 1);

    let result = SearchEngine::search(&p, &root, "search_root", 1).expect("Failed to search");
    assert!(result.is_empty());
}

#[test]
fn search_matches_both_filters_and_reports_paths() {
    let root = FsEntry::directory(
        String::from("r"),
        vec![
            FsEntry::file(String::from("notes.txt"), 2500, 100),
            FsEntry::file(String::from("notes.md"), 10, 100),
            FsEntry::file(String::from("other.txt"), 10, 100),
        ],
    );
    let p = SearchEngineParameter::parse_search_term("notes.txt").unwrap();
    let result = SearchEngine::search(&p, &root, "r", 0).unwrap();
    assert_eq!(result.len(), 1);
    assert_eq!(result[0].name, "notes.txt");
    assert_eq!(result[0].full_path, "r\\notes.txt");
    assert_eq!(result[0].size, 2500);
    assert_eq!(result[0].modified, 100);
    assert_eq!(result[0].file_type, EntryKind::File);
}

#[test]
fn search_unreadable_root_fails_and_unreadable_subdir_is_local() {
    let mut unreadable = FsEntry::directory(String::from("locked"), Vec::new());
    unreadable.readable = false;
    let p = SearchEngineParameter::parse_search_term(".txt!d3").unwrap();
    assert!(SearchEngine::search(&p, &unreadable, "locked", 0).is_err());

    let mut locked_child = FsEntry::directory(
        String::from("locked"),
        vec![FsEntry::file(String::from("hidden.txt"), 1, 0)],
    );
    locked_child.readable = false;
    let root = FsEntry::directory(
        String::from("r"),
        vec![
            locked_child,
            FsEntry::directory(
                String::from("open"),
                vec![FsEntry::file(String::from("seen.txt"), 1, 0)],
            ),
        ],
    );
    let result = SearchEngine::search(&p, &root, "r", 0).unwrap();
    assert_eq!(result.len(), 1);
    assert_eq!(result[0].name, "seen.txt");
}

#[test]
fn search_symlinks_match_but_are_not_traversed() {
    let mut link = FsEntry::directory(
        String::from("link.txt"),
        vec![FsEntry::file(String::from("behind.txt"), 1, 0)],
    );
    link.kind = EntryKind::Symlink;
    let root = FsEntry::directory(String::from("r"), vec![link]);
    let p = SearchEngineParameter::parse_search_term(".txt!d5!r!h!b!l!t!w").unwrap();
    let result = SearchEngine::search(&p, &root, "r", 0).unwrap();
    assert_eq!(result.len(), 1);
    assert_eq!(result[0].name, "link.txt");
}

#[test]
fn search_tmp_test_dir_is_not_excluded() {
    let root = FsEntry::directory(
        String::from("r"),
        vec![
            FsEntry::directory(
                String::from("TMP"),
                vec![FsEntry::file(String::from("a.txt"), 1, 0)],
            ),
            FsEntry::directory(
                String::from("tmp-test"),
                vec![FsEntry::file(String::from("b.txt"), 1, 0)],
            ),
        ],
    );
    let p = SearchEngineParameter::parse_search_term(".txt!d1").unwrap();
    let result = SearchEngine::search(&p, &root, "r", 0).unwrap();
    assert_eq!(result.len(), 1);
    assert_eq!(result[0].name, "b.txt");
}
