use win_expl::fs_model::EntryKind;
use win_expl::search_engine::result::SearchEngineResult;
use win_expl::sorting::next_slice;
use win_expl::sorting::sort_by_column;
use win_expl::sorting::SortDirection;

fn res(name: &str, modified: i64, size: u64) -> SearchEngineResult {
    SearchEngineResult {
        name: String::from(name),
        modified,
        file_type: EntryKind::File,
        size,
        full_path: format!("r\\{}", name),
    }
}

fn sample() -> Vec<SearchEngineResult> {
    vec![
        res("beta", 30, 5),
        res("Alpha", 10, 900),
        res("gamma", 20, 1),
    ]
}

fn names(v: &[SearchEngineResult]) -> Vec<&str> {
    v.iter().map(|r| r.name.as_str()).collect()
}

#[test]
fn sort_by_name_is_case_insensitive_and_adopts_ascending() {
    let mut state = (3usize, SortDirection::Unset);
    let out = sort_by_column(&mut state, 0, sample());
    assert_eq!(names(&out), vec!["Alpha", "beta", "gamma"]);
    assert_eq!(state.0, 0);
    assert_eq!(state.1, SortDirection::Desc);
}

#[test]
fn sort_same_column_toggles_direction() {
    let mut state = (0usize, SortDirection::Asc);
    let out = sort_by_column(&mut state, 0, sample());
    assert_eq!(names(&out), vec!["Alpha", "beta", "gamma"]);
    assert_eq!(state.1, SortDirection::Desc);
    let out = sort_by_column(&mut state, 0, out);
    assert_eq!(names(&out), vec!["gamma", "beta", "Alpha"]);
    assert_eq!(state.1, SortDirection::Asc);
    let out = sort_by_column(&mut state, 0, out);
    assert_eq!(names(&out), vec!["Alpha", "beta", "gamma"]);
    assert_eq!(state.1, SortDirection::Desc);
}

#[test]
fn sort_by_modified_and_size() {
    let mut state = (1usize, SortDirection::Asc);
    let out = sort_by_column(&mut state, 1, sample());
    assert_eq!(names(&out), vec!["Alpha", "gamma", "beta"]);

    let mut state = (3usize, SortDirection::Asc);
    let out = sort_by_column(&mut state, 3, sample());
    assert_eq!(names(&out), vec!["gamma", "beta", "Alpha"]);
}

#[test]
fn sort_unsupported_column_is_a_no_op() {
    let mut state = (0usize, SortDirection::Desc);
    let out = sort_by_column(&mut state, 2, sample());
    assert_eq!(names(&out), vec!["beta", "Alpha", "gamma"]);
    assert_eq!(state, (0usize, SortDirection::Desc));
    let out = sort_by_column(&mut state, 4, out);
    assert_eq!(names(&out), vec!["beta", "Alpha", "gamma"]);
    assert_eq!(state, (0usize, SortDirection::Desc));
}

#[test]
fn new_column_resets_to_ascending() {
    let mut state = (0usize, SortDirection::Desc);
    let out = sort_by_column(&mut state, 3, sample());
    assert_eq!(names(&out), vec!["gamma", "beta", "Alpha"]);
    assert_eq!(state, (3usize, SortDirection::Desc));
}

#[test]
fn next_slice_pages_through_results() {
    let all = sample();
    let first = next_slice(&all, 0, 2);
    assert_eq!(names(&first), vec!["beta", "Alpha"]);
    let second = next_slice(&all, 2, 2);
    assert_eq!(names(&second), vec!["gamma"]);
    let third = next_slice(&all, 3, 2);
    assert!(third.is_empty());
    let past = next_slice(&all, 50, 2);
    assert!(past.is_empty());
}
