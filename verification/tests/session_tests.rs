use win_expl::memory::cache::Cache;
use win_expl::paths::normalize_path;
use win_expl::paths::parent_path;
use win_expl::paths::path_depth;
use win_expl::resource_manager::ResourceType;
use win_expl::resource_manager::Resources;
use win_expl::settings::Settings;
use win_expl::sorting::SortDirection;

#[test]
fn path_depth_counts_separators() {
    assert_eq!(path_depth("C:"), 0);
    assert_eq!(path_depth("C:\\Users\\me"), 2);
    assert_eq!(path_depth("C:\\Users\\me\\"), 3);
}

#[test]
fn parent_path_drops_the_last_component() {
    assert_eq!(parent_path("C:\\Users\\me"), "C:\\Users");
    assert_eq!(parent_path("C:\\Users"), "C:");
    assert_eq!(parent_path("C:"), "C:");
    assert_eq!(parent_path("C:\\"), "C:");
}

#[test]
fn normalize_path_trims_and_appends_separator() {
    assert_eq!(normalize_path(" C:\\Users ").unwrap(), "C:\\Users\\");
    assert_eq!(normalize_path("C:").unwrap(), "C:\\");
    assert!(normalize_path("").is_err());
}

#[test]
fn resources_know_their_paths() {
    let r = Resources::new();
    assert_eq!(r.get_path(ResourceType::ArrowLeft).as_str(), "./assets/arrow-left.png");
    assert_eq!(r.get_path(ResourceType::ArrowRight).as_str(), "./assets/arrow-right.png");
    assert_eq!(r.get_path(ResourceType::Refresh).as_str(), "./assets/refresh.png");
    assert_eq!(r.get_path(ResourceType::Copy).as_str(), "./assets/copy.png");
}

#[test]
fn settings_append_favorites_in_order() {
    let mut s = Settings::new();
    s.add_favorite_folder(String::from("home"), String::from("C:\\Users\\me"));
    s.add_favorite_folder(String::from("work"), String::from("C:\\work"));
    assert_eq!(s.favorite_folders.len(), 2);
    assert_eq!(s.favorite_folders[0].name, "home");
    assert_eq!(s.favorite_folders[0].path, "C:\\Users\\me");
    assert_eq!(s.favorite_folders[1].name, "work");
}

#[test]
fn fresh_session_state_is_empty() {
    let c = Cache::new(123);
    assert!(c.current_results.is_empty());
    assert_eq!(c.result_sort_direction, (0, SortDirection::Unset));
    assert!(c.settings.favorite_folders.is_empty());
    assert!(c.index.root.is_none());
    assert_eq!(c.index.modified_date, 123);
}
