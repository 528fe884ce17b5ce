use win_expl::search_engine::parameter_parser::ParseError;
use win_expl::search_engine::parameter_parser::SearchEngineParameter;

#[test]
fn parse_plain_term_without_dot() {
    let p = SearchEngineParameter::parse_search_term("report").unwrap();
    assert_eq!(p.term.as_deref(), Some("report"));
    assert_eq!(p.extension, None);
    assert_eq!(p.depth, 0);
    assert!(!p.search_readonly_dirs);
    assert!(!p.search_hidden_dirs);
    assert!(!p.search_bin_dirs);
    assert!(!p.search_lib_dirs);
    assert!(!p.search_tmp_dirs);
    assert!(!p.search_windows_folder);
}

#[test]
fn parse_term_and_extension() {
    let p = SearchEngineParameter::parse_search_term("report.pdf").unwrap();
    assert_eq!(p.term.as_deref(), Some("report"));
    assert_eq!(p.extension.as_deref(), Some("pdf"));
}

#[test]
fn parse_extension_only() {
    let p = SearchEngineParameter::parse_search_term(".pdf").unwrap();
    assert_eq!(p.term, None);
    assert_eq!(p.extension.as_deref(), Some("pdf"));
}

#[test]
fn parse_two_dots_takes_first_two_segments() {
    let p = SearchEngineParameter::parse_search_term("a.b.c").unwrap();
    assert_eq!(p.term.as_deref(), Some("a"));
    assert_eq!(p.extension.as_deref(), Some("b"));
}

#[test]
fn parse_empty_extension_is_rejected() {
    assert!(matches!(
        SearchEngineParameter::parse_search_term("name."),
        Err(ParseError::EmptyExtension)
    ));
    assert!(matches!(
        SearchEngineParameter::parse_search_term("."),
        Err(ParseError::EmptyExtension)
    ));
    assert!(matches!(
        SearchEngineParameter::parse_search_term(".!r!h"),
        Err(ParseError::EmptyExtension)
    ));
}

#[test]
fn parse_option_flags() {
    let p = SearchEngineParameter::parse_search_term("x!r!h!b!l!t!w").unwrap();
    assert!(p.search_readonly_dirs);
    assert!(p.search_hidden_dirs);
    assert!(p.search_bin_dirs);
    assert!(p.search_lib_dirs);
    assert!(p.search_tmp_dirs);
    assert!(p.search_windows_folder);
}

#[test]
fn parse_depth_option() {
    let p = SearchEngineParameter::parse_search_term("x!d12").unwrap();
    assert_eq!(p.depth, 12);
}

#[test]
fn parse_depth_with_junk_suffix_is_ignored() {
    let p = SearchEngineParameter::parse_search_term("x!d2!d=5").unwrap();
    assert_eq!(p.depth, 2);
    let p = SearchEngineParameter::parse_search_term("x!dd").unwrap();
    assert_eq!(p.depth, 0);
    let p = SearchEngineParameter::parse_search_term("x!d").unwrap();
    assert_eq!(p.depth, 0);
}

#[test]
fn parse_unknown_options_are_ignored() {
    let p = SearchEngineParameter::parse_search_term("x!zz!!q").unwrap();
    assert_eq!(p.term.as_deref(), Some("x"));
    assert_eq!(p.depth, 0);
    assert!(!p.search_readonly_dirs);
}

#[test]
fn parse_options_are_trimmed() {
    let p = SearchEngineParameter::parse_search_term("x! r ! d3 ").unwrap();
    assert!(p.search_readonly_dirs);
    assert_eq!(p.depth, 3);
}

#[test]
fn empty_query_keeps_empty_term() {
    let p = SearchEngineParameter::parse_search_term("").unwrap();
    assert_eq!(p.term.as_deref(), Some(""));
    assert_eq!(p.extension, None);
}
