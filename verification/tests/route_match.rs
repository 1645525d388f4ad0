use common::route_match::{columns, segments_match, strip_api_prefixes, Seg};

#[test]
fn strips_leading_slash_and_v2_prefix() {
    assert_eq!(strip_api_prefixes("default/_bulk"), "default/_bulk");
    assert_eq!(strip_api_prefixes("/default/_bulk"), "default/_bulk");
    assert_eq!(strip_api_prefixes("/v2/default/_bulk"), "default/_bulk");
    // `v2` as an org name is not a prefix.
    assert_eq!(strip_api_prefixes("/v2suffix/_bulk"), "v2suffix/_bulk");
}

#[test]
fn drops_a_single_trailing_empty_segment() {
    assert_eq!(columns("a/b"), vec!["a", "b"]);
    assert_eq!(columns("a/b/"), vec!["a", "b"]);
    assert_eq!(columns("a//"), vec!["a", ""]);
    assert_eq!(columns(""), vec![""]);
}

#[test]
fn matching_is_positional_and_length_exact() {
    let pattern = &[Seg::Param, Seg::Lit("traces"), Seg::Lit("latest")];
    assert!(segments_match(pattern, &["default", "traces", "latest"], |_| false));
    assert!(!segments_match(pattern, &["default", "traces"], |_| false));
    assert!(!segments_match(
        pattern,
        &["default", "traces", "latest", "extra"],
        |_| false
    ));
    assert!(!segments_match(&[Seg::Param], &[""], |_| false));
}

#[test]
fn subject_segments_fail_closed_without_a_predicate() {
    assert!(!segments_match(&[Seg::Subject], &["me@example.com"], |_| false));
    assert!(segments_match(&[Seg::Subject], &["me@example.com"], |col| col
        == "me@example.com"));
}

#[test]
fn strip_leaves_other_paths_alone_and_strips_only_one_level() {
    assert_eq!(strip_api_prefixes(""), "");
    assert_eq!(strip_api_prefixes("/"), "");
    assert_eq!(strip_api_prefixes("v2"), "v2");
    assert_eq!(strip_api_prefixes("v2/"), "");
    assert_eq!(strip_api_prefixes("//default"), "/default");
    assert_eq!(strip_api_prefixes("/v2/v2/x"), "v2/x");
    assert_eq!(strip_api_prefixes("v2/default/_search/"), "default/_search/");
    assert_eq!(strip_api_prefixes("/ünï/cödé"), "ünï/cödé");
}

#[test]
fn stripped_path_is_a_suffix_of_the_path() {
    for path in ["", "/", "v2/", "/v2/a/b", "a/b", "//x", "/v2x"] {
        let stripped = strip_api_prefixes(path);
        assert!(path.ends_with(stripped), "{path:?} -> {stripped:?}");
    }
}

#[test]
fn columns_rejoin_to_the_path_without_one_trailing_slash() {
    for (path, expected) in [
        ("a/b/c", "a/b/c"),
        ("a/b/", "a/b"),
        ("a//", "a/"),
        ("/", ""),
        ("", ""),
        ("/x", "/x"),
        ("é/ü/", "é/ü"),
    ] {
        let cols = columns(path);
        assert!(!cols.is_empty());
        assert!(cols.iter().all(|c| !c.contains('/')));
        assert_eq!(cols.join("/"), expected);
    }
    assert_eq!(columns("/x"), vec!["", "x"]);
    assert_eq!(columns("é/ü/"), vec!["é", "ü"]);
}

#[test]
fn one_trailing_slash_does_not_change_the_columns() {
    assert_eq!(columns("org/_search/"), columns("org/_search"));
    assert_eq!(columns("org/"), columns("org"));
    assert_ne!(columns("org//"), columns("org/"));
}

#[test]
fn literals_match_exactly_and_params_need_content() {
    let pattern = &[Seg::Param, Seg::Lit("_search")];
    assert!(segments_match(pattern, &["org", "_search"], |_| true));
    assert!(!segments_match(pattern, &["org", "_SEARCH"], |_| true));
    assert!(!segments_match(pattern, &["org", "_search_x"], |_| true));
    assert!(!segments_match(pattern, &["", "_search"], |_| true));
    assert!(!segments_match(pattern, &["_search", "org"], |_| true));
    assert!(segments_match(&[], &[], |_| false));
}

#[test]
fn the_predicate_sees_the_subject_column() {
    let pattern = &[Seg::Param, Seg::Lit("users"), Seg::Subject];
    assert!(segments_match(pattern, &["o", "users", "me"], |c| c == "me"));
    assert!(!segments_match(pattern, &["o", "users", "you"], |c| c == "me"));
    assert!(!segments_match(pattern, &["o", "user", "me"], |c| c == "me"));
}
