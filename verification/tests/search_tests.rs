use git_review::diff_parser::parse_diff;
use git_review::search::{
    find_matches_in_line, get_matches_for_line, next_match_index, prev_match_index, search_diff,
    SearchMatch,
};

#[test]
fn test_search_scenario_replace_block() {
    // the removed line and the added line each carry one match, in the
    // global row numbering: paths on rows 0-1, blank 2, header 3,
    // content rows 4..8
    let diff_text = "diff --git a/f b/f\n--- a/f\n+++ b/f\n@@ -1,3 +1,3 @@\n line1\n-line2\n+line2 modified\n line3\n";
    let files = parse_diff(diff_text).unwrap();
    let matches = search_diff(&files, "line2");
    assert_eq!(matches.len(), 2);
    assert_eq!(matches[0].line_index, 5);
    assert_eq!(matches[0].char_start, 0);
    assert_eq!(matches[0].char_end, 5);
    assert_eq!(matches[1].line_index, 6);
    assert_eq!(matches[1].char_start, 0);
}

#[test]
fn test_search_case_insensitive() {
    let diff_text = "diff --git a/f b/f\n--- a/f\n+++ b/f\n@@ -1,1 +1,1 @@\n-Hello World\n+HELLO world\n";
    let files = parse_diff(diff_text).unwrap();
    let matches = search_diff(&files, "hello");
    assert_eq!(matches.len(), 2);
}

#[test]
fn test_search_matches_paths_and_headers() {
    let diff_text = "diff --git a/needle.rs b/needle.rs\n--- a/needle.rs\n+++ b/needle.rs\n@@ -1,1 +1,1 @@\n-x\n+y\n";
    let files = parse_diff(diff_text).unwrap();
    let m = search_diff(&files, "needle");
    // both path rows match
    assert_eq!(m.len(), 2);
    assert_eq!(m[0].line_index, 0);
    assert_eq!(m[1].line_index, 1);
    let h = search_diff(&files, "@@");
    // the header row holds two occurrences of "@@"
    assert_eq!(h.len(), 2);
    assert_eq!(h[0].line_index, 3);
}

#[test]
fn test_find_matches_overlapping() {
    let mut matches: Vec<SearchMatch> = Vec::new();
    find_matches_in_line("aaaa", 7, "aa", &mut matches);
    assert_eq!(matches.len(), 3);
    assert_eq!(matches[0].char_start, 0);
    assert_eq!(matches[1].char_start, 1);
    assert_eq!(matches[2].char_start, 2);
    assert!(matches.iter().all(|m| m.line_index == 7));
}

#[test]
fn test_match_navigation_wraps() {
    assert_eq!(next_match_index(None, 0), None);
    assert_eq!(next_match_index(None, 3), Some(0));
    assert_eq!(next_match_index(Some(0), 3), Some(1));
    assert_eq!(next_match_index(Some(2), 3), Some(0));
    assert_eq!(prev_match_index(None, 0), None);
    assert_eq!(prev_match_index(Some(0), 3), Some(2));
    assert_eq!(prev_match_index(Some(2), 3), Some(1));
}

#[test]
fn test_get_matches_for_line_filters() {
    let ms = vec![
        SearchMatch { line_index: 1, char_start: 0, char_end: 2 },
        SearchMatch { line_index: 2, char_start: 3, char_end: 5 },
        SearchMatch { line_index: 1, char_start: 7, char_end: 9 },
    ];
    let spans = get_matches_for_line(&ms, 1);
    assert_eq!(spans, vec![(0, 2), (7, 9)]);
    assert!(get_matches_for_line(&ms, 9).is_empty());
}
