use git_review::diff_model::{Hunk, LineType};
use git_review::diff_parser::parse_diff;

#[test]
fn test_parse_simple_diff() {
    let diff_text = "diff --git a/test.txt b/test.txt\n--- a/test.txt\n+++ b/test.txt\n@@ -1,3 +1,3 @@\n line 1\n-line 2\n+line 2 modified\n line 3\n";

    let files = parse_diff(diff_text).unwrap();
    assert_eq!(files.len(), 1);

    let file = &files[0];
    assert_eq!(file.old_path, "test.txt");
    assert_eq!(file.new_path, "test.txt");
    assert_eq!(file.hunks.len(), 1);

    let hunk = &file.hunks[0];
    assert_eq!(hunk.old_start, 1);
    assert_eq!(hunk.old_lines, 3);
    assert_eq!(hunk.new_start, 1);
    assert_eq!(hunk.new_lines, 3);
    assert_eq!(hunk.lines.len(), 4);

    assert_eq!(hunk.lines[0].line_type, LineType::Context);
    assert_eq!(hunk.lines[1].line_type, LineType::Removed);
    assert_eq!(hunk.lines[2].line_type, LineType::Added);
    assert_eq!(hunk.lines[3].line_type, LineType::Context);
}

#[test]
fn test_hunk_expansion_available() {
    let hunk = Hunk {
        old_start: 10,
        old_lines: 5,
        new_start: 10,
        new_lines: 5,
        header: "@@ -10,5 +10,5 @@".to_string(),
        lines: Vec::new(),
    };

    assert!(hunk.can_expand_above());
    assert_eq!(hunk.available_lines_above(), 9);
}

#[test]
fn test_parse_scenario_single_replace() {
    let diff_text = "diff --git a/f b/f\n--- a/f\n+++ b/f\n@@ -1,3 +1,3 @@\n line1\n-line2\n+line2 modified\n line3\n";
    let files = parse_diff(diff_text).unwrap();
    assert_eq!(files.len(), 1);
    assert_eq!(files[0].hunks.len(), 1);
    let hunk = &files[0].hunks[0];
    assert_eq!(hunk.lines.len(), 4);
    assert_eq!(hunk.lines[0].line_type, LineType::Context);
    assert_eq!(hunk.lines[1].line_type, LineType::Removed);
    assert_eq!(hunk.lines[2].line_type, LineType::Added);
    assert_eq!(hunk.lines[3].line_type, LineType::Context);
}

#[test]
fn test_parse_line_numbers_stamped() {
    let diff_text = "diff --git a/f b/f\n--- a/f\n+++ b/f\n@@ -10,3 +20,3 @@\n ctx\n-gone\n+new\n ctx2\n";
    let files = parse_diff(diff_text).unwrap();
    let hunk = &files[0].hunks[0];
    assert_eq!(hunk.lines[0].old_line_num, Some(10));
    assert_eq!(hunk.lines[0].new_line_num, Some(20));
    assert_eq!(hunk.lines[1].old_line_num, Some(11));
    assert_eq!(hunk.lines[1].new_line_num, None);
    assert_eq!(hunk.lines[2].old_line_num, None);
    assert_eq!(hunk.lines[2].new_line_num, Some(21));
    assert_eq!(hunk.lines[3].old_line_num, Some(12));
    assert_eq!(hunk.lines[3].new_line_num, Some(22));
}

#[test]
fn test_parse_header_without_counts() {
    // an abbreviated header means a single-line hunk on each side
    let diff_text = "diff --git a/f b/f\n--- a/f\n+++ b/f\n@@ -5 +7 @@\n-x\n+y\n";
    let files = parse_diff(diff_text).unwrap();
    let hunk = &files[0].hunks[0];
    assert_eq!(hunk.old_start, 5);
    assert_eq!(hunk.old_lines, 1);
    assert_eq!(hunk.new_start, 7);
    assert_eq!(hunk.new_lines, 1);
}

#[test]
fn test_parse_malformed_header_dropped() {
    // a header without a space separator starts no hunk, and its lines
    // are dropped with it
    let diff_text = "diff --git a/f b/f\n--- a/f\n+++ b/f\n@@malformed@@\n line\n";
    let files = parse_diff(diff_text).unwrap();
    assert_eq!(files.len(), 1);
    assert_eq!(files[0].hunks.len(), 0);
}

#[test]
fn test_parse_new_file_lines_estimate() {
    let diff_text = "diff --git a/f b/f\n--- a/f\n+++ b/f\n@@ -1,3 +1,5 @@\n a\n+b\n+c\n a2\n a3\n";
    let files = parse_diff(diff_text).unwrap();
    assert_eq!(files[0].new_file_lines, Some(6));
}

#[test]
fn test_parse_two_files() {
    let diff_text = "diff --git a/one b/one\n--- a/one\n+++ b/one\n@@ -1 +1 @@\n-a\n+b\ndiff --git a/two b/two\n--- a/two\n+++ b/two\n@@ -1 +1 @@\n-c\n+d\n";
    let files = parse_diff(diff_text).unwrap();
    assert_eq!(files.len(), 2);
    assert_eq!(files[0].old_path, "one");
    assert_eq!(files[1].new_path, "two");
    assert_eq!(files[0].hunks.len(), 1);
    assert_eq!(files[1].hunks.len(), 1);
}

#[test]
fn test_hunk_round_trip_through_text() {
    // serialize a hunk, parse it back, and compare the header numbers and
    // the line count
    let hunk = Hunk {
        old_start: 3,
        old_lines: 2,
        new_start: 4,
        new_lines: 3,
        header: String::new(),
        lines: vec![
            git_review::diff_model::HunkLine {
                line_type: LineType::Context,
                old_line_num: Some(3),
                new_line_num: Some(4),
                content: "keep".to_string(),
            },
            git_review::diff_model::HunkLine {
                line_type: LineType::Removed,
                old_line_num: Some(4),
                new_line_num: None,
                content: "old".to_string(),
            },
            git_review::diff_model::HunkLine {
                line_type: LineType::Added,
                old_line_num: None,
                new_line_num: Some(5),
                content: "new one".to_string(),
            },
            git_review::diff_model::HunkLine {
                line_type: LineType::Added,
                old_line_num: None,
                new_line_num: Some(6),
                content: "new two".to_string(),
            },
        ],
    };
    let text = git_review::diff_parser::hunk_to_text(&hunk);
    let mut full = String::from("diff --git a/f b/f\n--- a/f\n+++ b/f\n");
    full.push_str(&text);
    let files = parse_diff(&full).unwrap();
    assert_eq!(files.len(), 1);
    assert_eq!(files[0].hunks.len(), 1);
    let back = &files[0].hunks[0];
    assert_eq!(back.old_start, 3);
    assert_eq!(back.old_lines, 2);
    assert_eq!(back.new_start, 4);
    assert_eq!(back.new_lines, 3);
    assert_eq!(back.lines.len(), 4);
    assert_eq!(back.lines[1].content, "old");
    assert_eq!(back.lines[2].content, "new one");
}
