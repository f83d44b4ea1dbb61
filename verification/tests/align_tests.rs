use git_review::align::create_side_by_side_lines;
use git_review::diff_parser::parse_diff;

#[test]
fn test_columns_advance_together() {
    let diff_text = "diff --git a/f b/f\n--- a/f\n+++ b/f\n@@ -1,3 +1,3 @@\n line1\n-line2\n+line2 modified\n line3\n";
    let files = parse_diff(diff_text).unwrap();
    let (left, right) = create_side_by_side_lines(&files[0], 0, 100, 30, 0);
    assert_eq!(left.len(), right.len());
    // header, three aligned content rows, trailing blank
    assert_eq!(left.len(), 5);
    assert!(left.iter().all(|r| r.chars().count() == 30));
    assert!(right.iter().all(|r| r.chars().count() == 30));
}

#[test]
fn test_replace_block_pairs_rows() {
    let diff_text = "diff --git a/f b/f\n--- a/f\n+++ b/f\n@@ -1,2 +1,3 @@\n-old1\n-old2\n+new1\n+new2\n+new3\n";
    let files = parse_diff(diff_text).unwrap();
    let (left, right) = create_side_by_side_lines(&files[0], 0, 100, 20, 0);
    // header + max(2,3) paired rows + blank
    assert_eq!(left.len(), 5);
    assert_eq!(right.len(), 5);
    assert!(left[1].contains("-old1"));
    assert!(right[1].contains("+new1"));
    assert!(left[2].contains("-old2"));
    assert!(right[2].contains("+new2"));
    // the removed run is shorter: its third row is blank padding
    assert_eq!(left[3].trim(), "");
    assert!(right[3].contains("+new3"));
}

#[test]
fn test_standalone_added_pads_left() {
    let diff_text = "diff --git a/f b/f\n--- a/f\n+++ b/f\n@@ -1,1 +1,2 @@\n ctx\n+added\n";
    let files = parse_diff(diff_text).unwrap();
    let (left, right) = create_side_by_side_lines(&files[0], 0, 100, 20, 0);
    assert_eq!(left[2].trim(), "");
    assert!(right[2].contains("+added"));
}

#[test]
fn test_window_slices_rows() {
    let diff_text = "diff --git a/f b/f\n--- a/f\n+++ b/f\n@@ -1,3 +1,3 @@\n line1\n-line2\n+line2 modified\n line3\n";
    let files = parse_diff(diff_text).unwrap();
    let (full_l, _) = create_side_by_side_lines(&files[0], 0, 100, 30, 0);
    let (win_l, win_r) = create_side_by_side_lines(&files[0], 1, 2, 30, 0);
    assert_eq!(win_l.len(), 2);
    assert_eq!(win_r.len(), 2);
    assert_eq!(win_l[0], full_l[1]);
    assert_eq!(win_l[1], full_l[2]);
}

#[test]
fn test_horizontal_scroll_markers() {
    let diff_text = "diff --git a/f b/f\n--- a/f\n+++ b/f\n@@ -1,1 +1,1 @@\n-abcdefghijklmnopqrstuvwxyz\n+short\n";
    let files = parse_diff(diff_text).unwrap();
    // narrow column, scrolled right: the content area begins with `<`
    let (left, _right) = create_side_by_side_lines(&files[0], 0, 100, 12, 3);
    let row = &left[1];
    assert_eq!(row.chars().count(), 12);
    // after the five-column gutter the scrolled content starts with '<'
    assert_eq!(row.chars().nth(5), Some('<'));
    // long content clipped on the right ends with '>'
    let (left2, _right2) = create_side_by_side_lines(&files[0], 0, 100, 12, 0);
    let row2: Vec<char> = left2[1].chars().collect();
    assert_eq!(row2[11], '>');
}
