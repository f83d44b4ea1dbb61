use git_review::comments::{Comment, CommentLevel, CommitComments};
use git_review::diff_model::LineType;

#[test]
fn test_comment_creation() {
    let comment =
        Comment::new_line("src/main.rs".to_string(), 42, LineType::Added, "Test".to_string());

    assert_eq!(comment.level, CommentLevel::Line);
    assert_eq!(comment.file_path, "src/main.rs");
    assert_eq!(comment.text, "Test");
}

#[test]
fn test_comment_matching() {
    let comment =
        Comment::new_line("src/main.rs".to_string(), 42, LineType::Added, "Test".to_string());

    assert!(comment.matches_line("src/main.rs", 42, LineType::Added));
    assert!(!comment.matches_line("src/main.rs", 43, LineType::Added));
    assert!(!comment.matches_line("src/main.rs", 42, LineType::Removed));
    assert!(!comment.matches_line("src/other.rs", 42, LineType::Added));
}

#[test]
fn test_commit_comments_serialization() {
    let mut commit_comments = CommitComments::new("abc123".to_string(), "main".to_string());

    commit_comments.add_comment(Comment::new_line(
        "src/main.rs".to_string(),
        42,
        LineType::Added,
        "Test comment".to_string(),
    ));

    let json = commit_comments.to_json().unwrap();
    let deserialized = CommitComments::from_json(&json).unwrap();

    assert_eq!(deserialized.commit_id, "abc123");
    assert_eq!(deserialized.branch, "main");
    assert_eq!(deserialized.comments.len(), 1);
    assert_eq!(deserialized.comments[0].text, "Test comment");
}

#[test]
fn test_comments_filtering() {
    let mut commit_comments = CommitComments::new("abc123".to_string(), "main".to_string());

    commit_comments.add_comment(Comment::new_line(
        "src/main.rs".to_string(),
        42,
        LineType::Added,
        "Line comment".to_string(),
    ));
    commit_comments.add_comment(Comment::new_file(
        "src/main.rs".to_string(),
        "File comment".to_string(),
    ));
    commit_comments.add_comment(Comment::new_line(
        "src/other.rs".to_string(),
        10,
        LineType::Removed,
        "Other file".to_string(),
    ));

    let main_comments = commit_comments.comments_for_file("src/main.rs");
    assert_eq!(main_comments.len(), 2);

    let line_comments = commit_comments.comments_at_line("src/main.rs", 42, LineType::Added);
    assert_eq!(line_comments.len(), 1);

    let file_comments = commit_comments.file_level_comments("src/main.rs");
    assert_eq!(file_comments.len(), 1);
}

#[test]
fn test_json_round_trip_all_locations() {
    let mut cc = CommitComments::new("deadbeef".to_string(), "feature/x".to_string());
    cc.add_comment(Comment::new_line(
        "a.rs".to_string(),
        7,
        LineType::Context,
        "with \"quotes\" and \\ and\nnewline\ttab".to_string(),
    ));
    cc.add_comment(Comment::new_hunk(
        "a.rs".to_string(),
        "@@ -1,2 +1,2 @@".to_string(),
        "hunk note".to_string(),
    ));
    cc.add_comment(Comment::new_file("b.rs".to_string(), "file note".to_string()));

    let json = cc.to_json().unwrap();
    let back = CommitComments::from_json(&json).unwrap();
    assert_eq!(back.commit_id, cc.commit_id);
    assert_eq!(back.branch, cc.branch);
    assert_eq!(back.comments.len(), 3);
    assert_eq!(back.comments[0].text, "with \"quotes\" and \\ and\nnewline\ttab");
    assert_eq!(back.comments[1].level, CommentLevel::Hunk);
    assert!(back.comments[2].matches_file("b.rs"));
}

#[test]
fn test_from_json_rejects_garbage() {
    assert!(CommitComments::from_json("not json at all").is_err());
    assert!(CommitComments::from_json("{\"commit_id\":\"x\"").is_err());
}

#[test]
fn test_remove_comment_bounds() {
    let mut cc = CommitComments::new("c1".to_string(), "main".to_string());
    cc.add_comment(Comment::new_file("f".to_string(), "only".to_string()));
    assert!(cc.remove_comment(5).is_none());
    assert_eq!(cc.len(), 1);
    let removed = cc.remove_comment(0).unwrap();
    assert_eq!(removed.text, "only");
    assert!(cc.is_empty());
}

#[test]
fn test_location_desc_text() {
    let line = Comment::new_line("f".to_string(), 12, LineType::Removed, "t".to_string());
    assert_eq!(line.location_desc(), "Line 12 (removed)");
    let hunk = Comment::new_hunk("f".to_string(), "@@ -1 +1 @@".to_string(), "t".to_string());
    assert_eq!(hunk.location_desc(), "Hunk: @@ -1 +1 @@");
    let file = Comment::new_file("f".to_string(), "t".to_string());
    assert_eq!(file.location_desc(), "File-level");
}

#[test]
fn test_absolute_index_translation() {
    let mut cc = CommitComments::new("c1".to_string(), "main".to_string());
    cc.add_comment(Comment::new_file("a".to_string(), "a0".to_string()));
    cc.add_comment(Comment::new_file("b".to_string(), "b0".to_string()));
    cc.add_comment(Comment::new_file("a".to_string(), "a1".to_string()));
    // the second comment of file "a" sits at absolute index 2
    assert_eq!(cc.absolute_index_for_file("a", 1), Some(2));
    assert_eq!(cc.absolute_index_for_file("b", 0), Some(1));
    assert_eq!(cc.absolute_index_for_file("b", 1), None);
    assert_eq!(cc.absolute_index_for_file("missing", 0), None);
}
