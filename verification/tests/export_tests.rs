use git_review::comments::{Comment, CommitComments};
use git_review::diff_model::LineType;
use git_review::export::{to_json, to_json_at, to_markdown, to_markdown_at};

#[test]
fn test_markdown_export_empty() {
    let result = to_markdown(&[], "main").unwrap();
    assert!(result.contains("# Code Review: main"));
    assert!(result.contains("No comments found"));
}

#[test]
fn test_markdown_export_with_comments() {
    let mut commit_comments = CommitComments::new("abc123".to_string(), "main".to_string());

    commit_comments.add_comment(Comment::new_line(
        "src/main.rs".to_string(),
        42,
        LineType::Added,
        "This needs error handling".to_string(),
    ));

    commit_comments.add_comment(Comment::new_file(
        "src/main.rs".to_string(),
        "Consider refactoring".to_string(),
    ));

    let result = to_markdown(&[commit_comments], "main").unwrap();

    assert!(result.contains("# Code Review: main"));
    assert!(result.contains("## Commit: abc123"));
    assert!(result.contains("### src/main.rs"));
    assert!(result.contains("This needs error handling"));
    assert!(result.contains("Consider refactoring"));
}

#[test]
fn test_markdown_sorts_files_and_levels() {
    let mut cc = CommitComments::new("c1".to_string(), "main".to_string());
    cc.add_comment(Comment::new_file("zz.rs".to_string(), "on zz".to_string()));
    cc.add_comment(Comment::new_line("aa.rs".to_string(), 1, LineType::Added, "on aa".to_string()));
    let md = to_markdown_at(&[cc], "main", "2024-01-01 00:00:00");
    let aa = md.find("### aa.rs").unwrap();
    let zz = md.find("### zz.rs").unwrap();
    assert!(aa < zz, "files must be sorted by path");
    assert!(md.contains("Exported: 2024-01-01 00:00:00"));
}

#[test]
fn test_json_export_empty() {
    let result = to_json(&[]).unwrap();
    let parsed: serde_json::Value = serde_json::from_str(&result).unwrap();
    assert_eq!(parsed["commits"].as_array().unwrap().len(), 0);
}

#[test]
fn test_json_export_with_comments() {
    let mut commit_comments = CommitComments::new("abc123".to_string(), "main".to_string());

    commit_comments.add_comment(Comment::new_line(
        "src/main.rs".to_string(),
        42,
        LineType::Added,
        "Test comment".to_string(),
    ));

    let result = to_json(&[commit_comments]).unwrap();
    let parsed: serde_json::Value = serde_json::from_str(&result).unwrap();

    assert_eq!(parsed["branch"], "main");
    let commits = parsed["commits"].as_array().unwrap();
    assert_eq!(commits.len(), 1);
    assert_eq!(commits[0]["id"], "abc123");
    let files = commits[0]["files"].as_array().unwrap();
    assert_eq!(files.len(), 1);
    assert_eq!(files[0]["path"], "src/main.rs");
    let comments = files[0]["comments"].as_array().unwrap();
    assert_eq!(comments.len(), 1);
    assert_eq!(comments[0]["text"], "Test comment");
    assert_eq!(comments[0]["level"], "line");
    assert_eq!(comments[0]["line"], 42);
}

#[test]
fn test_json_export_escapes_strings() {
    let mut cc = CommitComments::new("c1".to_string(), "main".to_string());
    cc.add_comment(Comment::new_file(
        "weird \"file\".rs".to_string(),
        "text with \\ and \"quotes\"\nand newline".to_string(),
    ));
    let result = to_json_at(&[cc], "now");
    let parsed: serde_json::Value = serde_json::from_str(&result).unwrap();
    let c = &parsed["commits"][0]["files"][0]["comments"][0];
    assert_eq!(c["text"], "text with \\ and \"quotes\"\nand newline");
}
