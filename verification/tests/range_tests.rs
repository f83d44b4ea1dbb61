use git_review::commits::{parse_range, CommitInfo};
use git_review::config::DiffOptions;

#[test]
fn test_parse_range_explicit() {
    let result = parse_range("HEAD~5..HEAD").unwrap();
    assert_eq!(result.0, "HEAD~5");
    assert_eq!(result.1, "HEAD");
}

#[test]
fn test_parse_range_single_target() {
    let result = parse_range("origin/main").unwrap();
    assert_eq!(result.0, "HEAD");
    assert_eq!(result.1, "origin/main");
}

#[test]
fn test_parse_range_with_tags() {
    let result = parse_range("v1.0..v2.0").unwrap();
    assert_eq!(result.0, "v1.0");
    assert_eq!(result.1, "v2.0");
}

#[test]
fn test_parse_range_invalid_empty_start() {
    let result = parse_range("..HEAD");
    assert!(result.is_err());
    assert!(result
        .unwrap_err()
        .message()
        .contains("Both start and end refs must be specified"));
}

#[test]
fn test_parse_range_invalid_empty_end() {
    let result = parse_range("HEAD..");
    assert!(result.is_err());
    assert!(result
        .unwrap_err()
        .message()
        .contains("Both start and end refs must be specified"));
}

#[test]
fn test_parse_range_invalid_too_many_dots() {
    let result = parse_range("HEAD~5..HEAD~2..HEAD");
    assert!(result.is_err());
    assert!(result.unwrap_err().message().contains("Invalid range format"));
}

#[test]
fn test_diff_options_default() {
    let opts = DiffOptions::default();
    assert_eq!(opts.context_lines, 8);
}

#[test]
fn test_commit_info_summary() {
    let commit = CommitInfo {
        id: "0000000000000000000000000000000000000000".to_string(),
        short_id: "abc123".to_string(),
        message: "First line\nSecond line\nThird line".to_string(),
        author_name: "Test Author".to_string(),
        time_seconds: 0,
    };

    assert_eq!(commit.summary(), "First line");
}

#[test]
fn test_commit_info_summary_single_line() {
    let commit = CommitInfo {
        id: "0000000000000000000000000000000000000000".to_string(),
        short_id: "abc123".to_string(),
        message: "Single line message".to_string(),
        author_name: "Test Author".to_string(),
        time_seconds: 0,
    };

    assert_eq!(commit.summary(), "Single line message");
}

#[test]
fn test_relative_time_buckets() {
    assert_eq!(CommitInfo::relative_time_from(1000, 990), "just now");
    assert_eq!(CommitInfo::relative_time_from(1000 + 120, 1000), "2 minutes ago");
    assert_eq!(CommitInfo::relative_time_from(7200, 0), "2 hours ago");
    assert_eq!(CommitInfo::relative_time_from(86400 * 3, 0), "3 days ago");
    assert_eq!(CommitInfo::relative_time_from(2592000 * 2, 0), "2 months ago");
    assert_eq!(CommitInfo::relative_time_from(31536000 * 5, 0), "5 years ago");
}
