use git_review::comments::{Comment, CommitComments};
use git_review::diff_model::LineType;
use git_review::notes::{
    branch_ref_name, clear_branch_notes, delete_comment, read_comments, write_comments,
};

fn create_test_repo() -> (tempfile::TempDir, git2::Repository) {
    let dir = tempfile::TempDir::new().unwrap();
    let repo = git2::Repository::init(dir.path()).unwrap();

    let mut config = repo.config().unwrap();
    config.set_str("user.name", "Test User").unwrap();
    config.set_str("user.email", "test@example.com").unwrap();

    (dir, repo)
}

fn create_test_commit(repo: &git2::Repository) -> git2::Oid {
    let blob = repo.blob(b"test content").unwrap();
    let mut builder = repo.treebuilder(None).unwrap();
    builder.insert("test.txt", blob, 0o100644).unwrap();
    let tree_id = builder.write().unwrap();
    let tree = repo.find_tree(tree_id).unwrap();
    let sig = repo.signature().unwrap();

    repo.commit(Some("HEAD"), &sig, &sig, "Test commit", &tree, &[]).unwrap()
}

#[test]
fn test_branch_ref_name() {
    assert_eq!(branch_ref_name("main").unwrap(), "refs/notes/git-review/main");
    assert_eq!(branch_ref_name("feature/test").unwrap(), "refs/notes/git-review/feature-test");
    assert_eq!(branch_ref_name("feat\\test").unwrap(), "refs/notes/git-review/feat-test");
}

#[test]
fn test_branch_ref_name_rejections() {
    assert!(branch_ref_name("").is_err());
    assert!(branch_ref_name("-x").is_err());
    assert!(branch_ref_name("x-").is_err());
    assert!(branch_ref_name(".x").is_err());
    assert!(branch_ref_name("x.").is_err());
    assert!(branch_ref_name("..").is_err());
    assert!(branch_ref_name("a..b").is_err());
    let long = "a".repeat(201);
    assert!(branch_ref_name(&long).is_err());
}

#[test]
fn test_branch_ref_name_collapses_dashes() {
    assert_eq!(branch_ref_name("a//b").unwrap(), "refs/notes/git-review/a-b");
    assert_eq!(branch_ref_name("sp ace").unwrap(), "refs/notes/git-review/sp-ace");
    assert_eq!(branch_ref_name("odd%name").unwrap(), "refs/notes/git-review/odd_name");
}

#[test]
fn test_write_and_read_comments() {
    let (_dir, repo) = create_test_repo();
    let commit_oid = create_test_commit(&repo);

    let mut comments = CommitComments::new(commit_oid.to_string(), "main".to_string());
    comments.add_comment(Comment::new_line(
        "test.txt".to_string(),
        1,
        LineType::Added,
        "Test comment".to_string(),
    ));

    write_comments(&repo, "main", commit_oid, &comments).unwrap();

    let read_back = read_comments(&repo, "main", commit_oid).unwrap();
    assert!(read_back.is_some());

    let read_back = read_back.unwrap();
    assert_eq!(read_back.comments.len(), 1);
    assert_eq!(read_back.comments[0].text, "Test comment");
}

#[test]
fn test_read_nonexistent_comments() {
    let (_dir, repo) = create_test_repo();
    let commit_oid = create_test_commit(&repo);

    let comments = read_comments(&repo, "main", commit_oid).unwrap();
    assert!(comments.is_none());
}

#[test]
fn test_clear_branch_notes() {
    let (_dir, repo) = create_test_repo();
    let commit_oid = create_test_commit(&repo);

    let mut comments = CommitComments::new(commit_oid.to_string(), "main".to_string());
    comments.add_comment(Comment::new_file("test.txt".to_string(), "Test".to_string()));

    write_comments(&repo, "main", commit_oid, &comments).unwrap();

    let deleted = clear_branch_notes(&repo, "main").unwrap();
    assert_eq!(deleted, 1, "Should have deleted exactly 1 note");

    let comments = read_comments(&repo, "main", commit_oid).unwrap();
    assert!(comments.is_none(), "Comments should be deleted");
}

#[test]
fn test_delete_last_comment_removes_unit() {
    let (_dir, repo) = create_test_repo();
    let commit_oid = create_test_commit(&repo);

    let mut comments = CommitComments::new(commit_oid.to_string(), "main".to_string());
    comments.add_comment(Comment::new_file("test.txt".to_string(), "only one".to_string()));
    write_comments(&repo, "main", commit_oid, &comments).unwrap();

    // deleting the last comment removes the persisted unit entirely
    let removed = delete_comment(&repo, "main", commit_oid, 0).unwrap();
    assert!(removed);
    let read_back = read_comments(&repo, "main", commit_oid).unwrap();
    assert!(read_back.is_none());

    // a second delete finds nothing
    let removed = delete_comment(&repo, "main", commit_oid, 0).unwrap();
    assert!(!removed);
}

#[test]
fn test_delete_comment_rewrites_remaining() {
    let (_dir, repo) = create_test_repo();
    let commit_oid = create_test_commit(&repo);

    let mut comments = CommitComments::new(commit_oid.to_string(), "main".to_string());
    comments.add_comment(Comment::new_file("test.txt".to_string(), "first".to_string()));
    comments.add_comment(Comment::new_file("test.txt".to_string(), "second".to_string()));
    write_comments(&repo, "main", commit_oid, &comments).unwrap();

    let removed = delete_comment(&repo, "main", commit_oid, 0).unwrap();
    assert!(removed);
    let read_back = read_comments(&repo, "main", commit_oid).unwrap().unwrap();
    assert_eq!(read_back.comments.len(), 1);
    assert_eq!(read_back.comments[0].text, "second");

    // an out-of-range index is a no-op
    let removed = delete_comment(&repo, "main", commit_oid, 9).unwrap();
    assert!(!removed);
}
