//! The comment store: one persisted unit per (commit, branch), carried as
//! a git note under a branch-derived namespace.  The storage-key
//! derivation and every decision around the repository calls are verified;
//! the repository calls themselves are trusted items over `git2`.

use vstd::prelude::*;

use crate::comments::CommitComments;
use crate::commits::first_dotdot;
use crate::errors::ReviewError;
use crate::strutil::{append_str, chars_to_string};

verus! {

// ---------------------------------------------------------------------------
// Storage-key derivation (pure)
// ---------------------------------------------------------------------------

/// Character mapping of the sanitizer: word characters and dots pass
/// through, path-like separators become `-`, everything else `_`.
pub open spec fn map_branch_char(c: char) -> char {
    if ('a' <= c && c <= 'z') || ('A' <= c && c <= 'Z') || ('0' <= c && c <= '9') || c == '_' || c
        == '.' {
        c
    } else if c == '/' || c == '-' || c == '\\' || c == ' ' {
        '-'
    } else {
        '_'
    }
}

/// Collapse runs of `-` and drop leading/trailing `-`: `pending` records a
/// dash run awaiting a following word character, `started` whether any
/// word character has been emitted yet.
pub open spec fn collapse_dashes(s: Seq<char>, i: int, pending: bool, started: bool) -> Seq<char>
    decreases s.len() - i,
{
    if i < 0 || i >= s.len() {
        Seq::empty()
    } else if s[i] == '-' {
        collapse_dashes(s, i + 1, true, started)
    } else {
        (if pending && started {
            seq!['-']
        } else {
            Seq::empty()
        }) + seq![s[i]] + collapse_dashes(s, i + 1, false, true)
    }
}

/// The sanitized form of a branch name.
pub open spec fn spec_sanitized(b: Seq<char>) -> Seq<char> {
    collapse_dashes(b.map_values(|c: char| map_branch_char(c)), 0, false, false)
}

/// Which rejection, if any, a branch name meets, in check order: empty,
/// `-` edges, `.` edges, `..` inside, then an over-long or empty result
/// after sanitization.
pub open spec fn spec_branch_check(b: Seq<char>) -> Option<ReviewError> {
    if b.len() == 0 {
        Some(ReviewError::BranchNameEmpty)
    } else if b[0] == '-' || b.last() == '-' {
        Some(ReviewError::BranchNameDashEdge)
    } else if b[0] == '.' || b.last() == '.' {
        Some(ReviewError::BranchNameDotEdge)
    } else if first_dotdot(b) >= 0 {
        Some(ReviewError::BranchNameDotDot)
    } else if spec_sanitized(b).len() > 200 {
        Some(ReviewError::BranchNameTooLong)
    } else if spec_sanitized(b).len() == 0 {
        Some(ReviewError::BranchNameEmptyAfter)
    } else {
        None
    }
}

fn map_branch_char_exec(c: char) -> (r: char)
    ensures
        r == map_branch_char(c),
{
    if ('a' <= c && c <= 'z') || ('A' <= c && c <= 'Z') || ('0' <= c && c <= '9') || c == '_' || c
        == '.' {
        c
    } else if c == '/' || c == '-' || c == '\\' || c == ' ' {
        '-'
    } else {
        '_'
    }
}

/// Derive the notes-ref name that stores a branch's review comments.
/// Accepted names yield `refs/notes/git-review/<sanitized>`; the
/// rejections are exactly those of [`spec_branch_check`].
#[verifier::loop_isolation(false)]
#[verifier::rlimit(100)]
pub fn branch_ref_name(branch: &str) -> (r: Result<String, ReviewError>)
    ensures
        match spec_branch_check(branch@) {
            Some(e) => r == Err::<String, ReviewError>(e),
            None => r matches Ok(name) && name@ == "refs/notes/git-review/"@ + spec_sanitized(
                branch@,
            ),
        },
{
    let chars = crate::strutil::to_chars(branch);
    let s = chars.as_slice();
    let n = s.len();
    if n == 0 {
        return Err(ReviewError::BranchNameEmpty);
    }
    if s[0] == '-' || s[n - 1] == '-' {
        return Err(ReviewError::BranchNameDashEdge);
    }
    if s[0] == '.' || s[n - 1] == '.' {
        return Err(ReviewError::BranchNameDotEdge);
    }
    let mut i: usize = 0;
    while i < n - 1
        invariant
            i <= n,
            n == branch@.len(),
            s@ == branch@,
            forall|j: int| 0 <= j < i ==> !(#[trigger] branch@[j] == '.' && branch@[j + 1] == '.'),
        decreases n - i,
    {
        if s[i] == '.' && s[i + 1] == '.' {
            proof {
                crate::commits::lemma_first_dotdot_eq(branch@, i as int);
            }
            return Err(ReviewError::BranchNameDotDot);
        }
        i += 1;
    }
    proof {
        crate::commits::lemma_no_dotdot(branch@);
    }
    // sanitize: map characters, then collapse dash runs
    let ghost mapped = branch@.map_values(|c: char| map_branch_char(c));
    let mut out: Vec<char> = Vec::new();
    let mut k: usize = 0;
    let mut pending: bool = false;
    let mut started: bool = false;
    proof {
        assert(mapped.len() == branch@.len());
        assert(out@ + collapse_dashes(mapped, 0, false, false) =~= spec_sanitized(branch@));
    }
    while k < n
        invariant
            k <= n,
            n == branch@.len(),
            s@ == branch@,
            mapped == branch@.map_values(|c: char| map_branch_char(c)),
            out@ + collapse_dashes(mapped, k as int, pending, started) == spec_sanitized(branch@),
        decreases n - k,
    {
        let mc = map_branch_char_exec(s[k]);
        proof {
            assert(mapped[k as int] == map_branch_char(branch@[k as int]));
        }
        if mc == '-' {
            pending = true;
        } else {
            let ghost pre = out@;
            if pending && started {
                out.push('-');
            }
            out.push(mc);
            proof {
                if pending && started {
                    assert(out@ =~= pre + seq!['-'] + seq![mc]);
                    assert(out@ + collapse_dashes(mapped, k + 1, false, true) =~= pre + (seq!['-']
                        + seq![mc] + collapse_dashes(mapped, k + 1, false, true)));
                } else {
                    assert(out@ =~= pre + seq![mc]);
                    assert(out@ + collapse_dashes(mapped, k + 1, false, true) =~= pre + (
                    Seq::<char>::empty() + seq![mc] + collapse_dashes(mapped, k + 1, false, true)));
                }
            }
            pending = false;
            started = true;
        }
        k += 1;
    }
    proof {
        assert(collapse_dashes(mapped, k as int, pending, started) =~= Seq::<char>::empty());
        assert(out@ + Seq::<char>::empty() =~= out@);
        assert(out@ == spec_sanitized(branch@));
    }
    if out.len() > 200 {
        return Err(ReviewError::BranchNameTooLong);
    }
    if out.len() == 0 {
        return Err(ReviewError::BranchNameEmptyAfter);
    }
    let mut name: Vec<char> = Vec::new();
    append_str(&mut name, "refs/notes/git-review/");
    let mut m: usize = 0;
    while m < out.len()
        invariant
            m <= out@.len(),
            name@ =~= "refs/notes/git-review/"@ + out@.subrange(0, m as int),
        decreases out@.len() - m,
    {
        name.push(out[m]);
        assert(name@ =~= "refs/notes/git-review/"@ + out@.subrange(0, m + 1));
        m += 1;
    }
    assert(name@ =~= "refs/notes/git-review/"@ + out@);
    Ok(chars_to_string(&name))
}

// ---------------------------------------------------------------------------
// Trusted items over git2
// ---------------------------------------------------------------------------

#[verifier::external_type_specification]
#[verifier::external_body]
pub struct ExRepository(git2::Repository);

#[verifier::external_type_specification]
#[verifier::external_body]
pub struct ExOid(git2::Oid);

#[verifier::external_type_specification]
#[verifier::external_body]
pub struct ExSignature<'a>(git2::Signature<'a>);

#[verifier::external_type_specification]
#[verifier::external_body]
pub struct ExNote<'a>(git2::Note<'a>);

#[verifier::external_type_specification]
#[verifier::external_body]
pub struct ExReference<'a>(git2::Reference<'a>);

#[verifier::external_type_specification]
#[verifier::external_body]
pub struct ExGitError(git2::Error);

/// Relies on `git2::Repository::signature`: the repository's configured
/// author identity, or an error when none is configured.
#[verifier::external_body]
fn repo_signature(repo: &git2::Repository) -> Result<git2::Signature<'static>, git2::Error> {
    repo.signature()
}

/// Relies on `git2::Signature::now`: a signature of the given name and
/// email stamped with the present time.
#[verifier::external_body]
fn signature_now(name: &str, email: &str) -> Result<git2::Signature<'static>, git2::Error> {
    git2::Signature::now(name, email)
}

/// Relies on `git2::Repository::note`: attach `text` as the note of
/// `oid` under `ref_name`, overwriting any previous note there.
#[verifier::external_body]
fn note_write(
    repo: &git2::Repository,
    sig: &git2::Signature<'_>,
    ref_name: &str,
    oid: git2::Oid,
    text: &str,
) -> Result<git2::Oid, git2::Error> {
    repo.note(sig, sig, Some(ref_name), oid, text, true)
}

/// Relies on `git2::Repository::find_note`: the note of `oid` under
/// `ref_name`, or an error (`NotFound` when there is none).
#[verifier::external_body]
fn find_note<'r>(
    repo: &'r git2::Repository,
    ref_name: &str,
    oid: git2::Oid,
) -> Result<git2::Note<'r>, git2::Error> {
    repo.find_note(Some(ref_name), oid)
}

/// Relies on `git2::Note::message`: the note's text, when it is valid
/// UTF-8.
#[verifier::external_body]
fn note_message(note: &git2::Note<'_>) -> Option<String> {
    note.message().map(|m| m.to_string())
}

/// Relies on `git2::Repository::note_delete`: remove the note of `oid`
/// under `ref_name`.
#[verifier::external_body]
fn note_delete(
    repo: &git2::Repository,
    oid: git2::Oid,
    ref_name: &str,
    sig: &git2::Signature<'_>,
) -> Result<(), git2::Error> {
    repo.note_delete(oid, Some(ref_name), sig, sig)
}

/// Relies on `git2::Repository::find_reference`: look a reference up by
/// its full name (`NotFound` when absent).
#[verifier::external_body]
fn find_reference<'r>(
    repo: &'r git2::Repository,
    name: &str,
) -> Result<git2::Reference<'r>, git2::Error> {
    repo.find_reference(name)
}

/// Relies on `git2::Reference::delete`: remove the reference from the
/// repository.
#[verifier::external_body]
fn reference_delete(r: &mut git2::Reference<'_>) -> Result<(), git2::Error> {
    r.delete()
}

/// Relies on `git2::Repository::notes`: iterate the notes under
/// `ref_name`; each item is converted to the annotated commit's id (the
/// second element of the pair the iterator yields).
#[verifier::external_body]
fn list_annotated_oids(
    repo: &git2::Repository,
    ref_name: &str,
) -> Result<Vec<git2::Oid>, git2::Error> {
    let notes = repo.notes(Some(ref_name))?;
    notes.map(|item| item.map(|(_note_oid, annotated_oid)| annotated_oid)).collect()
}

/// Relies on `git2::Error::message`: the error's text.
#[verifier::external_body]
fn git_err_message(e: &git2::Error) -> String {
    e.message().to_string()
}

/// Relies on `git2::Error::code`: whether this error is `NotFound`.
#[verifier::external_body]
fn git_err_is_not_found(e: &git2::Error) -> bool {
    e.code() == git2::ErrorCode::NotFound
}

fn repo_error(e: git2::Error) -> (r: ReviewError)
    ensures
        r matches ReviewError::Repo { .. },
{
    ReviewError::Repo { message: git_err_message(&e) }
}

/// A signature for note operations: the repository's configured identity,
/// falling back to a fixed tool identity.
fn note_signature(repo: &git2::Repository) -> (r: Result<
    git2::Signature<'static>,
    ReviewError,
>)
    ensures
        r matches Err(e) ==> e matches ReviewError::Repo { .. },
{
    match repo_signature(repo) {
        Ok(sig) => Ok(sig),
        Err(_) => match signature_now("git-review", "git-review@local") {
            Ok(sig) => Ok(sig),
            Err(e) => Err(repo_error(e)),
        },
    }
}

// ---------------------------------------------------------------------------
// Store operations (verified decisions around the trusted calls)
// ---------------------------------------------------------------------------

/// Persist one commit's comments: serialize the whole collection and
/// overwrite the commit's note under the branch's namespace.
pub fn write_comments(
    repo: &git2::Repository,
    branch: &str,
    commit_oid: git2::Oid,
    comments: &CommitComments,
) -> (r: Result<(), ReviewError>)
    ensures
        spec_branch_check(branch@) matches Some(e) ==> r == Err::<(), ReviewError>(e),
        spec_branch_check(branch@) is None ==> (r is Ok || (r matches Err(
            ReviewError::Repo { .. },
        ))),
{
    let ref_name = match branch_ref_name(branch) {
        Ok(n) => n,
        Err(e) => {
            return Err(e);
        }
    };
    let json = match comments.to_json() {
        Ok(j) => j,
        Err(e) => {
            return Err(e);
        }
    };
    let sig = match note_signature(repo) {
        Ok(s) => s,
        Err(e) => {
            return Err(e);
        }
    };
    match note_write(repo, &sig, ref_name.as_str(), commit_oid, json.as_str()) {
        Ok(_) => Ok(()),
        Err(e) => Err(repo_error(e)),
    }
}

/// Read one commit's comments: absence is `Ok(None)`, a present note is
/// decoded from the persisted format, and any decoded value is a valid
/// parse of that format.
pub fn read_comments(repo: &git2::Repository, branch: &str, commit_oid: git2::Oid) -> (r: Result<
    Option<CommitComments>,
    ReviewError,
>)
    ensures
        spec_branch_check(branch@) matches Some(e) ==> r == Err::<
            Option<CommitComments>,
            ReviewError,
        >(e),
        spec_branch_check(branch@) is None ==> (r is Ok || (r matches Err(
            ReviewError::Repo { .. },
        )) || r == Err::<Option<CommitComments>, ReviewError>(ReviewError::MalformedNote)),
        (r matches Ok(o) && o is Some) ==> crate::json::is_stored_decoding(r.unwrap().unwrap()@),
{
    let ref_name = match branch_ref_name(branch) {
        Ok(n) => n,
        Err(e) => {
            return Err(e);
        }
    };
    match find_note(repo, ref_name.as_str(), commit_oid) {
        Ok(note) => {
            let message = match note_message(&note) {
                Some(m) => m,
                None => {
                    return Err(ReviewError::MalformedNote);
                }
            };
            match CommitComments::from_json(message.as_str()) {
                Ok(cc) => {
                    proof {
                        assert(crate::json::p_cc(message@) == Some(cc@));
                    }
                    Ok(Some(cc))
                }
                Err(e) => Err(e),
            }
        }
        Err(e) => {
            if git_err_is_not_found(&e) {
                Ok(None)
            } else {
                Err(repo_error(e))
            }
        }
    }
}

/// Read every persisted unit under the branch's namespace; a missing
/// namespace is an empty result.
pub fn read_all_for_branch(repo: &git2::Repository, branch: &str) -> (r: Result<
    Vec<CommitComments>,
    ReviewError,
>)
    ensures
        spec_branch_check(branch@) matches Some(e) ==> r == Err::<
            Vec<CommitComments>,
            ReviewError,
        >(e),
        spec_branch_check(branch@) is None ==> (r is Ok || (r matches Err(
            ReviewError::Repo { .. },
        )) || r == Err::<Vec<CommitComments>, ReviewError>(ReviewError::MalformedNote)),
        r matches Ok(v) ==> forall|i: int|
            0 <= i < v@.len() ==> crate::json::is_stored_decoding(#[trigger] v@[i]@),
{
    let ref_name = match branch_ref_name(branch) {
        Ok(n) => n,
        Err(e) => {
            return Err(e);
        }
    };
    match find_reference(repo, ref_name.as_str()) {
        Ok(_) => {}
        Err(e) => {
            if git_err_is_not_found(&e) {
                return Ok(Vec::new());
            }
            return Err(repo_error(e));
        }
    }
    let oids = match list_annotated_oids(repo, ref_name.as_str()) {
        Ok(v) => v,
        Err(e) => {
            return Err(repo_error(e));
        }
    };
    let mut all: Vec<CommitComments> = Vec::new();
    let mut i: usize = 0;
    while i < oids.len()
        invariant
            spec_branch_check(branch@) is None,
            forall|j: int|
                0 <= j < all@.len() ==> crate::json::is_stored_decoding(#[trigger] all@[j]@),
        decreases oids@.len() - i,
    {
        match read_comments(repo, branch, oids[i]) {
            Ok(Some(cc)) => {
                all.push(cc);
            }
            Ok(None) => {}
            Err(e) => {
                return Err(e);
            }
        }
        i += 1;
    }
    Ok(all)
}

/// Remove the note of one commit; absence is `Ok(false)`.
fn delete_commit_note(repo: &git2::Repository, branch: &str, commit_oid: git2::Oid) -> (r: Result<
    bool,
    ReviewError,
>)
    ensures
        spec_branch_check(branch@) matches Some(e) ==> r == Err::<bool, ReviewError>(e),
        spec_branch_check(branch@) is None ==> (r is Ok || (r matches Err(
            ReviewError::Repo { .. },
        ))),
{
    let ref_name = match branch_ref_name(branch) {
        Ok(n) => n,
        Err(e) => {
            return Err(e);
        }
    };
    let sig = match note_signature(repo) {
        Ok(s) => s,
        Err(e) => {
            return Err(e);
        }
    };
    match note_delete(repo, commit_oid, ref_name.as_str(), &sig) {
        Ok(()) => Ok(true),
        Err(e) => {
            if git_err_is_not_found(&e) {
                Ok(false)
            } else {
                Err(repo_error(e))
            }
        }
    }
}

/// Delete the comment at `comment_index` of a commit's stored collection:
/// the index is removed from the decoded unit, and the note is deleted
/// entirely when that removal empties it, else rewritten in full.
/// A missing note or an out-of-range index is `Ok(false)`, not an error.
pub fn delete_comment(
    repo: &git2::Repository,
    branch: &str,
    commit_oid: git2::Oid,
    comment_index: usize,
) -> (r: Result<bool, ReviewError>)
    ensures
        spec_branch_check(branch@) matches Some(e) ==> r == Err::<bool, ReviewError>(e),
        spec_branch_check(branch@) is None ==> (r is Ok || (r matches Err(
            ReviewError::Repo { .. },
        )) || r == Err::<bool, ReviewError>(ReviewError::MalformedNote)),
{
    let mut comments = match read_comments(repo, branch, commit_oid) {
        Ok(Some(c)) => c,
        Ok(None) => {
            return Ok(false);
        }
        Err(e) => {
            return Err(e);
        }
    };
    match comments.remove_comment(comment_index) {
        Some(_) => {}
        None => {
            return Ok(false);
        }
    }
    if comments.is_empty() {
        match delete_commit_note(repo, branch, commit_oid) {
            Ok(_) => {}
            Err(e) => {
                return Err(e);
            }
        }
    } else {
        match write_comments(repo, branch, commit_oid, &comments) {
            Ok(()) => {}
            Err(e) => {
                return Err(e);
            }
        }
    }
    Ok(true)
}

/// Delete every persisted unit under the branch's namespace by deleting
/// the namespace reference itself; the count of removed units is
/// returned, `0` when the namespace does not exist.
pub fn clear_branch_notes(repo: &git2::Repository, branch: &str) -> (r: Result<
    usize,
    ReviewError,
>)
    ensures
        spec_branch_check(branch@) matches Some(e) ==> r == Err::<usize, ReviewError>(e),
        spec_branch_check(branch@) is None ==> (r is Ok || (r matches Err(
            ReviewError::Repo { .. },
        ))),
{
    let ref_name = match branch_ref_name(branch) {
        Ok(n) => n,
        Err(e) => {
            return Err(e);
        }
    };
    let note_count = match find_reference(repo, ref_name.as_str()) {
        Ok(_) => {
            match list_annotated_oids(repo, ref_name.as_str()) {
                Ok(v) => v.len(),
                Err(e) => {
                    return Err(repo_error(e));
                }
            }
        }
        Err(e) => {
            if git_err_is_not_found(&e) {
                return Ok(0);
            }
            return Err(repo_error(e));
        }
    };
    match find_reference(repo, ref_name.as_str()) {
        Ok(mut reference) => {
            match reference_delete(&mut reference) {
                Ok(()) => {}
                Err(e) => {
                    return Err(repo_error(e));
                }
            }
        }
        Err(e) => {
            if git_err_is_not_found(&e) {
                return Ok(0);
            }
            return Err(repo_error(e));
        }
    }
    Ok(note_count)
}

/// List the commits that have stored comments under the branch's
/// namespace.
pub fn list_commits_with_comments(repo: &git2::Repository, branch: &str) -> (r: Result<
    Vec<git2::Oid>,
    ReviewError,
>)
    ensures
        spec_branch_check(branch@) matches Some(e) ==> r == Err::<Vec<git2::Oid>, ReviewError>(e),
        spec_branch_check(branch@) is None ==> (r is Ok || (r matches Err(
            ReviewError::Repo { .. },
        ))),
{
    let ref_name = match branch_ref_name(branch) {
        Ok(n) => n,
        Err(e) => {
            return Err(e);
        }
    };
    match find_reference(repo, ref_name.as_str()) {
        Ok(_) => {}
        Err(e) => {
            if git_err_is_not_found(&e) {
                return Ok(Vec::new());
            }
            return Err(repo_error(e));
        }
    }
    match list_annotated_oids(repo, ref_name.as_str()) {
        Ok(v) => Ok(v),
        Err(e) => Err(repo_error(e)),
    }
}

} // verus!
