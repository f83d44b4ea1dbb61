//! Review comments: a comment is attached to a line, a hunk or a whole
//! file, and the comments of one commit form the unit that is persisted.

use vstd::prelude::*;

use crate::diff_model::LineType;
use crate::strutil::str_eq;

verus! {

/// Granularity of a comment.
#[derive(Debug, Clone, Copy, PartialEq, Eq, Structural)]
pub enum CommentLevel {
    Line,
    Hunk,
    File,
}

/// Where within a file a comment is attached.
#[derive(Debug, PartialEq, Eq)]
pub enum CommentLocation {
    /// A specific line, identified by its display number and kind.
    Line { number: usize, kind: LineType },
    /// An entire hunk, identified by its verbatim header text.
    Hunk { header: String },
    /// The file as a whole.
    File,
}

/// Mathematical image of a [`CommentLocation`].
pub ghost enum CommentLocationV {
    Line { number: usize, kind: LineType },
    Hunk { header: Seq<char> },
    File,
}

impl View for CommentLocation {
    type V = CommentLocationV;

    open spec fn view(&self) -> CommentLocationV {
        match self {
            CommentLocation::Line { number, kind } => CommentLocationV::Line {
                number: *number,
                kind: *kind,
            },
            CommentLocation::Hunk { header } => CommentLocationV::Hunk { header: header@ },
            CommentLocation::File => CommentLocationV::File,
        }
    }
}

/// A single review comment.  Comments are immutable once created, except
/// for deletion.
#[derive(Debug)]
pub struct Comment {
    pub level: CommentLevel,
    pub file_path: String,
    pub location: CommentLocation,
    pub text: String,
    pub created_at: String,
}

/// Mathematical image of a [`Comment`].
pub ghost struct CommentV {
    pub level: CommentLevel,
    pub file_path: Seq<char>,
    pub location: CommentLocationV,
    pub text: Seq<char>,
    pub created_at: Seq<char>,
}

impl View for Comment {
    type V = CommentV;

    open spec fn view(&self) -> CommentV {
        CommentV {
            level: self.level,
            file_path: self.file_path@,
            location: self.location@,
            text: self.text@,
            created_at: self.created_at@,
        }
    }
}

impl Clone for CommentLocation {
    /// A deep copy with the same view.
    fn clone(&self) -> (r: Self)
        ensures
            r@ == self@,
    {
        match self {
            CommentLocation::Line { number, kind } => CommentLocation::Line {
                number: *number,
                kind: *kind,
            },
            CommentLocation::Hunk { header } => CommentLocation::Hunk { header: header.clone() },
            CommentLocation::File => CommentLocation::File,
        }
    }
}

impl Clone for Comment {
    /// A deep copy with the same view.
    fn clone(&self) -> (r: Self)
        ensures
            r@ == self@,
    {
        Comment {
            level: self.level,
            file_path: self.file_path.clone(),
            location: self.location.clone(),
            text: self.text.clone(),
            created_at: self.created_at.clone(),
        }
    }
}

impl Clone for CommitComments {
    /// A deep copy with the same view.
    fn clone(&self) -> (r: Self)
        ensures
            r@ == self@,
    {
        let mut cs: Vec<Comment> = Vec::new();
        let mut i: usize = 0;
        while i < self.comments.len()
            invariant
                i <= self.comments@.len(),
                cs@.map_values(|c: Comment| c@) =~= self.comments@.map_values(
                    |c: Comment| c@,
                ).subrange(0, i as int),
            decreases self.comments@.len() - i,
        {
            let c = self.comments[i].clone();
            proof {
                crate::strutil::lemma_seq_map_push(cs@, |x: Comment| x@, c);
            }
            cs.push(c);
            proof {
                assert(cs@.map_values(|x: Comment| x@) =~= self.comments@.map_values(
                    |x: Comment| x@,
                ).subrange(0, i + 1));
            }
            i += 1;
        }
        proof {
            assert(self.comments@.map_values(|c: Comment| c@).subrange(
                0,
                self.comments@.len() as int,
            ) =~= self.comments@.map_values(|c: Comment| c@));
        }
        let r = CommitComments {
            commit_id: self.commit_id.clone(),
            branch: self.branch.clone(),
            timestamp: self.timestamp.clone(),
            comments: cs,
        };
        assert(r@ == self@) by {
            assert(r@.comments =~= self@.comments);
        }
        r
    }
}

/// Relies on `chrono::Local::now` and `DateTime::to_rfc3339`: a timestamp
/// of the present moment.  Nothing is promised of its value.
#[verifier::external_body]
fn now_rfc3339() -> String {
    chrono::Local::now().to_rfc3339()
}

/// Does a comment sit on this exact line of this file?
pub open spec fn spec_matches_line(
    c: CommentV,
    file: Seq<char>,
    line_num: usize,
    line_type: LineType,
) -> bool {
    c.file_path == file && (c.location matches CommentLocationV::Line { number, kind } && number
        == line_num && kind == line_type)
}

/// Does a comment sit on this exact hunk of this file?
pub open spec fn spec_matches_hunk(c: CommentV, file: Seq<char>, hunk_header: Seq<char>) -> bool {
    c.file_path == file && (c.location matches CommentLocationV::Hunk { header } && header
        == hunk_header)
}

/// Is this a file-level comment on this file?
pub open spec fn spec_matches_file(c: CommentV, file: Seq<char>) -> bool {
    c.file_path == file && c.location is File
}

/// The display text of a comment location.
pub open spec fn spec_location_desc(l: CommentLocationV) -> Seq<char> {
    match l {
        CommentLocationV::Line { number, kind } => "Line "@ + crate::strutil::spec_dec(
            number as nat,
        ) + " ("@ + (match kind {
            LineType::Added => "added"@,
            LineType::Removed => "removed"@,
            LineType::Context => "context"@,
        }) + ")"@,
        CommentLocationV::Hunk { header } => "Hunk: "@ + header,
        CommentLocationV::File => "File-level"@,
    }
}

impl Comment {
    /// A new line-level comment, stamped with the present time.
    pub fn new_line(file_path: String, line_number: usize, line_type: LineType, text: String) -> (r:
        Comment)
        ensures
            r.level == CommentLevel::Line,
            r.file_path@ == file_path@,
            r.location@ == (CommentLocationV::Line { number: line_number, kind: line_type }),
            r.text@ == text@,
    {
        Comment {
            level: CommentLevel::Line,
            file_path,
            location: CommentLocation::Line { number: line_number, kind: line_type },
            text,
            created_at: now_rfc3339(),
        }
    }

    /// A new hunk-level comment, stamped with the present time.
    pub fn new_hunk(file_path: String, hunk_header: String, text: String) -> (r: Comment)
        ensures
            r.level == CommentLevel::Hunk,
            r.file_path@ == file_path@,
            r.location@ == (CommentLocationV::Hunk { header: hunk_header@ }),
            r.text@ == text@,
    {
        Comment {
            level: CommentLevel::Hunk,
            file_path,
            location: CommentLocation::Hunk { header: hunk_header },
            text,
            created_at: now_rfc3339(),
        }
    }

    /// A new file-level comment, stamped with the present time.
    pub fn new_file(file_path: String, text: String) -> (r: Comment)
        ensures
            r.level == CommentLevel::File,
            r.file_path@ == file_path@,
            r.location@ == CommentLocationV::File,
            r.text@ == text@,
    {
        Comment {
            level: CommentLevel::File,
            file_path,
            location: CommentLocation::File,
            text,
            created_at: now_rfc3339(),
        }
    }

    /// A short description of the comment's location for display.
    pub fn location_desc(&self) -> (r: String)
        ensures
            r@ == spec_location_desc(self@.location),
    {
        match &self.location {
            CommentLocation::Line { number, kind } => {
                let mut v: Vec<char> = Vec::new();
                crate::strutil::append_str(&mut v, "Line ");
                crate::strutil::push_dec(*number, &mut v);
                crate::strutil::append_str(&mut v, " (");
                match kind {
                    LineType::Added => crate::strutil::append_str(&mut v, "added"),
                    LineType::Removed => crate::strutil::append_str(&mut v, "removed"),
                    LineType::Context => crate::strutil::append_str(&mut v, "context"),
                }
                crate::strutil::append_str(&mut v, ")");
                let r = crate::strutil::chars_to_string(&v);
                assert(r@ =~= spec_location_desc(self@.location));
                r
            }
            CommentLocation::Hunk { header } => {
                let mut v: Vec<char> = Vec::new();
                crate::strutil::append_str(&mut v, "Hunk: ");
                crate::strutil::append_str(&mut v, header.as_str());
                let r = crate::strutil::chars_to_string(&v);
                assert(r@ =~= spec_location_desc(self@.location));
                r
            }
            CommentLocation::File => {
                let mut v: Vec<char> = Vec::new();
                crate::strutil::append_str(&mut v, "File-level");
                let r = crate::strutil::chars_to_string(&v);
                assert(r@ =~= spec_location_desc(self@.location));
                r
            }
        }
    }

    /// Does this comment sit on the given line of the given file?
    pub fn matches_line(&self, file: &str, line_num: usize, line_type: LineType) -> (r: bool)
        ensures
            r == spec_matches_line(self@, file@, line_num, line_type),
    {
        if !str_eq(self.file_path.as_str(), file) {
            return false;
        }
        match &self.location {
            CommentLocation::Line { number, kind } => *number == line_num && *kind == line_type,
            _ => false,
        }
    }

    /// Does this comment sit on the given hunk of the given file?
    pub fn matches_hunk(&self, file: &str, hunk_header: &str) -> (r: bool)
        ensures
            r == spec_matches_hunk(self@, file@, hunk_header@),
    {
        if !str_eq(self.file_path.as_str(), file) {
            return false;
        }
        match &self.location {
            CommentLocation::Hunk { header } => str_eq(header.as_str(), hunk_header),
            _ => false,
        }
    }

    /// Is this a file-level comment on the given file?
    pub fn matches_file(&self, file: &str) -> (r: bool)
        ensures
            r == spec_matches_file(self@, file@),
    {
        str_eq(self.file_path.as_str(), file) && matches!(self.location, CommentLocation::File)
    }
}

/// All comments of one commit on one branch: the unit of persistence.
#[derive(Debug)]
pub struct CommitComments {
    pub commit_id: String,
    pub branch: String,
    pub timestamp: String,
    pub comments: Vec<Comment>,
}

/// Mathematical image of a [`CommitComments`].
pub ghost struct CommitCommentsV {
    pub commit_id: Seq<char>,
    pub branch: Seq<char>,
    pub timestamp: Seq<char>,
    pub comments: Seq<CommentV>,
}

impl View for CommitComments {
    type V = CommitCommentsV;

    open spec fn view(&self) -> CommitCommentsV {
        CommitCommentsV {
            commit_id: self.commit_id@,
            branch: self.branch@,
            timestamp: self.timestamp@,
            comments: self.comments@.map_values(|c: Comment| c@),
        }
    }
}

/// The comments (by view) satisfying `pred`-style selection helpers below.
pub open spec fn spec_filter_line(
    cs: Seq<CommentV>,
    file: Seq<char>,
    n: usize,
    t: LineType,
    k: int,
) -> Seq<CommentV>
    decreases cs.len() - k,
{
    if k < 0 || k >= cs.len() {
        Seq::empty()
    } else {
        (if spec_matches_line(cs[k], file, n, t) {
            seq![cs[k]]
        } else {
            Seq::empty()
        }) + spec_filter_line(cs, file, n, t, k + 1)
    }
}

pub open spec fn spec_filter_hunk(cs: Seq<CommentV>, file: Seq<char>, h: Seq<char>, k: int) -> Seq<
    CommentV,
>
    decreases cs.len() - k,
{
    if k < 0 || k >= cs.len() {
        Seq::empty()
    } else {
        (if spec_matches_hunk(cs[k], file, h) {
            seq![cs[k]]
        } else {
            Seq::empty()
        }) + spec_filter_hunk(cs, file, h, k + 1)
    }
}

pub open spec fn spec_filter_file_level(cs: Seq<CommentV>, file: Seq<char>, k: int) -> Seq<CommentV>
    decreases cs.len() - k,
{
    if k < 0 || k >= cs.len() {
        Seq::empty()
    } else {
        (if spec_matches_file(cs[k], file) {
            seq![cs[k]]
        } else {
            Seq::empty()
        }) + spec_filter_file_level(cs, file, k + 1)
    }
}

pub open spec fn spec_filter_for_file(cs: Seq<CommentV>, file: Seq<char>, k: int) -> Seq<CommentV>
    decreases cs.len() - k,
{
    if k < 0 || k >= cs.len() {
        Seq::empty()
    } else {
        (if cs[k].file_path == file {
            seq![cs[k]]
        } else {
            Seq::empty()
        }) + spec_filter_for_file(cs, file, k + 1)
    }
}

/// The absolute index of the `n`-th comment (from position `k` on) whose
/// file is `file`.
pub open spec fn spec_nth_for_file(cs: Seq<CommentV>, file: Seq<char>, k: int, n: int) -> Option<
    int,
>
    decreases cs.len() - k,
{
    if k < 0 || k >= cs.len() {
        None
    } else if cs[k].file_path == file {
        if n == 0 {
            Some(k)
        } else {
            spec_nth_for_file(cs, file, k + 1, n - 1)
        }
    } else {
        spec_nth_for_file(cs, file, k + 1, n)
    }
}

impl CommitComments {
    /// A fresh, empty collection for a commit on a branch, stamped with
    /// the present time.
    pub fn new(commit_id: String, branch: String) -> (r: CommitComments)
        ensures
            r.commit_id@ == commit_id@,
            r.branch@ == branch@,
            r@.comments =~= Seq::<CommentV>::empty(),
    {
        CommitComments { commit_id, branch, timestamp: now_rfc3339(), comments: Vec::new() }
    }

    /// Append a comment and refresh the collection's timestamp.
    pub fn add_comment(&mut self, comment: Comment)
        ensures
            final(self)@.comments =~= old(self)@.comments.push(comment@),
            final(self).commit_id@ == old(self).commit_id@,
            final(self).branch@ == old(self).branch@,
    {
        proof {
            crate::strutil::lemma_seq_map_push(self.comments@, |c: Comment| c@, comment);
        }
        self.comments.push(comment);
        self.timestamp = now_rfc3339();
    }

    /// Remove the comment at `index`; out-of-range indices are a no-op
    /// returning `None`, not a panic.
    pub fn remove_comment(&mut self, index: usize) -> (r: Option<Comment>)
        ensures
            index < old(self)@.comments.len() ==> r is Some && r->0@ == old(
                self,
            )@.comments[index as int] && final(self)@.comments =~= old(self)@.comments.remove(
                index as int,
            ) && final(self).commit_id@ == old(self).commit_id@ && final(self).branch@ == old(
                self,
            ).branch@,
            index >= old(self)@.comments.len() ==> r is None && *final(self) == *old(self),
    {
        if index < self.comments.len() {
            self.timestamp = now_rfc3339();
            let c = self.comments.remove(index);
            proof {
                assert(self.comments@.map_values(|x: Comment| x@) =~= old(
                    self,
                )@.comments.remove(index as int));
            }
            Some(c)
        } else {
            None
        }
    }

    /// All comments on one file, in order.
    pub fn comments_for_file(&self, file_path: &str) -> (r: Vec<&Comment>)
        ensures
            r@.map_values(|c: &Comment| c@) == spec_filter_for_file(self@.comments, file_path@, 0),
    {
        let mut r: Vec<&Comment> = Vec::new();
        let mut k: usize = 0;
        proof {
            assert(r@.map_values(|c: &Comment| c@) + spec_filter_for_file(
                self@.comments,
                file_path@,
                0,
            ) =~= spec_filter_for_file(self@.comments, file_path@, 0));
        }
        while k < self.comments.len()
            invariant
                k <= self.comments@.len(),
                r@.map_values(|c: &Comment| c@) + spec_filter_for_file(
                    self@.comments,
                    file_path@,
                    k as int,
                ) == spec_filter_for_file(self@.comments, file_path@, 0),
            decreases self.comments@.len() - k,
        {
            let ghost pre = r@.map_values(|c: &Comment| c@);
            let c = &self.comments[k];
            proof {
                assert(self@.comments[k as int] == c@);
            }
            if str_eq(c.file_path.as_str(), file_path) {
                r.push(c);
                proof {
                    assert(r@.map_values(|x: &Comment| x@) =~= pre.push(c@));
                    assert(r@.map_values(|x: &Comment| x@) + spec_filter_for_file(
                        self@.comments,
                        file_path@,
                        k + 1,
                    ) =~= pre + spec_filter_for_file(self@.comments, file_path@, k as int));
                }
            }
            k += 1;
        }
        proof {
            assert(spec_filter_for_file(self@.comments, file_path@, k as int) =~= Seq::<
                CommentV,
            >::empty());
            assert(r@.map_values(|c: &Comment| c@) + Seq::<CommentV>::empty() =~= r@.map_values(
                |c: &Comment| c@,
            ));
        }
        r
    }

    /// All line-level comments at one exact location.
    pub fn comments_at_line(&self, file: &str, line_num: usize, line_type: LineType) -> (r: Vec<
        &Comment,
    >)
        ensures
            r@.map_values(|c: &Comment| c@) == spec_filter_line(
                self@.comments,
                file@,
                line_num,
                line_type,
                0,
            ),
    {
        let mut r: Vec<&Comment> = Vec::new();
        let mut k: usize = 0;
        proof {
            assert(r@.map_values(|c: &Comment| c@) + spec_filter_line(
                self@.comments,
                file@,
                line_num,
                line_type,
                0,
            ) =~= spec_filter_line(self@.comments, file@, line_num, line_type, 0));
        }
        while k < self.comments.len()
            invariant
                k <= self.comments@.len(),
                r@.map_values(|c: &Comment| c@) + spec_filter_line(
                    self@.comments,
                    file@,
                    line_num,
                    line_type,
                    k as int,
                ) == spec_filter_line(self@.comments, file@, line_num, line_type, 0),
            decreases self.comments@.len() - k,
        {
            let ghost pre = r@.map_values(|c: &Comment| c@);
            let c = &self.comments[k];
            proof {
                assert(self@.comments[k as int] == c@);
            }
            if c.matches_line(file, line_num, line_type) {
                r.push(c);
                proof {
                    assert(r@.map_values(|x: &Comment| x@) =~= pre.push(c@));
                    assert(r@.map_values(|x: &Comment| x@) + spec_filter_line(
                        self@.comments,
                        file@,
                        line_num,
                        line_type,
                        k + 1,
                    ) =~= pre + spec_filter_line(
                        self@.comments,
                        file@,
                        line_num,
                        line_type,
                        k as int,
                    ));
                }
            }
            k += 1;
        }
        proof {
            assert(spec_filter_line(self@.comments, file@, line_num, line_type, k as int) =~= Seq::<
                CommentV,
            >::empty());
            assert(r@.map_values(|c: &Comment| c@) + Seq::<CommentV>::empty() =~= r@.map_values(
                |c: &Comment| c@,
            ));
        }
        r
    }

    /// All hunk-level comments on one exact hunk.
    pub fn comments_at_hunk(&self, file: &str, hunk_header: &str) -> (r: Vec<&Comment>)
        ensures
            r@.map_values(|c: &Comment| c@) == spec_filter_hunk(
                self@.comments,
                file@,
                hunk_header@,
                0,
            ),
    {
        let mut r: Vec<&Comment> = Vec::new();
        let mut k: usize = 0;
        proof {
            assert(r@.map_values(|c: &Comment| c@) + spec_filter_hunk(
                self@.comments,
                file@,
                hunk_header@,
                0,
            ) =~= spec_filter_hunk(self@.comments, file@, hunk_header@, 0));
        }
        while k < self.comments.len()
            invariant
                k <= self.comments@.len(),
                r@.map_values(|c: &Comment| c@) + spec_filter_hunk(
                    self@.comments,
                    file@,
                    hunk_header@,
                    k as int,
                ) == spec_filter_hunk(self@.comments, file@, hunk_header@, 0),
            decreases self.comments@.len() - k,
        {
            let ghost pre = r@.map_values(|c: &Comment| c@);
            let c = &self.comments[k];
            proof {
                assert(self@.comments[k as int] == c@);
            }
            if c.matches_hunk(file, hunk_header) {
                r.push(c);
                proof {
                    assert(r@.map_values(|x: &Comment| x@) =~= pre.push(c@));
                    assert(r@.map_values(|x: &Comment| x@) + spec_filter_hunk(
                        self@.comments,
                        file@,
                        hunk_header@,
                        k + 1,
                    ) =~= pre + spec_filter_hunk(self@.comments, file@, hunk_header@, k as int));
                }
            }
            k += 1;
        }
        proof {
            assert(spec_filter_hunk(self@.comments, file@, hunk_header@, k as int) =~= Seq::<
                CommentV,
            >::empty());
            assert(r@.map_values(|c: &Comment| c@) + Seq::<CommentV>::empty() =~= r@.map_values(
                |c: &Comment| c@,
            ));
        }
        r
    }

    /// All file-level comments on one file.
    pub fn file_level_comments(&self, file: &str) -> (r: Vec<&Comment>)
        ensures
            r@.map_values(|c: &Comment| c@) == spec_filter_file_level(self@.comments, file@, 0),
    {
        let mut r: Vec<&Comment> = Vec::new();
        let mut k: usize = 0;
        proof {
            assert(r@.map_values(|c: &Comment| c@) + spec_filter_file_level(
                self@.comments,
                file@,
                0,
            ) =~= spec_filter_file_level(self@.comments, file@, 0));
        }
        while k < self.comments.len()
            invariant
                k <= self.comments@.len(),
                r@.map_values(|c: &Comment| c@) + spec_filter_file_level(
                    self@.comments,
                    file@,
                    k as int,
                ) == spec_filter_file_level(self@.comments, file@, 0),
            decreases self.comments@.len() - k,
        {
            let ghost pre = r@.map_values(|c: &Comment| c@);
            let c = &self.comments[k];
            proof {
                assert(self@.comments[k as int] == c@);
            }
            if c.matches_file(file) {
                r.push(c);
                proof {
                    assert(r@.map_values(|x: &Comment| x@) =~= pre.push(c@));
                    assert(r@.map_values(|x: &Comment| x@) + spec_filter_file_level(
                        self@.comments,
                        file@,
                        k + 1,
                    ) =~= pre + spec_filter_file_level(self@.comments, file@, k as int));
                }
            }
            k += 1;
        }
        proof {
            assert(spec_filter_file_level(self@.comments, file@, k as int) =~= Seq::<
                CommentV,
            >::empty());
            assert(r@.map_values(|c: &Comment| c@) + Seq::<CommentV>::empty() =~= r@.map_values(
                |c: &Comment| c@,
            ));
        }
        r
    }

    /// Translate a display index — the position among this file's
    /// comments as they are listed — to the absolute index in the
    /// collection, if it exists.
    pub fn absolute_index_for_file(&self, file: &str, display_index: usize) -> (r: Option<usize>)
        ensures
            match spec_nth_for_file(self@.comments, file@, 0, display_index as int) {
                Some(i) => r == Some(i as usize),
                None => r is None,
            },
    {
        let mut k: usize = 0;
        let mut remaining = display_index;
        while k < self.comments.len()
            invariant
                k <= self.comments@.len(),
                remaining <= display_index,
                spec_nth_for_file(self@.comments, file@, k as int, remaining as int)
                    == spec_nth_for_file(self@.comments, file@, 0, display_index as int),
            decreases self.comments@.len() - k,
        {
            let c = &self.comments[k];
            proof {
                assert(self@.comments[k as int] == c@);
            }
            if str_eq(c.file_path.as_str(), file) {
                if remaining == 0 {
                    return Some(k);
                }
                remaining = remaining - 1;
            }
            k += 1;
        }
        None
    }

    /// Is the collection empty?
    pub fn is_empty(&self) -> (r: bool)
        ensures
            r == (self@.comments.len() == 0),
    {
        self.comments.len() == 0
    }

    /// How many comments the collection holds.
    pub fn len(&self) -> (r: usize)
        ensures
            r == self@.comments.len(),
    {
        self.comments.len()
    }
}

} // verus!
