//! The global row numbering of the rendered diff.  One integer addresses
//! every rendered row — file separators, path headers, hunk headers, expand
//! affordances, content lines and trailing blanks — and scroll, cursor,
//! search and the comment resolver all share it, so the accounting lives in
//! exactly one place.

use vstd::prelude::*;

use crate::diff_model::{
    spec_available_lines_above, spec_sat_add, FileDiff, FileDiffV, HunkV, LineType,
};

verus! {

/// Does this hunk get an expand-above affordance row?
pub open spec fn has_expand_above(h: HunkV) -> bool {
    spec_available_lines_above(h.old_start as int, h.new_start as int) > 0
}

/// Does this hunk get an expand-below affordance row?
pub open spec fn has_expand_below(h: HunkV, nfl: Option<usize>) -> bool {
    match nfl {
        Some(fl) => spec_sat_add(h.new_start, h.new_lines) < fl,
        None => false,
    }
}

/// Rows one hunk occupies: header, optional expand affordances, content
/// lines, and the trailing blank row.
pub open spec fn spec_hunk_rows(h: HunkV, nfl: Option<usize>) -> int {
    2 + h.lines.len() + (if has_expand_above(h) {
        1int
    } else {
        0int
    }) + (if has_expand_below(h, nfl) {
        1int
    } else {
        0int
    })
}

pub open spec fn spec_hunks_rows_from(hunks: Seq<HunkV>, nfl: Option<usize>, j: int) -> int
    decreases hunks.len() - j,
{
    if j < 0 || j >= hunks.len() {
        0
    } else {
        spec_hunk_rows(hunks[j], nfl) + spec_hunks_rows_from(hunks, nfl, j + 1)
    }
}

/// Rows one file occupies, not counting the separator before it: the two
/// path rows, a blank, then its hunks.
pub open spec fn spec_file_rows(f: FileDiffV) -> int {
    3 + spec_hunks_rows_from(f.hunks, f.new_file_lines, 0)
}

/// Rows of files `i..`, including the three separator rows before every
/// file but the first of the whole list.
pub open spec fn spec_rows_from(files: Seq<FileDiffV>, i: int) -> int
    decreases files.len() - i,
{
    if i < 0 || i >= files.len() {
        0
    } else {
        (if i > 0 {
            3int
        } else {
            0int
        }) + spec_file_rows(files[i]) + spec_rows_from(files, i + 1)
    }
}

/// Total number of content rows of the rendered diff.
pub open spec fn spec_content_rows(files: Seq<FileDiffV>) -> int {
    spec_rows_from(files, 0)
}

pub proof fn lemma_hunk_rows_nonneg(hunks: Seq<HunkV>, nfl: Option<usize>, j: int)
    ensures
        spec_hunks_rows_from(hunks, nfl, j) >= 0,
        0 <= j < hunks.len() ==> spec_hunks_rows_from(hunks, nfl, j) >= spec_hunk_rows(
            hunks[j],
            nfl,
        ),
    decreases hunks.len() - j,
{
    if 0 <= j < hunks.len() {
        lemma_hunk_rows_nonneg(hunks, nfl, j + 1)
    }
}

pub proof fn lemma_rows_from_nonneg(files: Seq<FileDiffV>, i: int)
    ensures
        spec_rows_from(files, i) >= 0,
        0 <= i < files.len() ==> spec_rows_from(files, i) >= spec_file_rows(files[i]) + (
        if i > 0 {
            3int
        } else {
            0int
        }),
    decreases files.len() - i,
{
    if 0 <= i < files.len() {
        lemma_hunk_rows_nonneg(files[i].hunks, files[i].new_file_lines, 0);
        lemma_rows_from_nonneg(files, i + 1)
    }
}

/// Count the rows one hunk occupies.
pub fn hunk_row_count(h: &crate::diff_model::Hunk, nfl: Option<usize>) -> (r: usize)
    requires
        spec_hunk_rows(h@, nfl) <= usize::MAX,
    ensures
        r == spec_hunk_rows(h@, nfl),
{
    let mut r: usize = 2;
    assert(h@.lines.len() == h.lines@.len());
    if h.lines.len() > usize::MAX - 2 {
        proof {
            assert(spec_hunk_rows(h@, nfl) > usize::MAX);
        }
        assert(false);
    }
    r = r + h.lines.len();
    if h.available_lines_above() > 0 {
        r = r + 1;
    }
    let below = match nfl {
        Some(fl) => h.can_expand_below(fl),
        None => false,
    };
    if below {
        r = r + 1;
    }
    r
}

/// Total content rows of the diff view, the quantity scrolling is bounded
/// by.
pub fn content_row_count(files: &Vec<FileDiff>) -> (r: usize)
    requires
        spec_content_rows(crate::diff_model::files_view(files@)) <= usize::MAX,
    ensures
        r == spec_content_rows(crate::diff_model::files_view(files@)),
{
    let ghost fv = crate::diff_model::files_view(files@);
    let mut total: usize = 0;
    let mut i: usize = 0;
    proof {
        lemma_rows_prefix_bound(fv, 0);
    }
    while i < files.len()
        invariant
            i <= files@.len(),
            fv == crate::diff_model::files_view(files@),
            spec_content_rows(fv) <= usize::MAX,
            total + spec_rows_from(fv, i as int) == spec_content_rows(fv),
            total >= 0,
        decreases files@.len() - i,
    {
        let f = &files[i];
        proof {
            assert(fv[i as int] == f@);
            lemma_rows_from_nonneg(fv, i + 1);
            lemma_hunk_rows_nonneg(f@.hunks, f@.new_file_lines, 0);
        }
        if i > 0 {
            total = total + 3;
        }
        total = total + 3;
        let mut j: usize = 0;
        proof {
            assert(f@.hunks.len() == f.hunks@.len());
        }
        while j < f.hunks.len()
            invariant
                j <= f.hunks@.len(),
                fv == crate::diff_model::files_view(files@),
                i < files@.len(),
                fv[i as int] == f@,
                spec_content_rows(fv) <= usize::MAX,
                total + spec_hunks_rows_from(f@.hunks, f@.new_file_lines, j as int)
                    + spec_rows_from(fv, i + 1) == spec_content_rows(fv),
                total >= 0,
            decreases f.hunks@.len() - j,
        {
            proof {
                assert(f@.hunks[j as int] == f.hunks@[j as int]@);
                lemma_hunk_rows_nonneg(f@.hunks, f@.new_file_lines, j + 1);
                lemma_rows_from_nonneg(fv, i + 1);
            }
            let hc = hunk_row_count(&f.hunks[j], f.new_file_lines);
            total = total + hc;
            j += 1;
        }
        i += 1;
    }
    total
}

/// Every prefix total is bounded by the whole: the row sums are
/// nonnegative term by term.
proof fn lemma_rows_prefix_bound(files: Seq<FileDiffV>, i: int)
    ensures
        spec_rows_from(files, i) >= 0,
    decreases files.len() - i,
{
    lemma_rows_from_nonneg(files, i);
}

// ---------------------------------------------------------------------------
// The comment-location resolver
// ---------------------------------------------------------------------------

/// What the cursor points at, for attaching or viewing comments.
#[derive(Debug, Clone)]
pub enum CommentContext {
    /// On a file header, separator, or outside all content.
    FileLevel,
    /// On a hunk header, an expand affordance, or a blank row of a hunk.
    HunkLevel { header: String },
    /// On a content line that carries a line number.
    LineLevel { number: usize, line_type: LineType },
}

/// Mathematical image of a [`CommentContext`].
pub ghost enum CommentContextV {
    FileLevel,
    HunkLevel { header: Seq<char> },
    LineLevel { number: usize, line_type: LineType },
}

impl View for CommentContext {
    type V = CommentContextV;

    open spec fn view(&self) -> CommentContextV {
        match self {
            CommentContext::FileLevel => CommentContextV::FileLevel,
            CommentContext::HunkLevel { header } => CommentContextV::HunkLevel {
                header: header@,
            },
            CommentContext::LineLevel { number, line_type } => CommentContextV::LineLevel {
                number: *number,
                line_type: *line_type,
            },
        }
    }
}

/// The display line number of a content line: added lines show their
/// new-side number, removed lines their old-side number, context lines the
/// new-side number when present, the old-side one otherwise.
pub open spec fn spec_display_number(l: crate::diff_model::HunkLineV) -> Option<usize> {
    match l.line_type {
        LineType::Added => l.new_line_num,
        LineType::Removed => l.old_line_num,
        LineType::Context => if l.new_line_num is Some {
            l.new_line_num
        } else {
            l.old_line_num
        },
    }
}

/// Where the cursor lands inside one hunk whose rows start at `b`.
pub open spec fn spec_resolve_in_hunk(h: HunkV, nfl: Option<usize>, b: int, t: int) -> CommentContextV {
    let cs = b + 1 + (if has_expand_above(h) {
        1int
    } else {
        0int
    });
    if cs <= t < cs + h.lines.len() {
        match spec_display_number(h.lines[t - cs]) {
            Some(n) => CommentContextV::LineLevel {
                number: n,
                line_type: h.lines[t - cs].line_type,
            },
            None => CommentContextV::HunkLevel { header: h.header },
        }
    } else {
        CommentContextV::HunkLevel { header: h.header }
    }
}

/// Walk the hunks of one file from row `b`; `None` means the cursor lies
/// beyond this file's hunks, and carries the row where the next file
/// starts.
pub open spec fn spec_resolve_hunks(
    hunks: Seq<HunkV>,
    nfl: Option<usize>,
    j: int,
    b: int,
    t: int,
) -> (Option<CommentContextV>, int)
    decreases hunks.len() - j,
{
    if j < 0 || j >= hunks.len() {
        (None, b)
    } else {
        let rows = spec_hunk_rows(hunks[j], nfl);
        if b <= t < b + rows {
            (Some(spec_resolve_in_hunk(hunks[j], nfl, b, t)), b + rows)
        } else {
            spec_resolve_hunks(hunks, nfl, j + 1, b + rows, t)
        }
    }
}

/// Walk the files from row `b` looking for the cursor row `t`.
pub open spec fn spec_resolve_files(files: Seq<FileDiffV>, i: int, b: int, t: int) -> CommentContextV
    decreases files.len() - i,
{
    if i < 0 || i >= files.len() {
        CommentContextV::FileLevel
    } else {
        let sep = if i > 0 {
            3int
        } else {
            0int
        };
        if t < b + sep + 3 {
            CommentContextV::FileLevel
        } else {
            let r = spec_resolve_hunks(
                files[i].hunks,
                files[i].new_file_lines,
                0,
                b + sep + 3,
                t,
            );
            match r.0 {
                Some(ctx) => ctx,
                None => spec_resolve_files(files, i + 1, r.1, t),
            }
        }
    }
}

/// The comment context of a cursor row, in the global row numbering.
pub open spec fn spec_detect_context(files: Seq<FileDiffV>, t: int) -> CommentContextV {
    spec_resolve_files(files, 0, 0, t)
}

/// Map a cursor row to what it addresses: the file (separators and path
/// headers), a hunk (its header, expand and blank rows), or a single
/// content line with its display number.
#[verifier::loop_isolation(false)]
#[verifier::rlimit(60)]
pub fn detect_comment_context(files: &Vec<FileDiff>, cursor_line: usize) -> (r: CommentContext)
    requires
        spec_content_rows(crate::diff_model::files_view(files@)) <= usize::MAX,
    ensures
        r@ == spec_detect_context(crate::diff_model::files_view(files@), cursor_line as int),
{
    let ghost fv = crate::diff_model::files_view(files@);
    let t = cursor_line;
    let mut b: usize = 0;
    let mut i: usize = 0;
    while i < files.len()
        invariant
            i <= files@.len(),
            b <= usize::MAX,
            spec_resolve_files(fv, 0, 0, t as int) == spec_resolve_files(
                fv,
                i as int,
                b as int,
                t as int,
            ),
            b as int + spec_rows_from(fv, i as int) <= spec_content_rows(fv) || i == 0,
            i > 0 ==> b as int + spec_rows_from(fv, i as int) - 3 <= spec_content_rows(fv),
            i == 0 ==> b == 0,
        decreases files@.len() - i,
    {
        let f = &files[i];
        proof {
            assert(fv[i as int] == f@);
            lemma_rows_from_nonneg(fv, i as int);
            lemma_rows_from_nonneg(fv, i + 1);
            lemma_hunk_rows_nonneg(f@.hunks, f@.new_file_lines, 0);
        }
        let sep: usize = if i > 0 {
            3
        } else {
            0
        };
        if t < b + sep + 3 {
            return CommentContext::FileLevel;
        }
        let mut c: usize = b + sep + 3;
        let mut j: usize = 0;
        proof {
            assert(f@.hunks.len() == f.hunks@.len());
        }
        while j < f.hunks.len()
            invariant
                j <= f.hunks@.len(),
                i < files@.len(),
                fv[i as int] == f@,
                c <= usize::MAX,
                spec_resolve_hunks(f@.hunks, f@.new_file_lines, 0, b as int + sep + 3, t as int)
                    == spec_resolve_hunks(
                    f@.hunks,
                    f@.new_file_lines,
                    j as int,
                    c as int,
                    t as int,
                ),
                c as int + spec_hunks_rows_from(f@.hunks, f@.new_file_lines, j as int)
                    + spec_rows_from(fv, i + 1) <= spec_content_rows(fv),
            decreases f.hunks@.len() - j,
        {
            let h = &f.hunks[j];
            proof {
                assert(f@.hunks[j as int] == h@);
                lemma_hunk_rows_nonneg(f@.hunks, f@.new_file_lines, j + 1);
                lemma_rows_from_nonneg(fv, i + 1);
            }
            let rows = hunk_row_count(h, f.new_file_lines);
            if t >= c && t < c + rows {
                // inside this hunk: a content row with a number names a line
                let above: usize = if h.available_lines_above() > 0 {
                    1
                } else {
                    0
                };
                let cs = c + 1 + above;
                if t >= cs && t < cs + h.lines.len() {
                    let l = &h.lines[t - cs];
                    proof {
                        assert(h@.lines[t - cs] == l@);
                    }
                    let num = match l.line_type {
                        LineType::Added => l.new_line_num,
                        LineType::Removed => l.old_line_num,
                        LineType::Context => if l.new_line_num.is_some() {
                            l.new_line_num
                        } else {
                            l.old_line_num
                        },
                    };
                    match num {
                        Some(n) => {
                            return CommentContext::LineLevel {
                                number: n,
                                line_type: l.line_type,
                            };
                        }
                        None => {
                            return CommentContext::HunkLevel { header: h.header.clone() };
                        }
                    }
                } else {
                    return CommentContext::HunkLevel { header: h.header.clone() };
                }
            }
            c = c + rows;
            j += 1;
        }
        b = c;
        i += 1;
    }
    CommentContext::FileLevel
}

} // verus!
