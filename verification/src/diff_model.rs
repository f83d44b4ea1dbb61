//! Data model for a parsed unified diff: typed lines, hunks and per-file
//! diffs, together with the well-formedness predicates the rest of the
//! crate builds on.

use vstd::prelude::*;

verus! {

/// Kind of a single diff line.
#[derive(Debug, Clone, Copy, PartialEq, Eq, Structural)]
pub enum LineType {
    Context,
    Added,
    Removed,
}

/// One line of a hunk, stamped with its old/new line numbers.
#[derive(Debug, Clone)]
pub struct HunkLine {
    pub line_type: LineType,
    pub old_line_num: Option<usize>,
    pub new_line_num: Option<usize>,
    pub content: String,
}

/// Mathematical image of a [`HunkLine`].
pub ghost struct HunkLineV {
    pub line_type: LineType,
    pub old_line_num: Option<usize>,
    pub new_line_num: Option<usize>,
    pub content: Seq<char>,
}

impl View for HunkLine {
    type V = HunkLineV;

    open spec fn view(&self) -> HunkLineV {
        HunkLineV {
            line_type: self.line_type,
            old_line_num: self.old_line_num,
            new_line_num: self.new_line_num,
            content: self.content@,
        }
    }
}

impl HunkLineV {
    /// Line numbers are present exactly as the line kind demands: added
    /// lines carry only a new-side number, removed lines only an old-side
    /// number, context lines both.
    pub open spec fn wf(self) -> bool {
        match self.line_type {
            LineType::Added => self.old_line_num is None && self.new_line_num is Some,
            LineType::Removed => self.old_line_num is Some && self.new_line_num is None,
            LineType::Context => self.old_line_num is Some && self.new_line_num is Some,
        }
    }
}

impl HunkLine {
    pub open spec fn wf(self) -> bool {
        self@.wf()
    }
}

/// A contiguous block of changes, as announced by one `@@` header.
#[derive(Debug, Clone)]
pub struct Hunk {
    pub old_start: usize,
    pub old_lines: usize,
    pub new_start: usize,
    pub new_lines: usize,
    pub header: String,
    pub lines: Vec<HunkLine>,
}

/// Mathematical image of a [`Hunk`].
pub ghost struct HunkV {
    pub old_start: usize,
    pub old_lines: usize,
    pub new_start: usize,
    pub new_lines: usize,
    pub header: Seq<char>,
    pub lines: Seq<HunkLineV>,
}

impl View for Hunk {
    type V = HunkV;

    open spec fn view(&self) -> HunkV {
        HunkV {
            old_start: self.old_start,
            old_lines: self.old_lines,
            new_start: self.new_start,
            new_lines: self.new_lines,
            header: self.header@,
            lines: self.lines@.map_values(|l: HunkLine| l@),
        }
    }
}

impl HunkV {
    pub open spec fn wf(self) -> bool {
        forall|i: int| 0 <= i < self.lines.len() ==> (#[trigger] self.lines[i]).wf()
    }
}

/// `a + b`, capped at `usize::MAX`.
pub open spec fn spec_sat_add(a: usize, b: usize) -> usize {
    if a + b > usize::MAX {
        usize::MAX
    } else {
        (a + b) as usize
    }
}

/// Saturating addition.
pub fn sat_add(a: usize, b: usize) -> (r: usize)
    ensures
        r == spec_sat_add(a, b),
{
    if usize::MAX - a < b {
        usize::MAX
    } else {
        a + b
    }
}

impl Hunk {
    pub open spec fn wf(self) -> bool {
        self@.wf()
    }

    /// More context can be revealed above when the hunk does not already
    /// start at the first line on one of its sides.
    pub fn can_expand_above(&self) -> (r: bool)
        ensures
            r == (self.old_start > 1 || self.new_start > 1),
    {
        self.old_start > 1 || self.new_start > 1
    }

    /// More context can be revealed below when the hunk's new side ends
    /// before the end of the file.
    pub fn can_expand_below(&self, file_lines: usize) -> (r: bool)
        ensures
            r == (spec_sat_add(self.new_start, self.new_lines) < file_lines),
    {
        let hunk_end_line = if usize::MAX - self.new_start < self.new_lines {
            usize::MAX
        } else {
            self.new_start + self.new_lines
        };
        hunk_end_line < file_lines
    }

    /// How many additional context lines an expansion above could reveal
    /// at most: the distance to the top of the file on the nearer side.
    pub fn available_lines_above(&self) -> (r: usize)
        ensures
            r == spec_available_lines_above(self.old_start as int, self.new_start as int),
    {
        let old_avail = if self.old_start > 0 { self.old_start - 1 } else { 0 };
        let new_avail = if self.new_start > 0 { self.new_start - 1 } else { 0 };
        if old_avail <= new_avail {
            old_avail
        } else {
            new_avail
        }
    }
}

/// The expansion headroom above a hunk: `min(old_start, new_start) - 1`,
/// saturating at zero.
pub open spec fn spec_available_lines_above(old_start: int, new_start: int) -> int {
    let old_avail = if old_start > 0 { old_start - 1 } else { 0 };
    let new_avail = if new_start > 0 { new_start - 1 } else { 0 };
    if old_avail <= new_avail {
        old_avail
    } else {
        new_avail
    }
}

/// All hunks of one file, in source order.
#[derive(Debug, Clone)]
pub struct FileDiff {
    pub old_path: String,
    pub new_path: String,
    pub hunks: Vec<Hunk>,
    pub new_file_lines: Option<usize>,
}

/// Mathematical image of a [`FileDiff`].
pub ghost struct FileDiffV {
    pub old_path: Seq<char>,
    pub new_path: Seq<char>,
    pub hunks: Seq<HunkV>,
    pub new_file_lines: Option<usize>,
}

impl View for FileDiff {
    type V = FileDiffV;

    open spec fn view(&self) -> FileDiffV {
        FileDiffV {
            old_path: self.old_path@,
            new_path: self.new_path@,
            hunks: self.hunks@.map_values(|h: Hunk| h@),
            new_file_lines: self.new_file_lines,
        }
    }
}

impl FileDiffV {
    pub open spec fn wf(self) -> bool {
        forall|i: int| 0 <= i < self.hunks.len() ==> (#[trigger] self.hunks[i]).wf()
    }
}

impl FileDiff {
    pub open spec fn wf(self) -> bool {
        self@.wf()
    }
}

/// The views of a parsed file list, the shape all of this crate's contracts
/// speak about.
pub open spec fn files_view(files: Seq<FileDiff>) -> Seq<FileDiffV> {
    files.map_values(|f: FileDiff| f@)
}

} // verus!
