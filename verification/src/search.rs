//! Case-insensitive substring search over every visible row of the loaded
//! diff — file paths, hunk headers and line contents — addressed by the
//! same global row numbering that scrolling and the cursor use.

use vstd::prelude::*;

use crate::diff_model::{FileDiff, FileDiffV, HunkV};
use crate::rows::{has_expand_above, has_expand_below};
use crate::strutil::{lower_of, lowercase};

verus! {

/// Search modes of the interface: either idle or taking query input.
#[derive(Debug, Clone, Copy, PartialEq, Eq, Structural)]
pub enum SearchMode {
    Normal,
    Entering,
}

/// One search hit: the global row and the character span within it.
#[derive(Debug, Clone, Copy, PartialEq, Eq, Structural)]
pub struct SearchMatch {
    pub line_index: usize,
    pub char_start: usize,
    pub char_end: usize,
}

/// `q` occurs in `hay` starting at position `i`.
pub open spec fn occurs_at(hay: Seq<char>, q: Seq<char>, i: int) -> bool {
    0 <= i && i + q.len() <= hay.len() && hay.subrange(i, i + q.len()) =~= q
}

/// All matches of `q` in `hay` at positions `from..`, in ascending order,
/// stamped with row number `row`.  Overlapping occurrences all count.
pub open spec fn spec_matches_in_line(hay: Seq<char>, q: Seq<char>, row: usize, from: int) -> Seq<
    SearchMatch,
>
    decreases hay.len() - from + 1,
{
    if from < 0 || from + q.len() > hay.len() {
        Seq::empty()
    } else if occurs_at(hay, q, from) {
        seq![
            SearchMatch {
                line_index: row,
                char_start: from as usize,
                char_end: (from + q.len()) as usize,
            },
        ] + spec_matches_in_line(hay, q, row, from + 1)
    } else {
        spec_matches_in_line(hay, q, row, from + 1)
    }
}

/// Completeness and soundness of the per-line match list: it holds exactly
/// the occurrence positions at or after `from`.
pub proof fn lemma_matches_in_line_complete(hay: Seq<char>, q: Seq<char>, row: usize, from: int)
    requires
        0 <= from,
        q.len() >= 1,
        hay.len() <= usize::MAX,
    ensures
        forall|p: int|
            from <= p && occurs_at(hay, q, p) ==> spec_matches_in_line(hay, q, row, from).contains(
                SearchMatch {
                    line_index: row,
                    char_start: p as usize,
                    char_end: (p + q.len()) as usize,
                },
            ),
        forall|k: int|
            0 <= k < spec_matches_in_line(hay, q, row, from).len() ==> {
                let m = #[trigger] spec_matches_in_line(hay, q, row, from)[k];
                occurs_at(hay, q, m.char_start as int) && m.line_index == row && m.char_end
                    == m.char_start + q.len() && from <= m.char_start
            },
    decreases hay.len() - from + 1,
{
    if from >= 0 && from + q.len() <= hay.len() {
        lemma_matches_in_line_complete(hay, q, row, from + 1);
        let cur = spec_matches_in_line(hay, q, row, from);
        let rest = spec_matches_in_line(hay, q, row, from + 1);
        let m0 = SearchMatch {
            line_index: row,
            char_start: from as usize,
            char_end: (from + q.len()) as usize,
        };
        assert forall|p: int| from <= p && occurs_at(hay, q, p) implies cur.contains(
            SearchMatch {
                line_index: row,
                char_start: p as usize,
                char_end: (p + q.len()) as usize,
            },
        ) by {
            let mp = SearchMatch {
                line_index: row,
                char_start: p as usize,
                char_end: (p + q.len()) as usize,
            };
            if p == from {
                assert(occurs_at(hay, q, from));
                assert(cur == seq![m0] + rest);
                assert(cur[0] == m0);
                assert(mp == m0);
            } else {
                assert(rest.contains(mp));
                let j = choose|j: int| 0 <= j < rest.len() && rest[j] == mp;
                if occurs_at(hay, q, from) {
                    assert(cur == seq![m0] + rest);
                    assert(cur[j + 1] == rest[j]);
                } else {
                    assert(cur == rest);
                }
            }
        }
        assert forall|k: int| 0 <= k < cur.len() implies {
            let m = #[trigger] cur[k];
            occurs_at(hay, q, m.char_start as int) && m.line_index == row && m.char_end
                == m.char_start + q.len() && from <= m.char_start
        } by {
            if occurs_at(hay, q, from) {
                assert(cur == seq![m0] + rest);
                if k == 0 {
                    assert(cur[0] == m0);
                } else {
                    assert(cur[k] == rest[k - 1]);
                }
            } else {
                assert(cur == rest);
            }
        }
    }
}

/// Check whether `q` occurs in `hay` at position `i`.
fn occurs_at_exec(hay: &[char], q: &[char], i: usize) -> (r: bool)
    requires
        i + q@.len() <= hay@.len(),
    ensures
        r == occurs_at(hay@, q@, i as int),
{
    let n = hay.len();
    let mut k: usize = 0;
    while k < q.len()
        invariant
            k <= q@.len(),
            n == hay@.len(),
            i + q@.len() <= n,
            forall|m: int| 0 <= m < k ==> hay@[i + m] == q@[m],
        decreases q@.len() - k,
    {
        if hay[i + k] != q[k] {
            assert(hay@.subrange(i as int, i + q@.len())[k as int] == hay@[i + k]);
            return false;
        }
        k += 1;
    }
    assert(hay@.subrange(i as int, i + q@.len()) =~= q@);
    true
}

/// Append every match of `query` in `line_lower` to `matches`, stamped
/// with row `line_index`.  Both strings are expected already lower-cased;
/// overlapping occurrences are all found, in ascending position order.
#[verifier::loop_isolation(false)]
pub fn find_matches_in_line(
    line_lower: &str,
    line_index: usize,
    query: &str,
    matches: &mut Vec<SearchMatch>,
)
    requires
        query@.len() >= 1,
    ensures
        final(matches)@ == old(matches)@ + spec_matches_in_line(
            line_lower@,
            query@,
            line_index,
            0,
        ),
{
    let hay = crate::strutil::to_chars(line_lower);
    let q = crate::strutil::to_chars(query);
    let hs = hay.as_slice();
    let qs = q.as_slice();
    if q.len() > hay.len() {
        proof {
            assert(spec_matches_in_line(line_lower@, query@, line_index, 0) =~= Seq::<
                SearchMatch,
            >::empty());
            assert(matches@ =~= matches@ + spec_matches_in_line(
                line_lower@,
                query@,
                line_index,
                0,
            ));
        }
        return ;
    }
    let last_start = hay.len() - q.len();
    let mut from: usize = 0;
    while from <= last_start
        invariant
            from <= last_start + 1,
            matches@ + spec_matches_in_line(line_lower@, query@, line_index, from as int) == old(
                matches,
            )@ + spec_matches_in_line(line_lower@, query@, line_index, 0),
        decreases last_start + 1 - from,
    {
        let ghost pre = matches@;
        if occurs_at_exec(hs, qs, from) {
            let m = SearchMatch { line_index, char_start: from, char_end: from + q.len() };
            matches.push(m);
            proof {
                assert(spec_matches_in_line(line_lower@, query@, line_index, from as int)
                    =~= seq![m] + spec_matches_in_line(line_lower@, query@, line_index, from + 1));
                assert(matches@ + spec_matches_in_line(line_lower@, query@, line_index, from + 1)
                    =~= pre + spec_matches_in_line(line_lower@, query@, line_index, from as int));
            }
        } else {
            proof {
                assert(spec_matches_in_line(line_lower@, query@, line_index, from as int)
                    == spec_matches_in_line(line_lower@, query@, line_index, from + 1));
            }
        }
        from += 1;
    }
    proof {
        assert(spec_matches_in_line(line_lower@, query@, line_index, from as int) =~= Seq::<
            SearchMatch,
        >::empty());
        assert(matches@ + Seq::<SearchMatch>::empty() =~= matches@);
    }
}


// ---------------------------------------------------------------------------
// The whole-diff walk
// ---------------------------------------------------------------------------

/// Matches in the content lines `k..` of a hunk, whose rows start at `row`.
pub open spec fn spec_search_lines(
    lines: Seq<crate::diff_model::HunkLineV>,
    q: Seq<char>,
    row: int,
    k: int,
) -> Seq<SearchMatch>
    decreases lines.len() - k,
{
    if k < 0 || k >= lines.len() {
        Seq::empty()
    } else {
        spec_matches_in_line(lower_of(lines[k].content), q, row as usize, 0)
            + spec_search_lines(lines, q, row + 1, k + 1)
    }
}

/// Matches in the hunks `j..` of a file, whose rows start at `row`:
/// each hunk's header row, then its content lines.
pub open spec fn spec_search_hunks(
    hunks: Seq<HunkV>,
    nfl: Option<usize>,
    q: Seq<char>,
    row: int,
    j: int,
) -> Seq<SearchMatch>
    decreases hunks.len() - j,
{
    if j < 0 || j >= hunks.len() {
        Seq::empty()
    } else {
        let h = hunks[j];
        let above: int = if has_expand_above(h) {
            1int
        } else {
            0int
        };
        spec_matches_in_line(lower_of(h.header), q, row as usize, 0) + spec_search_lines(
            h.lines,
            q,
            row + 1 + above,
            0,
        ) + spec_search_hunks(hunks, nfl, q, row + crate::rows::spec_hunk_rows(h, nfl), j + 1)
    }
}

/// Matches in the files `i..`, whose rows start at `row`: both path rows,
/// then the hunks.
pub open spec fn spec_search_files(
    files: Seq<FileDiffV>,
    q: Seq<char>,
    row: int,
    i: int,
) -> Seq<SearchMatch>
    decreases files.len() - i,
{
    if i < 0 || i >= files.len() {
        Seq::empty()
    } else {
        let f = files[i];
        let r0: int = row + if i > 0 {
            3int
        } else {
            0int
        };
        spec_matches_in_line(lower_of(f.old_path), q, r0 as usize, 0) + spec_matches_in_line(
            lower_of(f.new_path),
            q,
            (r0 + 1) as usize,
            0,
        ) + spec_search_hunks(f.hunks, f.new_file_lines, q, r0 + 3, 0) + spec_search_files(
            files,
            q,
            r0 + crate::rows::spec_file_rows(f),
            i + 1,
        )
    }
}

/// Every match of the lower-cased query across the whole diff, in
/// row-then-column order, in the global row numbering.
pub open spec fn spec_search_diff(files: Seq<FileDiffV>, q_lower: Seq<char>) -> Seq<SearchMatch> {
    spec_search_files(files, q_lower, 0, 0)
}

/// Search the loaded diff for a non-empty query, case-insensitively.
/// Matches cover file paths, hunk headers and line contents, and carry the
/// same row numbers the cursor and scroll state use.
#[verifier::loop_isolation(false)]
#[verifier::rlimit(100)]
pub fn search_diff(files: &Vec<FileDiff>, query: &str) -> (r: Vec<SearchMatch>)
    requires
        query@.len() >= 1,
        crate::rows::spec_content_rows(crate::diff_model::files_view(files@)) <= usize::MAX,
    ensures
        r@ == spec_search_diff(crate::diff_model::files_view(files@), lower_of(query@)),
{
    let ghost fv = crate::diff_model::files_view(files@);
    let ghost q = lower_of(query@);
    let ghost total = crate::rows::spec_content_rows(fv);
    let query_l = lowercase(query);
    let mut matches: Vec<SearchMatch> = Vec::new();
    let mut row: usize = 0;
    let mut i: usize = 0;
    proof {
        assert(matches@ + spec_search_files(fv, q, 0, 0) =~= spec_search_diff(fv, q));
    }
    while i < files.len()
        invariant
            i <= files@.len(),
            fv == crate::diff_model::files_view(files@),
            total == crate::rows::spec_content_rows(fv),
            total <= usize::MAX,
            q == lower_of(query@),
            query_l@ == q,
            query_l@.len() >= 1,
            matches@ + spec_search_files(fv, q, row as int, i as int) == spec_search_diff(fv, q),
            row as int + crate::rows::spec_rows_from(fv, i as int) == total,
        decreases files@.len() - i,
    {
        let f = &files[i];
        proof {
            assert(fv[i as int] == f@);
            crate::rows::lemma_rows_from_nonneg(fv, i + 1);
            crate::rows::lemma_hunk_rows_nonneg(f@.hunks, f@.new_file_lines, 0);
        }
        if i > 0 {
            row = row + 3;
        }
        let ghost r0 = row as int;
        let old_l = lowercase(f.old_path.as_str());
        find_matches_in_line(old_l.as_str(), row, query_l.as_str(), &mut matches);
        row = row + 1;
        let new_l = lowercase(f.new_path.as_str());
        find_matches_in_line(new_l.as_str(), row, query_l.as_str(), &mut matches);
        row = row + 2;
        let ghost hrow0 = row as int;
        let mut j: usize = 0;
        proof {
            assert(f@.hunks.len() == f.hunks@.len());
        }
        while j < f.hunks.len()
            invariant
                j <= f.hunks@.len(),
                i < files@.len(),
                fv[i as int] == f@,
                fv == crate::diff_model::files_view(files@),
                total == crate::rows::spec_content_rows(fv),
                total <= usize::MAX,
                q == lower_of(query@),
                query_l@ == q,
                query_l@.len() >= 1,
                matches@ + spec_search_hunks(f@.hunks, f@.new_file_lines, q, row as int, j as int)
                    + spec_search_files(fv, q, r0 + crate::rows::spec_file_rows(f@), i + 1)
                    == spec_search_diff(fv, q),
                row as int + crate::rows::spec_hunks_rows_from(f@.hunks, f@.new_file_lines, j as int)
                    + crate::rows::spec_rows_from(fv, i + 1) == total,
            decreases f.hunks@.len() - j,
        {
            let h = &f.hunks[j];
            proof {
                assert(f@.hunks[j as int] == h@);
                crate::rows::lemma_hunk_rows_nonneg(f@.hunks, f@.new_file_lines, j + 1);
                crate::rows::lemma_rows_from_nonneg(fv, i + 1);
            }
            let header_l = lowercase(h.header.as_str());
            find_matches_in_line(header_l.as_str(), row, query_l.as_str(), &mut matches);
            let ghost hunk_base = row as int;
            row = row + 1;
            if h.available_lines_above() > 0 {
                row = row + 1;
            }
            let mut k: usize = 0;
            proof {
                assert(h@.lines.len() == h.lines@.len());
            }
            while k < h.lines.len()
                invariant
                    k <= h.lines@.len(),
                    j < f.hunks@.len(),
                    i < files@.len(),
                    fv[i as int] == f@,
                    f@.hunks[j as int] == h@,
                    fv == crate::diff_model::files_view(files@),
                    total == crate::rows::spec_content_rows(fv),
                    total <= usize::MAX,
                    q == lower_of(query@),
                    query_l@ == q,
                    query_l@.len() >= 1,
                    matches@ + spec_search_lines(h@.lines, q, row as int, k as int)
                        + spec_search_hunks(
                        f@.hunks,
                        f@.new_file_lines,
                        q,
                        hunk_base + crate::rows::spec_hunk_rows(h@, f@.new_file_lines),
                        j + 1,
                    ) + spec_search_files(fv, q, r0 + crate::rows::spec_file_rows(f@), i + 1)
                        == spec_search_diff(fv, q),
                    row as int + (h.lines@.len() - k) + (if has_expand_below(
                        h@,
                        f@.new_file_lines,
                    ) {
                        1int
                    } else {
                        0int
                    }) + 1 + crate::rows::spec_hunks_rows_from(
                        f@.hunks,
                        f@.new_file_lines,
                        j + 1,
                    ) + crate::rows::spec_rows_from(fv, i + 1) == total,
                decreases h.lines@.len() - k,
            {
                let l = &h.lines[k];
                proof {
                    assert(h@.lines[k as int] == l@);
                    crate::rows::lemma_hunk_rows_nonneg(f@.hunks, f@.new_file_lines, j + 1);
                    crate::rows::lemma_rows_from_nonneg(fv, i + 1);
                }
                let content_l = lowercase(l.content.as_str());
                find_matches_in_line(content_l.as_str(), row, query_l.as_str(), &mut matches);
                row = row + 1;
                k += 1;
            }
            let below = match f.new_file_lines {
                Some(fl) => h.can_expand_below(fl),
                None => false,
            };
            if below {
                row = row + 1;
            }
            row = row + 1;
            j += 1;
        }
        i += 1;
    }
    proof {
        assert(spec_search_files(fv, q, row as int, i as int) =~= Seq::<SearchMatch>::empty());
        assert(matches@ + Seq::<SearchMatch>::empty() =~= matches@);
    }
    matches
}

/// The index of the next match, wrapping from the last to the first.
pub fn next_match_index(current: Option<usize>, match_count: usize) -> (r: Option<usize>)
    ensures
        match_count == 0 ==> r is None,
        match_count > 0 ==> r == Some(
            match current {
                Some(i) => if i + 1 >= match_count {
                    0usize
                } else {
                    (i + 1) as usize
                },
                None => 0usize,
            },
        ),
{
    if match_count == 0 {
        return None;
    }
    match current {
        Some(i) => {
            if i >= match_count - 1 {
                Some(0)
            } else {
                Some(i + 1)
            }
        }
        None => Some(0),
    }
}

/// The index of the previous match, wrapping from the first to the last.
pub fn prev_match_index(current: Option<usize>, match_count: usize) -> (r: Option<usize>)
    ensures
        match_count == 0 ==> r is None,
        match_count > 0 ==> r == Some(
            match current {
                Some(i) => if i == 0 {
                    (match_count - 1) as usize
                } else {
                    (i - 1) as usize
                },
                None => 0usize,
            },
        ),
{
    if match_count == 0 {
        return None;
    }
    match current {
        Some(i) => {
            if i == 0 {
                Some(match_count - 1)
            } else {
                Some(i - 1)
            }
        }
        None => Some(0),
    }
}

/// The character spans of the matches on one row, in order.
pub open spec fn spec_spans_from(ms: Seq<SearchMatch>, row: usize, k: int) -> Seq<(usize, usize)>
    decreases ms.len() - k,
{
    if k < 0 || k >= ms.len() {
        Seq::empty()
    } else {
        (if ms[k].line_index == row {
            seq![(ms[k].char_start, ms[k].char_end)]
        } else {
            Seq::empty()
        }) + spec_spans_from(ms, row, k + 1)
    }
}

/// The highlight spans for one row: the `(start, end)` character ranges of
/// every match on it.
#[verifier::loop_isolation(false)]
pub fn get_matches_for_line(matches: &Vec<SearchMatch>, line_index: usize) -> (r: Vec<
    (usize, usize),
>)
    ensures
        r@ == spec_spans_from(matches@, line_index, 0),
{
    let mut r: Vec<(usize, usize)> = Vec::new();
    let mut k: usize = 0;
    proof {
        assert(r@ + spec_spans_from(matches@, line_index, 0) =~= spec_spans_from(
            matches@,
            line_index,
            0,
        ));
    }
    while k < matches.len()
        invariant
            k <= matches@.len(),
            r@ + spec_spans_from(matches@, line_index, k as int) == spec_spans_from(
                matches@,
                line_index,
                0,
            ),
        decreases matches@.len() - k,
    {
        let ghost pre = r@;
        let m = matches[k];
        if m.line_index == line_index {
            r.push((m.char_start, m.char_end));
            proof {
                assert(r@ + spec_spans_from(matches@, line_index, k + 1) =~= pre
                    + spec_spans_from(matches@, line_index, k as int));
            }
        }
        k += 1;
    }
    proof {
        assert(spec_spans_from(matches@, line_index, k as int) =~= Seq::<(usize, usize)>::empty());
        assert(r@ + Seq::<(usize, usize)>::empty() =~= r@);
    }
    r
}

// ---------------------------------------------------------------------------
// Completeness of the search walk
// ---------------------------------------------------------------------------

proof fn lemma_contains_concat_l<A>(a: Seq<A>, b: Seq<A>, x: A)
    requires
        a.contains(x),
    ensures
        (a + b).contains(x),
{
    let j = choose|j: int| 0 <= j < a.len() && a[j] == x;
    assert((a + b)[j] == x);
}

proof fn lemma_contains_concat_r<A>(a: Seq<A>, b: Seq<A>, x: A)
    requires
        b.contains(x),
    ensures
        (a + b).contains(x),
{
    let j = choose|j: int| 0 <= j < b.len() && b[j] == x;
    assert((a + b)[a.len() + j] == x);
}

/// The global row of one content line: its file's base row, the file
/// header rows, the hunks before it, then the hunk header, the expand
/// affordance if any, and the line's own offset.
pub open spec fn spec_line_row(files: Seq<FileDiffV>, fi: int, hj: int, lk: int) -> int {
    let file_base = crate::rows::spec_content_rows(files) - crate::rows::spec_rows_from(files, fi)
        + (if fi > 0 {
        3int
    } else {
        0int
    });
    let hs = files[fi].hunks;
    let nfl = files[fi].new_file_lines;
    let hunk_base = file_base + 3 + (crate::rows::spec_hunks_rows_from(hs, nfl, 0)
        - crate::rows::spec_hunks_rows_from(hs, nfl, hj));
    hunk_base + 1 + (if has_expand_above(hs[hj]) {
        1int
    } else {
        0int
    }) + lk
}

proof fn lemma_search_lines_contains(
    lines: Seq<crate::diff_model::HunkLineV>,
    q: Seq<char>,
    row: int,
    k: int,
    lk: int,
    col: int,
)
    requires
        q.len() >= 1,
        0 <= k <= lk < lines.len(),
        lower_of(lines[lk].content).len() <= usize::MAX,
        occurs_at(lower_of(lines[lk].content), q, col),
    ensures
        spec_search_lines(lines, q, row, k).contains(
            SearchMatch {
                line_index: (row + (lk - k)) as usize,
                char_start: col as usize,
                char_end: (col + q.len()) as usize,
            },
        ),
    decreases lk - k,
{
    let m = SearchMatch {
        line_index: (row + (lk - k)) as usize,
        char_start: col as usize,
        char_end: (col + q.len()) as usize,
    };
    if k == lk {
        lemma_matches_in_line_complete(lower_of(lines[lk].content), q, row as usize, 0);
        let a = spec_matches_in_line(lower_of(lines[lk].content), q, row as usize, 0);
        assert(a.contains(m));
        lemma_contains_concat_l(a, spec_search_lines(lines, q, row + 1, k + 1), m);
    } else {
        lemma_search_lines_contains(lines, q, row + 1, k + 1, lk, col);
        lemma_contains_concat_r(
            spec_matches_in_line(lower_of(lines[k].content), q, row as usize, 0),
            spec_search_lines(lines, q, row + 1, k + 1),
            m,
        );
    }
}

proof fn lemma_search_hunks_contains(
    hunks: Seq<HunkV>,
    nfl: Option<usize>,
    q: Seq<char>,
    row: int,
    j: int,
    hj: int,
    lk: int,
    col: int,
)
    requires
        q.len() >= 1,
        0 <= j <= hj < hunks.len(),
        0 <= lk < hunks[hj].lines.len(),
        lower_of(hunks[hj].lines[lk].content).len() <= usize::MAX,
        occurs_at(lower_of(hunks[hj].lines[lk].content), q, col),
    ensures
        spec_search_hunks(hunks, nfl, q, row, j).contains(
            SearchMatch {
                line_index: (row + (crate::rows::spec_hunks_rows_from(hunks, nfl, j)
                    - crate::rows::spec_hunks_rows_from(hunks, nfl, hj)) + 1 + (
                if has_expand_above(hunks[hj]) {
                    1int
                } else {
                    0int
                }) + lk) as usize,
                char_start: col as usize,
                char_end: (col + q.len()) as usize,
            },
        ),
    decreases hj - j,
{
    let h = hunks[j];
    let above: int = if has_expand_above(h) {
        1
    } else {
        0
    };
    let head = spec_matches_in_line(lower_of(h.header), q, row as usize, 0);
    let body = spec_search_lines(h.lines, q, row + 1 + above, 0);
    let rest = spec_search_hunks(hunks, nfl, q, row + crate::rows::spec_hunk_rows(h, nfl), j + 1);
    if j == hj {
        let m = SearchMatch {
            line_index: (row + 1 + above + lk) as usize,
            char_start: col as usize,
            char_end: (col + q.len()) as usize,
        };
        lemma_search_lines_contains(h.lines, q, row + 1 + above, 0, lk, col);
        lemma_contains_concat_l(body, rest, m);
        lemma_contains_concat_r(head, body + rest, m);
        assert(head + body + rest =~= head + (body + rest));
    } else {
        lemma_search_hunks_contains(
            hunks,
            nfl,
            q,
            row + crate::rows::spec_hunk_rows(h, nfl),
            j + 1,
            hj,
            lk,
            col,
        );
        let m = SearchMatch {
            line_index: (row + (crate::rows::spec_hunks_rows_from(hunks, nfl, j)
                - crate::rows::spec_hunks_rows_from(hunks, nfl, hj)) + 1 + (
            if has_expand_above(hunks[hj]) {
                1int
            } else {
                0int
            }) + lk) as usize,
            char_start: col as usize,
            char_end: (col + q.len()) as usize,
        };
        assert(crate::rows::spec_hunks_rows_from(hunks, nfl, j) == crate::rows::spec_hunk_rows(
            h,
            nfl,
        ) + crate::rows::spec_hunks_rows_from(hunks, nfl, j + 1));
        assert(rest.contains(m));
        lemma_contains_concat_r(body, rest, m);
        lemma_contains_concat_r(head, body + rest, m);
        assert(head + body + rest =~= head + (body + rest));
    }
}

/// Search is complete over content lines: wherever the lower-cased query
/// occurs in a line's lower-cased content, the whole-diff match list holds
/// a match at that line's global row and that character position.
#[verifier::rlimit(100)]
pub proof fn lemma_search_complete_line(
    files: Seq<FileDiffV>,
    q: Seq<char>,
    fi: int,
    hj: int,
    lk: int,
    col: int,
)
    requires
        q.len() >= 1,
        0 <= fi < files.len(),
        0 <= hj < files[fi].hunks.len(),
        0 <= lk < files[fi].hunks[hj].lines.len(),
        lower_of(files[fi].hunks[hj].lines[lk].content).len() <= usize::MAX,
        occurs_at(lower_of(files[fi].hunks[hj].lines[lk].content), q, col),
    ensures
        spec_search_diff(files, q).contains(
            SearchMatch {
                line_index: spec_line_row(files, fi, hj, lk) as usize,
                char_start: col as usize,
                char_end: (col + q.len()) as usize,
            },
        ),
{
    lemma_search_files_contains(files, q, 0, 0, fi, hj, lk, col);
    assert(crate::rows::spec_content_rows(files) - crate::rows::spec_rows_from(files, 0) == 0);
}

proof fn lemma_search_files_contains(
    files: Seq<FileDiffV>,
    q: Seq<char>,
    row: int,
    i: int,
    fi: int,
    hj: int,
    lk: int,
    col: int,
)
    requires
        q.len() >= 1,
        0 <= i <= fi < files.len(),
        0 <= hj < files[fi].hunks.len(),
        0 <= lk < files[fi].hunks[hj].lines.len(),
        lower_of(files[fi].hunks[hj].lines[lk].content).len() <= usize::MAX,
        occurs_at(lower_of(files[fi].hunks[hj].lines[lk].content), q, col),
    ensures
        spec_search_files(files, q, row, i).contains(
            SearchMatch {
                line_index: (row + (crate::rows::spec_rows_from(files, i)
                    - crate::rows::spec_rows_from(files, fi)) + (if fi > 0 {
                    3int
                } else {
                    0int
                }) + 3 + (crate::rows::spec_hunks_rows_from(
                    files[fi].hunks,
                    files[fi].new_file_lines,
                    0,
                ) - crate::rows::spec_hunks_rows_from(
                    files[fi].hunks,
                    files[fi].new_file_lines,
                    hj,
                )) + 1 + (if has_expand_above(files[fi].hunks[hj]) {
                    1int
                } else {
                    0int
                }) + lk) as usize,
                char_start: col as usize,
                char_end: (col + q.len()) as usize,
            },
        ),
    decreases fi - i,
{
    let f = files[i];
    let r0: int = row + if i > 0 {
        3int
    } else {
        0int
    };
    let a = spec_matches_in_line(lower_of(f.old_path), q, r0 as usize, 0);
    let b = spec_matches_in_line(lower_of(f.new_path), q, (r0 + 1) as usize, 0);
    let c = spec_search_hunks(f.hunks, f.new_file_lines, q, r0 + 3, 0);
    let d = spec_search_files(files, q, r0 + crate::rows::spec_file_rows(f), i + 1);
    if i == fi {
        lemma_search_hunks_contains(f.hunks, f.new_file_lines, q, r0 + 3, 0, hj, lk, col);
        let m = SearchMatch {
            line_index: (r0 + 3 + (crate::rows::spec_hunks_rows_from(
                f.hunks,
                f.new_file_lines,
                0,
            ) - crate::rows::spec_hunks_rows_from(f.hunks, f.new_file_lines, hj)) + 1 + (
            if has_expand_above(f.hunks[hj]) {
                1int
            } else {
                0int
            }) + lk) as usize,
            char_start: col as usize,
            char_end: (col + q.len()) as usize,
        };
        lemma_contains_concat_l(c, d, m);
        lemma_contains_concat_r(b, c + d, m);
        lemma_contains_concat_r(a, b + (c + d), m);
        assert(a + b + c + d =~= a + (b + (c + d)));
    } else {
        lemma_search_files_contains(
            files,
            q,
            r0 + crate::rows::spec_file_rows(f),
            i + 1,
            fi,
            hj,
            lk,
            col,
        );
        let m = SearchMatch {
            line_index: (row + (crate::rows::spec_rows_from(files, i)
                - crate::rows::spec_rows_from(files, fi)) + (if fi > 0 {
                3int
            } else {
                0int
            }) + 3 + (crate::rows::spec_hunks_rows_from(
                files[fi].hunks,
                files[fi].new_file_lines,
                0,
            ) - crate::rows::spec_hunks_rows_from(
                files[fi].hunks,
                files[fi].new_file_lines,
                hj,
            )) + 1 + (if has_expand_above(files[fi].hunks[hj]) {
                1int
            } else {
                0int
            }) + lk) as usize,
            char_start: col as usize,
            char_end: (col + q.len()) as usize,
        };
        lemma_contains_concat_r(c, d, m);
        lemma_contains_concat_r(b, c + d, m);
        lemma_contains_concat_r(a, b + (c + d), m);
        assert(a + b + c + d =~= a + (b + (c + d)));
    }
}

/// Search is complete over hunk headers: an occurrence in a header's
/// lower-cased text yields a match on the header's global row.
#[verifier::rlimit(100)]
pub proof fn lemma_search_complete_header(
    files: Seq<FileDiffV>,
    q: Seq<char>,
    fi: int,
    hj: int,
    col: int,
)
    requires
        q.len() >= 1,
        0 <= fi < files.len(),
        0 <= hj < files[fi].hunks.len(),
        lower_of(files[fi].hunks[hj].header).len() <= usize::MAX,
        occurs_at(lower_of(files[fi].hunks[hj].header), q, col),
    ensures
        spec_search_diff(files, q).contains(
            SearchMatch {
                line_index: (spec_line_row(files, fi, hj, 0) - 1 - (if has_expand_above(
                    files[fi].hunks[hj],
                ) {
                    1int
                } else {
                    0int
                })) as usize,
                char_start: col as usize,
                char_end: (col + q.len()) as usize,
            },
        ),
{
    lemma_header_files_contains(files, q, 0, 0, fi, hj, col);
    assert(crate::rows::spec_content_rows(files) - crate::rows::spec_rows_from(files, 0) == 0);
}

proof fn lemma_header_hunks_contains(
    hunks: Seq<HunkV>,
    nfl: Option<usize>,
    q: Seq<char>,
    row: int,
    j: int,
    hj: int,
    col: int,
)
    requires
        q.len() >= 1,
        0 <= j <= hj < hunks.len(),
        lower_of(hunks[hj].header).len() <= usize::MAX,
        occurs_at(lower_of(hunks[hj].header), q, col),
    ensures
        spec_search_hunks(hunks, nfl, q, row, j).contains(
            SearchMatch {
                line_index: (row + (crate::rows::spec_hunks_rows_from(hunks, nfl, j)
                    - crate::rows::spec_hunks_rows_from(hunks, nfl, hj))) as usize,
                char_start: col as usize,
                char_end: (col + q.len()) as usize,
            },
        ),
    decreases hj - j,
{
    let h = hunks[j];
    let above: int = if has_expand_above(h) {
        1
    } else {
        0
    };
    let head = spec_matches_in_line(lower_of(h.header), q, row as usize, 0);
    let body = spec_search_lines(h.lines, q, row + 1 + above, 0);
    let rest = spec_search_hunks(hunks, nfl, q, row + crate::rows::spec_hunk_rows(h, nfl), j + 1);
    if j == hj {
        let m = SearchMatch {
            line_index: row as usize,
            char_start: col as usize,
            char_end: (col + q.len()) as usize,
        };
        lemma_matches_in_line_complete(lower_of(h.header), q, row as usize, 0);
        assert(head.contains(m));
        lemma_contains_concat_l(head, body + rest, m);
        assert(head + body + rest =~= head + (body + rest));
    } else {
        lemma_header_hunks_contains(
            hunks,
            nfl,
            q,
            row + crate::rows::spec_hunk_rows(h, nfl),
            j + 1,
            hj,
            col,
        );
        let m = SearchMatch {
            line_index: (row + (crate::rows::spec_hunks_rows_from(hunks, nfl, j)
                - crate::rows::spec_hunks_rows_from(hunks, nfl, hj))) as usize,
            char_start: col as usize,
            char_end: (col + q.len()) as usize,
        };
        assert(crate::rows::spec_hunks_rows_from(hunks, nfl, j) == crate::rows::spec_hunk_rows(
            h,
            nfl,
        ) + crate::rows::spec_hunks_rows_from(hunks, nfl, j + 1));
        assert(rest.contains(m));
        lemma_contains_concat_r(body, rest, m);
        lemma_contains_concat_r(head, body + rest, m);
        assert(head + body + rest =~= head + (body + rest));
    }
}

proof fn lemma_header_files_contains(
    files: Seq<FileDiffV>,
    q: Seq<char>,
    row: int,
    i: int,
    fi: int,
    hj: int,
    col: int,
)
    requires
        q.len() >= 1,
        0 <= i <= fi < files.len(),
        0 <= hj < files[fi].hunks.len(),
        lower_of(files[fi].hunks[hj].header).len() <= usize::MAX,
        occurs_at(lower_of(files[fi].hunks[hj].header), q, col),
    ensures
        spec_search_files(files, q, row, i).contains(
            SearchMatch {
                line_index: (row + (crate::rows::spec_rows_from(files, i)
                    - crate::rows::spec_rows_from(files, fi)) + (if fi > 0 {
                    3int
                } else {
                    0int
                }) + 3 + (crate::rows::spec_hunks_rows_from(
                    files[fi].hunks,
                    files[fi].new_file_lines,
                    0,
                ) - crate::rows::spec_hunks_rows_from(
                    files[fi].hunks,
                    files[fi].new_file_lines,
                    hj,
                ))) as usize,
                char_start: col as usize,
                char_end: (col + q.len()) as usize,
            },
        ),
    decreases fi - i,
{
    let f = files[i];
    let r0: int = row + if i > 0 {
        3int
    } else {
        0int
    };
    let a = spec_matches_in_line(lower_of(f.old_path), q, r0 as usize, 0);
    let b = spec_matches_in_line(lower_of(f.new_path), q, (r0 + 1) as usize, 0);
    let c = spec_search_hunks(f.hunks, f.new_file_lines, q, r0 + 3, 0);
    let d = spec_search_files(files, q, r0 + crate::rows::spec_file_rows(f), i + 1);
    if i == fi {
        lemma_header_hunks_contains(f.hunks, f.new_file_lines, q, r0 + 3, 0, hj, col);
        let m = SearchMatch {
            line_index: (r0 + 3 + (crate::rows::spec_hunks_rows_from(
                f.hunks,
                f.new_file_lines,
                0,
            ) - crate::rows::spec_hunks_rows_from(f.hunks, f.new_file_lines, hj))) as usize,
            char_start: col as usize,
            char_end: (col + q.len()) as usize,
        };
        lemma_contains_concat_l(c, d, m);
        lemma_contains_concat_r(b, c + d, m);
        lemma_contains_concat_r(a, b + (c + d), m);
        assert(a + b + c + d =~= a + (b + (c + d)));
    } else {
        lemma_header_files_contains(
            files,
            q,
            r0 + crate::rows::spec_file_rows(f),
            i + 1,
            fi,
            hj,
            col,
        );
        let m = SearchMatch {
            line_index: (row + (crate::rows::spec_rows_from(files, i)
                - crate::rows::spec_rows_from(files, fi)) + (if fi > 0 {
                3int
            } else {
                0int
            }) + 3 + (crate::rows::spec_hunks_rows_from(
                files[fi].hunks,
                files[fi].new_file_lines,
                0,
            ) - crate::rows::spec_hunks_rows_from(
                files[fi].hunks,
                files[fi].new_file_lines,
                hj,
            ))) as usize,
            char_start: col as usize,
            char_end: (col + q.len()) as usize,
        };
        assert(d.contains(m));
        lemma_contains_concat_r(c, d, m);
        lemma_contains_concat_r(b, c + d, m);
        lemma_contains_concat_r(a, b + (c + d), m);
        assert(a + b + c + d =~= a + (b + (c + d)));
    }
}

/// Search is complete over file paths: an occurrence in a path's
/// lower-cased text yields a match on the path's own row — the file's
/// first content row for the old path, the one after it for the new path.
#[verifier::rlimit(100)]
pub proof fn lemma_search_complete_path(
    files: Seq<FileDiffV>,
    q: Seq<char>,
    fi: int,
    new_side: bool,
    col: int,
)
    requires
        q.len() >= 1,
        0 <= fi < files.len(),
        !new_side ==> lower_of(files[fi].old_path).len() <= usize::MAX && occurs_at(
            lower_of(files[fi].old_path),
            q,
            col,
        ),
        new_side ==> lower_of(files[fi].new_path).len() <= usize::MAX && occurs_at(
            lower_of(files[fi].new_path),
            q,
            col,
        ),
    ensures
        spec_search_diff(files, q).contains(
            SearchMatch {
                line_index: (crate::rows::spec_content_rows(files)
                    - crate::rows::spec_rows_from(files, fi) + (if fi > 0 {
                    3int
                } else {
                    0int
                }) + (if new_side {
                    1int
                } else {
                    0int
                })) as usize,
                char_start: col as usize,
                char_end: (col + q.len()) as usize,
            },
        ),
{
    lemma_path_files_contains(files, q, 0, 0, fi, new_side, col);
    assert(crate::rows::spec_content_rows(files) - crate::rows::spec_rows_from(files, 0) == 0);
}

proof fn lemma_path_files_contains(
    files: Seq<FileDiffV>,
    q: Seq<char>,
    row: int,
    i: int,
    fi: int,
    new_side: bool,
    col: int,
)
    requires
        q.len() >= 1,
        0 <= i <= fi < files.len(),
        !new_side ==> lower_of(files[fi].old_path).len() <= usize::MAX && occurs_at(
            lower_of(files[fi].old_path),
            q,
            col,
        ),
        new_side ==> lower_of(files[fi].new_path).len() <= usize::MAX && occurs_at(
            lower_of(files[fi].new_path),
            q,
            col,
        ),
    ensures
        spec_search_files(files, q, row, i).contains(
            SearchMatch {
                line_index: (row + (crate::rows::spec_rows_from(files, i)
                    - crate::rows::spec_rows_from(files, fi)) + (if fi > 0 {
                    3int
                } else {
                    0int
                }) + (if new_side {
                    1int
                } else {
                    0int
                })) as usize,
                char_start: col as usize,
                char_end: (col + q.len()) as usize,
            },
        ),
    decreases fi - i,
{
    let f = files[i];
    let r0: int = row + if i > 0 {
        3int
    } else {
        0int
    };
    let a = spec_matches_in_line(lower_of(f.old_path), q, r0 as usize, 0);
    let b = spec_matches_in_line(lower_of(f.new_path), q, (r0 + 1) as usize, 0);
    let c = spec_search_hunks(f.hunks, f.new_file_lines, q, r0 + 3, 0);
    let d = spec_search_files(files, q, r0 + crate::rows::spec_file_rows(f), i + 1);
    if i == fi {
        if new_side {
            let m = SearchMatch {
                line_index: (r0 + 1) as usize,
                char_start: col as usize,
                char_end: (col + q.len()) as usize,
            };
            lemma_matches_in_line_complete(lower_of(f.new_path), q, (r0 + 1) as usize, 0);
            assert(b.contains(m));
            lemma_contains_concat_l(b, c + d, m);
            lemma_contains_concat_r(a, b + (c + d), m);
            assert(a + b + c + d =~= a + (b + (c + d)));
        } else {
            let m = SearchMatch {
                line_index: r0 as usize,
                char_start: col as usize,
                char_end: (col + q.len()) as usize,
            };
            lemma_matches_in_line_complete(lower_of(f.old_path), q, r0 as usize, 0);
            assert(a.contains(m));
            lemma_contains_concat_l(a, b + (c + d), m);
            assert(a + b + c + d =~= a + (b + (c + d)));
        }
    } else {
        lemma_path_files_contains(
            files,
            q,
            r0 + crate::rows::spec_file_rows(f),
            i + 1,
            fi,
            new_side,
            col,
        );
        let m = SearchMatch {
            line_index: (row + (crate::rows::spec_rows_from(files, i)
                - crate::rows::spec_rows_from(files, fi)) + (if fi > 0 {
                3int
            } else {
                0int
            }) + (if new_side {
                1int
            } else {
                0int
            })) as usize,
            char_start: col as usize,
            char_end: (col + q.len()) as usize,
        };
        assert(d.contains(m));
        lemma_contains_concat_r(c, d, m);
        lemma_contains_concat_r(b, c + d, m);
        lemma_contains_concat_r(a, b + (c + d), m);
        assert(a + b + c + d =~= a + (b + (c + d)));
    }
}

} // verus!
