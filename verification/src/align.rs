//! The side-by-side alignment engine: one file's hunks become two
//! column-aligned row sequences.  Context lines occupy the same row in both
//! columns; a run of removed lines is paired row-by-row against the added
//! run that follows it, the shorter side padded with blank rows; standalone
//! added runs get blank left padding.  Rows are horizontally scrolled,
//! clipped with `<`/`>` markers, and padded to exactly the column width.

use vstd::prelude::*;

use crate::diff_model::{FileDiff, FileDiffV, HunkLineV, HunkV, LineType};
use crate::strutil::{chars_to_string, spec_dec, to_chars};

verus! {

/// `n` spaces.
pub open spec fn spaces(n: int) -> Seq<char> {
    Seq::new(if n >= 0 {
        n as nat
    } else {
        0
    }, |i: int| ' ')
}

/// Clip or pad `s` to exactly `w` characters.
pub open spec fn spec_fit(s: Seq<char>, w: int) -> Seq<char> {
    if s.len() > w {
        s.subrange(0, if w >= 0 {
            w
        } else {
            0
        })
    } else {
        s + spaces(w - s.len())
    }
}

/// Horizontal scroll with markers: drop `off` leading characters, clip to
/// `w`, replace the first character with `<` when scrolled past the start
/// and the last with `>` when content continues past the visible width.
pub open spec fn spec_hscroll(line: Seq<char>, off: int, w: int) -> Seq<char> {
    if line.len() == 0 {
        Seq::empty()
    } else {
        let start = if off <= line.len() {
            off
        } else {
            line.len() as int
        };
        let has_left = start > 0;
        let avail = if has_left {
            if w >= 1 {
                w - 1
            } else {
                0
            }
        } else {
            w
        };
        let end = if start + avail <= line.len() {
            start + avail
        } else {
            line.len() as int
        };
        let has_right = end < line.len();
        let fin = if has_right {
            if end - 1 >= start {
                end - 1
            } else {
                start
            }
        } else {
            end
        };
        (if has_left {
            seq!['<']
        } else {
            Seq::empty()
        }) + line.subrange(start, fin) + (if has_right {
            seq!['>']
        } else {
            Seq::empty()
        })
    }
}

/// The fixed-width line-number gutter: the number right-aligned in four
/// columns plus one space, or five spaces when the side has no number.
pub open spec fn spec_gutter(n: Option<usize>) -> Seq<char> {
    match n {
        Some(v) => {
            let d = spec_dec(v as nat);
            (if d.len() < 4 {
                spaces(4 - d.len())
            } else {
                Seq::empty()
            }) + d + seq![' ']
        }
        None => spaces(5),
    }
}

pub open spec fn spec_prefix_char(t: LineType) -> char {
    match t {
        LineType::Added => '+',
        LineType::Removed => '-',
        LineType::Context => ' ',
    }
}

/// One column's row for a content line: gutter, then the prefixed content
/// scrolled into the space after the gutter, the whole fitted to `w`.
pub open spec fn spec_side_row(l: HunkLineV, left: bool, w: int, off: int) -> Seq<char> {
    let gutter = spec_gutter(
        if left {
            l.old_line_num
        } else {
            l.new_line_num
        },
    );
    let scrolled = spec_hscroll(
        seq![spec_prefix_char(l.line_type)] + l.content,
        off,
        w - gutter.len(),
    );
    spec_fit(gutter + scrolled, w)
}

/// The hunk-header row, shown identically in both columns.
pub open spec fn spec_header_row(h: Seq<char>, w: int, off: int) -> Seq<char> {
    spec_fit(spec_hscroll(h, off, w), w)
}

/// First index at or after `i` whose line is not of type `t`.
pub open spec fn run_end(lines: Seq<HunkLineV>, i: int, t: LineType) -> int
    decreases lines.len() - i,
{
    if i < 0 || i >= lines.len() || lines[i].line_type != t {
        i
    } else {
        run_end(lines, i + 1, t)
    }
}

pub proof fn lemma_run_end(lines: Seq<HunkLineV>, i: int, t: LineType)
    requires
        0 <= i <= lines.len(),
    ensures
        i <= run_end(lines, i, t) <= lines.len(),
        forall|m: int| i <= m < run_end(lines, i, t) ==> lines[m].line_type == t,
        run_end(lines, i, t) < lines.len() ==> lines[run_end(lines, i, t)].line_type != t,
    decreases lines.len() - i,
{
    if i < lines.len() && lines[i].line_type == t {
        lemma_run_end(lines, i + 1, t);
    }
}

/// Pair the rows of a removed run against an added run, position by
/// position, padding the shorter side with blank rows.
pub open spec fn spec_pair_rows(
    removed: Seq<HunkLineV>,
    added: Seq<HunkLineV>,
    w: int,
    off: int,
    j: int,
) -> Seq<(Seq<char>, Seq<char>)>
    decreases removed.len() + added.len() - j,
{
    let m = if removed.len() >= added.len() {
        removed.len() as int
    } else {
        added.len() as int
    };
    if j < 0 || j >= m {
        Seq::empty()
    } else {
        seq![
            (
                if j < removed.len() {
                    spec_side_row(removed[j], true, w, off)
                } else {
                    spaces(w)
                },
                if j < added.len() {
                    spec_side_row(added[j], false, w, off)
                } else {
                    spaces(w)
                },
            ),
        ] + spec_pair_rows(removed, added, w, off, j + 1)
    }
}

/// The paired rows of a hunk's content lines from index `i` on.
pub open spec fn spec_lines_pairs(lines: Seq<HunkLineV>, w: int, off: int, i: int) -> Seq<
    (Seq<char>, Seq<char>),
>
    decreases lines.len() - i,
    via spec_lines_pairs_dec
{
    if i < 0 || i >= lines.len() {
        Seq::empty()
    } else {
        match lines[i].line_type {
            LineType::Context => seq![
                (spec_side_row(lines[i], true, w, off), spec_side_row(lines[i], false, w, off)),
            ] + spec_lines_pairs(lines, w, off, i + 1),
            LineType::Added => seq![(spaces(w), spec_side_row(lines[i], false, w, off))]
                + spec_lines_pairs(lines, w, off, i + 1),
            LineType::Removed => {
                let re = run_end(lines, i, LineType::Removed);
                let ae = run_end(lines, re, LineType::Added);
                spec_pair_rows(
                    lines.subrange(i, re),
                    lines.subrange(re, ae),
                    w,
                    off,
                    0,
                ) + spec_lines_pairs(lines, w, off, ae)
            },
        }
    }
}

#[via_fn]
proof fn spec_lines_pairs_dec(lines: Seq<HunkLineV>, w: int, off: int, i: int) {
    if 0 <= i < lines.len() {
        lemma_run_end(lines, i, LineType::Removed);
        let re = run_end(lines, i, LineType::Removed);
        lemma_run_end(lines, re, LineType::Added);
    }
}

/// All paired rows of one hunk: the header row, the aligned content rows,
/// and a trailing blank row.
pub open spec fn spec_hunk_pairs(h: HunkV, w: int, off: int) -> Seq<(Seq<char>, Seq<char>)> {
    seq![(spec_header_row(h.header, w, off), spec_header_row(h.header, w, off))]
        + spec_lines_pairs(h.lines, w, off, 0) + seq![(spaces(w), spaces(w))]
}

pub open spec fn spec_hunks_pairs(hunks: Seq<HunkV>, w: int, off: int, j: int) -> Seq<
    (Seq<char>, Seq<char>),
>
    decreases hunks.len() - j,
{
    if j < 0 || j >= hunks.len() {
        Seq::empty()
    } else {
        spec_hunk_pairs(hunks[j], w, off) + spec_hunks_pairs(hunks, w, off, j + 1)
    }
}

/// Every paired row of one file's side-by-side view, in order.
pub open spec fn spec_sbs_rows(f: FileDiffV, w: int, off: int) -> Seq<(Seq<char>, Seq<char>)> {
    spec_hunks_pairs(f.hunks, w, off, 0)
}

/// Both columns of a hunk always advance together: each emitted unit is a
/// pair, so a hunk contributes exactly as many left rows as right rows.
pub proof fn lemma_alignment_balanced(h: HunkV, w: int, off: int)
    ensures
        spec_hunk_pairs(h, w, off).map_values(|p: (Seq<char>, Seq<char>)| p.0).len()
            == spec_hunk_pairs(h, w, off).map_values(|p: (Seq<char>, Seq<char>)| p.1).len(),
{
}

// ---------------------------------------------------------------------------
// Executable rendering
// ---------------------------------------------------------------------------

/// Like [`lemma_run_end`], but pinning the value: a position bounding a
/// uniform run is exactly `run_end`.
pub proof fn lemma_run_end_eq(lines: Seq<HunkLineV>, i: int, t: LineType, k: int)
    requires
        0 <= i <= k <= lines.len(),
        forall|m: int| i <= m < k ==> lines[m].line_type == t,
        k < lines.len() ==> lines[k].line_type != t,
    ensures
        run_end(lines, i, t) == k,
    decreases lines.len() - i,
{
    if i < lines.len() && lines[i].line_type == t {
        lemma_run_end_eq(lines, i + 1, t, k);
    }
}

fn spaces_vec(n: usize) -> (v: Vec<char>)
    ensures
        v@ == spaces(n as int),
{
    let mut v: Vec<char> = Vec::new();
    let mut i: usize = 0;
    while i < n
        invariant
            i <= n,
            v@ =~= spaces(i as int),
        decreases n - i,
    {
        v.push(' ');
        assert(v@ =~= spaces(i + 1));
        i += 1;
    }
    v
}

/// A blank row of exactly `w` columns.
fn blank_row(w: usize) -> (r: String)
    ensures
        r@ == spaces(w as int),
{
    let v = spaces_vec(w);
    chars_to_string(&v)
}

fn fit_chars(v: Vec<char>, w: usize) -> (r: Vec<char>)
    ensures
        r@ == spec_fit(v@, w as int),
{
    if v.len() > w {
        let mut r: Vec<char> = Vec::new();
        let mut i: usize = 0;
        while i < w
            invariant
                i <= w,
                w < v@.len(),
                r@ =~= v@.subrange(0, i as int),
            decreases w - i,
        {
            r.push(v[i]);
            assert(r@ =~= v@.subrange(0, i + 1));
            i += 1;
        }
        r
    } else {
        let mut r = v;
        let ghost orig = r@;
        let pad = w - r.len();
        let mut i: usize = 0;
        while i < pad
            invariant
                i <= pad,
                r@ =~= orig + spaces(i as int),
            decreases pad - i,
        {
            r.push(' ');
            assert(r@ =~= orig + spaces(i + 1));
            i += 1;
        }
        assert(r@ =~= orig + spaces(w - orig.len()));
        r
    }
}

fn hscroll_chars(line: &[char], off: usize, w: usize) -> (r: Vec<char>)
    ensures
        r@ == spec_hscroll(line@, off as int, w as int),
{
    let mut r: Vec<char> = Vec::new();
    if line.len() == 0 {
        assert(r@ =~= spec_hscroll(line@, off as int, w as int));
        return r;
    }
    let start = if off <= line.len() {
        off
    } else {
        line.len()
    };
    let has_left = start > 0;
    let avail = if has_left {
        if w >= 1 {
            w - 1
        } else {
            0
        }
    } else {
        w
    };
    let end = if line.len() - start >= avail {
        start + avail
    } else {
        line.len()
    };
    let has_right = end < line.len();
    let fin = if has_right {
        if end >= 1 && end - 1 >= start {
            end - 1
        } else {
            start
        }
    } else {
        end
    };
    if has_left {
        r.push('<');
    }
    let mut i: usize = start;
    while i < fin
        invariant
            start <= i <= fin <= line@.len(),
            r@ =~= (if has_left {
                seq!['<']
            } else {
                Seq::<char>::empty()
            }) + line@.subrange(start as int, i as int),
        decreases fin - i,
    {
        r.push(line[i]);
        assert(r@ =~= (if has_left {
            seq!['<']
        } else {
            Seq::<char>::empty()
        }) + line@.subrange(start as int, i + 1));
        i += 1;
    }
    if has_right {
        r.push('>');
    }
    assert(r@ =~= spec_hscroll(line@, off as int, w as int));
    r
}

fn gutter_chars(n: Option<usize>) -> (r: Vec<char>)
    ensures
        r@ == spec_gutter(n),
        r@.len() >= 1,
{
    match n {
        Some(v) => {
            let mut d: Vec<char> = Vec::new();
            crate::strutil::push_dec(v, &mut d);
            proof {
                crate::strutil::lemma_spec_dec_digits(v as nat);
            }
            let mut r: Vec<char> = if d.len() < 4 {
                spaces_vec(4 - d.len())
            } else {
                Vec::new()
            };
            let ghost lead = r@;
            let mut i: usize = 0;
            while i < d.len()
                invariant
                    i <= d@.len(),
                    r@ =~= lead + d@.subrange(0, i as int),
                decreases d@.len() - i,
            {
                r.push(d[i]);
                assert(r@ =~= lead + d@.subrange(0, i + 1));
                i += 1;
            }
            assert(d@.subrange(0, d@.len() as int) =~= d@);
            r.push(' ');
            assert(r@ =~= spec_gutter(n));
            r
        }
        None => {
            let r = spaces_vec(5);
            assert(r@ =~= spec_gutter(n));
            r
        }
    }
}

/// Render one column's row for a content line.
fn side_row(l: &crate::diff_model::HunkLine, left: bool, w: usize, off: usize) -> (r: String)
    ensures
        r@ == spec_side_row(l@, left, w as int, off as int),
{
    let prefix = match l.line_type {
        LineType::Added => '+',
        LineType::Removed => '-',
        LineType::Context => ' ',
    };
    let gutter = gutter_chars(
        if left {
            l.old_line_num
        } else {
            l.new_line_num
        },
    );
    let mut content: Vec<char> = Vec::new();
    content.push(prefix);
    let cc = to_chars(l.content.as_str());
    let mut i: usize = 0;
    while i < cc.len()
        invariant
            i <= cc@.len(),
            cc@ == l.content@,
            content@ =~= seq![spec_prefix_char(l@.line_type)] + cc@.subrange(0, i as int),
        decreases cc@.len() - i,
    {
        content.push(cc[i]);
        assert(content@ =~= seq![spec_prefix_char(l@.line_type)] + cc@.subrange(0, i + 1));
        i += 1;
    }
    assert(content@ =~= seq![spec_prefix_char(l@.line_type)] + l.content@);
    let inner_w = if w >= gutter.len() {
        w - gutter.len()
    } else {
        0
    };
    let scrolled = hscroll_chars(content.as_slice(), off, inner_w);
    proof {
        if (w as int) - (gutter@.len() as int) < 0 {
            assert(spec_hscroll(content@, off as int, (w as int) - (gutter@.len() as int))
                =~= spec_hscroll(content@, off as int, 0));
        }
    }
    let mut row = gutter;
    let ghost g = row@;
    let mut i2: usize = 0;
    while i2 < scrolled.len()
        invariant
            i2 <= scrolled@.len(),
            row@ =~= g + scrolled@.subrange(0, i2 as int),
        decreases scrolled@.len() - i2,
    {
        row.push(scrolled[i2]);
        assert(row@ =~= g + scrolled@.subrange(0, i2 + 1));
        i2 += 1;
    }
    assert(row@ =~= g + scrolled@);
    let fitted = fit_chars(row, w);
    chars_to_string(&fitted)
}

/// Scroll a line horizontally and clip it, with `<`/`>` markers where
/// content continues past the visible span.
pub fn apply_horizontal_scroll(line: &str, offset: usize, max_width: usize) -> (r: String)
    ensures
        r@ == spec_hscroll(line@, offset as int, max_width as int),
{
    let lc = to_chars(line);
    let v = hscroll_chars(lc.as_slice(), offset, max_width);
    chars_to_string(&v)
}

/// Render the header row shared by both columns.
fn header_row(h: &str, w: usize, off: usize) -> (r: String)
    ensures
        r@ == spec_header_row(h@, w as int, off as int),
{
    let hc = to_chars(h);
    let scrolled = hscroll_chars(hc.as_slice(), off, w);
    let fitted = fit_chars(scrolled, w);
    chars_to_string(&fitted)
}

/// The left and right columns within the window: rows `skip..skip+limit`
/// of the full paired-row sequence, each exactly `max_width` characters.
pub open spec fn spec_window(
    full: Seq<(Seq<char>, Seq<char>)>,
    skip: int,
    hi: int,
    left: bool,
) -> Seq<Seq<char>> {
    let l = full.map_values(
        |p: (Seq<char>, Seq<char>)|
            if left {
                p.0
            } else {
                p.1
            },
    );
    let a = if skip <= l.len() {
        skip
    } else {
        l.len() as int
    };
    let b = if hi <= l.len() {
        hi
    } else {
        l.len() as int
    };
    l.subrange(a, if b >= a {
        b
    } else {
        a
    })
}

/// Build one file's side-by-side columns, restricted to the row window
/// `skip..skip+limit`.  The whole file is walked so row accounting stays
/// correct, but only windowed rows are materialized, and every emitted row
/// is exactly `max_width` characters in both columns.
#[verifier::rlimit(100)]
pub fn create_side_by_side_lines(
    file: &FileDiff,
    skip: usize,
    limit: usize,
    max_width: usize,
    horizontal_offset: usize,
) -> (r: (Vec<String>, Vec<String>))
    requires
        spec_sbs_rows(file@, max_width as int, horizontal_offset as int).len() <= usize::MAX,
    ensures
        ({
            let full = spec_sbs_rows(file@, max_width as int, horizontal_offset as int);
            let hi = crate::diff_model::spec_sat_add(skip, limit) as int;
            r.0@.map_values(|s: String| s@) == spec_window(full, skip as int, hi, true)
                && r.1@.map_values(|s: String| s@) == spec_window(full, skip as int, hi, false)
                && r.0@.len() == r.1@.len()
        }),
{
    let w = max_width;
    let off = horizontal_offset;
    let ghost full = spec_sbs_rows(file@, w as int, off as int);
    let hi = crate::diff_model::sat_add(skip, limit);
    let mut left: Vec<String> = Vec::new();
    let mut right: Vec<String> = Vec::new();
    let mut cnt: usize = 0;
    let ghost mut emitted: Seq<(Seq<char>, Seq<char>)> = Seq::empty();
    let mut j: usize = 0;
    proof {
        assert(full =~= emitted + spec_hunks_pairs(file@.hunks, w as int, off as int, 0));
        assert(file@.hunks.len() == file.hunks@.len());
        assert(left@.map_values(|s: String| s@) =~= spec_window(
            emitted,
            skip as int,
            hi as int,
            true,
        ));
        assert(right@.map_values(|s: String| s@) =~= spec_window(
            emitted,
            skip as int,
            hi as int,
            false,
        ));
    }
    while j < file.hunks.len()
        invariant
            j <= file.hunks@.len(),
            skip <= hi,
            hi == crate::diff_model::spec_sat_add(skip, limit),
            w == max_width,
            off == horizontal_offset,
            cnt == emitted.len(),
            full == emitted + spec_hunks_pairs(file@.hunks, w as int, off as int, j as int),
            full.len() <= usize::MAX,
            left@.map_values(|s: String| s@) == spec_window(emitted, skip as int, hi as int, true),
            right@.map_values(|s: String| s@) == spec_window(
                emitted,
                skip as int,
                hi as int,
                false,
            ),
            left@.len() == right@.len(),
        decreases file.hunks@.len() - j,
    {
        let h = &file.hunks[j];
        proof {
            assert(file@.hunks[j as int] == h@);
            assert(h@.lines.len() == h.lines@.len());
        }
        // header row on both sides
        let hdr = header_row(h.header.as_str(), w, off);
        proof {
            lemma_prefix_len(full, emitted, spec_hunk_pairs(h@, w as int, off as int),
                spec_hunks_pairs(file@.hunks, w as int, off as int, j + 1));
        }
        let ghost lv0 = left@.map_values(|s: String| s@);
        let ghost rv0 = right@.map_values(|s: String| s@);
        if cnt >= skip && cnt < hi {
            let hdr2 = hdr.clone();
            left.push(hdr);
            right.push(hdr2);
        }
        proof {
            let p = (spec_header_row(h@.header, w as int, off as int),
                spec_header_row(h@.header, w as int, off as int));
            lemma_emit(emitted, p, full, skip as int, hi as int, lv0, rv0);
            if skip <= emitted.len() < hi as int {
                assert(left@.map_values(|s: String| s@) =~= lv0.push(p.0));
                assert(right@.map_values(|s: String| s@) =~= rv0.push(p.1));
            } else {
                assert(left@.map_values(|s: String| s@) =~= lv0);
                assert(right@.map_values(|s: String| s@) =~= rv0);
            }
            emitted = emitted.push(p);
            assert(full == emitted + (spec_lines_pairs(h@.lines, w as int, off as int, 0)
                + seq![(spaces(w as int), spaces(w as int))] + spec_hunks_pairs(
                file@.hunks,
                w as int,
                off as int,
                j + 1,
            ))) by {
                assert(spec_hunk_pairs(h@, w as int, off as int) =~= seq![p]
                    + (spec_lines_pairs(h@.lines, w as int, off as int, 0) + seq![
                    (spaces(w as int), spaces(w as int)),
                ]));
                assert(emitted + (spec_lines_pairs(h@.lines, w as int, off as int, 0) + seq![
                    (spaces(w as int), spaces(w as int)),
                ] + spec_hunks_pairs(file@.hunks, w as int, off as int, j + 1)) =~= (
                emitted.drop_last()) + spec_hunk_pairs(h@, w as int, off as int)
                    + spec_hunks_pairs(file@.hunks, w as int, off as int, j + 1));
            }
        }
        cnt = cnt + 1;
        // content lines with run pairing
        let mut i: usize = 0;
        while i < h.lines.len()
            invariant
                i <= h.lines@.len(),
                j < file.hunks@.len(),
                skip <= hi,
                w == max_width,
                off == horizontal_offset,
                file@.hunks[j as int] == h@,
                cnt == emitted.len(),
                full == emitted + (spec_lines_pairs(h@.lines, w as int, off as int, i as int)
                    + seq![(spaces(w as int), spaces(w as int))] + spec_hunks_pairs(
                    file@.hunks,
                    w as int,
                    off as int,
                    j + 1,
                )),
                full.len() <= usize::MAX,
                left@.map_values(|s: String| s@) == spec_window(
                    emitted,
                    skip as int,
                    hi as int,
                    true,
                ),
                right@.map_values(|s: String| s@) == spec_window(
                    emitted,
                    skip as int,
                    hi as int,
                    false,
                ),
                left@.len() == right@.len(),
            decreases h.lines@.len() - i,
        {
            let l = &h.lines[i];
            proof {
                assert(h@.lines[i as int] == l@);
            }
            match l.line_type {
                LineType::Context => {
                    let lr = side_row(l, true, w, off);
                    let rr = side_row(l, false, w, off);
                    let ghost lv0 = left@.map_values(|s: String| s@);
                    let ghost rv0 = right@.map_values(|s: String| s@);
                    if cnt >= skip && cnt < hi {
                        left.push(lr);
                        right.push(rr);
                    }
                    proof {
                        let p = (spec_side_row(l@, true, w as int, off as int),
                            spec_side_row(l@, false, w as int, off as int));
                        let rest = spec_lines_pairs(h@.lines, w as int, off as int, i + 1)
                            + seq![(spaces(w as int), spaces(w as int))] + spec_hunks_pairs(
                            file@.hunks,
                            w as int,
                            off as int,
                            j + 1,
                        );
                        assert(full == (emitted + seq![p]) + rest) by {
                            assert(spec_lines_pairs(h@.lines, w as int, off as int, i as int)
                                =~= seq![p] + spec_lines_pairs(
                                h@.lines,
                                w as int,
                                off as int,
                                i + 1,
                            ));
                            assert(emitted + (seq![p] + spec_lines_pairs(
                                h@.lines,
                                w as int,
                                off as int,
                                i + 1,
                            ) + seq![(spaces(w as int), spaces(w as int))] + spec_hunks_pairs(
                                file@.hunks,
                                w as int,
                                off as int,
                                j + 1,
                            )) =~= (emitted + seq![p]) + rest);
                        }
                        lemma_emit(emitted, p, full, skip as int, hi as int, lv0, rv0);
                        if skip <= emitted.len() < hi as int {
                            assert(left@.map_values(|s: String| s@) =~= lv0.push(p.0));
                            assert(right@.map_values(|s: String| s@) =~= rv0.push(p.1));
                        } else {
                            assert(left@.map_values(|s: String| s@) =~= lv0);
                            assert(right@.map_values(|s: String| s@) =~= rv0);
                        }
                        emitted = emitted.push(p);
                        assert(full == emitted + rest);
                    }
                    cnt = cnt + 1;
                    i += 1;
                }
                LineType::Added => {
                    let rr = side_row(l, false, w, off);
                    let ghost lv0 = left@.map_values(|s: String| s@);
                    let ghost rv0 = right@.map_values(|s: String| s@);
                    if cnt >= skip && cnt < hi {
                        let b = blank_row(w);
                        left.push(b);
                        right.push(rr);
                    }
                    proof {
                        let p = (spaces(w as int), spec_side_row(l@, false, w as int, off as int));
                        let rest = spec_lines_pairs(h@.lines, w as int, off as int, i + 1)
                            + seq![(spaces(w as int), spaces(w as int))] + spec_hunks_pairs(
                            file@.hunks,
                            w as int,
                            off as int,
                            j + 1,
                        );
                        assert(full == (emitted + seq![p]) + rest) by {
                            assert(spec_lines_pairs(h@.lines, w as int, off as int, i as int)
                                =~= seq![p] + spec_lines_pairs(
                                h@.lines,
                                w as int,
                                off as int,
                                i + 1,
                            ));
                            assert(emitted + (seq![p] + spec_lines_pairs(
                                h@.lines,
                                w as int,
                                off as int,
                                i + 1,
                            ) + seq![(spaces(w as int), spaces(w as int))] + spec_hunks_pairs(
                                file@.hunks,
                                w as int,
                                off as int,
                                j + 1,
                            )) =~= (emitted + seq![p]) + rest);
                        }
                        lemma_emit(emitted, p, full, skip as int, hi as int, lv0, rv0);
                        if skip <= emitted.len() < hi as int {
                            assert(left@.map_values(|s: String| s@) =~= lv0.push(p.0));
                            assert(right@.map_values(|s: String| s@) =~= rv0.push(p.1));
                        } else {
                            assert(left@.map_values(|s: String| s@) =~= lv0);
                            assert(right@.map_values(|s: String| s@) =~= rv0);
                        }
                        emitted = emitted.push(p);
                        assert(full == emitted + rest);
                    }
                    cnt = cnt + 1;
                    i += 1;
                }
                LineType::Removed => {
                    // find the removed run, then the added run that follows
                    let rs = i;
                    let mut re = i;
                    while re < h.lines.len() && matches!(h.lines[re].line_type, LineType::Removed)
                        invariant
                            rs <= re <= h.lines@.len(),
                            forall|m: int|
                                rs <= m < re ==> h@.lines[m].line_type == LineType::Removed,
                        decreases h.lines@.len() - re,
                    {
                        proof {
                            assert(h@.lines[re as int] == h.lines@[re as int]@);
                        }
                        re += 1;
                    }
                    proof {
                        if (re as int) < h@.lines.len() {
                            assert(h@.lines[re as int] == h.lines@[re as int]@);
                        }
                        lemma_run_end_eq(h@.lines, rs as int, LineType::Removed, re as int);
                    }
                    let mut ae = re;
                    while ae < h.lines.len() && matches!(h.lines[ae].line_type, LineType::Added)
                        invariant
                            re <= ae <= h.lines@.len(),
                            forall|m: int|
                                re <= m < ae ==> h@.lines[m].line_type == LineType::Added,
                        decreases h.lines@.len() - ae,
                    {
                        proof {
                            assert(h@.lines[ae as int] == h.lines@[ae as int]@);
                        }
                        ae += 1;
                    }
                    proof {
                        if (ae as int) < h@.lines.len() {
                            assert(h@.lines[ae as int] == h.lines@[ae as int]@);
                        }
                        lemma_run_end_eq(h@.lines, re as int, LineType::Added, ae as int);
                    }
                    let ghost removed = h@.lines.subrange(rs as int, re as int);
                    let ghost added = h@.lines.subrange(re as int, ae as int);
                    let rlen = re - rs;
                    let alen = ae - re;
                    let m = if rlen >= alen {
                        rlen
                    } else {
                        alen
                    };
                    let ghost tail_rest = spec_lines_pairs(h@.lines, w as int, off as int, ae as int)
                        + seq![(spaces(w as int), spaces(w as int))] + spec_hunks_pairs(
                        file@.hunks,
                        w as int,
                        off as int,
                        j + 1,
                    );
                    proof {
                        assert(spec_lines_pairs(h@.lines, w as int, off as int, i as int)
                            == spec_pair_rows(removed, added, w as int, off as int, 0)
                            + spec_lines_pairs(h@.lines, w as int, off as int, ae as int));
                        assert(emitted + (spec_pair_rows(removed, added, w as int, off as int, 0)
                            + spec_lines_pairs(h@.lines, w as int, off as int, ae as int) + seq![
                            (spaces(w as int), spaces(w as int)),
                        ] + spec_hunks_pairs(file@.hunks, w as int, off as int, j + 1)) =~= emitted
                            + (spec_pair_rows(removed, added, w as int, off as int, 0) + tail_rest));
                        assert(full == emitted + (spec_pair_rows(
                            removed,
                            added,
                            w as int,
                            off as int,
                            0,
                        ) + tail_rest));
                    }
                    let mut jj: usize = 0;
                    while jj < m
                        invariant
                            jj <= m,
                            skip <= hi,
                            w == max_width,
                            off == horizontal_offset,
                            rs <= re <= ae <= h.lines@.len(),
                            m == if rlen >= alen { rlen as int } else { alen as int },
                            rlen == re - rs,
                            alen == ae - re,
                            removed == h@.lines.subrange(rs as int, re as int),
                            added == h@.lines.subrange(re as int, ae as int),
                            j < file.hunks@.len(),
                            file@.hunks[j as int] == h@,
                            cnt == emitted.len(),
                            full == emitted + (spec_pair_rows(
                                removed,
                                added,
                                w as int,
                                off as int,
                                jj as int,
                            ) + tail_rest),
                            full.len() <= usize::MAX,
                            left@.map_values(|s: String| s@) == spec_window(
                                emitted,
                                skip as int,
                                hi as int,
                                true,
                            ),
                            right@.map_values(|s: String| s@) == spec_window(
                                emitted,
                                skip as int,
                                hi as int,
                                false,
                            ),
                            left@.len() == right@.len(),
                        decreases m - jj,
                    {
                        let lr = if jj < rlen {
                            let ll = &h.lines[rs + jj];
                            proof {
                                assert(h@.lines[rs + jj] == ll@);
                                assert(removed[jj as int] == h@.lines[rs + jj]);
                            }
                            side_row(ll, true, w, off)
                        } else {
                            blank_row(w)
                        };
                        let rr = if jj < alen {
                            let la = &h.lines[re + jj];
                            proof {
                                assert(h@.lines[re + jj] == la@);
                                assert(added[jj as int] == h@.lines[re + jj]);
                            }
                            side_row(la, false, w, off)
                        } else {
                            blank_row(w)
                        };
                        let ghost lv0 = left@.map_values(|s: String| s@);
                        let ghost rv0 = right@.map_values(|s: String| s@);
                        if cnt >= skip && cnt < hi {
                            left.push(lr);
                            right.push(rr);
                        }
                        proof {
                            let p = (
                                if (jj as int) < removed.len() {
                                    spec_side_row(removed[jj as int], true, w as int, off as int)
                                } else {
                                    spaces(w as int)
                                },
                                if (jj as int) < added.len() {
                                    spec_side_row(added[jj as int], false, w as int, off as int)
                                } else {
                                    spaces(w as int)
                                },
                            );
                            let rest2 = spec_pair_rows(removed, added, w as int, off as int, jj + 1)
                                + tail_rest;
                            assert(full == (emitted + seq![p]) + rest2) by {
                                assert(spec_pair_rows(removed, added, w as int, off as int, jj as int)
                                    =~= seq![p] + spec_pair_rows(
                                    removed,
                                    added,
                                    w as int,
                                    off as int,
                                    jj + 1,
                                ));
                                assert(emitted + (seq![p] + spec_pair_rows(
                                    removed,
                                    added,
                                    w as int,
                                    off as int,
                                    jj + 1,
                                ) + tail_rest) =~= (emitted + seq![p]) + rest2);
                            }
                            lemma_emit(emitted, p, full, skip as int, hi as int, lv0, rv0);
                            if skip <= emitted.len() < hi as int {
                                assert(left@.map_values(|s: String| s@) =~= lv0.push(p.0));
                                assert(right@.map_values(|s: String| s@) =~= rv0.push(p.1));
                            } else {
                                assert(left@.map_values(|s: String| s@) =~= lv0);
                                assert(right@.map_values(|s: String| s@) =~= rv0);
                            }
                            emitted = emitted.push(p);
                            assert(full == emitted + rest2);
                        }
                        cnt = cnt + 1;
                        jj += 1;
                    }
                    proof {
                        assert(spec_pair_rows(removed, added, w as int, off as int, jj as int)
                            =~= Seq::<(Seq<char>, Seq<char>)>::empty());
                        assert(emitted + (spec_pair_rows(
                            removed,
                            added,
                            w as int,
                            off as int,
                            jj as int,
                        ) + tail_rest) =~= emitted + tail_rest);
                        assert(full == emitted + (spec_lines_pairs(
                            h@.lines,
                            w as int,
                            off as int,
                            ae as int,
                        ) + seq![(spaces(w as int), spaces(w as int))] + spec_hunks_pairs(
                            file@.hunks,
                            w as int,
                            off as int,
                            j + 1,
                        ))) by {
                            assert(emitted + tail_rest =~= emitted + (spec_lines_pairs(
                                h@.lines,
                                w as int,
                                off as int,
                                ae as int,
                            ) + seq![(spaces(w as int), spaces(w as int))] + spec_hunks_pairs(
                                file@.hunks,
                                w as int,
                                off as int,
                                j + 1,
                            )));
                        }
                    }
                    i = ae;
                }
            }
        }
        // trailing blank row between hunks
        proof {
            assert(spec_lines_pairs(h@.lines, w as int, off as int, i as int) =~= Seq::<
                (Seq<char>, Seq<char>),
            >::empty());
            assert(emitted + (spec_lines_pairs(h@.lines, w as int, off as int, i as int) + seq![
                (spaces(w as int), spaces(w as int)),
            ] + spec_hunks_pairs(file@.hunks, w as int, off as int, j + 1)) =~= emitted + (seq![
                (spaces(w as int), spaces(w as int)),
            ] + spec_hunks_pairs(file@.hunks, w as int, off as int, j + 1)));
        }
        let ghost lv0b = left@.map_values(|s: String| s@);
        let ghost rv0b = right@.map_values(|s: String| s@);
        if cnt >= skip && cnt < hi {
            let b1 = blank_row(w);
            let b2 = blank_row(w);
            left.push(b1);
            right.push(b2);
        }
        proof {
            let p = (spaces(w as int), spaces(w as int));
            let rest = spec_hunks_pairs(file@.hunks, w as int, off as int, j + 1);
            assert(full == (emitted + seq![p]) + rest) by {
                assert(emitted + (seq![p] + rest) =~= (emitted + seq![p]) + rest);
            }
            lemma_emit(emitted, p, full, skip as int, hi as int, lv0b, rv0b);
            if skip <= emitted.len() < hi as int {
                assert(left@.map_values(|s: String| s@) =~= lv0b.push(p.0));
                assert(right@.map_values(|s: String| s@) =~= rv0b.push(p.1));
            } else {
                assert(left@.map_values(|s: String| s@) =~= lv0b);
                assert(right@.map_values(|s: String| s@) =~= rv0b);
            }
            emitted = emitted.push(p);
            assert(full == emitted + rest);
        }
        cnt = cnt + 1;
        j += 1;
    }
    proof {
        assert(spec_hunks_pairs(file@.hunks, w as int, off as int, j as int) =~= Seq::<
            (Seq<char>, Seq<char>),
        >::empty());
        assert(emitted + Seq::<(Seq<char>, Seq<char>)>::empty() =~= emitted);
        assert(full == emitted);
    }
    (left, right)
}

/// The length of a concatenation prefix is bounded by the whole.
proof fn lemma_prefix_len(
    full: Seq<(Seq<char>, Seq<char>)>,
    e: Seq<(Seq<char>, Seq<char>)>,
    a: Seq<(Seq<char>, Seq<char>)>,
    b: Seq<(Seq<char>, Seq<char>)>,
)
    requires
        full == e + (a + b),
    ensures
        e.len() + a.len() + b.len() == full.len(),
{
}

/// Emitting one more pair extends the window exactly when its index lies
/// inside `skip..hi`.
proof fn lemma_emit(
    e: Seq<(Seq<char>, Seq<char>)>,
    p: (Seq<char>, Seq<char>),
    full: Seq<(Seq<char>, Seq<char>)>,
    skip: int,
    hi: int,
    lv: Seq<Seq<char>>,
    rv: Seq<Seq<char>>,
)
    requires
        0 <= skip,
        skip <= hi,
        lv == spec_window(e, skip, hi, true),
        rv == spec_window(e, skip, hi, false),
    ensures
        (skip <= e.len() < hi) ==> spec_window(e.push(p), skip, hi, true) =~= lv.push(p.0)
            && spec_window(e.push(p), skip, hi, false) =~= rv.push(p.1),
        !(skip <= e.len() < hi) ==> spec_window(e.push(p), skip, hi, true) =~= lv && spec_window(
            e.push(p),
            skip,
            hi,
            false,
        ) =~= rv,
{
    let l0 = e.map_values(|q: (Seq<char>, Seq<char>)| q.0);
    let l1 = e.push(p).map_values(|q: (Seq<char>, Seq<char>)| q.0);
    assert(l1 =~= l0.push(p.0));
    let r0 = e.map_values(|q: (Seq<char>, Seq<char>)| q.1);
    let r1 = e.push(p).map_values(|q: (Seq<char>, Seq<char>)| q.1);
    assert(r1 =~= r0.push(p.1));
    if skip <= e.len() < hi {
        assert(spec_window(e.push(p), skip, hi, true) =~= lv.push(p.0));
        assert(spec_window(e.push(p), skip, hi, false) =~= rv.push(p.1));
    } else {
        assert(spec_window(e.push(p), skip, hi, true) =~= lv);
        assert(spec_window(e.push(p), skip, hi, false) =~= rv);
    }
}

} // verus!
