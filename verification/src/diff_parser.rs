//! The unified-diff parser: a single left-to-right scan over the input
//! lines, keeping a current-file and current-hunk accumulator, exactly as
//! [`spec_parse_diff`] describes it.  Malformed input is never an error:
//! unparseable units are dropped and the scan continues.

use vstd::prelude::*;

use crate::diff_model::{
    files_view, spec_sat_add, FileDiff, FileDiffV, Hunk, HunkLine, HunkLineV, HunkV, LineType,
};
use crate::strutil::{
    chars_start_with, chars_to_string, spec_dec, spec_parse_usize, spec_starts_with, to_chars,
};

use crate::errors::ReviewError;

verus! {

// ---------------------------------------------------------------------------
// Line splitting (the semantics of `str::lines`)
// ---------------------------------------------------------------------------

/// Index of the first occurrence of `c` in `s`, or `s.len()` if absent.
pub open spec fn first_idx(s: Seq<char>, c: char) -> int
    decreases s.len(),
{
    if s.len() == 0 {
        0
    } else if s[0] == c {
        0
    } else {
        1 + first_idx(s.drop_first(), c)
    }
}

pub proof fn lemma_first_idx(s: Seq<char>, c: char)
    ensures
        0 <= first_idx(s, c) <= s.len(),
        forall|j: int| 0 <= j < first_idx(s, c) ==> s[j] != c,
        first_idx(s, c) < s.len() ==> s[first_idx(s, c)] == c,
    decreases s.len(),
{
    if s.len() > 0 && s[0] != c {
        lemma_first_idx(s.drop_first(), c);
        assert forall|j: int| 0 <= j < first_idx(s, c) implies s[j] != c by {
            if j >= 1 {
                assert(s.drop_first()[j - 1] == s[j]);
            }
        }
        if first_idx(s, c) < s.len() {
            assert(s.drop_first()[first_idx(s, c) - 1] == s[first_idx(s, c)]);
        }
    }
}

/// A position before which `c` does not occur, and which holds `c` or is the
/// end, is exactly `first_idx`.
pub proof fn lemma_first_idx_eq(s: Seq<char>, c: char, k: int)
    requires
        0 <= k <= s.len(),
        forall|j: int| 0 <= j < k ==> s[j] != c,
        k < s.len() ==> s[k] == c,
    ensures
        first_idx(s, c) == k,
    decreases s.len(),
{
    if s.len() > 0 && s[0] != c {
        assert(forall|j: int| 0 <= j < k - 1 ==> s.drop_first()[j] == s[j + 1]);
        if k - 1 < s.drop_first().len() {
            assert(s.drop_first()[k - 1] == s[k]);
        }
        lemma_first_idx_eq(s.drop_first(), c, k - 1);
    }
}

/// Split into lines as `str::lines` does: separators are `\n`, one
/// trailing `\r` per line is stripped, and a final newline produces no
/// empty last line.
pub open spec fn spec_split_lines(s: Seq<char>) -> Seq<Seq<char>>
    decreases s.len(),
    via spec_split_lines_dec
{
    if s.len() == 0 {
        Seq::empty()
    } else {
        let j = first_idx(s, '\n');
        let raw = s.subrange(0, j);
        let line = if raw.len() > 0 && raw.last() == '\r' {
            raw.drop_last()
        } else {
            raw
        };
        if j == s.len() {
            seq![line]
        } else {
            seq![line] + spec_split_lines(s.subrange(j + 1, s.len() as int))
        }
    }
}

#[via_fn]
proof fn spec_split_lines_dec(s: Seq<char>) {
    lemma_first_idx(s, '\n');
}

/// Split a character sequence into lines.
pub fn split_lines(v: &[char]) -> (r: Vec<Vec<char>>)
    ensures
        r@.map_values(|l: Vec<char>| l@) =~~= spec_split_lines(v@),
{
    let mut res: Vec<Vec<char>> = Vec::new();
    let mut pos: usize = 0;
    proof {
        assert(v@.subrange(0, v@.len() as int) =~= v@);
        assert(res@.map_values(|l: Vec<char>| l@) =~~= Seq::<Seq<char>>::empty());
    }
    while pos < v.len()
        invariant
            pos <= v@.len(),
            spec_split_lines(v@) =~~= res@.map_values(|l: Vec<char>| l@) + spec_split_lines(
                v@.subrange(pos as int, v@.len() as int),
            ),
        decreases v@.len() - pos,
    {
        let ghost rest = v@.subrange(pos as int, v@.len() as int);
        let mut j: usize = pos;
        while j < v.len() && v[j] != '\n'
            invariant
                pos <= j <= v@.len(),
                forall|m: int| pos <= m < j ==> v@[m] != '\n',
            decreases v@.len() - j,
        {
            j += 1;
        }
        proof {
            assert forall|m: int| 0 <= m < j - pos implies rest[m] != '\n' by {
                assert(rest[m] == v@[pos + m]);
            }
            if (j - pos) < rest.len() {
                assert(rest[j - pos] == v@[j as int]);
            }
            lemma_first_idx_eq(rest, '\n', j - pos);
        }
        // the raw line is v[pos..j]; strip one trailing '\r'
        let line_end = if j > pos && v[j - 1] == '\r' {
            j - 1
        } else {
            j
        };
        let mut line: Vec<char> = Vec::new();
        let mut k: usize = pos;
        while k < line_end
            invariant
                pos <= k <= line_end <= v@.len(),
                line@ =~= v@.subrange(pos as int, k as int),
            decreases line_end - k,
        {
            line.push(v[k]);
            assert(line@ =~= v@.subrange(pos as int, k + 1));
            k += 1;
        }
        proof {
            let raw = rest.subrange(0, j - pos);
            assert(raw =~= v@.subrange(pos as int, j as int));
            let spec_line = if raw.len() > 0 && raw.last() == '\r' {
                raw.drop_last()
            } else {
                raw
            };
            assert(line@ =~= spec_line);
        }
        res.push(line);
        if j == v.len() {
            proof {
                assert(spec_split_lines(rest) =~~= seq![line@]);
                assert(res@.map_values(|l: Vec<char>| l@) =~~= res@.map_values(
                    |l: Vec<char>| l@,
                ));
            }
            pos = v.len();
        } else {
            proof {
                assert(spec_split_lines(rest) =~~= seq![line@] + spec_split_lines(
                    rest.subrange(j - pos + 1, rest.len() as int),
                ));
                assert(rest.subrange(j - pos + 1, rest.len() as int) =~= v@.subrange(
                    j + 1,
                    v@.len() as int,
                ));
            }
            pos = j + 1;
        }
    }
    assert(spec_split_lines(v@.subrange(pos as int, v@.len() as int)) =~~= Seq::<
        Seq<char>,
    >::empty());
    res
}

// ---------------------------------------------------------------------------
// Hunk-header parsing: `@@ -old_start,old_lines +new_start,new_lines @@`
// ---------------------------------------------------------------------------

pub open spec fn seq_ends_with(s: Seq<char>, p: Seq<char>) -> bool {
    p.len() <= s.len() && s.subrange(s.len() - p.len(), s.len() as int) =~= p
}

/// Remove every leading occurrence of `p`, as `str::trim_start_matches` does.
pub open spec fn strip_all_prefix_seq(s: Seq<char>, p: Seq<char>) -> Seq<char>
    decreases s.len(),
{
    if p.len() > 0 && spec_starts_with(s, p) {
        strip_all_prefix_seq(s.subrange(p.len() as int, s.len() as int), p)
    } else {
        s
    }
}

/// Remove every trailing occurrence of `p`, as `str::trim_end_matches` does.
pub open spec fn strip_all_suffix_seq(s: Seq<char>, p: Seq<char>) -> Seq<char>
    decreases s.len(),
{
    if p.len() > 0 && seq_ends_with(s, p) {
        strip_all_suffix_seq(s.subrange(0, s.len() - p.len()), p)
    } else {
        s
    }
}

/// The characters `char::is_whitespace` accepts.
pub open spec fn is_space_char(c: char) -> bool {
    let n = c as int;
    (9 <= n <= 13) || n == 32 || n == 0x85 || n == 0xA0 || n == 0x1680 || (0x2000 <= n <= 0x200A)
        || n == 0x2028 || n == 0x2029 || n == 0x202F || n == 0x205F || n == 0x3000
}

/// Whitespace test matching `char::is_whitespace`.
pub fn is_space(c: char) -> (r: bool)
    ensures
        r == is_space_char(c),
{
    let n = c as u32;
    (9 <= n && n <= 13) || n == 32 || n == 0x85 || n == 0xA0 || n == 0x1680 || (0x2000 <= n && n
        <= 0x200A) || n == 0x2028 || n == 0x2029 || n == 0x202F || n == 0x205F || n == 0x3000
}

pub open spec fn trim_start_seq(s: Seq<char>) -> Seq<char>
    decreases s.len(),
{
    if s.len() > 0 && is_space_char(s[0]) {
        trim_start_seq(s.drop_first())
    } else {
        s
    }
}

pub open spec fn trim_end_seq(s: Seq<char>) -> Seq<char>
    decreases s.len(),
{
    if s.len() > 0 && is_space_char(s.last()) {
        trim_end_seq(s.drop_last())
    } else {
        s
    }
}

pub open spec fn spec_trim(s: Seq<char>) -> Seq<char> {
    trim_end_seq(trim_start_seq(s))
}

/// Remove every leading occurrence of the character `c`.
pub open spec fn strip_leading_char(s: Seq<char>, c: char) -> Seq<char>
    decreases s.len(),
{
    if s.len() > 0 && s[0] == c {
        strip_leading_char(s.drop_first(), c)
    } else {
        s
    }
}

/// First comma-separated field of `s`, read as a number; `0` when it does
/// not parse.
pub open spec fn first_num(s: Seq<char>) -> usize {
    let c = first_idx(s, ',');
    match spec_parse_usize(s.subrange(0, c)) {
        Some(v) => v,
        None => 0,
    }
}

/// Second comma-separated field of `s`, read as a number; `1` when absent
/// or unparseable (a header without a count means a single-line hunk).
pub open spec fn second_num(s: Seq<char>) -> usize {
    let c = first_idx(s, ',');
    if c == s.len() {
        1
    } else {
        let rest = s.subrange(c + 1, s.len() as int);
        let c2 = first_idx(rest, ',');
        match spec_parse_usize(rest.subrange(0, c2)) {
            Some(v) => v,
            None => 1,
        }
    }
}

/// What an `@@` header line denotes: `(old_start, old_lines, new_start,
/// new_lines)`, or nothing when the header has no space separator between
/// its old and new parts.
pub open spec fn spec_parse_hunk_header(line: Seq<char>) -> Option<(usize, usize, usize, usize)> {
    let t0 = strip_all_prefix_seq(line, "@@"@);
    let t1 = strip_all_suffix_seq(t0, "@@"@);
    let info = spec_trim(t1);
    let sp = first_idx(info, ' ');
    if sp == info.len() {
        None
    } else {
        let op = strip_leading_char(info.subrange(0, sp), '-');
        let np = strip_leading_char(info.subrange(sp + 1, info.len() as int), '+');
        Some((first_num(op), second_num(op), first_num(np), second_num(np)))
    }
}

/// Parse the run of digits, if any, in `s[a..b]`; see [`first_num`].
fn parse_first_num(s: &[char], a: usize, b: usize) -> (r: usize)
    requires
        a <= b <= s@.len(),
    ensures
        r == first_num(s@.subrange(a as int, b as int)),
{
    let ghost fld = s@.subrange(a as int, b as int);
    let mut c: usize = a;
    while c < b && s[c] != ','
        invariant
            a <= c <= b <= s@.len(),
            forall|m: int| a <= m < c ==> s@[m] != ',',
        decreases b - c,
    {
        c += 1;
    }
    proof {
        assert forall|m: int| 0 <= m < c - a implies fld[m] != ',' by {
            assert(fld[m] == s@[a + m]);
        }
        if (c - a) < fld.len() {
            assert(fld[c - a] == s@[c as int]);
        }
        lemma_first_idx_eq(fld, ',', c - a);
        assert(fld.subrange(0, c - a) =~= s@.subrange(a as int, c as int));
    }
    match crate::strutil::parse_usize(&s[a..c]) {
        Some(v) => v,
        None => 0,
    }
}

/// Parse the second comma-separated field in `s[a..b]`; see [`second_num`].
fn parse_second_num(s: &[char], a: usize, b: usize) -> (r: usize)
    requires
        a <= b <= s@.len(),
    ensures
        r == second_num(s@.subrange(a as int, b as int)),
{
    let ghost fld = s@.subrange(a as int, b as int);
    let mut c: usize = a;
    while c < b && s[c] != ','
        invariant
            a <= c <= b <= s@.len(),
            forall|m: int| a <= m < c ==> s@[m] != ',',
        decreases b - c,
    {
        c += 1;
    }
    proof {
        assert forall|m: int| 0 <= m < c - a implies fld[m] != ',' by {
            assert(fld[m] == s@[a + m]);
        }
        if (c - a) < fld.len() {
            assert(fld[c - a] == s@[c as int]);
        }
        lemma_first_idx_eq(fld, ',', c - a);
    }
    if c == b {
        return 1;
    }
    let ghost rest = fld.subrange(c - a + 1, fld.len() as int);
    let mut c2: usize = c + 1;
    while c2 < b && s[c2] != ','
        invariant
            c + 1 <= c2 <= b <= s@.len(),
            forall|m: int| c + 1 <= m < c2 ==> s@[m] != ',',
        decreases b - c2,
    {
        c2 += 1;
    }
    proof {
        assert(rest =~= s@.subrange(c + 1, b as int));
        assert forall|m: int| 0 <= m < c2 - c - 1 implies rest[m] != ',' by {
            assert(rest[m] == s@[c + 1 + m]);
        }
        if (c2 - c - 1) < rest.len() {
            assert(rest[c2 - c - 1] == s@[c2 as int]);
        }
        lemma_first_idx_eq(rest, ',', c2 - c - 1);
        assert(rest.subrange(0, c2 - c - 1) =~= s@.subrange(c + 1, c2 as int));
    }
    match crate::strutil::parse_usize(&s[c + 1..c2]) {
        Some(v) => v,
        None => 1,
    }
}

/// Strip repeated `@@` markers from both ends, then surrounding whitespace;
/// the result is the `start..end` window of `line` holding the header's
/// inner text.
#[verifier::rlimit(100)]
#[verifier::loop_isolation(false)]
fn header_bounds(line: &[char]) -> (se: (usize, usize))
    ensures
        se.0 <= se.1 <= line@.len(),
        line@.subrange(se.0 as int, se.1 as int) == spec_trim(
            strip_all_suffix_seq(strip_all_prefix_seq(line@, "@@"@), "@@"@),
        ),
{
    proof {
        reveal_strlit("@@");
    }
    let mut start: usize = 0;
    let mut end: usize = line.len();
    proof {
        assert(line@.subrange(0, line@.len() as int) =~= line@);
    }
    while end - start >= 2 && line[start] == '@' && line[start + 1] == '@'
        invariant
            0 <= start <= end,
            end == line@.len(),
            strip_all_prefix_seq(line@, "@@"@) == strip_all_prefix_seq(
                line@.subrange(start as int, end as int),
                "@@"@,
            ),
        decreases end - start,
    {
        proof {
            let cur = line@.subrange(start as int, end as int);
            assert(cur[0] == line@[start as int]);
            assert(cur[1] == line@[start + 1]);
            assert(cur.subrange(0, 2) =~= "@@"@);
            assert(spec_starts_with(cur, "@@"@));
            assert(cur.subrange(2, cur.len() as int) =~= line@.subrange(start + 2, end as int));
        }
        start += 2;
    }
    proof {
        let cur = line@.subrange(start as int, end as int);
        if spec_starts_with(cur, "@@"@) {
            assert(cur.subrange(0, 2)[0] == cur[0]);
            assert(cur.subrange(0, 2)[1] == cur[1]);
            assert(cur[0] == line@[start as int]);
            assert(cur[1] == line@[start + 1]);
            assert(false);
        }
        assert(strip_all_prefix_seq(line@, "@@"@) == cur);
    }
    let ghost t0 = strip_all_prefix_seq(line@, "@@"@);
    let ghost base = start as int;
    while end - start >= 2 && line[end - 1] == '@' && line[end - 2] == '@'
        invariant
            base <= start <= end <= line@.len(),
            start as int == base,
            strip_all_suffix_seq(t0, "@@"@) == strip_all_suffix_seq(
                line@.subrange(start as int, end as int),
                "@@"@,
            ),
        decreases end - start,
    {
        proof {
            let cur = line@.subrange(start as int, end as int);
            assert(cur[cur.len() - 1] == line@[end - 1]);
            assert(cur[cur.len() - 2] == line@[end - 2]);
            assert(cur.subrange(cur.len() - 2, cur.len() as int) =~= "@@"@);
            assert(seq_ends_with(cur, "@@"@));
            assert(cur.subrange(0, cur.len() - 2) =~= line@.subrange(start as int, end - 2));
        }
        end -= 2;
    }
    proof {
        let cur = line@.subrange(start as int, end as int);
        if seq_ends_with(cur, "@@"@) {
            let tail = cur.subrange(cur.len() - 2, cur.len() as int);
            assert(tail[0] == cur[cur.len() - 2]);
            assert(tail[1] == cur[cur.len() - 1]);
            assert(cur[cur.len() - 1] == line@[end - 1]);
            assert(cur[cur.len() - 2] == line@[end - 2]);
            assert(false);
        }
        assert(strip_all_suffix_seq(t0, "@@"@) == cur);
    }
    let ghost t1 = strip_all_suffix_seq(t0, "@@"@);
    while start < end && is_space(line[start])
        invariant
            start <= end <= line@.len(),
            trim_start_seq(t1) == trim_start_seq(line@.subrange(start as int, end as int)),
        decreases end - start,
    {
        proof {
            let cur = line@.subrange(start as int, end as int);
            assert(cur[0] == line@[start as int]);
            assert(cur.drop_first() =~= line@.subrange(start + 1, end as int));
        }
        start += 1;
    }
    proof {
        let cur = line@.subrange(start as int, end as int);
        if cur.len() > 0 {
            assert(cur[0] == line@[start as int]);
        }
        assert(trim_start_seq(t1) == cur);
    }
    let ghost t2 = trim_start_seq(t1);
    let ghost base2 = start as int;
    while start < end && is_space(line[end - 1])
        invariant
            base2 == start as int,
            base2 <= end as int <= line@.len(),
            trim_end_seq(t2) == trim_end_seq(line@.subrange(start as int, end as int)),
        decreases end - start,
    {
        proof {
            let cur = line@.subrange(start as int, end as int);
            assert(cur.last() == line@[end - 1]);
            assert(cur.drop_last() =~= line@.subrange(start as int, end - 1));
        }
        end -= 1;
    }
    proof {
        let cur = line@.subrange(start as int, end as int);
        if cur.len() > 0 {
            assert(cur.last() == line@[end - 1]);
        }
        assert(trim_end_seq(t2) == cur);
    }
    (start, end)
}

/// Strip every leading `lead` in `line[a..b]`, then read the part's two
/// numbers.
#[verifier::loop_isolation(false)]
fn parse_num_pair(line: &[char], a: usize, b: usize, lead: char) -> (r: (usize, usize))
    requires
        a <= b <= line@.len(),
    ensures
        ({
            let part = strip_leading_char(line@.subrange(a as int, b as int), lead);
            r == (first_num(part), second_num(part))
        }),
{
    let mut os: usize = a;
    while os < b && line[os] == lead
        invariant
            a <= os <= b,
            b <= line@.len(),
            strip_leading_char(line@.subrange(a as int, b as int), lead) == strip_leading_char(
                line@.subrange(os as int, b as int),
                lead,
            ),
        decreases b - os,
    {
        proof {
            let cur = line@.subrange(os as int, b as int);
            assert(cur[0] == line@[os as int]);
            assert(cur.drop_first() =~= line@.subrange(os + 1, b as int));
        }
        os += 1;
    }
    proof {
        let cur = line@.subrange(os as int, b as int);
        if cur.len() > 0 {
            assert(cur[0] == line@[os as int]);
        }
        assert(strip_leading_char(line@.subrange(a as int, b as int), lead) == cur);
    }
    let start_v = parse_first_num(line, os, b);
    let lines_v = parse_second_num(line, os, b);
    (start_v, lines_v)
}

/// Parse an `@@` header line.
#[verifier::loop_isolation(false)]
pub fn parse_hunk_header(line: &[char]) -> (r: Option<(usize, usize, usize, usize)>)
    ensures
        r == spec_parse_hunk_header(line@),
{
    let (start, end) = header_bounds(line);
    let ghost info = line@.subrange(start as int, end as int);
    // split at the first space
    let mut sp: usize = start;
    while sp < end && line[sp] != ' '
        invariant
            start <= sp <= end <= line@.len(),
            forall|m: int| start <= m < sp ==> line@[m] != ' ',
        decreases end - sp,
    {
        sp += 1;
    }
    proof {
        assert forall|m: int| 0 <= m < sp - start implies info[m] != ' ' by {
            assert(info[m] == line@[start + m]);
        }
        if (sp - start) < info.len() {
            assert(info[sp - start] == line@[sp as int]);
        }
        lemma_first_idx_eq(info, ' ', sp - start);
    }
    if sp == end {
        return None;
    }
    proof {
        assert(info.subrange(0, sp - start) =~= line@.subrange(start as int, sp as int));
        assert(info.subrange(sp - start + 1, info.len() as int) =~= line@.subrange(
            sp + 1,
            end as int,
        ));
    }
    let (old_start_v, old_lines_v) = parse_num_pair(line, start, sp, '-');
    let (new_start_v, new_lines_v) = parse_num_pair(line, sp + 1, end, '+');
    Some((old_start_v, old_lines_v, new_start_v, new_lines_v))
}

// ---------------------------------------------------------------------------
// The scan itself
// ---------------------------------------------------------------------------

pub open spec fn opt_file_view(o: Option<FileDiff>) -> Option<FileDiffV> {
    match o {
        Some(f) => Some(f@),
        None => None,
    }
}

pub open spec fn opt_hunk_view(o: Option<Hunk>) -> Option<HunkV> {
    match o {
        Some(h) => Some(h@),
        None => None,
    }
}

/// Running accumulator of the parse scan.
pub ghost struct ParseSt {
    pub files: Seq<FileDiffV>,
    pub cur_file: Option<FileDiffV>,
    pub cur_hunk: Option<HunkV>,
    pub old_ln: usize,
    pub new_ln: usize,
}

pub open spec fn init_st() -> ParseSt {
    ParseSt { files: Seq::empty(), cur_file: None, cur_hunk: None, old_ln: 0, new_ln: 0 }
}

pub open spec fn empty_file_v() -> FileDiffV {
    FileDiffV {
        old_path: Seq::empty(),
        new_path: Seq::empty(),
        hunks: Seq::empty(),
        new_file_lines: None,
    }
}

/// Finish a file: push its pending hunk, then estimate the new-side file
/// length from the last hunk's extent.
pub open spec fn flush_file(f: FileDiffV, h: Option<HunkV>) -> FileDiffV {
    let hunks = match h {
        Some(hk) => f.hunks.push(hk),
        None => f.hunks,
    };
    let nfl = if hunks.len() > 0 {
        Some(spec_sat_add(hunks.last().new_start, hunks.last().new_lines))
    } else {
        None
    };
    FileDiffV { old_path: f.old_path, new_path: f.new_path, hunks, new_file_lines: nfl }
}

/// The path named on a `---`/`+++` marker line: everything after the
/// four-character marker, with a conventional `a/` or `b/` prefix removed.
pub open spec fn spec_path(line: Seq<char>, ab: Seq<char>) -> Seq<char> {
    let p0 = line.subrange(4, line.len() as int);
    if spec_starts_with(p0, ab) {
        p0.subrange(2, p0.len() as int)
    } else {
        p0
    }
}

/// One step of the scan: how a single input line transforms the accumulator.
pub open spec fn spec_step(st: ParseSt, line: Seq<char>) -> ParseSt {
    if spec_starts_with(line, "diff --git"@) {
        let files2 = match st.cur_file {
            Some(f) => st.files.push(flush_file(f, st.cur_hunk)),
            None => st.files,
        };
        let hunk2 = match st.cur_file {
            Some(_) => None,
            None => st.cur_hunk,
        };
        ParseSt {
            files: files2,
            cur_file: Some(empty_file_v()),
            cur_hunk: hunk2,
            old_ln: st.old_ln,
            new_ln: st.new_ln,
        }
    } else if spec_starts_with(line, "--- "@) {
        match st.cur_file {
            Some(f) => ParseSt {
                cur_file: Some(FileDiffV { old_path: spec_path(line, "a/"@), ..f }),
                ..st
            },
            None => st,
        }
    } else if spec_starts_with(line, "+++ "@) {
        match st.cur_file {
            Some(f) => ParseSt {
                cur_file: Some(FileDiffV { new_path: spec_path(line, "b/"@), ..f }),
                ..st
            },
            None => st,
        }
    } else if spec_starts_with(line, "@@"@) {
        let file2 = match st.cur_file {
            Some(f) => Some(
                FileDiffV {
                    hunks: match st.cur_hunk {
                        Some(h) => f.hunks.push(h),
                        None => f.hunks,
                    },
                    ..f
                },
            ),
            None => None,
        };
        let hunk_kept = match st.cur_file {
            Some(_) => None,
            None => st.cur_hunk,
        };
        match spec_parse_hunk_header(line) {
            Some((os, ol, ns, nl)) => ParseSt {
                files: st.files,
                cur_file: file2,
                cur_hunk: Some(
                    HunkV {
                        old_start: os,
                        old_lines: ol,
                        new_start: ns,
                        new_lines: nl,
                        header: line,
                        lines: Seq::empty(),
                    },
                ),
                old_ln: os,
                new_ln: ns,
            },
            None => ParseSt {
                files: st.files,
                cur_file: file2,
                cur_hunk: hunk_kept,
                old_ln: st.old_ln,
                new_ln: st.new_ln,
            },
        }
    } else {
        match st.cur_hunk {
            Some(h) => {
                if line.len() > 0 && line[0] == '+' {
                    let hl = HunkLineV {
                        line_type: LineType::Added,
                        old_line_num: None,
                        new_line_num: Some(st.new_ln),
                        content: line.subrange(1, line.len() as int),
                    };
                    ParseSt {
                        cur_hunk: Some(HunkV { lines: h.lines.push(hl), ..h }),
                        new_ln: spec_sat_add(st.new_ln, 1),
                        ..st
                    }
                } else if line.len() > 0 && line[0] == '-' {
                    let hl = HunkLineV {
                        line_type: LineType::Removed,
                        old_line_num: Some(st.old_ln),
                        new_line_num: None,
                        content: line.subrange(1, line.len() as int),
                    };
                    ParseSt {
                        cur_hunk: Some(HunkV { lines: h.lines.push(hl), ..h }),
                        old_ln: spec_sat_add(st.old_ln, 1),
                        ..st
                    }
                } else if line.len() > 0 && line[0] == ' ' {
                    let hl = HunkLineV {
                        line_type: LineType::Context,
                        old_line_num: Some(st.old_ln),
                        new_line_num: Some(st.new_ln),
                        content: line.subrange(1, line.len() as int),
                    };
                    ParseSt {
                        cur_hunk: Some(HunkV { lines: h.lines.push(hl), ..h }),
                        old_ln: spec_sat_add(st.old_ln, 1),
                        new_ln: spec_sat_add(st.new_ln, 1),
                        ..st
                    }
                } else {
                    st
                }
            }
            None => st,
        }
    }
}

/// The accumulator after the first `i` lines.
pub open spec fn run_to(lines: Seq<Seq<char>>, i: int) -> ParseSt
    decreases i,
{
    if i <= 0 {
        init_st()
    } else {
        spec_step(run_to(lines, i - 1), lines[i - 1])
    }
}

/// End of input: the pending file (with its pending hunk) joins the result.
pub open spec fn spec_finalize(st: ParseSt) -> Seq<FileDiffV> {
    match st.cur_file {
        Some(f) => st.files.push(flush_file(f, st.cur_hunk)),
        None => st.files,
    }
}

/// What parsing a unified diff yields, in full.
pub open spec fn spec_parse_diff(text: Seq<char>) -> Seq<FileDiffV> {
    let lines = spec_split_lines(text);
    spec_finalize(run_to(lines, lines.len() as int))
}

/// Copy `s[a..b]` into a `String`.
fn range_string(s: &[char], a: usize, b: usize) -> (r: String)
    requires
        a <= b <= s@.len(),
    ensures
        r@ == s@.subrange(a as int, b as int),
{
    let mut v: Vec<char> = Vec::new();
    let mut k: usize = a;
    while k < b
        invariant
            a <= k <= b <= s@.len(),
            v@ =~= s@.subrange(a as int, k as int),
        decreases b - k,
    {
        v.push(s[k]);
        assert(v@ =~= s@.subrange(a as int, k + 1));
        k += 1;
    }
    chars_to_string(&v)
}

/// Read the path from a `---`/`+++` marker line.
fn extract_path(s: &[char], ab: &str) -> (r: String)
    requires
        4 <= s@.len(),
        ab@.len() == 2,
    ensures
        r@ == spec_path(s@, ab@),
{
    let p0 = &s[4..s.len()];
    if chars_start_with(p0, ab) {
        let r = range_string(s, 6, s.len());
        proof {
            assert(p0@.subrange(2, p0@.len() as int) =~= s@.subrange(6, s@.len() as int));
        }
        r
    } else {
        range_string(s, 4, s.len())
    }
}

/// Finish a file: push its pending hunk and stamp `new_file_lines`.
fn flush_file_exec(f: FileDiff, h: Option<Hunk>) -> (r: FileDiff)
    ensures
        r@ == flush_file(f@, opt_hunk_view(h)),
{
    let mut f = f;
    match h {
        Some(hk) => {
            proof {
                crate::strutil::lemma_seq_map_push(f.hunks@, |x: Hunk| x@, hk);
            }
            f.hunks.push(hk);
        }
        None => {}
    }
    if f.hunks.len() > 0 {
        let last_idx = f.hunks.len() - 1;
        let nfl = crate::diff_model::sat_add(
            f.hunks[last_idx].new_start,
            f.hunks[last_idx].new_lines,
        );
        f.new_file_lines = Some(nfl);
        proof {
            assert(f@.hunks.last() == f.hunks@[last_idx as int]@);
        }
    } else {
        f.new_file_lines = None;
    }
    f
}

/// Parse unified-diff text into one `FileDiff` per `diff --git` block.
///
/// Parsing never fails: malformed units are dropped and the scan goes on,
/// so the result is always `Ok`.
#[verifier::loop_isolation(false)]
#[verifier::rlimit(100)]
pub fn parse_diff(diff_text: &str) -> (r: Result<Vec<FileDiff>, ReviewError>)
    ensures
        r is Ok,
        files_view(r->Ok_0@) == spec_parse_diff(diff_text@),
{
    let chars = to_chars(diff_text);
    let lines = split_lines(chars.as_slice());
    let ghost lv = spec_split_lines(diff_text@);
    proof {
        assert(lines@.map_values(|l: Vec<char>| l@) == lv);
    }
    let mut files: Vec<FileDiff> = Vec::new();
    let mut cur_file: Option<FileDiff> = None;
    let mut cur_hunk: Option<Hunk> = None;
    let mut old_ln: usize = 0;
    let mut new_ln: usize = 0;
    let mut i: usize = 0;
    proof {
        assert(files_view(files@) =~= init_st().files);
    }
    while i < lines.len()
        invariant
            i <= lines@.len(),
            files_view(files@) == run_to(lv, i as int).files,
            opt_file_view(cur_file) == run_to(lv, i as int).cur_file,
            opt_hunk_view(cur_hunk) == run_to(lv, i as int).cur_hunk,
            old_ln == run_to(lv, i as int).old_ln,
            new_ln == run_to(lv, i as int).new_ln,
        decreases lines@.len() - i,
    {
        let ghost st = run_to(lv, i as int);
        let ghost cl = lv[i as int];
        let line = &lines[i];
        let ls = line.as_slice();
        proof {
            assert(ls@ == lines@.map_values(|l: Vec<char>| l@)[i as int]);
        }
        if chars_start_with(ls, "diff --git") {
            match cur_file {
                Some(f) => {
                    let h = cur_hunk;
                    cur_hunk = None;
                    let done = flush_file_exec(f, h);
                    proof {
                        crate::strutil::lemma_seq_map_push(files@, |x: FileDiff| x@, done);
                    }
                    files.push(done);
                }
                None => {
                    cur_file = None;
                }
            }
            cur_file = Some(
                FileDiff {
                    old_path: String::new(),
                    new_path: String::new(),
                    hunks: Vec::new(),
                    new_file_lines: None,
                },
            );
            proof {
                assert(cur_file.unwrap()@.hunks =~= empty_file_v().hunks);
                assert(cur_file.unwrap()@ == empty_file_v());
                assert(opt_file_view(cur_file) == spec_step(st, cl).cur_file);
            }
        } else if chars_start_with(ls, "--- ") {
            proof {
                reveal_strlit("--- ");
                reveal_strlit("a/");
            }
            match cur_file {
                Some(mut f) => {
                    f.old_path = extract_path(ls, "a/");
                    cur_file = Some(f);
                }
                None => {
                    cur_file = None;
                }
            }
        } else if chars_start_with(ls, "+++ ") {
            proof {
                reveal_strlit("+++ ");
                reveal_strlit("b/");
            }
            match cur_file {
                Some(mut f) => {
                    f.new_path = extract_path(ls, "b/");
                    cur_file = Some(f);
                }
                None => {
                    cur_file = None;
                }
            }
        } else if chars_start_with(ls, "@@") {
            match cur_file {
                Some(mut f) => {
                    match cur_hunk {
                        Some(h) => {
                            proof {
                                crate::strutil::lemma_seq_map_push(f.hunks@, |x: Hunk| x@, h);
                            }
                            f.hunks.push(h);
                            cur_hunk = None;
                        }
                        None => {
                            cur_hunk = None;
                        }
                    }
                    cur_file = Some(f);
                }
                None => {
                    cur_file = None;
                }
            }
            match parse_hunk_header(ls) {
                Some((os, ol, ns, nl)) => {
                    old_ln = os;
                    new_ln = ns;
                    cur_hunk = Some(
                        Hunk {
                            old_start: os,
                            old_lines: ol,
                            new_start: ns,
                            new_lines: nl,
                            header: chars_to_string(line),
                            lines: Vec::new(),
                        },
                    );
                    proof {
                        assert(cur_hunk.unwrap()@.lines =~= Seq::<HunkLineV>::empty());
                    }
                }
                None => {}
            }
        } else if line.len() > 0 {
            match cur_hunk {
                Some(mut h) => {
                    let c = ls[0];
                    if c == '+' {
                        let content = range_string(ls, 1, ls.len());
                        let hl = HunkLine {
                            line_type: LineType::Added,
                            old_line_num: None,
                            new_line_num: Some(new_ln),
                            content,
                        };
                        proof {
                            crate::strutil::lemma_seq_map_push(h.lines@, |x: HunkLine| x@, hl);
                        }
                        h.lines.push(hl);
                        new_ln = crate::diff_model::sat_add(new_ln, 1);
                    } else if c == '-' {
                        let content = range_string(ls, 1, ls.len());
                        let hl = HunkLine {
                            line_type: LineType::Removed,
                            old_line_num: Some(old_ln),
                            new_line_num: None,
                            content,
                        };
                        proof {
                            crate::strutil::lemma_seq_map_push(h.lines@, |x: HunkLine| x@, hl);
                        }
                        h.lines.push(hl);
                        old_ln = crate::diff_model::sat_add(old_ln, 1);
                    } else if c == ' ' {
                        let content = range_string(ls, 1, ls.len());
                        let hl = HunkLine {
                            line_type: LineType::Context,
                            old_line_num: Some(old_ln),
                            new_line_num: Some(new_ln),
                            content,
                        };
                        proof {
                            crate::strutil::lemma_seq_map_push(h.lines@, |x: HunkLine| x@, hl);
                        }
                        h.lines.push(hl);
                        old_ln = crate::diff_model::sat_add(old_ln, 1);
                        new_ln = crate::diff_model::sat_add(new_ln, 1);
                    }
                    cur_hunk = Some(h);
                }
                None => {
                    cur_hunk = None;
                }
            }
        }
        proof {
            assert(spec_starts_with(cl, "diff --git"@) == spec_starts_with(ls@, "diff --git"@));
            assert(run_to(lv, i + 1) == spec_step(st, cl));
            assert(files_view(files@) == run_to(lv, i + 1).files);
            assert(opt_file_view(cur_file) == run_to(lv, i + 1).cur_file);
            assert(opt_hunk_view(cur_hunk) == run_to(lv, i + 1).cur_hunk);
        }
        i += 1;
    }
    match cur_file {
        Some(f) => {
            let h = cur_hunk;
            cur_hunk = None;
            let done = flush_file_exec(f, h);
            proof {
                crate::strutil::lemma_seq_map_push(files@, |x: FileDiff| x@, done);
            }
            files.push(done);
        }
        None => {}
    }
    Ok(files)
}

// ---------------------------------------------------------------------------
// Writing a hunk back out as unified-diff text
// ---------------------------------------------------------------------------

/// The canonical header line of a hunk's numbers.
pub open spec fn spec_hunk_header_text(os: usize, ol: usize, ns: usize, nl: usize) -> Seq<char> {
    seq!['@', '@', ' ', '-'] + crate::strutil::spec_dec(os as nat) + seq![',']
        + crate::strutil::spec_dec(ol as nat) + seq![' ', '+'] + crate::strutil::spec_dec(
        ns as nat,
    ) + seq![','] + crate::strutil::spec_dec(nl as nat) + seq![' ', '@', '@']
}

/// One content line as diff text: its kind's marker, then the content.
pub open spec fn spec_line_text(l: HunkLineV) -> Seq<char> {
    seq![crate::align::spec_prefix_char(l.line_type)] + l.content
}

pub open spec fn spec_lines_text(ls: Seq<HunkLineV>, k: int) -> Seq<char>
    decreases ls.len() - k,
{
    if k < 0 || k >= ls.len() {
        Seq::empty()
    } else {
        spec_line_text(ls[k]) + seq!['\n'] + spec_lines_text(ls, k + 1)
    }
}

/// The unified-diff text of one hunk: its canonical header, then each
/// line with its marker, every line newline-terminated.
pub open spec fn spec_hunk_text(h: HunkV) -> Seq<char> {
    spec_hunk_header_text(h.old_start, h.old_lines, h.new_start, h.new_lines) + seq!['\n']
        + spec_lines_text(h.lines, 0)
}

/// Serialize one hunk as unified-diff text.
#[verifier::loop_isolation(false)]
pub fn hunk_to_text(h: &Hunk) -> (r: String)
    ensures
        r@ == spec_hunk_text(h@),
{
    let mut out: Vec<char> = Vec::new();
    out.push('@');
    out.push('@');
    out.push(' ');
    out.push('-');
    crate::strutil::push_dec(h.old_start, &mut out);
    out.push(',');
    crate::strutil::push_dec(h.old_lines, &mut out);
    out.push(' ');
    out.push('+');
    crate::strutil::push_dec(h.new_start, &mut out);
    out.push(',');
    crate::strutil::push_dec(h.new_lines, &mut out);
    out.push(' ');
    out.push('@');
    out.push('@');
    out.push('\n');
    proof {
        assert(out@ =~= spec_hunk_header_text(h.old_start, h.old_lines, h.new_start, h.new_lines)
            + seq!['\n']);
    }
    let ghost head = out@;
    let mut k: usize = 0;
    proof {
        assert(out@ + spec_lines_text(h@.lines, 0) =~= head + spec_lines_text(h@.lines, 0));
        assert(h@.lines.len() == h.lines@.len());
    }
    while k < h.lines.len()
        invariant
            k <= h.lines@.len(),
            out@ + spec_lines_text(h@.lines, k as int) == head + spec_lines_text(h@.lines, 0),
        decreases h.lines@.len() - k,
    {
        let ghost pre = out@;
        let l = &h.lines[k];
        proof {
            assert(h@.lines[k as int] == l@);
        }
        let p = match l.line_type {
            LineType::Added => '+',
            LineType::Removed => '-',
            LineType::Context => ' ',
        };
        out.push(p);
        crate::strutil::append_str(&mut out, l.content.as_str());
        out.push('\n');
        proof {
            assert(out@ =~= pre + (spec_line_text(l@) + seq!['\n']));
            assert(out@ + spec_lines_text(h@.lines, k + 1) =~= pre + spec_lines_text(
                h@.lines,
                k as int,
            ));
        }
        k += 1;
    }
    proof {
        assert(spec_lines_text(h@.lines, k as int) =~= Seq::<char>::empty());
        assert(out@ + Seq::<char>::empty() =~= out@);
    }
    crate::strutil::chars_to_string(&out)
}

// ---------------------------------------------------------------------------
// Round trip: serialized hunk text parses back to the same hunk
// ---------------------------------------------------------------------------

/// Splitting peels one newline-terminated line off the front, provided
/// the line holds no newline and does not end in a carriage return.
proof fn lemma_split_prefix(l: Seq<char>, rest: Seq<char>)
    requires
        forall|j: int| 0 <= j < l.len() ==> l[j] != '\n',
        l.len() > 0 ==> l.last() != '\r',
    ensures
        spec_split_lines(l + seq!['\n'] + rest) == seq![l] + spec_split_lines(rest),
{
    let s = l + seq!['\n'] + rest;
    assert forall|j: int| 0 <= j < l.len() implies s[j] != '\n' by {
        assert(s[j] == l[j]);
    }
    assert(s[l.len() as int] == '\n');
    lemma_first_idx_eq(s, '\n', l.len() as int);
    assert(s.subrange(0, l.len() as int) =~= l);
    assert(s.subrange(l.len() as int + 1, s.len() as int) =~= rest);
    assert(spec_split_lines(s) == seq![l] + spec_split_lines(rest));
}

/// The rows of a serialized line list: one row per line, in order.
pub open spec fn sane_line(l: HunkLineV) -> bool {
    &&& forall|j: int| 0 <= j < l.content.len() ==> l.content[j] != '\n'
    &&& (l.content.len() > 0 ==> l.content.last() != '\r')
    &&& (l.line_type is Added ==> !spec_starts_with(l.content, "++ "@))
    &&& (l.line_type is Removed ==> !spec_starts_with(l.content, "-- "@))
}

proof fn lemma_lines_split(ls: Seq<HunkLineV>, k: int)
    requires
        0 <= k <= ls.len(),
        forall|i: int| 0 <= i < ls.len() ==> sane_line(#[trigger] ls[i]),
    ensures
        spec_split_lines(spec_lines_text(ls, k)) =~~= Seq::new(
            (ls.len() - k) as nat,
            |j: int| spec_line_text(ls[k + j]),
        ),
    decreases ls.len() - k,
{
    if k >= ls.len() {
        assert(spec_lines_text(ls, k) =~= Seq::<char>::empty());
    } else {
        lemma_lines_split(ls, k + 1);
        let lt = spec_line_text(ls[k]);
        assert forall|j: int| 0 <= j < lt.len() implies lt[j] != '\n' by {
            if j >= 1 {
                assert(lt[j] == ls[k].content[j - 1]);
            }
        }
        if lt.len() > 0 {
            if ls[k].content.len() > 0 {
                assert(lt.last() == ls[k].content.last());
            } else {
                assert(lt.last() == crate::align::spec_prefix_char(ls[k].line_type));
            }
        }
        assert(spec_lines_text(ls, k) =~= lt + seq!['\n'] + spec_lines_text(ls, k + 1));
        lemma_split_prefix(lt, spec_lines_text(ls, k + 1));
        assert(spec_split_lines(spec_lines_text(ls, k)) =~~= seq![lt] + Seq::new(
            (ls.len() - k - 1) as nat,
            |j: int| spec_line_text(ls[k + 1 + j]),
        ));
    }
}

/// Digits are inert for every delimiter the header scan looks for.
proof fn lemma_digits_inert(x: nat)
    ensures
        forall|j: int|
            0 <= j < spec_dec(x).len() ==> {
                let c = #[trigger] spec_dec(x)[j];
                c != ' ' && c != ',' && c != '-' && c != '+' && c != '@' && !is_space_char(c)
            },
{
    crate::strutil::lemma_spec_dec_digits(x);
    assert forall|j: int| 0 <= j < spec_dec(x).len() implies {
        let c = #[trigger] spec_dec(x)[j];
        c != ' ' && c != ',' && c != '-' && c != '+' && c != '@' && !is_space_char(c)
    } by {
        assert(crate::strutil::is_digit(spec_dec(x)[j]));
    }
}

/// A canonical header parses back to its four numbers.
#[verifier::spinoff_prover]
#[verifier::rlimit(100)]
proof fn lemma_header_rt(os: usize, ol: usize, ns: usize, nl: usize)
    ensures
        spec_parse_hunk_header(spec_hunk_header_text(os, ol, ns, nl)) == Some((os, ol, ns, nl)),
{
    reveal_strlit("@@");
    let hd = spec_hunk_header_text(os, ol, ns, nl);
    let dos = crate::strutil::spec_dec(os as nat);
    let dol = crate::strutil::spec_dec(ol as nat);
    let dns = crate::strutil::spec_dec(ns as nat);
    let dnl = crate::strutil::spec_dec(nl as nat);
    lemma_digits_inert(os as nat);
    lemma_digits_inert(ol as nat);
    lemma_digits_inert(ns as nat);
    lemma_digits_inert(nl as nat);
    crate::strutil::lemma_spec_dec_digits(os as nat);
    crate::strutil::lemma_spec_dec_digits(ol as nat);
    crate::strutil::lemma_spec_dec_digits(ns as nat);
    crate::strutil::lemma_spec_dec_digits(nl as nat);
    // strip the leading "@@"
    let h1 = seq![' ', '-'] + dos + seq![','] + dol + seq![' ', '+'] + dns + seq![','] + dnl
        + seq![' ', '@', '@'];
    assert(hd.subrange(0, 2) =~= "@@"@);
    assert(spec_starts_with(hd, "@@"@));
    assert(hd.subrange(2, hd.len() as int) =~= h1);
    assert(h1[0] == ' ');
    if spec_starts_with(h1, "@@"@) {
        assert(h1.subrange(0, 2)[0] == h1[0]);
        assert(false);
    }
    assert(strip_all_prefix_seq(h1, "@@"@) == h1);
    assert(strip_all_prefix_seq(hd, "@@"@) == strip_all_prefix_seq(h1, "@@"@));
    // strip the trailing "@@"
    let h2 = seq![' ', '-'] + dos + seq![','] + dol + seq![' ', '+'] + dns + seq![','] + dnl
        + seq![' '];
    assert(h1.subrange(h1.len() - 2, h1.len() as int) =~= "@@"@);
    assert(seq_ends_with(h1, "@@"@));
    assert(h1.subrange(0, h1.len() - 2) =~= h2);
    assert(h2.last() == ' ');
    if seq_ends_with(h2, "@@"@) {
        assert(h2.subrange(h2.len() - 2, h2.len() as int)[1] == h2[h2.len() - 1]);
        assert(false);
    }
    assert(strip_all_suffix_seq(h2, "@@"@) == h2);
    assert(strip_all_suffix_seq(h1, "@@"@) == strip_all_suffix_seq(h2, "@@"@));
    // trim the single space on each side
    let h3 = seq!['-'] + dos + seq![','] + dol + seq![' ', '+'] + dns + seq![','] + dnl
        + seq![' '];
    assert(h2[0] == ' ' && is_space_char(' '));
    assert(h2.drop_first() =~= h3);
    assert(h3[0] == '-' && !is_space_char('-'));
    assert(trim_start_seq(h3) == h3);
    assert(trim_start_seq(h2) == trim_start_seq(h3));
    let h4 = seq!['-'] + dos + seq![','] + dol + seq![' ', '+'] + dns + seq![','] + dnl;
    assert(h3.last() == ' ');
    assert(h3.drop_last() =~= h4);
    assert(h4.last() == dnl.last());
    assert(!is_space_char(h4.last()));
    assert(trim_end_seq(h4) == h4);
    assert(trim_end_seq(h3) == trim_end_seq(h4));
    assert(spec_trim(h2) == h4);
    // the space that separates the old and new parts
    let sp = 1 + dos.len() + 1 + dol.len();
    assert forall|j: int| 0 <= j < sp implies h4[j] != ' ' by {
        if j == 0 {
        } else if j <= dos.len() {
            assert(h4[j] == dos[j - 1]);
        } else if j == dos.len() + 1 {
            assert(h4[j] == ',');
        } else {
            assert(h4[j] == dol[j - dos.len() - 2]);
        }
    }
    assert(h4[sp as int] == ' ');
    lemma_first_idx_eq(h4, ' ', sp as int);
    // the old part
    let op0 = h4.subrange(0, sp as int);
    assert(op0 =~= seq!['-'] + dos + seq![','] + dol);
    let op = dos + seq![','] + dol;
    assert(op0[0] == '-');
    assert(op0.drop_first() =~= op);
    assert(op[0] == dos[0] && op[0] != '-');
    assert(strip_leading_char(op, '-') == op);
    assert(strip_leading_char(op0, '-') == strip_leading_char(op, '-'));
    assert forall|j: int| 0 <= j < dos.len() implies op[j] != ',' by {
        assert(op[j] == dos[j]);
    }
    assert(op[dos.len() as int] == ',');
    lemma_first_idx_eq(op, ',', dos.len() as int);
    assert(op.subrange(0, dos.len() as int) =~= dos);
    crate::strutil::lemma_dec_round_trip(os);
    assert(first_num(op) == os);
    let oprest = op.subrange(dos.len() as int + 1, op.len() as int);
    assert(oprest =~= dol);
    assert(forall|j: int| 0 <= j < dol.len() ==> #[trigger] dol[j] != ',');
    lemma_first_idx_eq(oprest, ',', oprest.len() as int);
    assert(oprest.subrange(0, oprest.len() as int) =~= dol);
    crate::strutil::lemma_dec_round_trip(ol);
    assert(second_num(op) == ol);
    // the new part
    let np0 = h4.subrange(sp as int + 1, h4.len() as int);
    assert(np0 =~= seq!['+'] + dns + seq![','] + dnl);
    let np = dns + seq![','] + dnl;
    assert(np0[0] == '+');
    assert(np0.drop_first() =~= np);
    assert(np[0] == dns[0] && np[0] != '+');
    assert(strip_leading_char(np, '+') == np);
    assert(strip_leading_char(np0, '+') == strip_leading_char(np, '+'));
    assert forall|j: int| 0 <= j < dns.len() implies np[j] != ',' by {
        assert(np[j] == dns[j]);
    }
    assert(np[dns.len() as int] == ',');
    lemma_first_idx_eq(np, ',', dns.len() as int);
    assert(np.subrange(0, dns.len() as int) =~= dns);
    crate::strutil::lemma_dec_round_trip(ns);
    assert(first_num(np) == ns);
    let nprest = np.subrange(dns.len() as int + 1, np.len() as int);
    assert(nprest =~= dnl);
    assert(forall|j: int| 0 <= j < dnl.len() ==> #[trigger] dnl[j] != ',');
    lemma_first_idx_eq(nprest, ',', nprest.len() as int);
    assert(nprest.subrange(0, nprest.len() as int) =~= dnl);
    crate::strutil::lemma_dec_round_trip(nl);
    assert(second_num(np) == nl);
    assert(spec_parse_hunk_header(hd) == Some((os, ol, ns, nl)));
}

/// Line stamping replayed in specification: the lines the scan appends,
/// with the counters it carries.
pub open spec fn stamp_st(ls: Seq<HunkLineV>, k: int, os: usize, ns: usize) -> (
    Seq<HunkLineV>,
    usize,
    usize,
)
    decreases k,
{
    if k <= 0 {
        (Seq::empty(), os, ns)
    } else {
        let t = stamp_st(ls, k - 1, os, ns);
        let l = ls[k - 1];
        match l.line_type {
            LineType::Added => (
                t.0.push(
                    HunkLineV {
                        line_type: LineType::Added,
                        old_line_num: None,
                        new_line_num: Some(t.2),
                        content: l.content,
                    },
                ),
                t.1,
                spec_sat_add(t.2, 1),
            ),
            LineType::Removed => (
                t.0.push(
                    HunkLineV {
                        line_type: LineType::Removed,
                        old_line_num: Some(t.1),
                        new_line_num: None,
                        content: l.content,
                    },
                ),
                spec_sat_add(t.1, 1),
                t.2,
            ),
            LineType::Context => (
                t.0.push(
                    HunkLineV {
                        line_type: LineType::Context,
                        old_line_num: Some(t.1),
                        new_line_num: Some(t.2),
                        content: l.content,
                    },
                ),
                spec_sat_add(t.1, 1),
                spec_sat_add(t.2, 1),
            ),
        }
    }
}

proof fn lemma_stamp_props(ls: Seq<HunkLineV>, k: int, os: usize, ns: usize)
    requires
        0 <= k <= ls.len(),
    ensures
        stamp_st(ls, k, os, ns).0.len() == k,
        forall|j: int|
            0 <= j < k ==> (#[trigger] stamp_st(ls, k, os, ns).0[j]).line_type
                == ls[j].line_type && stamp_st(ls, k, os, ns).0[j].content == ls[j].content
                && stamp_st(ls, k, os, ns).0[j].wf(),
    decreases k,
{
    if k > 0 {
        lemma_stamp_props(ls, k - 1, os, ns);
    }
}

/// The input lines of the round trip: the file preamble, the canonical
/// header, and one row per hunk line.
pub open spec fn round_trip_rows(h: HunkV) -> Seq<Seq<char>> {
    seq![
        "diff --git a/f b/f"@,
        "--- a/f"@,
        "+++ b/f"@,
        spec_hunk_header_text(h.old_start, h.old_lines, h.new_start, h.new_lines),
    ] + Seq::new(h.lines.len(), |j: int| spec_line_text(h.lines[j]))
}

/// The accumulator after the preamble, the header, and `k` content rows.
pub open spec fn expected_st(h: HunkV, k: int) -> ParseSt {
    let t = stamp_st(h.lines, k, h.old_start, h.new_start);
    ParseSt {
        files: Seq::empty(),
        cur_file: Some(
            FileDiffV {
                old_path: "f"@,
                new_path: "f"@,
                hunks: Seq::empty(),
                new_file_lines: None,
            },
        ),
        cur_hunk: Some(
            HunkV {
                old_start: h.old_start,
                old_lines: h.old_lines,
                new_start: h.new_start,
                new_lines: h.new_lines,
                header: spec_hunk_header_text(h.old_start, h.old_lines, h.new_start, h.new_lines),
                lines: t.0,
            },
        ),
        old_ln: t.1,
        new_ln: t.2,
    }
}

/// No character of the canonical header is a newline or carriage return,
/// and it opens with `@@`.
proof fn lemma_header_chars(os: usize, ol: usize, ns: usize, nl: usize)
    ensures
        forall|j: int|
            0 <= j < spec_hunk_header_text(os, ol, ns, nl).len() ==> {
                let c = #[trigger] spec_hunk_header_text(os, ol, ns, nl)[j];
                c != '\n' && c != '\r'
            },
        spec_hunk_header_text(os, ol, ns, nl).len() > 2,
        spec_hunk_header_text(os, ol, ns, nl)[0] == '@',
        spec_hunk_header_text(os, ol, ns, nl)[1] == '@',
        spec_hunk_header_text(os, ol, ns, nl).last() == '@',
{
    let hd = spec_hunk_header_text(os, ol, ns, nl);
    let dos = spec_dec(os as nat);
    let dol = spec_dec(ol as nat);
    let dns = spec_dec(ns as nat);
    let dnl = spec_dec(nl as nat);
    crate::strutil::lemma_spec_dec_digits(os as nat);
    crate::strutil::lemma_spec_dec_digits(ol as nat);
    crate::strutil::lemma_spec_dec_digits(ns as nat);
    crate::strutil::lemma_spec_dec_digits(nl as nat);
    assert forall|j: int| 0 <= j < hd.len() implies {
        let c = #[trigger] hd[j];
        c != '\n' && c != '\r'
    } by {
        let b0 = 4int;
        let b1 = b0 + dos.len();
        let b2 = b1 + 1;
        let b3 = b2 + dol.len();
        let b4 = b3 + 2;
        let b5 = b4 + dns.len();
        let b6 = b5 + 1;
        let b7 = b6 + dnl.len();
        if j < b0 {
        } else if j < b1 {
            assert(hd[j] == dos[j - b0]);
            assert(crate::strutil::is_digit(hd[j]));
        } else if j < b2 {
            assert(hd[j] == ',');
        } else if j < b3 {
            assert(hd[j] == dol[j - b2]);
            assert(crate::strutil::is_digit(hd[j]));
        } else if j < b4 {
        } else if j < b5 {
            assert(hd[j] == dns[j - b4]);
            assert(crate::strutil::is_digit(hd[j]));
        } else if j < b6 {
            assert(hd[j] == ',');
        } else if j < b7 {
            assert(hd[j] == dnl[j - b6]);
            assert(crate::strutil::is_digit(hd[j]));
        } else {
        }
    }
}

/// The scan, replayed over the preamble, the header, and the first `k`
/// content rows.
#[verifier::spinoff_prover]
#[verifier::rlimit(100)]
proof fn lemma_content_steps(h: HunkV, k: int)
    requires
        0 <= k <= h.lines.len(),
        forall|i: int| 0 <= i < h.lines.len() ==> sane_line(#[trigger] h.lines[i]),
    ensures
        run_to(round_trip_rows(h), 4 + k) == expected_st(h, k),
    decreases k,
{
    reveal_strlit("diff --git a/f b/f");
    reveal_strlit("diff --git");
    reveal_strlit("--- a/f");
    reveal_strlit("--- ");
    reveal_strlit("+++ b/f");
    reveal_strlit("+++ ");
    reveal_strlit("@@");
    reveal_strlit("a/");
    reveal_strlit("b/");
    reveal_strlit("f");
    reveal_strlit("-- ");
    reveal_strlit("++ ");
    let rows = round_trip_rows(h);
    let hd = spec_hunk_header_text(h.old_start, h.old_lines, h.new_start, h.new_lines);
    lemma_header_chars(h.old_start, h.old_lines, h.new_start, h.new_lines);
    if k == 0 {
        // the preamble and header steps, one by one
        let st0 = run_to(rows, 0);
        assert(st0 == init_st());
        let p1 = "diff --git a/f b/f"@;
        assert(rows[0] == p1);
        assert(p1.subrange(0, 10) =~= "diff --git"@);
        assert(spec_starts_with(p1, "diff --git"@));
        let st1 = run_to(rows, 1);
        assert(st1 == spec_step(st0, p1));
        assert(st1.cur_file == Some(empty_file_v()));
        assert(st1.files =~= Seq::<FileDiffV>::empty());
        let p2 = "--- a/f"@;
        assert(rows[1] == p2);
        if spec_starts_with(p2, "diff --git"@) {
            assert(p2.subrange(0, 10)[0] == p2[0]);
            assert(false);
        }
        assert(p2.subrange(0, 4) =~= "--- "@);
        assert(spec_starts_with(p2, "--- "@));
        assert(p2.subrange(4, 7).subrange(0, 2) =~= "a/"@);
        assert(spec_starts_with(p2.subrange(4, 7), "a/"@));
        assert(spec_path(p2, "a/"@) =~= "f"@);
        let st2 = run_to(rows, 2);
        assert(st2 == spec_step(st1, p2));
        assert(st2.cur_file is Some);
        assert(st2.cur_file.unwrap().old_path == "f"@);
        let p3 = "+++ b/f"@;
        assert(rows[2] == p3);
        if spec_starts_with(p3, "diff --git"@) {
            assert(p3.subrange(0, 10)[0] == p3[0]);
            assert(false);
        }
        if spec_starts_with(p3, "--- "@) {
            assert(p3.subrange(0, 4)[0] == p3[0]);
            assert(false);
        }
        assert(p3.subrange(0, 4) =~= "+++ "@);
        assert(spec_starts_with(p3, "+++ "@));
        assert(p3.subrange(4, 7).subrange(0, 2) =~= "b/"@);
        assert(spec_starts_with(p3.subrange(4, 7), "b/"@));
        assert(spec_path(p3, "b/"@) =~= "f"@);
        let st3 = run_to(rows, 3);
        assert(st3 == spec_step(st2, p3));
        assert(st3.cur_file is Some);
        assert(st3.cur_file.unwrap().new_path == "f"@);
        assert(st3.cur_file.unwrap().old_path == "f"@);
        assert(rows[3] == hd);
        if spec_starts_with(hd, "diff --git"@) {
            assert(hd.subrange(0, 10)[0] == hd[0]);
            assert(false);
        }
        if spec_starts_with(hd, "--- "@) {
            assert(hd.subrange(0, 4)[0] == hd[0]);
            assert(false);
        }
        if spec_starts_with(hd, "+++ "@) {
            assert(hd.subrange(0, 4)[0] == hd[0]);
            assert(false);
        }
        assert(hd.subrange(0, 2) =~= "@@"@);
        assert(spec_starts_with(hd, "@@"@));
        lemma_header_rt(h.old_start, h.old_lines, h.new_start, h.new_lines);
        let st4 = run_to(rows, 4);
        assert(st4 == spec_step(st3, hd));
        assert(st4.cur_file.unwrap().hunks =~= Seq::<HunkV>::empty());
        assert(st4.cur_hunk.unwrap().lines =~= Seq::<HunkLineV>::empty());
        assert(stamp_st(h.lines, 0, h.old_start, h.new_start).0 =~= Seq::<HunkLineV>::empty());
        assert(st4.cur_file == expected_st(h, 0).cur_file);
        assert(st4.cur_hunk == expected_st(h, 0).cur_hunk);
        assert(st4.files =~= expected_st(h, 0).files);
        assert(st4 == expected_st(h, 0));
    } else {
        lemma_content_steps(h, k - 1);
        let st = expected_st(h, k - 1);
        let l = h.lines[k - 1];
        let lt = spec_line_text(l);
        assert(rows[4 + k - 1] == lt);
        assert(run_to(rows, 4 + k) == spec_step(st, lt));
        let pc = crate::align::spec_prefix_char(l.line_type);
        assert(lt[0] == pc);
        assert(lt.len() == 1 + l.content.len());
        assert(pc == '+' || pc == '-' || pc == ' ');
        if spec_starts_with(lt, "diff --git"@) {
            assert(lt.subrange(0, 10)[0] == lt[0]);
            assert(false);
        }
        if spec_starts_with(lt, "--- "@) {
            assert(lt.subrange(0, 4)[0] == lt[0]);
            assert(lt.subrange(0, 4)[1] == lt[1]);
            assert(lt.subrange(0, 4)[2] == lt[2]);
            assert(lt.subrange(0, 4)[3] == lt[3]);
            assert(pc == '-');
            assert(l.line_type is Removed);
            assert(l.content[0] == '-' && l.content[1] == '-' && l.content[2] == ' ');
            assert(l.content.subrange(0, 3) =~= "-- "@);
            assert(spec_starts_with(l.content, "-- "@));
            assert(false);
        }
        if spec_starts_with(lt, "+++ "@) {
            assert(lt.subrange(0, 4)[0] == lt[0]);
            assert(lt.subrange(0, 4)[1] == lt[1]);
            assert(lt.subrange(0, 4)[2] == lt[2]);
            assert(lt.subrange(0, 4)[3] == lt[3]);
            assert(pc == '+');
            assert(l.line_type is Added);
            assert(l.content[0] == '+' && l.content[1] == '+' && l.content[2] == ' ');
            assert(l.content.subrange(0, 3) =~= "++ "@);
            assert(spec_starts_with(l.content, "++ "@));
            assert(false);
        }
        if spec_starts_with(lt, "@@"@) {
            assert(lt.subrange(0, 2)[0] == lt[0]);
            assert(false);
        }
        assert(lt.subrange(1, lt.len() as int) =~= l.content);
        let t0 = stamp_st(h.lines, k - 1, h.old_start, h.new_start);
        let t1 = stamp_st(h.lines, k, h.old_start, h.new_start);
        assert(run_to(rows, 4 + k).cur_hunk.unwrap().lines == t1.0);
        assert(run_to(rows, 4 + k) == expected_st(h, k));
    }
}

/// Parsing a serialized hunk reproduces it: the four header numbers come
/// back exactly, and the content lines come back one for one, with their
/// kinds and text.  The serialized text must keep its line structure:
/// contents hold no newline, do not end in a carriage return, and do not
/// imitate a file marker after their own `+`/`-` prefix.
#[verifier::rlimit(100)]
pub proof fn lemma_hunk_round_trip(h: HunkV)
    requires
        forall|i: int| 0 <= i < h.lines.len() ==> sane_line(#[trigger] h.lines[i]),
    ensures
        ({
            let text = "diff --git a/f b/f\n--- a/f\n+++ b/f\n"@ + spec_hunk_text(h);
            let files = spec_parse_diff(text);
            files.len() == 1 && files[0].hunks.len() == 1 && {
                let ph = files[0].hunks[0];
                ph.old_start == h.old_start && ph.old_lines == h.old_lines && ph.new_start
                    == h.new_start && ph.new_lines == h.new_lines && ph.lines.len()
                    == h.lines.len() && ph.wf() && forall|i: int|
                    0 <= i < h.lines.len() ==> (#[trigger] ph.lines[i]).line_type
                        == h.lines[i].line_type && ph.lines[i].content == h.lines[i].content
            }
        }),
{
    reveal_strlit("diff --git a/f b/f\n--- a/f\n+++ b/f\n");
    reveal_strlit("diff --git a/f b/f");
    reveal_strlit("--- a/f");
    reveal_strlit("+++ b/f");
    let text = "diff --git a/f b/f\n--- a/f\n+++ b/f\n"@ + spec_hunk_text(h);
    let hd = spec_hunk_header_text(h.old_start, h.old_lines, h.new_start, h.new_lines);
    lemma_header_chars(h.old_start, h.old_lines, h.new_start, h.new_lines);
    let tail_h = hd + seq!['\n'] + spec_lines_text(h.lines, 0);
    let tail_3 = "+++ b/f"@ + seq!['\n'] + tail_h;
    let tail_2 = "--- a/f"@ + seq!['\n'] + tail_3;
    assert(text =~= "diff --git a/f b/f"@ + seq!['\n'] + tail_2);
    lemma_split_prefix("diff --git a/f b/f"@, tail_2);
    lemma_split_prefix("--- a/f"@, tail_3);
    lemma_split_prefix("+++ b/f"@, tail_h);
    lemma_split_prefix(hd, spec_lines_text(h.lines, 0));
    lemma_lines_split(h.lines, 0);
    assert(spec_split_lines(text) =~~= round_trip_rows(h));
    let rows = round_trip_rows(h);
    assert(rows.len() == 4 + h.lines.len());
    lemma_content_steps(h, h.lines.len() as int);
    let fin = expected_st(h, h.lines.len() as int);
    assert(spec_parse_diff(text) == spec_finalize(fin));
    lemma_stamp_props(h.lines, h.lines.len() as int, h.old_start, h.new_start);
    let files = spec_finalize(fin);
    assert(files.len() == 1);
    assert(files[0].hunks.len() == 1);
    let ph = files[0].hunks[0];
    assert(ph.lines == stamp_st(h.lines, h.lines.len() as int, h.old_start, h.new_start).0);
    assert forall|i: int| 0 <= i < h.lines.len() implies (#[trigger] ph.lines[i]).line_type
        == h.lines[i].line_type && ph.lines[i].content == h.lines[i].content by {}
    assert(ph.wf());
}

} // verus!
