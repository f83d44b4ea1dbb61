//! Exporting a branch's review comments as Markdown or JSON.  Both
//! renderings group each commit's comments by file, files sorted by path,
//! and within a file list line-level, then hunk-level, then file-level
//! comments.

use vstd::prelude::*;

use crate::errors::ReviewError;
use crate::comments::{
    spec_filter_for_file, spec_location_desc, Comment, CommentLevel, CommentV, CommitComments,
    CommitCommentsV,
};
use crate::json::{json_string, kind_str};
use crate::strutil::{append_str, chars_to_string, push_dec, spec_dec, str_eq};

verus! {

/// Which rendering an export produces.
#[derive(Debug, Clone, Copy, PartialEq, Eq, Structural)]
pub enum ExportFormat {
    Markdown,
    Json,
}

/// Lexicographic order on character sequences (code-point order, which is
/// also byte order for UTF-8).
pub open spec fn lex_leq(a: Seq<char>, b: Seq<char>) -> bool
    decreases a.len(),
{
    if a.len() == 0 {
        true
    } else if b.len() == 0 {
        false
    } else if (a[0] as int) < (b[0] as int) {
        true
    } else if (a[0] as int) > (b[0] as int) {
        false
    } else {
        lex_leq(a.drop_first(), b.drop_first())
    }
}

/// Compare two strings lexicographically.
pub fn lex_leq_exec(a: &str, b: &str) -> (r: bool)
    ensures
        r == lex_leq(a@, b@),
{
    let la = a.unicode_len();
    let lb = b.unicode_len();
    let mut i: usize = 0;
    proof {
        assert(a@.skip(0) =~= a@);
        assert(b@.skip(0) =~= b@);
    }
    while i < la && i < lb
        invariant
            i <= la,
            i <= lb,
            la == a@.len(),
            lb == b@.len(),
            lex_leq(a@, b@) == lex_leq(a@.skip(i as int), b@.skip(i as int)),
        decreases la - i,
    {
        let ca = a.get_char(i);
        let cb = b.get_char(i);
        proof {
            let ra = a@.skip(i as int);
            let rb = b@.skip(i as int);
            assert(ra[0] == a@[i as int]);
            assert(rb[0] == b@[i as int]);
            assert(ra.drop_first() =~= a@.skip(i + 1));
            assert(rb.drop_first() =~= b@.skip(i + 1));
        }
        if (ca as u32) < (cb as u32) {
            return true;
        }
        if (ca as u32) > (cb as u32) {
            return false;
        }
        i += 1;
    }
    proof {
        let ra = a@.skip(i as int);
        let rb = b@.skip(i as int);
        if i >= la {
            assert(ra.len() == 0);
        } else {
            assert(rb.len() == 0);
            assert(ra.len() > 0);
        }
    }
    la <= lb
}

/// Insert into a sorted list, before the first element it precedes.
pub open spec fn insert_sorted(p: Seq<char>, ps: Seq<Seq<char>>) -> Seq<Seq<char>>
    decreases ps.len(),
{
    if ps.len() == 0 {
        seq![p]
    } else if lex_leq(p, ps[0]) {
        seq![p] + ps
    } else {
        seq![ps[0]] + insert_sorted(p, ps.drop_first())
    }
}

/// Insertion sort, folding from the right.
pub open spec fn sort_paths(ps: Seq<Seq<char>>) -> Seq<Seq<char>>
    decreases ps.len(),
{
    if ps.len() == 0 {
        Seq::empty()
    } else {
        insert_sorted(ps[0], sort_paths(ps.drop_first()))
    }
}

/// The distinct file paths of a comment list, in first-seen order.
pub open spec fn paths_of(cs: Seq<CommentV>, i: int) -> Seq<Seq<char>>
    decreases cs.len() - i,
{
    if i < 0 || i >= cs.len() {
        Seq::empty()
    } else {
        let rest = paths_of(cs, i + 1);
        if cs.subrange(0, i).map_values(|c: CommentV| c.file_path).contains(cs[i].file_path) {
            rest
        } else {
            seq![cs[i].file_path] + rest
        }
    }
}

/// The paths the export walks for one comment list: the distinct paths,
/// sorted.
pub open spec fn export_paths(cs: Seq<CommentV>) -> Seq<Seq<char>> {
    sort_paths(paths_of(cs, 0))
}

/// Collect the distinct file paths of the comments, sorted by path.
#[verifier::loop_isolation(false)]
#[verifier::rlimit(100)]
pub fn collect_export_paths(comments: &Vec<Comment>) -> (r: Vec<String>)
    ensures
        r@.map_values(|s: String| s@) == export_paths(
            comments@.map_values(|c: Comment| c@),
        ),
{
    let ghost cs = comments@.map_values(|c: Comment| c@);
    // distinct paths, first-seen order, walking from the back so the
    // suffix-recursive spec unfolds per step
    let mut distinct: Vec<String> = Vec::new();
    let mut i: usize = comments.len();
    proof {
        assert(paths_of(cs, comments@.len() as int) =~= Seq::<Seq<char>>::empty());
        assert(distinct@.map_values(|s: String| s@) =~= paths_of(cs, comments@.len() as int));
    }
    while i > 0
        invariant
            i <= comments@.len(),
            cs == comments@.map_values(|c: Comment| c@),
            distinct@.map_values(|s: String| s@) == paths_of(cs, i as int),
        decreases i,
    {
        i = i - 1;
        let c = &comments[i];
        proof {
            assert(cs[i as int] == c@);
        }
        // does any earlier comment already use this path?
        let mut seen: bool = false;
        let mut j: usize = 0;
        while j < i
            invariant
                j <= i,
                i < comments@.len(),
                cs == comments@.map_values(|c2: Comment| c2@),
                cs[i as int] == c@,
                seen == exists|m: int|
                    0 <= m < j && #[trigger] cs[m].file_path == c@.file_path,
            decreases i - j,
        {
            let e = str_eq(comments[j].file_path.as_str(), c.file_path.as_str());
            proof {
                assert(cs[j as int] == comments@[j as int]@);
                if e {
                    assert(cs[j as int].file_path == c@.file_path);
                } else {
                    assert(cs[j as int].file_path != c@.file_path);
                    if exists|m: int| 0 <= m < j + 1 && #[trigger] cs[m].file_path
                        == c@.file_path {
                        let m = choose|m: int|
                            0 <= m < j + 1 && #[trigger] cs[m].file_path == c@.file_path;
                        assert(m < j);
                    }
                }
            }
            if e {
                seen = true;
            }
            j += 1;
        }
        proof {
            let prefix = cs.subrange(0, i as int).map_values(|c2: CommentV| c2.file_path);
            assert(prefix.len() == i as int);
            assert forall|m: int| 0 <= m < i implies #[trigger] prefix[m] == cs[m].file_path by {
                assert(cs.subrange(0, i as int)[m] == cs[m]);
            }
            if seen {
                let m = choose|m: int| 0 <= m < i && #[trigger] cs[m].file_path == c@.file_path;
                assert(prefix[m] == c@.file_path);
                assert(prefix.contains(c@.file_path));
            } else {
                if prefix.contains(c@.file_path) {
                    let m = choose|m: int| 0 <= m < prefix.len() && prefix[m] == c@.file_path;
                    assert(cs[m].file_path == c@.file_path);
                    assert(false);
                }
            }
        }
        if !seen {
            let ghost pre = distinct@.map_values(|s: String| s@);
            distinct.insert(0, c.file_path.clone());
            proof {
                assert(distinct@.map_values(|s: String| s@) =~= seq![c@.file_path] + pre);
            }
        }
    }
    // insertion sort, folding from the right as the spec does
    let mut sorted: Vec<String> = Vec::new();
    let mut k: usize = distinct.len();
    proof {
        assert(sorted@.map_values(|s: String| s@) =~= sort_paths(
            distinct@.map_values(|s: String| s@).skip(distinct@.len() as int),
        )) by {
            assert(distinct@.map_values(|s: String| s@).skip(distinct@.len() as int) =~= Seq::<
                Seq<char>,
            >::empty());
        }
    }
    while k > 0
        invariant
            k <= distinct@.len(),
            distinct@.map_values(|s: String| s@) == paths_of(cs, 0),
            sorted@.map_values(|s: String| s@) == sort_paths(
                distinct@.map_values(|s: String| s@).skip(k as int),
            ),
        decreases k,
    {
        k = k - 1;
        let ghost dv = distinct@.map_values(|s: String| s@);
        let p = distinct[k].clone();
        proof {
            assert(dv[k as int] == distinct@[k as int]@);
        }
        // find the insertion position
        let mut pos: usize = 0;
        while pos < sorted.len() && !lex_leq_exec(p.as_str(), sorted[pos].as_str())
            invariant
                pos <= sorted@.len(),
                forall|m: int| 0 <= m < pos ==> !lex_leq(p@, #[trigger] sorted@[m]@),
            decreases sorted@.len() - pos,
        {
            proof {
                assert(sorted@.map_values(|s: String| s@)[pos as int] == sorted@[pos as int]@);
            }
            pos += 1;
        }
        proof {
            let sv = sorted@.map_values(|s: String| s@);
            if (pos as int) < sv.len() {
                assert(sv[pos as int] == sorted@[pos as int]@);
            }
            lemma_insert_sorted_at(p@, sv, pos as int);
        }
        let ghost pre = sorted@.map_values(|s: String| s@);
        sorted.insert(pos, p);
        proof {
            assert(sorted@.map_values(|s: String| s@) =~= pre.subrange(0, pos as int) + seq![
                dv[k as int],
            ] + pre.subrange(pos as int, pre.len() as int));
            assert(dv.skip(k as int)[0] == dv[k as int]);
            assert(dv.skip(k as int).drop_first() =~= dv.skip(k + 1));
            assert(sorted@.map_values(|s: String| s@) == sort_paths(dv.skip(k as int)));
        }
    }
    proof {
        assert(distinct@.map_values(|s: String| s@).skip(0) =~= distinct@.map_values(
            |s: String| s@,
        ));
    }
    sorted
}

/// Inserting before the first element that is not smaller lands at the
/// scan position.
proof fn lemma_insert_sorted_at(p: Seq<char>, ps: Seq<Seq<char>>, pos: int)
    requires
        0 <= pos <= ps.len(),
        forall|m: int| 0 <= m < pos ==> !lex_leq(p, #[trigger] ps[m]),
        pos < ps.len() ==> lex_leq(p, ps[pos]),
    ensures
        insert_sorted(p, ps) == ps.subrange(0, pos) + seq![p] + ps.subrange(pos, ps.len() as int),
    decreases ps.len(),
{
    if ps.len() == 0 {
        assert(insert_sorted(p, ps) =~= ps.subrange(0, pos) + seq![p] + ps.subrange(
            pos,
            ps.len() as int,
        ));
    } else if lex_leq(p, ps[0]) {
        assert(pos == 0);
        assert(insert_sorted(p, ps) =~= ps.subrange(0, pos) + seq![p] + ps.subrange(
            pos,
            ps.len() as int,
        ));
    } else {
        assert(pos >= 1);
        assert(forall|m: int|
            0 <= m < pos - 1 ==> !lex_leq(p, #[trigger] ps.drop_first()[m]));
        if pos - 1 < ps.drop_first().len() {
            assert(ps.drop_first()[pos - 1] == ps[pos as int]);
        }
        lemma_insert_sorted_at(p, ps.drop_first(), pos - 1);
        assert(insert_sorted(p, ps) =~= ps.subrange(0, pos) + seq![p] + ps.subrange(
            pos,
            ps.len() as int,
        )) by {
            assert(insert_sorted(p, ps) == seq![ps[0]] + insert_sorted(p, ps.drop_first()));
            assert(insert_sorted(p, ps.drop_first()) == ps.drop_first().subrange(0, pos - 1)
                + seq![p] + ps.drop_first().subrange(pos - 1, ps.drop_first().len() as int));
            assert(ps.drop_first().subrange(0, pos - 1) =~= ps.subrange(1, pos));
            assert(ps.drop_first().subrange(pos - 1, ps.drop_first().len() as int) =~= ps.subrange(
                pos,
                ps.len() as int,
            ));
        }
    }
}

// ---------------------------------------------------------------------------
// Markdown rendering
// ---------------------------------------------------------------------------

/// `YYYY-MM-DD HH:MM:SS` cut from an RFC 3339 timestamp; shorter text is
/// shown as it is.
pub open spec fn fmt_ts(ts: Seq<char>) -> Seq<char> {
    if ts.len() >= 19 {
        ts.subrange(0, 10) + " "@ + ts.subrange(11, 19)
    } else {
        ts
    }
}

/// A commit id clipped to seven characters for display.
pub open spec fn short_id(s: Seq<char>) -> Seq<char> {
    if s.len() > 7 {
        s.subrange(0, 7)
    } else {
        s
    }
}

pub open spec fn md_line_hunk_item(c: CommentV) -> Seq<char> {
    "#### "@ + spec_location_desc(c.location) + "\n\n**Comment:** "@ + c.text + "\n\n"@
}

pub open spec fn md_file_item(c: CommentV) -> Seq<char> {
    "#### File-level Comment\n\n**Comment:** "@ + c.text + "\n\n"@
}

/// The items of one level within a file section, in comment order.
pub open spec fn md_items_level(cs: Seq<CommentV>, lv: CommentLevel, k: int) -> Seq<char>
    decreases cs.len() - k,
{
    if k < 0 || k >= cs.len() {
        Seq::empty()
    } else {
        (if cs[k].level == lv {
            if lv is File {
                md_file_item(cs[k])
            } else {
                md_line_hunk_item(cs[k])
            }
        } else {
            Seq::empty()
        }) + md_items_level(cs, lv, k + 1)
    }
}

/// One file's section: heading, then line-, hunk- and file-level items.
pub open spec fn md_file_section(csf: Seq<CommentV>, path: Seq<char>) -> Seq<char> {
    "### "@ + path + "\n\n"@ + md_items_level(csf, CommentLevel::Line, 0) + md_items_level(
        csf,
        CommentLevel::Hunk,
        0,
    ) + md_items_level(csf, CommentLevel::File, 0)
}

pub open spec fn md_sections(cs: Seq<CommentV>, paths: Seq<Seq<char>>, i: int) -> Seq<char>
    decreases paths.len() - i,
{
    if i < 0 || i >= paths.len() {
        Seq::empty()
    } else {
        md_file_section(spec_filter_for_file(cs, paths[i], 0), paths[i]) + md_sections(
            cs,
            paths,
            i + 1,
        )
    }
}

pub open spec fn md_commit(v: CommitCommentsV) -> Seq<char> {
    "## Commit: "@ + short_id(v.commit_id) + "\n\n"@ + "Date: "@ + fmt_ts(v.timestamp) + "\n\n"@
        + md_sections(v.comments, export_paths(v.comments), 0) + "---\n\n"@
}

pub open spec fn md_commits(list: Seq<CommitCommentsV>, i: int) -> Seq<char>
    decreases list.len() - i,
{
    if i < 0 || i >= list.len() {
        Seq::empty()
    } else {
        md_commit(list[i]) + md_commits(list, i + 1)
    }
}

/// The whole Markdown document.
pub open spec fn md_of(list: Seq<CommitCommentsV>, branch: Seq<char>, now_text: Seq<char>) -> Seq<
    char,
> {
    "# Code Review: "@ + branch + "\n\n"@ + "Exported: "@ + now_text + "\n\n"@ + (if list.len()
        == 0 {
        "No comments found.\n"@
    } else {
        "Total commits with comments: "@ + spec_dec(list.len()) + "\n\n"@ + "---\n\n"@
            + md_commits(list, 0)
    })
}

/// The Markdown document over a list of exec collections.
pub open spec fn md_of_list(list: Seq<CommitComments>, branch: Seq<char>, now_text: Seq<char>) -> Seq<char> {
    md_of(list.map_values(|c: CommitComments| c@), branch, now_text)
}

/// Relies on `chrono::Local::now` and `DateTime::format`: the present
/// local time as `YYYY-MM-DD HH:MM:SS`.  Nothing is promised of its value.
#[verifier::external_body]
fn now_local_display() -> String {
    chrono::Local::now().format("%Y-%m-%d %H:%M:%S").to_string()
}

/// Relies on `chrono::Local::now` and `DateTime::to_rfc3339`: the present
/// local time as an RFC 3339 timestamp.  Nothing is promised of its value.
#[verifier::external_body]
fn now_local_rfc3339() -> String {
    chrono::Local::now().to_rfc3339()
}

/// Append `YYYY-MM-DD HH:MM:SS` cut from an RFC 3339 timestamp.
fn push_fmt_ts(out: &mut Vec<char>, ts: &str)
    ensures
        final(out)@ == old(out)@ + fmt_ts(ts@),
{
    let n = ts.unicode_len();
    if n >= 19 {
        append_str(out, ts.substring_char(0, 10));
        append_str(out, " ");
        append_str(out, ts.substring_char(11, 19));
        assert(out@ =~= old(out)@ + fmt_ts(ts@));
    } else {
        append_str(out, ts);
    }
}

/// Append one comment's Markdown item.
fn push_md_item(out: &mut Vec<char>, c: &Comment)
    ensures
        final(out)@ == old(out)@ + (if c@.level is File {
            md_file_item(c@)
        } else {
            md_line_hunk_item(c@)
        }),
{
    match c.level {
        CommentLevel::File => {
            append_str(out, "#### File-level Comment\n\n**Comment:** ");
            append_str(out, c.text.as_str());
            append_str(out, "\n\n");
            assert(out@ =~= old(out)@ + md_file_item(c@));
        }
        _ => {
            append_str(out, "#### ");
            let d = c.location_desc();
            append_str(out, d.as_str());
            append_str(out, "\n\n**Comment:** ");
            append_str(out, c.text.as_str());
            append_str(out, "\n\n");
            assert(out@ =~= old(out)@ + md_line_hunk_item(c@));
        }
    }
}

/// Append every item of one level from a filtered comment list.
fn push_md_items_level(out: &mut Vec<char>, csf: &Vec<&Comment>, lv: CommentLevel)
    ensures
        final(out)@ == old(out)@ + md_items_level(csf@.map_values(|c: &Comment| c@), lv, 0),
{
    let ghost cv = csf@.map_values(|c: &Comment| c@);
    let mut k: usize = 0;
    proof {
        assert(out@ + md_items_level(cv, lv, 0) =~= old(out)@ + md_items_level(cv, lv, 0));
    }
    while k < csf.len()
        invariant
            k <= csf@.len(),
            cv == csf@.map_values(|c: &Comment| c@),
            out@ + md_items_level(cv, lv, k as int) == old(out)@ + md_items_level(cv, lv, 0),
        decreases csf@.len() - k,
    {
        let ghost pre = out@;
        let c = csf[k];
        proof {
            assert(cv[k as int] == c@);
        }
        let is_lv = match (c.level, lv) {
            (CommentLevel::Line, CommentLevel::Line) => true,
            (CommentLevel::Hunk, CommentLevel::Hunk) => true,
            (CommentLevel::File, CommentLevel::File) => true,
            _ => false,
        };
        if is_lv {
            push_md_item(out, c);
        }
        proof {
            assert(out@ + md_items_level(cv, lv, k + 1) =~= pre + md_items_level(
                cv,
                lv,
                k as int,
            ));
        }
        k += 1;
    }
    proof {
        assert(md_items_level(cv, lv, k as int) =~= Seq::<char>::empty());
        assert(out@ + Seq::<char>::empty() =~= out@);
    }
}

/// Render a branch's comment collections as Markdown, against a caller-
/// supplied export timestamp.
#[verifier::loop_isolation(false)]
#[verifier::rlimit(100)]
pub fn to_markdown_at(comments_list: &[CommitComments], branch: &str, exported_at: &str) -> (r:
    String)
    ensures
        r@ == md_of(comments_list@.map_values(|c: CommitComments| c@), branch@, exported_at@),
{
    let ghost lv = comments_list@.map_values(|c: CommitComments| c@);
    let mut out: Vec<char> = Vec::new();
    append_str(&mut out, "# Code Review: ");
    append_str(&mut out, branch);
    append_str(&mut out, "\n\n");
    append_str(&mut out, "Exported: ");
    append_str(&mut out, exported_at);
    append_str(&mut out, "\n\n");
    if comments_list.len() == 0 {
        append_str(&mut out, "No comments found.\n");
        assert(out@ =~= md_of(lv, branch@, exported_at@));
        return chars_to_string(&out);
    }
    append_str(&mut out, "Total commits with comments: ");
    push_dec(comments_list.len(), &mut out);
    append_str(&mut out, "\n\n");
    append_str(&mut out, "---\n\n");
    let ghost head = out@;
    proof {
        assert(head + md_commits(lv, 0) =~= md_of(lv, branch@, exported_at@));
    }
    let mut i: usize = 0;
    while i < comments_list.len()
        invariant
            i <= comments_list@.len(),
            lv == comments_list@.map_values(|c: CommitComments| c@),
            out@ + md_commits(lv, i as int) == md_of(lv, branch@, exported_at@),
        decreases comments_list@.len() - i,
    {
        let ghost pre = out@;
        let cc = &comments_list[i];
        proof {
            assert(lv[i as int] == cc@);
        }
        append_str(&mut out, "## Commit: ");
        if cc.commit_id.as_str().unicode_len() > 7 {
            append_str(&mut out, cc.commit_id.as_str().substring_char(0, 7));
        } else {
            append_str(&mut out, cc.commit_id.as_str());
        }
        append_str(&mut out, "\n\n");
        append_str(&mut out, "Date: ");
        push_fmt_ts(&mut out, cc.timestamp.as_str());
        append_str(&mut out, "\n\n");
        let ghost chead = out@;
        proof {
            assert(chead =~= pre + ("## Commit: "@ + short_id(cc@.commit_id) + "\n\n"@ + "Date: "@
                + fmt_ts(cc@.timestamp) + "\n\n"@));
        }
        let paths = collect_export_paths(&cc.comments);
        let ghost pv = paths@.map_values(|s: String| s@);
        let mut p: usize = 0;
        proof {
            assert(out@ + md_sections(cc@.comments, pv, 0) =~= chead + md_sections(
                cc@.comments,
                pv,
                0,
            ));
        }
        while p < paths.len()
            invariant
                p <= paths@.len(),
                i < comments_list@.len(),
                lv == comments_list@.map_values(|c: CommitComments| c@),
                lv[i as int] == cc@,
                pv == paths@.map_values(|s: String| s@),
                pv == export_paths(cc@.comments),
                out@ + md_sections(cc@.comments, pv, p as int) == chead + md_sections(
                    cc@.comments,
                    pv,
                    0,
                ),
            decreases paths@.len() - p,
        {
            let ghost spre = out@;
            let path = &paths[p];
            proof {
                assert(pv[p as int] == path@);
            }
            append_str(&mut out, "### ");
            append_str(&mut out, path.as_str());
            append_str(&mut out, "\n\n");
            let csf = cc.comments_for_file(path.as_str());
            proof {
                assert(csf@.map_values(|c: &Comment| c@) == spec_filter_for_file(
                    cc@.comments,
                    path@,
                    0,
                ));
            }
            push_md_items_level(&mut out, &csf, CommentLevel::Line);
            push_md_items_level(&mut out, &csf, CommentLevel::Hunk);
            push_md_items_level(&mut out, &csf, CommentLevel::File);
            proof {
                assert(out@ =~= spre + md_file_section(
                    spec_filter_for_file(cc@.comments, path@, 0),
                    path@,
                ));
                assert(out@ + md_sections(cc@.comments, pv, p + 1) =~= spre + md_sections(
                    cc@.comments,
                    pv,
                    p as int,
                ));
            }
            p += 1;
        }
        proof {
            assert(md_sections(cc@.comments, pv, p as int) =~= Seq::<char>::empty());
            assert(out@ + Seq::<char>::empty() =~= out@);
        }
        append_str(&mut out, "---\n\n");
        proof {
            assert(out@ =~= pre + md_commit(cc@));
            assert(out@ + md_commits(lv, i + 1) =~= pre + md_commits(lv, i as int));
        }
        i += 1;
    }
    proof {
        assert(md_commits(lv, i as int) =~= Seq::<char>::empty());
        assert(out@ + Seq::<char>::empty() =~= out@);
    }
    chars_to_string(&out)
}

/// Render a branch's comment collections as Markdown, stamped with the
/// present local time.
pub fn to_markdown(comments_list: &[CommitComments], branch: &str) -> (r: Result<
    String,
    ReviewError,
>)
    ensures
        r matches Ok(s) && (exists|now_text: Seq<char>|
            s@ == #[trigger] md_of_list(comments_list@, branch@, now_text)),
{
    let now = now_local_display();
    let r = to_markdown_at(comments_list, branch, now.as_str());
    proof {
        assert(r@ == md_of_list(comments_list@, branch@, now@));
    }
    Ok(r)
}

/// Render one commit's comments as Markdown.
pub fn commit_to_markdown(commit_comments: &CommitComments) -> (r: Result<String, ReviewError>)
    ensures
        r matches Ok(s) && (exists|now_text: Seq<char>|
            s@ == #[trigger] md_one(commit_comments@, now_text)),
{
    let mut one: Vec<CommitComments> = Vec::new();
    one.push(commit_comments.clone());
    proof {
        assert(one@.map_values(|c: CommitComments| c@) =~= seq![commit_comments@]);
    }
    let now = now_local_display();
    let sl = one.as_slice();
    proof {
        assert(sl@.map_values(|c: CommitComments| c@) =~= seq![commit_comments@]);
    }
    let r = to_markdown_at(sl, commit_comments.branch.as_str(), now.as_str());
    proof {
        assert(r@ == md_one(commit_comments@, now@));
    }
    Ok(r)
}

/// The Markdown document for one commit's collection alone.
pub open spec fn md_one(v: CommitCommentsV, now_text: Seq<char>) -> Seq<char> {
    md_of(seq![v], v.branch, now_text)
}

// ---------------------------------------------------------------------------
// JSON rendering
// ---------------------------------------------------------------------------

/// One comment in the export encoding: the level tag is taken from the
/// location, and absent fields are omitted.
pub open spec fn jx_comment(c: CommentV) -> Seq<char> {
    match c.location {
        crate::comments::CommentLocationV::Line { number, kind } => "{\"level\":\"line\",\"line\":"@
            + spec_dec(number as nat) + ",\"line_type\":"@ + json_string(kind_str(kind))
            + ",\"text\":"@ + json_string(c.text) + ",\"created_at\":"@ + json_string(c.created_at)
            + "}"@,
        crate::comments::CommentLocationV::Hunk { header } => "{\"level\":\"hunk\",\"hunk_header\":"@
            + json_string(header) + ",\"text\":"@ + json_string(c.text) + ",\"created_at\":"@
            + json_string(c.created_at) + "}"@,
        crate::comments::CommentLocationV::File => "{\"level\":\"file\",\"text\":"@ + json_string(
            c.text,
        ) + ",\"created_at\":"@ + json_string(c.created_at) + "}"@,
    }
}

pub open spec fn jx_comments(cs: Seq<CommentV>, k: int) -> Seq<char>
    decreases cs.len() - k,
{
    if k < 0 || k >= cs.len() {
        Seq::empty()
    } else {
        jx_comment(cs[k]) + (if k + 1 < cs.len() {
            seq![',']
        } else {
            Seq::empty()
        }) + jx_comments(cs, k + 1)
    }
}

pub open spec fn jx_file(cs: Seq<CommentV>, path: Seq<char>) -> Seq<char> {
    "{\"path\":"@ + json_string(path) + ",\"comments\":["@ + jx_comments(
        spec_filter_for_file(cs, path, 0),
        0,
    ) + "]}"@
}

pub open spec fn jx_files(cs: Seq<CommentV>, paths: Seq<Seq<char>>, i: int) -> Seq<char>
    decreases paths.len() - i,
{
    if i < 0 || i >= paths.len() {
        Seq::empty()
    } else {
        jx_file(cs, paths[i]) + (if i + 1 < paths.len() {
            seq![',']
        } else {
            Seq::empty()
        }) + jx_files(cs, paths, i + 1)
    }
}

pub open spec fn jx_commit(v: CommitCommentsV) -> Seq<char> {
    "{\"id\":"@ + json_string(v.commit_id) + ",\"message\":null,\"timestamp\":"@ + json_string(
        v.timestamp,
    ) + ",\"files\":["@ + jx_files(v.comments, export_paths(v.comments), 0) + "]}"@
}

pub open spec fn jx_commits(list: Seq<CommitCommentsV>, i: int) -> Seq<char>
    decreases list.len() - i,
{
    if i < 0 || i >= list.len() {
        Seq::empty()
    } else {
        jx_commit(list[i]) + (if i + 1 < list.len() {
            seq![',']
        } else {
            Seq::empty()
        }) + jx_commits(list, i + 1)
    }
}

/// The whole JSON export document; the branch named is the first
/// collection's, or empty when there is none.
pub open spec fn jx_of(list: Seq<CommitCommentsV>, now_text: Seq<char>) -> Seq<char> {
    let branch: Seq<char> = if list.len() == 0 {
        Seq::empty()
    } else {
        list[0].branch
    };
    "{\"branch\":"@ + json_string(branch) + ",\"exported_at\":"@ + json_string(now_text)
        + ",\"commits\":["@ + jx_commits(list, 0) + "]}"@
}

pub open spec fn jx_of_list(list: Seq<CommitComments>, now_text: Seq<char>) -> Seq<char> {
    jx_of(list.map_values(|c: CommitComments| c@), now_text)
}

/// Append one comment's export object.
#[verifier::rlimit(100)]
fn push_jx_comment(out: &mut Vec<char>, c: &Comment)
    ensures
        final(out)@ == old(out)@ + jx_comment(c@),
{
    match &c.location {
        crate::comments::CommentLocation::Line { number, kind } => {
            append_str(out, "{\"level\":\"line\",\"line\":");
            push_dec(*number, out);
            append_str(out, ",\"line_type\":");
            match kind {
                crate::diff_model::LineType::Added => {
                    crate::json::push_json_string(out, "added");
                    proof {
                        reveal_strlit("added");
                        lemma_esc_ascii_basic("added"@);
                    }
                }
                crate::diff_model::LineType::Removed => {
                    crate::json::push_json_string(out, "removed");
                    proof {
                        reveal_strlit("removed");
                        lemma_esc_ascii_basic("removed"@);
                    }
                }
                crate::diff_model::LineType::Context => {
                    crate::json::push_json_string(out, "context");
                    proof {
                        reveal_strlit("context");
                        lemma_esc_ascii_basic("context"@);
                    }
                }
            }
            append_str(out, ",\"text\":");
            crate::json::push_json_string(out, c.text.as_str());
            append_str(out, ",\"created_at\":");
            crate::json::push_json_string(out, c.created_at.as_str());
            append_str(out, "}");
            assert(out@ =~= old(out)@ + jx_comment(c@));
        }
        crate::comments::CommentLocation::Hunk { header } => {
            append_str(out, "{\"level\":\"hunk\",\"hunk_header\":");
            crate::json::push_json_string(out, header.as_str());
            append_str(out, ",\"text\":");
            crate::json::push_json_string(out, c.text.as_str());
            append_str(out, ",\"created_at\":");
            crate::json::push_json_string(out, c.created_at.as_str());
            append_str(out, "}");
            assert(out@ =~= old(out)@ + jx_comment(c@));
        }
        crate::comments::CommentLocation::File => {
            append_str(out, "{\"level\":\"file\",\"text\":");
            crate::json::push_json_string(out, c.text.as_str());
            append_str(out, ",\"created_at\":");
            crate::json::push_json_string(out, c.created_at.as_str());
            append_str(out, "}");
            assert(out@ =~= old(out)@ + jx_comment(c@));
        }
    }
}

/// A kind word is its own escape.
proof fn lemma_esc_ascii_basic(s: Seq<char>)
    requires
        forall|i: int|
            0 <= i < s.len() ==> 32 <= (#[trigger] s[i] as int) && s[i] != '"' && s[i] != '\\',
    ensures
        crate::json::esc(s) == s,
    decreases s.len(),
{
    if s.len() > 0 {
        assert(forall|i: int| 0 <= i < s.drop_first().len() ==> s.drop_first()[i] == s[i + 1]);
        lemma_esc_ascii_basic(s.drop_first());
        assert(crate::json::esc_char(s[0]) =~= seq![s[0]]);
        assert(crate::json::esc(s) =~= seq![s[0]] + s.drop_first());
        assert(seq![s[0]] + s.drop_first() =~= s);
    }
}

/// Append one commit's export object.
#[verifier::loop_isolation(false)]
#[verifier::rlimit(100)]
fn push_jx_commit(out: &mut Vec<char>, cc: &CommitComments)
    ensures
        final(out)@ == old(out)@ + jx_commit(cc@),
{
    append_str(out, "{\"id\":");
    crate::json::push_json_string(out, cc.commit_id.as_str());
    append_str(out, ",\"message\":null,\"timestamp\":");
    crate::json::push_json_string(out, cc.timestamp.as_str());
    append_str(out, ",\"files\":[");
    let ghost fhead = out@;
    let paths = collect_export_paths(&cc.comments);
    let ghost pv = paths@.map_values(|s: String| s@);
    let mut p: usize = 0;
    proof {
        assert(out@ + jx_files(cc@.comments, pv, 0) =~= fhead + jx_files(cc@.comments, pv, 0));
    }
    while p < paths.len()
        invariant
            p <= paths@.len(),
            pv == paths@.map_values(|s: String| s@),
            pv == export_paths(cc@.comments),
            out@ + jx_files(cc@.comments, pv, p as int) == fhead + jx_files(cc@.comments, pv, 0),
        decreases paths@.len() - p,
    {
        let ghost spre = out@;
        let path = &paths[p];
        proof {
            assert(pv[p as int] == path@);
        }
        append_str(out, "{\"path\":");
        crate::json::push_json_string(out, path.as_str());
        append_str(out, ",\"comments\":[");
        let csf = cc.comments_for_file(path.as_str());
        let ghost csv = spec_filter_for_file(cc@.comments, path@, 0);
        proof {
            assert(csf@.map_values(|c: &Comment| c@) == csv);
        }
        let ghost chead2 = out@;
        let mut k: usize = 0;
        proof {
            assert(out@ + jx_comments(csv, 0) =~= chead2 + jx_comments(csv, 0));
        }
        while k < csf.len()
            invariant
                k <= csf@.len(),
                csv == csf@.map_values(|c: &Comment| c@),
                out@ + jx_comments(csv, k as int) == chead2 + jx_comments(csv, 0),
            decreases csf@.len() - k,
        {
            let ghost kpre = out@;
            let c = csf[k];
            proof {
                assert(csv[k as int] == c@);
            }
            push_jx_comment(out, c);
            if k + 1 < csf.len() {
                out.push(',');
            }
            proof {
                if k + 1 < csv.len() {
                    assert(out@ =~= kpre + (jx_comment(csv[k as int]) + seq![',']));
                } else {
                    assert(out@ =~= kpre + jx_comment(csv[k as int]));
                }
                assert(out@ + jx_comments(csv, k + 1) =~= kpre + jx_comments(csv, k as int));
            }
            k += 1;
        }
        proof {
            assert(jx_comments(csv, k as int) =~= Seq::<char>::empty());
            assert(out@ + Seq::<char>::empty() =~= out@);
        }
        append_str(out, "]}");
        if p + 1 < paths.len() {
            out.push(',');
        }
        proof {
            if p + 1 < pv.len() {
                assert(out@ =~= spre + (jx_file(cc@.comments, pv[p as int]) + seq![',']));
            } else {
                assert(out@ =~= spre + jx_file(cc@.comments, pv[p as int]));
            }
            assert(out@ + jx_files(cc@.comments, pv, p + 1) =~= spre + jx_files(
                cc@.comments,
                pv,
                p as int,
            ));
        }
        p += 1;
    }
    proof {
        assert(jx_files(cc@.comments, pv, p as int) =~= Seq::<char>::empty());
        assert(out@ + Seq::<char>::empty() =~= out@);
    }
    append_str(out, "]}");
    assert(out@ =~= old(out)@ + jx_commit(cc@));
}

/// Render the export document against a caller-supplied timestamp.
#[verifier::loop_isolation(false)]
#[verifier::rlimit(100)]
pub fn to_json_at(comments_list: &[CommitComments], exported_at: &str) -> (r: String)
    ensures
        r@ == jx_of_list(comments_list@, exported_at@),
{
    let ghost lv = comments_list@.map_values(|c: CommitComments| c@);
    let mut out: Vec<char> = Vec::new();
    append_str(&mut out, "{\"branch\":");
    if comments_list.len() == 0 {
        crate::json::push_json_string(&mut out, "");
        proof {
            reveal_strlit("");
            assert(""@ =~= Seq::<char>::empty());
            assert(crate::json::esc(Seq::<char>::empty()) =~= Seq::<char>::empty());
        }
    } else {
        proof {
            assert(lv[0] == comments_list@[0]@);
        }
        crate::json::push_json_string(&mut out, comments_list[0].branch.as_str());
    }
    append_str(&mut out, ",\"exported_at\":");
    crate::json::push_json_string(&mut out, exported_at);
    append_str(&mut out, ",\"commits\":[");
    let ghost head = out@;
    let mut i: usize = 0;
    proof {
        assert(head + jx_commits(lv, 0) + "]}"@ =~= jx_of_list(comments_list@, exported_at@));
    }
    while i < comments_list.len()
        invariant
            i <= comments_list@.len(),
            lv == comments_list@.map_values(|c: CommitComments| c@),
            out@ + jx_commits(lv, i as int) + "]}"@ == jx_of_list(comments_list@, exported_at@),
        decreases comments_list@.len() - i,
    {
        let ghost pre = out@;
        let cc = &comments_list[i];
        proof {
            assert(lv[i as int] == cc@);
        }
        push_jx_commit(&mut out, cc);
        if i + 1 < comments_list.len() {
            out.push(',');
        }
        proof {
            if i + 1 < lv.len() {
                assert(out@ =~= pre + (jx_commit(lv[i as int]) + seq![',']));
            } else {
                assert(out@ =~= pre + jx_commit(lv[i as int]));
            }
            assert(out@ + jx_commits(lv, i + 1) =~= pre + jx_commits(lv, i as int));
        }
        i += 1;
    }
    proof {
        assert(jx_commits(lv, i as int) =~= Seq::<char>::empty());
        assert(out@ + Seq::<char>::empty() + "]}"@ =~= out@ + "]}"@);
    }
    append_str(&mut out, "]}");
    assert(out@ =~= jx_of_list(comments_list@, exported_at@));
    chars_to_string(&out)
}

/// Render the export document, stamped with the present local time.
pub fn to_json(comments_list: &[CommitComments]) -> (r: Result<String, ReviewError>)
    ensures
        r matches Ok(s) && (exists|now_text: Seq<char>|
            s@ == #[trigger] jx_of_list(comments_list@, now_text)),
{
    let now = now_local_rfc3339();
    let r = to_json_at(comments_list, now.as_str());
    proof {
        assert(r@ == jx_of_list(comments_list@, now@));
    }
    Ok(r)
}

/// The JSON export document for one commit's collection alone.
pub open spec fn jx_one(v: CommitCommentsV, now_text: Seq<char>) -> Seq<char> {
    jx_of(seq![v], now_text)
}

/// Render one commit's comments as the JSON export document.
pub fn commit_to_json(commit_comments: &CommitComments) -> (r: Result<String, ReviewError>)
    ensures
        r matches Ok(s) && (exists|now_text: Seq<char>|
            s@ == #[trigger] jx_one(commit_comments@, now_text)),
{
    let mut one: Vec<CommitComments> = Vec::new();
    one.push(commit_comments.clone());
    let now = now_local_rfc3339();
    let sl = one.as_slice();
    proof {
        assert(sl@.map_values(|c: CommitComments| c@) =~= seq![commit_comments@]);
    }
    let r = to_json_at(sl, now.as_str());
    proof {
        assert(r@ == jx_one(commit_comments@, now@));
    }
    Ok(r)
}

} // verus!
