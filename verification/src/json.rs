//! The persisted comment format: one JSON object per commit, with a tagged
//! union for comment locations.  The writer emits a fixed field order and
//! the reader accepts exactly the escapes the writer uses, so a persisted
//! unit round-trips; [`lemma_json_round_trip`] states that.

use vstd::prelude::*;

use crate::comments::{
    Comment, CommentLevel, CommentLocation, CommentLocationV, CommentV, CommitComments,
    CommitCommentsV,
};
use crate::diff_model::LineType;
use crate::errors::ReviewError;
use crate::strutil::{append_str, chars_to_string, push_dec, spec_dec, spec_starts_with, to_chars};

verus! {

pub open spec fn hex_digit(d: int) -> char {
    if d == 0 {
        '0'
    } else if d == 1 {
        '1'
    } else if d == 2 {
        '2'
    } else if d == 3 {
        '3'
    } else if d == 4 {
        '4'
    } else if d == 5 {
        '5'
    } else if d == 6 {
        '6'
    } else if d == 7 {
        '7'
    } else if d == 8 {
        '8'
    } else if d == 9 {
        '9'
    } else if d == 10 {
        'a'
    } else if d == 11 {
        'b'
    } else if d == 12 {
        'c'
    } else if d == 13 {
        'd'
    } else if d == 14 {
        'e'
    } else {
        'f'
    }
}

/// How one character is written inside a JSON string.
pub open spec fn esc_char(c: char) -> Seq<char> {
    if c == '"' {
        seq!['\\', '"']
    } else if c == '\\' {
        seq!['\\', '\\']
    } else if c == '\n' {
        seq!['\\', 'n']
    } else if c == '\r' {
        seq!['\\', 'r']
    } else if c == '\t' {
        seq!['\\', 't']
    } else if (c as int) < 32 {
        seq!['\\', 'u', '0', '0', hex_digit(c as int / 16), hex_digit(c as int % 16)]
    } else {
        seq![c]
    }
}

/// A string's characters, escaped for JSON.
pub open spec fn esc(s: Seq<char>) -> Seq<char>
    decreases s.len(),
{
    if s.len() == 0 {
        Seq::empty()
    } else {
        esc_char(s[0]) + esc(s.drop_first())
    }
}

/// A quoted, escaped JSON string.
pub open spec fn json_string(s: Seq<char>) -> Seq<char> {
    seq!['"'] + esc(s) + seq!['"']
}

pub open spec fn level_str(l: CommentLevel) -> Seq<char> {
    match l {
        CommentLevel::Line => "line"@,
        CommentLevel::Hunk => "hunk"@,
        CommentLevel::File => "file"@,
    }
}

pub open spec fn kind_str(t: LineType) -> Seq<char> {
    match t {
        LineType::Added => "added"@,
        LineType::Removed => "removed"@,
        LineType::Context => "context"@,
    }
}

/// The tagged-union encoding of a comment location.
pub open spec fn json_of_location(l: CommentLocationV) -> Seq<char> {
    match l {
        CommentLocationV::Line { number, kind } => "{\"type\":\"line\",\"number\":"@ + spec_dec(
            number as nat,
        ) + ",\"line_type\":\""@ + kind_str(kind) + "\"}"@,
        CommentLocationV::Hunk { header } => "{\"type\":\"hunk\",\"header\":"@ + json_string(header)
            + "}"@,
        CommentLocationV::File => "{\"type\":\"file\"}"@,
    }
}

pub open spec fn json_of_comment(c: CommentV) -> Seq<char> {
    "{\"level\":\""@ + level_str(c.level) + "\",\"file_path\":"@ + json_string(c.file_path)
        + ",\"location\":"@ + json_of_location(c.location) + ",\"text\":"@ + json_string(c.text)
        + ",\"created_at\":"@ + json_string(c.created_at) + "}"@
}

pub open spec fn json_of_comments(cs: Seq<CommentV>, i: int) -> Seq<char>
    decreases cs.len() - i,
{
    if i < 0 || i >= cs.len() {
        Seq::empty()
    } else {
        json_of_comment(cs[i]) + (if i + 1 < cs.len() {
            seq![',']
        } else {
            Seq::empty()
        }) + json_of_comments(cs, i + 1)
    }
}

/// The persisted text of one commit's comments.
pub open spec fn json_of_cc(v: CommitCommentsV) -> Seq<char> {
    "{\"commit_id\":"@ + json_string(v.commit_id) + ",\"branch\":"@ + json_string(v.branch)
        + ",\"timestamp\":"@ + json_string(v.timestamp) + ",\"comments\":["@ + json_of_comments(
        v.comments,
        0,
    ) + "]}"@
}

fn hex_digit_exec(d: u32) -> (c: char)
    requires
        d < 16,
    ensures
        c == hex_digit(d as int),
{
    match d {
        0 => '0',
        1 => '1',
        2 => '2',
        3 => '3',
        4 => '4',
        5 => '5',
        6 => '6',
        7 => '7',
        8 => '8',
        9 => '9',
        10 => 'a',
        11 => 'b',
        12 => 'c',
        13 => 'd',
        14 => 'e',
        _ => 'f',
    }
}

/// Append one character's JSON escape to `out`.
fn push_esc_char(out: &mut Vec<char>, c: char)
    ensures
        final(out)@ == old(out)@ + esc_char(c),
{
    if c == '"' {
        out.push('\\');
        out.push('"');
        assert(out@ =~= old(out)@ + esc_char(c));
    } else if c == '\\' {
        out.push('\\');
        out.push('\\');
        assert(out@ =~= old(out)@ + esc_char(c));
    } else if c == '\n' {
        out.push('\\');
        out.push('n');
        assert(out@ =~= old(out)@ + esc_char(c));
    } else if c == '\r' {
        out.push('\\');
        out.push('r');
        assert(out@ =~= old(out)@ + esc_char(c));
    } else if c == '\t' {
        out.push('\\');
        out.push('t');
        assert(out@ =~= old(out)@ + esc_char(c));
    } else if (c as u32) < 32 {
        out.push('\\');
        out.push('u');
        out.push('0');
        out.push('0');
        out.push(hex_digit_exec((c as u32) / 16));
        out.push(hex_digit_exec((c as u32) % 16));
        assert(out@ =~= old(out)@ + esc_char(c));
    } else {
        out.push(c);
        assert(out@ =~= old(out)@ + esc_char(c));
    }
}

/// Append a quoted, escaped JSON string to `out`.
pub(crate) fn push_json_string(out: &mut Vec<char>, s: &str)
    ensures
        final(out)@ == old(out)@ + json_string(s@),
{
    out.push('"');
    let cs = to_chars(s);
    let mut i: usize = 0;
    while i < cs.len()
        invariant
            i <= cs@.len(),
            cs@ == s@,
            out@ =~= old(out)@ + seq!['"'] + esc(s@.subrange(0, i as int)),
        decreases cs@.len() - i,
    {
        push_esc_char(out, cs[i]);
        proof {
            lemma_esc_snoc(s@.subrange(0, i + 1));
            assert(s@.subrange(0, i + 1).drop_last() =~= s@.subrange(0, i as int));
            assert(out@ =~= old(out)@ + seq!['"'] + esc(s@.subrange(0, i + 1)));
        }
        i += 1;
    }
    out.push('"');
    proof {
        assert(s@.subrange(0, s@.len() as int) =~= s@);
        assert(out@ =~= old(out)@ + json_string(s@));
    }
}

/// Escaping distributes over dropping the last character.
proof fn lemma_esc_snoc(s: Seq<char>)
    requires
        s.len() > 0,
    ensures
        esc(s) == esc(s.drop_last()) + esc_char(s.last()),
    decreases s.len(),
{
    if s.len() == 1 {
        assert(s.drop_last() =~= Seq::<char>::empty());
        assert(esc(s.drop_last()) + esc_char(s.last()) =~= esc_char(s[0]) + esc(s.drop_first()));
    } else {
        lemma_esc_snoc(s.drop_first());
        assert(s.drop_first().drop_last() =~= s.drop_last().drop_first());
        assert(s.drop_last().len() > 0);
        assert(s.drop_last()[0] == s[0]);
        assert(esc(s.drop_last()) == esc_char(s[0]) + esc(s.drop_last().drop_first()));
        assert(s.drop_first().last() == s.last());
        assert(esc(s) =~= esc(s.drop_last()) + esc_char(s.last())) by {
            assert(esc(s) == esc_char(s[0]) + esc(s.drop_first()));
            assert(esc(s.drop_first()) == esc(s.drop_first().drop_last()) + esc_char(s.last()));
            assert(esc_char(s[0]) + (esc(s.drop_first().drop_last()) + esc_char(s.last())) =~= (
            esc_char(s[0]) + esc(s.drop_first().drop_last())) + esc_char(s.last()));
        }
    }
}

/// Append a location's JSON object to `out`.
fn push_location(out: &mut Vec<char>, l: &CommentLocation)
    ensures
        final(out)@ == old(out)@ + json_of_location(l@),
{
    match l {
        CommentLocation::Line { number, kind } => {
            append_str(out, "{\"type\":\"line\",\"number\":");
            push_dec(*number, out);
            append_str(out, ",\"line_type\":\"");
            match kind {
                LineType::Added => append_str(out, "added"),
                LineType::Removed => append_str(out, "removed"),
                LineType::Context => append_str(out, "context"),
            }
            append_str(out, "\"}");
            assert(out@ =~= old(out)@ + json_of_location(l@));
        }
        CommentLocation::Hunk { header } => {
            append_str(out, "{\"type\":\"hunk\",\"header\":");
            push_json_string(out, header.as_str());
            append_str(out, "}");
            assert(out@ =~= old(out)@ + json_of_location(l@));
        }
        CommentLocation::File => {
            append_str(out, "{\"type\":\"file\"}");
            assert(out@ =~= old(out)@ + json_of_location(l@));
        }
    }
}

/// Append a comment's JSON object to `out`.
fn push_comment(out: &mut Vec<char>, c: &Comment)
    ensures
        final(out)@ == old(out)@ + json_of_comment(c@),
{
    append_str(out, "{\"level\":\"");
    match c.level {
        CommentLevel::Line => append_str(out, "line"),
        CommentLevel::Hunk => append_str(out, "hunk"),
        CommentLevel::File => append_str(out, "file"),
    }
    append_str(out, "\",\"file_path\":");
    push_json_string(out, c.file_path.as_str());
    append_str(out, ",\"location\":");
    push_location(out, &c.location);
    append_str(out, ",\"text\":");
    push_json_string(out, c.text.as_str());
    append_str(out, ",\"created_at\":");
    push_json_string(out, c.created_at.as_str());
    append_str(out, "}");
    assert(out@ =~= old(out)@ + json_of_comment(c@));
}

impl CommitComments {
    /// Serialize for storage: the exact text [`json_of_cc`] describes.
    /// Serialization cannot fail.
    pub fn to_json(&self) -> (r: Result<String, ReviewError>)
        ensures
            r matches Ok(s) && s@ == json_of_cc(self@),
    {
        let mut out: Vec<char> = Vec::new();
        append_str(&mut out, "{\"commit_id\":");
        push_json_string(&mut out, self.commit_id.as_str());
        append_str(&mut out, ",\"branch\":");
        push_json_string(&mut out, self.branch.as_str());
        append_str(&mut out, ",\"timestamp\":");
        push_json_string(&mut out, self.timestamp.as_str());
        append_str(&mut out, ",\"comments\":[");
        let ghost head = out@;
        let mut i: usize = 0;
        while i < self.comments.len()
            invariant
                i <= self.comments@.len(),
                out@ + json_of_comments(self@.comments, i as int) == head + json_of_comments(
                    self@.comments,
                    0,
                ),
            decreases self.comments@.len() - i,
        {
            let ghost pre = out@;
            push_comment(&mut out, &self.comments[i]);
            proof {
                assert(self@.comments[i as int] == self.comments@[i as int]@);
            }
            if i + 1 < self.comments.len() {
                out.push(',');
            }
            proof {
                if i + 1 < self.comments@.len() {
                    assert(out@ =~= pre + (json_of_comment(self@.comments[i as int]) + seq![',']));
                    assert(out@ + json_of_comments(self@.comments, i + 1) =~= pre
                        + json_of_comments(self@.comments, i as int));
                } else {
                    assert(out@ =~= pre + json_of_comment(self@.comments[i as int]));
                    assert(json_of_comments(self@.comments, i as int) =~= json_of_comment(
                        self@.comments[i as int],
                    ) + json_of_comments(self@.comments, i + 1));
                    assert(out@ + json_of_comments(self@.comments, i + 1) =~= pre
                        + json_of_comments(self@.comments, i as int));
                }
            }
            i += 1;
        }
        proof {
            assert(json_of_comments(self@.comments, i as int) =~= Seq::<char>::empty());
            assert(out@ =~= head + json_of_comments(self@.comments, 0));
        }
        append_str(&mut out, "]}");
        assert(out@ =~= json_of_cc(self@));
        Ok(chars_to_string(&out))
    }
}

// ---------------------------------------------------------------------------
// Reading the persisted format back
// ---------------------------------------------------------------------------

/// Consume a literal prefix.
pub open spec fn p_lit(s: Seq<char>, l: Seq<char>) -> Option<Seq<char>> {
    if spec_starts_with(s, l) {
        Some(s.subrange(l.len() as int, s.len() as int))
    } else {
        None
    }
}

pub open spec fn unesc_code(c: char) -> Option<char> {
    if c == '"' {
        Some('"')
    } else if c == '\\' {
        Some('\\')
    } else if c == 'n' {
        Some('\n')
    } else if c == 'r' {
        Some('\r')
    } else if c == 't' {
        Some('\t')
    } else {
        None
    }
}

pub open spec fn hex_val(c: char) -> int {
    if '0' <= c && c <= '9' {
        c as int - '0' as int
    } else if 'a' <= c && c <= 'f' {
        c as int - 'a' as int + 10
    } else {
        -1
    }
}

/// Read a JSON string body up to its closing quote, undoing the escapes
/// the writer emits (`\u` only for the control characters it writes).
pub open spec fn p_str_body(s: Seq<char>) -> Option<(Seq<char>, Seq<char>)>
    decreases s.len(),
{
    if s.len() == 0 {
        None
    } else if s[0] == '"' {
        Some((Seq::empty(), s.drop_first()))
    } else if s[0] == '\\' {
        if s.len() < 2 {
            None
        } else if s[1] == 'u' {
            if s.len() < 6 {
                None
            } else {
                let h = hex_val(s[2]) * 4096 + hex_val(s[3]) * 256 + hex_val(s[4]) * 16 + hex_val(
                    s[5],
                );
                if hex_val(s[2]) >= 0 && hex_val(s[3]) >= 0 && hex_val(s[4]) >= 0 && hex_val(s[5])
                    >= 0 && h < 32 {
                    match p_str_body(s.subrange(6, s.len() as int)) {
                        Some((v, rest)) => Some((seq![((h as u32) as char)] + v, rest)),
                        None => None,
                    }
                } else {
                    None
                }
            }
        } else {
            match unesc_code(s[1]) {
                Some(c) => match p_str_body(s.subrange(2, s.len() as int)) {
                    Some((v, rest)) => Some((seq![c] + v, rest)),
                    None => None,
                },
                None => None,
            }
        }
    } else {
        match p_str_body(s.drop_first()) {
            Some((v, rest)) => Some((seq![s[0]] + v, rest)),
            None => None,
        }
    }
}

/// A string body always consumes at least its closing quote.
pub proof fn lemma_p_str_body_len(s: Seq<char>)
    ensures
        p_str_body(s) matches Some(r) ==> r.1.len() < s.len(),
    decreases s.len(),
{
    if s.len() > 0 && s[0] != '"' {
        if s[0] == '\\' {
            if s.len() >= 6 {
                lemma_p_str_body_len(s.subrange(6, s.len() as int));
            }
            if s.len() >= 2 {
                lemma_p_str_body_len(s.subrange(2, s.len() as int));
            }
        } else {
            lemma_p_str_body_len(s.drop_first());
        }
    }
}

/// Index of the first non-digit character, or the length.
pub open spec fn digits_end(s: Seq<char>) -> int
    decreases s.len(),
{
    if s.len() == 0 {
        0
    } else if !crate::strutil::is_digit(s[0]) {
        0
    } else {
        1 + digits_end(s.drop_first())
    }
}

pub proof fn lemma_digits_end(s: Seq<char>)
    ensures
        0 <= digits_end(s) <= s.len(),
        forall|j: int| 0 <= j < digits_end(s) ==> crate::strutil::is_digit(#[trigger] s[j]),
        digits_end(s) < s.len() ==> !crate::strutil::is_digit(s[digits_end(s)]),
    decreases s.len(),
{
    if s.len() > 0 && crate::strutil::is_digit(s[0]) {
        lemma_digits_end(s.drop_first());
        assert forall|j: int| 0 <= j < digits_end(s) implies crate::strutil::is_digit(
            #[trigger] s[j],
        ) by {
            if j >= 1 {
                assert(s.drop_first()[j - 1] == s[j]);
            }
        }
        if digits_end(s) < s.len() {
            assert(s.drop_first()[digits_end(s) - 1] == s[digits_end(s)]);
        }
    }
}

pub proof fn lemma_digits_end_eq(s: Seq<char>, k: int)
    requires
        0 <= k <= s.len(),
        forall|j: int| 0 <= j < k ==> crate::strutil::is_digit(#[trigger] s[j]),
        k < s.len() ==> !crate::strutil::is_digit(s[k]),
    ensures
        digits_end(s) == k,
    decreases s.len(),
{
    if s.len() > 0 && crate::strutil::is_digit(s[0]) {
        assert(forall|j: int| 0 <= j < k - 1 ==> s.drop_first()[j] == s[j + 1]);
        if k - 1 < s.drop_first().len() {
            assert(s.drop_first()[k - 1] == s[k]);
        }
        lemma_digits_end_eq(s.drop_first(), k - 1);
    }
}

/// Read a decimal number: the leading digit run, which must be non-empty
/// and fit in `usize`.
pub open spec fn p_number(s: Seq<char>) -> Option<(usize, Seq<char>)> {
    let e = digits_end(s);
    if e == 0 {
        None
    } else {
        match crate::strutil::spec_parse_usize(s.subrange(0, e)) {
            Some(v) => Some((v, s.subrange(e, s.len() as int))),
            None => None,
        }
    }
}

/// Read a location object.
pub open spec fn p_location(s: Seq<char>) -> Option<(CommentLocationV, Seq<char>)> {
    if p_lit(s, "{\"type\":\"line\",\"number\":"@) is Some {
        let s1 = p_lit(s, "{\"type\":\"line\",\"number\":"@).unwrap();
        match p_number(s1) {
            Some((n, s2)) => {
                match p_lit(s2, ",\"line_type\":\""@) {
                    Some(s3) => {
                        if p_lit(s3, "added\"}"@) is Some {
                            Some(
                                (
                                    CommentLocationV::Line { number: n, kind: LineType::Added },
                                    p_lit(s3, "added\"}"@).unwrap(),
                                ),
                            )
                        } else if p_lit(s3, "removed\"}"@) is Some {
                            Some(
                                (
                                    CommentLocationV::Line { number: n, kind: LineType::Removed },
                                    p_lit(s3, "removed\"}"@).unwrap(),
                                ),
                            )
                        } else if p_lit(s3, "context\"}"@) is Some {
                            Some(
                                (
                                    CommentLocationV::Line { number: n, kind: LineType::Context },
                                    p_lit(s3, "context\"}"@).unwrap(),
                                ),
                            )
                        } else {
                            None
                        }
                    },
                    None => None,
                }
            },
            None => None,
        }
    } else if p_lit(s, "{\"type\":\"hunk\",\"header\":\""@) is Some {
        let s1 = p_lit(s, "{\"type\":\"hunk\",\"header\":\""@).unwrap();
        match p_str_body(s1) {
            Some((h, s2)) => {
                match p_lit(s2, "}"@) {
                    Some(s3) => Some((CommentLocationV::Hunk { header: h }, s3)),
                    None => None,
                }
            },
            None => None,
        }
    } else if p_lit(s, "{\"type\":\"file\"}"@) is Some {
        Some((CommentLocationV::File, p_lit(s, "{\"type\":\"file\"}"@).unwrap()))
    } else {
        None
    }
}

/// Read one comment object.
pub open spec fn p_comment(s: Seq<char>) -> Option<(CommentV, Seq<char>)> {
    match p_lit(s, "{\"level\":\""@) {
        Some(s0) => {
            let lv = if p_lit(s0, "line\",\"file_path\":\""@) is Some {
                Some((CommentLevel::Line, p_lit(s0, "line\",\"file_path\":\""@).unwrap()))
            } else if p_lit(s0, "hunk\",\"file_path\":\""@) is Some {
                Some((CommentLevel::Hunk, p_lit(s0, "hunk\",\"file_path\":\""@).unwrap()))
            } else if p_lit(s0, "file\",\"file_path\":\""@) is Some {
                Some((CommentLevel::File, p_lit(s0, "file\",\"file_path\":\""@).unwrap()))
            } else {
                None
            };
            match lv {
                Some((level, s1)) => {
                    match p_str_body(s1) {
                        Some((fp, s2)) => {
                            match p_lit(s2, ",\"location\":"@) {
                                Some(s3) => {
                                    match p_location(s3) {
                                        Some((loc, s4)) => {
                                            match p_lit(s4, ",\"text\":\""@) {
                                                Some(s5) => {
                                                    match p_str_body(s5) {
                                                        Some((tx, s6)) => {
                                                            match p_lit(
                                                                s6,
                                                                ",\"created_at\":\""@,
                                                            ) {
                                                                Some(s7) => {
                                                                    match p_str_body(s7) {
                                                                        Some((ca, s8)) => {
                                                                            match p_lit(s8, "}"@) {
                                                                                Some(s9) => Some(
                                                                                    (
                                                                                        CommentV {
                                                                                            level,
                                                                                            file_path: fp,
                                                                                            location: loc,
                                                                                            text: tx,
                                                                                            created_at: ca,
                                                                                        },
                                                                                        s9,
                                                                                    ),
                                                                                ),
                                                                                None => None,
                                                                            }
                                                                        },
                                                                        None => None,
                                                                    }
                                                                },
                                                                None => None,
                                                            }
                                                        },
                                                        None => None,
                                                    }
                                                },
                                                None => None,
                                            }
                                        },
                                        None => None,
                                    }
                                },
                                None => None,
                            }
                        },
                        None => None,
                    }
                },
                None => None,
            }
        },
        None => None,
    }
}

/// Parsing one comment consumes at least one character.
pub proof fn lemma_p_comment_len(s: Seq<char>)
    ensures
        p_comment(s) matches Some(r) ==> r.1.len() < s.len(),
{
    if p_comment(s) is Some {
        let s0 = p_lit(s, "{\"level\":\""@).unwrap();
        reveal_strlit("{\"level\":\"");
        assert(s0.len() < s.len());
        let lv = if p_lit(s0, "line\",\"file_path\":\""@) is Some {
            Some((CommentLevel::Line, p_lit(s0, "line\",\"file_path\":\""@).unwrap()))
        } else if p_lit(s0, "hunk\",\"file_path\":\""@) is Some {
            Some((CommentLevel::Hunk, p_lit(s0, "hunk\",\"file_path\":\""@).unwrap()))
        } else {
            Some((CommentLevel::File, p_lit(s0, "file\",\"file_path\":\""@).unwrap()))
        };
        let s1 = lv.unwrap().1;
        assert(s1.len() <= s0.len());
        let (fp, s2) = p_str_body(s1).unwrap();
        lemma_p_str_body_len(s1);
        let s3 = p_lit(s2, ",\"location\":"@).unwrap();
        assert(s3.len() <= s2.len());
        let (loc, s4) = p_location(s3).unwrap();
        lemma_p_location_len(s3);
        let s5 = p_lit(s4, ",\"text\":\""@).unwrap();
        assert(s5.len() <= s4.len());
        let (tx, s6) = p_str_body(s5).unwrap();
        lemma_p_str_body_len(s5);
        let s7 = p_lit(s6, ",\"created_at\":\""@).unwrap();
        assert(s7.len() <= s6.len());
        let (ca, s8) = p_str_body(s7).unwrap();
        lemma_p_str_body_len(s7);
        let s9 = p_lit(s8, "}"@).unwrap();
        assert(s9.len() <= s8.len());
    }
}

pub proof fn lemma_p_location_len(s: Seq<char>)
    ensures
        p_location(s) matches Some(r) ==> r.1.len() <= s.len(),
{
    if p_location(s) is Some {
        if p_lit(s, "{\"type\":\"line\",\"number\":"@) is Some {
            let s1 = p_lit(s, "{\"type\":\"line\",\"number\":"@).unwrap();
            assert(s1.len() <= s.len());
            let (n, s2) = p_number(s1).unwrap();
            lemma_digits_end(s1);
            assert(s2.len() <= s1.len());
            let s3 = p_lit(s2, ",\"line_type\":\""@).unwrap();
            assert(s3.len() <= s2.len());
        } else if p_lit(s, "{\"type\":\"hunk\",\"header\":\""@) is Some {
            let s1 = p_lit(s, "{\"type\":\"hunk\",\"header\":\""@).unwrap();
            assert(s1.len() <= s.len());
            let (h, s2) = p_str_body(s1).unwrap();
            lemma_p_str_body_len(s1);
        }
    }
}

/// Read the comment list after its opening `[`, up to and including the
/// closing `]`.
pub open spec fn p_comments(s: Seq<char>) -> Option<(Seq<CommentV>, Seq<char>)>
    decreases s.len(),
    via p_comments_dec
{
    if s.len() > 0 && s[0] == ']' {
        Some((Seq::empty(), s.drop_first()))
    } else {
        match p_comment(s) {
            Some((c, s1)) => {
                if s1.len() > 0 && s1[0] == ',' {
                    match p_comments(s1.drop_first()) {
                        Some((cs, rest)) => Some((seq![c] + cs, rest)),
                        None => None,
                    }
                } else if s1.len() > 0 && s1[0] == ']' {
                    Some((seq![c], s1.drop_first()))
                } else {
                    None
                }
            },
            None => None,
        }
    }
}

#[via_fn]
proof fn p_comments_dec(s: Seq<char>) {
    lemma_p_comment_len(s);
}

/// A collection value that the persisted format can denote: some stored
/// text decodes to exactly it.
pub open spec fn is_stored_decoding(c: crate::comments::CommitCommentsV) -> bool {
    exists|t: Seq<char>| #[trigger] p_cc(t) == Some(c)
}

/// Read a whole persisted unit; the entire input must be consumed.
pub open spec fn p_cc(s: Seq<char>) -> Option<CommitCommentsV> {
    match p_lit(s, "{\"commit_id\":\""@) {
        Some(s1) => {
            match p_str_body(s1) {
                Some((cid, s2)) => {
                    match p_lit(s2, ",\"branch\":\""@) {
                        Some(s3) => {
                            match p_str_body(s3) {
                                Some((br, s4)) => {
                                    match p_lit(s4, ",\"timestamp\":\""@) {
                                        Some(s5) => {
                                            match p_str_body(s5) {
                                                Some((ts, s6)) => {
                                                    match p_lit(s6, ",\"comments\":["@) {
                                                        Some(s7) => {
                                                            match p_comments(s7) {
                                                                Some((cs, s8)) => {
                                                                    if s8 =~= "}"@ {
                                                                        Some(
                                                                            CommitCommentsV {
                                                                                commit_id: cid,
                                                                                branch: br,
                                                                                timestamp: ts,
                                                                                comments: cs,
                                                                            },
                                                                        )
                                                                    } else {
                                                                        None
                                                                    }
                                                                },
                                                                None => None,
                                                            }
                                                        },
                                                        None => None,
                                                    }
                                                },
                                                None => None,
                                            }
                                        },
                                        None => None,
                                    }
                                },
                                None => None,
                            }
                        },
                        None => None,
                    }
                },
                None => None,
            }
        },
        None => None,
    }
}

/// The input from position `i` on.
pub open spec fn rem(s: Seq<char>, i: int) -> Seq<char> {
    s.subrange(i, s.len() as int)
}

/// Match a literal at position `i`.
fn e_lit(s: &[char], i: usize, l: &str) -> (r: Option<usize>)
    requires
        i <= s@.len(),
    ensures
        match p_lit(rem(s@, i as int), l@) {
            Some(rest) => r is Some && i <= r.unwrap() <= s@.len() && rem(s@, r.unwrap() as int)
                == rest && (l@.len() > 0 ==> i < r.unwrap()),
            None => r is None,
        },
{
    let llen = l.unicode_len();
    let n = s.len();
    if n - i < llen {
        proof {
            assert(rem(s@, i as int).len() < l@.len());
        }
        return None;
    }
    let mut k: usize = 0;
    while k < llen
        invariant
            k <= llen,
            llen == l@.len(),
            n == s@.len(),
            i + llen <= n,
            forall|m: int| 0 <= m < k ==> s@[i + m] == l@[m],
        decreases llen - k,
    {
        if s[i + k] != l.get_char(k) {
            proof {
                let cur = rem(s@, i as int);
                assert(cur[k as int] == s@[i + k]);
                if spec_starts_with(cur, l@) {
                    assert(cur.subrange(0, l@.len() as int)[k as int] == cur[k as int]);
                }
            }
            return None;
        }
        k += 1;
    }
    proof {
        let cur = rem(s@, i as int);
        assert forall|m: int| 0 <= m < l@.len() implies cur.subrange(0, l@.len() as int)[m]
            == l@[m] by {
            assert(cur.subrange(0, l@.len() as int)[m] == cur[m]);
            assert(cur[m] == s@[i + m]);
        }
        assert(cur.subrange(0, l@.len() as int) =~= l@);
        assert(spec_starts_with(cur, l@));
        assert(cur.subrange(l@.len() as int, cur.len() as int) =~= rem(s@, i + llen));
    }
    Some(i + llen)
}

fn unesc_code_exec(c: char) -> (r: Option<char>)
    ensures
        r == unesc_code(c),
{
    if c == '"' {
        Some('"')
    } else if c == '\\' {
        Some('\\')
    } else if c == 'n' {
        Some('\n')
    } else if c == 'r' {
        Some('\r')
    } else if c == 't' {
        Some('\t')
    } else {
        None
    }
}

fn hex_val_exec(c: char) -> (r: i32)
    ensures
        r == hex_val(c),
{
    if '0' <= c && c <= '9' {
        ((c as u32) - ('0' as u32)) as i32
    } else if 'a' <= c && c <= 'f' {
        (((c as u32) - ('a' as u32)) + 10) as i32
    } else {
        -1
    }
}

/// Read a string body at position `i`.
#[verifier::loop_isolation(false)]
#[verifier::rlimit(100)]
fn e_str_body(s: &[char], i: usize) -> (r: Option<(String, usize)>)
    requires
        i <= s@.len(),
    ensures
        match p_str_body(rem(s@, i as int)) {
            Some(pr) => r is Some && ({
                let (v, j) = r.unwrap();
                v@ == pr.0 && i < j <= s@.len() && rem(s@, j as int) == pr.1
            }),
            None => r is None,
        },
{
    let mut out: Vec<char> = Vec::new();
    let mut cur: usize = i;
    loop
        invariant
            i <= cur <= s@.len(),
            match p_str_body(rem(s@, cur as int)) {
                Some(pr2) => p_str_body(rem(s@, i as int)) == Some(
                    ((out@ + pr2.0), pr2.1),
                ),
                None => p_str_body(rem(s@, i as int)) is None,
            },
        decreases s@.len() - cur,
    {
        let ghost rcur = rem(s@, cur as int);
        if cur >= s.len() {
            assert(rcur.len() == 0);
            return None;
        }
        proof {
            assert(rcur[0] == s@[cur as int]);
        }
        let c = s[cur];
        if c == '"' {
            proof {
                assert(rcur.drop_first() =~= rem(s@, cur + 1));
                assert(p_str_body(rcur) == Some((Seq::<char>::empty(), rem(s@, cur + 1))));
                assert(out@ + Seq::<char>::empty() =~= out@);
            }
            let vs = chars_to_string(&out);
            return Some((vs, cur + 1));
        } else if c == '\\' {
            if s.len() - cur < 2 {
                assert(p_str_body(rcur) is None);
                return None;
            }
            proof {
                assert(rcur[1] == s@[cur + 1]);
            }
            let c2 = s[cur + 1];
            if c2 == 'u' {
                if s.len() - cur < 6 {
                    assert(p_str_body(rcur) is None);
                    return None;
                }
                proof {
                    assert(rcur[2] == s@[cur + 2]);
                    assert(rcur[3] == s@[cur + 3]);
                    assert(rcur[4] == s@[cur + 4]);
                    assert(rcur[5] == s@[cur + 5]);
                }
                let h2 = hex_val_exec(s[cur + 2]);
                let h3 = hex_val_exec(s[cur + 3]);
                let h4 = hex_val_exec(s[cur + 4]);
                let h5 = hex_val_exec(s[cur + 5]);
                if h2 < 0 || h3 < 0 || h4 < 0 || h5 < 0 {
                    assert(p_str_body(rcur) is None);
                    return None;
                }
                let h: i32 = h2 * 4096 + h3 * 256 + h4 * 16 + h5;
                if h >= 32 {
                    assert(p_str_body(rcur) is None);
                    return None;
                }
                let ch: char = (h as u8) as char;
                proof {
                    assert(ch == ((h as u32) as char));
                }
                let ghost pre = out@;
                out.push(ch);
                proof {
                    assert(rcur.subrange(6, rcur.len() as int) =~= rem(s@, cur + 6));
                    assert(out@ =~= pre + seq![ch]);
                    if p_str_body(rem(s@, cur + 6)) is Some {
                        let pr6 = p_str_body(rem(s@, cur + 6)).unwrap();
                        assert(p_str_body(rcur) == Some(((seq![ch] + pr6.0), pr6.1)));
                        assert(out@ + pr6.0 =~= pre + (seq![ch] + pr6.0));
                    } else {
                        assert(p_str_body(rcur) is None);
                    }
                }
                cur = cur + 6;
            } else {
                match unesc_code_exec(c2) {
                    Some(u) => {
                        let ghost pre = out@;
                        out.push(u);
                        proof {
                            assert(rcur.subrange(2, rcur.len() as int) =~= rem(s@, cur + 2));
                            assert(out@ =~= pre + seq![u]);
                            if p_str_body(rem(s@, cur + 2)) is Some {
                                let pr2b = p_str_body(rem(s@, cur + 2)).unwrap();
                                assert(p_str_body(rcur) == Some(((seq![u] + pr2b.0), pr2b.1)));
                                assert(out@ + pr2b.0 =~= pre + (seq![u] + pr2b.0));
                            } else {
                                assert(p_str_body(rcur) is None);
                            }
                        }
                        cur = cur + 2;
                    }
                    None => {
                        assert(p_str_body(rcur) is None);
                        return None;
                    }
                }
            }
        } else {
            let ghost pre = out@;
            out.push(c);
            proof {
                assert(rcur.drop_first() =~= rem(s@, cur + 1));
                assert(out@ =~= pre + seq![c]);
                if p_str_body(rem(s@, cur + 1)) is Some {
                    let pr1 = p_str_body(rem(s@, cur + 1)).unwrap();
                    assert(p_str_body(rcur) == Some(((seq![c] + pr1.0), pr1.1)));
                    assert(out@ + pr1.0 =~= pre + (seq![c] + pr1.0));
                } else {
                    assert(p_str_body(rcur) is None);
                }
            }
            cur = cur + 1;
        }
    }
}

/// Read a number at position `i`.
fn e_number(s: &[char], i: usize) -> (r: Option<(usize, usize)>)
    requires
        i <= s@.len(),
    ensures
        match p_number(rem(s@, i as int)) {
            Some(pr) => r is Some && ({
                let (v, j) = r.unwrap();
                v == pr.0 && i < j <= s@.len() && rem(s@, j as int) == pr.1
            }),
            None => r is None,
        },
{
    let ghost rcur = rem(s@, i as int);
    let mut e: usize = i;
    while e < s.len() && '0' <= s[e] && s[e] <= '9'
        invariant
            i <= e <= s@.len(),
            forall|m: int| i <= m < e ==> crate::strutil::is_digit(#[trigger] s@[m]),
        decreases s@.len() - e,
    {
        e += 1;
    }
    proof {
        assert forall|m: int| 0 <= m < e - i implies crate::strutil::is_digit(
            #[trigger] rcur[m],
        ) by {
            assert(rcur[m] == s@[i + m]);
        }
        if (e as int) - (i as int) < rcur.len() {
            assert(rcur[e - i] == s@[e as int]);
        }
        lemma_digits_end_eq(rcur, e - i);
        assert(rcur.subrange(0, e - i) =~= s@.subrange(i as int, e as int));
        assert(rcur.subrange(e - i, rcur.len() as int) =~= rem(s@, e as int));
    }
    if e == i {
        return None;
    }
    match crate::strutil::parse_usize(&s[i..e]) {
        Some(v) => Some((v, e)),
        None => None,
    }
}

/// Read a location object at position `i`.
fn e_location(s: &[char], i: usize) -> (r: Option<(CommentLocation, usize)>)
    requires
        i <= s@.len(),
    ensures
        match p_location(rem(s@, i as int)) {
            Some(pr) => r is Some && ({
                let (v, j) = r.unwrap();
                v@ == pr.0 && i <= j <= s@.len() && rem(s@, j as int) == pr.1
            }),
            None => r is None,
        },
{
    match e_lit(s, i, "{\"type\":\"line\",\"number\":") {
        Some(s1) => {
            match e_number(s, s1) {
                Some((n, s2)) => {
                    match e_lit(s, s2, ",\"line_type\":\"") {
                        Some(s3) => {
                            match e_lit(s, s3, "added\"}") {
                                Some(s4) => {
                                    return Some(
                                        (
                                            CommentLocation::Line {
                                                number: n,
                                                kind: LineType::Added,
                                            },
                                            s4,
                                        ),
                                    );
                                }
                                None => {}
                            }
                            match e_lit(s, s3, "removed\"}") {
                                Some(s4) => {
                                    return Some(
                                        (
                                            CommentLocation::Line {
                                                number: n,
                                                kind: LineType::Removed,
                                            },
                                            s4,
                                        ),
                                    );
                                }
                                None => {}
                            }
                            match e_lit(s, s3, "context\"}") {
                                Some(s4) => {
                                    return Some(
                                        (
                                            CommentLocation::Line {
                                                number: n,
                                                kind: LineType::Context,
                                            },
                                            s4,
                                        ),
                                    );
                                }
                                None => {
                                    return None;
                                }
                            }
                        }
                        None => {
                            return None;
                        }
                    }
                }
                None => {
                    return None;
                }
            }
        }
        None => {}
    }
    match e_lit(s, i, "{\"type\":\"hunk\",\"header\":\"") {
        Some(s1) => {
            match e_str_body(s, s1) {
                Some((h, s2)) => {
                    match e_lit(s, s2, "}") {
                        Some(s3) => {
                            return Some((CommentLocation::Hunk { header: h }, s3));
                        }
                        None => {
                            return None;
                        }
                    }
                }
                None => {
                    return None;
                }
            }
        }
        None => {}
    }
    match e_lit(s, i, "{\"type\":\"file\"}") {
        Some(s1) => Some((CommentLocation::File, s1)),
        None => None,
    }
}

/// Read one comment object at position `i`.
#[verifier::rlimit(100)]
fn e_comment(s: &[char], i: usize) -> (r: Option<(Comment, usize)>)
    requires
        i <= s@.len(),
    ensures
        match p_comment(rem(s@, i as int)) {
            Some(pr) => r is Some && ({
                let (v, j) = r.unwrap();
                v@ == pr.0 && i < j <= s@.len() && rem(s@, j as int) == pr.1
            }),
            None => r is None,
        },
{
    let s0 = match e_lit(s, i, "{\"level\":\"") {
        Some(x) => x,
        None => {
            return None;
        }
    };
    let (level, s1) = if let Some(x) = e_lit(s, s0, "line\",\"file_path\":\"") {
        (CommentLevel::Line, x)
    } else if let Some(x) = e_lit(s, s0, "hunk\",\"file_path\":\"") {
        (CommentLevel::Hunk, x)
    } else if let Some(x) = e_lit(s, s0, "file\",\"file_path\":\"") {
        (CommentLevel::File, x)
    } else {
        return None;
    };
    let (fp, s2) = match e_str_body(s, s1) {
        Some(x) => x,
        None => {
            return None;
        }
    };
    let s3 = match e_lit(s, s2, ",\"location\":") {
        Some(x) => x,
        None => {
            return None;
        }
    };
    let (loc, s4) = match e_location(s, s3) {
        Some(x) => x,
        None => {
            return None;
        }
    };
    let s5 = match e_lit(s, s4, ",\"text\":\"") {
        Some(x) => x,
        None => {
            return None;
        }
    };
    let (tx, s6) = match e_str_body(s, s5) {
        Some(x) => x,
        None => {
            return None;
        }
    };
    let s7 = match e_lit(s, s6, ",\"created_at\":\"") {
        Some(x) => x,
        None => {
            return None;
        }
    };
    let (ca, s8) = match e_str_body(s, s7) {
        Some(x) => x,
        None => {
            return None;
        }
    };
    let s9 = match e_lit(s, s8, "}") {
        Some(x) => x,
        None => {
            return None;
        }
    };
    Some((Comment { level, file_path: fp, location: loc, text: tx, created_at: ca }, s9))
}

/// Read the comment list at position `i`, after the opening `[`.
#[verifier::loop_isolation(false)]
#[verifier::rlimit(100)]
fn e_comments(s: &[char], i: usize) -> (r: Option<(Vec<Comment>, usize)>)
    requires
        i <= s@.len(),
    ensures
        match p_comments(rem(s@, i as int)) {
            Some(pr) => r is Some && ({
                let (v, j) = r.unwrap();
                v@.map_values(|c: Comment| c@) == pr.0 && i <= j <= s@.len() && rem(s@, j as int)
                    == pr.1
            }),
            None => r is None,
        },
{
    let mut out: Vec<Comment> = Vec::new();
    let mut cur: usize = i;
    loop
        invariant
            i <= cur <= s@.len(),
            match p_comments(rem(s@, cur as int)) {
                Some(pr2) => p_comments(rem(s@, i as int)) == Some(
                    ((out@.map_values(|c: Comment| c@) + pr2.0), pr2.1),
                ),
                None => p_comments(rem(s@, i as int)) is None,
            },
        decreases s@.len() - cur,
    {
        let ghost rcur = rem(s@, cur as int);
        if cur < s.len() && s[cur] == ']' {
            proof {
                assert(rcur[0] == s@[cur as int]);
                assert(rcur.drop_first() =~= rem(s@, cur + 1));
                assert(p_comments(rcur) == Some(
                    (Seq::<CommentV>::empty(), rem(s@, cur + 1)),
                ));
                assert(out@.map_values(|c: Comment| c@) + Seq::<CommentV>::empty()
                    =~= out@.map_values(|c: Comment| c@));
            }
            return Some((out, cur + 1));
        }
        proof {
            if rcur.len() > 0 {
                assert(rcur[0] == s@[cur as int]);
            }
        }
        match e_comment(s, cur) {
            Some((c, s1)) => {
                let ghost pre = out@.map_values(|x: Comment| x@);
                let ghost cv = c@;
                out.push(c);
                proof {
                    assert(out@.map_values(|x: Comment| x@) =~= pre.push(cv));
                }
                let ghost r1 = rem(s@, s1 as int);
                if s1 < s.len() && s[s1] == ',' {
                    proof {
                        assert(r1[0] == s@[s1 as int]);
                        assert(r1.drop_first() =~= rem(s@, s1 + 1));
                        if p_comments(rem(s@, s1 + 1)) is Some {
                            let prn = p_comments(rem(s@, s1 + 1)).unwrap();
                            assert(p_comments(rcur) == Some(((seq![cv] + prn.0), prn.1)));
                            assert(out@.map_values(|x: Comment| x@) + prn.0 =~= pre + (seq![cv]
                                + prn.0));
                        } else {
                            assert(p_comments(rcur) is None);
                        }
                    }
                    cur = s1 + 1;
                } else if s1 < s.len() && s[s1] == ']' {
                    proof {
                        assert(r1[0] == s@[s1 as int]);
                        assert(r1.drop_first() =~= rem(s@, s1 + 1));
                        assert(p_comments(rcur) == Some((seq![cv], rem(s@, s1 + 1))));
                        assert(out@.map_values(|x: Comment| x@) =~= pre + seq![cv]);
                    }
                    return Some((out, s1 + 1));
                } else {
                    proof {
                        if r1.len() > 0 {
                            assert(r1[0] == s@[s1 as int]);
                        }
                        assert(p_comments(rcur) is None);
                    }
                    return None;
                }
            }
            None => {
                return None;
            }
        }
    }
}

impl CommitComments {
    /// Decode a persisted unit.  Text that is not in the stored format is
    /// a malformed note.
    pub fn from_json(json: &str) -> (r: Result<CommitComments, ReviewError>)
        ensures
            match p_cc(json@) {
                Some(v) => r matches Ok(cc) && cc@ == v,
                None => r == Err::<CommitComments, ReviewError>(ReviewError::MalformedNote),
            },
    {
        let chars = to_chars(json);
        let s = chars.as_slice();
        proof {
            assert(rem(s@, 0) =~= json@);
        }
        from_json_at(s, Ghost(json@))
    }
}

/// The body of [`CommitComments::from_json`], over the character slice.
#[verifier::rlimit(100)]
fn from_json_at(s: &[char], text: Ghost<Seq<char>>) -> (r: Result<CommitComments, ReviewError>)
    requires
        s@ == text@,
    ensures
        match p_cc(text@) {
            Some(v) => r matches Ok(cc) && cc@ == v,
            None => r == Err::<CommitComments, ReviewError>(ReviewError::MalformedNote),
        },
{
    {
        proof {
            assert(rem(s@, 0) =~= text@);
        }
        let s1 = match e_lit(s, 0, "{\"commit_id\":\"") {
            Some(x) => x,
            None => {
                return Err(ReviewError::MalformedNote);
            }
        };
        let (cid, s2) = match e_str_body(s, s1) {
            Some(x) => x,
            None => {
                return Err(ReviewError::MalformedNote);
            }
        };
        let s3 = match e_lit(s, s2, ",\"branch\":\"") {
            Some(x) => x,
            None => {
                return Err(ReviewError::MalformedNote);
            }
        };
        let (br, s4) = match e_str_body(s, s3) {
            Some(x) => x,
            None => {
                return Err(ReviewError::MalformedNote);
            }
        };
        let s5 = match e_lit(s, s4, ",\"timestamp\":\"") {
            Some(x) => x,
            None => {
                return Err(ReviewError::MalformedNote);
            }
        };
        let (ts, s6) = match e_str_body(s, s5) {
            Some(x) => x,
            None => {
                return Err(ReviewError::MalformedNote);
            }
        };
        let s7 = match e_lit(s, s6, ",\"comments\":[") {
            Some(x) => x,
            None => {
                return Err(ReviewError::MalformedNote);
            }
        };
        let (cs, s8) = match e_comments(s, s7) {
            Some(x) => x,
            None => {
                return Err(ReviewError::MalformedNote);
            }
        };
        // the closing brace must end the input
        if !(s.len() - s8 == 1 && s[s8] == '}') {
            proof {
                let r8 = rem(s@, s8 as int);
                reveal_strlit("}");
                if r8 =~= "}"@ {
                    assert(r8.len() == 1);
                    assert(r8[0] == s@[s8 as int]);
                    assert(false);
                }
            }
            return Err(ReviewError::MalformedNote);
        }
        proof {
            let r8 = rem(s@, s8 as int);
            reveal_strlit("}");
            assert(r8.len() == 1);
            assert(r8[0] == s@[s8 as int]);
            assert(r8 =~= "}"@);
        }
        Ok(CommitComments { commit_id: cid, branch: br, timestamp: ts, comments: cs })
    }
}

// ---------------------------------------------------------------------------
// Round trip: what the writer emits, the reader reconstructs
// ---------------------------------------------------------------------------

/// A literal prefix is consumed exactly.
proof fn lemma_p_lit_rt(l: Seq<char>, rest: Seq<char>)
    ensures
        p_lit(l + rest, l) == Some(rest),
{
    assert((l + rest).subrange(0, l.len() as int) =~= l);
    assert(spec_starts_with(l + rest, l));
    assert((l + rest).subrange(l.len() as int, (l + rest).len() as int) =~= rest);
}

proof fn lemma_hex_val_digit(d: int)
    requires
        0 <= d < 16,
    ensures
        hex_val(hex_digit(d)) == d,
{
}

/// An escaped string body parses back to the original characters.
proof fn lemma_p_str_body_rt(v: Seq<char>, rest: Seq<char>)
    ensures
        p_str_body(esc(v) + seq!['"'] + rest) == Some((v, rest)),
    decreases v.len(),
{
    let s = esc(v) + seq!['"'] + rest;
    if v.len() == 0 {
        assert(esc(v) =~= Seq::<char>::empty());
        assert(s =~= seq!['"'] + rest);
        assert(s[0] == '"');
        assert(s.drop_first() =~= rest);
    } else {
        let c = v[0];
        let v2 = v.drop_first();
        lemma_p_str_body_rt(v2, rest);
        let tail = esc(v2) + seq!['"'] + rest;
        assert(esc(v) == esc_char(c) + esc(v2));
        assert(s =~= esc_char(c) + tail);
        if c == '"' || c == '\\' || c == '\n' || c == '\r' || c == '\t' {
            assert(s[0] == esc_char(c)[0]);
            assert(s[1] == esc_char(c)[1]);
            assert(s[0] == '\\');
            assert(s[1] != 'u');
            assert(unesc_code(s[1]) == Some(c));
            assert(s.subrange(2, s.len() as int) =~= tail);
            assert(p_str_body(s) == Some((seq![c] + v2, rest)));
            assert(seq![c] + v2 =~= v);
        } else if (c as int) < 32 {
            assert(s[0] == esc_char(c)[0]);
            assert(s[1] == esc_char(c)[1]);
            assert(s[2] == esc_char(c)[2]);
            assert(s[3] == esc_char(c)[3]);
            assert(s[4] == esc_char(c)[4]);
            assert(s[5] == esc_char(c)[5]);
            assert(s[0] == '\\');
            assert(s[1] == 'u');
            assert(hex_val(s[2]) == 0);
            assert(hex_val(s[3]) == 0);
            vstd::utf8::char_u32_cast(c, c as u32);
            assert(c as int >= 0);
            lemma_hex_val_digit(c as int / 16);
            lemma_hex_val_digit(c as int % 16);
            assert(hex_val(s[4]) == c as int / 16);
            assert(hex_val(s[5]) == c as int % 16);
            let h = hex_val(s[2]) * 4096 + hex_val(s[3]) * 256 + hex_val(s[4]) * 16 + hex_val(
                s[5],
            );
            assert(h == c as int);
            assert(h < 32);
            assert(s.subrange(6, s.len() as int) =~= tail);
            assert(((h as u32) as char) == c);
            assert(p_str_body(s) == Some((seq![c] + v2, rest)));
            assert(seq![c] + v2 =~= v);
        } else {
            assert(esc_char(c) =~= seq![c]);
            assert(s[0] == c);
            assert(c != '"' && c != '\\');
            assert(s.drop_first() =~= tail);
            assert(p_str_body(s) == Some((seq![c] + v2, rest)));
            assert(seq![c] + v2 =~= v);
        }
    }
}

/// A quoted string in context: consuming its opening quote first.
proof fn lemma_json_string_rt(v: Seq<char>, rest: Seq<char>)
    ensures
        json_string(v) + rest =~= seq!['"'] + (esc(v) + seq!['"'] + rest),
        p_str_body(esc(v) + seq!['"'] + rest) == Some((v, rest)),
{
    lemma_p_str_body_rt(v, rest);
    assert(json_string(v) + rest =~= seq!['"'] + (esc(v) + seq!['"'] + rest));
}

/// A decimal number followed by a non-digit parses back to its value.
proof fn lemma_p_number_rt(n: usize, rest: Seq<char>)
    requires
        rest.len() > 0,
        !crate::strutil::is_digit(rest[0]),
    ensures
        p_number(spec_dec(n as nat) + rest) == Some((n, rest)),
{
    let d = spec_dec(n as nat);
    let s = d + rest;
    crate::strutil::lemma_spec_dec_digits(n as nat);
    assert forall|j: int| 0 <= j < d.len() implies crate::strutil::is_digit(#[trigger] s[j]) by {
        assert(s[j] == d[j]);
    }
    assert(s[d.len() as int] == rest[0]);
    lemma_digits_end_eq(s, d.len() as int);
    assert(s.subrange(0, d.len() as int) =~= d);
    crate::strutil::lemma_dec_round_trip(n);
    assert(s.subrange(d.len() as int, s.len() as int) =~= rest);
}

/// A location object parses back to itself, whatever follows it.
#[verifier::rlimit(100)]
proof fn lemma_p_location_rt(l: CommentLocationV, rest: Seq<char>)
    ensures
        p_location(json_of_location(l) + rest) == Some((l, rest)),
{
    reveal_strlit("{\"type\":\"line\",\"number\":");
    reveal_strlit(",\"line_type\":\"");
    reveal_strlit("added\"}");
    reveal_strlit("removed\"}");
    reveal_strlit("context\"}");
    reveal_strlit("{\"type\":\"hunk\",\"header\":\"");
    reveal_strlit("{\"type\":\"hunk\",\"header\":");
    reveal_strlit("{\"type\":\"file\"}");
    reveal_strlit("added");
    reveal_strlit("removed");
    reveal_strlit("context");
    reveal_strlit("\"}");
    reveal_strlit("}");
    let s = json_of_location(l) + rest;
    let la = "{\"type\":\"line\",\"number\":"@;
    let lb = ",\"line_type\":\""@;
    let lh = "{\"type\":\"hunk\",\"header\":\""@;
    let lf = "{\"type\":\"file\"}"@;
    match l {
        CommentLocationV::Line { number, kind } => {
            let ks = kind_str(kind);
            let after_num = lb + (ks + ("\"}"@ + rest));
            assert(s =~= la + (spec_dec(number as nat) + after_num));
            lemma_p_lit_rt(la, spec_dec(number as nat) + after_num);
            assert(p_lit(s, la) == Some(spec_dec(number as nat) + after_num));
            assert(after_num[0] == lb[0]);
            assert(!crate::strutil::is_digit(after_num[0]));
            lemma_p_number_rt(number, after_num);
            lemma_p_lit_rt(lb, ks + ("\"}"@ + rest));
            let s3 = ks + ("\"}"@ + rest);
            match kind {
                LineType::Added => {
                    assert(s3 =~= "added\"}"@ + rest);
                    lemma_p_lit_rt("added\"}"@, rest);
                }
                LineType::Removed => {
                    assert(s3 =~= "removed\"}"@ + rest);
                    if spec_starts_with(s3, "added\"}"@) {
                        assert(s3.subrange(0, 7)[0] == s3[0]);
                        assert(false);
                    }
                    lemma_p_lit_rt("removed\"}"@, rest);
                }
                LineType::Context => {
                    assert(s3 =~= "context\"}"@ + rest);
                    if spec_starts_with(s3, "added\"}"@) {
                        assert(s3.subrange(0, 7)[0] == s3[0]);
                        assert(false);
                    }
                    if spec_starts_with(s3, "removed\"}"@) {
                        assert(s3.subrange(0, 9)[0] == s3[0]);
                        assert(false);
                    }
                    lemma_p_lit_rt("context\"}"@, rest);
                }
            }
        }
        CommentLocationV::Hunk { header } => {
            let tail = esc(header) + seq!['"'] + ("}"@ + rest);
            assert(s =~= lh + tail) by {
                assert(json_of_location(l) =~= "{\"type\":\"hunk\",\"header\":"@ + (seq!['"']
                    + esc(header) + seq!['"']) + "}"@);
                assert(json_of_location(l) + rest =~= lh + (esc(header) + seq!['"'] + ("}"@
                    + rest)));
            }
            if spec_starts_with(s, la) {
                assert(s.subrange(0, la.len() as int)[9] == s[9]);
                assert(s[9] == lh[9]);
                assert(false);
            }
            lemma_p_lit_rt(lh, tail);
            lemma_p_str_body_rt(header, "}"@ + rest);
            lemma_p_lit_rt("}"@, rest);
            assert(p_location(s) == Some((l, rest)));
        }
        CommentLocationV::File => {
            assert(s =~= lf + rest);
            if spec_starts_with(s, la) {
                assert(s.subrange(0, la.len() as int)[9] == s[9]);
                assert(s[9] == lf[9]);
                assert(false);
            }
            if spec_starts_with(s, lh) {
                assert(s.subrange(0, lh.len() as int)[9] == s[9]);
                assert(s[9] == lf[9]);
                assert(false);
            }
            lemma_p_lit_rt(lf, rest);
            assert(p_location(s) == Some((l, rest)));
        }
    }
}

/// One comment object parses back to itself, whatever follows it.
#[verifier::spinoff_prover]
#[verifier::rlimit(100)]
proof fn lemma_p_comment_rt(c: CommentV, rest: Seq<char>)
    ensures
        p_comment(json_of_comment(c) + rest) == Some((c, rest)),
{
    reveal_strlit("{\"level\":\"");
    reveal_strlit("line\",\"file_path\":\"");
    reveal_strlit("hunk\",\"file_path\":\"");
    reveal_strlit("file\",\"file_path\":\"");
    reveal_strlit("line");
    reveal_strlit("hunk");
    reveal_strlit("file");
    reveal_strlit("\",\"file_path\":");
    reveal_strlit(",\"location\":");
    reveal_strlit(",\"text\":\"");
    reveal_strlit(",\"text\":");
    reveal_strlit(",\"created_at\":\"");
    reveal_strlit(",\"created_at\":");
    reveal_strlit("}");
    let s = json_of_comment(c) + rest;
    let l0 = "{\"level\":\""@;
    let ll = "line\",\"file_path\":\""@;
    let lh = "hunk\",\"file_path\":\""@;
    let lf = "file\",\"file_path\":\""@;
    let lvl = level_str(c.level);
    let r9 = rest;
    let r8 = "}"@ + r9;
    let r7b = esc(c.created_at) + seq!['"'] + r8;
    let r7 = ",\"created_at\":\""@ + r7b;
    let r6b = esc(c.text) + seq!['"'] + r7;
    let r6 = ",\"text\":\""@ + r6b;
    let r5 = json_of_location(c.location) + r6;
    let r4 = ",\"location\":"@ + r5;
    let r3 = esc(c.file_path) + seq!['"'] + r4;
    let r1 = lvl + ("\",\"file_path\":"@ + (seq!['"'] + r3));
    assert(s =~= l0 + r1);
    lemma_p_lit_rt(l0, r1);
    assert(p_lit(s, l0) == Some(r1));
    match c.level {
        CommentLevel::Line => {
            assert(r1 =~= ll + r3);
            lemma_p_lit_rt(ll, r3);
        }
        CommentLevel::Hunk => {
            assert(r1 =~= lh + r3);
            if spec_starts_with(r1, ll) {
                assert(r1.subrange(0, ll.len() as int)[0] == r1[0]);
                assert(false);
            }
            lemma_p_lit_rt(lh, r3);
        }
        CommentLevel::File => {
            assert(r1 =~= lf + r3);
            if spec_starts_with(r1, ll) {
                assert(r1.subrange(0, ll.len() as int)[0] == r1[0]);
                assert(false);
            }
            if spec_starts_with(r1, lh) {
                assert(r1.subrange(0, lh.len() as int)[0] == r1[0]);
                assert(false);
            }
            lemma_p_lit_rt(lf, r3);
        }
    }
    lemma_p_str_body_rt(c.file_path, r4);
    lemma_p_lit_rt(",\"location\":"@, r5);
    lemma_p_location_rt(c.location, r6);
    lemma_p_lit_rt(",\"text\":\""@, r6b);
    lemma_p_str_body_rt(c.text, r7);
    lemma_p_lit_rt(",\"created_at\":\""@, r7b);
    lemma_p_str_body_rt(c.created_at, r8);
    lemma_p_lit_rt("}"@, r9);
    assert(p_comment(s) == Some((c, rest)));
}

/// A comment object's text opens with a brace.
proof fn lemma_joc_first_char(c: CommentV)
    ensures
        json_of_comment(c).len() > 0,
        json_of_comment(c)[0] == '{',
{
    reveal_strlit("{\"level\":\"");
    let joc = json_of_comment(c);
    assert(joc =~= "{\"level\":\""@ + (level_str(c.level) + "\",\"file_path\":"@
        + json_string(c.file_path) + ",\"location\":"@ + json_of_location(c.location)
        + ",\"text\":"@ + json_string(c.text) + ",\"created_at\":"@ + json_string(
        c.created_at,
    ) + "}"@));
    assert(joc[0] == "{\"level\":\""@[0]);
}

/// The comment list, followed by its closing bracket, parses back to the
/// suffix of comments it encodes.
#[verifier::spinoff_prover]
#[verifier::rlimit(100)]
proof fn lemma_p_comments_rt(cs: Seq<CommentV>, i: int, rest: Seq<char>)
    requires
        0 <= i <= cs.len(),
    ensures
        p_comments(json_of_comments(cs, i) + seq![']'] + rest) == Some(
            (cs.subrange(i, cs.len() as int), rest),
        ),
    decreases cs.len() - i,
{
    reveal_strlit("{\"level\":\"");
    let s = json_of_comments(cs, i) + seq![']'] + rest;
    if i >= cs.len() {
        assert(json_of_comments(cs, i) =~= Seq::<char>::empty());
        assert(s =~= seq![']'] + rest);
        assert(s[0] == ']');
        assert(s.drop_first() =~= rest);
        assert(cs.subrange(i, cs.len() as int) =~= Seq::<CommentV>::empty());
    } else {
        lemma_p_comments_rt(cs, i + 1, rest);
        let tail_full = json_of_comments(cs, i + 1) + seq![']'] + rest;
        let joc = json_of_comment(cs[i]);
        lemma_joc_first_char(cs[i]);
        assert(joc[0] == '{');
        if i + 1 < cs.len() {
            assert(s =~= joc + (seq![','] + tail_full));
            lemma_p_comment_rt(cs[i], seq![','] + tail_full);
            let s1 = seq![','] + tail_full;
            assert(s[0] == joc[0]);
            assert(s[0] != ']');
            assert(s1[0] == ',');
            assert(s1.drop_first() =~= tail_full);
            assert(p_comments(s) == Some(
                (seq![cs[i]] + cs.subrange(i + 1, cs.len() as int), rest),
            ));
            assert(seq![cs[i]] + cs.subrange(i + 1, cs.len() as int) =~= cs.subrange(
                i,
                cs.len() as int,
            ));
        } else {
            assert(json_of_comments(cs, i) =~= joc);
            assert(s =~= joc + (seq![']'] + rest));
            lemma_p_comment_rt(cs[i], seq![']'] + rest);
            let s1 = seq![']'] + rest;
            assert(s[0] == joc[0]);
            assert(s[0] != ']');
            assert(s1[0] == ']');
            assert(s1.drop_first() =~= rest);
            assert(p_comments(s) == Some((seq![cs[i]], rest)));
            assert(seq![cs[i]] =~= cs.subrange(i, cs.len() as int));
        }
    }
}

/// The persisted text of a collection decodes back to the collection:
/// writing with [`json_of_cc`] and reading with [`p_cc`] is the identity,
/// so a stored unit survives the trip through the notes store intact.
#[verifier::spinoff_prover]
#[verifier::rlimit(100)]
pub proof fn lemma_json_round_trip(v: CommitCommentsV)
    ensures
        p_cc(json_of_cc(v)) == Some(v),
{
    reveal_strlit("{\"commit_id\":\"");
    reveal_strlit("{\"commit_id\":");
    reveal_strlit(",\"branch\":\"");
    reveal_strlit(",\"branch\":");
    reveal_strlit(",\"timestamp\":\"");
    reveal_strlit(",\"timestamp\":");
    reveal_strlit(",\"comments\":[");
    reveal_strlit("]}");
    reveal_strlit("}");
    let s = json_of_cc(v);
    let r8 = "}"@;
    let r7 = json_of_comments(v.comments, 0) + seq![']'] + r8;
    let r6 = ",\"comments\":["@ + r7;
    let r5b = esc(v.timestamp) + seq!['"'] + r6;
    let r5 = ",\"timestamp\":\""@ + r5b;
    let r4b = esc(v.branch) + seq!['"'] + r5;
    let r4 = ",\"branch\":\""@ + r4b;
    let r3 = esc(v.commit_id) + seq!['"'] + r4;
    assert(s =~= "{\"commit_id\":\""@ + r3);
    lemma_p_lit_rt("{\"commit_id\":\""@, r3);
    lemma_p_str_body_rt(v.commit_id, r4);
    lemma_p_lit_rt(",\"branch\":\""@, r4b);
    lemma_p_str_body_rt(v.branch, r5);
    lemma_p_lit_rt(",\"timestamp\":\""@, r5b);
    lemma_p_str_body_rt(v.timestamp, r6);
    lemma_p_lit_rt(",\"comments\":["@, r7);
    lemma_p_comments_rt(v.comments, 0, r8);
    assert(v.comments.subrange(0, v.comments.len() as int) =~= v.comments);
    assert(r8 =~= "}"@);
    assert(p_cc(s) is Some);
    let got = p_cc(s).unwrap();
    assert(got == v);
}

} // verus!
