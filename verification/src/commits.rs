//! Commit metadata as the viewer shows it, and the parsing of the commit
//! range argument.  Enumerating commits from the repository is the
//! repository collaborator's work; the library holds the plain values it
//! hands over.

use vstd::prelude::*;

use crate::diff_parser::{first_idx, lemma_first_idx, lemma_first_idx_eq};
use crate::errors::ReviewError;
use crate::strutil::spec_dec;

verus! {

/// One commit as listed in the log pane: identity and display metadata,
/// with the author time as seconds since the epoch.
#[derive(Debug, Clone)]
pub struct CommitInfo {
    pub id: String,
    pub short_id: String,
    pub message: String,
    pub author_name: String,
    pub time_seconds: i64,
}

/// The first line of a commit message, as `str::lines` would cut it.
pub open spec fn spec_summary(s: Seq<char>) -> Seq<char> {
    if s.len() == 0 {
        Seq::empty()
    } else {
        let j = first_idx(s, '\n');
        let raw = s.subrange(0, j);
        if raw.len() > 0 && raw.last() == '\r' {
            raw.drop_last()
        } else {
            raw
        }
    }
}

impl CommitInfo {
    /// The first line of the commit message.
    pub fn summary(&self) -> (r: &str)
        ensures
            r@ == spec_summary(self.message@),
    {
        let m = self.message.as_str();
        let n = m.unicode_len();
        let mut j: usize = 0;
        while j < n && m.get_char(j) != '\n'
            invariant
                j <= n,
                n == m@.len(),
                forall|k: int| 0 <= k < j ==> m@[k] != '\n',
            decreases n - j,
        {
            j += 1;
        }
        proof {
            lemma_first_idx_eq(m@, '\n', j as int);
        }
        let end = if j > 0 && m.get_char(j - 1) == '\r' {
            j - 1
        } else {
            j
        };
        let r = m.substring_char(0, end);
        proof {
            if n > 0 {
                let raw = m@.subrange(0, j as int);
                if raw.len() > 0 && raw.last() == '\r' {
                    assert(raw.drop_last() =~= m@.subrange(0, j - 1));
                } else {
                }
                assert(r@ =~= spec_summary(self.message@));
            } else {
                assert(r@ =~= spec_summary(self.message@));
            }
        }
        r
    }

    /// Relative age text for a time difference in seconds, from "just now"
    /// through minutes, hours, days, months and years.
    pub fn relative_time_from(now_seconds: i64, commit_seconds: i64) -> (r: String)
        ensures
            r@ == spec_relative(now_seconds - commit_seconds),
    {
        let diff: i128 = (now_seconds as i128) - (commit_seconds as i128);
        let mut v: Vec<char> = Vec::new();
        if diff < 60 {
            crate::strutil::append_str(&mut v, "just now");
        } else if diff < 3600 {
            crate::strutil::push_dec_u64((diff / 60) as u64, &mut v);
            crate::strutil::append_str(&mut v, " minutes ago");
        } else if diff < 86400 {
            crate::strutil::push_dec_u64((diff / 3600) as u64, &mut v);
            crate::strutil::append_str(&mut v, " hours ago");
        } else if diff < 2592000 {
            crate::strutil::push_dec_u64((diff / 86400) as u64, &mut v);
            crate::strutil::append_str(&mut v, " days ago");
        } else if diff < 31536000 {
            crate::strutil::push_dec_u64((diff / 2592000) as u64, &mut v);
            crate::strutil::append_str(&mut v, " months ago");
        } else {
            crate::strutil::push_dec_u64((diff / 31536000) as u64, &mut v);
            crate::strutil::append_str(&mut v, " years ago");
        }
        crate::strutil::chars_to_string(&v)
    }

    /// The commit's age relative to the present moment.  The wall clock
    /// decides which bucket the text falls in.
    pub fn relative_time(&self) -> (r: String)
        ensures
            exists|now: i64| r@ == #[trigger] spec_relative(now - self.time_seconds),
    {
        let now = now_epoch_seconds();
        let r = Self::relative_time_from(now, self.time_seconds);
        proof {
            assert(r@ == spec_relative(now - self.time_seconds));
        }
        r
    }
}

/// The relative-age text for a difference of `diff` seconds.
pub open spec fn spec_relative(diff: int) -> Seq<char> {
    if diff < 60 {
        "just now"@
    } else if diff < 3600 {
        spec_dec((diff / 60) as nat) + " minutes ago"@
    } else if diff < 86400 {
        spec_dec((diff / 3600) as nat) + " hours ago"@
    } else if diff < 2592000 {
        spec_dec((diff / 86400) as nat) + " days ago"@
    } else if diff < 31536000 {
        spec_dec((diff / 2592000) as nat) + " months ago"@
    } else {
        spec_dec((diff / 31536000) as nat) + " years ago"@
    }
}

/// Relies on `std::time::SystemTime::now` and the epoch duration: the
/// present wall-clock time in whole seconds.  Nothing is promised of its
/// value.
#[verifier::external_body]
fn now_epoch_seconds() -> i64 {
    match std::time::SystemTime::now().duration_since(std::time::UNIX_EPOCH) {
        Ok(d) => d.as_secs() as i64,
        Err(_) => 0,
    }
}

// ---------------------------------------------------------------------------
// Commit ranges
// ---------------------------------------------------------------------------

/// Index of the first `..` in `s`, or `-1` when there is none.
pub open spec fn first_dotdot(s: Seq<char>) -> int
    decreases s.len(),
{
    if s.len() < 2 {
        -1
    } else if s[0] == '.' && s[1] == '.' {
        0
    } else {
        let r = first_dotdot(s.drop_first());
        if r < 0 {
            -1
        } else {
            1 + r
        }
    }
}

pub proof fn lemma_first_dotdot(s: Seq<char>)
    ensures
        first_dotdot(s) == -1 || (0 <= first_dotdot(s) && first_dotdot(s) + 2 <= s.len()),
        first_dotdot(s) >= 0 ==> s[first_dotdot(s)] == '.' && s[first_dotdot(s) + 1] == '.',
        forall|j: int|
            0 <= j < first_dotdot(s) || (first_dotdot(s) == -1 && 0 <= j && j + 2 <= s.len())
                ==> !(#[trigger] s[j] == '.' && s[j + 1] == '.'),
    decreases s.len(),
{
    if s.len() >= 2 && !(s[0] == '.' && s[1] == '.') {
        lemma_first_dotdot(s.drop_first());
        assert forall|j: int|
            0 <= j < first_dotdot(s) || (first_dotdot(s) == -1 && 0 <= j && j + 2 <= s.len())
            implies !(#[trigger] s[j] == '.' && s[j + 1] == '.') by {
            if j >= 1 {
                assert(s.drop_first()[j - 1] == s[j]);
                assert(s.drop_first()[j] == s[j + 1]);
            }
        }
    }
}

/// Splitting always yields at least one part.
pub proof fn lemma_split_nonempty(s: Seq<char>)
    ensures
        spec_split_dotdot(s).len() >= 1,
    decreases s.len(),
{
    lemma_first_dotdot(s);
}

pub proof fn lemma_first_dotdot_eq(s: Seq<char>, k: int)
    requires
        0 <= k,
        k + 2 <= s.len(),
        forall|j: int| 0 <= j < k ==> !(#[trigger] s[j] == '.' && s[j + 1] == '.'),
        s[k] == '.' && s[k + 1] == '.',
    ensures
        first_dotdot(s) == k,
    decreases s.len(),
{
    if !(s[0] == '.' && s[1] == '.') {
        assert forall|j: int| 0 <= j < k - 1 implies !(#[trigger] s.drop_first()[j] == '.'
            && s.drop_first()[j + 1] == '.') by {
            assert(s.drop_first()[j] == s[j + 1]);
            assert(s.drop_first()[j + 1] == s[j + 2]);
        }
        assert(s.drop_first()[k - 1] == s[k]);
        assert(s.drop_first()[k] == s[k + 1]);
        lemma_first_dotdot_eq(s.drop_first(), k - 1);
    }
}

pub proof fn lemma_no_dotdot(s: Seq<char>)
    requires
        forall|j: int| 0 <= j && j + 2 <= s.len() ==> !(#[trigger] s[j] == '.' && s[j + 1] == '.'),
    ensures
        first_dotdot(s) == -1,
    decreases s.len(),
{
    if s.len() >= 2 {
        assert forall|j: int| 0 <= j && j + 2 <= s.drop_first().len() implies !(
        #[trigger] s.drop_first()[j] == '.' && s.drop_first()[j + 1] == '.') by {
            assert(s.drop_first()[j] == s[j + 1]);
            assert(s.drop_first()[j + 1] == s[j + 2]);
        }
        lemma_no_dotdot(s.drop_first());
    }
}

/// The `..`-separated parts of `s`, non-overlapping, left to right.
pub open spec fn spec_split_dotdot(s: Seq<char>) -> Seq<Seq<char>>
    decreases s.len(),
    via spec_split_dotdot_dec
{
    let i = first_dotdot(s);
    if i < 0 {
        seq![s]
    } else {
        seq![s.subrange(0, i)] + spec_split_dotdot(s.subrange(i + 2, s.len() as int))
    }
}

#[via_fn]
proof fn spec_split_dotdot_dec(s: Seq<char>) {
    lemma_first_dotdot(s);
}

/// Parse a commit range argument: `ref` compares `HEAD` against `ref`,
/// and `start..end` names both ends.  A range with more than one `..`, or
/// an empty start or end, is rejected.
#[verifier::loop_isolation(false)]
pub fn parse_range(range: &str) -> (r: Result<(String, String), ReviewError>)
    ensures
        ({
            let parts = spec_split_dotdot(range@);
            if first_dotdot(range@) < 0 {
                r matches Ok(p) && p.0@ == "HEAD"@ && p.1@ == range@
            } else if parts.len() != 2 {
                r == Err::<(String, String), ReviewError>(ReviewError::InvalidRangeFormat)
            } else if parts[0].len() == 0 || parts[1].len() == 0 {
                r == Err::<(String, String), ReviewError>(ReviewError::RangeRefsEmpty)
            } else {
                r matches Ok(p) && p.0@ == parts[0] && p.1@ == parts[1]
            }
        }),
{
    let chars = crate::strutil::to_chars(range);
    let s = chars.as_slice();
    let n = s.len();
    // find the first ".."
    let mut i: usize = 0;
    let mut found: bool = false;
    while !found && n >= 2 && i <= n - 2
        invariant
            i <= n,
            n == range@.len(),
            s@ == range@,
            !found ==> forall|j: int| 0 <= j < i ==> !(#[trigger] range@[j] == '.' && range@[j + 1] == '.'),
            found ==> 0 <= i && i + 2 <= n && range@[i as int] == '.' && range@[i + 1] == '.'
                && forall|j: int| 0 <= j < i ==> !(#[trigger] range@[j] == '.' && range@[j + 1] == '.'),
        decreases n - i + (if found {
            0int
        } else {
            1int
        }),
    {
        if s[i] == '.' && s[i + 1] == '.' {
            found = true;
        } else {
            i += 1;
        }
    }
    if !found {
        proof {
            lemma_no_dotdot(range@);
        }
        let mut head = String::new();
        head.append("HEAD");
        return Ok((head, range.to_owned()));
    }
    proof {
        lemma_first_dotdot_eq(range@, i as int);
    }
    // look for a second ".." after it
    let rest_start = i + 2;
    let mut k: usize = rest_start;
    let mut found2: bool = false;
    while !found2 && n >= 2 && k <= n - 2
        invariant
            rest_start <= k <= n,
            n == range@.len(),
            s@ == range@,
            !found2 ==> forall|j: int|
                rest_start <= j < k ==> !(#[trigger] range@[j] == '.' && range@[j + 1] == '.'),
            found2 ==> rest_start <= k && k + 2 <= n && range@[k as int] == '.' && range@[k + 1]
                == '.' && forall|j: int|
                rest_start <= j < k ==> !(#[trigger] range@[j] == '.' && range@[j + 1] == '.'),
        decreases n - k + (if found2 {
            0int
        } else {
            1int
        }),
    {
        if s[k] == '.' && s[k + 1] == '.' {
            found2 = true;
        } else {
            k += 1;
        }
    }
    let ghost rest = range@.subrange(rest_start as int, n as int);
    proof {
        assert(spec_split_dotdot(range@) == seq![range@.subrange(0, i as int)]
            + spec_split_dotdot(rest));
    }
    if found2 {
        proof {
            assert forall|j: int| 0 <= j < k - rest_start implies !(#[trigger] rest[j] == '.'
                && rest[j + 1] == '.') by {
                assert(rest[j] == range@[rest_start + j]);
                assert(rest[j + 1] == range@[rest_start + j + 1]);
            }
            assert(rest[k - rest_start] == range@[k as int]);
            assert(rest[k - rest_start + 1] == range@[k + 1]);
            lemma_first_dotdot_eq(rest, k - rest_start);
            lemma_split_nonempty(rest.subrange(k - rest_start + 2, rest.len() as int));
            assert(spec_split_dotdot(rest).len() >= 2);
            assert(spec_split_dotdot(range@).len() >= 3);
        }
        return Err(ReviewError::InvalidRangeFormat);
    }
    proof {
        assert forall|j: int| 0 <= j && j + 2 <= rest.len() implies !(#[trigger] rest[j] == '.'
            && rest[j + 1] == '.') by {
            assert(rest[j] == range@[rest_start + j]);
            assert(rest[j + 1] == range@[rest_start + j + 1]);
        }
        lemma_no_dotdot(rest);
        assert(spec_split_dotdot(rest) =~~= seq![rest]);
        assert(spec_split_dotdot(range@) =~~= seq![range@.subrange(0, i as int), rest]);
    }
    if i == 0 || rest_start == n {
        return Err(ReviewError::RangeRefsEmpty);
    }
    let start_s = crate::strutil::range_to_string(s, 0, i);
    let end_s = crate::strutil::range_to_string(s, rest_start, n);
    Ok((start_s, end_s))
}

} // verus!
