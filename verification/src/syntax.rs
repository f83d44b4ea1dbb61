//! The syntax-highlighting front: the highlighter's own state is a theme
//! name, and the file-extension detection it keys on is plain string
//! logic.  The rendering backend that consumes these lives outside the
//! library.

use vstd::prelude::*;

verus! {

/// Index right after the last `.` of `s`, or `0` when `s` has no dot, so
/// that the extension is `s[ext_start(s)..]`.
pub open spec fn ext_start(s: Seq<char>) -> int
    decreases s.len(),
{
    if s.len() == 0 {
        0
    } else if s.last() == '.' {
        s.len() as int
    } else {
        ext_start(s.drop_last())
    }
}

pub proof fn lemma_ext_start(s: Seq<char>)
    ensures
        0 <= ext_start(s) <= s.len(),
        forall|j: int| ext_start(s) <= j < s.len() ==> s[j] != '.',
        ext_start(s) > 0 ==> s[ext_start(s) - 1] == '.',
    decreases s.len(),
{
    if s.len() > 0 && s.last() != '.' {
        lemma_ext_start(s.drop_last());
        assert forall|j: int| ext_start(s) <= j < s.len() implies s[j] != '.' by {
            if j < s.len() - 1 {
                assert(s.drop_last()[j] == s[j]);
            }
        }
        if ext_start(s) > 0 {
            assert(s.drop_last()[ext_start(s) - 1] == s[ext_start(s) - 1]);
        }
    }
}

/// A prefix-free position bounding a dot-free suffix is `ext_start`.
pub proof fn lemma_ext_start_eq(s: Seq<char>, k: int)
    requires
        0 <= k <= s.len(),
        forall|j: int| k <= j < s.len() ==> s[j] != '.',
        k > 0 ==> s[k - 1] == '.',
    ensures
        ext_start(s) == k,
    decreases s.len(),
{
    if s.len() > 0 && s.last() != '.' {
        assert(forall|j: int| k <= j < s.len() - 1 ==> s.drop_last()[j] == s[j]);
        if k > 0 {
            assert(s.drop_last()[k - 1] == s[k - 1]);
        }
        lemma_ext_start_eq(s.drop_last(), k);
    }
}

/// Highlighting state: the configured theme name.  The highlighting
/// backend itself is an outside collaborator keyed by this name and by the
/// extension [`SyntaxHighlighter::detect_extension`] finds.
pub struct SyntaxHighlighter {
    pub theme_name: String,
}

impl SyntaxHighlighter {
    /// A highlighter for the named theme.
    pub fn new(theme_name: String) -> (r: SyntaxHighlighter)
        ensures
            r.theme_name@ == theme_name@,
    {
        SyntaxHighlighter { theme_name }
    }

    /// The characters after the last `.` of the path, or the whole path
    /// when it has none.
    pub fn detect_extension(file_path: &str) -> (r: &str)
        ensures
            r@ == file_path@.subrange(ext_start(file_path@), file_path@.len() as int),
    {
        let n = file_path.unicode_len();
        let mut k: usize = n;
        while k > 0 && file_path.get_char(k - 1) != '.'
            invariant
                k <= n,
                n == file_path@.len(),
                forall|j: int| k <= j < n ==> file_path@[j] != '.',
            decreases k,
        {
            k -= 1;
        }
        proof {
            lemma_ext_start_eq(file_path@, k as int);
        }
        file_path.substring_char(k, n)
    }
}

} // verus!
