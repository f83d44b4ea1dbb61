//! Small verified string helpers shared by the parser, the renderer and the
//! persistence layer: conversion between `&str` and `Vec<char>`, decimal
//! formatting and parsing with their round-trip lemma, and case folding.

use vstd::prelude::*;

verus! {

/// Collect the characters of a string slice into a vector.
pub fn to_chars(s: &str) -> (v: Vec<char>)
    ensures
        v@ == s@,
{
    let n = s.unicode_len();
    let mut v: Vec<char> = Vec::new();
    let mut i: usize = 0;
    while i < n
        invariant
            i <= n,
            n == s@.len(),
            v@ == s@.subrange(0, i as int),
        decreases n - i,
    {
        v.push(s.get_char(i));
        assert(v@ =~= s@.subrange(0, i + 1));
        i += 1;
    }
    assert(v@ =~= s@);
    v
}

/// Relies on `String`'s `FromIterator<char>` impl: collecting characters
/// yields the string of exactly those characters in order.
#[verifier::external_body]
pub(crate) fn chars_to_string(v: &Vec<char>) -> (s: String)
    ensures
        s@ == v@,
{
    v.iter().collect()
}

/// The case-folded form of a character sequence, as `str::to_lowercase`
/// computes it.
pub uninterp spec fn lower_of(s: Seq<char>) -> Seq<char>;

/// Relies on `str::to_lowercase`: the lowercased text is a function of the
/// input characters alone, and every character maps to at least one
/// character, so the result is no shorter than the input.
#[verifier::external_body]
pub(crate) fn lowercase(s: &str) -> (r: String)
    ensures
        r@ == lower_of(s@),
        r@.len() >= s@.len(),
{
    s.to_lowercase()
}

pub open spec fn is_digit(c: char) -> bool {
    '0' <= c && c <= '9'
}

pub open spec fn digit_val(c: char) -> int {
    c as int - '0' as int
}

pub open spec fn digit_char(d: int) -> char {
    if d == 0 {
        '0'
    } else if d == 1 {
        '1'
    } else if d == 2 {
        '2'
    } else if d == 3 {
        '3'
    } else if d == 4 {
        '4'
    } else if d == 5 {
        '5'
    } else if d == 6 {
        '6'
    } else if d == 7 {
        '7'
    } else if d == 8 {
        '8'
    } else {
        '9'
    }
}

/// The decimal spelling of a natural number, most significant digit first.
pub open spec fn spec_dec(n: nat) -> Seq<char>
    decreases n,
{
    if n < 10 {
        seq![digit_char(n as int)]
    } else {
        spec_dec(n / 10).push(digit_char((n % 10) as int))
    }
}

pub proof fn lemma_spec_dec_digits(n: nat)
    ensures
        spec_dec(n).len() >= 1,
        forall|i: int| 0 <= i < spec_dec(n).len() ==> is_digit(#[trigger] spec_dec(n)[i]),
    decreases n,
{
    if n >= 10 {
        lemma_spec_dec_digits(n / 10);
    }
}

fn digit_to_char(d: usize) -> (c: char)
    requires
        d < 10,
    ensures
        c == digit_char(d as int),
{
    match d {
        0 => '0',
        1 => '1',
        2 => '2',
        3 => '3',
        4 => '4',
        5 => '5',
        6 => '6',
        7 => '7',
        8 => '8',
        _ => '9',
    }
}

/// Append the decimal spelling of `n` to `out`.
pub fn push_dec(n: usize, out: &mut Vec<char>)
    ensures
        final(out)@ == old(out)@ + spec_dec(n as nat),
    decreases n,
{
    if n < 10 {
        out.push(digit_to_char(n));
    } else {
        push_dec(n / 10, out);
        out.push(digit_to_char(n % 10));
    }
}

/// Append the decimal spelling of a 64-bit value to `out`.
pub fn push_dec_u64(n: u64, out: &mut Vec<char>)
    ensures
        final(out)@ == old(out)@ + spec_dec(n as nat),
    decreases n,
{
    if n < 10 {
        out.push(digit_to_char((n % 10) as usize));
    } else {
        push_dec_u64(n / 10, out);
        out.push(digit_to_char((n % 10) as usize));
    }
}

/// The numeric value of a digit sequence (most significant first).
pub open spec fn val_of_digits(s: Seq<char>) -> int
    decreases s.len(),
{
    if s.len() == 0 {
        0
    } else {
        val_of_digits(s.drop_last()) * 10 + digit_val(s.last())
    }
}

pub open spec fn all_digits(s: Seq<char>) -> bool {
    forall|i: int| 0 <= i < s.len() ==> is_digit(#[trigger] s[i])
}

/// What `str::parse::<usize>` yields on this character sequence: the value
/// when it is a non-empty all-digit run whose value fits, `None` otherwise.
pub open spec fn spec_parse_usize(s: Seq<char>) -> Option<usize> {
    if s.len() >= 1 && all_digits(s) && val_of_digits(s) <= usize::MAX {
        Some(val_of_digits(s) as usize)
    } else {
        None
    }
}

pub proof fn lemma_val_of_spec_dec(n: nat)
    ensures
        val_of_digits(spec_dec(n)) == n,
    decreases n,
{
    if n < 10 {
        assert(spec_dec(n).drop_last() =~= Seq::<char>::empty());
        assert(val_of_digits(Seq::<char>::empty()) == 0);
    } else {
        lemma_val_of_spec_dec(n / 10);
        assert(spec_dec(n).drop_last() =~= spec_dec(n / 10));
    }
}

/// Formatting a number and parsing it back yields the number.
pub proof fn lemma_dec_round_trip(n: usize)
    ensures
        spec_parse_usize(spec_dec(n as nat)) == Some(n),
{
    lemma_spec_dec_digits(n as nat);
    lemma_val_of_spec_dec(n as nat);
}

/// Parse a digit run as `usize`, rejecting empty input, non-digits and
/// overflow.
pub fn parse_usize(s: &[char]) -> (r: Option<usize>)
    ensures
        r == spec_parse_usize(s@),
{
    if s.len() == 0 {
        return None;
    }
    let mut acc: usize = 0;
    let mut i: usize = 0;
    while i < s.len()
        invariant
            i <= s@.len(),
            all_digits(s@.subrange(0, i as int)),
            acc == val_of_digits(s@.subrange(0, i as int)),
        decreases s@.len() - i,
    {
        let c = s[i];
        if !('0' <= c && c <= '9') {
            assert(!is_digit(s@[i as int]));
            return None;
        }
        let d: usize = (c as u32 as usize) - ('0' as u32 as usize);
        assert(d == digit_val(s@[i as int]));
        if acc > (usize::MAX - d) / 10 {
            proof {
                if all_digits(s@) {
                    assert(acc * 10 + d > usize::MAX);
                    lemma_val_grows(s@, i as int);
                }
            }
            return None;
        }
        proof {
            let pre = s@.subrange(0, i + 1);
            assert(pre.drop_last() =~= s@.subrange(0, i as int));
        }
        acc = acc * 10 + d;
        i += 1;
    }
    assert(s@.subrange(0, s@.len() as int) =~= s@);
    Some(acc)
}

/// Once a prefix's value exceeds what a `usize` can extend to, the whole
/// digit run's value is out of range.
proof fn lemma_val_grows(s: Seq<char>, i: int)
    requires
        0 <= i < s.len(),
        all_digits(s),
        val_of_digits(s.subrange(0, i)) * 10 + digit_val(s[i]) > usize::MAX,
    ensures
        val_of_digits(s) > usize::MAX,
    decreases s.len() - i,
{
    lemma_val_nonneg(s.subrange(0, i));
    if i == s.len() - 1 {
        assert(s.subrange(0, i) =~= s.drop_last());
    } else {
        let t = s.subrange(0, i + 1);
        assert(t.drop_last() =~= s.subrange(0, i));
        assert(val_of_digits(t) == val_of_digits(s.subrange(0, i)) * 10 + digit_val(s[i]));
        lemma_val_step_ge(s, i + 1);
    }
}

proof fn lemma_val_nonneg(s: Seq<char>)
    requires
        all_digits(s),
    ensures
        val_of_digits(s) >= 0,
    decreases s.len(),
{
    if s.len() > 0 {
        assert(all_digits(s.drop_last())) by {
            assert(forall|i: int|
                0 <= i < s.len() - 1 ==> s.drop_last()[i] == #[trigger] s[i]);
        }
        lemma_val_nonneg(s.drop_last());
    }
}

/// The value of the whole run is at least the value of any prefix.
proof fn lemma_val_step_ge(s: Seq<char>, i: int)
    requires
        0 < i <= s.len(),
        all_digits(s),
    ensures
        val_of_digits(s) >= val_of_digits(s.subrange(0, i)),
    decreases s.len() - i,
{
    lemma_val_nonneg(s.subrange(0, i));
    if i == s.len() {
        assert(s.subrange(0, i) =~= s);
    } else {
        let t = s.subrange(0, i + 1);
        assert(t.drop_last() =~= s.subrange(0, i));
        assert(val_of_digits(t) == val_of_digits(s.subrange(0, i)) * 10 + digit_val(s[i]));
        lemma_val_step_ge(s, i + 1);
    }
}

/// Append the characters of `s` to `out`.
pub fn append_str(out: &mut Vec<char>, s: &str)
    ensures
        final(out)@ == old(out)@ + s@,
{
    let n = s.unicode_len();
    let mut i: usize = 0;
    while i < n
        invariant
            i <= n,
            n == s@.len(),
            out@ =~= old(out)@ + s@.subrange(0, i as int),
        decreases n - i,
    {
        out.push(s.get_char(i));
        assert(out@ =~= old(out)@ + s@.subrange(0, i + 1));
        i += 1;
    }
    assert(out@ =~= old(out)@ + s@);
}

/// Copy `s[a..b]` into a fresh `String`.
pub fn range_to_string(s: &[char], a: usize, b: usize) -> (r: String)
    requires
        a <= b <= s@.len(),
    ensures
        r@ == s@.subrange(a as int, b as int),
{
    let mut v: Vec<char> = Vec::new();
    let mut k: usize = a;
    while k < b
        invariant
            a <= k <= b <= s@.len(),
            v@ =~= s@.subrange(a as int, k as int),
        decreases b - k,
    {
        v.push(s[k]);
        assert(v@ =~= s@.subrange(a as int, k + 1));
        k += 1;
    }
    chars_to_string(&v)
}

/// Character-for-character string equality.
pub fn str_eq(a: &str, b: &str) -> (r: bool)
    ensures
        r == (a@ == b@),
{
    let la = a.unicode_len();
    let lb = b.unicode_len();
    if la != lb {
        return false;
    }
    let mut i: usize = 0;
    while i < la
        invariant
            i <= la,
            la == a@.len(),
            la == b@.len(),
            forall|j: int| 0 <= j < i ==> a@[j] == b@[j],
        decreases la - i,
    {
        if a.get_char(i) != b.get_char(i) {
            return false;
        }
        i += 1;
    }
    assert(a@ =~= b@);
    true
}

/// Mapping distributes over `push`.
pub proof fn lemma_seq_map_push<A, B>(s: Seq<A>, f: spec_fn(A) -> B, x: A)
    ensures
        s.push(x).map_values(f) =~= s.map_values(f).push(f(x)),
{
}

/// Does `s` begin with `p`?
pub open spec fn spec_starts_with(s: Seq<char>, p: Seq<char>) -> bool {
    p.len() <= s.len() && s.subrange(0, p.len() as int) =~= p
}

/// Test whether the character slice `s` starts with the string `p`.
pub fn chars_start_with(s: &[char], p: &str) -> (r: bool)
    ensures
        r == spec_starts_with(s@, p@),
{
    let plen = p.unicode_len();
    if plen > s.len() {
        return false;
    }
    let mut i: usize = 0;
    while i < plen
        invariant
            i <= plen,
            plen == p@.len(),
            plen <= s@.len(),
            forall|j: int| 0 <= j < i ==> s@[j] == p@[j],
        decreases plen - i,
    {
        if s[i] != p.get_char(i) {
            assert(s@[i as int] != p@[i as int]);
            assert(!spec_starts_with(s@, p@));
            return false;
        }
        i += 1;
    }
    assert(s@.subrange(0, p@.len() as int) =~= p@);
    true
}

} // verus!
