//! Character classes and scanning measures over a sequence of characters.

use vstd::prelude::*;

verus! {

/// Whether `c` has the Unicode `White_Space` property: the characters
/// U+0009 to U+000D, U+0020, U+0085, U+00A0, U+1680, U+2000 to U+200A,
/// U+2028, U+2029, U+202F, U+205F and U+3000.
pub open spec fn white_space(c: char) -> bool {
    let u = c as u32;
    (0x9 <= u && u <= 0xd) || u == 0x20 || u == 0x85 || u == 0xa0 || u == 0x1680 || (0x2000 <= u
        && u <= 0x200a) || u == 0x2028 || u == 0x2029 || u == 0x202f || u == 0x205f || u == 0x3000
}

/// Whether `c` is alphabetic or numeric in Unicode's sense, as `char::is_alphanumeric` decides.
pub uninterp spec fn alphanumeric(c: char) -> bool;

/// Whether `c` is white space.
pub fn is_white_space(c: char) -> (r: bool)
    ensures
        r == white_space(c),
{
    let u = c as u32;
    (0x9 <= u && u <= 0xd) || u == 0x20 || u == 0x85 || u == 0xa0 || u == 0x1680 || (0x2000 <= u
        && u <= 0x200a) || u == 0x2028 || u == 0x2029 || u == 0x202f || u == 0x205f || u == 0x3000
}

/// Relies on `char::is_alphanumeric`: its answer depends on the character
/// alone, and among ASCII characters it holds of the letters and digits.
#[verifier::external_body]
pub(crate) fn is_alphanumeric(c: char) -> (r: bool)
    ensures
        r == alphanumeric(c),
        (c as u32) < 128 ==> (r <==> (('a' <= c && c <= 'z') || ('A' <= c && c <= 'Z') || ('0' <= c
            && c <= '9'))),
{
    c.is_alphanumeric()
}

/// Relies on `String::push`: appends one character at the end.
#[verifier::external_body]
pub(crate) fn push_char(s: &mut String, c: char)
    ensures
        final(s)@ == old(s)@.push(c),
{
    s.push(c)
}

/// The characters that may make up a tag or attribute name.
pub open spec fn name_char(c: char) -> bool {
    alphanumeric(c) || c == '-'
}

/// Number of consecutive characters of `s` from position `p` on that satisfy `f`.
pub open spec fn run_len(s: Seq<char>, p: int, f: spec_fn(char) -> bool) -> nat
    decreases s.len() - p,
{
    if 0 <= p < s.len() && f(s[p]) {
        1 + run_len(s, p + 1, f)
    } else {
        0
    }
}

/// Length of the whitespace run at `p`.
pub open spec fn ws_len(s: Seq<char>, p: int) -> nat {
    run_len(s, p, |c: char| white_space(c))
}

/// Length of the name run at `p`.
pub open spec fn name_len(s: Seq<char>, p: int) -> nat {
    run_len(s, p, |c: char| name_char(c))
}

/// Length of the run at `p` that holds no `stop` character.
pub open spec fn len_before(s: Seq<char>, p: int, stop: char) -> nat
    decreases s.len() - p,
{
    if 0 <= p < s.len() && s[p] != stop {
        1 + len_before(s, p + 1, stop)
    } else {
        0
    }
}

/// A run never reaches past the end of the sequence.
pub proof fn lemma_run_len_bound(s: Seq<char>, p: int, f: spec_fn(char) -> bool)
    requires
        0 <= p <= s.len(),
    ensures
        p + run_len(s, p, f) <= s.len(),
    decreases s.len() - p,
{
    if p < s.len() && f(s[p]) {
        lemma_run_len_bound(s, p + 1, f);
    }
}

/// A run of non-`stop` characters never reaches past the end.
pub proof fn lemma_len_before_bound(s: Seq<char>, p: int, stop: char)
    requires
        0 <= p <= s.len(),
    ensures
        p + len_before(s, p, stop) <= s.len(),
    decreases s.len() - p,
{
    if p < s.len() && s[p] != stop {
        lemma_len_before_bound(s, p + 1, stop);
    }
}

/// A run of name characters never reaches past the end.
pub proof fn lemma_name_len_bound(s: Seq<char>, p: int)
    requires
        0 <= p <= s.len(),
    ensures
        p + name_len(s, p) <= s.len(),
{
    lemma_run_len_bound(s, p, |c: char| name_char(c));
}

/// Position of the first character of `t` at or after `i` that is not whitespace.
pub open spec fn first_kept(t: Seq<char>, i: int) -> int
    decreases t.len() - i,
{
    if 0 <= i < t.len() && white_space(t[i]) {
        first_kept(t, i + 1)
    } else {
        i
    }
}

/// One past the last character of `t` before `j`, and not before `lo`, that is not whitespace.
pub open spec fn last_kept(t: Seq<char>, lo: int, j: int) -> int
    decreases j - lo,
{
    if lo < j && j <= t.len() && white_space(t[j - 1]) {
        last_kept(t, lo, j - 1)
    } else {
        j
    }
}

/// `t` without its leading and trailing whitespace.
pub open spec fn trim(t: Seq<char>) -> Seq<char> {
    let lo = first_kept(t, 0);
    t.subrange(lo, last_kept(t, lo, t.len() as int))
}

} // verus!
