//! Substring, suffix and trimming operations on strings, the character-level
//! groundwork for entry filtering and terminal-URL detection.
use vstd::prelude::*;
use vstd::string::*;

verus! {

/// The pattern `pat` occurs in `text` as the contiguous substring starting at
/// position `i`.
pub open spec fn contains_at(text: Seq<char>, pat: Seq<char>, i: int) -> bool {
    0 <= i && i + pat.len() <= text.len() && text.subrange(i, i + pat.len()) == pat
}

/// The pattern `pat` occurs somewhere in `text` as a contiguous substring.
pub open spec fn contains_seq(text: Seq<char>, pat: Seq<char>) -> bool {
    exists|i: int| contains_at(text, pat, i)
}

/// `text` ends with the suffix `suf`.
pub open spec fn suffix_of(text: Seq<char>, suf: Seq<char>) -> bool {
    suf.len() <= text.len() && text.subrange(text.len() - suf.len(), text.len() as int) == suf
}

/// `text` with exactly one trailing '/' removed, if it has one.
pub open spec fn trim_slash(text: Seq<char>) -> Seq<char> {
    if text.len() > 0 && text.last() == '/' {
        text.drop_last()
    } else {
        text
    }
}

/// A substring of a sequence shorn of its last element is a substring of the
/// whole sequence.
pub proof fn lemma_contains_drop_last(text: Seq<char>, pat: Seq<char>)
    requires
        text.len() > 0,
        contains_seq(text.drop_last(), pat),
    ensures
        contains_seq(text, pat),
{
    let k = choose|k: int| contains_at(text.drop_last(), pat, k);
    assert(text.subrange(k, k + pat.len() as int) =~= text.drop_last().subrange(
        k,
        k + pat.len() as int,
    ));
    assert(contains_at(text, pat, k));
}

/// Trimming a trailing '/' introduces no substring: a pattern absent from
/// `text` is also absent from `trim_slash(text)`.
pub proof fn lemma_trim_keeps_absent(text: Seq<char>, pat: Seq<char>)
    requires
        !contains_seq(text, pat),
    ensures
        !contains_seq(trim_slash(text), pat),
{
    if text.len() > 0 && text.last() == '/' {
        if contains_seq(text.drop_last(), pat) {
            lemma_contains_drop_last(text, pat);
        }
    }
}

/// A suffix of `text` is also a suffix of any extension of `text` to the
/// left.
pub proof fn lemma_suffix_of_concat(prefix: Seq<char>, text: Seq<char>, suf: Seq<char>)
    requires
        suffix_of(text, suf),
    ensures
        suffix_of(prefix + text, suf),
{
    let whole = prefix + text;
    assert(whole.subrange(whole.len() - suf.len(), whole.len() as int) =~= text.subrange(
        text.len() - suf.len(),
        text.len() as int,
    ));
}

/// Compares `pat` with the slice of `text` that begins at position `i`.
pub fn matches_at(text: &str, pat: &str, i: usize) -> (b: bool)
    requires
        i + pat@.len() <= text@.len(),
    ensures
        b == contains_at(text@, pat@, i as int),
{
    let n = text.unicode_len();
    let m = pat.unicode_len();
    let mut j: usize = 0;
    while j < m
        invariant
            n == text@.len(),
            m == pat@.len(),
            i + m <= n,
            j <= m,
            forall|k: int| 0 <= k < j ==> text@[i + k] == pat@[k],
        decreases m - j,
    {
        if text.get_char(i + j) != pat.get_char(j) {
            assert(text@.subrange(i as int, i + m)[j as int] == text@[i + j]);
            return false;
        }
        j = j + 1;
    }
    assert(text@.subrange(i as int, i + m) =~= pat@);
    true
}

/// Decides whether `pat` occurs in `text` as a contiguous substring.
pub fn contains_sub(text: &str, pat: &str) -> (b: bool)
    ensures
        b == contains_seq(text@, pat@),
{
    let n = text.unicode_len();
    let m = pat.unicode_len();
    if m > n {
        assert(forall|k: int| !contains_at(text@, pat@, k));
        return false;
    }
    if m == 0 {
        assert(text@.subrange(0, 0) =~= pat@);
        assert(contains_at(text@, pat@, 0));
        return true;
    }
    let mut i: usize = 0;
    while i <= n - m
        invariant
            n == text@.len(),
            m == pat@.len(),
            1 <= m <= n,
            i <= n - m + 1,
            forall|k: int| 0 <= k < i ==> !contains_at(text@, pat@, k),
        decreases n - m + 1 - i,
    {
        if matches_at(text, pat, i) {
            assert(contains_at(text@, pat@, i as int));
            return true;
        }
        i = i + 1;
    }
    assert(forall|k: int| !contains_at(text@, pat@, k));
    false
}

/// Decides whether `text` ends with the suffix `suf`.
pub fn ends_with_str(text: &str, suf: &str) -> (b: bool)
    ensures
        b == suffix_of(text@, suf@),
{
    let n = text.unicode_len();
    let m = suf.unicode_len();
    if m > n {
        return false;
    }
    let b = matches_at(text, suf, n - m);
    assert(contains_at(text@, suf@, n - m) == suffix_of(text@, suf@));
    b
}

/// Returns `text` with exactly one trailing '/' removed, if it has one.
pub fn trim_trailing_slash(text: &str) -> (r: String)
    ensures
        r@ == trim_slash(text@),
{
    let n = text.unicode_len();
    if n > 0 && text.get_char(n - 1) == '/' {
        let s = text.substring_char(0, n - 1);
        assert(text@.subrange(0, n - 1) =~= text@.drop_last());
        String::from_str(s)
    } else {
        String::from_str(text)
    }
}

} // verus!
