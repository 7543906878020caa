//! Verified substring search and replacement.

use vstd::prelude::*;
use crate::strutil::{push_char, substr_copy, utf8_len_of, utf8_len_prefix};

verus! {

/// Whether `pat` occurs in `s` starting at position `i`.
pub open spec fn is_match_at(s: Seq<char>, pat: Seq<char>, i: int) -> bool {
    0 <= i && i + pat.len() <= s.len() && s.subrange(i, i + pat.len()) == pat
}

/// The least position `>= i` at which `pat` occurs in `s`.
pub open spec fn spec_find(s: Seq<char>, pat: Seq<char>, i: int) -> Option<int>
    decreases s.len() - i,
{
    if i < 0 || i + pat.len() > s.len() {
        None
    } else if pat.len() == 0 {
        Some(i)
    } else if is_match_at(s, pat, i) {
        Some(i)
    } else {
        spec_find(s, pat, i + 1)
    }
}

/// Whether `pat` occurs anywhere in `s`.
pub open spec fn spec_contains(s: Seq<char>, pat: Seq<char>) -> bool {
    exists|i: int| is_match_at(s, pat, i)
}

/// Whether `p` is a prefix of `s`.
pub open spec fn has_prefix(s: Seq<char>, p: Seq<char>) -> bool {
    p.len() <= s.len() && s.subrange(0, p.len() as int) == p
}

/// Whether `p` is a suffix of `s`.
pub open spec fn has_suffix(s: Seq<char>, p: Seq<char>) -> bool {
    p.len() <= s.len() && s.subrange(s.len() - p.len(), s.len() as int) == p
}

/// Compares `pat` against `s` at position `i`.
pub fn match_at(s: &str, pat: &str, i: usize) -> (r: bool)
    requires
        i + pat@.len() <= s@.len(),
        s@.len() <= usize::MAX,
    ensures
        r == is_match_at(s@, pat@, i as int),
{
    let m = pat.unicode_len();
    let mut j: usize = 0;
    while j < m
        invariant
            m == pat@.len(),
            i + m <= s@.len(),
            s@.len() <= usize::MAX,
            0 <= j <= m,
            forall|k: int| 0 <= k < j ==> s@[i + k] == pat@[k],
        decreases m - j,
    {
        if s.get_char(i + j) != pat.get_char(j) {
            assert(s@.subrange(i as int, i + m) != pat@) by {
                assert(s@.subrange(i as int, i + m)[j as int] == s@[i + j]);
            }
            return false;
        }
        j += 1;
    }
    assert(s@.subrange(i as int, i + m) =~= pat@);
    true
}

/// Finds the least position at which `pat` occurs in `s`.
pub fn find_sub(s: &str, pat: &str) -> (r: Option<usize>)
    ensures
        match r {
            Some(i) => spec_find(s@, pat@, 0) == Some(i as int),
            None => spec_find(s@, pat@, 0) is None,
        },
{
    let n = s.unicode_len();
    let m = pat.unicode_len();
    if m > n {
        return None;
    }
    let mut i: usize = 0;
    while i <= n - m
        invariant
            n == s@.len(),
            m == pat@.len(),
            m <= n,
            0 <= i <= n - m + 1,
            spec_find(s@, pat@, 0) == spec_find(s@, pat@, i as int),
        decreases n - i,
    {
        if match_at(s, pat, i) {
            return Some(i);
        }
        if m == 0 {
            assert(is_match_at(s@, pat@, i as int)) by {
                assert(s@.subrange(i as int, i as int) =~= pat@);
            }
            assert(false);
        }
        i += 1;
    }
    None
}

/// Whether `pat` occurs anywhere in `s`.
pub fn contains_sub(s: &str, pat: &str) -> (r: bool)
    ensures
        r == spec_contains(s@, pat@),
{
    let r = find_sub(s, pat);
    proof {
        lemma_find_contains(s@, pat@);
    }
    r.is_some()
}

/// `spec_find` from 0 answers exactly the containment question.
proof fn lemma_find_some_bounds(s: Seq<char>, pat: Seq<char>, i: int)
    ensures
        spec_find(s, pat, i) matches Some(j) ==> i <= j && is_match_at(s, pat, j),
    decreases s.len() - i,
{
    if !(i < 0 || i + pat.len() > s.len()) {
        if pat.len() == 0 {
            assert(s.subrange(i, i) =~= pat);
        } else if !is_match_at(s, pat, i) {
            lemma_find_some_bounds(s, pat, i + 1);
        }
    }
}

proof fn lemma_find_none(s: Seq<char>, pat: Seq<char>, i: int)
    requires
        i >= 0,
    ensures
        spec_find(s, pat, i) is None ==> forall|j: int| j >= i ==> !is_match_at(s, pat, j),
    decreases s.len() - i,
{
    if pat.len() > 0 && i + pat.len() <= s.len() && !is_match_at(s, pat, i) {
        lemma_find_none(s, pat, i + 1);
    }
}

proof fn lemma_find_contains(s: Seq<char>, pat: Seq<char>)
    ensures
        spec_find(s, pat, 0) is Some <==> spec_contains(s, pat),
{
    lemma_find_some_bounds(s, pat, 0);
    lemma_find_none(s, pat, 0);
    if spec_contains(s, pat) {
        let j = choose|j: int| is_match_at(s, pat, j);
        assert(j >= 0);
    }
}

/// A found position lies within `s`, with room for the pattern after it.
pub proof fn lemma_spec_find_in_range(s: Seq<char>, pat: Seq<char>, j: int)
    requires
        spec_find(s, pat, 0) == Some(j),
    ensures
        0 <= j && j + pat.len() <= s.len(),
        is_match_at(s, pat, j),
{
    lemma_find_some_bounds(s, pat, 0);
    if pat.len() == 0 {
        assert(s.subrange(j, j) =~= pat);
    }
}

/// Tests whether `s` begins with `p`.
pub fn starts_with_str(s: &str, p: &str) -> (r: bool)
    ensures
        r == has_prefix(s@, p@),
{
    let n = s.unicode_len();
    let m = p.unicode_len();
    if m > n {
        return false;
    }
    match_at(s, p, 0)
}

/// Tests whether `s` ends with `p`.
pub fn ends_with_str(s: &str, p: &str) -> (r: bool)
    ensures
        r == has_suffix(s@, p@),
{
    let n = s.unicode_len();
    let m = p.unicode_len();
    if m > n {
        return false;
    }
    match_at(s, p, n - m)
}

/// The byte offset of the first occurrence of `pat` in `s`, counted over the
/// UTF-8 encoding of `s`, as the `find` string method reports it.
pub open spec fn spec_find_offset(s: Seq<char>, pat: Seq<char>) -> Option<int> {
    match spec_find(s, pat, 0) {
        Some(i) => Some(utf8_len_of(s.subrange(0, i))),
        None => None,
    }
}

/// Finds `pat` in `s` and reports the byte offset of the match. A text so
/// long that its encoding could not be addressed reports no match.
pub fn find_byte_offset(s: &str, pat: &str) -> (r: Option<usize>)
    ensures
        match r {
            Some(o) => spec_find_offset(s@, pat@) == Some(o as int),
            None => spec_find_offset(s@, pat@) is None || 4 * s@.len() > usize::MAX,
        },
{
    let n = s.unicode_len();
    if n > usize::MAX / 4 {
        return None;
    }
    match find_sub(s, pat) {
        Some(i) => {
            proof {
                lemma_find_some_bounds(s@, pat@, 0);
            }
            Some(utf8_len_prefix(s, i))
        },
        None => None,
    }
}

/// One step of replacement with a non-empty pattern: the text up to position
/// `i` has been rewritten into `acc`; at most `cnt` replacements remain, where
/// a negative `cnt` means "unlimited".
pub open spec fn spec_replace_scan(
    s: Seq<char>,
    from: Seq<char>,
    to: Seq<char>,
    i: int,
    cnt: int,
    acc: Seq<char>,
) -> Seq<char>
    decreases s.len() - i,
{
    if from.len() == 0 || i < 0 || i + from.len() > s.len() {
        acc + s.subrange(if 0 <= i <= s.len() {
            i
        } else {
            s.len() as int
        }, s.len() as int)
    } else if cnt != 0 && is_match_at(s, from, i) {
        spec_replace_scan(s, from, to, i + from.len(), if cnt > 0 {
            cnt - 1
        } else {
            cnt
        }, acc + to)
    } else {
        spec_replace_scan(s, from, to, i + 1, cnt, acc.push(s[i]))
    }
}

/// Replacement with an empty pattern, which matches at every character
/// boundary of `s`, including both ends.
pub open spec fn spec_replace_empty(s: Seq<char>, to: Seq<char>, cnt: int) -> Seq<char>
    decreases s.len(),
{
    if cnt == 0 {
        s
    } else if s.len() == 0 {
        to
    } else {
        to + seq![s[0]] + spec_replace_empty(s.drop_first(), to, if cnt > 0 {
            cnt - 1
        } else {
            cnt
        })
    }
}

/// `s` with its first `cnt` occurrences of `from` (all of them, if `cnt` is
/// negative) replaced by `to`, scanning left to right without overlap.
pub open spec fn spec_replacen(s: Seq<char>, from: Seq<char>, to: Seq<char>, cnt: int) -> Seq<
    char,
> {
    if from.len() == 0 {
        spec_replace_empty(s, to, cnt)
    } else {
        spec_replace_scan(s, from, to, 0, cnt, Seq::empty())
    }
}

/// `s` with every occurrence of `from` replaced by `to`.
pub open spec fn spec_replace(s: Seq<char>, from: Seq<char>, to: Seq<char>) -> Seq<char> {
    spec_replacen(s, from, to, -1)
}

fn replace_scan(s: &str, from: &str, to: &str, limited: bool, n: usize) -> (r: String)
    requires
        from@.len() > 0,
    ensures
        r@ == spec_replace_scan(s@, from@, to@, 0, if limited {
            n as int
        } else {
            -1
        }, Seq::<char>::empty()),
{
    let slen = s.unicode_len();
    let flen = from.unicode_len();
    let mut out = String::new();
    let mut i: usize = 0;
    let mut left: usize = n;
    let ghost cnt0: int = if limited {
        n as int
    } else {
        -1
    };
    while slen - i >= flen
        invariant
            slen == s@.len(),
            flen == from@.len(),
            flen > 0,
            0 <= i <= slen,
            limited ==> left <= n,
            spec_replace_scan(s@, from@, to@, 0, cnt0, Seq::<char>::empty())
                == spec_replace_scan(s@, from@, to@, i as int, if limited {
                left as int
            } else {
                -1
            }, out@),
        decreases slen - i,
    {
        let can = if limited {
            left > 0
        } else {
            true
        };
        if can && match_at(s, from, i) {
            out.append(to);
            i += flen;
            if limited {
                left -= 1;
            }
        } else {
            push_char(&mut out, s.get_char(i));
            i += 1;
        }
    }
    let tail = substr_copy(s, i, slen);
    out.append(tail.as_str());
    out
}

/// Replaces every occurrence of `from` in `s` by `to`.
pub fn replace_str(s: &str, from: &str, to: &str) -> (r: String)
    ensures
        r@ == spec_replace(s@, from@, to@),
{
    if from.unicode_len() == 0 {
        replace_empty(s, to, false, 0)
    } else {
        replace_scan(s, from, to, false, 0)
    }
}

/// Replaces the first `n` occurrences of `from` in `s` by `to`.
pub fn replacen_str(s: &str, from: &str, to: &str, n: usize) -> (r: String)
    ensures
        r@ == spec_replacen(s@, from@, to@, n as int),
{
    if from.unicode_len() == 0 {
        replace_empty(s, to, true, n)
    } else {
        replace_scan(s, from, to, true, n)
    }
}

fn replace_empty(s: &str, to: &str, limited: bool, n: usize) -> (r: String)
    ensures
        r@ == spec_replace_empty(s@, to@, if limited {
            n as int
        } else {
            -1
        }),
{
    let slen = s.unicode_len();
    let mut out = String::new();
    let mut i: usize = 0;
    let mut left: usize = n;
    let ghost cnt0: int = if limited {
        n as int
    } else {
        -1
    };
    proof {
        assert(s@.subrange(0, slen as int) =~= s@);
    }
    while i < slen
        invariant
            slen == s@.len(),
            0 <= i <= slen,
            cnt0 == if limited {
                n as int
            } else {
                -1
            },
            spec_replace_empty(s@, to@, cnt0) == out@ + spec_replace_empty(
                s@.subrange(i as int, slen as int),
                to@,
                if limited {
                    left as int
                } else {
                    -1
                },
            ),
        decreases slen - i,
    {
        let ghost rest = s@.subrange(i as int, slen as int);
        let stop = limited && left == 0;
        if stop {
            let tail = substr_copy(s, i, slen);
            out.append(tail.as_str());
            proof {
                assert(spec_replace_empty(rest, to@, 0) == rest);
                assert(out@ =~= spec_replace_empty(s@, to@, cnt0));
            }
            return out;
        }
        let ghost out0 = out@;
        let ghost cnt_now: int = if limited {
            left as int
        } else {
            -1
        };
        out.append(to);
        push_char(&mut out, s.get_char(i));
        proof {
            assert(rest.len() > 0);
            assert(rest[0] == s@[i as int]);
            assert(rest.drop_first() =~= s@.subrange(i as int + 1, slen as int));
            assert(out@ + spec_replace_empty(rest.drop_first(), to@, if cnt_now > 0 {
                cnt_now - 1
            } else {
                cnt_now
            }) =~= out0 + spec_replace_empty(rest, to@, cnt_now));
        }
        i += 1;
        if limited && left > 0 {
            left -= 1;
        }
    }
    let ghost rest = s@.subrange(i as int, slen as int);
    assert(rest =~= Seq::<char>::empty());
    if limited && left == 0 {
        assert(spec_replace_empty(rest, to@, 0) =~= Seq::<char>::empty());
    } else {
        out.append(to);
    }
    out
}

} // verus!
