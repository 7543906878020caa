//! Slash-path decomposition for the `basename`, `extension`, `filename` and
//! `parent` string methods: the final component of a path, the component's
//! stem and extension, and the path with its final component removed, with
//! std's component reading: trailing separators and trailing `.` segments
//! are normalized away, a leading `.` or a final `..` is a component of its
//! own but names no file, and a root alone has neither name nor parent.

use vstd::prelude::*;
use crate::strutil::substr_copy;

verus! {

/// One past the last character of `t` before `i` that is not a `/`.
pub open spec fn strip_end(t: Seq<char>, i: int) -> int
    decreases i,
{
    if i <= 0 || i > t.len() {
        0
    } else if t[i - 1] == '/' {
        strip_end(t, i - 1)
    } else {
        i
    }
}

/// The position of the last occurrence of `c` strictly before `i`.
pub open spec fn spec_rfind_from(t: Seq<char>, c: char, i: int) -> Option<int>
    decreases i,
{
    if i <= 0 || i > t.len() {
        None
    } else if t[i - 1] == c {
        Some(i - 1)
    } else {
        spec_rfind_from(t, c, i - 1)
    }
}

/// One past the end of the last real component before `i`: trailing `/`
/// separators and trailing `.` segments (a `.` preceded by `/`, or a lone
/// leading `.`) are dropped, as std's component reading normalizes them
/// away.
pub open spec fn dot_strip(s: Seq<char>, i: int) -> int
    decreases i,
{
    if i <= 0 || i > s.len() {
        0
    } else if s[i - 1] == '/' {
        dot_strip(s, i - 1)
    } else if s[i - 1] == '.' && (i == 1 || s[i - 2] == '/') {
        dot_strip(s, i - 1)
    } else {
        i
    }
}

/// The final component of the path `s`: the text after the last `/` once
/// trailing separators and `.` segments are dropped. An empty remainder
/// and a final `..` name no file.
pub open spec fn spec_file_name(s: Seq<char>) -> Option<Seq<char>> {
    let e = dot_strip(s, s.len() as int);
    if e == 0 {
        None
    } else {
        let t = s.subrange(0, e);
        let seg = match spec_rfind_from(t, '/', e) {
            Some(si) => t.subrange(si + 1, e),
            None => t,
        };
        if seg == seq!['.', '.'] {
            None
        } else {
            Some(seg)
        }
    }
}

/// The path `s` without its final component: the text before that
/// component with the separators in front of it dropped, kept as `/` alone
/// for a component directly under the root. A path of one component — a
/// bare segment, a `..`, or a lone leading `.` — has the empty path as
/// parent; an empty path, or a root with nothing under it, has none.
pub open spec fn spec_parent(s: Seq<char>) -> Option<Seq<char>> {
    let e = dot_strip(s, s.len() as int);
    if e == 0 {
        if s.len() > 0 && s[0] == '.' {
            Some(Seq::empty())
        } else {
            None
        }
    } else {
        let t = s.subrange(0, e);
        match spec_rfind_from(t, '/', e) {
            None => Some(Seq::empty()),
            Some(si) => {
                let pe = strip_end(s, si);
                if pe == 0 {
                    Some(seq!['/'])
                } else {
                    Some(s.subrange(0, pe))
                }
            },
        }
    }
}

/// The extension of the final component: the text after its last `.`, when
/// that dot is neither absent nor leading.
pub open spec fn spec_extension(s: Seq<char>) -> Option<Seq<char>> {
    match spec_file_name(s) {
        None => None,
        Some(nm) => match spec_rfind_from(nm, '.', nm.len() as int) {
            None => None,
            Some(di) => if di == 0 {
                None
            } else {
                Some(nm.subrange(di + 1, nm.len() as int))
            },
        },
    }
}

/// The stem of the final component: the text before its last `.`, or the
/// whole component when the dot is absent or leading.
pub open spec fn spec_file_stem(s: Seq<char>) -> Option<Seq<char>> {
    match spec_file_name(s) {
        None => None,
        Some(nm) => match spec_rfind_from(nm, '.', nm.len() as int) {
            None => Some(nm),
            Some(di) => if di == 0 {
                Some(nm)
            } else {
                Some(nm.subrange(0, di))
            },
        },
    }
}

proof fn lemma_strip_end_bounds(t: Seq<char>, i: int)
    requires
        0 <= i <= t.len(),
    ensures
        0 <= strip_end(t, i) <= i,
        strip_end(t, i) > 0 ==> t[strip_end(t, i) - 1] != '/',
    decreases i,
{
    if i > 0 && t[i - 1] == '/' {
        lemma_strip_end_bounds(t, i - 1);
    }
}

proof fn lemma_rfind_bounds(t: Seq<char>, c: char, i: int)
    requires
        0 <= i <= t.len(),
    ensures
        spec_rfind_from(t, c, i) matches Some(j) ==> 0 <= j < i && t[j] == c,
    decreases i,
{
    if i > 0 && t[i - 1] != c {
        lemma_rfind_bounds(t, c, i - 1);
    }
}

fn strip_end_exec(s: &str, n: usize) -> (r: usize)
    requires
        n <= s@.len(),
    ensures
        r as int == strip_end(s@, n as int),
        r <= n,
{
    let mut i = n;
    while i > 0 && s.get_char(i - 1) == '/'
        invariant
            n <= s@.len(),
            0 <= i <= n,
            strip_end(s@, n as int) == strip_end(s@, i as int),
        decreases i,
    {
        i -= 1;
    }
    i
}

proof fn lemma_dot_strip_bounds(t: Seq<char>, i: int)
    requires
        0 <= i <= t.len(),
    ensures
        0 <= dot_strip(t, i) <= i,
    decreases i,
{
    if i > 0 && (t[i - 1] == '/' || (t[i - 1] == '.' && (i == 1 || t[i - 2] == '/'))) {
        lemma_dot_strip_bounds(t, i - 1);
    }
}

fn dot_strip_exec(s: &str, n: usize) -> (r: usize)
    requires
        n <= s@.len(),
    ensures
        r as int == dot_strip(s@, n as int),
        r <= n,
{
    let mut i = n;
    loop
        invariant
            n <= s@.len(),
            0 <= i <= n,
            dot_strip(s@, n as int) == dot_strip(s@, i as int),
        decreases i,
    {
        if i == 0 {
            return 0;
        }
        let c = s.get_char(i - 1);
        if c == '/' {
            i -= 1;
        } else if c == '.' && (i == 1 || s.get_char(i - 2) == '/') {
            i -= 1;
        } else {
            return i;
        }
    }
}

fn rfind_exec(s: &str, c: char, from: usize) -> (r: Option<usize>)
    requires
        from <= s@.len(),
    ensures
        match r {
            Some(j) => spec_rfind_from(s@, c, from as int) == Some(j as int),
            None => spec_rfind_from(s@, c, from as int) is None,
        },
{
    let mut i = from;
    while i > 0
        invariant
            from <= s@.len(),
            0 <= i <= from,
            spec_rfind_from(s@, c, from as int) == spec_rfind_from(s@, c, i as int),
        decreases i,
    {
        if s.get_char(i - 1) == c {
            return Some(i - 1);
        }
        i -= 1;
    }
    None
}

/// The final component of the path, as [`spec_file_name`] describes.
pub fn path_file_name(s: &str) -> (r: Option<String>)
    ensures
        match r {
            Some(nm) => spec_file_name(s@) == Some(nm@),
            None => spec_file_name(s@) is None,
        },
{
    let n = s.unicode_len();
    let e = dot_strip_exec(s, n);
    if e == 0 {
        return None;
    }
    proof {
        lemma_dot_strip_bounds(s@, n as int);
    }
    let t = substr_copy(s, 0, e);
    let seg = match rfind_exec(t.as_str(), '/', e) {
        Some(si) => {
            proof {
                lemma_rfind_bounds(t@, '/', e as int);
            }
            substr_copy(t.as_str(), si + 1, e)
        },
        None => t,
    };
    let sn = seg.unicode_len();
    if sn == 2 && seg.as_str().get_char(0) == '.' && seg.as_str().get_char(1) == '.' {
        proof {
            assert(seg@ =~= seq!['.', '.']);
        }
        return None;
    }
    proof {
        assert(seg@ != seq!['.', '.']) by {
            if seg@ == seq!['.', '.'] {
                assert(seg@.len() == 2 && seg@[0] == '.' && seg@[1] == '.');
            }
        }
    }
    Some(seg)
}

/// The path without its final component, as [`spec_parent`] describes.
pub fn path_parent(s: &str) -> (r: Option<String>)
    ensures
        match r {
            Some(p) => spec_parent(s@) == Some(p@),
            None => spec_parent(s@) is None,
        },
{
    let n = s.unicode_len();
    let e = dot_strip_exec(s, n);
    if e == 0 {
        if n > 0 && s.get_char(0) == '.' {
            return Some(String::new());
        }
        return None;
    }
    proof {
        lemma_dot_strip_bounds(s@, n as int);
    }
    let t = substr_copy(s, 0, e);
    match rfind_exec(t.as_str(), '/', e) {
        None => Some(String::new()),
        Some(si) => {
            proof {
                lemma_rfind_bounds(t@, '/', e as int);
                assert(s@.subrange(0, e as int)[si as int] == s@[si as int]);
            }
            let pe = strip_end_exec(s, si);
            proof {
                lemma_strip_end_bounds(s@, si as int);
            }
            if pe == 0 {
                let mut root = String::new();
                crate::strutil::push_char(&mut root, '/');
                proof {
                    assert(root@ =~= seq!['/']);
                }
                Some(root)
            } else {
                Some(substr_copy(s, 0, pe))
            }
        },
    }
}

/// The extension of the final segment, as [`spec_extension`] describes.
pub fn path_extension(s: &str) -> (r: Option<String>)
    ensures
        match r {
            Some(x) => spec_extension(s@) == Some(x@),
            None => spec_extension(s@) is None,
        },
{
    match path_file_name(s) {
        None => None,
        Some(nm) => {
            let ln = nm.unicode_len();
            match rfind_exec(nm.as_str(), '.', ln) {
                None => None,
                Some(di) => {
                    proof {
                        lemma_rfind_bounds(nm@, '.', ln as int);
                    }
                    if di == 0 {
                        None
                    } else {
                        Some(substr_copy(nm.as_str(), di + 1, ln))
                    }
                },
            }
        },
    }
}

/// The stem of the final segment, as [`spec_file_stem`] describes.
pub fn path_file_stem(s: &str) -> (r: Option<String>)
    ensures
        match r {
            Some(x) => spec_file_stem(s@) == Some(x@),
            None => spec_file_stem(s@) is None,
        },
{
    match path_file_name(s) {
        None => None,
        Some(nm) => {
            let ln = nm.unicode_len();
            match rfind_exec(nm.as_str(), '.', ln) {
                None => Some(nm),
                Some(di) => {
                    proof {
                        lemma_rfind_bounds(nm@, '.', ln as int);
                    }
                    if di == 0 {
                        Some(nm)
                    } else {
                        Some(substr_copy(nm.as_str(), 0, di))
                    }
                },
            }
        },
    }
}

} // verus!
