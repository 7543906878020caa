//! The argument splitter: tokenizes shell-quoted text into value tokens,
//! splitting on spaces that stand outside quotes and outside brackets.
//! Tokens keep their quote and bracket characters; removing them is the
//! expansion step's concern.

use vstd::prelude::*;
use crate::strutil::push_char;

verus! {

/// The token list of `s` from position `i` on. `cur` is the token being
/// accumulated, if one has started; `dq`, `sq` and `bs` record an open double
/// quote, an open single quote and a pending backslash; `depth` counts open
/// brackets. A space at top level (outside quotes and brackets) ends the
/// current token; every other character joins it.
pub open spec fn spec_split_rec(
    s: Seq<char>,
    i: int,
    cur: Option<Seq<char>>,
    dq: bool,
    sq: bool,
    bs: bool,
    depth: int,
) -> Seq<Seq<char>>
    decreases s.len() - i,
{
    if i < 0 || i >= s.len() {
        match cur {
            Some(t) => seq![t],
            None => Seq::empty(),
        }
    } else {
        let c = s[i];
        if cur is None && c == ' ' {
            spec_split_rec(s, i + 1, None, false, false, false, 0)
        } else {
            let t = match cur {
                Some(t) => t,
                None => Seq::empty(),
            };
            if bs {
                spec_split_rec(s, i + 1, Some(t.push(c)), dq, sq, false, depth)
            } else if c == '\\' {
                spec_split_rec(s, i + 1, Some(t.push(c)), dq, sq, true, depth)
            } else if sq {
                spec_split_rec(s, i + 1, Some(t.push(c)), dq, c != '\'', false, depth)
            } else if c == '\'' && !dq {
                spec_split_rec(s, i + 1, Some(t.push(c)), dq, true, false, depth)
            } else if c == '"' {
                spec_split_rec(s, i + 1, Some(t.push(c)), !dq, false, false, depth)
            } else if c == '[' && !dq {
                spec_split_rec(s, i + 1, Some(t.push(c)), false, false, false, depth + 1)
            } else if c == ']' && !dq && depth > 0 {
                spec_split_rec(s, i + 1, Some(t.push(c)), false, false, false, depth - 1)
            } else if c == ' ' && !dq && depth <= 0 {
                seq![t] + spec_split_rec(s, i + 1, None, false, false, false, 0)
            } else {
                spec_split_rec(s, i + 1, Some(t.push(c)), dq, sq, false, depth)
            }
        }
    }
}

/// The value tokens of `s`.
pub open spec fn spec_split_args(s: Seq<char>) -> Seq<Seq<char>> {
    spec_split_rec(s, 0, None, false, false, false, 0)
}

/// Splits `s` into value tokens as [`spec_split_args`] describes.
pub fn split_args(s: &str) -> (r: Vec<String>)
    ensures
        r.deep_view() == spec_split_args(s@),
{
    let n = s.unicode_len();
    let mut out: Vec<String> = Vec::new();
    let mut cur = String::new();
    let mut started = false;
    let mut dq = false;
    let mut sq = false;
    let mut bs = false;
    let mut depth: usize = 0;
    let mut i: usize = 0;
    proof {
        assert(out.deep_view() =~= Seq::<Seq<char>>::empty());
    }
    while i < n
        invariant
            n == s@.len(),
            0 <= i <= n,
            depth <= i,
            !started ==> cur@ == Seq::<char>::empty(),
            !started ==> !dq && !sq && !bs && depth == 0,
            spec_split_args(s@) == out.deep_view() + spec_split_rec(
                s@,
                i as int,
                if started {
                    Some(cur@)
                } else {
                    None
                },
                dq,
                sq,
                bs,
                depth as int,
            ),
        decreases n - i,
    {
        let c = s.get_char(i);
        let ghost out0 = out.deep_view();
        if !started && c == ' ' {
            // skip separating spaces
        } else {
            if !started {
                started = true;
            }
            if bs {
                push_char(&mut cur, c);
                bs = false;
            } else if c == '\\' {
                push_char(&mut cur, c);
                bs = true;
            } else if sq {
                push_char(&mut cur, c);
                if c == '\'' {
                    sq = false;
                }
            } else if c == '\'' && !dq {
                push_char(&mut cur, c);
                sq = true;
            } else if c == '"' {
                push_char(&mut cur, c);
                dq = !dq;
            } else if c == '[' && !dq {
                push_char(&mut cur, c);
                depth += 1;
            } else if c == ']' && !dq && depth > 0 {
                push_char(&mut cur, c);
                depth -= 1;
            } else if c == ' ' && !dq && depth == 0 {
                let done = cur;
                cur = String::new();
                started = false;
                let ghost t = done@;
                out.push(done);
                proof {
                    assert(out.deep_view() =~= out0.push(t));
                    assert(out0.push(t) + spec_split_rec(
                        s@,
                        i as int + 1,
                        None,
                        false,
                        false,
                        false,
                        0,
                    ) =~= out0 + (seq![t] + spec_split_rec(
                        s@,
                        i as int + 1,
                        None,
                        false,
                        false,
                        false,
                        0,
                    )));
                }
            } else {
                push_char(&mut cur, c);
            }
        }
        i += 1;
    }
    if started {
        let ghost t = cur@;
        let ghost out0 = out.deep_view();
        out.push(cur);
        proof {
            assert(out.deep_view() =~= out0.push(t));
            assert(out0.push(t) =~= out0 + seq![t]);
        }
    }
    out
}

} // verus!
