//! Word division for a line editor: the index ranges of the words of a
//! buffer, where words are separated by unescaped spaces and a backslash
//! joins the following character (the backslash included) to its word.

use vstd::prelude::*;

verus! {

/// The index ranges `(start, end)` of the words of `s` from position `i`
/// on, given that a word open since `ws` is being read. A word that reaches
/// the end of the buffer closes at the buffer's length.
pub open spec fn spec_word_divide(s: Seq<char>, i: int, ws: Option<int>) -> Seq<(int, int)>
    decreases s.len() - i,
{
    if i < 0 || i >= s.len() {
        match ws {
            Some(st) => seq![(st, s.len() as int)],
            None => Seq::empty(),
        }
    } else {
        let c = s[i];
        if c == '\\' && i + 1 < s.len() {
            match ws {
                Some(st) => spec_word_divide(s, i + 2, ws),
                None => spec_word_divide(
                    s,
                    i + 2,
                    if s[i + 1] != ' ' {
                        Some(i)
                    } else {
                        None
                    },
                ),
            }
        } else if c == '\\' {
            spec_word_divide(s, i + 1, ws)
        } else {
            match ws {
                Some(st) => if c == ' ' {
                    seq![(st, i)] + spec_word_divide(s, i + 1, None)
                } else {
                    spec_word_divide(s, i + 1, ws)
                },
                None => spec_word_divide(
                    s,
                    i + 1,
                    if c != ' ' {
                        Some(i)
                    } else {
                        None
                    },
                ),
            }
        }
    }
}

/// The words that remain when a boundary test is pending on the character
/// `c` at position `index`, with the reader already past it at `pos`.
pub open spec fn spec_boundary_words(
    s: Seq<char>,
    pos: int,
    ws: Option<int>,
    c: char,
    index: int,
    escaped: bool,
) -> Seq<(int, int)> {
    match ws {
        Some(st) => if c == ' ' && !escaped {
            seq![(st, index)] + spec_word_divide(s, pos, None)
        } else {
            spec_word_divide(s, pos, ws)
        },
        None => spec_word_divide(
            s,
            pos,
            if c != ' ' {
                Some(index)
            } else {
                None
            },
        ),
    }
}

/// The option's payload widened to `int`.
pub open spec fn ws_int(ws: Option<usize>) -> Option<int> {
    match ws {
        Some(st) => Some(st as int),
        None => None,
    }
}

/// A reader that yields the word ranges of a character buffer one by one.
#[derive(Debug)]
pub struct WordDivide {
    pub chars: Vec<char>,
    pub pos: usize,
    pub word_start: Option<usize>,
}

impl WordDivide {
    /// The reader's position lies within the buffer.
    pub open spec fn wf(self) -> bool {
        self.pos <= self.chars@.len()
    }

    /// Starts a reader at the head of the buffer.
    pub fn new(chars: Vec<char>) -> (r: WordDivide)
        ensures
            r.wf(),
            r.chars == chars,
            r.pos == 0,
            r.word_start is None,
    {
        WordDivide { chars, pos: 0, word_start: None }
    }

    /// Decides whether the character `c` at position `index` ends the open
    /// word: an unescaped space does; anything else continues the scan. With
    /// no word open, a non-space starts one at `index`.
    pub fn check_boundary(&mut self, c: char, index: usize, escaped: bool) -> (r: Option<
        (usize, usize),
    >)
        requires
            old(self).wf(),
        ensures
            final(self).wf(),
            final(self).chars == old(self).chars,
            final(self).pos >= old(self).pos,
            old(self).word_start is Some && c == ' ' && !escaped ==> r == Some(
                (old(self).word_start->0, index),
            ) && final(self).word_start is None && final(self).pos == old(self).pos,
            ({
                let words = spec_boundary_words(
                    old(self).chars@,
                    old(self).pos as int,
                    ws_int(old(self).word_start),
                    c,
                    index as int,
                    escaped,
                );
                match r {
                    Some(w) => words == seq![(w.0 as int, w.1 as int)] + spec_word_divide(
                        old(self).chars@,
                        final(self).pos as int,
                        ws_int(final(self).word_start),
                    ) && (final(self).pos > old(self).pos || final(self).word_start is None),
                    None => words.len() == 0 && spec_word_divide(
                        old(self).chars@,
                        final(self).pos as int,
                        ws_int(final(self).word_start),
                    ).len() == 0,
                }
            }),
        decreases self.chars@.len() - self.pos, 1int,
    {
        if let Some(start) = self.word_start {
            if c == ' ' && !escaped {
                self.word_start = None;
                Some((start, index))
            } else {
                self.next()
            }
        } else {
            if c != ' ' {
                self.word_start = Some(index);
            }
            self.next()
        }
    }

    /// Yields the next word range, or `None` when the buffer is exhausted
    /// with no word open.
    pub fn next(&mut self) -> (r: Option<(usize, usize)>)
        requires
            old(self).wf(),
        ensures
            final(self).wf(),
            final(self).chars == old(self).chars,
            final(self).pos >= old(self).pos,
            ({
                let words = spec_word_divide(
                    old(self).chars@,
                    old(self).pos as int,
                    ws_int(old(self).word_start),
                );
                match r {
                    Some(w) => words == seq![(w.0 as int, w.1 as int)] + spec_word_divide(
                        old(self).chars@,
                        final(self).pos as int,
                        ws_int(final(self).word_start),
                    ) && (final(self).pos > old(self).pos || (old(self).word_start is Some
                        && final(self).word_start is None)),
                    None => words.len() == 0 && spec_word_divide(
                        old(self).chars@,
                        final(self).pos as int,
                        ws_int(final(self).word_start),
                    ).len() == 0,
                }
            }),
        decreases self.chars@.len() - self.pos, 0int,
    {
        let n = self.chars.len();
        if self.pos >= n {
            let ws = self.word_start;
            self.word_start = None;
            match ws {
                Some(st) => Some((st, n)),
                None => None,
            }
        } else {
            let i = self.pos;
            let c = self.chars[i];
            if c == '\\' {
                if i + 1 < n {
                    let cnext = self.chars[i + 1];
                    self.pos = i + 2;
                    self.check_boundary(cnext, i, true)
                } else {
                    self.pos = i + 1;
                    self.next()
                }
            } else {
                self.pos = i + 1;
                self.check_boundary(c, i, false)
            }
        }
    }
}

/// The word ranges of a whole buffer, in order.
pub fn word_divide(chars: Vec<char>) -> (r: Vec<(usize, usize)>)
    ensures
        r@.map_values(|p: (usize, usize)| (p.0 as int, p.1 as int)) == spec_word_divide(
            chars@,
            0,
            None,
        ),
{
    let ghost s = chars@;
    let mut wd = WordDivide::new(chars);
    let mut out: Vec<(usize, usize)> = Vec::new();
    proof {
        assert(out@.map_values(|p: (usize, usize)| (p.0 as int, p.1 as int)) =~= Seq::<(
            int,
            int,
        )>::empty());
    }
    loop
        invariant
            s == chars@,
            wd.wf(),
            wd.chars@ == s,
            spec_word_divide(s, 0, None) == out@.map_values(
                |p: (usize, usize)| (p.0 as int, p.1 as int),
            ) + spec_word_divide(s, wd.pos as int, ws_int(wd.word_start)),
        decreases 2 * (s.len() - wd.pos) + (if wd.word_start is Some {
            1int
        } else {
            0int
        }),
    {
        let ghost out0 = out@;
        match wd.next() {
            Some(w) => {
                out.push(w);
                proof {
                    assert(out@.map_values(|p: (usize, usize)| (p.0 as int, p.1 as int))
                        =~= out0.map_values(|p: (usize, usize)| (p.0 as int, p.1 as int)).push(
                        (w.0 as int, w.1 as int),
                    ));
                    assert(out0.map_values(|p: (usize, usize)| (p.0 as int, p.1 as int)).push(
                        (w.0 as int, w.1 as int),
                    ) =~= out0.map_values(|p: (usize, usize)| (p.0 as int, p.1 as int)) + seq![
                        (w.0 as int, w.1 as int),
                    ]);
                }
            },
            None => {
                proof {
                    let tail = spec_word_divide(s, wd.pos as int, ws_int(wd.word_start));
                    assert(tail =~= Seq::<(int, int)>::empty());
                    assert(out@.map_values(|p: (usize, usize)| (p.0 as int, p.1 as int))
                        =~= spec_word_divide(s, 0, None));
                }
                return out;
            },
        }
    }
}

} // verus!
