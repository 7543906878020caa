//! The ASCII escape/unescape codec: two one-directional transforms that are
//! exact inverses over the domain stated by [`roundtrip_char`].

use vstd::prelude::*;
use crate::strutil::push_char;

verus! {

/// The fixed table of recognized escape letters: the character each one
/// stands for after a backslash, or `None` for an unrecognized letter.
/// The letter `c` is not in the table; it terminates the scan instead.
pub open spec fn unescape_map(c: char) -> Option<char> {
    if c == '\\' {
        Some('\\')
    } else if c == '\'' {
        Some('\'')
    } else if c == '"' {
        Some('"')
    } else if c == ' ' {
        Some(' ')
    } else if c == 'a' {
        Some(7u8 as char)
    } else if c == 'b' {
        Some(8u8 as char)
    } else if c == 'e' {
        Some(27u8 as char)
    } else if c == 'f' {
        Some(12u8 as char)
    } else if c == 'n' {
        Some('\n')
    } else if c == 'r' {
        Some('\r')
    } else if c == 't' {
        Some('\t')
    } else if c == 'v' {
        Some(11u8 as char)
    } else {
        None
    }
}

/// One left-to-right scan of the unescape transform. `check` records a
/// pending backslash; `acc` is the output built so far. A `\c` sequence
/// discards everything accumulated and ends the scan with an empty result;
/// any character outside 7-bit ASCII the scan reaches, escaped or not,
/// fails the whole call uniformly.
pub open spec fn spec_unescape_rec(s: Seq<char>, check: bool, acc: Seq<char>) -> Option<Seq<char>>
    decreases s.len(),
{
    if s.len() == 0 {
        Some(acc)
    } else {
        let c = s.first();
        let rest = s.drop_first();
        if check {
            if c == 'c' {
                Some(Seq::empty())
            } else if (c as int) > 127 {
                None
            } else {
                match unescape_map(c) {
                    Some(d) => spec_unescape_rec(rest, false, acc.push(d)),
                    None => spec_unescape_rec(rest, false, acc.push('\\').push(c)),
                }
            }
        } else {
            if c == '\\' {
                spec_unescape_rec(rest, true, acc)
            } else if (c as int) <= 127 {
                spec_unescape_rec(rest, false, acc.push(c))
            } else {
                None
            }
        }
    }
}

/// The unescape transform of `s`: `None` is failure.
pub open spec fn spec_unescape(s: Seq<char>) -> Option<Seq<char>> {
    spec_unescape_rec(s, false, Seq::empty())
}

/// The shell-metacharacter punctuation that the escape transform prefixes
/// with a backslash; semicolon and underscore are excluded.
pub open spec fn escaped_punct(u: int) -> bool {
    u != 59 && u != 95 && ((33 <= u < 48) || (58 <= u < 65) || (91 <= u < 97) || (123 <= u < 127))
}

/// The escape form of one ASCII character.
pub open spec fn spec_escape_char(c: char) -> Seq<char> {
    let u = c as int;
    if u == 0 {
        seq!['\\', '0']
    } else if u == 7 {
        seq!['\\', 'a']
    } else if u == 8 {
        seq!['\\', 'b']
    } else if u == 9 {
        seq!['\\', 't']
    } else if u == 10 {
        seq!['\\', 'n']
    } else if u == 11 {
        seq!['\\', 'v']
    } else if u == 12 {
        seq!['\\', 'f']
    } else if u == 13 {
        seq!['\\', 'r']
    } else if u == 27 {
        seq!['\\', 'e']
    } else if escaped_punct(u) {
        seq!['\\', c]
    } else {
        seq![c]
    }
}

/// One left-to-right scan of the escape transform; a character outside 7-bit
/// ASCII fails the whole call.
pub open spec fn spec_escape_rec(s: Seq<char>, acc: Seq<char>) -> Option<Seq<char>>
    decreases s.len(),
{
    if s.len() == 0 {
        Some(acc)
    } else if (s.first() as int) > 127 {
        None
    } else {
        spec_escape_rec(s.drop_first(), acc + spec_escape_char(s.first()))
    }
}

/// The escape transform of `s`: `None` is failure.
pub open spec fn spec_escape(s: Seq<char>) -> Option<Seq<char>> {
    spec_escape_rec(s, Seq::empty())
}

/// Replaces recognized backslash escape sequences by the characters they
/// stand for. A `\c` sequence discards all output and ends the scan; an
/// unrecognized escaped ASCII character passes through with its backslash;
/// any character outside 7-bit ASCII fails the whole call uniformly.
pub fn unescape(input: &str) -> (r: Result<String, &'static str>)
    ensures
        r matches Ok(o) ==> spec_unescape(input@) == Some(o@),
        r is Err ==> spec_unescape(input@) is None,
        r matches Err(m) ==> m@ == "ion: Invalid ASCII character"@,
{
    let n = input.unicode_len();
    let mut out = String::new();
    let mut check = false;
    let mut i: usize = 0;
    proof {
        assert(input@.subrange(0, n as int) =~= input@);
    }
    while i < n
        invariant
            n == input@.len(),
            0 <= i <= n,
            spec_unescape(input@) == spec_unescape_rec(
                input@.subrange(i as int, n as int),
                check,
                out@,
            ),
        decreases n - i,
    {
        let ghost rest = input@.subrange(i as int, n as int);
        proof {
            assert(rest.first() == input@[i as int]);
            assert(rest.drop_first() =~= input@.subrange(i as int + 1, n as int));
        }
        let c = input.get_char(i);
        if check {
            if c == 'c' {
                return Ok(String::new());
            }
            if (c as u32) > 127 {
                return Err("ion: Invalid ASCII character");
            }
            let mapped = if c == '\\' {
                Some('\\')
            } else if c == '\'' {
                Some('\'')
            } else if c == '"' {
                Some('"')
            } else if c == ' ' {
                Some(' ')
            } else if c == 'a' {
                Some(7u8 as char)
            } else if c == 'b' {
                Some(8u8 as char)
            } else if c == 'e' {
                Some(27u8 as char)
            } else if c == 'f' {
                Some(12u8 as char)
            } else if c == 'n' {
                Some('\n')
            } else if c == 'r' {
                Some('\r')
            } else if c == 't' {
                Some('\t')
            } else if c == 'v' {
                Some(11u8 as char)
            } else {
                None
            };
            proof {
                assert(mapped == unescape_map(c));
            }
            match mapped {
                Some(d) => push_char(&mut out, d),
                None => {
                    push_char(&mut out, '\\');
                    push_char(&mut out, c);
                },
            }
            check = false;
        } else {
            if c == '\\' {
                check = true;
            } else if (c as u32) <= 127 {
                push_char(&mut out, c);
            } else {
                return Err("ion: Invalid ASCII character");
            }
        }
        i += 1;
    }
    proof {
        assert(input@.subrange(n as int, n as int) =~= Seq::<char>::empty());
    }
    Ok(out)
}

/// Replaces control characters and shell-metacharacter punctuation by their
/// backslash escape forms; a character outside 7-bit ASCII fails the whole
/// call.
pub fn escape(input: &str) -> (r: Result<String, &'static str>)
    ensures
        r matches Ok(o) ==> spec_escape(input@) == Some(o@),
        r is Err ==> spec_escape(input@) is None,
        r matches Err(m) ==> m@ == "ion: Invalid ASCII character"@,
{
    let n = input.unicode_len();
    let mut out = String::new();
    let mut i: usize = 0;
    proof {
        assert(input@.subrange(0, n as int) =~= input@);
    }
    while i < n
        invariant
            n == input@.len(),
            0 <= i <= n,
            spec_escape(input@) == spec_escape_rec(input@.subrange(i as int, n as int), out@),
        decreases n - i,
    {
        let ghost rest = input@.subrange(i as int, n as int);
        proof {
            assert(rest.first() == input@[i as int]);
            assert(rest.drop_first() =~= input@.subrange(i as int + 1, n as int));
        }
        let c = input.get_char(i);
        let u = c as u32;
        if u > 127 {
            return Err("ion: Invalid ASCII character");
        }
        let ghost out0 = out@;
        if u == 0 {
            push_char(&mut out, '\\');
            push_char(&mut out, '0');
        } else if u == 7 {
            push_char(&mut out, '\\');
            push_char(&mut out, 'a');
        } else if u == 8 {
            push_char(&mut out, '\\');
            push_char(&mut out, 'b');
        } else if u == 9 {
            push_char(&mut out, '\\');
            push_char(&mut out, 't');
        } else if u == 10 {
            push_char(&mut out, '\\');
            push_char(&mut out, 'n');
        } else if u == 11 {
            push_char(&mut out, '\\');
            push_char(&mut out, 'v');
        } else if u == 12 {
            push_char(&mut out, '\\');
            push_char(&mut out, 'f');
        } else if u == 13 {
            push_char(&mut out, '\\');
            push_char(&mut out, 'r');
        } else if u == 27 {
            push_char(&mut out, '\\');
            push_char(&mut out, 'e');
        } else if u != 59 && u != 95 && ((33 <= u && u < 48) || (58 <= u && u < 65) || (91 <= u
            && u < 97) || (123 <= u && u < 127)) {
            push_char(&mut out, '\\');
            push_char(&mut out, c);
        } else {
            push_char(&mut out, c);
        }
        proof {
            assert(out@ =~= out0 + spec_escape_char(c));
        }
        i += 1;
    }
    proof {
        assert(input@.subrange(n as int, n as int) =~= Seq::<char>::empty());
    }
    Ok(out)
}

/// The characters over which escaping followed by unescaping returns the
/// original text: the named control characters bell, backspace, tab,
/// newline, vertical tab, form feed, carriage return and escape, and the
/// printable ASCII characters other than the escaped punctuation — of that
/// punctuation only backslash and the two quotes return unchanged.
pub open spec fn roundtrip_char(c: char) -> bool {
    let u = c as int;
    ||| (7 <= u <= 13)
    ||| u == 27
    ||| (32 <= u <= 126 && !escaped_punct(u))
    ||| c == '\\'
    ||| c == '\''
    ||| c == '"'
}

/// The concatenation of the escape forms of the characters of `s`.
pub open spec fn escape_all(s: Seq<char>) -> Seq<char>
    decreases s.len(),
{
    if s.len() == 0 {
        Seq::empty()
    } else {
        spec_escape_char(s.first()) + escape_all(s.drop_first())
    }
}

proof fn lemma_escape_rec_all(s: Seq<char>, acc: Seq<char>)
    requires
        forall|i: int| 0 <= i < s.len() ==> (s[i] as int) <= 127,
    ensures
        spec_escape_rec(s, acc) == Some(acc + escape_all(s)),
    decreases s.len(),
{
    if s.len() == 0 {
        assert(acc + escape_all(s) =~= acc);
    } else {
        assert(forall|i: int|
            0 <= i < s.drop_first().len() ==> (s.drop_first()[i] as int) <= 127);
        lemma_escape_rec_all(s.drop_first(), acc + spec_escape_char(s.first()));
        assert(acc + spec_escape_char(s.first()) + escape_all(s.drop_first()) =~= acc
            + escape_all(s));
    }
}

proof fn lemma_unescape_one_escaped(c: char, t: Seq<char>, acc: Seq<char>)
    requires
        roundtrip_char(c),
    ensures
        spec_unescape_rec(spec_escape_char(c) + t, false, acc) == spec_unescape_rec(
            t,
            false,
            acc.push(c),
        ),
{
    let e = spec_escape_char(c);
    if e.len() == 1 {
        assert((e + t).first() == c);
        assert((e + t).drop_first() =~= t);
        assert(c != '\\');
    } else {
        assert(e.len() == 2);
        assert(e[0] == '\\');
        assert((e + t).first() == '\\');
        assert((e + t).drop_first() =~= seq![e[1]] + t);
        assert(spec_unescape_rec(e + t, false, acc) == spec_unescape_rec(
            seq![e[1]] + t,
            true,
            acc,
        ));
        assert((seq![e[1]] + t).first() == e[1]);
        assert((seq![e[1]] + t).drop_first() =~= t);
        assert(e[1] != 'c');
        assert(unescape_map(e[1]) == Some(c));
        assert(spec_unescape_rec(seq![e[1]] + t, true, acc) == spec_unescape_rec(
            t,
            false,
            acc.push(c),
        ));
    }
}

proof fn lemma_unescape_escaped_all(s: Seq<char>, t: Seq<char>, acc: Seq<char>)
    requires
        forall|i: int| 0 <= i < s.len() ==> roundtrip_char(#[trigger] s[i]),
    ensures
        spec_unescape_rec(escape_all(s) + t, false, acc) == spec_unescape_rec(t, false, acc + s),
    decreases s.len(),
{
    if s.len() == 0 {
        assert(escape_all(s) + t =~= t);
        assert(acc + s =~= acc);
    } else {
        let c = s.first();
        assert(roundtrip_char(c));
        assert(escape_all(s) + t =~= spec_escape_char(c) + (escape_all(s.drop_first()) + t));
        lemma_unescape_one_escaped(c, escape_all(s.drop_first()) + t, acc);
        lemma_unescape_escaped_all(s.drop_first(), t, acc.push(c));
        assert(acc.push(c) + s.drop_first() =~= acc + s);
    }
}

/// Round trip: over text drawn from the characters of [`roundtrip_char`],
/// escaping and then unescaping returns the original text.
pub proof fn lemma_escape_unescape_roundtrip(s: Seq<char>)
    requires
        forall|i: int| 0 <= i < s.len() ==> roundtrip_char(#[trigger] s[i]),
    ensures
        spec_escape(s) == Some(escape_all(s)),
        spec_unescape(escape_all(s)) == Some(s),
{
    assert(forall|i: int| 0 <= i < s.len() ==> (s[i] as int) <= 127);
    lemma_escape_rec_all(s, Seq::empty());
    assert(Seq::<char>::empty() + escape_all(s) =~= escape_all(s));
    lemma_unescape_escaped_all(s, Seq::empty(), Seq::empty());
    assert(escape_all(s) + Seq::<char>::empty() =~= escape_all(s));
    assert(Seq::<char>::empty() + s =~= s);
}

/// The escape transform fails exactly on text holding a character outside
/// 7-bit ASCII.
pub proof fn lemma_escape_rejects_non_ascii(s: Seq<char>)
    ensures
        spec_escape(s) is None <==> exists|i: int| 0 <= i < s.len() && (#[trigger] s[i] as int)
            > 127,
{
    lemma_escape_rec_none(s, Seq::empty());
}

proof fn lemma_escape_rec_none(s: Seq<char>, acc: Seq<char>)
    ensures
        spec_escape_rec(s, acc) is None <==> exists|i: int| 0 <= i < s.len() && (
        #[trigger] s[i] as int) > 127,
    decreases s.len(),
{
    if s.len() > 0 {
        if (s.first() as int) > 127 {
            assert(0 <= 0 < s.len() && (s[0] as int) > 127);
        } else {
            lemma_escape_rec_none(s.drop_first(), acc + spec_escape_char(s.first()));
            let rest = s.drop_first();
            assert((exists|i: int| 0 <= i < rest.len() && (#[trigger] rest[i] as int) > 127)
                <==> (exists|i: int| 0 <= i < s.len() && (#[trigger] s[i] as int) > 127)) by {
                if exists|i: int| 0 <= i < rest.len() && (#[trigger] rest[i] as int) > 127 {
                    let i = choose|i: int| 0 <= i < rest.len() && (#[trigger] rest[i] as int)
                        > 127;
                    assert(s[i + 1] == rest[i]);
                }
                if exists|i: int| 0 <= i < s.len() && (#[trigger] s[i] as int) > 127 {
                    let i = choose|i: int| 0 <= i < s.len() && (#[trigger] s[i] as int) > 127;
                    assert(i >= 1);
                    assert(rest[i - 1] == s[i]);
                }
            }
        }
    }
}

/// A failing unescape call always names a real offender: the transform is
/// `None` only over text holding a character outside 7-bit ASCII.
pub proof fn lemma_unescape_failure_means_non_ascii(s: Seq<char>)
    ensures
        spec_unescape(s) is None ==> exists|i: int| 0 <= i < s.len() && (#[trigger] s[i] as int)
            > 127,
{
    lemma_unescape_rec_fail_fwd(s, false, Seq::empty());
}

proof fn lemma_unescape_rec_fail_fwd(s: Seq<char>, check: bool, acc: Seq<char>)
    ensures
        spec_unescape_rec(s, check, acc) is None ==> exists|i: int|
            0 <= i < s.len() && (#[trigger] s[i] as int) > 127,
    decreases s.len(),
{
    if s.len() > 0 {
        let rest = s.drop_first();
        if (s.first() as int) > 127 {
            assert(0 <= 0 < s.len() && (s[0] as int) > 127);
        } else if spec_unescape_rec(s, check, acc) is None {
            if check {
                match unescape_map(s.first()) {
                    Some(d) => lemma_unescape_rec_fail_fwd(rest, false, acc.push(d)),
                    None => lemma_unescape_rec_fail_fwd(
                        rest,
                        false,
                        acc.push('\\').push(s.first()),
                    ),
                }
            } else {
                if s.first() == '\\' {
                    lemma_unescape_rec_fail_fwd(rest, true, acc);
                } else {
                    lemma_unescape_rec_fail_fwd(rest, false, acc.push(s.first()));
                }
            }
            if exists|i: int| 0 <= i < rest.len() && (#[trigger] rest[i] as int) > 127 {
                let i = choose|i: int| 0 <= i < rest.len() && (#[trigger] rest[i] as int) > 127;
                assert(s[i + 1] == rest[i]);
            }
        }
    }
}

/// Over text without the letter `c` — so no `\c` sequence can end the scan
/// early — the unescape transform fails exactly on text holding a character
/// outside 7-bit ASCII, escaped or not, just as the escape transform does.
pub proof fn lemma_unescape_rejects_non_ascii(s: Seq<char>)
    requires
        forall|i: int| 0 <= i < s.len() ==> s[i] != 'c',
    ensures
        spec_unescape(s) is None <==> exists|i: int| 0 <= i < s.len() && (#[trigger] s[i] as int)
            > 127,
{
    lemma_unescape_failure_means_non_ascii(s);
    lemma_unescape_rec_fail_rev(s, false, Seq::empty());
}

proof fn lemma_unescape_rec_fail_rev(s: Seq<char>, check: bool, acc: Seq<char>)
    requires
        forall|i: int| 0 <= i < s.len() ==> s[i] != 'c',
    ensures
        (exists|i: int| 0 <= i < s.len() && (#[trigger] s[i] as int) > 127)
            ==> spec_unescape_rec(s, check, acc) is None,
    decreases s.len(),
{
    if s.len() > 0 && exists|i: int| 0 <= i < s.len() && (#[trigger] s[i] as int) > 127 {
        let rest = s.drop_first();
        assert(forall|i: int| 0 <= i < rest.len() ==> rest[i] != 'c') by {
            assert(forall|i: int| 0 <= i < rest.len() ==> rest[i] == s[i + 1]);
        }
        if (s.first() as int) > 127 {
        } else {
            assert(exists|i: int| 0 <= i < rest.len() && (#[trigger] rest[i] as int) > 127) by {
                let i = choose|i: int| 0 <= i < s.len() && (#[trigger] s[i] as int) > 127;
                assert(i >= 1);
                assert(rest[i - 1] == s[i]);
            }
            if check {
                assert(s.first() != 'c');
                match unescape_map(s.first()) {
                    Some(d) => lemma_unescape_rec_fail_rev(rest, false, acc.push(d)),
                    None => lemma_unescape_rec_fail_rev(
                        rest,
                        false,
                        acc.push('\\').push(s.first()),
                    ),
                }
            } else {
                if s.first() == '\\' {
                    lemma_unescape_rec_fail_rev(rest, true, acc);
                } else {
                    lemma_unescape_rec_fail_rev(rest, false, acc.push(s.first()));
                }
            }
        }
    }
}

} // verus!
