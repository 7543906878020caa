//! Small verified helpers over strings and characters that the rest of the
//! engine builds on.

use vstd::prelude::*;

verus! {

/// Relies on std's `String::push`: appends one character at the end.
#[verifier::external_body]
pub fn push_char(s: &mut String, c: char)
    ensures
        final(s)@ == old(s)@.push(c),
{
    s.push(c);
}

/// Character-for-character equality of two string slices.
pub fn str_eq(a: &str, b: &str) -> (r: bool)
    ensures
        r == (a@ == b@),
{
    let na = a.unicode_len();
    let nb = b.unicode_len();
    if na != nb {
        assert(a@ != b@) by {
            assert(a@.len() != b@.len());
        }
        return false;
    }
    let mut i: usize = 0;
    while i < na
        invariant
            na == a@.len(),
            nb == b@.len(),
            na == nb,
            i <= na,
            forall|j: int| 0 <= j < i ==> a@[j] == b@[j],
        decreases na - i,
    {
        if a.get_char(i) != b.get_char(i) {
            return false;
        }
        i += 1;
    }
    assert(a@ =~= b@);
    true
}

/// Copies the character range `[from, to)` of `s` into an owned string.
pub fn substr_copy(s: &str, from: usize, to: usize) -> (r: String)
    requires
        from <= to <= s@.len(),
    ensures
        r@ == s@.subrange(from as int, to as int),
{
    let piece = s.substring_char(from, to);
    String::from_str(piece)
}

/// The decimal digits.
pub open spec fn is_digit_char(c: char) -> bool {
    48 <= c as int <= 57
}

/// The numeric value of a decimal digit.
pub open spec fn digit_val(c: char) -> int {
    c as int - 48
}

/// The characters that count as whitespace when an engine operation trims a
/// string: the Unicode `White_Space` set.
pub open spec fn is_space_char(c: char) -> bool {
    ||| (9 <= c as int <= 13)
    ||| c == ' '
    ||| c as int == 0x85
    ||| c as int == 0xA0
    ||| c as int == 0x1680
    ||| (0x2000 <= c as int <= 0x200A)
    ||| c as int == 0x2028
    ||| c as int == 0x2029
    ||| c as int == 0x202F
    ||| c as int == 0x205F
    ||| c as int == 0x3000
}

/// Whether `c` is whitespace in the sense of [`is_space_char`].
pub fn is_space(c: char) -> (r: bool)
    ensures
        r == is_space_char(c),
{
    let u = c as u32;
    (9 <= u && u <= 13) || u == 32 || u == 0x85 || u == 0xA0 || u == 0x1680 || (0x2000 <= u
        && u <= 0x200A) || u == 0x2028 || u == 0x2029 || u == 0x202F || u == 0x205F || u == 0x3000
}

/// The position of the first non-whitespace character at or after `i`.
pub open spec fn trim_start_idx(s: Seq<char>, i: int) -> int
    decreases s.len() - i,
{
    if i < 0 || i >= s.len() {
        s.len() as int
    } else if is_space_char(s[i]) {
        trim_start_idx(s, i + 1)
    } else {
        i
    }
}

/// The position one past the last non-whitespace character strictly before `i`.
pub open spec fn trim_end_idx(s: Seq<char>, i: int) -> int
    decreases i,
{
    if i <= 0 || i > s.len() {
        0
    } else if is_space_char(s[i - 1]) {
        trim_end_idx(s, i - 1)
    } else {
        i
    }
}

/// `s` with leading whitespace removed.
pub open spec fn spec_trim_start(s: Seq<char>) -> Seq<char> {
    s.subrange(trim_start_idx(s, 0), s.len() as int)
}

/// `s` with trailing whitespace removed.
pub open spec fn spec_trim_end(s: Seq<char>) -> Seq<char> {
    s.subrange(0, trim_end_idx(s, s.len() as int))
}

/// `s` with both leading and trailing whitespace removed.
pub open spec fn spec_trim(s: Seq<char>) -> Seq<char> {
    let a = trim_start_idx(s, 0);
    let b = trim_end_idx(s, s.len() as int);
    if a <= b {
        s.subrange(a, b)
    } else {
        Seq::empty()
    }
}

/// Strips leading whitespace.
pub fn trim_start_str(s: &str) -> (r: String)
    ensures
        r@ == spec_trim_start(s@),
{
    let n = s.unicode_len();
    let mut i: usize = 0;
    while i < n && is_space(s.get_char(i))
        invariant
            n == s@.len(),
            0 <= i <= n,
            trim_start_idx(s@, 0) == trim_start_idx(s@, i as int),
        decreases n - i,
    {
        i += 1;
    }
    substr_copy(s, i, n)
}

/// Strips trailing whitespace.
pub fn trim_end_str(s: &str) -> (r: String)
    ensures
        r@ == spec_trim_end(s@),
{
    let n = s.unicode_len();
    let mut i: usize = n;
    while i > 0 && is_space(s.get_char(i - 1))
        invariant
            n == s@.len(),
            0 <= i <= n,
            trim_end_idx(s@, n as int) == trim_end_idx(s@, i as int),
        decreases i,
    {
        i -= 1;
    }
    substr_copy(s, 0, i)
}

/// Strips whitespace from both ends.
pub fn trim_str(s: &str) -> (r: String)
    ensures
        r@ == spec_trim(s@),
{
    let n = s.unicode_len();
    let mut a: usize = 0;
    while a < n && is_space(s.get_char(a))
        invariant
            n == s@.len(),
            0 <= a <= n,
            trim_start_idx(s@, 0) == trim_start_idx(s@, a as int),
        decreases n - a,
    {
        a += 1;
    }
    let mut b: usize = n;
    while b > 0 && is_space(s.get_char(b - 1))
        invariant
            n == s@.len(),
            0 <= b <= n,
            trim_end_idx(s@, n as int) == trim_end_idx(s@, b as int),
        decreases b,
    {
        b -= 1;
    }
    if a <= b {
        substr_copy(s, a, b)
    } else {
        String::new()
    }
}

/// The value of the decimal digits of `s` from position `i` on, accumulated
/// left to right onto `acc`.
pub open spec fn dec_val(s: Seq<char>, i: int, acc: int) -> int
    decreases s.len() - i,
{
    if i < 0 || i >= s.len() {
        acc
    } else {
        dec_val(s, i + 1, acc * 10 + digit_val(s[i]))
    }
}

/// The digits of a non-negative assignment count start after an optional
/// leading `+` sign.
pub open spec fn num_body_start(s: Seq<char>) -> int {
    if s.len() > 0 && s[0] == '+' {
        1
    } else {
        0
    }
}

/// Whether `s` is a well-formed decimal that fits in `usize`: an optional
/// leading `+`, then one or more digits, with a value of at most `usize::MAX`.
pub open spec fn parse_usize_ok(s: Seq<char>) -> bool {
    let b = num_body_start(s);
    &&& s.len() > b
    &&& (forall|j: int| b <= j < s.len() ==> is_digit_char(s[j]))
    &&& dec_val(s, b, 0) <= usize::MAX
}

proof fn lemma_dec_val_grows(s: Seq<char>, i: int, acc: int)
    requires
        0 <= acc,
        forall|j: int| i <= j < s.len() ==> is_digit_char(s[j]),
    ensures
        dec_val(s, i, acc) >= acc,
    decreases s.len() - i,
{
    if 0 <= i < s.len() {
        assert(is_digit_char(s[i]));
        lemma_dec_val_grows(s, i + 1, acc * 10 + digit_val(s[i]));
    }
}

/// Parses a non-negative decimal integer as `usize`, accepting an optional
/// leading `+`; yields `None` on an empty body, a non-digit, or overflow.
pub fn parse_usize(s: &str) -> (r: Option<usize>)
    ensures
        match r {
            Some(v) => parse_usize_ok(s@) && v as int == dec_val(s@, num_body_start(s@), 0),
            None => !parse_usize_ok(s@),
        },
{
    let n = s.unicode_len();
    let start: usize = if n > 0 && s.get_char(0) == '+' {
        1
    } else {
        0
    };
    assert(start as int == num_body_start(s@));
    if n == start {
        return None;
    }
    let mut i: usize = start;
    let mut acc: usize = 0;
    while i < n
        invariant
            n == s@.len(),
            start as int == num_body_start(s@),
            start <= i <= n,
            forall|j: int| start <= j < i ==> is_digit_char(s@[j]),
            dec_val(s@, start as int, 0) == dec_val(s@, i as int, acc as int),
        decreases n - i,
    {
        let c = s.get_char(i);
        let u = c as u32;
        if !(48 <= u && u <= 57) {
            assert(!is_digit_char(s@[i as int]));
            return None;
        }
        let d: usize = (u - 48) as usize;
        assert(d == digit_val(s@[i as int]));
        let step = match acc.checked_mul(10) {
            Some(m) => m.checked_add(d),
            None => None,
        };
        match step {
            Some(next) => {
                acc = next;
            },
            None => {
                proof {
                    assert(dec_val(s@, i as int, acc as int) == dec_val(
                        s@,
                        i as int + 1,
                        acc as int * 10 + digit_val(s@[i as int]),
                    ));
                    if forall|j: int| start <= j < s@.len() ==> is_digit_char(s@[j]) {
                        lemma_dec_val_grows(
                            s@,
                            i as int + 1,
                            acc as int * 10 + digit_val(s@[i as int]),
                        );
                    }
                }
                return None;
            },
        }
        i += 1;
    }
    Some(acc)
}

/// The decimal digit character for `d`.
pub open spec fn digit_char(d: int) -> char {
    ((48 + d) as u8) as char
}

/// The decimal representation of the non-negative integer `n`.
pub open spec fn spec_fmt_nat(n: int) -> Seq<char>
    decreases n,
{
    if n < 10 {
        seq![digit_char(if n < 0 { 0 } else { n })]
    } else {
        spec_fmt_nat(n / 10).push(digit_char(n % 10))
    }
}

/// Formats `n` in decimal.
pub fn fmt_usize(n: usize) -> (r: String)
    ensures
        r@ == spec_fmt_nat(n as int),
    decreases n,
{
    if n < 10 {
        let mut s = String::new();
        push_char(&mut s, (48 + n as u8) as char);
        s
    } else {
        let mut s = fmt_usize(n / 10);
        push_char(&mut s, (48 + (n % 10) as u8) as char);
        s
    }
}

/// `s` repeated `n` times.
pub open spec fn spec_repeat(s: Seq<char>, n: int) -> Seq<char>
    decreases n,
{
    if n <= 0 {
        Seq::empty()
    } else {
        spec_repeat(s, n - 1) + s
    }
}

/// Repeats `s` a given number of times.
pub fn repeat_str(s: &str, n: usize) -> (r: String)
    ensures
        r@ == spec_repeat(s@, n as int),
{
    let mut out = String::new();
    let mut i: usize = 0;
    while i < n
        invariant
            0 <= i <= n,
            out@ == spec_repeat(s@, i as int),
        decreases n - i,
    {
        out.append(s);
        i += 1;
    }
    out
}

/// The elements of `parts` from `i` on, each preceded by `sep`.
pub open spec fn spec_join_tail(parts: Seq<Seq<char>>, sep: Seq<char>, i: int) -> Seq<char>
    decreases parts.len() - i,
{
    if i < 0 || i >= parts.len() {
        Seq::empty()
    } else {
        sep + parts[i] + spec_join_tail(parts, sep, i + 1)
    }
}

/// `parts` joined by `sep`: empty for no parts, else the first part followed
/// by each later part preceded by one separator.
pub open spec fn spec_join(parts: Seq<Seq<char>>, sep: Seq<char>) -> Seq<char> {
    if parts.len() == 0 {
        Seq::empty()
    } else {
        parts[0] + spec_join_tail(parts, sep, 1)
    }
}

/// Joins `parts` with the separator `sep`.
pub fn join_strs(parts: &Vec<String>, sep: &str) -> (r: String)
    ensures
        r@ == spec_join(parts.deep_view(), sep@),
{
    let mut out = String::new();
    if parts.len() == 0 {
        return out;
    }
    out.append(parts[0].as_str());
    let mut i: usize = 1;
    while i < parts.len()
        invariant
            1 <= i <= parts.deep_view().len(),
            parts.deep_view().len() == parts@.len(),
            out@ + spec_join_tail(parts.deep_view(), sep@, i as int) == spec_join(
                parts.deep_view(),
                sep@,
            ),
        decreases parts.len() - i,
    {
        out.append(sep);
        out.append(parts[i].as_str());
        i += 1;
    }
    out
}

/// The UTF-8 width of one character.
pub open spec fn char_utf8_len(c: char) -> int {
    if (c as int) < 0x80 {
        1
    } else if (c as int) < 0x800 {
        2
    } else if (c as int) < 0x10000 {
        3
    } else {
        4
    }
}

/// The UTF-8 byte length of the characters of `s` from position `i` on.
pub open spec fn utf8_len_from(s: Seq<char>, i: int) -> int
    decreases s.len() - i,
{
    if i < 0 || i >= s.len() {
        0
    } else {
        char_utf8_len(s[i]) + utf8_len_from(s, i + 1)
    }
}

/// The UTF-8 byte length of `s`.
pub open spec fn utf8_len_of(s: Seq<char>) -> int {
    utf8_len_from(s, 0)
}

proof fn lemma_utf8_len_from_bounds(s: Seq<char>, i: int)
    requires
        0 <= i <= s.len(),
    ensures
        0 <= utf8_len_from(s, i) <= 4 * (s.len() - i),
    decreases s.len() - i,
{
    if i < s.len() {
        lemma_utf8_len_from_bounds(s, i + 1);
    }
}

/// The UTF-8 byte length of the first `upto` characters of `s`.
pub fn utf8_len_prefix(s: &str, upto: usize) -> (r: usize)
    requires
        upto <= s@.len(),
        4 * s@.len() <= usize::MAX,
    ensures
        r as int == utf8_len_of(s@.subrange(0, upto as int)),
{
    let ghost pre = s@.subrange(0, upto as int);
    let mut i: usize = 0;
    let mut total: usize = 0;
    proof {
        lemma_utf8_len_from_bounds(pre, 0);
    }
    while i < upto
        invariant
            upto <= s@.len(),
            4 * s@.len() <= usize::MAX,
            pre == s@.subrange(0, upto as int),
            0 <= i <= upto,
            total as int + utf8_len_from(pre, i as int) == utf8_len_of(pre),
            total as int <= 4 * i,
        decreases upto - i,
    {
        let c = s.get_char(i);
        assert(c == pre[i as int]);
        let u = c as u32;
        let w: usize = if u < 0x80 {
            1
        } else if u < 0x800 {
            2
        } else if u < 0x10000 {
            3
        } else {
            4
        };
        assert(w as int == char_utf8_len(c));
        proof {
            lemma_utf8_len_from_bounds(pre, i as int + 1);
        }
        total += w;
        i += 1;
    }
    total
}

} // verus!
