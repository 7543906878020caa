//! The string-expansion method dispatcher: resolves a variable or compound
//! expression through a caller-supplied [`Expander`] capability, performs one
//! named text operation, and appends the result to a caller-owned output
//! buffer. Failures go to the caller as [`MethodError`] values and leave the
//! buffer untouched for that call.

use vstd::prelude::*;
use crate::codec::{escape, spec_unescape, unescape};
use crate::search::{contains_sub, ends_with_str, find_byte_offset, starts_with_str};
use crate::splitter::split_args;
use crate::strutil::{
    dec_val, fmt_usize, join_strs, num_body_start, parse_usize, parse_usize_ok, push_char,
    repeat_str, spec_fmt_nat, spec_join, str_eq, substr_copy, trim_end_str, trim_start_str,
    trim_str,
    utf8_len_of, utf8_len_prefix,
};
use crate::unicode::{grapheme_clusters, graphemes_of, to_lowercase_str, to_uppercase_str};

verus! {

/// A result selection: all of a sequence-valued result, one grapheme or
/// element, or a clamped range of them.
#[derive(Debug, PartialEq, Eq, Clone)]
pub enum Select {
    All,
    Index(usize),
    Range(usize, Option<usize>),
}

/// The host-supplied capability that resolves references: the scalar text of
/// a bare variable, and the array value of a bare variable under a
/// selection. A host that stores no variables can leave both unanswered.
pub trait Expander {
    fn string(&self, variable: &str, quoted: bool) -> (r: Option<String>);

    fn array(&self, variable: &str, selection: &Select) -> (r: Option<Vec<String>>);
}

/// The closed set of dispatch failures. Each is reported to the caller;
/// none writes to the output buffer.
#[derive(Debug, PartialEq, Eq)]
pub enum MethodError {
    /// The `repeat` pattern is not a non-negative integer.
    RepeatInvalidNumber,
    /// `replace` was given fewer than two pattern words.
    ReplaceTwoArguments,
    /// `replacen` was given fewer than three pattern words.
    ReplacenThreeArguments,
    /// The third `replacen` word is not a non-negative integer.
    ReplacenInvalidNumber,
    /// `regex_replace` was given fewer than two pattern words.
    RegexTwoArguments,
    /// The `regex_replace` pattern does not compile; carries that pattern.
    InvalidRegex(String),
    /// The codec met a byte outside 7-bit ASCII.
    InvalidAscii,
    /// The method name is not in the catalogue.
    UnknownMethod,
}

/// What [`MethodError::message`] says for each failure.
pub open spec fn spec_method_message(e: MethodError) -> Seq<char> {
    match e {
        MethodError::RepeatInvalidNumber => "ion: value supplied to $repeat() is not a valid positive integer"@,
        MethodError::ReplaceTwoArguments => "ion: replace: two arguments are required"@,
        MethodError::ReplacenThreeArguments => "ion: replacen: three arguments required"@,
        MethodError::ReplacenInvalidNumber => "ion: replacen: third argument isn't a valid integer"@,
        MethodError::RegexTwoArguments => "ion: regex_replace: two arguments required"@,
        MethodError::InvalidRegex(p) => "ion: regex_replace: error in regular expression "@ + p@,
        MethodError::InvalidAscii => "ion: Invalid ASCII character"@,
        MethodError::UnknownMethod => "ion: method namespace not found"@,
    }
}

impl MethodError {
    /// The diagnostic line for this failure.
    pub fn message(&self) -> (r: String)
        ensures
            r@ == spec_method_message(*self),
    {
        match self {
            MethodError::RepeatInvalidNumber => String::from_str(
                "ion: value supplied to $repeat() is not a valid positive integer",
            ),
            MethodError::ReplaceTwoArguments => String::from_str(
                "ion: replace: two arguments are required",
            ),
            MethodError::ReplacenThreeArguments => String::from_str(
                "ion: replacen: three arguments required",
            ),
            MethodError::ReplacenInvalidNumber => String::from_str(
                "ion: replacen: third argument isn't a valid integer",
            ),
            MethodError::RegexTwoArguments => String::from_str(
                "ion: regex_replace: two arguments required",
            ),
            MethodError::InvalidRegex(p) => {
                let mut s = String::from_str("ion: regex_replace: error in regular expression ");
                s.append(p.as_str());
                s
            },
            MethodError::InvalidAscii => String::from_str("ion: Invalid ASCII character"),
            MethodError::UnknownMethod => String::from_str("ion: method namespace not found"),
        }
    }
}

/// Whether a reference is a compound expression rather than a bare variable
/// name: it opens with a sigil, a quote, or a bracket.
pub open spec fn spec_is_expression(s: Seq<char>) -> bool {
    s.len() > 0 && (s[0] == '$' || s[0] == '@' || s[0] == '"' || s[0] == '\'' || s[0] == '[')
}

/// Classifies a reference as [`spec_is_expression`] describes.
pub fn is_expression(s: &str) -> (r: bool)
    ensures
        r == spec_is_expression(s@),
{
    if s.unicode_len() == 0 {
        return false;
    }
    let c = s.get_char(0);
    c == '$' || c == '@' || c == '"' || c == '\'' || c == '['
}

/// Whether `c` can stand in a variable name.
pub open spec fn spec_is_name_char(c: char) -> bool {
    (48 <= c as int <= 57) || (65 <= c as int <= 90) || (97 <= c as int <= 122) || c == '_'
}

fn is_name_char(c: char) -> (r: bool)
    ensures
        r == spec_is_name_char(c),
{
    let u = c as u32;
    (48 <= u && u <= 57) || (65 <= u && u <= 90) || (97 <= u && u <= 122) || u == 95
}

/// Whether a token is free of `$`, so that its rewriting never consults the
/// expander.
pub open spec fn spec_dollar_free(t: Seq<char>) -> bool {
    forall|i: int| 0 <= i < t.len() ==> #[trigger] t[i] != '$'
}

/// Quote removal over one `$`-free token, scanned from position `i` with
/// `sq`/`dq` recording an open single or double quote: quote characters fall
/// away, everything between them stays.
pub open spec fn spec_unquote_rec(
    t: Seq<char>,
    i: int,
    sq: bool,
    dq: bool,
    acc: Seq<char>,
) -> Seq<char>
    decreases t.len() - i,
{
    if i < 0 || i >= t.len() {
        acc
    } else {
        let c = t[i];
        if sq {
            if c == '\'' {
                spec_unquote_rec(t, i + 1, false, dq, acc)
            } else {
                spec_unquote_rec(t, i + 1, true, dq, acc.push(c))
            }
        } else if c == '\'' && !dq {
            spec_unquote_rec(t, i + 1, true, dq, acc)
        } else if c == '"' {
            spec_unquote_rec(t, i + 1, sq, !dq, acc)
        } else {
            spec_unquote_rec(t, i + 1, sq, dq, acc.push(c))
        }
    }
}

/// A `$`-free token with its quote characters removed.
pub open spec fn spec_unquote(t: Seq<char>) -> Seq<char> {
    spec_unquote_rec(t, 0, false, false, Seq::empty())
}

/// Rewrites one token: quotes fall away, and `$name` references are replaced
/// by the expander's scalar text for `name` (empty when it knows none).
/// Inside single quotes everything is literal; inside double quotes only
/// `$name` is special. A token free of `$` never consults the expander: its
/// rewriting is exactly its quote removal.
pub fn interpolate_token<E: Expander>(t: &str, expand: &E, quoted: bool) -> (r: String)
    ensures
        spec_dollar_free(t@) ==> r@ == spec_unquote(t@),
{
    let n = t.unicode_len();
    let mut out = String::new();
    let mut i: usize = 0;
    let mut sq = false;
    let mut dq = false;
    while i < n
        invariant
            n == t@.len(),
            0 <= i <= n,
            spec_dollar_free(t@) ==> spec_unquote(t@) == spec_unquote_rec(
                t@,
                i as int,
                sq,
                dq,
                out@,
            ),
        decreases n - i,
    {
        let c = t.get_char(i);
        if sq {
            if c == '\'' {
                sq = false;
            } else {
                push_char(&mut out, c);
            }
            i += 1;
        } else if c == '\'' && !dq {
            sq = true;
            i += 1;
        } else if c == '"' {
            dq = !dq;
            i += 1;
        } else if c == '$' {
            let mut j = i + 1;
            while j < n && is_name_char(t.get_char(j))
                invariant
                    n == t@.len(),
                    i + 1 <= j <= n,
                decreases n - j,
            {
                j += 1;
            }
            if j == i + 1 {
                push_char(&mut out, c);
            } else {
                let name = substr_copy(t, i + 1, j);
                match expand.string(name.as_str(), quoted) {
                    Some(v) => out.append(v.as_str()),
                    None => {},
                }
            }
            proof {
                assert(!spec_dollar_free(t@));
            }
            i = j;
        } else {
            push_char(&mut out, c);
            i += 1;
        }
    }
    out
}

/// The items one token contributes before any rewriting: a bracketed token
/// contributes its inner tokens; any other token contributes itself.
pub open spec fn spec_token_items(t: Seq<char>) -> Seq<Seq<char>> {
    if t.len() >= 2 && t[0] == '[' && t[t.len() - 1] == ']' {
        crate::splitter::spec_split_args(t.subrange(1, t.len() - 1))
    } else {
        seq![t]
    }
}

/// The items of the tokens from position `i` on, in order.
pub open spec fn spec_items_from(tokens: Seq<Seq<char>>, i: int) -> Seq<Seq<char>>
    decreases tokens.len() - i,
{
    if i < 0 || i >= tokens.len() {
        Seq::empty()
    } else {
        spec_token_items(tokens[i]) + spec_items_from(tokens, i + 1)
    }
}

/// The items an expression denotes before any rewriting: its tokens, with
/// bracketed groups flattened into their inner tokens.
pub open spec fn spec_pattern_items(s: Seq<char>) -> Seq<Seq<char>> {
    spec_items_from(crate::splitter::spec_split_args(s), 0)
}

/// Whether every item of the expression is `$`-free, so that its expansion
/// never consults the expander and is fixed by the text alone.
pub open spec fn spec_df_pattern(s: Seq<char>) -> bool {
    forall|i: int|
        0 <= i < spec_pattern_items(s).len() ==> spec_dollar_free(
            #[trigger] spec_pattern_items(s)[i],
        )
}

/// The items of a `$`-free expression after rewriting: each item with its
/// quotes removed.
pub open spec fn spec_unquoted_items(s: Seq<char>) -> Seq<Seq<char>> {
    spec_pattern_items(s).map_values(|t: Seq<char>| spec_unquote(t))
}

/// Expands a compound expression into an ordered sequence of texts: the
/// expression is tokenized by the argument splitter; a bracketed token
/// contributes each of its inner tokens, rewritten; any other token
/// contributes its own rewriting. Over a `$`-free expression the result is
/// exactly the items with their quotes removed, whatever the expander holds.
pub fn expand_string<E: Expander>(value: &str, expand: &E, quoted: bool) -> (r: Vec<String>)
    ensures
        spec_df_pattern(value@) ==> r.deep_view() == spec_unquoted_items(value@),
{
    let tokens = split_args(value);
    let ghost dv = tokens.deep_view();
    let ghost pitems = spec_pattern_items(value@);
    let ghost mut raw: Seq<Seq<char>> = Seq::empty();
    let mut out: Vec<String> = Vec::new();
    let mut i: usize = 0;
    proof {
        assert(raw + spec_items_from(dv, 0) =~= spec_items_from(dv, 0));
    }
    while i < tokens.len()
        invariant
            dv == tokens.deep_view(),
            dv.len() == tokens@.len(),
            pitems == spec_pattern_items(value@),
            pitems == spec_items_from(dv, 0),
            0 <= i <= tokens@.len(),
            raw + spec_items_from(dv, i as int) == pitems,
            out.deep_view().len() == raw.len(),
            spec_df_pattern(value@) ==> out.deep_view() == raw.map_values(
                |t: Seq<char>| spec_unquote(t),
            ),
        decreases tokens@.len() - i,
    {
        let ghost raw0 = raw;
        proof {
            assert(dv[i as int] == tokens@[i as int]@);
        }
        let t = &tokens[i];
        let tn = t.as_str().unicode_len();
        if tn >= 2 && t.as_str().get_char(0) == '[' && t.as_str().get_char(tn - 1) == ']' {
            let inner = substr_copy(t.as_str(), 1, tn - 1);
            let items = split_args(inner.as_str());
            let ghost idv = items.deep_view();
            proof {
                assert(spec_token_items(dv[i as int]) == idv);
                assert(spec_items_from(dv, i as int) == idv + spec_items_from(dv, i as int + 1));
            }
            let mut j: usize = 0;
            while j < items.len()
                invariant
                    dv == tokens.deep_view(),
                    idv == items.deep_view(),
                    idv.len() == items@.len(),
                    pitems == spec_pattern_items(value@),
                    0 <= i < dv.len(),
                    0 <= j <= items@.len(),
                    raw0 + spec_items_from(dv, i as int) == pitems,
                    spec_items_from(dv, i as int) == idv + spec_items_from(dv, i as int + 1),
                    raw == raw0 + idv.subrange(0, j as int),
                    out.deep_view().len() == raw.len(),
                    spec_df_pattern(value@) ==> out.deep_view() == raw.map_values(
                        |t: Seq<char>| spec_unquote(t),
                    ),
                decreases items@.len() - j,
            {
                proof {
                    if spec_df_pattern(value@) {
                        assert(pitems[raw0.len() + j] == idv[j as int]);
                        assert(0 <= raw0.len() + j < pitems.len());
                        assert(spec_dollar_free(idv[j as int]));
                        assert(idv[j as int] == items@[j as int]@);
                    }
                }
                let piece = interpolate_token(items[j].as_str(), expand, quoted);
                let ghost before = out.deep_view();
                out.push(piece);
                proof {
                    assert(out.deep_view() =~= before.push(piece@));
                    raw = raw.push(idv[j as int]);
                    assert(raw =~= raw0 + idv.subrange(0, j as int + 1));
                    if spec_df_pattern(value@) {
                        assert(out.deep_view() =~= raw.map_values(
                            |t: Seq<char>| spec_unquote(t),
                        ));
                    }
                }
                j += 1;
            }
            proof {
                assert(idv.subrange(0, idv.len() as int) =~= idv);
                assert(raw + spec_items_from(dv, i as int + 1) =~= pitems);
            }
        } else {
            proof {
                assert(spec_token_items(dv[i as int]) =~= seq![dv[i as int]]);
                assert(spec_items_from(dv, i as int) == seq![dv[i as int]] + spec_items_from(
                    dv,
                    i as int + 1,
                ));
                if spec_df_pattern(value@) {
                    assert(pitems[raw0.len() as int] == dv[i as int]);
                    assert(0 <= raw0.len() < pitems.len());
                    assert(spec_dollar_free(dv[i as int]));
                }
            }
            let piece = interpolate_token(t.as_str(), expand, quoted);
            let ghost before = out.deep_view();
            out.push(piece);
            proof {
                assert(out.deep_view() =~= before.push(piece@));
                raw = raw.push(dv[i as int]);
                assert(raw + spec_items_from(dv, i as int + 1) =~= pitems);
                if spec_df_pattern(value@) {
                    assert(out.deep_view() =~= raw.map_values(|t: Seq<char>| spec_unquote(t)));
                }
            }
        }
        i += 1;
    }
    proof {
        assert(spec_items_from(dv, tokens@.len() as int) =~= Seq::<Seq<char>>::empty());
        assert(raw =~= pitems);
        if spec_df_pattern(value@) {
            assert(out.deep_view() =~= spec_unquoted_items(value@));
        }
    }
    out
}

/// The single text a `$`-free pattern denotes: its unquoted items joined by
/// `sep`, then decoded by the unescape transform, with empty text standing
/// in for an undecodable join.
pub open spec fn spec_joined_pattern(s: Seq<char>, sep: Seq<char>) -> Seq<char> {
    match spec_unescape(spec_join(spec_unquoted_items(s), sep)) {
        Some(u) => u,
        None => Seq::empty(),
    }
}

/// A deferred tokenizer over a method's raw pattern text, offering a
/// word-by-word joined view and a bracket-aware array view.
#[derive(Debug)]
pub struct MethodArgs {
    pub args: String,
}

impl MethodArgs {
    /// Wraps the raw pattern text.
    pub fn new(args: &str) -> (r: MethodArgs)
        ensures
            r.args@ == args@,
    {
        MethodArgs { args: String::from_str(args) }
    }

    /// The pattern as one text: its expanded tokens joined by `sep`, with
    /// escape sequences decoded; an undecodable pattern gives empty text.
    /// Over a `$`-free pattern the text is exactly the decoded join of the
    /// unquoted items.
    pub fn join<E: Expander>(&self, sep: &str, expand: &E) -> (r: String)
        ensures
            spec_df_pattern(self.args@) ==> r@ == spec_joined_pattern(self.args@, sep@),
    {
        let parts = expand_string(self.args.as_str(), expand, false);
        let joined = join_strs(&parts, sep);
        match unescape(joined.as_str()) {
            Ok(o) => o,
            Err(_) => String::new(),
        }
    }

    /// The pattern as an array: every expanded token, bracketed groups
    /// flattened. Over a `$`-free pattern the array is exactly the unquoted
    /// items.
    pub fn array<E: Expander>(&self, expand: &E) -> (r: Vec<String>)
        ensures
            spec_df_pattern(self.args@) ==> r.deep_view() == spec_unquoted_items(self.args@),
    {
        expand_string(self.args.as_str(), expand, false)
    }
}

/// One alternative of the `or` method after cleaning: an empty token and a
/// lone comma are discarded, and a trailing comma — a tokenization artifact
/// — is dropped.
pub open spec fn spec_or_clean(e: Seq<char>) -> Option<Seq<char>> {
    if e.len() == 0 || e == seq![','] {
        None
    } else if e.last() == ',' {
        Some(e.drop_last())
    } else {
        Some(e)
    }
}

/// The first alternative from position `i` on that survives cleaning.
pub open spec fn spec_or_first(alts: Seq<Seq<char>>, i: int) -> Option<Seq<char>>
    decreases alts.len() - i,
{
    if i < 0 || i >= alts.len() {
        None
    } else {
        match spec_or_clean(alts[i]) {
            Some(c) => Some(c),
            None => spec_or_first(alts, i + 1),
        }
    }
}

/// What the `or` method outputs: the resolved text itself when non-empty,
/// else the first surviving alternative, else nothing.
pub open spec fn spec_or(first: Seq<char>, alts: Seq<Seq<char>>) -> Option<Seq<char>> {
    if first.len() > 0 {
        Some(first)
    } else {
        spec_or_first(alts, 0)
    }
}

/// The text the `or` method appends: the selected alternative, or nothing.
pub open spec fn spec_or_text(first: Seq<char>, alts: Seq<Seq<char>>) -> Seq<char> {
    match spec_or(first, alts) {
        Some(o) => o,
        None => Seq::empty(),
    }
}

/// Picks the `or` method's output, as [`spec_or`] describes.
pub fn or_select(first: &str, alts: &Vec<String>) -> (r: Option<String>)
    ensures
        match r {
            Some(o) => spec_or(first@, alts.deep_view()) == Some(o@),
            None => spec_or(first@, alts.deep_view()) is None,
        },
{
    proof {
        reveal_strlit(",");
        assert(","@ =~= seq![',']);
    }
    if first.unicode_len() > 0 {
        return Some(String::from_str(first));
    }
    let mut i: usize = 0;
    while i < alts.len()
        invariant
            first@.len() == 0,
            0 <= i <= alts@.len(),
            alts.deep_view().len() == alts@.len(),
            spec_or_first(alts.deep_view(), 0) == spec_or_first(alts.deep_view(), i as int),
        decreases alts@.len() - i,
    {
        let e = alts[i].as_str();
        let en = e.unicode_len();
        proof {
            reveal_strlit(",");
            assert(","@ =~= seq![',']);
            assert(alts.deep_view()[i as int] == alts@[i as int]@);
        }
        if en == 0 || str_eq(e, ",") {
            proof {
                if e@ == ","@ {
                    assert(e@ == seq![',']);
                }
            }
        } else if e.get_char(en - 1) == ',' {
            let c = substr_copy(e, 0, en - 1);
            proof {
                assert(e@.drop_last() =~= e@.subrange(0, en as int - 1));
                if e@ == seq![','] {
                    assert(e@ =~= ","@);
                }
            }
            return Some(c);
        } else {
            return Some(String::from_str(e));
        }
        i += 1;
    }
    None
}

/// The number of grapheme clusters of a text, which the `len` method
/// reports for a scalar.
pub fn grapheme_count(s: &str) -> (r: usize)
    ensures
        r == graphemes_of(s@).len(),
{
    let gs = grapheme_clusters(s);
    proof {
        assert(gs.deep_view().len() == gs@.len());
    }
    gs.len()
}

/// The decimal text of a scalar's length: its grapheme-cluster count, as
/// the `len` method reports it.
pub fn grapheme_count_text(s: &str) -> (r: String)
    ensures
        r@ == spec_fmt_nat(graphemes_of(s@).len() as int),
{
    fmt_usize(grapheme_count(s))
}

/// The decimal text of an array-shaped reference's length: the element
/// count of its expanded sequence, as the `len` method reports it.
pub fn element_count_text(items: &Vec<String>) -> (r: String)
    ensures
        r@ == spec_fmt_nat(items@.len() as int),
{
    fmt_usize(items.len())
}

/// The decimal text of a scalar's raw UTF-8 byte length, as the `len_bytes`
/// method reports it; exact up to the machine limit on addressable text.
pub fn byte_length_text(s: &str) -> (r: String)
    ensures
        4 * s@.len() <= usize::MAX ==> r@ == spec_fmt_nat(utf8_len_of(s@)),
{
    let n = s.unicode_len();
    if n <= usize::MAX / 4 {
        let b = utf8_len_prefix(s, n);
        proof {
            assert(s@.subrange(0, n as int) =~= s@);
        }
        fmt_usize(b)
    } else {
        fmt_usize(s.len())
    }
}

/// The repetition count the `repeat` method reads from its space-joined
/// pattern: the parsed non-negative integer, or the repeat error for a
/// pattern that does not parse as one.
pub fn repeat_count(pat: &str) -> (r: Result<usize, MethodError>)
    ensures
        match r {
            Ok(n) => parse_usize_ok(pat@) && n as int == dec_val(pat@, num_body_start(pat@), 0),
            Err(e) => e == MethodError::RepeatInvalidNumber && !parse_usize_ok(pat@),
        },
{
    match parse_usize(pat) {
        Some(n) => Ok(n),
        None => Err(MethodError::RepeatInvalidNumber),
    }
}

/// The occurrence count the `replacen` method reads from its third pattern
/// word, or the replacen number error for a word that does not parse.
pub fn replacen_count(nth: &str) -> (r: Result<usize, MethodError>)
    ensures
        match r {
            Ok(n) => parse_usize_ok(nth@) && n as int == dec_val(nth@, num_body_start(nth@), 0),
            Err(e) => e == MethodError::ReplacenInvalidNumber && !parse_usize_ok(nth@),
        },
{
    match parse_usize(nth) {
        Some(n) => Ok(n),
        None => Err(MethodError::ReplacenInvalidNumber),
    }
}

/// What `regex_replace` produces from its two pattern words: the text with
/// every match of the pattern replaced, or — exactly when the pattern does
/// not compile — the invalid-regex error naming that pattern.
pub fn regex_output(pattern: &str, text: &str, rep: &str) -> (r: Result<String, MethodError>)
    ensures
        match r {
            Ok(o) => regex_valid(pattern@) && o@ == regex_replaced(pattern@, text@, rep@),
            Err(e) => !regex_valid(pattern@) && (e matches MethodError::InvalidRegex(p) && p@
                == pattern@),
        },
{
    match regex_replace_all(pattern, text, rep) {
        Some(o) => Ok(o),
        None => Err(MethodError::InvalidRegex(String::from_str(pattern))),
    }
}

/// The clusters of `gs` from the last down to position `i`, concatenated.
pub open spec fn spec_concat_rev(gs: Seq<Seq<char>>, i: int) -> Seq<char>
    decreases gs.len() - i,
{
    if i < 0 || i >= gs.len() {
        Seq::empty()
    } else {
        spec_concat_rev(gs, i + 1) + gs[i]
    }
}

/// The text with its grapheme clusters in reverse order: multi-codepoint
/// clusters move as atomic units.
pub fn reverse_graphemes(s: &str) -> (r: String)
    ensures
        r@ == spec_concat_rev(graphemes_of(s@), 0),
{
    let gs = grapheme_clusters(s);
    let n = gs.len();
    proof {
        assert(gs.deep_view().len() == gs@.len());
    }
    let mut out = String::new();
    let mut i: usize = n;
    while i > 0
        invariant
            n == gs@.len(),
            gs.deep_view().len() == gs@.len(),
            gs.deep_view() == graphemes_of(s@),
            0 <= i <= n,
            out@ == spec_concat_rev(graphemes_of(s@), i as int),
        decreases i,
    {
        i -= 1;
        out.append(gs[i].as_str());
        proof {
            assert(gs.deep_view()[i as int] == gs@[i as int]@);
        }
    }
    out
}

/// What a selection takes from a text: everything, one grapheme cluster
/// (nothing, out of range), or a clamped range of clusters.
pub open spec fn spec_selected(text: Seq<char>, sel: Select) -> Seq<char> {
    match sel {
        Select::All => text,
        Select::Index(ix) => {
            let gs = graphemes_of(text);
            if (ix as int) < gs.len() {
                gs[ix as int]
            } else {
                Seq::empty()
            }
        },
        Select::Range(a, ob) => {
            let gs = graphemes_of(text);
            let n = gs.len() as int;
            let st = if (a as int) < n {
                a as int
            } else {
                n
            };
            let en = match ob {
                None => n,
                Some(b) => if (b as int) < st {
                    st
                } else if (b as int) > n {
                    n
                } else {
                    b as int
                },
            };
            gs.subrange(st, en).flatten()
        },
    }
}

/// Appends the selected part of `text` to `output`.
pub fn slice_append(output: &mut String, text: &str, sel: &Select)
    ensures
        final(output)@ == old(output)@ + spec_selected(text@, *sel),
{
    broadcast use vstd::seq_lib::group_seq_properties;

    match sel {
        Select::All => output.append(text),
        Select::Index(ix) => {
            let gs = grapheme_clusters(text);
            proof {
                assert(gs.deep_view().len() == gs@.len());
            }
            if *ix < gs.len() {
                output.append(gs[*ix].as_str());
                proof {
                    assert(gs.deep_view()[*ix as int] == gs@[*ix as int]@);
                }
            } else {
                proof {
                    assert(old(output)@ + spec_selected(text@, *sel) =~= old(output)@);
                }
            }
        },
        Select::Range(a, ob) => {
            let gs = grapheme_clusters(text);
            proof {
                assert(gs.deep_view().len() == gs@.len());
            }
            let n = gs.len();
            let st = if *a < n {
                *a
            } else {
                n
            };
            let en: usize = match ob {
                None => n,
                Some(b) => if *b < st {
                    st
                } else if *b > n {
                    n
                } else {
                    *b
                },
            };
            let ghost dv = gs.deep_view();
            let mut i = st;
            proof {
                assert(dv.subrange(st as int, st as int) =~= Seq::<Seq<char>>::empty());
                assert(Seq::<Seq<char>>::empty().flatten() =~= Seq::<char>::empty());
                assert(old(output)@ + Seq::<char>::empty() =~= old(output)@);
            }
            while i < en
                invariant
                    st <= i <= en <= gs@.len(),
                    dv == gs.deep_view(),
                    dv.len() == gs@.len(),
                    output@ == old(output)@ + dv.subrange(st as int, i as int).flatten(),
                decreases en - i,
            {
                output.append(gs[i].as_str());
                proof {
                    assert(dv[i as int] == gs@[i as int]@);
                    assert(dv.subrange(st as int, i as int + 1) =~= dv.subrange(
                        st as int,
                        i as int,
                    ).push(dv[i as int]));
                    assert(dv.subrange(st as int, i as int).push(dv[i as int]).flatten()
                        =~= dv.subrange(st as int, i as int).flatten() + dv[i as int]) by {
                        broadcast use Seq::lemma_flatten_push;
                    }
                }
                i += 1;
            }
        },
    }
}

} // verus!

use crate::is_array;
use crate::pathops::{path_extension, path_file_name, path_file_stem, path_parent};
use crate::regexes::{regex_replace_all, regex_replaced, regex_valid};

verus! {

/// The buffer after a call extends the buffer before it.
pub open spec fn appended(before: Seq<char>, after: Seq<char>) -> bool {
    after.len() >= before.len() && after.subrange(0, before.len() as int) == before
}

proof fn lemma_appended(a: Seq<char>, b: Seq<char>)
    ensures
        appended(a, a + b),
{
    assert((a + b).subrange(0, a.len() as int) =~= a);
}

proof fn lemma_appended_refl(a: Seq<char>)
    ensures
        appended(a, a),
{
    assert(a.subrange(0, a.len() as int) =~= a);
}

/// Resolves a reference to scalar text: the expander's scalar for the raw
/// reference; else, for a compound expression, its expansion joined with
/// single spaces; else nothing. A compound expression always resolves.
pub fn resolve_scalar<E: Expander>(variable: &str, expand: &E) -> (r: Option<String>)
    ensures
        spec_is_expression(variable@) ==> r is Some,
{
    match expand.string(variable, false) {
        Some(v) => Some(v),
        None => {
            if is_expression(variable) {
                let parts = expand_string(variable, expand, false);
                Some(join_strs(&parts, " "))
            } else {
                None
            }
        },
    }
}

/// Resolves a reference as the `trim`, `repeat` and `replace` family does:
/// the expander's scalar, or else the expansion joined with single spaces,
/// whatever the reference looks like.
pub fn get_var<E: Expander>(variable: &str, expand: &E) -> (r: String) {
    match expand.string(variable, false) {
        Some(v) => v,
        None => {
            let parts = expand_string(variable, expand, false);
            join_strs(&parts, " ")
        },
    }
}

/// The method catalogue: the names `handle` dispatches on. Any other name
/// falls through to the unknown-method failure.
pub open spec fn spec_known_method(m: Seq<char>) -> bool {
    ||| m == "ends_with"@
    ||| m == "contains"@
    ||| m == "starts_with"@
    ||| m == "basename"@
    ||| m == "extension"@
    ||| m == "filename"@
    ||| m == "parent"@
    ||| m == "to_lowercase"@
    ||| m == "to_uppercase"@
    ||| m == "trim"@
    ||| m == "trim_right"@
    ||| m == "trim_left"@
    ||| m == "repeat"@
    ||| m == "replace"@
    ||| m == "replacen"@
    ||| m == "regex_replace"@
    ||| m == "join"@
    ||| m == "len"@
    ||| m == "len_bytes"@
    ||| m == "reverse"@
    ||| m == "find"@
    ||| m == "unescape"@
    ||| m == "escape"@
    ||| m == "or"@
}

/// The three boolean test methods, whose output is always exactly one
/// character.
pub open spec fn spec_boolean_method(m: Seq<char>) -> bool {
    m == "ends_with"@ || m == "contains"@ || m == "starts_with"@
}

/// The relation one of the boolean tests asks about.
pub open spec fn spec_relation_holds(m: Seq<char>, t: Seq<char>, p: Seq<char>) -> bool {
    if m == "ends_with"@ {
        crate::search::has_suffix(t, p)
    } else if m == "contains"@ {
        crate::search::spec_contains(t, p)
    } else {
        crate::search::has_prefix(t, p)
    }
}

/// The character a boolean test appends: `'1'` exactly when the resolved
/// text stands in the method's relation to the space-joined pattern; an
/// unresolvable reference tests false.
pub fn boolean_test_char(method: &str, resolved: &Option<String>, pat: &str) -> (r: char)
    requires
        spec_boolean_method(method@),
    ensures
        r == '1' || r == '0',
        (r == '1') <==> (resolved matches Some(t) && spec_relation_holds(method@, t@, pat@)),
{
    match resolved {
        Some(v) => {
            let hit = if str_eq(method, "ends_with") {
                ends_with_str(v.as_str(), pat)
            } else if str_eq(method, "contains") {
                contains_sub(v.as_str(), pat)
            } else {
                starts_with_str(v.as_str(), pat)
            };
            if hit {
                '1'
            } else {
                '0'
            }
        },
        None => '0',
    }
}

/// Whether a reference carries array shape on its face: it opens with `@` or
/// is bracket-delimited.
pub open spec fn spec_array_shaped_ref(v: Seq<char>) -> bool {
    (v.len() > 0 && v[0] == '@') || crate::is_array_spec(v)
}

/// Which failures each method can report: every error is tied to the one
/// method (or two, for the codec) that raises it. A method that no variant
/// names — the boolean tests, the path methods, the case folds, the trims,
/// `join`, `len`, `len_bytes`, `reverse`, `find` and `or` — therefore
/// always succeeds.
pub open spec fn spec_error_fits(m: Seq<char>, e: MethodError) -> bool {
    match e {
        MethodError::RepeatInvalidNumber => m == "repeat"@,
        MethodError::ReplaceTwoArguments => m == "replace"@,
        MethodError::ReplacenThreeArguments => m == "replacen"@,
        MethodError::ReplacenInvalidNumber => m == "replacen"@,
        MethodError::RegexTwoArguments => m == "regex_replace"@,
        MethodError::InvalidRegex(_) => m == "regex_replace"@,
        MethodError::InvalidAscii => m == "unescape"@ || m == "escape"@,
        MethodError::UnknownMethod => !spec_known_method(m),
    }
}

/// The catalogue names the dispatch contract singles out differ from every
/// other name an arm can establish; proved once so each arm can refute the
/// clauses that are not about it.
proof fn lemma_method_names_distinct()
    ensures
        "ends_with"@ != "repeat"@,
        "ends_with"@ != "replace"@,
        "ends_with"@ != "replacen"@,
        "ends_with"@ != "regex_replace"@,
        "ends_with"@ != "len"@,
        "ends_with"@ != "or"@,
        "contains"@ != "repeat"@,
        "contains"@ != "replace"@,
        "contains"@ != "replacen"@,
        "contains"@ != "regex_replace"@,
        "contains"@ != "len"@,
        "contains"@ != "or"@,
        "starts_with"@ != "repeat"@,
        "starts_with"@ != "replace"@,
        "starts_with"@ != "replacen"@,
        "starts_with"@ != "regex_replace"@,
        "starts_with"@ != "len"@,
        "starts_with"@ != "or"@,
        "basename"@ != "repeat"@,
        "basename"@ != "replace"@,
        "basename"@ != "replacen"@,
        "basename"@ != "regex_replace"@,
        "basename"@ != "len"@,
        "basename"@ != "or"@,
        "extension"@ != "repeat"@,
        "extension"@ != "replace"@,
        "extension"@ != "replacen"@,
        "extension"@ != "regex_replace"@,
        "extension"@ != "len"@,
        "extension"@ != "or"@,
        "filename"@ != "repeat"@,
        "filename"@ != "replace"@,
        "filename"@ != "replacen"@,
        "filename"@ != "regex_replace"@,
        "filename"@ != "len"@,
        "filename"@ != "or"@,
        "parent"@ != "repeat"@,
        "parent"@ != "replace"@,
        "parent"@ != "replacen"@,
        "parent"@ != "regex_replace"@,
        "parent"@ != "len"@,
        "parent"@ != "or"@,
        "to_lowercase"@ != "repeat"@,
        "to_lowercase"@ != "replace"@,
        "to_lowercase"@ != "replacen"@,
        "to_lowercase"@ != "regex_replace"@,
        "to_lowercase"@ != "len"@,
        "to_lowercase"@ != "or"@,
        "to_uppercase"@ != "repeat"@,
        "to_uppercase"@ != "replace"@,
        "to_uppercase"@ != "replacen"@,
        "to_uppercase"@ != "regex_replace"@,
        "to_uppercase"@ != "len"@,
        "to_uppercase"@ != "or"@,
        "trim"@ != "repeat"@,
        "trim"@ != "replace"@,
        "trim"@ != "replacen"@,
        "trim"@ != "regex_replace"@,
        "trim"@ != "len"@,
        "trim"@ != "or"@,
        "trim_right"@ != "repeat"@,
        "trim_right"@ != "replace"@,
        "trim_right"@ != "replacen"@,
        "trim_right"@ != "regex_replace"@,
        "trim_right"@ != "len"@,
        "trim_right"@ != "or"@,
        "trim_left"@ != "repeat"@,
        "trim_left"@ != "replace"@,
        "trim_left"@ != "replacen"@,
        "trim_left"@ != "regex_replace"@,
        "trim_left"@ != "len"@,
        "trim_left"@ != "or"@,
        "repeat"@ != "replace"@,
        "repeat"@ != "replacen"@,
        "repeat"@ != "regex_replace"@,
        "repeat"@ != "len"@,
        "repeat"@ != "or"@,
        "replace"@ != "repeat"@,
        "replace"@ != "replacen"@,
        "replace"@ != "regex_replace"@,
        "replace"@ != "len"@,
        "replace"@ != "or"@,
        "replacen"@ != "repeat"@,
        "replacen"@ != "replace"@,
        "replacen"@ != "regex_replace"@,
        "replacen"@ != "len"@,
        "replacen"@ != "or"@,
        "regex_replace"@ != "repeat"@,
        "regex_replace"@ != "replace"@,
        "regex_replace"@ != "replacen"@,
        "regex_replace"@ != "len"@,
        "regex_replace"@ != "or"@,
        "join"@ != "repeat"@,
        "join"@ != "replace"@,
        "join"@ != "replacen"@,
        "join"@ != "regex_replace"@,
        "join"@ != "len"@,
        "join"@ != "or"@,
        "len"@ != "repeat"@,
        "len"@ != "replace"@,
        "len"@ != "replacen"@,
        "len"@ != "regex_replace"@,
        "len"@ != "or"@,
        "len_bytes"@ != "repeat"@,
        "len_bytes"@ != "replace"@,
        "len_bytes"@ != "replacen"@,
        "len_bytes"@ != "regex_replace"@,
        "len_bytes"@ != "len"@,
        "len_bytes"@ != "or"@,
        "reverse"@ != "repeat"@,
        "reverse"@ != "replace"@,
        "reverse"@ != "replacen"@,
        "reverse"@ != "regex_replace"@,
        "reverse"@ != "len"@,
        "reverse"@ != "or"@,
        "find"@ != "repeat"@,
        "find"@ != "replace"@,
        "find"@ != "replacen"@,
        "find"@ != "regex_replace"@,
        "find"@ != "len"@,
        "find"@ != "or"@,
        "unescape"@ != "repeat"@,
        "unescape"@ != "replace"@,
        "unescape"@ != "replacen"@,
        "unescape"@ != "regex_replace"@,
        "unescape"@ != "len"@,
        "unescape"@ != "or"@,
        "escape"@ != "repeat"@,
        "escape"@ != "replace"@,
        "escape"@ != "replacen"@,
        "escape"@ != "regex_replace"@,
        "escape"@ != "len"@,
        "escape"@ != "or"@,
{
    reveal_strlit("basename");
    reveal_strlit("contains");
    reveal_strlit("ends_with");
    reveal_strlit("escape");
    reveal_strlit("extension");
    reveal_strlit("filename");
    reveal_strlit("find");
    reveal_strlit("join");
    reveal_strlit("len");
    reveal_strlit("len_bytes");
    reveal_strlit("or");
    reveal_strlit("parent");
    reveal_strlit("regex_replace");
    reveal_strlit("repeat");
    reveal_strlit("replace");
    reveal_strlit("replacen");
    reveal_strlit("reverse");
    reveal_strlit("starts_with");
    reveal_strlit("to_lowercase");
    reveal_strlit("to_uppercase");
    reveal_strlit("trim");
    reveal_strlit("trim_left");
    reveal_strlit("trim_right");
    reveal_strlit("unescape");
    assert("basename"@ =~= seq!['b', 'a', 's', 'e', 'n', 'a', 'm', 'e']);
    assert("contains"@ =~= seq!['c', 'o', 'n', 't', 'a', 'i', 'n', 's']);
    assert("ends_with"@ =~= seq!['e', 'n', 'd', 's', '_', 'w', 'i', 't', 'h']);
    assert("escape"@ =~= seq!['e', 's', 'c', 'a', 'p', 'e']);
    assert("extension"@ =~= seq!['e', 'x', 't', 'e', 'n', 's', 'i', 'o', 'n']);
    assert("filename"@ =~= seq!['f', 'i', 'l', 'e', 'n', 'a', 'm', 'e']);
    assert("find"@ =~= seq!['f', 'i', 'n', 'd']);
    assert("join"@ =~= seq!['j', 'o', 'i', 'n']);
    assert("len"@ =~= seq!['l', 'e', 'n']);
    assert("len_bytes"@ =~= seq!['l', 'e', 'n', '_', 'b', 'y', 't', 'e', 's']);
    assert("or"@ =~= seq!['o', 'r']);
    assert("parent"@ =~= seq!['p', 'a', 'r', 'e', 'n', 't']);
    assert("regex_replace"@ =~= seq!['r', 'e', 'g', 'e', 'x', '_', 'r', 'e', 'p', 'l', 'a', 'c', 'e']);
    assert("repeat"@ =~= seq!['r', 'e', 'p', 'e', 'a', 't']);
    assert("replace"@ =~= seq!['r', 'e', 'p', 'l', 'a', 'c', 'e']);
    assert("replacen"@ =~= seq!['r', 'e', 'p', 'l', 'a', 'c', 'e', 'n']);
    assert("reverse"@ =~= seq!['r', 'e', 'v', 'e', 'r', 's', 'e']);
    assert("starts_with"@ =~= seq!['s', 't', 'a', 'r', 't', 's', '_', 'w', 'i', 't', 'h']);
    assert("to_lowercase"@ =~= seq!['t', 'o', '_', 'l', 'o', 'w', 'e', 'r', 'c', 'a', 's', 'e']);
    assert("to_uppercase"@ =~= seq!['t', 'o', '_', 'u', 'p', 'p', 'e', 'r', 'c', 'a', 's', 'e']);
    assert("trim"@ =~= seq!['t', 'r', 'i', 'm']);
    assert("trim_left"@ =~= seq!['t', 'r', 'i', 'm', '_', 'l', 'e', 'f', 't']);
    assert("trim_right"@ =~= seq!['t', 'r', 'i', 'm', '_', 'r', 'i', 'g', 'h', 't']);
    assert("unescape"@ =~= seq!['u', 'n', 'e', 's', 'c', 'a', 'p', 'e']);
}

/// One string-method request: a method name from the catalogue, the
/// variable or expression it operates on, the raw pattern text, and a
/// selection over sequence-valued results.
#[derive(Debug, PartialEq, Eq)]
pub struct StringMethod {
    /// Name of this method.
    pub method: String,
    /// The reference this method operates on: a bare variable name or a
    /// compound expression.
    pub variable: String,
    /// Pattern to use for certain methods.
    pub pattern: String,
    /// Selection to control the output of this method.
    pub selection: Select,
}

impl StringMethod {
    /// Performs the named operation and appends its text to `output`. The
    /// buffer is only ever extended — never cleared or rewritten — and a
    /// call that fails reports its error and leaves the buffer exactly as
    /// it was.
    pub fn handle<E: Expander>(&self, output: &mut String, expand: &E) -> (r: Result<
        (),
        MethodError,
    >)
        ensures
            appended(old(output)@, final(output)@),
            r is Err ==> final(output)@ == old(output)@,
            r matches Err(e) ==> spec_error_fits(self.method@, e),
            r == Result::<(), MethodError>::Err(MethodError::UnknownMethod) <==> !spec_known_method(
                self.method@,
            ),
            spec_boolean_method(self.method@) ==> (final(output)@ == old(output)@.push('1')
                || final(output)@ == old(output)@.push('0')),
            self.method@ == "repeat"@ && spec_df_pattern(self.pattern@) ==> ((r is Err)
                <==> !parse_usize_ok(spec_joined_pattern(self.pattern@, " "@))),
            self.method@ == "replace"@ && spec_df_pattern(self.pattern@) ==> ((r is Err)
                <==> spec_pattern_items(self.pattern@).len() < 2),
            self.method@ == "replacen"@ && spec_df_pattern(self.pattern@) ==> ((r is Err) <==> (
            spec_pattern_items(self.pattern@).len() < 3 || !parse_usize_ok(
                spec_unquoted_items(self.pattern@)[2],
            ))),
            self.method@ == "regex_replace"@ && spec_df_pattern(self.pattern@) ==> ((r is Err)
                <==> (spec_pattern_items(self.pattern@).len() < 2 || !crate::regexes::regex_valid(
                spec_unquoted_items(self.pattern@)[0],
            ))),
            self.method@ == "len"@ && spec_array_shaped_ref(self.variable@) && spec_df_pattern(
                self.variable@,
            ) ==> final(output)@ == old(output)@ + spec_fmt_nat(
                spec_pattern_items(self.variable@).len() as int,
            ),
            self.method@ == "or"@ && spec_df_pattern(self.pattern@) ==> exists|first: Seq<char>|
                final(output)@ == old(output)@ + #[trigger] spec_or_text(
                    first,
                    spec_unquoted_items(self.pattern@),
                ),
    {
        let variable = self.variable.as_str();
        let pattern = MethodArgs::new(self.pattern.as_str());
        let m = self.method.as_str();
        let ghost out0 = output@;
        proof {
            lemma_appended_refl(out0);
            lemma_method_names_distinct();
        }
        if str_eq(m, "ends_with") || str_eq(m, "contains") || str_eq(m, "starts_with") {
            let pat = pattern.join(" ", expand);
            let resolved = match expand.string(variable, false) {
                Some(v) => Some(v),
                None => {
                    if is_expression(variable) {
                        let parts = expand_string(variable, expand, false);
                        Some(join_strs(&parts, " "))
                    } else {
                        None
                    }
                },
            };
            let ch = boolean_test_char(m, &resolved, pat.as_str());
            push_char(output, ch);
            proof {
                assert(appended(out0, output@)) by {
                    assert(output@.subrange(0, out0.len() as int) =~= out0);
                }
            }
            Ok(())
        } else if str_eq(m, "basename") || str_eq(m, "extension") || str_eq(m, "filename")
            || str_eq(m, "parent") {
            match resolve_scalar(variable, expand) {
                Some(value) => {
                    let piece = if str_eq(m, "basename") {
                        path_file_name(value.as_str())
                    } else if str_eq(m, "extension") {
                        path_extension(value.as_str())
                    } else if str_eq(m, "filename") {
                        path_file_stem(value.as_str())
                    } else {
                        path_parent(value.as_str())
                    };
                    match piece {
                        Some(p) => output.append(p.as_str()),
                        None => output.append(value.as_str()),
                    }
                    proof {
                        assert(appended(out0, output@)) by {
                            assert(output@.subrange(0, out0.len() as int) =~= out0);
                        }
                    }
                    Ok(())
                },
                None => Ok(()),
            }
        } else if str_eq(m, "to_lowercase") || str_eq(m, "to_uppercase") {
            match resolve_scalar(variable, expand) {
                Some(value) => {
                    let folded = if str_eq(m, "to_lowercase") {
                        to_lowercase_str(value.as_str())
                    } else {
                        to_uppercase_str(value.as_str())
                    };
                    output.append(folded.as_str());
                    proof {
                        assert(appended(out0, output@)) by {
                            assert(output@.subrange(0, out0.len() as int) =~= out0);
                        }
                    }
                    Ok(())
                },
                None => Ok(()),
            }
        } else if str_eq(m, "trim") || str_eq(m, "trim_right") || str_eq(m, "trim_left") {
            let word = get_var(variable, expand);
            let trimmed = if str_eq(m, "trim") {
                trim_str(word.as_str())
            } else if str_eq(m, "trim_right") {
                trim_end_str(word.as_str())
            } else {
                trim_start_str(word.as_str())
            };
            output.append(trimmed.as_str());
            proof {
                assert(appended(out0, output@)) by {
                    assert(output@.subrange(0, out0.len() as int) =~= out0);
                }
            }
            Ok(())
        } else if str_eq(m, "repeat") {
            let pat = pattern.join(" ", expand);
            proof {
                if spec_df_pattern(self.pattern@) {
                    assert(pat@ == spec_joined_pattern(self.pattern@, " "@));
                }
            }
            match repeat_count(pat.as_str()) {
                Ok(n) => {
                    let word = get_var(variable, expand);
                    let repeated = repeat_str(word.as_str(), n);
                    output.append(repeated.as_str());
                    proof {
                        assert(appended(out0, output@)) by {
                            assert(output@.subrange(0, out0.len() as int) =~= out0);
                        }
                    }
                    Ok(())
                },
                Err(e) => Err(e),
            }
        } else if str_eq(m, "replace") {
            let args = pattern.array(expand);
            proof {
                if spec_df_pattern(self.pattern@) {
                    assert(args.deep_view().len() == args@.len());
                    assert(spec_unquoted_items(self.pattern@).len() == spec_pattern_items(
                        self.pattern@,
                    ).len());
                }
            }
            if args.len() >= 2 {
                let word = get_var(variable, expand);
                let res = crate::search::replace_str(
                    word.as_str(),
                    args[0].as_str(),
                    args[1].as_str(),
                );
                output.append(res.as_str());
                proof {
                    assert(appended(out0, output@)) by {
                        assert(output@.subrange(0, out0.len() as int) =~= out0);
                    }
                }
                Ok(())
            } else {
                Err(MethodError::ReplaceTwoArguments)
            }
        } else if str_eq(m, "replacen") {
            let args = pattern.array(expand);
            proof {
                if spec_df_pattern(self.pattern@) {
                    assert(args.deep_view().len() == args@.len());
                    assert(spec_unquoted_items(self.pattern@).len() == spec_pattern_items(
                        self.pattern@,
                    ).len());
                }
            }
            if args.len() >= 3 {
                proof {
                    if spec_df_pattern(self.pattern@) {
                        assert(args.deep_view()[2] == args@[2]@);
                    }
                }
                match replacen_count(args[2].as_str()) {
                    Ok(n) => {
                        let word = get_var(variable, expand);
                        let res = crate::search::replacen_str(
                            word.as_str(),
                            args[0].as_str(),
                            args[1].as_str(),
                            n,
                        );
                        output.append(res.as_str());
                        proof {
                            assert(appended(out0, output@)) by {
                                assert(output@.subrange(0, out0.len() as int) =~= out0);
                            }
                        }
                        Ok(())
                    },
                    Err(e) => Err(e),
                }
            } else {
                Err(MethodError::ReplacenThreeArguments)
            }
        } else if str_eq(m, "regex_replace") {
            let args = pattern.array(expand);
            proof {
                if spec_df_pattern(self.pattern@) {
                    assert(args.deep_view().len() == args@.len());
                    assert(spec_unquoted_items(self.pattern@).len() == spec_pattern_items(
                        self.pattern@,
                    ).len());
                }
            }
            if args.len() >= 2 {
                proof {
                    if spec_df_pattern(self.pattern@) {
                        assert(args.deep_view()[0] == args@[0]@);
                    }
                }
                if crate::regexes::regex_is_valid(args[0].as_str()) {
                    let word = get_var(variable, expand);
                    match regex_output(args[0].as_str(), word.as_str(), args[1].as_str()) {
                        Ok(res) => {
                            output.append(res.as_str());
                            proof {
                                assert(appended(out0, output@)) by {
                                    assert(output@.subrange(0, out0.len() as int) =~= out0);
                                }
                            }
                            Ok(())
                        },
                        Err(e) => Err(e),
                    }
                } else {
                    Err(MethodError::InvalidRegex(args[0].clone()))
                }
            } else {
                Err(MethodError::RegexTwoArguments)
            }
        } else if str_eq(m, "join") {
            let pat = pattern.join(" ", expand);
            match expand.array(variable, &Select::All) {
                Some(array) => {
                    let joined = join_strs(&array, pat.as_str());
                    slice_append(output, joined.as_str(), &self.selection);
                    proof {
                        lemma_appended(out0, spec_selected(joined@, self.selection));
                    }
                    Ok(())
                },
                None => {
                    if is_expression(variable) {
                        let parts = expand_string(variable, expand, false);
                        let joined = join_strs(&parts, pat.as_str());
                        slice_append(output, joined.as_str(), &self.selection);
                        proof {
                            lemma_appended(out0, spec_selected(joined@, self.selection));
                        }
                        Ok(())
                    } else {
                        Ok(())
                    }
                },
            }
        } else if str_eq(m, "len") {
            let is_at = variable.unicode_len() > 0 && variable.get_char(0) == '@';
            if is_at || is_array(variable) {
                let expanded = expand_string(variable, expand, false);
                let count = element_count_text(&expanded);
                proof {
                    if spec_df_pattern(self.variable@) {
                        assert(expanded.deep_view().len() == expanded@.len());
                        assert(spec_unquoted_items(self.variable@).len() == spec_pattern_items(
                            self.variable@,
                        ).len());
                    }
                }
                output.append(count.as_str());
            } else {
                match expand.string(variable, false) {
                    Some(value) => {
                        let count = grapheme_count_text(value.as_str());
                        output.append(count.as_str());
                    },
                    None => {
                        if is_expression(variable) {
                            let parts = expand_string(variable, expand, false);
                            let word = join_strs(&parts, " ");
                            let count = grapheme_count_text(word.as_str());
                            output.append(count.as_str());
                        }
                    },
                }
            }
            proof {
                assert(appended(out0, output@)) by {
                    assert(output@.subrange(0, out0.len() as int) =~= out0);
                }
            }
            Ok(())
        } else if str_eq(m, "len_bytes") {
            match resolve_scalar(variable, expand) {
                Some(value) => {
                    let count = byte_length_text(value.as_str());
                    output.append(count.as_str());
                    proof {
                        assert(appended(out0, output@)) by {
                            assert(output@.subrange(0, out0.len() as int) =~= out0);
                        }
                    }
                    Ok(())
                },
                None => Ok(()),
            }
        } else if str_eq(m, "reverse") {
            match resolve_scalar(variable, expand) {
                Some(value) => {
                    let rev = reverse_graphemes(value.as_str());
                    output.append(rev.as_str());
                    proof {
                        assert(appended(out0, output@)) by {
                            assert(output@.subrange(0, out0.len() as int) =~= out0);
                        }
                    }
                    Ok(())
                },
                None => Ok(()),
            }
        } else if str_eq(m, "find") {
            let pat = pattern.join(" ", expand);
            let found = match resolve_scalar(variable, expand) {
                Some(value) => find_byte_offset(value.as_str(), pat.as_str()),
                None => None,
            };
            match found {
                Some(o) => {
                    let text = fmt_usize(o);
                    output.append(text.as_str());
                },
                None => output.append("-1"),
            }
            proof {
                assert(appended(out0, output@)) by {
                    assert(output@.subrange(0, out0.len() as int) =~= out0);
                }
            }
            Ok(())
        } else if str_eq(m, "unescape") {
            let word = match resolve_scalar(variable, expand) {
                Some(v) => v,
                None => {
                    return Ok(());
                },
            };
            match unescape(word.as_str()) {
                Ok(res) => {
                    output.append(res.as_str());
                    proof {
                        assert(appended(out0, output@)) by {
                            assert(output@.subrange(0, out0.len() as int) =~= out0);
                        }
                    }
                    Ok(())
                },
                Err(_) => Err(MethodError::InvalidAscii),
            }
        } else if str_eq(m, "escape") {
            let word = match resolve_scalar(variable, expand) {
                Some(v) => v,
                None => {
                    return Ok(());
                },
            };
            match escape(word.as_str()) {
                Ok(res) => {
                    output.append(res.as_str());
                    proof {
                        assert(appended(out0, output@)) by {
                            assert(output@.subrange(0, out0.len() as int) =~= out0);
                        }
                    }
                    Ok(())
                },
                Err(_) => Err(MethodError::InvalidAscii),
            }
        } else if str_eq(m, "or") {
            let first = match resolve_scalar(variable, expand) {
                Some(v) => v,
                None => String::new(),
            };
            let alts = pattern.array(expand);
            match or_select(first.as_str(), &alts) {
                Some(chosen) => {
                    output.append(chosen.as_str());
                    proof {
                        assert(appended(out0, output@)) by {
                            assert(output@.subrange(0, out0.len() as int) =~= out0);
                        }
                        if spec_df_pattern(self.pattern@) {
                            assert(output@ == out0 + spec_or_text(
                                first@,
                                spec_unquoted_items(self.pattern@),
                            ));
                        }
                    }
                    Ok(())
                },
                None => {
                    proof {
                        if spec_df_pattern(self.pattern@) {
                            assert(output@ =~= out0 + spec_or_text(
                                first@,
                                spec_unquoted_items(self.pattern@),
                            ));
                        }
                    }
                    Ok(())
                },
            }
        } else {
            Err(MethodError::UnknownMethod)
        }
    }
}

} // verus!
