//! The regular-expression replacement that the `regex_replace` string
//! method takes from outside code. Whether a pattern compiles, and what
//! replacing every match yields, are named by spec functions; both depend
//! on the arguments alone.

use vstd::prelude::*;

verus! {

/// Whether a pattern text compiles as a regular expression.
pub uninterp spec fn regex_valid(pattern: Seq<char>) -> bool;

/// The text with every non-overlapping match of the pattern replaced by the
/// replacement, capture-group references in the replacement expanded.
pub uninterp spec fn regex_replaced(pattern: Seq<char>, text: Seq<char>, rep: Seq<char>) -> Seq<
    char,
>;

/// Relies on regex's `Regex::new`: compilation succeeds exactly for the
/// patterns that are valid expressions under the default configuration.
#[verifier::external_body]
pub fn regex_is_valid(pattern: &str) -> (r: bool)
    ensures
        r == regex_valid(pattern@),
{
    regex::Regex::new(pattern).is_ok()
}

/// Relies on regex's `Regex::new` and `Regex::replace_all`: compilation
/// succeeds exactly for the patterns that are valid expressions, and the
/// replacement is a function of pattern, text and replacement alone.
#[verifier::external_body]
pub fn regex_replace_all(pattern: &str, text: &str, rep: &str) -> (r: Option<String>)
    ensures
        r is Some <==> regex_valid(pattern@),
        r matches Some(o) ==> o@ == regex_replaced(pattern@, text@, rep@),
{
    match regex::Regex::new(pattern) {
        Ok(re) => Some(re.replace_all(text, rep).into_owned()),
        Err(_) => None,
    }
}

} // verus!
