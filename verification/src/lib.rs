//! Core engine of a command interpreter: the typed-assignment parser that
//! pairs declared keys with supplied values, the string-expansion method
//! dispatcher, and an ASCII escape/unescape codec.

pub mod actions;
pub mod binary;
pub mod codec;
pub mod completion;
pub mod keys;
pub mod lexer;
pub mod methods;
pub mod operators;
pub mod pathops;
pub mod regexes;
pub mod search;
pub mod signals;
pub mod splitter;
pub mod strutil;
pub mod unicode;
pub mod wordsplit;

use vstd::prelude::*;

verus! {

/// Reports whether `value` has bracket-delimited array shape: it begins with
/// `[` and ends with `]`.
pub open spec fn is_array_spec(v: Seq<char>) -> bool {
    v.len() >= 1 && v.first() == '[' && v.last() == ']'
}

/// Detects the bracket-delimited surface shape `[...]` that marks an
/// array-shaped value.
pub fn is_array(value: &str) -> (r: bool)
    ensures
        r == is_array_spec(value@),
{
    let n = value.unicode_len();
    n >= 1 && value.get_char(0) == '[' && value.get_char(n - 1) == ']'
}

} // verus!
