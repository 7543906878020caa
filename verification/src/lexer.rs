//! Splits a raw assignment statement into its key-list text, its operator,
//! and its value-list text.

use vstd::prelude::*;
use crate::operators::{parse_operator, spec_operator, Operator};
use crate::search::{find_sub, lemma_spec_find_in_range, spec_find};
use crate::strutil::{spec_trim, substr_copy, trim_str};

verus! {

/// The characters an operator token may hold in front of its final `=`.
pub open spec fn is_op_char(c: char) -> bool {
    c == '+' || c == '-' || c == '*' || c == '/' || c == '\\' || c == ':' || c == '?'
}

/// The start of the run of operator characters that ends just before
/// position `j`.
pub open spec fn op_start(s: Seq<char>, j: int) -> int
    decreases j,
{
    if j <= 0 || j > s.len() {
        0
    } else if is_op_char(s[j - 1]) {
        op_start(s, j - 1)
    } else {
        j
    }
}

/// How a statement splits: at the first `=`, the run of operator characters
/// ending there forms the operator token; the trimmed text before the run is
/// the key list and the trimmed text after the `=` is the value list. With
/// no `=`, or an operator token outside the closed set, the whole trimmed
/// statement is handed back as key text alone.
pub open spec fn spec_assignment_rel(
    s: Seq<char>,
    r: (Option<String>, Option<Operator>, Option<String>),
) -> bool {
    match spec_find(s, seq!['='], 0) {
        None => (r.0 matches Some(k) && k@ == spec_trim(s)) && r.1 is None && r.2 is None,
        Some(e) => {
            let j = op_start(s, e);
            match spec_operator(s.subrange(j, e + 1)) {
                Some(op) => (r.0 matches Some(k) && k@ == spec_trim(s.subrange(0, j))) && r.1
                    == Some(op) && (r.2 matches Some(v) && v@ == spec_trim(
                    s.subrange(e + 1, s.len() as int),
                )),
                None => (r.0 matches Some(k) && k@ == spec_trim(s)) && r.1 is None && r.2
                    is None,
            }
        },
    }
}

/// Whether `c` may stand in an operator token in front of the final `=`.
pub fn is_op_c(c: char) -> (r: bool)
    ensures
        r == is_op_char(c),
{
    c == '+' || c == '-' || c == '*' || c == '/' || c == '\\' || c == ':' || c == '?'
}

/// Splits an assignment statement into key text, operator, and value text,
/// as [`spec_assignment_rel`] describes.
pub fn assignment_lexer(statement: &str) -> (r: (Option<String>, Option<Operator>, Option<
    String,
>))
    ensures
        spec_assignment_rel(statement@, r),
{
    proof {
        reveal_strlit("=");
        assert("="@ =~= seq!['=']);
    }
    let n = statement.unicode_len();
    match find_sub(statement, "=") {
        None => (Some(trim_str(statement)), None, None),
        Some(e) => {
            proof {
                lemma_spec_find_in_range(statement@, seq!['='], e as int);
            }
            let mut j = e;
            while j > 0 && is_op_c(statement.get_char(j - 1))
                invariant
                    n == statement@.len(),
                    0 <= j <= e < n,
                    op_start(statement@, e as int) == op_start(statement@, j as int),
                decreases j,
            {
                j -= 1;
            }
            let op_text = substr_copy(statement, j, e + 1);
            match parse_operator(op_text.as_str()) {
                Some(op) => {
                    let keys = substr_copy(statement, 0, j);
                    let values = substr_copy(statement, e + 1, n);
                    (
                        Some(trim_str(keys.as_str())),
                        Some(op),
                        Some(trim_str(values.as_str())),
                    )
                },
                None => (Some(trim_str(statement)), None, None),
            }
        },
    }
}

} // verus!
