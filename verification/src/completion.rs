//! Decisions the interactive host delegates to the engine: whether a word
//! under the cursor should complete as a file name, whether a read line
//! leaves the statement unterminated, and under what name a command is
//! saved to history. The outside questions each rests on — filesystem
//! answers, a directory check — are answered by the caller and handed in as
//! plain truth values.

use vstd::prelude::*;
use crate::search::{has_prefix, has_suffix};
use crate::strutil::{spec_trim, trim_str};

verus! {

/// The completion rule over the trimmed word `f`: a word starting with `.`
/// always completes as a file; a word starting with `$` never does, being a
/// variable; otherwise any word past the first, a word naming an existing
/// file, or a partial name inside an existing directory other than the
/// working directory completes as a file.
pub open spec fn spec_complete_as_file(
    f: Seq<char>,
    index: int,
    file_exists: bool,
    parent_exists_elsewhere: bool,
) -> bool {
    has_prefix(f, seq!['.']) || (!has_prefix(f, seq!['$']) && (index > 0 || file_exists
        || parent_exists_elsewhere))
}

/// Infers whether the given word is a partial file name. `filename` is the
/// word under the cursor and `index` its position among the words;
/// `file_exists` says whether the word, joined to the working directory,
/// names an existing file, and `parent_exists_elsewhere` whether that
/// path's parent exists and differs from the working directory.
pub fn complete_as_file(
    filename: &str,
    index: usize,
    file_exists: bool,
    parent_exists_elsewhere: bool,
) -> (r: bool)
    ensures
        r == spec_complete_as_file(
            spec_trim(filename@),
            index as int,
            file_exists,
            parent_exists_elsewhere,
        ),
{
    proof {
        reveal_strlit(".");
        reveal_strlit("$");
        assert("."@ =~= seq!['.']);
        assert("$"@ =~= seq!['$']);
    }
    let f = trim_str(filename);
    let dot = crate::search::starts_with_str(f.as_str(), ".");
    let dollar = crate::search::starts_with_str(f.as_str(), "$");
    dot || (!dollar && (index > 0 || file_exists || parent_exists_elsewhere))
}

/// The bytes the read loop treats as plain whitespace on a line.
pub open spec fn is_plain_space_char(c: char) -> bool {
    c == ' ' || c == '\t' || c == '\n' || c == '\r' || c as int == 0x0C
}

/// Whether a freshly read line holds anything beyond whitespace, so that
/// the read loop must mark the statement as not yet terminated.
pub fn line_has_content(line: &str) -> (r: bool)
    ensures
        r == exists|i: int| 0 <= i < line@.len() && !is_plain_space_char(#[trigger] line@[i]),
{
    let n = line.unicode_len();
    let mut i: usize = 0;
    while i < n
        invariant
            n == line@.len(),
            0 <= i <= n,
            forall|j: int| 0 <= j < i ==> is_plain_space_char(#[trigger] line@[j]),
        decreases n - i,
    {
        let c = line.get_char(i);
        let u = c as u32;
        if !(u == 32 || u == 9 || u == 10 || u == 13 || u == 0x0C) {
            return true;
        }
        i += 1;
    }
    false
}

/// The name a command is saved to history under: a command that names a
/// directory and does not already end in `/` is saved with one appended;
/// every other command is saved as it is. Whether the command names a
/// directory is the caller's answer.
pub fn command_to_save(cmd: &str, names_directory: bool) -> (r: String)
    ensures
        r@ == if !has_suffix(cmd@, seq!['/']) && names_directory {
            cmd@.push('/')
        } else {
            cmd@
        },
{
    proof {
        reveal_strlit("/");
        assert("/"@ =~= seq!['/']);
    }
    let mut out = String::from_str(cmd);
    if !crate::search::ends_with_str(cmd, "/") && names_directory {
        crate::strutil::push_char(&mut out, '/');
    }
    out
}

} // verus!
