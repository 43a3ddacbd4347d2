//! The line format of the registry file: an entry is the marker `"$ "`
//! followed by the command text.

use vstd::prelude::*;

verus! {

/// The characters that open an entry line.
pub open spec fn marker() -> Seq<char> {
    seq!['$', ' ']
}

/// The line that stores `text`.
pub open spec fn encoded(text: Seq<char>) -> Seq<char> {
    marker() + text
}

/// What a line holds: nothing unless it opens with `'$'`; the rest after the
/// full marker when the marker is there; an empty text when only `'$'` is.
pub open spec fn decoded(line: Seq<char>) -> Option<Seq<char>> {
    if line.len() > 0 && line[0] == '$' {
        if line.len() >= 2 && line[1] == ' ' {
            Some(line.subrange(2, line.len() as int))
        } else {
            Some(Seq::empty())
        }
    } else {
        None
    }
}

/// Returns the file line that stores `text`.
pub fn encode(text: &str) -> (line: String)
    requires
        text@.len() > 0,
    ensures
        line@ == encoded(text@),
{
    let prefix = "$ ";
    proof {
        reveal_strlit("$ ");
    }
    let line = prefix.to_owned().concat(text);
    assert(prefix@ =~= marker());
    line
}

/// Returns the text stored in `line`, or `None` when the line is no entry.
pub fn decode(line: &str) -> (text: Option<String>)
    ensures
        match text {
            Some(t) => decoded(line@) == Some(t@),
            None => decoded(line@) is None,
        },
{
    let n = line.unicode_len();
    if n > 0 && line.get_char(0) == '$' {
        if n >= 2 && line.get_char(1) == ' ' {
            Some(line.substring_char(2, n).to_owned())
        } else {
            Some(String::new())
        }
    } else {
        None
    }
}

/// Reading back the line written for a text gives that text again.
pub proof fn lemma_decode_encode(text: Seq<char>)
    ensures
        decoded(encoded(text)) == Some(text),
{
    assert(encoded(text).subrange(2, encoded(text).len() as int) =~= text);
}

} // verus!
