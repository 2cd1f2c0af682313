//! Splitting of a command line into words.

use vstd::prelude::*;

verus! {

/// The characters of each string.
pub open spec fn texts(strings: Seq<String>) -> Seq<Seq<char>> {
    strings.map_values(|s: String| s@)
}

/// What `shlex::split` makes of a line; `None` where its quoting is not closed.
pub uninterp spec fn shlex_words(line: Seq<char>) -> Option<Seq<Seq<char>>>;

/// Calls `shlex::split`, and claims that the words, or their absence, depend on the line alone.
#[verifier::external_body]
pub(crate) fn shlex_split(line: &str) -> (words: Option<Vec<String>>)
    ensures
        words matches Some(list) ==> shlex_words(line@) == Some(texts(list@)),
        words is None ==> shlex_words(line@) is None,
{
    shlex::split(line)
}

} // verus!
