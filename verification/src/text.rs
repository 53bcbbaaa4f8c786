//! Trimming of strings, done by the standard library.

use vstd::prelude::*;

verus! {

/// The text without the run of `c` at its end.
pub open spec fn without_trailing(text: Seq<char>, c: char) -> Seq<char>
    decreases text.len(),
{
    if text.len() > 0 && text.last() == c {
        without_trailing(text.drop_last(), c)
    } else {
        text
    }
}

/// The text without the run of `c` at its start.
pub open spec fn without_leading(text: Seq<char>, c: char) -> Seq<char>
    decreases text.len(),
{
    if text.len() > 0 && text[0] == c {
        without_leading(text.drop_first(), c)
    } else {
        text
    }
}

/// `str::trim_end_matches` with a character as the pattern.
///
/// Trusted: it removes every repetition of the character from the end and nothing else.
#[verifier::external_body]
pub(crate) fn trim_trailing(text: &str, c: char) -> (r: &str)
    ensures
        r@ == without_trailing(text@, c),
{
    text.trim_end_matches(c)
}

/// `str::trim_start_matches` with a character as the pattern.
///
/// Trusted: it removes every repetition of the character from the start and nothing else.
#[verifier::external_body]
pub(crate) fn trim_leading(text: &str, c: char) -> (r: &str)
    ensures
        r@ == without_leading(text@, c),
{
    text.trim_start_matches(c)
}

} // verus!
