//! The few string operations that the feed is built from.

use vstd::prelude::*;
use vstd::utf8::{decode_utf8, valid_utf8};

verus! {

/// Splits `text` at its first line feed.
///
/// Trusted: calls `str::split_once` with the character `'\n'`. Claimed of it: where the text
/// holds a line feed, the first part is what stands before the first one and the second part
/// what stands after it; where it holds none, the result is `None`.
#[verifier::external_body]
pub(crate) fn split_first_line(text: &str) -> (parts: Option<(&str, &str)>)
    ensures
        match parts {
            Some((line, rest)) => {
                &&& text@ == line@ + seq!['\n'] + rest@
                &&& !line@.contains('\n')
            },
            None => !text@.contains('\n'),
        },
{
    text.split_once('\n')
}

/// `text` without its last character, where that character is `end`.
///
/// Trusted: calls `str::strip_suffix` with a character. Claimed of it: where the text ends with
/// the character, the result is the text before it; otherwise the result is `None`.
#[verifier::external_body]
pub(crate) fn strip_end(text: &str, end: char) -> (shorter: Option<&str>)
    ensures
        match shorter {
            Some(kept) => text@ == kept@.push(end),
            None => text@.len() == 0 || text@.last() != end,
        },
{
    text.strip_suffix(end)
}

/// `first` followed by `second`.
pub fn join(first: &str, second: &str) -> (joined: String)
    ensures
        joined@ == first@ + second@,
{
    first.to_owned().concat(second)
}

/// The text that bytes stand for, where they stand for one.
///
/// Trusted: calls `std::str::from_utf8`. Claimed of it: bytes are accepted exactly where they are
/// valid UTF-8, and the text is the one that they encode.
#[verifier::external_body]
pub(crate) fn text_of(bytes: &[u8]) -> (text: Option<&str>)
    ensures
        match text {
            Some(read) => valid_utf8(bytes@) && read@ == decode_utf8(bytes@),
            None => !valid_utf8(bytes@),
        },
{
    std::str::from_utf8(bytes).ok()
}

} // verus!
