//! Debug-style quoting of text, as std's `{:?}` formats a `str`.
use vstd::prelude::*;

verus! {

/// The text std's `Debug` formatting produces for a string: the string in
/// double quotes, with quotes, backslashes and non-printable characters escaped.
pub uninterp spec fn debug_quoted(s: Seq<char>) -> Seq<char>;

/// Formats `s` with std's `Debug` implementation for `str` (`format!("{:?}", s)`).
///
/// Trusted: the result is the name [`debug_quoted`] applied to the characters of
/// `s`; which escapes std chooses is left to that name.
#[verifier::external_body]
pub(crate) fn debug_quote(s: &str) -> (r: String)
    ensures
        r@ == debug_quoted(s@),
{
    format!("{:?}", s)
}

} // verus!
