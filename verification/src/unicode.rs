//! Unicode case mapping and character classes, taken from the standard library.
use vstd::prelude::*;

verus! {

/// What `str::to_lowercase` returns for a string: the Unicode lower-case mapping of every
/// character, context-sensitive for the Greek final sigma, which may change the length.
pub uninterp spec fn lowercase(s: Seq<char>) -> Seq<char>;

/// What `char::is_alphabetic` returns: whether the character has the Unicode
/// `Alphabetic` property.
pub uninterp spec fn alphabetic(c: char) -> bool;

/// Calls `str::to_lowercase`; its result is the named lower-case mapping of `s`.
#[verifier::external_body]
pub(crate) fn to_lowercase(s: &str) -> (res: String)
    ensures
        res@ == lowercase(s@),
{
    s.to_lowercase()
}

/// Calls `char::is_alphabetic`; its result is the named property of `c`.
#[verifier::external_body]
pub(crate) fn is_alphabetic(c: char) -> (res: bool)
    ensures
        res == alphabetic(c),
{
    c.is_alphabetic()
}

} // verus!
