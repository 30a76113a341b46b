//! Unicode services that the library takes from elsewhere: case mapping and
//! character classes from the standard library, canonical decomposition from
//! `unicode_normalization`. Each result is named; the contracts of the
//! library speak of these names.
use vstd::prelude::*;

use unicode_normalization::UnicodeNormalization;

verus! {

/// Canonical decomposition (Unicode Normalization Form D) of a string.
pub uninterp spec fn nfd(s: Seq<char>) -> Seq<char>;

/// The full lowercase mapping of one character (one or more characters).
pub uninterp spec fn char_lowercase(c: char) -> Seq<char>;

/// The lowercase form of a whole string, as `str::to_lowercase` computes it.
pub uninterp spec fn str_lowercase(s: Seq<char>) -> Seq<char>;

/// Whether a character is alphabetic or numeric in the Unicode sense.
pub uninterp spec fn alphanumeric(c: char) -> bool;

/// `UnicodeNormalization::nfd` on a string slice, collected.
///
/// Trusted: the decomposition is `unicode_normalization`'s; only its name is
/// stated here.
#[verifier::external_body]
pub(crate) fn nfd_of(s: &str) -> (r: Vec<char>)
    ensures
        r@ == nfd(s@),
{
    s.nfd().collect()
}

/// `char::to_lowercase`, collected.
///
/// Trusted: the standard library documents that the mapping yields one or
/// more characters; the mapping itself is only named.
#[verifier::external_body]
pub(crate) fn lowercase_of_char(c: char) -> (r: Vec<char>)
    ensures
        r@ == char_lowercase(c),
        r@.len() >= 1,
{
    c.to_lowercase().collect()
}

/// `str::to_lowercase`.
///
/// Trusted: the mapping is the standard library's; only its name is stated.
#[verifier::external_body]
pub(crate) fn lowercase_of_str(s: &str) -> (r: String)
    ensures
        r@ == str_lowercase(s@),
{
    s.to_lowercase()
}

/// `char::is_alphanumeric`: alphabetic or numeric in the Unicode sense.
///
/// Trusted: the Unicode classes are the standard library's; only named here,
/// with the one fact the library needs: the space is neither a letter nor a
/// digit.
#[verifier::external_body]
pub(crate) fn is_alphanumeric(c: char) -> (r: bool)
    ensures
        r == alphanumeric(c),
        c == ' ' ==> !r,
{
    c.is_alphanumeric()
}

} // verus!
