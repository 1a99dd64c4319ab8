//! Facts about characters that come from the Unicode tables.
use vstd::prelude::*;

verus! {

/// What `char::is_alphanumeric` says of a character.
pub uninterp spec fn alphanumeric(c: char) -> bool;

/// An ASCII letter or digit.
pub open spec fn ascii_alphanumeric(c: char) -> bool {
    ||| 'a' <= c && c <= 'z'
    ||| 'A' <= c && c <= 'Z'
    ||| '0' <= c && c <= '9'
}

/// `char::is_alphanumeric`: the character is a letter or a digit of any
/// script. Of the ASCII characters these are the letters and digits.
#[verifier::external_body]
pub(crate) fn is_alphanumeric(c: char) -> (r: bool)
    ensures
        r == alphanumeric(c),
        c <= '\u{7f}' ==> r == ascii_alphanumeric(c),
{
    c.is_alphanumeric()
}

} // verus!
