//! What the standard library knows of characters beyond ASCII.

use vstd::prelude::*;
use vstd::utf8::is_ascii_chars;

use crate::text::ascii_lower;

verus! {

/// The text that `str::to_lowercase` makes of a text.
pub uninterp spec fn lowercase(s: Seq<char>) -> Seq<char>;

/// `str::to_lowercase`: a function of the text, which changes only the letters
/// of ASCII where the text is ASCII.
#[verifier::external_body]
pub(crate) fn to_lowercase(s: &str) -> (r: String)
    ensures
        r@ == lowercase(s@),
        is_ascii_chars(s@) ==> r@ == ascii_lower(s@),
{
    s.to_lowercase()
}

/// `char::is_uppercase` finds that the character is in upper case.
pub uninterp spec fn is_uppercase(c: char) -> bool;

/// `char::is_uppercase`: a function of the character; of ASCII, the letters
/// from A to Z are in upper case.
#[verifier::external_body]
pub(crate) fn char_is_uppercase(c: char) -> (r: bool)
    ensures
        r == is_uppercase(c),
        c <= '\x7f' ==> r == ('A' <= c <= 'Z'),
{
    c.is_uppercase()
}

} // verus!
