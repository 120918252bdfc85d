//! The Unicode character tables of the standard library.

use vstd::prelude::*;

use crate::text::{is_digit, is_lower, is_upper};

verus! {

/// Does `char::is_alphanumeric` hold of the character?
pub uninterp spec fn alphanumeric(c: char) -> bool;

/// The text that `str::to_lowercase` gives.
pub uninterp spec fn lowercase(s: Seq<char>) -> Seq<char>;

pub open spec fn ascii(c: char) -> bool {
    c <= '\u{7f}'
}

/// The lower-case letter of an ASCII upper-case letter; any other
/// character itself.
pub open spec fn ascii_lower(c: char) -> char {
    if is_upper(c) {
        (c as u32 + 32) as char
    } else {
        c
    }
}

/// A letter or a digit: of the ASCII characters `A` to `Z`, `a` to `z` and
/// `0` to `9`; of the others those that `char::is_alphanumeric` holds of.
pub open spec fn letter_or_digit(c: char) -> bool {
    if ascii(c) {
        is_digit(c) || is_upper(c) || is_lower(c)
    } else {
        alphanumeric(c)
    }
}

/// The text in lower case: letter by letter where it is ASCII, by
/// `str::to_lowercase` where it is not.
#[verifier::opaque]
pub open spec fn lower_case(s: Seq<char>) -> Seq<char> {
    if forall|i: int| 0 <= i < s.len() ==> ascii(#[trigger] s[i]) {
        s.map_values(|c: char| ascii_lower(c))
    } else {
        lowercase(s)
    }
}

/// `char::is_alphanumeric`: the answer depends on the character alone, and
/// of the ASCII characters it holds of the letters and digits.
#[verifier::external_body]
pub(crate) fn is_alphanumeric(c: char) -> (r: bool)
    ensures
        r == alphanumeric(c),
        ascii(c) ==> r == (is_digit(c) || is_upper(c) || is_lower(c)),
{
    c.is_alphanumeric()
}

/// `str::to_lowercase`: the result depends on the text alone, and of a
/// text of ASCII characters it is the text with each upper-case letter
/// replaced by its lower-case letter.
#[verifier::external_body]
pub(crate) fn to_lowercase(s: &str) -> (r: String)
    ensures
        r@ == lowercase(s@),
        (forall|i: int| 0 <= i < s@.len() ==> ascii(#[trigger] s@[i])) ==> r@ == s@.map_values(
            |c: char| ascii_lower(c),
        ),
{
    s.to_lowercase()
}

} // verus!
