//! Character classes and case mappings of Unicode, as the standard library has
//! them. Their tables are taken as given: each result has a name, and only the
//! ASCII part of it is spelled out.
use vstd::prelude::*;
use crate::text::{is_ascii_digit, is_ascii_letter, is_white_space, lower_char, upper_char};

verus! {

/// What `char::is_alphanumeric` answers.
pub uninterp spec fn alphanumeric(c: char) -> bool;

/// What `char::is_alphabetic` answers.
pub uninterp spec fn alphabetic(c: char) -> bool;

/// The characters that `char::to_lowercase` yields.
pub uninterp spec fn lowercase(c: char) -> Seq<char>;

/// The characters that `char::to_uppercase` yields.
pub uninterp spec fn uppercase(c: char) -> Seq<char>;

/// Whether `c` is a letter or a digit.
pub open spec fn is_alnum(c: char) -> bool {
    if (c as u32) < 128 {
        is_ascii_letter(c) || is_ascii_digit(c)
    } else if is_white_space(c) {
        false
    } else {
        alphanumeric(c)
    }
}

/// Whether `c` is a letter.
pub open spec fn is_alpha(c: char) -> bool {
    if (c as u32) < 128 {
        is_ascii_letter(c)
    } else {
        alphabetic(c)
    }
}

/// `c` in lower case.
pub open spec fn lower_of(c: char) -> Seq<char> {
    if (c as u32) < 128 {
        seq![lower_char(c)]
    } else {
        lowercase(c)
    }
}

/// `c` in upper case.
pub open spec fn upper_of(c: char) -> Seq<char> {
    if (c as u32) < 128 {
        seq![upper_char(c)]
    } else {
        uppercase(c)
    }
}

/// `char::is_alphanumeric`, which holds of the characters with the property
/// `Alphabetic` or a numeric category. Among the ASCII characters, the letters
/// and the digits are alphanumeric and no others; white space is a control
/// character or a separator, and never alphanumeric.
#[verifier::external_body]
pub(crate) fn is_alphanumeric(c: char) -> (r: bool)
    ensures
        r == (if (c as u32) < 128 {
            is_ascii_letter(c) || is_ascii_digit(c)
        } else if is_white_space(c) {
            false
        } else {
            alphanumeric(c)
        }),
{
    c.is_alphanumeric()
}

/// `char::is_alphabetic`. Among the ASCII characters, the letters are
/// alphabetic and no others.
#[verifier::external_body]
pub(crate) fn is_alphabetic(c: char) -> (r: bool)
    ensures
        r == (if (c as u32) < 128 {
            is_ascii_letter(c)
        } else {
            alphabetic(c)
        }),
{
    c.is_alphabetic()
}

/// `char::to_lowercase`, with its characters in a vector. An ASCII character
/// has one, its ASCII lower case.
#[verifier::external_body]
pub(crate) fn to_lowercase(c: char) -> (r: Vec<char>)
    ensures
        r@ == (if (c as u32) < 128 {
            seq![lower_char(c)]
        } else {
            lowercase(c)
        }),
{
    c.to_lowercase().collect()
}

/// `char::to_uppercase`, with its characters in a vector. An ASCII character
/// has one, its ASCII upper case.
#[verifier::external_body]
pub(crate) fn to_uppercase(c: char) -> (r: Vec<char>)
    ensures
        r@ == (if (c as u32) < 128 {
            seq![upper_char(c)]
        } else {
            uppercase(c)
        }),
{
    c.to_uppercase().collect()
}

} // verus!
