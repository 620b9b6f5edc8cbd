//! Character classification for the scanner.
//!
//! The scanner needs two predicates on characters: whether a character is
//! alphanumeric and whether it is whitespace. Both follow `std`'s Unicode
//! classification. On ASCII the classes are small enough to state outright;
//! beyond ASCII each is an uninterpreted function of the character alone.

use vstd::prelude::*;

verus! {

/// What `char::is_alphanumeric` returns on characters beyond ASCII: a fixed
/// classification by Unicode tables, a function of the character alone.
pub uninterp spec fn unicode_alphanumeric(c: char) -> bool;

/// What `char::is_whitespace` returns on characters beyond ASCII: the Unicode
/// `White_Space` property, a function of the character alone.
pub uninterp spec fn unicode_whitespace(c: char) -> bool;

/// An alphanumeric character: among ASCII characters exactly the letters and
/// digits, and beyond ASCII whatever the Unicode tables say.
pub open spec fn alphanumeric(c: char) -> bool {
    if (c as u32) < 128 {
        ('a' as u32) <= (c as u32) <= ('z' as u32)
        || ('A' as u32) <= (c as u32) <= ('Z' as u32)
        || ('0' as u32) <= (c as u32) <= ('9' as u32)
    } else {
        unicode_alphanumeric(c)
    }
}

/// A whitespace character: among ASCII characters exactly tab, line feed,
/// vertical tab, form feed, carriage return and space, and beyond ASCII
/// whatever the Unicode `White_Space` property says.
pub open spec fn whitespace(c: char) -> bool {
    if (c as u32) < 128 {
        c == ' ' || (9 <= (c as u32) <= 13)
    } else {
        unicode_whitespace(c)
    }
}

/// A character the scanner keeps inside a word: alphanumeric characters,
/// apostrophes and hyphens.
pub open spec fn word_char(c: char) -> bool {
    alphanumeric(c) || c == '\'' || c == '-'
}

/// Relies on `char::is_alphanumeric`: among ASCII characters exactly the
/// letters and digits satisfy it; beyond ASCII it is a fixed classification
/// by Unicode tables, a function of the character alone.
#[verifier::external_body]
pub(crate) fn char_is_alphanumeric(c: char) -> (r: bool)
    ensures
        r == alphanumeric(c),
        128 <= (c as u32) ==> r == unicode_alphanumeric(c),
{
    c.is_alphanumeric()
}

/// Relies on `char::is_whitespace`: among ASCII characters exactly tab, line
/// feed, vertical tab, form feed, carriage return and space satisfy it;
/// beyond ASCII it is the Unicode `White_Space` property, a function of the
/// character alone.
#[verifier::external_body]
pub(crate) fn char_is_whitespace(c: char) -> (r: bool)
    ensures
        r == whitespace(c),
        128 <= (c as u32) ==> r == unicode_whitespace(c),
{
    c.is_whitespace()
}

} // verus!
