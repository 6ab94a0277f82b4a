//! The two Unicode classifications the library leans on: lower-casing a
//! string and testing a character for whitespace. Both depend on Unicode
//! tables, so each is named and obtained from the standard library
//! through a trusted wrapper.

use vstd::prelude::*;

verus! {

/// What `str::to_lowercase` returns for a given sequence of characters.
pub uninterp spec fn lower_of(s: Seq<char>) -> Seq<char>;

/// Relies on `str::to_lowercase`: the result depends on the characters
/// alone (no locale is consulted), and an empty string stays empty.
#[verifier::external_body]
pub fn to_lowercase_str(s: &str) -> (r: String)
    ensures
        r@ == lower_of(s@),
        s@.len() == 0 ==> r@.len() == 0,
{
    s.to_lowercase()
}

/// What `char::is_whitespace` returns for a given character.
pub uninterp spec fn is_space(c: char) -> bool;

/// Relies on `char::is_whitespace`: a property of the character alone,
/// true exactly for Unicode whitespace.
#[verifier::external_body]
pub fn char_is_whitespace(c: char) -> (r: bool)
    ensures
        r == is_space(c),
{
    c.is_whitespace()
}

} // verus!
