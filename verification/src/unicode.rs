//! What the standard library knows of characters: letter case and the alphabetic
//! property.
//!
//! The Unicode tables behind these functions are not written out here. Each result
//! has a name, a function of the argument alone, and on ASCII it is spelt out: [`casings`]
//! and [`letter`] tell it.

use vstd::prelude::*;

verus! {

/// What `str::to_lowercase` makes of a string.
pub uninterp spec fn lowercase(s: Seq<char>) -> Seq<char>;

/// What `str::to_uppercase` makes of a string.
pub uninterp spec fn uppercase(s: Seq<char>) -> Seq<char>;

/// What `char::to_lowercase` makes of a character.
pub uninterp spec fn char_lowercase(c: char) -> Seq<char>;

/// What `char::to_uppercase` makes of a character.
pub uninterp spec fn char_uppercase(c: char) -> Seq<char>;

/// What `char::is_alphabetic` says of a character.
pub uninterp spec fn is_alphabetic(c: char) -> bool;

/// An ASCII capital's small letter; any other character is its own.
pub open spec fn ascii_lower(c: char) -> char {
    if 'A' <= c <= 'Z' {
        (c as int + 32) as char
    } else {
        c
    }
}

/// An ASCII small letter's capital; any other character is its own.
pub open spec fn ascii_upper(c: char) -> char {
    if 'a' <= c <= 'z' {
        (c as int - 32) as char
    } else {
        c
    }
}

pub open spec fn is_ascii_letter(c: char) -> bool {
    'a' <= c <= 'z' || 'A' <= c <= 'Z'
}

/// Calls `str::to_lowercase`. Claimed: the result depends on the string alone, and
/// of an ASCII string each character is turned into its small letter.
#[verifier::external_body]
pub(crate) fn to_lowercase(s: &str) -> (r: String)
    ensures
        r@ == lowercase(s@),
        vstd::utf8::is_ascii_chars(s@) ==> r@ == s@.map_values(|c: char| ascii_lower(c)),
{
    s.to_lowercase()
}

/// Calls `str::to_uppercase`. Claimed: the result depends on the string alone, and
/// of an ASCII string each character is turned into its capital.
#[verifier::external_body]
pub(crate) fn to_uppercase(s: &str) -> (r: String)
    ensures
        r@ == uppercase(s@),
        vstd::utf8::is_ascii_chars(s@) ==> r@ == s@.map_values(|c: char| ascii_upper(c)),
{
    s.to_uppercase()
}

/// Calls `char::to_lowercase`. Claimed: it yields one or more characters, which
/// depend on the argument alone, and of an ASCII character its small letter.
#[verifier::external_body]
pub(crate) fn char_to_lowercase(c: char) -> (r: String)
    ensures
        r@ == char_lowercase(c),
        r@.len() >= 1,
        c <= '\u{7f}' ==> r@ == seq![ascii_lower(c)],
{
    c.to_lowercase().to_string()
}

/// Calls `char::to_uppercase`. Claimed: it yields one or more characters, which
/// depend on the argument alone, and of an ASCII character its capital.
#[verifier::external_body]
pub(crate) fn char_to_uppercase(c: char) -> (r: String)
    ensures
        r@ == char_uppercase(c),
        r@.len() >= 1,
        c <= '\u{7f}' ==> r@ == seq![ascii_upper(c)],
{
    c.to_uppercase().to_string()
}

/// Calls `char::is_alphabetic`. Claimed: the answer depends on the character alone,
/// and of the ASCII characters the letters are alphabetic.
#[verifier::external_body]
pub(crate) fn char_is_alphabetic(c: char) -> (r: bool)
    ensures
        r == is_alphabetic(c),
        c <= '\u{7f}' ==> r == is_ascii_letter(c),
{
    c.is_alphabetic()
}

/// A string in lower and in upper case, with what is known of both.
pub fn casings(s: &str) -> (r: (String, String))
    ensures
        r.0@ == lowercase(s@),
        r.1@ == uppercase(s@),
        vstd::utf8::is_ascii_chars(s@) ==> lowercase(s@) == s@.map_values(
            |c: char| ascii_lower(c),
        ),
        vstd::utf8::is_ascii_chars(s@) ==> uppercase(s@) == s@.map_values(
            |c: char| ascii_upper(c),
        ),
{
    (to_lowercase(s), to_uppercase(s))
}

/// A character in lower and in upper case, and whether it is alphabetic, with what is known
/// of each.
pub fn letter(c: char) -> (r: (String, String, bool))
    ensures
        r.0@ == char_lowercase(c),
        r.1@ == char_uppercase(c),
        r.2 == is_alphabetic(c),
        char_lowercase(c).len() >= 1,
        char_uppercase(c).len() >= 1,
        c <= '\u{7f}' ==> char_lowercase(c) == seq![ascii_lower(c)],
        c <= '\u{7f}' ==> char_uppercase(c) == seq![ascii_upper(c)],
        c <= '\u{7f}' ==> is_alphabetic(c) == is_ascii_letter(c),
{
    (char_to_lowercase(c), char_to_uppercase(c), char_is_alphabetic(c))
}

} // verus!
