//! Character classes, case mappings and a few string operations of the standard library.
//!
//! Unicode tables decide the classes and the mappings; the library only uses the
//! answers, so every answer has a name here and nothing is said about it on particular
//! letters.

use vstd::prelude::*;

verus! {

/// Answer of `char::is_alphabetic`.
pub uninterp spec fn alphabetic(c: char) -> bool;

/// Answer of `char::is_alphanumeric`.
pub uninterp spec fn alphanumeric(c: char) -> bool;

/// Answer of `char::is_uppercase`.
pub uninterp spec fn uppercase(c: char) -> bool;

/// Answer of `char::is_lowercase`.
pub uninterp spec fn lowercase(c: char) -> bool;

/// Letters that `char::to_lowercase` yields for one character.
pub uninterp spec fn char_lowered(c: char) -> Seq<char>;

/// Text that `str::to_lowercase` gives.
pub uninterp spec fn text_lowered(s: Seq<char>) -> Seq<char>;

/// `char::is_alphabetic` is a function of the character alone.
pub assume_specification[ char::is_alphabetic ](c: char) -> (r: bool)
    ensures
        r == alphabetic(c),
;

/// `char::is_alphanumeric` is a function of the character alone.
pub assume_specification[ char::is_alphanumeric ](c: char) -> (r: bool)
    ensures
        r == alphanumeric(c),
;

/// `char::is_uppercase` is a function of the character alone.
pub assume_specification[ char::is_uppercase ](c: char) -> (r: bool)
    ensures
        r == uppercase(c),
;

/// `char::is_lowercase` is a function of the character alone.
pub assume_specification[ char::is_lowercase ](c: char) -> (r: bool)
    ensures
        r == lowercase(c),
;

/// `char::to_lowercase`: the lowercase mapping of one character, which its
/// documentation promises to be one or more characters.
#[verifier::external_body]
pub(crate) fn lower_char(c: char) -> (r: Vec<char>)
    ensures
        r@ == char_lowered(c),
        r@.len() >= 1,
{
    c.to_lowercase().collect()
}

/// `str::to_lowercase` is a function of the text alone.
#[verifier::external_body]
pub(crate) fn lower_text(s: &str) -> (r: String)
    ensures
        r@ == text_lowered(s@),
{
    s.to_lowercase()
}

/// `String::push` appends one character.
pub assume_specification[ String::push ](s: &mut String, c: char)
    ensures
        final(s)@ == old(s)@.push(c),
;

/// `String::is_empty` tells whether there are no characters.
pub assume_specification[ String::is_empty ](s: &String) -> (r: bool)
    ensures
        r == (s@.len() == 0),
;

/// `==` on string slices compares the characters.
pub assume_specification[ <str as PartialEq>::eq ](a: &str, b: &str) -> (r: bool)
    ensures
        r == (a@ == b@),
;

} // verus!
