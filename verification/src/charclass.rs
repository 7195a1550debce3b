//! Character classes used by the minifier: word characters and
//! whitespace characters, with executable classifiers proved against
//! the specification functions.

use vstd::prelude::*;

verus! {

/// A word character: an ASCII letter, an ASCII digit or an underscore.
pub open spec fn is_word_char(c: char) -> bool {
    let u: u32 = c as u32;
    (48 <= u && u <= 57)  // '0' ..= '9'
    || (65 <= u && u <= 90)  // 'A' ..= 'Z'
    || (97 <= u && u <= 122)  // 'a' ..= 'z'
    || u == 95  // '_'
}

/// A whitespace character: space, tab, carriage return or newline.
pub open spec fn is_space_char(c: char) -> bool {
    c == ' ' || c == '\t' || c == '\r' || c == '\n'
}

/// No character is both whitespace and a word character.
pub proof fn lemma_space_char_not_word_char(c: char)
    ensures
        is_space_char(c) ==> !is_word_char(c),
{
}

/// Executable test for [`is_word_char`].
pub fn word_char(c: char) -> (b: bool)
    ensures
        b == is_word_char(c),
{
    let u: u32 = c as u32;
    (48 <= u && u <= 57) || (65 <= u && u <= 90) || (97 <= u && u <= 122) || u == 95
}

/// Executable test for [`is_space_char`].
pub fn space_char(c: char) -> (b: bool)
    ensures
        b == is_space_char(c),
{
    c == ' ' || c == '\t' || c == '\r' || c == '\n'
}

} // verus!
