//! Character classification used by the lexer.

use vstd::prelude::*;

verus! {

/// The Unicode `White_Space` code points. This is the set of characters the
/// lexer treats as insignificant between constructs.
pub open spec fn is_white_char(c: char) -> bool {
    let u = c as u32;
    u == 0x09 || u == 0x0A || u == 0x0B || u == 0x0C || u == 0x0D || u == 0x20 || u == 0x85
        || u == 0xA0 || u == 0x1680 || (0x2000 <= u && u <= 0x200A) || u == 0x2028 || u == 0x2029
        || u == 0x202F || u == 0x205F || u == 0x3000
}

/// Whether a character outside the ASCII range has the Unicode `Alphabetic`
/// property. Left abstract: the table is large, and the lexer's behaviour is
/// stated relative to it.
pub uninterp spec fn unicode_alpha(c: char) -> bool;

/// The Unicode `Alphabetic` property, exact on the ASCII range (where the
/// letters `A`-`Z` and `a`-`z` are the only alphabetic characters) and
/// abstract beyond it.
pub open spec fn is_alpha_char(c: char) -> bool {
    let u = c as u32;
    if u < 0x80 {
        (0x41 <= u && u <= 0x5A) || (0x61 <= u && u <= 0x7A)
    } else {
        unicode_alpha(c)
    }
}

/// The ASCII whitespace characters: tab through carriage return, and space.
pub open spec fn is_ascii_white_char(c: char) -> bool {
    let u = c as u32;
    u == 0x09 || u == 0x0A || u == 0x0B || u == 0x0C || u == 0x0D || u == 0x20
}

/// Characters that may open a selector: `*`, `.`, `#`, or an alphabetic
/// character.
pub open spec fn is_sel_start_char(c: char) -> bool {
    c == '*' || c == '.' || c == '#' || is_alpha_char(c)
}

/// Executable whitespace test, verified against [`is_white_char`].
pub fn is_whitespace_char(c: char) -> (r: bool)
    ensures
        r == is_white_char(c),
{
    let u = c as u32;
    u == 0x09 || u == 0x0A || u == 0x0B || u == 0x0C || u == 0x0D || u == 0x20 || u == 0x85
        || u == 0xA0 || u == 0x1680 || (0x2000 <= u && u <= 0x200A) || u == 0x2028 || u == 0x2029
        || u == 0x202F || u == 0x205F || u == 0x3000
}

/// Relies on `char::is_alphabetic`, the Unicode `Alphabetic` property: within
/// the ASCII range exactly the letters `A`-`Z` and `a`-`z` are alphabetic, and
/// the result depends on the character alone.
#[verifier::external_body]
pub(crate) fn char_is_alphabetic(c: char) -> (r: bool)
    ensures
        r == is_alpha_char(c),
        c as u32 >= 0x80 ==> r == unicode_alpha(c),
{
    c.is_alphabetic()
}

} // verus!
