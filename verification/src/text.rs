//! Character classes and small string helpers shared by the lexer and the
//! renderer.  The language recognizes alphabetic characters and the
//! underscore as identifier characters, the decimal digits as number
//! characters, and space, tab, newline and carriage return as whitespace.
//! "Alphabetic" means the Unicode Alphabetic property, as `char::is_alphabetic`
//! decides it: below 128 that is exactly the ASCII letters, spelled out here;
//! above 128 it is named [`alpha_of`] and taken from the standard library.

use vstd::prelude::*;

verus! {

use vstd::string::StrSliceExecFns;

/// Whitespace: space, tab, newline, carriage return.  Skipped by the lexer,
/// never part of a token.
pub open spec fn is_ws_char(c: char) -> bool {
    c == ' ' || c == '\t' || c == '\n' || c == '\r'
}

/// Whether a character beyond ASCII has the Unicode Alphabetic property:
/// what `char::is_alphabetic` returns, a function of the character alone.
pub uninterp spec fn alpha_of(c: char) -> bool;

/// Alphabetic characters: below 128 exactly the ASCII letters, above 128 the
/// characters with the Unicode Alphabetic property.
pub open spec fn is_alpha_char(c: char) -> bool {
    if (c as int) < 128 {
        (97 <= c as int && c as int <= 122)  // 'a' ..= 'z'
        || (65 <= c as int && c as int <= 90)  // 'A' ..= 'Z'
    } else {
        alpha_of(c)
    }
}

/// Identifier characters: alphabetic characters and the underscore.
pub open spec fn is_letter_char(c: char) -> bool {
    is_alpha_char(c) || c == '_'
}

/// Decimal digits.
pub open spec fn is_digit_char(c: char) -> bool {
    48 <= c as int && c as int <= 57  // '0' ..= '9'
}

/// Runtime test for [`is_ws_char`].
pub fn char_is_ws(c: char) -> (r: bool)
    ensures
        r == is_ws_char(c),
{
    c == ' ' || c == '\t' || c == '\n' || c == '\r'
}

/// Relies on `char::is_alphabetic`: true exactly for characters with the
/// Unicode Alphabetic property — below 128 the ASCII letters, above 128 the
/// result named [`alpha_of`].
#[verifier::external_body]
fn char_is_alphabetic(c: char) -> (r: bool)
    ensures
        r == is_alpha_char(c),
        (c as int) >= 128 ==> r == alpha_of(c),
{
    c.is_alphabetic()
}

/// Runtime test for [`is_letter_char`].
pub fn char_is_letter(c: char) -> (r: bool)
    ensures
        r == is_letter_char(c),
{
    char_is_alphabetic(c) || c == '_'
}

/// Runtime test for [`is_digit_char`].
pub fn char_is_digit(c: char) -> (r: bool)
    ensures
        r == is_digit_char(c),
{
    let u = c as u32;
    48 <= u && u <= 57
}

/// Relies on `String::push`: appends exactly the given character to the end
/// of the string.
#[verifier::external_body]
pub fn push_char(s: &mut String, c: char)
    ensures
        final(s)@ == old(s)@.push(c),
{
    s.push(c);
}

/// A fresh one-character string.
pub fn char_to_string(c: char) -> (r: String)
    ensures
        r@ == seq![c],
{
    let mut s = String::new();
    push_char(&mut s, c);
    proof {
        assert(s@ =~= seq![c]);
    }
    s
}

/// Character-for-character string equality, stated over the views.
pub fn str_eq(a: &str, b: &str) -> (r: bool)
    ensures
        r == (a@ == b@),
{
    let na = a.unicode_len();
    let nb = b.unicode_len();
    if na != nb {
        proof {
            assert(a@ != b@);
        }
        return false;
    }
    let mut i: usize = 0;
    while i < na
        invariant
            na == a@.len(),
            nb == b@.len(),
            na == nb,
            i <= na,
            forall|k: int| 0 <= k < i ==> a@[k] == b@[k],
        decreases na - i,
    {
        if a.get_char(i) != b.get_char(i) {
            proof {
                assert(a@[i as int] != b@[i as int]);
            }
            return false;
        }
        i = i + 1;
    }
    proof {
        assert(a@ =~= b@);
    }
    true
}

} // verus!
