use vstd::prelude::*;

verus! {

/// Whether `c` has the Unicode `White_Space` property, which these code points
/// have: tab, line feed, vertical tab, form feed, carriage return, space, next line,
/// no-break space, ogham space mark, the spaces U+2000 to U+200A, line and
/// paragraph separator, narrow no-break space, medium mathematical space and
/// ideographic space.
pub open spec fn whitespace_char(c: char) -> bool {
    ('\u{9}' <= c && c <= '\u{d}') || c == ' ' || c == '\u{85}' || c == '\u{a0}' || c
        == '\u{1680}' || ('\u{2000}' <= c && c <= '\u{200a}') || c == '\u{2028}' || c
        == '\u{2029}' || c == '\u{202f}' || c == '\u{205f}' || c == '\u{3000}'
}

/// An ASCII letter.
pub open spec fn is_ascii_letter(c: char) -> bool {
    ('a' <= c && c <= 'z') || ('A' <= c && c <= 'Z')
}

/// A combining mark of the Devanagari script (signs, vowel signs, the virama and
/// the stress and length marks), which continues a word without being a letter
/// or digit itself.
pub open spec fn is_devanagari_mark(c: char) -> bool {
    ('\u{900}' <= c && c <= '\u{903}') || ('\u{93a}' <= c && c <= '\u{94f}') || ('\u{951}'
        <= c && c <= '\u{957}') || ('\u{962}' <= c && c <= '\u{963}')
}

/// Whether `c` has the Unicode `Alphabetic` property.
pub uninterp spec fn alphabetic_char(c: char) -> bool;

/// Whether `c` is in one of the Unicode numeric general categories (`Nd`, `Nl`, `No`).
pub uninterp spec fn numeric_char(c: char) -> bool;

/// An ASCII decimal digit.
pub open spec fn is_digit(c: char) -> bool {
    '0' <= c && c <= '9'
}

/// What `char::is_alphanumeric` accepts: alphabetic or numeric.
pub open spec fn alphanumeric_char(c: char) -> bool {
    alphabetic_char(c) || numeric_char(c)
}

/// What `char::is_whitespace` computes: the `White_Space` property.
pub fn char_is_whitespace(c: char) -> (r: bool)
    ensures
        r == whitespace_char(c),
{
    ('\u{9}' <= c && c <= '\u{d}') || c == ' ' || c == '\u{85}' || c == '\u{a0}' || c
        == '\u{1680}' || ('\u{2000}' <= c && c <= '\u{200a}') || c == '\u{2028}' || c
        == '\u{2029}' || c == '\u{202f}' || c == '\u{205f}' || c == '\u{3000}'
}

pub fn char_is_devanagari_mark(c: char) -> (r: bool)
    ensures
        r == is_devanagari_mark(c),
{
    ('\u{900}' <= c && c <= '\u{903}') || ('\u{93a}' <= c && c <= '\u{94f}') || ('\u{951}'
        <= c && c <= '\u{957}') || ('\u{962}' <= c && c <= '\u{963}')
}

/// Relies on `char::is_alphabetic`; among ASCII characters exactly the letters are
/// alphabetic.
#[verifier::external_body]
pub(crate) fn char_is_alphabetic(c: char) -> (r: bool)
    ensures
        r == alphabetic_char(c),
        c <= '\x7f' ==> (r <==> is_ascii_letter(c)),
{
    c.is_alphabetic()
}

/// Relies on `char::is_numeric`; among ASCII characters exactly the digits are
/// numeric.
#[verifier::external_body]
pub(crate) fn char_is_numeric(c: char) -> (r: bool)
    ensures
        r == numeric_char(c),
        c <= '\x7f' ==> (r <==> is_digit(c)),
{
    c.is_numeric()
}

/// `char::is_alphanumeric`, which its documentation defines as alphabetic or numeric.
pub fn char_is_alphanumeric(c: char) -> (r: bool)
    ensures
        r == alphanumeric_char(c),
{
    char_is_alphabetic(c) || char_is_numeric(c)
}

pub fn char_is_digit(c: char) -> (r: bool)
    ensures
        r == is_digit(c),
{
    '0' <= c && c <= '9'
}

} // verus!
