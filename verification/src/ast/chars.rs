use vstd::prelude::*;

verus! {

/// Whether `c` has the Unicode `White_Space` property.
pub open spec fn spec_is_whitespace(c: char) -> bool {
    ('\u{9}' <= c && c <= '\u{D}') || c == ' ' || c == '\u{85}' || c == '\u{A0}' || c == '\u{1680}'
        || ('\u{2000}' <= c && c <= '\u{200A}') || c == '\u{2028}' || c == '\u{2029}'
        || c == '\u{202F}' || c == '\u{205F}' || c == '\u{3000}'
}

/// Whether `c` has the Unicode `White_Space` property.
pub fn is_whitespace(c: char) -> (r: bool)
    ensures
        r == spec_is_whitespace(c),
{
    ('\u{9}' <= c && c <= '\u{D}') || c == ' ' || c == '\u{85}' || c == '\u{A0}' || c == '\u{1680}'
        || ('\u{2000}' <= c && c <= '\u{200A}') || c == '\u{2028}' || c == '\u{2029}'
        || c == '\u{202F}' || c == '\u{205F}' || c == '\u{3000}'
}

/// Whether `c` is a decimal digit.
pub open spec fn spec_is_digit(c: char) -> bool {
    '0' <= c && c <= '9'
}

/// Whether `c` is a decimal digit.
pub fn is_digit(c: char) -> (r: bool)
    ensures
        r == spec_is_digit(c),
{
    '0' <= c && c <= '9'
}

/// Whether `c` is an ASCII letter.
pub open spec fn spec_is_ascii_letter(c: char) -> bool {
    ('a' <= c && c <= 'z') || ('A' <= c && c <= 'Z')
}

/// What `char::is_alphabetic` returns for `c`.
pub uninterp spec fn char_is_alphabetic(c: char) -> bool;

/// What `char::is_alphanumeric` returns for `c`.
pub uninterp spec fn char_is_alphanumeric(c: char) -> bool;

/// `char::is_alphabetic`: whether `c` has the Unicode `Alphabetic`
/// property. Among ASCII characters exactly the letters have it; for other
/// characters the result is left to the name `char_is_alphabetic`.
#[verifier::external_body]
pub(crate) fn is_alphabetic(c: char) -> (r: bool)
    ensures
        r == char_is_alphabetic(c),
        (c as u32) < 128 ==> (r == spec_is_ascii_letter(c)),
{
    c.is_alphabetic()
}

/// `char::is_alphanumeric`: whether `c` is alphabetic or numeric. Among
/// ASCII characters exactly the letters and the digits are; for other
/// characters the result is left to the name `char_is_alphanumeric`.
#[verifier::external_body]
pub(crate) fn is_alphanumeric(c: char) -> (r: bool)
    ensures
        r == char_is_alphanumeric(c),
        (c as u32) < 128 ==> (r == (spec_is_ascii_letter(c) || spec_is_digit(c))),
{
    c.is_alphanumeric()
}

/// Whether a name may start with `c`.
pub open spec fn spec_is_start_of_name(c: char) -> bool {
    char_is_alphabetic(c) || c == '_' || c == '$'
}

/// Whether a name may continue with `c`.
pub open spec fn spec_is_part_of_name(c: char) -> bool {
    char_is_alphanumeric(c) || c == '_' || c == '$'
}

/// Whether a name may start with `c`.
pub fn is_start_of_name(c: char) -> (r: bool)
    ensures
        r == spec_is_start_of_name(c),
        (c as u32) < 128 ==> (r == (spec_is_ascii_letter(c) || c == '_' || c == '$')),
{
    is_alphabetic(c) || c == '_' || c == '$'
}

/// Whether a name may continue with `c`.
pub fn is_part_of_name(c: char) -> (r: bool)
    ensures
        r == spec_is_part_of_name(c),
        (c as u32) < 128 ==> (r == (spec_is_ascii_letter(c) || spec_is_digit(c) || c == '_' || c == '$')),
{
    is_alphanumeric(c) || c == '_' || c == '$'
}

/// `String::from_iter` over the characters of `chars`: the string made of
/// those characters, in order.
#[verifier::external_body]
pub(crate) fn string_from_chars(chars: &Vec<char>) -> (r: String)
    ensures
        r@ == chars@,
{
    chars.iter().collect()
}

} // verus!
