//! Classification of single characters.

use vstd::prelude::*;

verus! {

/// The one space character that every kind of whitespace is mapped to.
pub const WHITESPACE_CHARACTER: char = ' ';

/// The code points of general category Cc: the C0 and C1 controls and DEL.
pub open spec fn is_control_code(c: char) -> bool {
    c as u32 <= 0x1f || 0x7f <= c as u32 <= 0x9f
}

/// A control character for the purpose of cleaning: tab, line feed and
/// carriage return do not count.
pub open spec fn is_control(c: char) -> bool {
    c != '\t' && c != '\n' && c != '\r' && is_control_code(c)
}

/// The code points with the Unicode property White_Space.
pub open spec fn is_whitespace(c: char) -> bool {
    let cp = c as u32;
    ||| 0x09 <= cp <= 0x0d
    ||| cp == 0x20
    ||| cp == 0x85
    ||| cp == 0xa0
    ||| cp == 0x1680
    ||| 0x2000 <= cp <= 0x200a
    ||| cp == 0x2028
    ||| cp == 0x2029
    ||| cp == 0x202f
    ||| cp == 0x205f
    ||| cp == 0x3000
}

/// The ASCII code points that count as punctuation: everything printable that
/// is neither a letter, a digit nor the space.
pub open spec fn is_ascii_punctuation(c: char) -> bool {
    let cp = c as u32;
    33 <= cp <= 47 || 58 <= cp <= 64 || 91 <= cp <= 96 || 123 <= cp <= 126
}

/// The ideograph blocks whose characters are tokens of their own.
pub open spec fn is_chinese_char(cp: u32) -> bool {
    ||| 0x4E00 <= cp <= 0x9FFF
    ||| 0x3400 <= cp <= 0x4DBF
    ||| 0x20000 <= cp <= 0x2A6DF
    ||| 0x2A700 <= cp <= 0x2B73F
    ||| 0x2B740 <= cp <= 0x2B81F
    ||| 0x2B820 <= cp <= 0x2CEAF
    ||| 0xF900 <= cp <= 0xFAFF
    ||| 0x2F800 <= cp <= 0x2FA1F
}

/// Whether `unicode_categories` places a character in one of the punctuation
/// categories (Pc, Pd, Pe, Pf, Pi, Po, Ps).
pub uninterp spec fn unicode_punctuation(c: char) -> bool;

/// Whether `unicode_categories` places a character in the category Mn.
pub uninterp spec fn nonspacing_mark(c: char) -> bool;

/// A character that stands as a token of its own.
pub open spec fn is_punctuation(c: char) -> bool {
    is_ascii_punctuation(c) || unicode_punctuation(c)
}

/// `UnicodeCategories::is_punctuation` for `char`: a lookup in the crate's
/// tables of the punctuation categories. The result depends on the character
/// alone and is known here only by name.
#[verifier::external_body]
fn in_unicode_punctuation(character: char) -> (b: bool)
    ensures
        b == unicode_punctuation(character),
{
    unicode_categories::UnicodeCategories::is_punctuation(character)
}

/// `UnicodeCategories::is_mark_nonspacing` for `char`: a lookup in the crate's
/// table of the category Mn. The result depends on the character alone and is
/// known here only by name.
#[verifier::external_body]
pub(crate) fn is_mark_nonspacing(character: char) -> (b: bool)
    ensures
        b == nonspacing_mark(character),
{
    unicode_categories::UnicodeCategories::is_mark_nonspacing(character)
}

/// Whether a character is split off as a token of its own.
pub fn _is_punctuation(character: char) -> (b: bool)
    ensures
        b == is_punctuation(character),
{
    let cp = character as u32;
    if cp >= 33 && cp <= 47 || cp >= 58 && cp <= 64 || cp >= 91 && cp <= 96 || cp >= 123 && cp
        <= 126 {
        return true;
    }
    in_unicode_punctuation(character)
}

/// Whether cleaning drops a character as a control character.
pub fn _is_control(character: char) -> (b: bool)
    ensures
        b == is_control(character),
{
    if character == '\t' || character == '\n' || character == '\r' {
        return false;
    }
    let cp = character as u32;
    cp <= 0x1f || (0x7f <= cp && cp <= 0x9f)
}

/// Whether a character separates words.
pub fn _is_whitespace(character: char) -> (b: bool)
    ensures
        b == is_whitespace(character),
{
    let cp = character as u32;
    (0x09 <= cp && cp <= 0x0d) || cp == 0x20 || cp == 0x85 || cp == 0xa0 || cp == 0x1680 || (0x2000
        <= cp && cp <= 0x200a) || cp == 0x2028 || cp == 0x2029 || cp == 0x202f || cp == 0x205f || cp
        == 0x3000
}

/// An ideograph is neither dropped by cleaning nor taken for a separator.
pub proof fn lemma_chinese_char_is_kept(c: char)
    requires
        is_chinese_char(c as u32),
    ensures
        !is_control(c),
        !is_whitespace(c),
        c as u32 != 0,
        c as u32 != 0xFFFD,
        !is_ascii_punctuation(c),
{
}

} // verus!
