//! Character classes.

use vstd::prelude::*;

verus! {

/// The characters with Unicode's `White_Space` property.
pub open spec fn whitespace(c: char) -> bool {
    ||| '\u{9}' <= c <= '\u{d}'
    ||| c == '\u{20}'
    ||| c == '\u{85}'
    ||| c == '\u{a0}'
    ||| c == '\u{1680}'
    ||| '\u{2000}' <= c <= '\u{200a}'
    ||| c == '\u{2028}'
    ||| c == '\u{2029}'
    ||| c == '\u{202f}'
    ||| c == '\u{205f}'
    ||| c == '\u{3000}'
}

/// Whether `c` is whitespace.
pub fn is_whitespace(c: char) -> (yes: bool)
    ensures
        yes == whitespace(c),
{
    ('\u{9}' <= c && c <= '\u{d}') || c == '\u{20}' || c == '\u{85}' || c == '\u{a0}' || c
        == '\u{1680}' || ('\u{2000}' <= c && c <= '\u{200a}') || c == '\u{2028}' || c == '\u{2029}'
        || c == '\u{202f}' || c == '\u{205f}' || c == '\u{3000}'
}

/// Whether every character of `text` is whitespace.
pub open spec fn all_whitespace(text: Seq<char>) -> bool {
    forall|i: int| 0 <= i < text.len() ==> #[trigger] whitespace(text[i])
}

/// What `char::is_alphanumeric` answers for a character.
pub uninterp spec fn alphanumeric(c: char) -> bool;

/// `char::is_alphanumeric`: whether `c` is a letter or a number by Unicode's
/// tables, which are not restated here.
#[verifier::external_body]
pub(crate) fn is_alphanumeric(c: char) -> (yes: bool)
    ensures
        yes == alphanumeric(c),
{
    c.is_alphanumeric()
}

/// The blocks of Chinese, Japanese and Korean letters.
pub open spec fn cjk(c: char) -> bool {
    let code = c as u32;
    ||| 0x2E80 <= code <= 0x2FFF
    ||| 0x3040 <= code <= 0x30FF
    ||| 0x3100 <= code <= 0x312F
    ||| 0x3130 <= code <= 0x318F
    ||| 0x31A0 <= code <= 0x31BF
    ||| 0x31F0 <= code <= 0x31FF
    ||| 0x3400 <= code <= 0x4DBF
    ||| 0x4E00 <= code <= 0x9FFF
    ||| 0xA960 <= code <= 0xA97F
    ||| 0xAC00 <= code <= 0xD7AF
    ||| 0xF900 <= code <= 0xFAFF
    ||| 0x20000 <= code <= 0x2FA1F
}

/// Whether `character` belongs to a Chinese, Japanese or Korean block.
pub fn is_cjk(character: char) -> (yes: bool)
    ensures
        yes == cjk(character),
{
    let code: u32 = character as u32;
    (0x2E80 <= code && code <= 0x2FFF) || (0x3040 <= code && code <= 0x30FF) || (0x3100 <= code
        && code <= 0x312F) || (0x3130 <= code && code <= 0x318F) || (0x31A0 <= code && code
        <= 0x31BF) || (0x31F0 <= code && code <= 0x31FF) || (0x3400 <= code && code <= 0x4DBF) || (
    0x4E00 <= code && code <= 0x9FFF) || (0xA960 <= code && code <= 0xA97F) || (0xAC00 <= code
        && code <= 0xD7AF) || (0xF900 <= code && code <= 0xFAFF) || (0x20000 <= code && code
        <= 0x2FA1F)
}

/// `c` in lower case when it is an ASCII letter.
pub open spec fn ascii_lower(c: char) -> char {
    if 'A' <= c <= 'Z' {
        ((c as u32 + 32) as u32) as char
    } else {
        c
    }
}

/// The text with its ASCII letters in lower case.
pub open spec fn lowered(text: Seq<char>) -> Seq<char> {
    text.map_values(|c: char| ascii_lower(c))
}

/// `c` in lower case when it is an ASCII letter.
pub fn to_ascii_lower(c: char) -> (lower: char)
    ensures
        lower == ascii_lower(c),
{
    if 'A' <= c && c <= 'Z' {
        (c as u8 + 32) as char
    } else {
        c
    }
}

} // verus!
