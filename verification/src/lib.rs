pub mod captures;
pub mod character;
pub mod characterset;
pub mod ehir;
pub mod error;
pub mod hir;
pub mod laws;
pub mod matcher;
pub mod native_regex;
pub mod native_regex_set;
pub mod regexes;
pub mod replacer;
pub mod rust_translate;
pub mod vectormap;

use vstd::prelude::*;

verus! {

/// ASCII word class used by byte-scoped word boundaries: digits, letters
/// and underscore.
pub open spec fn spec_is_word_byte(b: u8) -> bool {
    (48 <= b <= 57) || (65 <= b <= 90) || b == 95 || (97 <= b <= 122)
}

/// ASCII word class on characters: the byte word class below code point
/// 128.
pub open spec fn spec_is_word_char_ascii(c: char) -> bool {
    ('0' <= c <= '9') || ('A' <= c <= 'Z') || c == '_' || ('a' <= c <= 'z')
}

/// What an outside call to the Unicode word-character test returns for a
/// character; the result depends on the character alone.
pub uninterp spec fn unicode_word(c: char) -> bool;

/// Relies on `regex_syntax::is_word_character`: the Unicode word-character
/// test of UTS#18, deterministic in the character. The crate's
/// `unicode-perl` feature is on by default, so the call cannot panic.
#[verifier::external_body]
pub fn is_word_character(character: char) -> (r: bool)
    ensures
        r == unicode_word(character),
{
    regex_syntax::is_word_character(character)
}

/// Reports whether a character belongs to the ASCII word class.
pub fn is_word_char_ascii(c: char) -> (r: bool)
    ensures
        r == spec_is_word_char_ascii(c),
{
    ('0' <= c && c <= '9') || ('A' <= c && c <= 'Z') || c == '_' || ('a' <= c && c <= 'z')
}

/// Reports whether a byte belongs to the ASCII word class.
pub fn is_word_byte(byte: u8) -> (r: bool)
    ensures
        r == spec_is_word_byte(byte),
{
    byte >= 48 && byte <= 57 || byte >= 65 && byte <= 90 || byte == 95 || byte >= 97 && byte <= 122
}

} // verus!
