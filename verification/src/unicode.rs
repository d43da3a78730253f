//! Text decoding and case mapping that std performs for the library.
use vstd::prelude::*;
use vstd::utf8::{decode_utf8, valid_utf8};

verus! {

/// What `String::from_utf8_lossy` makes of a byte sequence.
pub uninterp spec fn utf8_lossy_text(bytes: Seq<u8>) -> Seq<char>;

/// A UTF-16 surrogate code unit.
pub open spec fn is_surrogate(u: u16) -> bool {
    0xd800 <= u <= 0xdfff
}

/// A leading (high) surrogate.
pub open spec fn is_high_surrogate(u: u16) -> bool {
    0xd800 <= u <= 0xdbff
}

/// A trailing (low) surrogate.
pub open spec fn is_low_surrogate(u: u16) -> bool {
    0xdc00 <= u <= 0xdfff
}

/// The characters that UTF-16 code units decode to, each unpaired
/// surrogate replaced by U+FFFD: a unit that is not a surrogate is its own
/// character, a high surrogate followed by a low one is one character, and
/// after an unpaired surrogate decoding resumes at the next unit.
pub open spec fn utf16_decode(units: Seq<u16>) -> Seq<char>
    decreases units.len(),
{
    if units.len() == 0 {
        Seq::empty()
    } else if !is_surrogate(units[0]) {
        seq![(units[0] as u32) as char] + utf16_decode(units.drop_first())
    } else if is_high_surrogate(units[0]) && units.len() >= 2 && is_low_surrogate(units[1]) {
        seq![
            ((0x10000 + (units[0] - 0xd800) * 1024 + (units[1] - 0xdc00)) as u32) as char,
        ] + utf16_decode(units.skip(2))
    } else {
        seq!['\u{fffd}'] + utf16_decode(units.drop_first())
    }
}

/// What `str::to_lowercase` makes of a text.
pub uninterp spec fn lowercase_text(s: Seq<char>) -> Seq<char>;

/// `String::from_utf8_lossy`: decodes the bytes as UTF-8, putting U+FFFD in
/// place of each invalid sequence. Its documentation states that valid UTF-8
/// is decoded unchanged, which the second clause says; the result on invalid
/// input is left to the name `utf8_lossy_text`.
#[verifier::external_body]
pub(crate) fn utf8_lossy(bytes: &[u8]) -> (s: String)
    ensures
        s@ == utf8_lossy_text(bytes@),
        valid_utf8(bytes@) ==> s@ == decode_utf8(bytes@),
{
    String::from_utf8_lossy(bytes).into_owned()
}

/// `String::from_utf16_lossy`: decodes UTF-16 code units, surrogate pairs
/// included, putting U+FFFD in place of each unpaired surrogate (std's
/// `decode_utf16` with errors replaced), as `utf16_decode` states.
#[verifier::external_body]
pub(crate) fn utf16_lossy(units: &[u16]) -> (s: String)
    ensures
        s@ == utf16_decode(units@),
{
    String::from_utf16_lossy(units)
}

/// `str::to_lowercase`: the Unicode lowercase mapping of the text. The result
/// is left to the name `lowercase_text`.
#[verifier::external_body]
pub(crate) fn to_lowercase(s: &str) -> (r: String)
    ensures
        r@ == lowercase_text(s@),
{
    s.to_lowercase()
}

} // verus!
