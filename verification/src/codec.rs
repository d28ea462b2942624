//! Base64, UTF-8 and letter case: what the relay has from `base64` and the standard library.
use base64::Engine;
use vstd::prelude::*;
use vstd::utf8::{decode_utf8, is_ascii_chars, valid_utf8};

verus! {

/// Why `base64` refused a text.
#[verifier::external_type_specification]
#[verifier::external_body]
pub struct ExDecodeError(base64::DecodeError);

/// The bytes that the text stands for in standard, padded Base64; `None` where the text is not
/// such an encoding.
pub uninterp spec fn base64_decoded(text: Seq<char>) -> Option<Seq<u8>>;

/// The standard, padded Base64 encoding of the bytes.
pub uninterp spec fn base64_encoded(bytes: Seq<u8>) -> Seq<char>;

/// A character of standard, padded Base64.
pub open spec fn is_base64_char(c: char) -> bool {
    'A' <= c <= 'Z' || 'a' <= c <= 'z' || '0' <= c <= '9' || c == '+' || c == '/' || c == '='
}

/// `bytes` are few enough for their Base64 encoding to fit in memory.
pub open spec fn base64_fits(bytes: Seq<u8>) -> bool {
    (bytes.len() + 2) / 3 * 4 <= isize::MAX
}

/// `Engine::decode` of the engine `STANDARD`: the result is a function of the text alone.
#[verifier::external_body]
pub(crate) fn base64_decode(text: &str) -> (r: Result<Vec<u8>, base64::DecodeError>)
    ensures
        match r {
            Ok(v) => base64_decoded(text@) == Some(v@),
            Err(_) => base64_decoded(text@) is None,
        },
{
    base64::engine::general_purpose::STANDARD.decode(text)
}

/// `Engine::encode` of the engine `STANDARD`: the result is a function of the bytes alone, holds
/// characters of the standard alphabet and padding only, and decoding it with the same engine gives
/// the bytes back. It panics where the encoding is too large to allocate.
#[verifier::external_body]
pub(crate) fn base64_encode(bytes: &[u8]) -> (r: String)
    requires
        base64_fits(bytes@),
    ensures
        r@ == base64_encoded(bytes@),
        base64_decoded(r@) == Some(bytes@),
        forall|i: int| 0 <= i < r@.len() ==> is_base64_char(#[trigger] r@[i]),
{
    base64::engine::general_purpose::STANDARD.encode(bytes)
}

/// `String::from_utf8`: the text that the bytes encode, if they are valid UTF-8.
#[verifier::external_body]
pub(crate) fn utf8_text(bytes: Vec<u8>) -> (r: Option<String>)
    ensures
        match r {
            Some(s) => valid_utf8(bytes@) && s@ == decode_utf8(bytes@),
            None => !valid_utf8(bytes@),
        },
{
    String::from_utf8(bytes).ok()
}

/// The text of bytes that are not valid UTF-8, with replacement characters in it.
pub uninterp spec fn repaired_text(bytes: Seq<u8>) -> Seq<char>;

/// A carriage return or line feed of the text stands in the bytes too.
pub open spec fn adds_no_breaks(text: Seq<char>, bytes: Seq<u8>) -> bool {
    &&& text.contains('\r') ==> bytes.contains(13)
    &&& text.contains('\n') ==> bytes.contains(10)
}

/// The text of the bytes: what they encode where they are valid UTF-8, otherwise a repaired text,
/// which has no line breaks that the bytes have not.
pub open spec fn lossy_text(bytes: Seq<u8>) -> Seq<char> {
    if valid_utf8(bytes) {
        decode_utf8(bytes)
    } else if adds_no_breaks(repaired_text(bytes), bytes) {
        repaired_text(bytes)
    } else {
        Seq::empty()
    }
}

/// `String::from_utf8_lossy`: the text that valid UTF-8 encodes; of other bytes the result is a
/// function of the bytes alone. What is put in place of invalid bytes is no line break.
#[verifier::external_body]
pub(crate) fn utf8_lossy(bytes: &[u8]) -> (r: String)
    ensures
        valid_utf8(bytes@) ==> r@ == decode_utf8(bytes@),
        !valid_utf8(bytes@) ==> r@ == repaired_text(bytes@) && adds_no_breaks(r@, bytes@),
{
    String::from_utf8_lossy(bytes).into_owned()
}

/// An ASCII letter in upper case; any other character as it is.
pub open spec fn ascii_upper(c: char) -> char {
    if 'a' <= c <= 'z' {
        ((c as u32 - 32) as u32) as char
    } else {
        c
    }
}

/// An ASCII letter in lower case; any other character as it is.
pub open spec fn ascii_lower(c: char) -> char {
    if 'A' <= c <= 'Z' {
        ((c as u32 + 32) as u32) as char
    } else {
        c
    }
}

/// The upper case of a text that holds more than ASCII, by Unicode's rules.
pub uninterp spec fn unicode_upper(s: Seq<char>) -> Seq<char>;

/// The lower case of a text that holds more than ASCII, by Unicode's rules.
pub uninterp spec fn unicode_lower(s: Seq<char>) -> Seq<char>;

/// Where the text `s` begins with ASCII, `upper` begins with the same characters in upper case.
pub open spec fn begins_in_upper(upper: Seq<char>, s: Seq<char>) -> bool {
    forall|n: int|
        0 <= n <= s.len() && is_ascii_chars(#[trigger] s.take(n)) ==> n <= upper.len()
            && upper.take(n) == s.take(n).map_values(|c: char| ascii_upper(c))
}

/// The text in upper case. What a text that holds more than ASCII begins with in ASCII changes one
/// for one.
pub open spec fn uppercase(s: Seq<char>) -> Seq<char> {
    if !is_ascii_chars(s) && begins_in_upper(unicode_upper(s), s) {
        unicode_upper(s)
    } else {
        s.map_values(|c: char| ascii_upper(c))
    }
}

/// The text in lower case.
pub open spec fn lowercase(s: Seq<char>) -> Seq<char> {
    if is_ascii_chars(s) {
        s.map_values(|c: char| ascii_lower(c))
    } else {
        unicode_lower(s)
    }
}

/// `str::to_uppercase`: ASCII letters change one for one, and so does the beginning of any text as
/// long as it is ASCII; of a text that holds more than ASCII the result is a function of the text
/// alone.
#[verifier::external_body]
pub(crate) fn to_uppercase(s: &str) -> (r: String)
    ensures
        is_ascii_chars(s@) ==> r@ == s@.map_values(|c: char| ascii_upper(c)),
        !is_ascii_chars(s@) ==> r@ == unicode_upper(s@) && begins_in_upper(r@, s@),
{
    s.to_uppercase()
}

/// `str::to_lowercase`: ASCII letters change one for one; of a text that holds more than ASCII
/// the result is a function of the text alone.
#[verifier::external_body]
pub(crate) fn to_lowercase(s: &str) -> (r: String)
    ensures
        is_ascii_chars(s@) ==> r@ == s@.map_values(|c: char| ascii_lower(c)),
        !is_ascii_chars(s@) ==> r@ == unicode_lower(s@),
{
    s.to_lowercase()
}

} // verus!
