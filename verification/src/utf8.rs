//! Text out of bytes: the two conversions of the standard library that the
//! codec relies on.

use vstd::prelude::*;
use vstd::utf8::*;

verus! {

/// The text that `String::from_utf8_lossy` makes of a byte string. For bytes
/// that are valid UTF-8 it is the text they encode; otherwise the standard
/// library puts U+FFFD in place of each ill-formed sequence.
pub uninterp spec fn lossy_text(bytes: Seq<u8>) -> Seq<char>;

/// `String::from_utf8`, with its error reduced to `None`. Trusted: the
/// standard library accepts exactly the byte strings that are valid UTF-8,
/// and the string it returns holds the text that those bytes encode.
#[verifier::external_body]
pub(crate) fn string_from_utf8(bytes: Vec<u8>) -> (r: Option<String>)
    ensures
        r is Some <==> valid_utf8(bytes@),
        r matches Some(s) ==> s@ == decode_utf8(bytes@),
{
    match String::from_utf8(bytes) {
        Ok(s) => Some(s),
        Err(_) => None,
    }
}

/// `String::from_utf8_lossy`, as an owned string. Trusted: the result is a
/// function of the bytes alone, and for valid UTF-8 it is the text that the
/// bytes encode.
#[verifier::external_body]
pub(crate) fn string_from_utf8_lossy(bytes: &[u8]) -> (r: String)
    ensures
        r@ == lossy_text(bytes@),
        valid_utf8(bytes@) ==> r@ == decode_utf8(bytes@),
{
    String::from_utf8_lossy(bytes).into_owned()
}

} // verus!
