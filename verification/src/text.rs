//! Decoding of platform byte strings into text.

use vstd::prelude::*;
use vstd::utf8::{decode_utf8, valid_utf8};

verus! {

/// [`std::str::Utf8Error`], carried as an opaque value.
#[verifier::external_type_specification]
#[verifier::external_body]
pub struct ExUtf8Error(std::str::Utf8Error);

/// What [`String::from_utf8_lossy`] makes of a byte string.
pub uninterp spec fn lossy_text(bytes: Seq<u8>) -> Seq<char>;

/// Specification of [`std::str::from_utf8`]: it succeeds exactly on well-formed
/// UTF-8, and the text it returns is the decoding of the bytes.
pub assume_specification[ std::str::from_utf8 ](bytes: &[u8]) -> (res: Result<
    &str,
    std::str::Utf8Error,
>)
    ensures
        res is Ok <==> valid_utf8(bytes@),
        res matches Ok(s) ==> s@ == decode_utf8(bytes@),
;

/// Calls [`String::from_utf8_lossy`]. The result depends on the bytes alone; on
/// well-formed UTF-8 it is the decoding of the bytes, unchanged.
#[verifier::external_body]
pub(crate) fn decode_lossy(bytes: &[u8]) -> (res: String)
    ensures
        res@ == lossy_text(bytes@),
        valid_utf8(bytes@) ==> res@ == decode_utf8(bytes@),
{
    String::from_utf8_lossy(bytes).into_owned()
}

} // verus!
