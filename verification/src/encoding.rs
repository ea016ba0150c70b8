//! Base64 text for keys and signatures that cross the boundary to a caller.

use vstd::prelude::*;

verus! {

/// The standard, padded base64 text of a byte string.
pub uninterp spec fn base64_text(bytes: Seq<u8>) -> Seq<char>;

/// The bytes that a standard, padded base64 text stands for, or `None` where
/// the text is not valid base64.
pub uninterp spec fn base64_bytes(text: Seq<char>) -> Option<Seq<u8>>;

#[verifier::external_type_specification]
#[verifier::external_body]
pub struct ExDecodeError(base64::DecodeError);

/// `base64::encode`: the text of `bytes` under the standard alphabet with
/// padding. Not proved here: that the text is `base64_text(bytes)`, and that
/// decoding this text gives `bytes` back.
#[verifier::external_body]
#[allow(deprecated)]
pub(crate) fn encode_base64(bytes: &[u8]) -> (text: String)
    ensures
        text@ == base64_text(bytes@),
        base64_bytes(text@) == Some(bytes@),
{
    base64::encode(bytes)
}

/// `base64::decode`: the bytes of a standard, padded base64 text. Not proved
/// here: that it succeeds exactly where `base64_bytes(text)` is defined, and
/// then returns those bytes.
#[verifier::external_body]
#[allow(deprecated)]
pub(crate) fn decode_base64(text: &str) -> (decoded: Result<Vec<u8>, base64::DecodeError>)
    ensures
        match decoded {
            Ok(bytes) => base64_bytes(text@) == Some(bytes@),
            Err(_) => base64_bytes(text@) is None,
        },
{
    base64::decode(text)
}

} // verus!
