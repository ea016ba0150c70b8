//! Stateless verification of a detached signature.

use vstd::prelude::*;
use crate::encoding::{base64_bytes, decode_base64};
use crate::error::{AgentError, EncodedInput};
use keri_core::event::sections::key_config::SignatureError;
use keri_core::keys::PublicKey;
use keri_core::prefix::{BasicPrefix, SelfSigningPrefix};

verus! {

/// The size of an Ed25519 public key in bytes.
pub const PUBLIC_KEY_BYTES: usize = 32;

/// The size of an Ed25519 signature in bytes.
pub const SIGNATURE_BYTES: usize = 64;

/// Whether the Ed25519 check accepts `signature` for `message` under the
/// 32-byte public key `key`.
pub uninterp spec fn ed25519_accepts(key: Seq<u8>, message: Seq<u8>, signature: Seq<u8>) -> bool;

#[verifier::external_type_specification]
#[verifier::external_body]
pub struct ExSignatureError(SignatureError);

/// `BasicPrefix::verify` of keri_core, on an Ed25519 key and an Ed25519
/// signature. Not proved here: that for this pair of kinds the call always
/// returns `Ok`, that its answer is `ed25519_accepts` of the three byte
/// strings, and that a signature of another size than 64 bytes is never
/// accepted. A key of another size than 32 bytes makes the call panic, so it
/// is left out.
#[verifier::external_body]
fn ed25519_verify(key: &[u8], message: &[u8], signature: &[u8]) -> (outcome: Result<bool, SignatureError>)
    requires
        key@.len() == PUBLIC_KEY_BYTES,
    ensures
        outcome is Ok,
        outcome->Ok_0 == ed25519_accepts(key@, message@, signature@),
        signature@.len() != SIGNATURE_BYTES ==> !outcome->Ok_0,
{
    let key = BasicPrefix::Ed25519(PublicKey::new(key.to_vec()));
    key.verify(message, &SelfSigningPrefix::Ed25519Sha512(signature.to_vec()))
}

/// What verification returns for the decoded signature and key: an error for
/// a key that is not 32 bytes long, else the verdict of the Ed25519 check. A
/// signature that merely does not match gives `Ok(false)`.
pub open spec fn verdict(message: Seq<u8>, signature: Seq<u8>, key: Seq<u8>) -> Result<bool, AgentError> {
    if key.len() != PUBLIC_KEY_BYTES {
        Err(AgentError::Verification)
    } else {
        Ok(ed25519_accepts(key, message, signature))
    }
}

/// What verification returns for the two encoded inputs: the signature is
/// decoded first, then the key, then the decoded pair is judged.
pub open spec fn encoded_verdict(message: Seq<u8>, signature: Seq<char>, public_key: Seq<char>) -> Result<bool, AgentError> {
    match base64_bytes(signature) {
        None => Err(AgentError::Encoding(EncodedInput::Signature)),
        Some(signature_bytes) => match base64_bytes(public_key) {
            None => Err(AgentError::Encoding(EncodedInput::PublicKey)),
            Some(key_bytes) => verdict(message, signature_bytes, key_bytes),
        },
    }
}

/// Verifies a raw signature against a raw public key.
pub fn verify_decoded(message: &[u8], signature: &[u8], public_key: &[u8]) -> (outcome: Result<bool, AgentError>)
    ensures
        outcome == verdict(message@, signature@, public_key@),
        signature@.len() != SIGNATURE_BYTES && public_key@.len() == PUBLIC_KEY_BYTES ==> outcome
            == Ok::<bool, AgentError>(false),
{
    if public_key.len() != PUBLIC_KEY_BYTES {
        return Err(AgentError::Verification);
    }
    match ed25519_verify(public_key, message, signature) {
        Ok(accepted) => Ok(accepted),
        Err(_) => Err(AgentError::Verification),
    }
}

/// Verifies a base64 signature over `data` against a base64 public key.
pub fn verify_signature(data: Vec<u8>, signature: String, public_key: String) -> (outcome: Result<bool, AgentError>)
    ensures
        outcome == encoded_verdict(data@, signature@, public_key@),
        match (base64_bytes(signature@), base64_bytes(public_key@)) {
            (Some(signature_bytes), Some(key_bytes)) => key_bytes.len() == PUBLIC_KEY_BYTES
                && signature_bytes.len() != SIGNATURE_BYTES ==> outcome == Ok::<bool, AgentError>(
                false,
            ),
            _ => true,
        },
{
    let signature_bytes = match decode_base64(signature.as_str()) {
        Ok(bytes) => bytes,
        Err(_) => {
            return Err(AgentError::Encoding(EncodedInput::Signature));
        },
    };
    let key_bytes = match decode_base64(public_key.as_str()) {
        Ok(bytes) => bytes,
        Err(_) => {
            return Err(AgentError::Encoding(EncodedInput::PublicKey));
        },
    };
    verify_decoded(data.as_slice(), signature_bytes.as_slice(), key_bytes.as_slice())
}

} // verus!
