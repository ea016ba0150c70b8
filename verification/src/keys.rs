//! The pair of Ed25519 keypairs behind one identifier: the current one, which
//! signs, and the next one, of which only a commitment is published until a
//! rotation makes it the current one.

use vstd::prelude::*;
use crate::commitment::bytes_equal;
use crate::error::AgentError;
use crate::verification::{ed25519_accepts, verify_decoded, PUBLIC_KEY_BYTES, SIGNATURE_BYTES};
use keri_core::signer::{CryptoBox, KeyManager};

verus! {

#[verifier::external_type_specification]
#[verifier::external_body]
pub struct ExCryptoBox(CryptoBox);

#[verifier::external_type_specification]
#[verifier::external_body]
pub struct ExKeriError(keri_core::error::Error);

/// `CryptoBox::new` of keri_core: a fresh current and next keypair from the
/// system's random source. Nothing is claimed of the keys.
#[verifier::external_body]
fn fresh_key_box() -> (made: Result<CryptoBox, keri_core::error::Error>) {
    CryptoBox::new()
}

/// `KeyManager::public_key` of keri_core on a `CryptoBox`: the bytes of the
/// current public key. Nothing is claimed of them.
#[verifier::external_body]
fn current_public_of(secrets: &CryptoBox) -> (key: Vec<u8>) {
    secrets.public_key().key()
}

/// `KeyManager::next_public_key` of keri_core on a `CryptoBox`: the bytes of
/// the next public key. Nothing is claimed of them.
#[verifier::external_body]
fn next_public_of(secrets: &CryptoBox) -> (key: Vec<u8>) {
    secrets.next_public_key().key()
}

/// `KeyManager::sign` of keri_core on a `CryptoBox`: a signature over
/// `message` by the current private key. Nothing is claimed of it.
#[verifier::external_body]
fn sign_with(secrets: &CryptoBox, message: &[u8]) -> (signed: Result<Vec<u8>, keri_core::error::Error>) {
    secrets.sign(message)
}

/// `KeyManager::rotate` of keri_core on a `CryptoBox`: the next keypair
/// becomes the current one, and a fresh next keypair is drawn from the
/// system's random source. Not proved here: that a call that fails leaves
/// the key box as it was. Nothing is claimed of the keys.
#[verifier::external_body]
fn rotate_key_box(secrets: &mut CryptoBox) -> (turned: Result<(), keri_core::error::Error>)
    ensures
        turned is Err ==> *final(secrets) == *old(secrets),
{
    secrets.rotate()
}

/// The key material of one identifier. The private halves stay inside the
/// key box; the two public keys are kept beside it as plain bytes.
pub struct KeyMaterial {
    secrets: CryptoBox,
    current: Vec<u8>,
    next: Vec<u8>,
}

impl KeyMaterial {
    /// The current public key.
    pub closed spec fn current_key(&self) -> Seq<u8> {
        self.current@
    }

    /// The next public key, which no event shows before a rotation makes
    /// it the current one.
    pub closed spec fn next_key(&self) -> Seq<u8> {
        self.next@
    }

    /// Both public keys have the size of an Ed25519 key.
    #[verifier::type_invariant]
    pub open spec fn sized(&self) -> bool {
        &&& self.current_key().len() == PUBLIC_KEY_BYTES
        &&& self.next_key().len() == PUBLIC_KEY_BYTES
    }

    /// Generates a fresh current and next keypair.
    pub fn generate() -> (made: Result<KeyMaterial, AgentError>)
        ensures
            made matches Err(e) ==> e == AgentError::KeyGeneration,
    {
        match fresh_key_box() {
            Ok(secrets) => {
                let current = current_public_of(&secrets);
                let next = next_public_of(&secrets);
                KeyMaterial::assemble(secrets, current, next)
            },
            Err(_) => Err(AgentError::KeyGeneration),
        }
    }

    /// Puts a key box together with the two public keys read from it. Keys of
    /// another size than an Ed25519 key are refused.
    pub fn assemble(secrets: CryptoBox, current: Vec<u8>, next: Vec<u8>) -> (made: Result<KeyMaterial, AgentError>)
        ensures
            made is Ok <==> current@.len() == PUBLIC_KEY_BYTES && next@.len() == PUBLIC_KEY_BYTES,
            made matches Ok(keys) ==> keys.current_key() == current@ && keys.next_key() == next@,
            made matches Err(e) ==> e == AgentError::KeyGeneration,
    {
        if current.len() == PUBLIC_KEY_BYTES && next.len() == PUBLIC_KEY_BYTES {
            Ok(KeyMaterial { secrets, current, next })
        } else {
            Err(AgentError::KeyGeneration)
        }
    }

    /// Turns the key material for a rotation: the next keypair becomes the
    /// current one and a fresh next keypair is drawn. Where no keypair could
    /// be drawn, or the key box does not hand out the former next key as its
    /// current one, the key material comes back with its public keys as
    /// they were.
    pub fn turned(self) -> (outcome: Result<KeyMaterial, KeyMaterial>)
        ensures
            match outcome {
                Ok(keys) => keys.current_key() == self.next_key(),
                Err(back) => back.current_key() == self.current_key() && back.next_key()
                    == self.next_key(),
            },
    {
        proof {
            use_type_invariant(&self);
        }
        let KeyMaterial { secrets, current, next } = self;
        let mut secrets = secrets;
        match rotate_key_box(&mut secrets) {
            Ok(_) => {
                let new_current = current_public_of(&secrets);
                let new_next = next_public_of(&secrets);
                if keys_follow(next.as_slice(), new_current.as_slice(), new_next.as_slice()) {
                    Ok(KeyMaterial { secrets, current: new_current, next: new_next })
                } else {
                    Err(KeyMaterial { secrets, current, next })
                }
            },
            Err(_) => Err(KeyMaterial { secrets, current, next }),
        }
    }

    /// A copy of the current public key.
    pub fn current_public(&self) -> (key: Vec<u8>)
        ensures
            key@ == self.current_key(),
            key@.len() == PUBLIC_KEY_BYTES,
    {
        proof {
            use_type_invariant(self);
        }
        self.current.clone()
    }

    /// A copy of the next public key.
    pub fn next_public(&self) -> (key: Vec<u8>)
        ensures
            key@ == self.next_key(),
            key@.len() == PUBLIC_KEY_BYTES,
    {
        proof {
            use_type_invariant(self);
        }
        self.next.clone()
    }

    /// Signs `message` with the current private key. The signature is
    /// handed out only after it has been verified against the current
    /// public key, so whatever is returned verifies.
    pub fn sign(&self, message: &[u8]) -> (signed: Result<Vec<u8>, AgentError>)
        ensures
            signed matches Ok(signature) ==> signature@.len() == SIGNATURE_BYTES && ed25519_accepts(
                self.current_key(),
                message@,
                signature@,
            ),
            signed matches Err(e) ==> e == AgentError::Signing,
    {
        match sign_with(&self.secrets, message) {
            Ok(signature) => accept_signature(signature, message, self.current.as_slice()),
            Err(_) => Err(AgentError::Signing),
        }
    }
}

/// Whether the keys read from a key box after a rotation follow the keys
/// before it: the current key is the key that was next, and both have the
/// size of an Ed25519 key.
pub fn keys_follow(former_next: &[u8], current: &[u8], next: &[u8]) -> (follow: bool)
    ensures
        follow == (current@ == former_next@ && current@.len() == PUBLIC_KEY_BYTES && next@.len()
            == PUBLIC_KEY_BYTES),
{
    bytes_equal(current, former_next) && current.len() == PUBLIC_KEY_BYTES && next.len()
        == PUBLIC_KEY_BYTES
}

/// Lets a signature over `message` through if it verifies under `key`.
pub fn accept_signature(signature: Vec<u8>, message: &[u8], key: &[u8]) -> (signed: Result<Vec<u8>, AgentError>)
    ensures
        signed == if key@.len() == PUBLIC_KEY_BYTES && ed25519_accepts(
            key@,
            message@,
            signature@,
        ) {
            Ok::<Vec<u8>, AgentError>(signature)
        } else {
            Err::<Vec<u8>, AgentError>(AgentError::Signing)
        },
        signed is Ok ==> signature@.len() == SIGNATURE_BYTES,
{
    match verify_decoded(message, signature.as_slice(), key) {
        Ok(true) => Ok(signature),
        _ => Err(AgentError::Signing),
    }
}

} // verus!
