//! The failures that the agent reports.

use vstd::prelude::*;

verus! {

/// Which of the two encoded inputs of a verification was not valid base64.
#[derive(Clone, Copy, Debug, PartialEq, Eq, Structural)]
pub enum EncodedInput {
    Signature,
    PublicKey,
}

/// Why an operation of the agent failed.
#[derive(Clone, Copy, Debug, PartialEq, Eq, Structural)]
pub enum AgentError {
    /// The secure random source or the key derivation failed.
    KeyGeneration,
    /// No identifier is registered under the given name.
    NotFound,
    /// An event has no canonical encoding.
    Serialization,
    /// The key that a rotation would show is not the one committed to, or an
    /// earlier event has shown it already.
    CommitmentMismatch,
    /// A key set is empty or holds a key of the wrong size.
    InvalidKeySet,
    /// The current private key could not produce a signature.
    Signing,
    /// An input was not valid base64.
    Encoding(EncodedInput),
    /// The decoded key is not usable cryptographic material.
    Verification,
}

impl AgentError {
    /// The text that describes the failure to a caller.
    pub open spec fn description(self) -> Seq<char> {
        match self {
            AgentError::KeyGeneration => "Key generation failed"@,
            AgentError::NotFound => "No AID found with that name"@,
            AgentError::Serialization => "KEL serialization failed"@,
            AgentError::CommitmentMismatch => "Rotation key does not match the commitment"@,
            AgentError::InvalidKeySet => "Invalid key set"@,
            AgentError::Signing => "Signing failed"@,
            AgentError::Encoding(EncodedInput::Signature) => "Invalid signature encoding"@,
            AgentError::Encoding(EncodedInput::PublicKey) => "Invalid public key encoding"@,
            AgentError::Verification => "Verification failed"@,
        }
    }

    /// Renders the failure as the single message that crosses the boundary
    /// to the caller.
    pub fn message(&self) -> (text: String)
        ensures
            text@ == self.description(),
    {
        let literal = match self {
            AgentError::KeyGeneration => "Key generation failed",
            AgentError::NotFound => "No AID found with that name",
            AgentError::Serialization => "KEL serialization failed",
            AgentError::CommitmentMismatch => "Rotation key does not match the commitment",
            AgentError::InvalidKeySet => "Invalid key set",
            AgentError::Signing => "Signing failed",
            AgentError::Encoding(EncodedInput::Signature) => "Invalid signature encoding",
            AgentError::Encoding(EncodedInput::PublicKey) => "Invalid public key encoding",
            AgentError::Verification => "Verification failed",
        };
        literal.to_owned()
    }
}

} // verus!
