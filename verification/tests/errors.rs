use identity_agent::error::{AgentError, EncodedInput};

#[test]
fn every_error_has_its_message() {
    assert_eq!(AgentError::KeyGeneration.message(), "Key generation failed");
    assert_eq!(AgentError::NotFound.message(), "No AID found with that name");
    assert_eq!(AgentError::Serialization.message(), "KEL serialization failed");
    assert_eq!(AgentError::InvalidKeySet.message(), "Invalid key set");
    assert_eq!(
        AgentError::CommitmentMismatch.message(),
        "Rotation key does not match the commitment"
    );
    assert_eq!(AgentError::Signing.message(), "Signing failed");
    assert_eq!(
        AgentError::Encoding(EncodedInput::Signature).message(),
        "Invalid signature encoding"
    );
    assert_eq!(
        AgentError::Encoding(EncodedInput::PublicKey).message(),
        "Invalid public key encoding"
    );
    assert_eq!(AgentError::Verification.message(), "Verification failed");
}
