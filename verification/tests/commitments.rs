use identity_agent::commitment::{bytes_equal, commit, Commitment};
use identity_agent::error::AgentError;
use keri_core::actor::prelude::SelfAddressingIdentifier;
use keri_core::prefix::{BasicPrefix, CesrPrimitive};

fn key(text: &str) -> Vec<u8> {
    text.parse::<BasicPrefix>().unwrap().derivative()
}

fn digest(text: &str) -> Vec<u8> {
    text.parse::<SelfAddressingIdentifier>().unwrap().digest
}

#[test]
fn digests_are_those_of_the_keri_vectors() {
    let keys = vec![
        key("DHqJ2DNmypwMKelWXLgl3V-9pDRcOenM5Wf03O1xx1Ri"),
        key("DEIISiMvtnaPTpMHkoGs4d0JdbwjreW53OUBfMedLUaF"),
        key("DDQFJ_uXcZum_DY6NNTtI5UrTEQo6PRWEANpn6hVtfyQ"),
    ];
    let commitment = commit(2, &keys).unwrap();
    assert_eq!(
        commitment,
        Commitment {
            threshold: 2,
            digests: vec![
                digest("EFQZkN8MMEtZzaS-Tq1EEbH886vsf5SzwicSn_ywbzTy"),
                digest("ENOQnUj8GNr1ICJ1P4qmC3-aHTrpZqKVpZhvHCBVWE1p"),
                digest("EDFH1MfEJWlI9PpMbgBi_RGP7L4UivrLfozFucuEaWVH"),
            ],
        }
    );
}

#[test]
fn same_inputs_give_the_same_commitment() {
    let keys = vec![vec![5u8; 32], vec![6u8; 32]];
    assert_eq!(commit(1, &keys).unwrap(), commit(1, &keys).unwrap());
    assert_eq!(commit(1, &keys).unwrap().digests, commit(2, &keys).unwrap().digests);
    assert_ne!(commit(1, &keys).unwrap(), commit(2, &keys).unwrap());
    assert_ne!(commit(1, &vec![vec![5u8; 32]]).unwrap(), commit(1, &vec![vec![6u8; 32]]).unwrap());
}

#[test]
fn digest_is_not_the_key() {
    let commitment = commit(1, &vec![vec![5u8; 32]]).unwrap();
    assert_eq!(commitment.digests.len(), 1);
    assert_eq!(commitment.digests[0].len(), 32);
    assert_ne!(commitment.digests[0], vec![5u8; 32]);
}

#[test]
fn empty_key_set_is_invalid() {
    assert_eq!(commit(1, &vec![]), Err(AgentError::InvalidKeySet));
}

#[test]
fn key_of_wrong_size_is_invalid() {
    assert_eq!(commit(1, &vec![vec![5u8; 31]]), Err(AgentError::InvalidKeySet));
    assert_eq!(commit(1, &vec![vec![5u8; 32], vec![]]), Err(AgentError::InvalidKeySet));
    assert_eq!(commit(1, &vec![vec![5u8; 33], vec![5u8; 32]]), Err(AgentError::InvalidKeySet));
}

#[test]
fn commitment_binds_its_keys_and_no_other() {
    let commitment = commit(1, &vec![vec![5u8; 32], vec![6u8; 32]]).unwrap();
    assert!(commitment.binds(&vec![5u8; 32]));
    assert!(commitment.binds(&vec![6u8; 32]));
    assert!(!commitment.binds(&vec![7u8; 32]));
    assert!(!commitment.binds(&vec![5u8; 31]));
    assert!(!Commitment { threshold: 1, digests: vec![] }.binds(&vec![5u8; 32]));
}

#[test]
fn byte_strings_are_compared_whole() {
    assert!(bytes_equal(&[], &[]));
    assert!(bytes_equal(&[1, 2, 3], &[1, 2, 3]));
    assert!(!bytes_equal(&[1, 2, 3], &[1, 2]));
    assert!(!bytes_equal(&[1, 2], &[1, 2, 3]));
    assert!(!bytes_equal(&[1, 2, 3], &[1, 2, 4]));
    assert!(!bytes_equal(&[0, 2, 3], &[1, 2, 3]));
}
