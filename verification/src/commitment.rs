//! Pre-rotation commitments: digests that bind the next keys before any of
//! them is shown.

use vstd::prelude::*;
use crate::error::AgentError;
use crate::verification::PUBLIC_KEY_BYTES;
use cesrox::primitives::codes::self_addressing::SelfAddressing;
use keri_core::event::sections::key_config::nxt_commitment;
use keri_core::event::sections::threshold::SignatureThreshold;
use keri_core::keys::PublicKey;
use keri_core::prefix::BasicPrefix;

verus! {

/// The Blake3-256 digest that commits to one Ed25519 public key.
pub uninterp spec fn key_digest(key: Seq<u8>) -> Seq<u8>;

/// The byte strings held by a vector of byte vectors.
pub open spec fn rows(vectors: Seq<Vec<u8>>) -> Seq<Seq<u8>> {
    vectors.map_values(|row: Vec<u8>| row@)
}

/// `nxt_commitment` of keri_core, on Ed25519 keys and with Blake3-256: one
/// digest for each key, in the order of the keys. Not proved here: that the
/// digest at each place is `key_digest` of the key at that place.
#[verifier::external_body]
fn next_key_digests(threshold: u64, keys: &Vec<Vec<u8>>) -> (digests: Vec<Vec<u8>>)
    ensures
        digests@.len() == keys@.len(),
        forall|i: int| 0 <= i < keys@.len() ==> (#[trigger] digests@[i])@ == key_digest(keys@[i]@),
{
    let keys: Vec<BasicPrefix> =
        keys.iter().map(|key| BasicPrefix::Ed25519(PublicKey::new(key.clone()))).collect();
    let threshold = SignatureThreshold::Simple(threshold);
    let committed = nxt_commitment(threshold, &keys, &SelfAddressing::Blake3_256.into());
    committed.next_keys_hashes().into_iter().map(|said| said.digest).collect()
}

/// A commitment to the next keys: how many of them must sign, and the digest
/// of each.
#[derive(Clone, Debug, PartialEq, Eq)]
pub struct Commitment {
    pub threshold: u16,
    pub digests: Vec<Vec<u8>>,
}

/// A commitment as a mathematical value.
pub struct CommitmentModel {
    pub threshold: u16,
    pub digests: Seq<Seq<u8>>,
}

impl View for Commitment {
    type V = CommitmentModel;

    open spec fn view(&self) -> CommitmentModel {
        CommitmentModel { threshold: self.threshold, digests: rows(self.digests@) }
    }
}

/// A key set that can be committed to: at least one key, each of the size of
/// an Ed25519 key.
pub open spec fn valid_key_set(keys: Seq<Seq<u8>>) -> bool {
    &&& keys.len() > 0
    &&& forall|i: int| 0 <= i < keys.len() ==> (#[trigger] keys[i]).len() == PUBLIC_KEY_BYTES
}

/// The commitment to `keys` under `threshold`: the digests of the keys, in
/// their order.
pub open spec fn commitment_of(threshold: u16, keys: Seq<Seq<u8>>) -> CommitmentModel {
    CommitmentModel { threshold, digests: keys.map_values(|key: Seq<u8>| key_digest(key)) }
}

impl CommitmentModel {
    /// Whether one of the digests is the digest of `key`.
    pub open spec fn binds(self, key: Seq<u8>) -> bool {
        exists|i: int| 0 <= i < self.digests.len() && #[trigger] self.digests[i] == key_digest(key)
    }
}

/// Whether every key of the set has the size of an Ed25519 key.
fn all_keys_sized(keys: &Vec<Vec<u8>>) -> (sized: bool)
    ensures
        sized == forall|i: int|
            0 <= i < keys@.len() ==> (#[trigger] rows(keys@)[i]).len() == PUBLIC_KEY_BYTES,
{
    let mut at: usize = 0;
    while at < keys.len()
        invariant
            at <= keys@.len(),
            forall|i: int| 0 <= i < at ==> (#[trigger] rows(keys@)[i]).len() == PUBLIC_KEY_BYTES,
        decreases keys@.len() - at,
    {
        if keys[at].len() != PUBLIC_KEY_BYTES {
            assert(rows(keys@)[at as int].len() != PUBLIC_KEY_BYTES);
            return false;
        }
        at += 1;
    }
    true
}

/// Commits to the candidate next keys. The same keys and threshold always
/// give the same commitment; an empty set, or a key of the wrong size, is
/// refused.
pub fn commit(threshold: u16, candidate_next_keys: &Vec<Vec<u8>>) -> (made: Result<Commitment, AgentError>)
    ensures
        match made {
            Ok(commitment) => valid_key_set(rows(candidate_next_keys@)) && commitment@
                == commitment_of(threshold, rows(candidate_next_keys@)),
            Err(e) => !valid_key_set(rows(candidate_next_keys@)) && e == AgentError::InvalidKeySet,
        },
{
    if candidate_next_keys.len() == 0 || !all_keys_sized(candidate_next_keys) {
        return Err(AgentError::InvalidKeySet);
    }
    let digests = next_key_digests(threshold as u64, candidate_next_keys);
    let commitment = Commitment { threshold, digests };
    assert(commitment@.digests =~= commitment_of(threshold, rows(candidate_next_keys@)).digests);
    Ok(commitment)
}

/// Whether two byte strings are equal.
pub fn bytes_equal(left: &[u8], right: &[u8]) -> (equal: bool)
    ensures
        equal == (left@ == right@),
{
    if left.len() != right.len() {
        return false;
    }
    let mut at: usize = 0;
    while at < left.len()
        invariant
            left@.len() == right@.len(),
            at <= left@.len(),
            forall|i: int| 0 <= i < at ==> left@[i] == right@[i],
        decreases left@.len() - at,
    {
        if left[at] != right[at] {
            return false;
        }
        at += 1;
    }
    assert(left@ =~= right@);
    true
}

impl Commitment {
    /// Checks a revealed key against the commitment: whether one of the
    /// committed digests is the digest of `key`.
    pub fn binds(&self, key: &Vec<u8>) -> (bound: bool)
        ensures
            bound == self@.binds(key@),
    {
        let mut revealed: Vec<Vec<u8>> = Vec::new();
        revealed.push(key.clone());
        let digests = next_key_digests(self.threshold as u64, &revealed);
        let digest = &digests[0];
        assert(digest@ == key_digest(key@));
        let mut at: usize = 0;
        while at < self.digests.len()
            invariant
                at <= self.digests@.len(),
                digest@ == key_digest(key@),
                forall|i: int| 0 <= i < at ==> (#[trigger] self@.digests[i]) != key_digest(key@),
            decreases self.digests@.len() - at,
        {
            if bytes_equal(self.digests[at].as_slice(), digest.as_slice()) {
                assert(self@.digests[at as int] == key_digest(key@));
                return true;
            }
            at += 1;
        }
        false
    }
}

} // verus!
