//! Key events: the inception of an identifier and the rotations of its key,
//! with the canonical text of each.

use vstd::prelude::*;
use crate::commitment::{bytes_equal, rows, Commitment, CommitmentModel};
use crate::error::AgentError;
use crate::inception::{inception_fields, scan_inception};
use crate::record::{lemma_rotation_text_is_injective, read_rotation, rotation_text, write_rotation};
use cesrox::primitives::codes::self_addressing::SelfAddressing;
use keri_core::actor::prelude::{SelfAddressingIdentifier, SerializationFormats};
use keri_core::event::event_data::inception::InceptionEvent;
use keri_core::event::sections::key_config::{KeyConfig, NextKeysData};
use keri_core::event::sections::threshold::SignatureThreshold;
use keri_core::keys::PublicKey;
use keri_core::prefix::{BasicPrefix, CesrPrimitive};

verus! {

/// The self-addressing prefix that an inception event with this content
/// certifies: a Blake3-256 digest over the event's canonical JSON text, as
/// CESR text. `None` where the content has no such text.
pub uninterp spec fn inception_prefix(
    keys: Seq<Seq<u8>>,
    signing_threshold: u64,
    next_threshold: u64,
    digests: Seq<Seq<u8>>,
) -> Option<Seq<char>>;

/// The canonical JSON text of the inception event with this content, or
/// `None` where there is none.
pub uninterp spec fn inception_text(
    keys: Seq<Seq<u8>>,
    signing_threshold: u64,
    next_threshold: u64,
    digests: Seq<Seq<u8>>,
) -> Option<Seq<char>>;

/// `InceptionEvent::incept_self_addressing` of keri_core, with Blake3-256
/// and JSON, on Ed25519 keys and Blake3-256 digests; the prefix of the
/// message it builds is returned as text. Not proved here: that the prefix
/// depends on the four arguments alone, so that it is `inception_prefix` of
/// them, and that the call fails exactly where that is `None`.
#[verifier::external_body]
fn derive_prefix(keys: &Vec<Vec<u8>>, signing: u64, next: u64, digests: &Vec<Vec<u8>>) -> (derived: Option<String>)
    ensures
        match derived {
            Some(prefix) => inception_prefix(rows(keys@), signing, next, rows(digests@)) == Some(prefix@),
            None => inception_prefix(rows(keys@), signing, next, rows(digests@)) is None,
        },
{
    let saids = digests.iter().map(|digest| {
        SelfAddressingIdentifier::new(SelfAddressing::Blake3_256.into(), digest.clone())
    });
    let committed = NextKeysData::new(SignatureThreshold::Simple(next), saids);
    let keys = keys.iter().map(|key| BasicPrefix::Ed25519(PublicKey::new(key.clone()))).collect();
    let config = KeyConfig::new(keys, committed, Some(SignatureThreshold::Simple(signing)));
    let built = InceptionEvent::new(config, None, None)
        .incept_self_addressing(SelfAddressing::Blake3_256.into(), SerializationFormats::JSON);
    built.ok().map(|message| message.data.prefix.to_str())
}

/// `serde_json::to_string` on the inception message that keri_core builds
/// from this content, as in `derive_prefix`. Not proved here: that the text
/// depends on the four arguments alone, so that it is `inception_text` of
/// them, and that the call fails exactly where that is `None`.
#[verifier::external_body]
fn encode_inception(keys: &Vec<Vec<u8>>, signing: u64, next: u64, digests: &Vec<Vec<u8>>) -> (encoded: Option<String>)
    ensures
        match encoded {
            Some(text) => inception_text(rows(keys@), signing, next, rows(digests@)) == Some(text@),
            None => inception_text(rows(keys@), signing, next, rows(digests@)) is None,
        },
{
    let saids = digests.iter().map(|digest| {
        SelfAddressingIdentifier::new(SelfAddressing::Blake3_256.into(), digest.clone())
    });
    let committed = NextKeysData::new(SignatureThreshold::Simple(next), saids);
    let keys = keys.iter().map(|key| BasicPrefix::Ed25519(PublicKey::new(key.clone()))).collect();
    let config = KeyConfig::new(keys, committed, Some(SignatureThreshold::Simple(signing)));
    let built = InceptionEvent::new(config, None, None)
        .incept_self_addressing(SelfAddressing::Blake3_256.into(), SerializationFormats::JSON);
    built.ok().and_then(|message| serde_json::to_string(&message).ok())
}

/// The two kinds of key event.
#[derive(Clone, Copy, Debug, PartialEq, Eq, Structural)]
pub enum EventKind {
    Inception,
    Rotation,
}

/// One state transition of an identifier.
#[derive(Debug, PartialEq, Eq)]
pub enum Event {
    /// The founding event: the first signing keys and the commitment to the
    /// next ones. Its sequence number is 0.
    Inception { prefix: String, keys: Vec<Vec<u8>>, signing_threshold: u16, commitment: Commitment },
    /// The change to new signing keys.
    Rotation { prefix: String, sequence: u64, keys: Vec<Vec<u8>> },
}

/// A key event as a mathematical value.
pub enum EventModel {
    Inception {
        prefix: Seq<char>,
        keys: Seq<Seq<u8>>,
        signing_threshold: u16,
        commitment: CommitmentModel,
    },
    Rotation { prefix: Seq<char>, sequence: u64, keys: Seq<Seq<u8>> },
}

impl View for Event {
    type V = EventModel;

    open spec fn view(&self) -> EventModel {
        match self {
            Event::Inception { prefix, keys, signing_threshold, commitment } => EventModel::Inception {
                prefix: prefix@,
                keys: rows(keys@),
                signing_threshold: *signing_threshold,
                commitment: commitment@,
            },
            Event::Rotation { prefix, sequence, keys } => EventModel::Rotation {
                prefix: prefix@,
                sequence: *sequence,
                keys: rows(keys@),
            },
        }
    }
}

impl EventModel {
    /// The kind of the event.
    pub open spec fn kind(self) -> EventKind {
        match self {
            EventModel::Inception { .. } => EventKind::Inception,
            EventModel::Rotation { .. } => EventKind::Rotation,
        }
    }

    /// The prefix of the identifier that the event belongs to.
    pub open spec fn prefix(self) -> Seq<char> {
        match self {
            EventModel::Inception { prefix, .. } => prefix,
            EventModel::Rotation { prefix, .. } => prefix,
        }
    }

    /// The place of the event in the log of its identifier.
    pub open spec fn sequence(self) -> u64 {
        match self {
            EventModel::Inception { .. } => 0,
            EventModel::Rotation { sequence, .. } => sequence,
        }
    }

    /// The public keys that the event shows: its signing keys.
    pub open spec fn keys(self) -> Seq<Seq<u8>> {
        match self {
            EventModel::Inception { keys, .. } => keys,
            EventModel::Rotation { keys, .. } => keys,
        }
    }

    /// Whether the event shows `key`.
    pub open spec fn shows(self, key: Seq<u8>) -> bool {
        self.keys().contains(key)
    }

    /// The prefix that the content of an inception event certifies.
    pub open spec fn certified_prefix(self) -> Option<Seq<char>>
        recommends
            self is Inception,
    {
        inception_prefix(
            self->Inception_keys,
            self->signing_threshold as u64,
            self->commitment.threshold as u64,
            self->commitment.digests,
        )
    }

    /// The canonical text of the event. An inception event has one where its
    /// prefix is the one that its content certifies; a rotation where it
    /// holds one key and nothing in it needs escaping.
    pub open spec fn canonical_text(self) -> Option<Seq<char>> {
        match self {
            EventModel::Inception { prefix, keys, signing_threshold, commitment } => {
                if self.certified_prefix() == Some(prefix) {
                    inception_text(
                        keys,
                        signing_threshold as u64,
                        commitment.threshold as u64,
                        commitment.digests,
                    )
                } else {
                    None
                }
            },
            EventModel::Rotation { prefix, sequence, keys } => {
                if keys.len() == 1 {
                    rotation_text(prefix, keys[0], sequence)
                } else {
                    None
                }
            },
        }
    }
}

/// Assembles the inception event of a new identifier. The prefix is derived
/// from the content of the event, so that any change of the content changes
/// the prefix.
pub fn build_inception(keys: Vec<Vec<u8>>, commitment: Commitment, signing_threshold: u16) -> (built: Result<Event, AgentError>)
    ensures
        match built {
            Ok(event) => {
                &&& event@ is Inception
                &&& event@.keys() == rows(keys@)
                &&& event@->signing_threshold == signing_threshold
                &&& event@->commitment == commitment@
                &&& event@.certified_prefix() == Some(event@.prefix())
            },
            Err(e) => {
                &&& e == AgentError::Serialization
                &&& inception_prefix(
                    rows(keys@),
                    signing_threshold as u64,
                    commitment@.threshold as u64,
                    commitment@.digests,
                ) is None
            },
        },
{
    let derived = derive_prefix(
        &keys,
        signing_threshold as u64,
        commitment.threshold as u64,
        &commitment.digests,
    );
    match derived {
        Some(prefix) => Ok(Event::Inception { prefix, keys, signing_threshold, commitment }),
        None => Err(AgentError::Serialization),
    }
}

/// Assembles the rotation event that follows the event at `prior_sequence`.
/// Whether the new keys were committed to is for the caller to check.
pub fn build_rotation(prefix: String, new_keys: Vec<Vec<u8>>, prior_sequence: u64) -> (event: Event)
    requires
        prior_sequence < u64::MAX,
    ensures
        event@ == (EventModel::Rotation {
            prefix: prefix@,
            sequence: (prior_sequence + 1) as u64,
            keys: rows(new_keys@),
        }),
{
    Event::Rotation { prefix, sequence: prior_sequence + 1, keys: new_keys }
}

/// Writes the canonical text of an event.
pub fn serialize(event: &Event) -> (written: Result<String, AgentError>)
    ensures
        match written {
            Ok(text) => event@.canonical_text() == Some(text@),
            Err(e) => e == AgentError::Serialization && event@.canonical_text() is None,
        },
{
    match event {
        Event::Inception { prefix, keys, signing_threshold, commitment } => {
            let signing = *signing_threshold as u64;
            let next = commitment.threshold as u64;
            match derive_prefix(keys, signing, next, &commitment.digests) {
                Some(certified) => {
                    if certified != *prefix {
                        return Err(AgentError::Serialization);
                    }
                },
                None => {
                    return Err(AgentError::Serialization);
                },
            }
            match encode_inception(keys, signing, next, &commitment.digests) {
                Some(text) => Ok(text),
                None => Err(AgentError::Serialization),
            }
        },
        Event::Rotation { prefix, sequence, keys } => {
            if keys.len() != 1 {
                return Err(AgentError::Serialization);
            }
            assert(rows(keys@)[0] == keys@[0]@);
            match write_rotation(prefix.as_str(), keys[0].as_slice(), *sequence) {
                Some(text) => Ok(text),
                None => Err(AgentError::Serialization),
            }
        },
    }
}

impl Event {
    /// The kind of the event.
    pub fn kind(&self) -> (kind: EventKind)
        ensures
            kind == self@.kind(),
    {
        match self {
            Event::Inception { .. } => EventKind::Inception,
            Event::Rotation { .. } => EventKind::Rotation,
        }
    }

    /// The prefix of the identifier that the event belongs to.
    pub fn prefix(&self) -> (prefix: &String)
        ensures
            prefix@ == self@.prefix(),
    {
        match self {
            Event::Inception { prefix, .. } => prefix,
            Event::Rotation { prefix, .. } => prefix,
        }
    }

    /// Whether the event shows `key` among its signing keys.
    pub fn shows(&self, key: &[u8]) -> (shown: bool)
        ensures
            shown == self@.shows(key@),
    {
        let keys = match self {
            Event::Inception { keys, .. } => keys,
            Event::Rotation { keys, .. } => keys,
        };
        assert(rows(keys@) == self@.keys());
        let mut at: usize = 0;
        while at < keys.len()
            invariant
                at <= keys@.len(),
                rows(keys@) == self@.keys(),
                forall|i: int| 0 <= i < at ==> (#[trigger] self@.keys()[i]) != key@,
            decreases keys@.len() - at,
        {
            if bytes_equal(keys[at].as_slice(), key) {
                assert(self@.keys()[at as int] == key@);
                assert(self@.keys().contains(key@));
                return true;
            }
            at += 1;
        }
        false
    }

    /// The sequence number of the event.
    pub fn sequence(&self) -> (sequence: u64)
        ensures
            sequence == self@.sequence(),
    {
        match self {
            Event::Inception { .. } => 0,
            Event::Rotation { sequence, .. } => *sequence,
        }
    }
}

/// Reads the canonical text of a rotation event. A text that no rotation
/// event is written as is refused; so is the text of an inception event,
/// which is not read here.
pub fn deserialize_rotation(text: &str) -> (read: Result<Event, AgentError>)
    ensures
        match read {
            Ok(event) => event@ is Rotation && event@.canonical_text() == Some(text@),
            Err(e) => e == AgentError::Serialization,
        },
        forall|event: EventModel|
            event is Rotation && #[trigger] event.canonical_text() == Some(text@) ==> (
            read matches Ok(found) && found@ == event),
{
    match read_rotation(text) {
        Some((prefix, key, sequence)) => {
            let mut keys: Vec<Vec<u8>> = Vec::new();
            keys.push(key);
            let event = Event::Rotation { prefix, sequence, keys };
            proof {
                assert(rows(keys@) =~= seq![key@]);
                assert forall|other: EventModel|
                    other is Rotation && #[trigger] other.canonical_text() == Some(
                        text@,
                    ) implies event@ == other by {
                    let other_keys = other->Rotation_keys;
                    assert(rotation_text(other.prefix(), other_keys[0], other.sequence()) == Some(
                        text@,
                    ));
                    assert(other_keys =~= seq![key@]);
                }
            }
            Ok(event)
        },
        None => {
            proof {
                assert forall|other: EventModel|
                    other is Rotation && #[trigger] other.canonical_text() == Some(
                        text@,
                    ) implies false by {
                    let other_keys = other->Rotation_keys;
                    assert(rotation_text(other.prefix(), other_keys[0], other.sequence()) == Some(
                        text@,
                    ));
                }
            }
            Err(AgentError::Serialization)
        },
    }
}

/// The inception event that a text in the shape of one stands for: the
/// event made of what the text names, where both thresholds fit 16 bits and
/// the event has the text as its canonical text. `None` for any other text.
pub open spec fn inception_named(text: Seq<char>) -> Option<EventModel> {
    match inception_fields(text) {
        Some(fields) => {
            let event = EventModel::Inception {
                prefix: fields.prefix,
                keys: fields.keys,
                signing_threshold: fields.signing_threshold as u16,
                commitment: CommitmentModel {
                    threshold: fields.next_threshold as u16,
                    digests: fields.digests,
                },
            };
            if fields.signing_threshold <= 0xffff && fields.next_threshold <= 0xffff
                && event.canonical_text() == Some(text) {
                Some(event)
            } else {
                None
            }
        },
        None => None,
    }
}

/// Whether a rotation event has `text` as its canonical text.
pub open spec fn is_rotation_text(text: Seq<char>) -> bool {
    exists|event: EventModel| event is Rotation && #[trigger] event.canonical_text() == Some(text)
}

/// Reads the canonical text of an event. Whatever is read has `text` as its
/// canonical text, so that a log entry can be checked on its own; for an
/// inception event this includes that its prefix is the one that its
/// content certifies. The text of a rotation event gives the event that
/// was written. Any other text is read exactly where it has the shape of an
/// inception event and is the canonical text of the event that it names.
pub fn deserialize(text: &str) -> (read: Result<Event, AgentError>)
    ensures
        match read {
            Ok(event) => event@.canonical_text() == Some(text@),
            Err(e) => e == AgentError::Serialization,
        },
        forall|event: EventModel|
            event is Rotation && #[trigger] event.canonical_text() == Some(text@) ==> (
            read matches Ok(found) && found@ == event),
        !is_rotation_text(text@) ==> match inception_named(text@) {
            Some(event) => read matches Ok(found) && found@ == event,
            None => read is Err,
        },
        read is Ok <==> is_rotation_text(text@) || inception_named(text@) is Some,
{
    match deserialize_rotation(text) {
        Ok(event) => {
            assert(is_rotation_text(text@));
            return Ok(event);
        },
        Err(_) => {},
    }
    assert(!is_rotation_text(text@));
    let fields = match scan_inception(text) {
        Some(fields) => fields,
        None => {
            return Err(AgentError::Serialization);
        },
    };
    if fields.signing_threshold > 0xffff || fields.next_threshold > 0xffff {
        return Err(AgentError::Serialization);
    }
    let event = Event::Inception {
        prefix: fields.prefix,
        keys: fields.keys,
        signing_threshold: fields.signing_threshold as u16,
        commitment: Commitment {
            threshold: fields.next_threshold as u16,
            digests: fields.digests,
        },
    };
    match serialize(&event) {
        Ok(written) => {
            if written == text.to_owned() {
                Ok(event)
            } else {
                Err(AgentError::Serialization)
            }
        },
        Err(e) => Err(e),
    }
}

/// Round trip of rotation events: two rotation events with one canonical
/// text are the same event, so that reading the text that `serialize` wrote
/// for a rotation event gives that event.
pub proof fn rotation_round_trip(written: EventModel, read: EventModel)
    requires
        written is Rotation,
        read is Rotation,
        written.canonical_text() is Some,
        read.canonical_text() == written.canonical_text(),
    ensures
        read == written,
{
    lemma_rotation_text_is_injective(
        written.prefix(),
        written->Rotation_keys[0],
        written.sequence(),
        read.prefix(),
        read->Rotation_keys[0],
        read.sequence(),
    );
    assert(read->Rotation_keys =~= written->Rotation_keys);
}

/// Inception determinism: the prefix of an inception event is a function of
/// its content. Two inception events that certify their prefixes and agree
/// in keys, threshold and commitment have one prefix, and are one event.
pub proof fn inception_prefix_is_determined(first: EventModel, second: EventModel)
    requires
        first is Inception,
        second is Inception,
        first.certified_prefix() == Some(first.prefix()),
        second.certified_prefix() == Some(second.prefix()),
        first.keys() == second.keys(),
        first->signing_threshold == second->signing_threshold,
        first->commitment == second->commitment,
    ensures
        first.prefix() == second.prefix(),
        first == second,
{
}

} // verus!
