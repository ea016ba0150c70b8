//! The registry of identifiers: for each name the prefix, the active key
//! material and the key event log.

use vstd::prelude::*;
use crate::commitment::{bytes_equal, commit, commitment_of, rows, valid_key_set};
use crate::commitment::{Commitment, CommitmentModel};
use crate::encoding::{base64_bytes, base64_text, encode_base64};
use crate::error::AgentError;
use crate::event::{build_inception, build_rotation, serialize, Event, EventModel};
use crate::event::{inception_prefix, inception_text};
use crate::keys::KeyMaterial;
use crate::verification::{encoded_verdict, PUBLIC_KEY_BYTES, SIGNATURE_BYTES};
use vstd::pervasive::VecAdditionalExecFns;

verus! {

/// What the registry holds for one identifier, as a mathematical value.
pub struct IdentifierState {
    /// The prefix, fixed at inception.
    pub prefix: Seq<char>,
    /// The public key that signs now.
    pub current_key: Seq<u8>,
    /// The public key held back for the next rotation.
    pub next_key: Seq<u8>,
    /// The commitment to the next key that is now in force.
    pub pending: CommitmentModel,
    /// The events of the identifier, oldest first.
    pub events: Seq<EventModel>,
    /// The canonical text of each event, in the same order.
    pub kel: Seq<Seq<char>>,
}

impl IdentifierState {
    /// The invariant of a log: it starts with the inception event, every
    /// later event is a rotation, each event carries the prefix and its own
    /// place as sequence number, each text is the canonical text of its
    /// event, the last event shows the key that signs now, no key is shown
    /// by two events, and the commitment in force is the one to the next
    /// key.
    pub open spec fn wf(self) -> bool {
        &&& self.events.len() == self.kel.len()
        &&& self.events.len() >= 1
        &&& self.events.len() <= u64::MAX
        &&& self.events[0] is Inception
        &&& forall|i: int| 1 <= i < self.events.len() ==> #[trigger] self.events[i] is Rotation
        &&& forall|i: int|
            0 <= i < self.events.len() ==> (#[trigger] self.events[i]).sequence() == i
        &&& forall|i: int|
            0 <= i < self.events.len() ==> (#[trigger] self.events[i]).prefix() == self.prefix
        &&& forall|i: int|
            0 <= i < self.events.len() ==> (#[trigger] self.events[i]).canonical_text() == Some(
                self.kel[i],
            )
        &&& self.events.last().keys() == seq![self.current_key]
        &&& self.current_key.len() == PUBLIC_KEY_BYTES
        &&& self.next_key.len() == PUBLIC_KEY_BYTES
        &&& self.pending == commitment_of(1, seq![self.next_key])
        &&& self.keys_shown_once()
    }

    /// Whether a rotation may show the next key: the commitment in force
    /// binds it, and no event has shown it yet.
    pub open spec fn may_rotate(self) -> bool {
        self.pending.binds(self.next_key) && !self.shows(self.next_key)
    }

    /// Whether an event of the log shows `key`.
    pub open spec fn shows(self, key: Seq<u8>) -> bool {
        exists|i: int| 0 <= i < self.events.len() && (#[trigger] self.events[i]).shows(key)
    }

    /// No key is shown by two events of the log.
    pub open spec fn keys_shown_once(self) -> bool {
        forall|i: int, j: int, key: Seq<u8>|
            0 <= i < j < self.events.len() && #[trigger] self.events[i].shows(key)
                ==> !#[trigger] self.events[j].shows(key)
    }
}

/// The state of an identifier right after its inception with the given
/// keys: one signing key under threshold 1, and a commitment to the one next
/// key under threshold 1. `None` where the inception event has no prefix or
/// no canonical text.
pub open spec fn incepted(current: Seq<u8>, next: Seq<u8>) -> Option<IdentifierState> {
    let commitment = commitment_of(1, seq![next]);
    let keys = seq![current];
    match inception_prefix(keys, 1, 1, commitment.digests) {
        Some(prefix) => match inception_text(keys, 1, 1, commitment.digests) {
            Some(text) => Some(
                IdentifierState {
                    prefix,
                    current_key: current,
                    next_key: next,
                    pending: commitment,
                    events: seq![
                        EventModel::Inception { prefix, keys, signing_threshold: 1, commitment },
                    ],
                    kel: seq![text],
                },
            ),
            None => None,
        },
        None => None,
    }
}

/// The rotation event that comes next in the log of `state`: it shows the
/// key that was held back as next key.
pub open spec fn rotation_of(state: IdentifierState) -> EventModel {
    EventModel::Rotation {
        prefix: state.prefix,
        sequence: state.kel.len() as u64,
        keys: seq![state.next_key],
    }
}

/// The state of an identifier after a rotation: the next key becomes the
/// current one, `fresh_next` becomes the next key and is committed to, and
/// the log grows by one rotation event, whose sequence number is the length
/// of the log before. `None` where the event has no canonical text.
pub open spec fn rotated(state: IdentifierState, fresh_next: Seq<u8>) -> Option<IdentifierState> {
    let event = rotation_of(state);
    match event.canonical_text() {
        Some(text) => Some(
            IdentifierState {
                prefix: state.prefix,
                current_key: state.next_key,
                next_key: fresh_next,
                pending: commitment_of(1, seq![fresh_next]),
                events: state.events.push(event),
                kel: state.kel.push(text),
            },
        ),
        None => None,
    }
}

/// One identifier of the registry.
struct IdentifierEntry {
    name: String,
    prefix: String,
    keys: KeyMaterial,
    pending: Commitment,
    events: Vec<Event>,
    kel: Vec<String>,
}

impl IdentifierEntry {
    /// What the entry holds.
    spec fn state(&self) -> IdentifierState {
        IdentifierState {
            prefix: self.prefix@,
            current_key: self.keys.current_key(),
            next_key: self.keys.next_key(),
            pending: self.pending@,
            events: self.events@.map_values(|event: Event| event@),
            kel: self.kel@.map_values(|text: String| text@),
        }
    }

    /// Holds the key that a rotation would show against the entry, and
    /// writes the rotation event: the key must be the next key, the
    /// commitment in force must bind it, and no event may have shown it.
    fn prepare_rotation(&self, revealed: &Vec<u8>) -> (prepared: Result<(Event, String), AgentError>)
        requires
            self.state().wf(),
        ensures
            match prepared {
                Ok((event, text)) => {
                    &&& revealed@ == self.state().next_key
                    &&& self.state().may_rotate()
                    &&& event@ == rotation_of(self.state())
                    &&& event@.canonical_text() == Some(text@)
                },
                Err(e) => if revealed@ == self.state().next_key && self.state().may_rotate() {
                    e == AgentError::Serialization && rotation_of(
                        self.state(),
                    ).canonical_text() is None
                } else {
                    e == AgentError::CommitmentMismatch
                },
            },
    {
        let next = self.keys.next_public();
        if !bytes_equal(revealed.as_slice(), next.as_slice()) {
            return Err(AgentError::CommitmentMismatch);
        }
        if !self.pending.binds(revealed) {
            return Err(AgentError::CommitmentMismatch);
        }
        if log_shows(&self.events, revealed.as_slice()) {
            proof {
                let shown = choose|i: int|
                    0 <= i < self.events@.len() && (#[trigger] self.events@[i])@.shows(revealed@);
                assert(self.state().events[shown] == self.events@[shown]@);
                assert(self.state().events[shown].shows(self.state().next_key));
            }
            return Err(AgentError::CommitmentMismatch);
        }
        let mut keys: Vec<Vec<u8>> = Vec::new();
        keys.push(next);
        assert(rows(keys@) =~= seq![self.state().next_key]);
        let prior: usize = self.kel.len() - 1;
        let event = build_rotation(self.prefix.clone(), keys, prior as u64);
        match serialize(&event) {
            Ok(text) => Ok((event, text)),
            Err(e) => Err(e),
        }
    }
}

/// Whether an event of the log shows `key`.
fn log_shows(events: &Vec<Event>, key: &[u8]) -> (shown: bool)
    ensures
        shown == exists|i: int| 0 <= i < events@.len() && (#[trigger] events@[i])@.shows(key@),
{
    let mut at: usize = 0;
    while at < events.len()
        invariant
            at <= events@.len(),
            forall|i: int| 0 <= i < at ==> !(#[trigger] events@[i])@.shows(key@),
        decreases events@.len() - at,
    {
        if events[at].shows(key) {
            return true;
        }
        at += 1;
    }
    false
}

/// Commits to the one next key of an identifier, under threshold 1.
fn commit_to_next(next: &Vec<u8>) -> (commitment: Commitment)
    requires
        next@.len() == PUBLIC_KEY_BYTES,
    ensures
        commitment@ == commitment_of(1, seq![next@]),
{
    let mut candidates: Vec<Vec<u8>> = Vec::new();
    candidates.push(next.clone());
    assert(rows(candidates@) =~= seq![next@]);
    assert(valid_key_set(rows(candidates@)));
    match commit(1, &candidates) {
        Ok(commitment) => commitment,
        Err(_) => {
            assert(false);
            Commitment { threshold: 1, digests: Vec::new() }
        },
    }
}

/// The entry of an identifier after a rotation to `keys`, made of the parts
/// of the entry `before` it and the event that was prepared.
fn rotated_entry(
    name: String,
    prefix: String,
    events: Vec<Event>,
    kel: Vec<String>,
    keys: KeyMaterial,
    event: Event,
    text: String,
    Ghost(before): Ghost<IdentifierState>,
) -> (entry: IdentifierEntry)
    requires
        before.wf(),
        before.may_rotate(),
        before.prefix == prefix@,
        before.events == events@.map_values(|event: Event| event@),
        before.kel == kel@.map_values(|text: String| text@),
        keys.current_key() == before.next_key,
        event@ == rotation_of(before),
        event@.canonical_text() == Some(text@),
    ensures
        entry.name == name,
        rotated(before, keys.next_key()) == Some(entry.state()),
        entry.state().wf(),
{
    proof {
        use_type_invariant(&keys);
    }
    let pending = commit_to_next(&keys.next_public());
    let mut events = events;
    let mut kel = kel;
    events.push(event);
    kel.push(text);
    let count: usize = events.len();
    let entry = IdentifierEntry { name, prefix, keys, pending, events, kel };
    proof {
        let state = rotated(before, keys.next_key())->Some_0;
        assert(entry.state().events =~= state.events);
        assert(entry.state().kel =~= state.kel);
        assert(entry.state() == state);
        rotation_extends_the_log(before, keys.next_key());
    }
    entry
}

/// Whether an entry of the list has this name.
spec fn named(entries: Seq<IdentifierEntry>, name: Seq<char>) -> bool {
    exists|i: int| 0 <= i < entries.len() && (#[trigger] entries[i]).name@ == name
}

/// The place of an entry with this name.
spec fn place(entries: Seq<IdentifierEntry>, name: Seq<char>) -> int {
    choose|i: int| 0 <= i < entries.len() && (#[trigger] entries[i]).name@ == name
}

/// No two entries of the list have one name.
spec fn distinct(entries: Seq<IdentifierEntry>) -> bool {
    forall|i: int, j: int|
        0 <= i < j < entries.len() ==> (#[trigger] entries[i]).name@ != (#[trigger] entries[j]).name@
}

/// The table that a list of entries stands for.
spec fn table(entries: Seq<IdentifierEntry>) -> Map<Seq<char>, IdentifierState> {
    Map::new(
        |name: Seq<char>| named(entries, name),
        |name: Seq<char>| entries[place(entries, name)].state(),
    )
}

proof fn lemma_table_at(entries: Seq<IdentifierEntry>, at: int)
    requires
        distinct(entries),
        0 <= at < entries.len(),
    ensures
        named(entries, entries[at].name@),
        place(entries, entries[at].name@) == at,
        table(entries).contains_key(entries[at].name@),
        table(entries)[entries[at].name@] == entries[at].state(),
{
    let name = entries[at].name@;
    assert(named(entries, name));
    let found = place(entries, name);
    assert(0 <= found < entries.len() && entries[found].name@ == name);
    if found < at {
        assert(entries[found].name@ != entries[at].name@);
    } else if at < found {
        assert(entries[at].name@ != entries[found].name@);
    }
}

proof fn lemma_table_replace(entries: Seq<IdentifierEntry>, at: int, entry: IdentifierEntry)
    requires
        distinct(entries),
        0 <= at < entries.len(),
        entry.name@ == entries[at].name@,
    ensures
        distinct(entries.update(at, entry)),
        table(entries.update(at, entry)) == table(entries).insert(entry.name@, entry.state()),
{
    let after = entries.update(at, entry);
    assert(distinct(after)) by {
        assert forall|i: int, j: int| 0 <= i < j < after.len() implies (#[trigger] after[i]).name@
            != (#[trigger] after[j]).name@ by {
            assert(after[i].name@ == entries[i].name@);
            assert(after[j].name@ == entries[j].name@);
            assert(entries[i].name@ != entries[j].name@);
        }
    }
    let left = table(after);
    let right = table(entries).insert(entry.name@, entry.state());
    assert forall|name: Seq<char>| left.contains_key(name) <==> right.contains_key(name) by {
        if named(after, name) {
            let i = place(after, name);
            assert(entries[i].name@ == name);
        }
        if named(entries, name) {
            let i = place(entries, name);
            assert(after[i].name@ == name);
        }
        if name == entry.name@ {
            assert(after[at].name@ == name);
        }
    }
    assert forall|name: Seq<char>| left.contains_key(name) implies left[name] == right[name] by {
        let i = place(after, name);
        lemma_table_at(after, i);
        if name == entry.name@ {
            lemma_table_at(after, at);
        } else {
            assert(i != at);
            assert(entries[i].name@ == name);
            lemma_table_at(entries, i);
        }
    }
    assert(left =~= right);
}

proof fn lemma_table_push(entries: Seq<IdentifierEntry>, entry: IdentifierEntry)
    requires
        distinct(entries),
        !named(entries, entry.name@),
    ensures
        distinct(entries.push(entry)),
        table(entries.push(entry)) == table(entries).insert(entry.name@, entry.state()),
{
    let after = entries.push(entry);
    assert(distinct(after)) by {
        assert forall|i: int, j: int| 0 <= i < j < after.len() implies (#[trigger] after[i]).name@
            != (#[trigger] after[j]).name@ by {
            if j < entries.len() {
                assert(entries[i].name@ != entries[j].name@);
            } else {
                assert(after[i] == entries[i]);
                if entries[i].name@ == entry.name@ {
                    assert(named(entries, entry.name@));
                }
            }
        }
    }
    let left = table(after);
    let right = table(entries).insert(entry.name@, entry.state());
    let last = entries.len() as int;
    assert forall|name: Seq<char>| left.contains_key(name) <==> right.contains_key(name) by {
        if named(after, name) {
            let i = place(after, name);
            if i < last {
                assert(entries[i].name@ == name);
            }
        }
        if named(entries, name) {
            let i = place(entries, name);
            assert(after[i].name@ == name);
        }
        if name == entry.name@ {
            assert(after[last].name@ == name);
        }
    }
    assert forall|name: Seq<char>| left.contains_key(name) implies left[name] == right[name] by {
        let i = place(after, name);
        lemma_table_at(after, i);
        if i < last {
            assert(after[i] == entries[i]);
            lemma_table_at(entries, i);
            if name == entry.name@ {
                assert(named(entries, entry.name@));
            }
        }
    }
    assert(left =~= right);
}

/// The table from names to identifiers. It is made once and handed to every
/// operation; nothing in it outlives the process.
pub struct IdentifierRegistry {
    entries: Vec<IdentifierEntry>,
}

impl View for IdentifierRegistry {
    type V = Map<Seq<char>, IdentifierState>;

    closed spec fn view(&self) -> Map<Seq<char>, IdentifierState> {
        table(self.entries@)
    }
}

/// Every log of the table obeys the invariant of a log.
pub open spec fn logs_well_formed(table: Map<Seq<char>, IdentifierState>) -> bool {
    forall|name: Seq<char>| table.contains_key(name) ==> (#[trigger] table[name]).wf()
}

/// Whether every entry of the list holds a well-formed log.
spec fn all_well_formed(entries: Seq<IdentifierEntry>) -> bool {
    forall|i: int| 0 <= i < entries.len() ==> (#[trigger] entries[i]).state().wf()
}

proof fn lemma_table_is_well_formed(entries: Seq<IdentifierEntry>)
    requires
        distinct(entries),
        all_well_formed(entries),
    ensures
        logs_well_formed(table(entries)),
{
    assert forall|name: Seq<char>| table(entries).contains_key(name) implies (#[trigger] table(
        entries,
    )[name]).wf() by {
        let at = place(entries, name);
        lemma_table_at(entries, at);
    }
}

impl IdentifierRegistry {
    /// The invariant of the registry: no name stands twice, and the log of
    /// every identifier is well formed.
    #[verifier::type_invariant]
    spec fn wf(&self) -> bool {
        &&& distinct(self.entries@)
        &&& all_well_formed(self.entries@)
    }

    /// An empty registry.
    pub fn new() -> (registry: IdentifierRegistry)
        ensures
            registry@ == Map::<Seq<char>, IdentifierState>::empty(),
    {
        let registry = IdentifierRegistry { entries: Vec::new() };
        assert(registry@ =~= Map::<Seq<char>, IdentifierState>::empty());
        registry
    }

    /// Where the entry of `name` stands, if there is one.
    fn find(&self, name: &String) -> (found: Option<usize>)
        ensures
            self.wf(),
            logs_well_formed(self@),
            match found {
                Some(at) => {
                    &&& at < self.entries@.len()
                    &&& self.entries@[at as int].name@ == name@
                    &&& self@.contains_key(name@)
                    &&& self@[name@] == self.entries@[at as int].state()
                },
                None => !self@.contains_key(name@) && !named(self.entries@, name@),
            },
    {
        proof {
            use_type_invariant(self);
            lemma_table_is_well_formed(self.entries@);
        }
        let mut at: usize = 0;
        while at < self.entries.len()
            invariant
                self.wf(),
                at <= self.entries@.len(),
                forall|i: int| 0 <= i < at ==> (#[trigger] self.entries@[i]).name@ != name@,
            decreases self.entries@.len() - at,
        {
            if self.entries[at].name == *name {
                proof {
                    lemma_table_at(self.entries@, at as int);
                }
                return Some(at);
            }
            at += 1;
        }
        None
    }

    /// The events of the identifier `name`, oldest first.
    pub fn events(&self, name: &String) -> (found: Option<&Vec<Event>>)
        ensures
            match found {
                Some(events) => {
                    &&& self@.contains_key(name@)
                    &&& events@.map_values(|event: Event| event@) == self@[name@].events
                    &&& self@[name@].wf()
                },
                None => !self@.contains_key(name@),
            },
    {
        match self.find(name) {
            Some(at) => Some(&self.entries[at].events),
            None => None,
        }
    }

    /// Whether an identifier is registered under `name`.
    pub fn contains(&self, name: &String) -> (present: bool)
        ensures
            present == self@.contains_key(name@),
            logs_well_formed(self@),
    {
        self.find(name).is_some()
    }
}

/// `serde_json::to_string_pretty` on a list of strings: the list as a
/// pretty-printed JSON array. What it returns for a list of texts, or `None`
/// where it fails.
pub uninterp spec fn pretty_array(texts: Seq<Seq<char>>) -> Option<Seq<char>>;

/// The texts held by a vector of strings.
pub open spec fn texts(strings: Seq<String>) -> Seq<Seq<char>> {
    strings.map_values(|text: String| text@)
}

/// `serde_json::to_string_pretty` on a list of strings. Not proved here:
/// that the text depends on the strings alone, so that it is `pretty_array`
/// of them, and that the call does not fail: it fails only where a value
/// refuses to be written or a map has a key that is no string, and a list
/// of strings holds neither.
#[verifier::external_body]
fn print_array(strings: &Vec<String>) -> (printed: Option<String>)
    ensures
        printed is Some,
        match printed {
            Some(text) => pretty_array(texts(strings@)) == Some(text@),
            None => pretty_array(texts(strings@)) is None,
        },
{
    serde_json::to_string_pretty(strings).ok()
}

/// What an inception hands back to the caller.
#[derive(Debug, PartialEq, Eq)]
pub struct InceptionResult {
    /// The prefix of the new identifier.
    pub aid: String,
    /// The current public key, in base64.
    pub public_key: String,
    /// The canonical text of the inception event.
    pub kel: String,
}

/// What a rotation hands back to the caller.
#[derive(Debug, PartialEq, Eq)]
pub struct RotationResult {
    /// The prefix of the identifier, unchanged by the rotation.
    pub aid: String,
    /// The new current public key, in base64.
    pub new_public_key: String,
    /// The canonical text of the rotation event.
    pub kel: String,
}

/// What signing hands back to the caller.
#[derive(Debug, PartialEq, Eq)]
pub struct SignResult {
    /// The signature, in base64.
    pub signature: String,
    /// The public key that verifies it, in base64.
    pub public_key: String,
}

/// Registers `name` with the given key material: commits to the next key,
/// builds and writes the inception event, and stores the new identifier.
/// An identifier already registered under `name` is replaced by the new one.
/// On failure the registry is as before.
pub fn incept_with_keys(registry: &mut IdentifierRegistry, name: String, keys: KeyMaterial) -> (outcome: Result<InceptionResult, AgentError>)
    ensures
        logs_well_formed(final(registry)@),
        match outcome {
            Ok(result) => {
                &&& incepted(keys.current_key(), keys.next_key()) matches Some(state)
                &&& state.wf()
                &&& final(registry)@ == old(registry)@.insert(name@, state)
                &&& result.aid@ == state.prefix
                &&& result.public_key@ == base64_text(keys.current_key())
                &&& base64_bytes(result.public_key@) == Some(keys.current_key())
                &&& result.kel@ == state.kel[0]
            },
            Err(e) => {
                &&& e == AgentError::Serialization
                &&& incepted(keys.current_key(), keys.next_key()) is None
                &&& *final(registry) == *old(registry)
            },
        },
{
    proof {
        use_type_invariant(&*registry);
        use_type_invariant(&keys);
        lemma_table_is_well_formed(registry.entries@);
    }
    let current = keys.current_public();
    let next = keys.next_public();
    let commitment = commit_to_next(&next);
    let mut signing_keys: Vec<Vec<u8>> = Vec::new();
    signing_keys.push(current.clone());
    assert(rows(signing_keys@) =~= seq![keys.current_key()]);
    let event = match build_inception(signing_keys, commitment, 1) {
        Ok(event) => event,
        Err(e) => {
            return Err(e);
        },
    };
    let kel_entry = match serialize(&event) {
        Ok(text) => text,
        Err(e) => {
            return Err(e);
        },
    };
    let aid = event.prefix().clone();
    let public_key = encode_base64(current.as_slice());
    let mut events: Vec<Event> = Vec::new();
    events.push(event);
    let mut kel: Vec<String> = Vec::new();
    kel.push(kel_entry.clone());
    let pending = commit_to_next(&next);
    let entry = IdentifierEntry {
        name: name.clone(),
        prefix: aid.clone(),
        keys,
        pending,
        events,
        kel,
    };
    proof {
        let state = incepted(keys.current_key(), keys.next_key())->Some_0;
        assert(entry.state().events =~= state.events);
        assert(entry.state().kel =~= state.kel);
        assert(entry.state() == state);
        assert(state.events.last() == state.events[0]);
        assert(state.wf());
    }
    let found = registry.find(&name);
    let mut entries: Vec<IdentifierEntry> = Vec::new();
    std::mem::swap(&mut entries, &mut registry.entries);
    match found {
        Some(at) => {
            proof {
                lemma_table_replace(entries@, at as int, entry);
            }
            entries.set(at, entry);
        },
        None => {
            proof {
                lemma_table_push(entries@, entry);
            }
            entries.push(entry);
        },
    }
    proof {
        lemma_table_is_well_formed(entries@);
    }
    registry.entries = entries;
    Ok(InceptionResult { aid, public_key, kel: kel_entry })
}

/// Creates an identifier under `name` with freshly generated keys. The
/// derivation `code` is accepted for the sake of the interface and has no
/// effect: prefixes are always Blake3-256 digests.
pub fn incept_aid(registry: &mut IdentifierRegistry, name: String, code: String) -> (outcome: Result<InceptionResult, AgentError>)
    ensures
        logs_well_formed(final(registry)@),
        match outcome {
            Ok(result) => {
                &&& final(registry)@.contains_key(name@)
                &&& final(registry)@ == old(registry)@.insert(name@, final(registry)@[name@])
                &&& incepted(
                    final(registry)@[name@].current_key,
                    final(registry)@[name@].next_key,
                ) == Some(final(registry)@[name@])
                &&& result.aid@ == final(registry)@[name@].prefix
                &&& result.public_key@ == base64_text(final(registry)@[name@].current_key)
                &&& base64_bytes(result.public_key@) == Some(final(registry)@[name@].current_key)
                &&& result.kel@ == final(registry)@[name@].kel[0]
            },
            Err(e) => {
                &&& e == AgentError::KeyGeneration || e == AgentError::Serialization
                &&& *final(registry) == *old(registry)
            },
        },
{
    let keys = match KeyMaterial::generate() {
        Ok(keys) => keys,
        Err(e) => {
            proof {
                use_type_invariant(&*registry);
                lemma_table_is_well_formed(registry.entries@);
            }
            return Err(e);
        },
    };
    incept_with_keys(registry, name, keys)
}

/// Rotates the identifier `name` to the given key material, whose current
/// key is the one that the rotation shows. The rotation is refused unless
/// that key is the next key of the identifier, the commitment in force binds
/// it, and no event of the log has shown it. Then a rotation event is
/// appended whose sequence number is the length of the log, the key
/// material is replaced, and the new next key is committed to. On failure
/// the registry is as before.
pub fn rotate_with_keys(registry: &mut IdentifierRegistry, name: String, keys: KeyMaterial) -> (outcome: Result<RotationResult, AgentError>)
    ensures
        logs_well_formed(final(registry)@),
        match outcome {
            Ok(result) => {
                &&& old(registry)@.contains_key(name@)
                &&& keys.current_key() == old(registry)@[name@].next_key
                &&& old(registry)@[name@].may_rotate()
                &&& rotated(old(registry)@[name@], keys.next_key()) matches Some(state)
                &&& state.wf()
                &&& final(registry)@ == old(registry)@.insert(name@, state)
                &&& result.aid@ == state.prefix
                &&& result.new_public_key@ == base64_text(keys.current_key())
                &&& base64_bytes(result.new_public_key@) == Some(keys.current_key())
                &&& result.kel@ == state.kel.last()
            },
            Err(e) => {
                &&& *final(registry) == *old(registry)
                &&& if !old(registry)@.contains_key(name@) {
                    e == AgentError::NotFound
                } else if keys.current_key() != old(registry)@[name@].next_key || !old(
                    registry,
                )@[name@].may_rotate() {
                    e == AgentError::CommitmentMismatch
                } else {
                    &&& e == AgentError::Serialization
                    &&& rotated(old(registry)@[name@], keys.next_key()) is None
                }
            },
        },
{
    let at = match registry.find(&name) {
        Some(at) => at,
        None => {
            return Err(AgentError::NotFound);
        },
    };
    let revealed = keys.current_public();
    let (event, kel_entry) = match registry.entries[at].prepare_rotation(&revealed) {
        Ok(prepared) => prepared,
        Err(e) => {
            return Err(e);
        },
    };
    let new_public_key = encode_base64(revealed.as_slice());
    let aid = registry.entries[at].prefix.clone();
    let mut entries: Vec<IdentifierEntry> = Vec::new();
    std::mem::swap(&mut entries, &mut registry.entries);
    let ghost listed = entries@;
    let stored = entries.remove(at);
    let ghost before = stored.state();
    let IdentifierEntry { name: stored_name, prefix, keys: _, pending: _, events, kel } = stored;
    let entry = rotated_entry(
        stored_name,
        prefix,
        events,
        kel,
        keys,
        event,
        kel_entry.clone(),
        Ghost(before),
    );
    proof {
        lemma_table_replace(listed, at as int, entry);
        assert(listed.remove(at as int).insert(at as int, entry) =~= listed.update(at as int, entry));
    }
    entries.insert(at, entry);
    proof {
        lemma_table_is_well_formed(entries@);
    }
    registry.entries = entries;
    Ok(RotationResult { aid, new_public_key, kel: kel_entry })
}

/// Rotates the identifier `name`: the next key becomes the current one and
/// is shown in a rotation event, and a fresh next key is drawn and
/// committed to. A name that is not registered is refused first; then the
/// next key is held against the commitment in force and against the keys
/// that the log shows; the key material is turned last. On failure the
/// identifier is as before.
pub fn rotate_aid(registry: &mut IdentifierRegistry, name: String) -> (outcome: Result<RotationResult, AgentError>)
    ensures
        logs_well_formed(final(registry)@),
        match outcome {
            Ok(result) => {
                &&& old(registry)@.contains_key(name@)
                &&& final(registry)@.contains_key(name@)
                &&& old(registry)@[name@].may_rotate()
                &&& final(registry)@ == old(registry)@.insert(name@, final(registry)@[name@])
                &&& rotated(old(registry)@[name@], final(registry)@[name@].next_key) == Some(
                    final(registry)@[name@],
                )
                &&& result.aid@ == old(registry)@[name@].prefix
                &&& result.new_public_key@ == base64_text(old(registry)@[name@].next_key)
                &&& base64_bytes(result.new_public_key@) == Some(old(registry)@[name@].next_key)
                &&& result.kel@ == final(registry)@[name@].kel.last()
            },
            Err(e) => {
                &&& final(registry)@ == old(registry)@
                &&& e != AgentError::KeyGeneration ==> *final(registry) == *old(registry)
                &&& if !old(registry)@.contains_key(name@) {
                    e == AgentError::NotFound
                } else if !old(registry)@[name@].may_rotate() {
                    e == AgentError::CommitmentMismatch
                } else if rotation_of(old(registry)@[name@]).canonical_text() is None {
                    e == AgentError::Serialization
                } else {
                    e == AgentError::KeyGeneration
                }
            },
        },
{
    let at = match registry.find(&name) {
        Some(at) => at,
        None => {
            return Err(AgentError::NotFound);
        },
    };
    let revealed = registry.entries[at].keys.next_public();
    let (event, kel_entry) = match registry.entries[at].prepare_rotation(&revealed) {
        Ok(prepared) => prepared,
        Err(e) => {
            return Err(e);
        },
    };
    let new_public_key = encode_base64(revealed.as_slice());
    let aid = registry.entries[at].prefix.clone();
    let mut entries: Vec<IdentifierEntry> = Vec::new();
    std::mem::swap(&mut entries, &mut registry.entries);
    let ghost listed = entries@;
    let stored = entries.remove(at);
    let ghost before = stored.state();
    let IdentifierEntry { name: stored_name, prefix, keys: stored_keys, pending, events, kel } =
        stored;
    match stored_keys.turned() {
        Ok(keys) => {
            let entry = rotated_entry(
                stored_name,
                prefix,
                events,
                kel,
                keys,
                event,
                kel_entry.clone(),
                Ghost(before),
            );
            proof {
                lemma_table_replace(listed, at as int, entry);
                assert(listed.remove(at as int).insert(at as int, entry) =~= listed.update(
                    at as int,
                    entry,
                ));
            }
            entries.insert(at, entry);
            proof {
                lemma_table_is_well_formed(entries@);
            }
            registry.entries = entries;
            Ok(RotationResult { aid, new_public_key, kel: kel_entry })
        },
        Err(back) => {
            let entry = IdentifierEntry {
                name: stored_name,
                prefix,
                keys: back,
                pending,
                events,
                kel,
            };
            proof {
                assert(entry.state() == before);
                lemma_table_replace(listed, at as int, entry);
                lemma_table_at(listed, at as int);
                assert(listed.remove(at as int).insert(at as int, entry) =~= listed.update(
                    at as int,
                    entry,
                ));
                assert(table(listed).insert(entry.name@, before) =~= table(listed));
            }
            entries.insert(at, entry);
            proof {
                lemma_table_is_well_formed(entries@);
            }
            registry.entries = entries;
            Err(AgentError::KeyGeneration)
        },
    }
}

/// Puts a signature and the key that verifies it into the form that is
/// handed to the caller.
pub fn sign_result(signature: &Vec<u8>, public_key: &Vec<u8>) -> (result: SignResult)
    ensures
        result.signature@ == base64_text(signature@),
        result.public_key@ == base64_text(public_key@),
        base64_bytes(result.signature@) == Some(signature@),
        base64_bytes(result.public_key@) == Some(public_key@),
{
    SignResult {
        signature: encode_base64(signature.as_slice()),
        public_key: encode_base64(public_key.as_slice()),
    }
}

/// Signs `data` with the current key of the identifier `name`. The
/// registry is only read. Verifying the result over the same data says
/// `true`.
pub fn sign_payload(registry: &IdentifierRegistry, name: String, data: Vec<u8>) -> (outcome: Result<SignResult, AgentError>)
    ensures
        logs_well_formed(registry@),
        match outcome {
            Ok(result) => {
                &&& registry@.contains_key(name@)
                &&& result.public_key@ == base64_text(registry@[name@].current_key)
                &&& base64_bytes(result.public_key@) == Some(registry@[name@].current_key)
                &&& base64_bytes(result.signature@) matches Some(signature)
                &&& signature.len() == SIGNATURE_BYTES
                &&& result.signature@ == base64_text(signature)
                &&& encoded_verdict(data@, result.signature@, result.public_key@) == Ok::<bool, AgentError>(true)
            },
            Err(e) => if registry@.contains_key(name@) {
                e == AgentError::Signing
            } else {
                e == AgentError::NotFound
            },
        },
{
    let at = match registry.find(&name) {
        Some(at) => at,
        None => {
            return Err(AgentError::NotFound);
        },
    };
    let entry = &registry.entries[at];
    let signature = match entry.keys.sign(data.as_slice()) {
        Ok(signature) => signature,
        Err(e) => {
            return Err(e);
        },
    };
    let public_key = entry.keys.current_public();
    Ok(sign_result(&signature, &public_key))
}

/// The log of the identifier `name` as a pretty-printed JSON array of the
/// canonical texts of its events, oldest first. The registry is only read.
pub fn get_current_kel(registry: &IdentifierRegistry, name: String) -> (outcome: Result<String, AgentError>)
    ensures
        logs_well_formed(registry@),
        match outcome {
            Ok(text) => {
                &&& registry@.contains_key(name@)
                &&& pretty_array(registry@[name@].kel) == Some(text@)
            },
            Err(e) => !registry@.contains_key(name@) && e == AgentError::NotFound,
        },
{
    let at = match registry.find(&name) {
        Some(at) => at,
        None => {
            return Err(AgentError::NotFound);
        },
    };
    let entry = &registry.entries[at];
    assert(texts(entry.kel@) == entry.state().kel);
    match print_array(&entry.kel) {
        Some(text) => Ok(text),
        None => Err(AgentError::Serialization),
    }
}

/// Sequence monotonicity: in a well-formed log every event stands at the
/// place that its sequence number names, so the numbers start at 0 and
/// grow by exactly 1 from each event to the next.
pub proof fn sequence_numbers_are_places(state: IdentifierState, place: int)
    requires
        state.wf(),
        0 <= place < state.events.len(),
    ensures
        state.events[place].sequence() == place,
        state.events[0] is Inception,
        place >= 1 ==> state.events[place] is Rotation && state.events[place].sequence()
            == state.events[place - 1].sequence() + 1,
{
}

/// A rotation keeps a log well formed: where the next key may be shown, the
/// rotation adds one rotation event at the end, with the next sequence
/// number, and changes no earlier event or text. The next key becomes the
/// current one, and the fresh next key is committed to. So the log stays
/// without gaps, and without a key shown twice, after any number of
/// rotations.
pub proof fn rotation_extends_the_log(state: IdentifierState, fresh_next: Seq<u8>)
    requires
        state.wf(),
        state.may_rotate(),
        state.events.len() < u64::MAX,
        fresh_next.len() == PUBLIC_KEY_BYTES,
        rotated(state, fresh_next) is Some,
    ensures
        ({
            let after = rotated(state, fresh_next)->Some_0;
            &&& after.wf()
            &&& after.prefix == state.prefix
            &&& after.current_key == state.next_key
            &&& after.events.len() == state.events.len() + 1
            &&& after.events.last().sequence() == state.events.len()
            &&& after.events.subrange(0, state.events.len() as int) == state.events
            &&& after.kel.subrange(0, state.kel.len() as int) == state.kel
        }),
{
    let after = rotated(state, fresh_next)->Some_0;
    let last = state.events.len() as int;
    assert(after.events.last() == rotation_of(state));
    assert forall|i: int| 0 <= i < after.events.len() implies {
        &&& (#[trigger] after.events[i]).sequence() == i
        &&& after.events[i].prefix() == after.prefix
        &&& after.events[i].canonical_text() == Some(after.kel[i])
        &&& (i >= 1 ==> after.events[i] is Rotation)
    } by {
        if i < state.events.len() {
            assert(after.events[i] == state.events[i]);
            assert(after.kel[i] == state.kel[i]);
        }
    }
    assert forall|i: int, j: int, key: Seq<u8>|
        0 <= i < j < after.events.len() && #[trigger] after.events[i].shows(key) implies !#[trigger]
        after.events[j].shows(key) by {
        assert(after.events[i] == state.events[i]);
        if j < last {
            assert(after.events[j] == state.events[j]);
        } else {
            if after.events[j].shows(key) {
                assert(key == state.next_key);
                assert(state.events[i].shows(state.next_key));
            }
        }
    }
    assert(after.events.subrange(0, state.events.len() as int) =~= state.events);
    assert(after.kel.subrange(0, state.kel.len() as int) =~= state.kel);
}

/// Commitment non-reuse, at inception: the inception event shows the
/// current key only. The next key stands in it as a digest that the
/// commitment binds, the same commitment is in force afterwards, and no
/// event of the new log shows the next key.
pub proof fn inception_hides_the_next_key(current: Seq<u8>, next: Seq<u8>)
    requires
        incepted(current, next) is Some,
    ensures
        ({
            let state = incepted(current, next)->Some_0;
            &&& state.shows(current)
            &&& next != current ==> !state.shows(next)
            &&& state.events[0]->commitment == state.pending
            &&& state.pending.binds(next)
            &&& state.keys_shown_once()
        }),
{
    let state = incepted(current, next)->Some_0;
    let commitment = commitment_of(1, seq![next]);
    assert(state.events[0].keys()[0] == current);
    assert(state.events[0].shows(current));
    assert(commitment.digests[0] == crate::commitment::key_digest(next));
    assert(commitment.binds(next));
}

/// Commitment non-reuse, at rotation: the key that a rotation shows is the
/// key that was held back as next key. The commitment in force before the
/// rotation binds it, no earlier event shows it, and the rotation event
/// shows that one key only; the fresh next key is committed to and, unless
/// it is that same key, not shown.
pub proof fn rotation_shows_the_committed_key(state: IdentifierState, fresh_next: Seq<u8>)
    requires
        state.wf(),
        state.may_rotate(),
        rotated(state, fresh_next) is Some,
    ensures
        ({
            let after = rotated(state, fresh_next)->Some_0;
            &&& after.events.last().keys() == seq![state.next_key]
            &&& state.pending.binds(state.next_key)
            &&& forall|i: int|
                0 <= i < state.events.len() ==> !(#[trigger] after.events[i]).shows(state.next_key)
            &&& after.pending.binds(fresh_next)
            &&& fresh_next != state.next_key ==> !after.events.last().shows(fresh_next)
        }),
{
    let after = rotated(state, fresh_next)->Some_0;
    assert(after.events.last() == rotation_of(state));
    assert forall|i: int| 0 <= i < state.events.len() implies !(#[trigger] after.events[i]).shows(
        state.next_key,
    ) by {
        assert(after.events[i] == state.events[i]);
    }
    assert(after.pending.digests[0] == crate::commitment::key_digest(fresh_next));
}

/// In a well-formed log the commitment in force binds the next key.
pub proof fn commitment_binds_the_next_key(state: IdentifierState)
    requires
        state.wf(),
    ensures
        state.pending.binds(state.next_key),
{
    assert(state.pending.digests[0] == crate::commitment::key_digest(state.next_key));
}

} // verus!
