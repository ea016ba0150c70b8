//! Reading the canonical text of an inception event. What is read here is
//! only a candidate: the caller accepts it where writing it again gives the
//! same text.

use vstd::prelude::*;
use vstd::string::*;
use crate::commitment::rows;
use crate::record::{is_plain, literal_at, plain_run, plain_run_ends, stands_at};
use keri_core::actor::prelude::SelfAddressingIdentifier;
use keri_core::prefix::{BasicPrefix, CesrPrimitive};

verus! {

/// The length of the CESR text of an Ed25519 key or of a Blake3-256 digest.
pub const PRIMITIVE_CHARS: usize = 44;

/// The bytes of the Ed25519 key that a CESR text of 44 characters stands
/// for, or `None` where it stands for none.
pub uninterp spec fn key_bytes(text: Seq<char>) -> Option<Seq<u8>>;

/// The bytes of the Blake3-256 digest that a CESR text of 44 characters
/// stands for, or `None` where it stands for none.
pub uninterp spec fn digest_bytes(text: Seq<char>) -> Option<Seq<u8>>;

/// `str::parse` into a `BasicPrefix` of keri_core, and the bytes of the key
/// it holds. Not proved here: that they depend on the text alone, so that
/// they are `key_bytes` of it, and that the call fails exactly where that
/// is `None`. The text is ASCII, has the length of an Ed25519 key in CESR
/// and starts with its code, since the parser cuts other texts at places
/// that it has not tested.
#[verifier::external_body]
fn key_of_text(text: &str) -> (key: Option<Vec<u8>>)
    requires
        is_ascii(text),
        text@.len() == PRIMITIVE_CHARS,
        text@[0] == 'D',
    ensures
        match key {
            Some(bytes) => key_bytes(text@) == Some(bytes@),
            None => key_bytes(text@) is None,
        },
{
    text.parse::<BasicPrefix>().ok().map(|prefix| prefix.derivative())
}

/// `str::parse` into a `SelfAddressingIdentifier` of keri_core, and the bytes
/// of its digest. Not proved here: that they depend on the text alone, so
/// that they are `digest_bytes` of it, and that the call fails exactly where
/// that is `None`. The text is ASCII, has the length of a Blake3-256 digest
/// in CESR and starts with its code, since the parser cuts other texts at
/// places that it has not tested.
#[verifier::external_body]
fn digest_of_text(text: &str) -> (digest: Option<Vec<u8>>)
    requires
        is_ascii(text),
        text@.len() == PRIMITIVE_CHARS,
        text@[0] == 'E',
    ensures
        match digest {
            Some(bytes) => digest_bytes(text@) == Some(bytes@),
            None => digest_bytes(text@) is None,
        },
{
    text.parse::<SelfAddressingIdentifier>().ok().map(|said| said.digest)
}

/// What the text of an inception event names.
pub struct InceptionFields {
    pub prefix: String,
    pub keys: Vec<Vec<u8>>,
    pub signing_threshold: u64,
    pub next_threshold: u64,
    pub digests: Vec<Vec<u8>>,
}

/// What the text of an inception event names, as a mathematical value.
pub struct InceptionFieldsModel {
    pub prefix: Seq<char>,
    pub keys: Seq<Seq<u8>>,
    pub signing_threshold: u64,
    pub next_threshold: u64,
    pub digests: Seq<Seq<u8>>,
}

impl View for InceptionFields {
    type V = InceptionFieldsModel;

    open spec fn view(&self) -> InceptionFieldsModel {
        InceptionFieldsModel {
            prefix: self.prefix@,
            keys: rows(self.keys@),
            signing_threshold: self.signing_threshold,
            next_threshold: self.next_threshold,
            digests: rows(self.digests@),
        }
    }
}

/// The place after `literal` where it stands in `text` at `at`, and `None`
/// where it does not stand there.
pub open spec fn skipped(text: Seq<char>, at: int, literal: Seq<char>) -> Option<int> {
    if stands_at(text, literal, at) {
        Some(at + literal.len())
    } else {
        None
    }
}

/// The end of the longest run of plain characters that starts at `from`.
pub open spec fn plain_run_end(text: Seq<char>, from: int) -> int
    decreases text.len() - from,
{
    if 0 <= from < text.len() && is_plain(text[from]) {
        plain_run_end(text, from + 1)
    } else {
        from
    }
}

/// A lower-case hexadecimal digit.
pub open spec fn is_hex(c: char) -> bool {
    ('0' <= c && c <= '9') || ('a' <= c && c <= 'f')
}

/// The number that a hexadecimal digit stands for.
pub open spec fn hex_digit_value(c: char) -> nat {
    if c <= '9' {
        (c as u8 - 0x30) as nat
    } else {
        (c as u8 - 0x61 + 10) as nat
    }
}

/// The end of the longest run of hexadecimal digits that starts at `from`.
pub open spec fn hex_run_end(text: Seq<char>, from: int) -> int
    decreases text.len() - from,
{
    if 0 <= from < text.len() && is_hex(text[from]) {
        hex_run_end(text, from + 1)
    } else {
        from
    }
}

/// The number that a run of hexadecimal digits stands for.
pub open spec fn hex_value(digits: Seq<char>) -> nat
    decreases digits.len(),
{
    if digits.len() == 0 {
        0
    } else {
        hex_value(digits.drop_last()) * 16 + hex_digit_value(digits.last())
    }
}

/// The hexadecimal number that stands in `text` at `from`, with the place
/// where it ends: the longest run of hexadecimal digits there. There is
/// none where no digit stands at `from`, or where the number does not fit
/// 64 bits.
pub open spec fn hex_field(text: Seq<char>, from: int) -> Option<(u64, int)> {
    let end = hex_run_end(text, from);
    let value = hex_value(text.subrange(from, end));
    if end == from || value > u64::MAX {
        None
    } else {
        Some((value as u64, end))
    }
}

proof fn lemma_plain_run_end(text: Seq<char>, from: int, end: int)
    requires
        plain_run_ends(text, from, end),
    ensures
        plain_run_end(text, from) == end,
    decreases end - from,
{
    if from < end {
        assert(is_plain(text[from]));
        lemma_plain_run_end(text, from + 1, end);
    }
}

proof fn lemma_hex_run_end(text: Seq<char>, from: int, upto: int)
    requires
        0 <= from <= upto <= text.len(),
        forall|i: int| from <= i < upto ==> is_hex(#[trigger] text[i]),
    ensures
        hex_run_end(text, from) >= upto,
        hex_run_end(text, from) <= text.len(),
        upto == text.len() || !is_hex(text[upto]) ==> hex_run_end(text, from) == upto,
    decreases text.len() - from,
{
    if from < upto {
        assert(is_hex(text[from]));
        lemma_hex_run_end(text, from + 1, upto);
    } else if from < text.len() && is_hex(text[from]) {
        lemma_hex_run_end(text, from + 1, from + 1);
    }
}

proof fn lemma_hex_value_grows(digits: Seq<char>, upto: int)
    requires
        0 <= upto <= digits.len(),
    ensures
        hex_value(digits.subrange(0, upto)) <= hex_value(digits),
    decreases digits.len() - upto,
{
    if upto == digits.len() {
        assert(digits.subrange(0, upto) =~= digits);
    } else {
        lemma_hex_value_grows(digits, upto + 1);
        let longer = digits.subrange(0, upto + 1);
        assert(longer.drop_last() =~= digits.subrange(0, upto));
    }
}

/// Steps over `literal` where it stands at `at`.
fn skip(text: &str, at: usize, literal: &str) -> (after: Option<usize>)
    requires
        is_ascii(text),
    ensures
        match after {
            Some(end) => skipped(text@, at as int, literal@) == Some(end as int),
            None => skipped(text@, at as int, literal@) is None,
        },
{
    if literal_at(text, at, literal) {
        let length: usize = text.unicode_len();
        let width: usize = literal.unicode_len();
        assert(at + width <= length);
        Some(at + width)
    } else {
        None
    }
}

/// Reads a number in lower-case hexadecimal digits, and where it ends.
fn hexadecimal(text: &str, from: usize) -> (read: Option<(u64, usize)>)
    requires
        is_ascii(text),
        from <= text@.len(),
    ensures
        match read {
            Some((value, end)) => hex_field(text@, from as int) == Some((value, end as int)),
            None => hex_field(text@, from as int) is None,
        },
{
    let length: usize = text.unicode_len();
    let mut value: u64 = 0;
    let mut at: usize = from;
    assert(text@.subrange(from as int, from as int) =~= Seq::<char>::empty());
    while at < length
        invariant
            is_ascii(text),
            length == text@.len(),
            from <= at <= length,
            forall|i: int| from <= i < at ==> is_hex(#[trigger] text@[i]),
            value == hex_value(text@.subrange(from as int, at as int)),
        decreases length - at,
    {
        let byte = text.get_ascii(at);
        assert('\0' <= text@[at as int] <= '\u{7f}');
        if !((0x30 <= byte && byte <= 0x39) || (0x61 <= byte && byte <= 0x66)) {
            assert(!is_hex(text@[at as int]));
            proof {
                lemma_hex_run_end(text@, from as int, at as int);
            }
            return if at == from {
                None
            } else {
                Some((value, at))
            };
        }
        assert(is_hex(text@[at as int]));
        let digit: u64 = if byte <= 0x39 {
            (byte - 0x30) as u64
        } else {
            (byte - 0x61) as u64 + 10
        };
        assert(digit == hex_digit_value(text@[at as int]));
        proof {
            let longer = text@.subrange(from as int, at + 1);
            assert(longer.drop_last() =~= text@.subrange(from as int, at as int));
            assert(longer.last() == text@[at as int]);
            assert(hex_value(longer) == value * 16 + digit);
        }
        if value > (u64::MAX - digit) / 16 {
            proof {
                lemma_hex_run_end(text@, from as int, at + 1);
                let end = hex_run_end(text@, from as int);
                let digits = text@.subrange(from as int, end);
                lemma_hex_value_grows(digits, at + 1 - from);
                assert(digits.subrange(0, at + 1 - from) =~= text@.subrange(from as int, at + 1));
            }
            return None;
        }
        value = value * 16 + digit;
        at += 1;
    }
    proof {
        lemma_hex_run_end(text@, from as int, at as int);
    }
    if at == from {
        None
    } else {
        Some((value, at))
    }
}

/// Whether the character `c` stands in `text` at `at`.
pub open spec fn char_at(text: Seq<char>, at: int, c: char) -> bool {
    0 <= at < text.len() && text[at] == c
}

/// The character that the CESR text of an Ed25519 key, or of a Blake3-256
/// digest, starts with.
pub open spec fn primitive_code(keys: bool) -> char {
    if keys {
        'D'
    } else {
        'E'
    }
}

/// The bytes that the CESR text of a key, or of a digest, stands for.
pub open spec fn primitive_bytes(item: Seq<char>, keys: bool) -> Option<Seq<u8>> {
    if keys {
        key_bytes(item)
    } else {
        digest_bytes(item)
    }
}

/// The quoted CESR primitive that stands in `text` at `at`: between two
/// quotes 44 plain characters, of which the first is `D` for a key and `E`
/// for a digest. Given are its bytes and the place after the closing quote.
pub open spec fn item_at(text: Seq<char>, at: int, keys: bool) -> Option<(Seq<u8>, int)> {
    let from = at + 1;
    let to = plain_run_end(text, from);
    if char_at(text, at, '"') && to - from == PRIMITIVE_CHARS && char_at(
        text,
        from,
        primitive_code(keys),
    ) && char_at(text, to, '"') {
        match primitive_bytes(text.subrange(from, to), keys) {
            Some(bytes) => Some((bytes, to + 1)),
            None => None,
        }
    } else {
        None
    }
}

/// The items that stand in `text` from `at` on, one or more, with a comma
/// between two of them and a closing bracket after the last. Given are the
/// bytes of each, in their order, and the place after the bracket.
pub open spec fn items_from(text: Seq<char>, at: int, keys: bool) -> Option<(Seq<Seq<u8>>, int)>
    decreases text.len() - at,
{
    match item_at(text, at, keys) {
        Some((bytes, after)) => {
            if char_at(text, after, ']') {
                Some((seq![bytes], after + 1))
            } else if char_at(text, after, ',') && after >= at {
                match items_from(text, after + 1, keys) {
                    Some((rest, end)) => Some((seq![bytes] + rest, end)),
                    None => None,
                }
            } else {
                None
            }
        },
        None => None,
    }
}

/// The list that stands in `text` at `from`, behind its opening bracket:
/// the closing bracket at once, or items up to it.
pub open spec fn list_at(text: Seq<char>, from: int, keys: bool) -> Option<(Seq<Seq<u8>>, int)> {
    if char_at(text, from, ']') {
        Some((Seq::empty(), from + 1))
    } else {
        items_from(text, from, keys)
    }
}

/// What a list comes to when `done` was read before `rest`.
pub open spec fn joined(done: Seq<Seq<u8>>, rest: Option<(Seq<Seq<u8>>, int)>) -> Option<(Seq<Seq<u8>>, int)> {
    match rest {
        Some((items, end)) => Some((done + items, end)),
        None => None,
    }
}

proof fn lemma_one_char(text: Seq<char>, at: int, literal: Seq<char>, c: char)
    requires
        0 <= at,
        literal.len() == 1,
        literal[0] == c,
    ensures
        skipped(text, at, literal) == if char_at(text, at, c) {
            Some(at + 1)
        } else {
            None
        },
{
    if char_at(text, at, c) {
        assert(stands_at(text, literal, at));
    } else if stands_at(text, literal, at) {
        assert(text[at + 0] == literal[0]);
    }
}

/// Reads a list of quoted CESR primitives up to the closing bracket: the
/// bytes of each, and where the list ends. `keys` says whether the items
/// are keys or digests.
fn primitives(text: &str, from: usize, keys: bool) -> (read: Option<(Vec<Vec<u8>>, usize)>)
    requires
        is_ascii(text),
        from <= text@.len(),
    ensures
        match read {
            Some((items, end)) => list_at(text@, from as int, keys) == Some(
                (rows(items@), end as int),
            ),
            None => list_at(text@, from as int, keys) is None,
        },
{
    proof {
        reveal_strlit("]");
        reveal_strlit("\"");
        reveal_strlit(",");
        lemma_one_char(text@, from as int, "]"@, ']');
    }
    let mut items: Vec<Vec<u8>> = Vec::new();
    match skip(text, from, "]") {
        Some(end) => {
            assert(rows(items@) =~= Seq::<Seq<u8>>::empty());
            return Some((items, end));
        },
        None => {},
    }
    let length: usize = text.unicode_len();
    let mut at: usize = from;
    assert(joined(rows(items@), items_from(text@, at as int, keys)) == items_from(
        text@,
        from as int,
        keys,
    )) by {
        assert(rows(items@) =~= Seq::<Seq<u8>>::empty());
        match items_from(text@, at as int, keys) {
            Some((rest, end)) => {
                assert(rows(items@) + rest =~= rest);
            },
            None => {},
        }
    }
    loop
        invariant
            is_ascii(text),
            length == text@.len(),
            from <= at <= length,
            "]"@.len() == 1 && "]"@[0] == ']',
            "\""@.len() == 1 && "\""@[0] == '"',
            ","@.len() == 1 && ","@[0] == ',',
            list_at(text@, from as int, keys) == items_from(text@, from as int, keys),
            joined(rows(items@), items_from(text@, at as int, keys)) == items_from(
                text@,
                from as int,
                keys,
            ),
        decreases length - at,
    {
        proof {
            lemma_one_char(text@, at as int, "\""@, '"');
        }
        let item_from = match skip(text, at, "\"") {
            Some(next) => next,
            None => {
                return None;
            },
        };
        let item_to = plain_run(text, item_from);
        proof {
            lemma_plain_run_end(text@, item_from as int, item_to as int);
            lemma_one_char(text@, item_to as int, "\""@, '"');
        }
        if item_to - item_from != PRIMITIVE_CHARS {
            return None;
        }
        let code = text.get_ascii(item_from);
        assert('\0' <= text@[item_from as int] <= '\u{7f}');
        let item = text.substring_ascii(item_from, item_to);
        assert(item@[0] == text@[item_from as int]);
        let decoded = if keys {
            if code != 0x44 {
                return None;
            }
            key_of_text(item)
        } else {
            if code != 0x45 {
                return None;
            }
            digest_of_text(item)
        };
        let bytes = match decoded {
            Some(bytes) => bytes,
            None => {
                return None;
            },
        };
        let after_item = match skip(text, item_to, "\"") {
            Some(next) => next,
            None => {
                return None;
            },
        };
        assert(item_at(text@, at as int, keys) == Some((bytes@, after_item as int)));
        let ghost before = rows(items@);
        items.push(bytes);
        assert(rows(items@) =~= before + seq![bytes@]);
        proof {
            lemma_one_char(text@, after_item as int, "]"@, ']');
            lemma_one_char(text@, after_item as int, ","@, ',');
        }
        match skip(text, after_item, "]") {
            Some(end) => {
                return Some((items, end));
            },
            None => {},
        }
        let next = match skip(text, after_item, ",") {
            Some(next) => next,
            None => {
                return None;
            },
        };
        proof {
            match items_from(text@, next as int, keys) {
                Some((rest, end)) => {
                    assert((before + seq![bytes@]) + rest =~= before + (seq![bytes@] + rest));
                },
                None => {},
            }
        }
        at = next;
    }
}

/// The place after `literal`, where the reading has come to a place and
/// `literal` stands there.
pub open spec fn then_skipped(text: Seq<char>, at: Option<int>, literal: Seq<char>) -> Option<int> {
    match at {
        Some(at) => skipped(text, at, literal),
        None => None,
    }
}

/// The end of the run of plain characters at the place that the reading has
/// come to.
pub open spec fn then_plain(text: Seq<char>, at: Option<int>) -> Option<int> {
    match at {
        Some(at) => Some(plain_run_end(text, at)),
        None => None,
    }
}

/// The hexadecimal number at the place that the reading has come to.
pub open spec fn then_hex(text: Seq<char>, at: Option<int>) -> Option<(u64, int)> {
    match at {
        Some(at) => hex_field(text, at),
        None => None,
    }
}

/// The list at the place that the reading has come to.
pub open spec fn then_list(text: Seq<char>, at: Option<int>, keys: bool) -> Option<(Seq<Seq<u8>>, int)> {
    match at {
        Some(at) => list_at(text, at, keys),
        None => None,
    }
}

/// The place behind a field that was read.
pub open spec fn behind<T>(field: Option<(T, int)>) -> Option<int> {
    match field {
        Some((_, end)) => Some(end),
        None => None,
    }
}

/// What a field that was read holds.
pub open spec fn held<T>(field: Option<(T, int)>) -> T
    recommends
        field is Some,
{
    match field {
        Some((value, _)) => value,
        None => arbitrary(),
    }
}

/// What a text in the shape of an inception event names. The shape, from
/// left to right: the version, the digest and the prefix as plain strings,
/// sequence number 0, the signing threshold in hexadecimal, the list of
/// keys, the threshold of the next keys, the list of their digests, and no
/// witnesses, configuration or seals. Named are the prefix, the two
/// thresholds and the bytes of the keys and digests; `None` for a text of
/// another shape.
pub open spec fn inception_fields(text: Seq<char>) -> Option<InceptionFieldsModel> {
    let version_from = skipped(text, 0, "{\"v\":\""@);
    let version_to = then_plain(text, version_from);
    let said_from = then_skipped(text, version_to, "\",\"t\":\"icp\",\"d\":\""@);
    let said_to = then_plain(text, said_from);
    let prefix_from = then_skipped(text, said_to, "\",\"i\":\""@);
    let prefix_to = then_plain(text, prefix_from);
    let signing_from = then_skipped(text, prefix_to, "\",\"s\":\"0\",\"kt\":\""@);
    let signing = then_hex(text, signing_from);
    let keys_from = then_skipped(text, behind(signing), "\",\"k\":["@);
    let keys = then_list(text, keys_from, true);
    let next_from = then_skipped(text, behind(keys), ",\"nt\":\""@);
    let next = then_hex(text, next_from);
    let digests_from = then_skipped(text, behind(next), "\",\"n\":["@);
    let digests = then_list(text, digests_from, false);
    let end = then_skipped(text, behind(digests), ",\"bt\":\"0\",\"b\":[],\"c\":[],\"a\":[]}"@);
    if vstd::utf8::is_ascii_chars(text) && end == Some(text.len() as int) {
        Some(
            InceptionFieldsModel {
                prefix: text.subrange(prefix_from->0, prefix_to->0),
                keys: held(keys),
                signing_threshold: held(signing),
                next_threshold: held(next),
                digests: held(digests),
            },
        )
    } else {
        None
    }
}

/// Reads what a text in the shape of an inception event names: the prefix,
/// the keys with their threshold, and the digests of the next keys with
/// theirs.
pub(crate) fn scan_inception(text: &str) -> (read: Option<InceptionFields>)
    ensures
        match read {
            Some(fields) => inception_fields(text@) == Some(fields@),
            None => inception_fields(text@) is None,
        },
{
    if !text.is_ascii() {
        return None;
    }
    let length: usize = text.unicode_len();
    let version_from = skip(text, 0, "{\"v\":\"")?;
    let version_to = plain_run(text, version_from);
    proof {
        lemma_plain_run_end(text@, version_from as int, version_to as int);
    }
    let said_from = skip(text, version_to, "\",\"t\":\"icp\",\"d\":\"")?;
    let said_to = plain_run(text, said_from);
    proof {
        lemma_plain_run_end(text@, said_from as int, said_to as int);
    }
    let prefix_from = skip(text, said_to, "\",\"i\":\"")?;
    let prefix_to = plain_run(text, prefix_from);
    proof {
        lemma_plain_run_end(text@, prefix_from as int, prefix_to as int);
    }
    let signing_from = skip(text, prefix_to, "\",\"s\":\"0\",\"kt\":\"")?;
    let (signing_threshold, signing_to) = hexadecimal(text, signing_from)?;
    let keys_from = skip(text, signing_to, "\",\"k\":[")?;
    let (keys, keys_to) = primitives(text, keys_from, true)?;
    let next_from = skip(text, keys_to, ",\"nt\":\"")?;
    let (next_threshold, next_to) = hexadecimal(text, next_from)?;
    let digests_from = skip(text, next_to, "\",\"n\":[")?;
    let (digests, digests_to) = primitives(text, digests_from, false)?;
    let end = skip(text, digests_to, ",\"bt\":\"0\",\"b\":[],\"c\":[],\"a\":[]}")?;
    if end != length {
        return None;
    }
    let prefix = text.substring_ascii(prefix_from, prefix_to).to_owned();
    Some(InceptionFields { prefix, keys, signing_threshold, next_threshold, digests })
}

} // verus!
