//! The canonical text of a rotation record: a JSON object with its keys in
//! alphabetical order and no white space,
//! `{"aid":"<prefix>","new_public_key":"<base64 key>","sn":<number>,"type":"rot"}`.

use vstd::prelude::*;
use vstd::string::*;
use crate::encoding::{base64_bytes, base64_text, decode_base64, encode_base64};

verus! {

/// A character that stands for itself inside a JSON string: printable ASCII
/// other than the quote and the backslash.
pub open spec fn is_plain(c: char) -> bool {
    ' ' <= c <= '~' && c != '"' && c != '\\'
}

/// Text that needs no escaping inside a JSON string.
pub open spec fn plain_text(text: Seq<char>) -> bool {
    forall|i: int| 0 <= i < text.len() ==> is_plain(#[trigger] text[i])
}

/// The character of one decimal digit.
pub open spec fn digit_char(digit: int) -> char {
    if digit == 0 {
        '0'
    } else if digit == 1 {
        '1'
    } else if digit == 2 {
        '2'
    } else if digit == 3 {
        '3'
    } else if digit == 4 {
        '4'
    } else if digit == 5 {
        '5'
    } else if digit == 6 {
        '6'
    } else if digit == 7 {
        '7'
    } else if digit == 8 {
        '8'
    } else {
        '9'
    }
}

/// The decimal numeral of a natural number, without leading zeros.
pub open spec fn decimal(number: nat) -> Seq<char>
    decreases number,
{
    if number < 10 {
        seq![digit_char(number as int)]
    } else {
        decimal(number / 10).push(digit_char((number % 10) as int))
    }
}

/// What opens a rotation record, up to the prefix.
pub open spec fn record_head() -> Seq<char> {
    "{\"aid\":\""@
}

/// What stands between the prefix and the key.
pub open spec fn record_key_label() -> Seq<char> {
    "\",\"new_public_key\":\""@
}

/// What stands between the key and the sequence number.
pub open spec fn record_number_label() -> Seq<char> {
    "\",\"sn\":"@
}

/// What closes a rotation record, after the sequence number.
pub open spec fn record_tail() -> Seq<char> {
    ",\"type\":\"rot\"}"@
}

/// The record that holds the three given texts.
#[verifier::opaque]
pub open spec fn record_of(prefix: Seq<char>, key_text: Seq<char>, number: Seq<char>) -> Seq<char> {
    record_head() + prefix + record_key_label() + key_text + record_number_label() + number
        + record_tail()
}

/// A key whose base64 text can stand in a record: the text needs no
/// escaping, and it decodes to the key again.
pub open spec fn key_can_be_written(key: Seq<u8>) -> bool {
    &&& plain_text(base64_text(key))
    &&& base64_bytes(base64_text(key)) == Some(key)
}

/// The canonical text of the rotation to `key` at `sequence` of the
/// identifier `prefix`. There is none where the prefix would need escaping
/// or the key cannot be written.
pub open spec fn rotation_text(prefix: Seq<char>, key: Seq<u8>, sequence: u64) -> Option<Seq<char>> {
    if plain_text(prefix) && key_can_be_written(key) {
        Some(record_of(prefix, base64_text(key), decimal(sequence as nat)))
    } else {
        None
    }
}

/// Whether `literal` stands in `text` at the place `at`.
pub open spec fn stands_at(text: Seq<char>, literal: Seq<char>, at: int) -> bool {
    &&& 0 <= at
    &&& at + literal.len() <= text.len()
    &&& forall|i: int| 0 <= i < literal.len() ==> text[at + i] == #[trigger] literal[i]
}

/// A decimal digit.
pub open spec fn is_digit(c: char) -> bool {
    '0' <= c <= '9'
}

/// The number that a decimal digit stands for.
pub open spec fn digit_value(c: char) -> nat {
    if c == '0' {
        0
    } else if c == '1' {
        1
    } else if c == '2' {
        2
    } else if c == '3' {
        3
    } else if c == '4' {
        4
    } else if c == '5' {
        5
    } else if c == '6' {
        6
    } else if c == '7' {
        7
    } else if c == '8' {
        8
    } else {
        9
    }
}

/// Text made of decimal digits only.
pub open spec fn all_digits(text: Seq<char>) -> bool {
    forall|i: int| 0 <= i < text.len() ==> is_digit(#[trigger] text[i])
}

/// The number that a run of decimal digits stands for.
pub open spec fn numeral_value(digits: Seq<char>) -> nat
    decreases digits.len(),
{
    if digits.len() == 0 {
        0
    } else {
        numeral_value(digits.drop_last()) * 10 + digit_value(digits.last())
    }
}

/// A numeral as `decimal` writes it: digits only, at least one, and no
/// leading zero but in the numeral of zero itself.
pub open spec fn is_numeral(digits: Seq<char>) -> bool {
    &&& digits.len() >= 1
    &&& all_digits(digits)
    &&& digits.len() > 1 ==> digits[0] != '0'
}

/// Whether a text needs no escaping inside a JSON string.
pub fn is_plain_text(text: &str) -> (plain: bool)
    ensures
        plain == plain_text(text@),
{
    if !text.is_ascii() {
        assert(!plain_text(text@)) by {
            if plain_text(text@) {
                assert forall|i: int| 0 <= i < text@.len() implies '\0' <= #[trigger] text@[i]
                    <= '\u{7f}' by {
                    assert(is_plain(text@[i]));
                }
            }
        }
        return false;
    }
    let length: usize = text.unicode_len();
    let mut at: usize = 0;
    while at < length
        invariant
            length == text@.len(),
            is_ascii(text),
            at <= length,
            forall|i: int| 0 <= i < at ==> is_plain(#[trigger] text@[i]),
        decreases length - at,
    {
        let byte = text.get_ascii(at);
        assert('\0' <= text@[at as int] <= '\u{7f}');
        if byte < 0x20 || byte > 0x7e || byte == 0x22 || byte == 0x5c {
            assert(!is_plain(text@[at as int]));
            return false;
        }
        assert(is_plain(text@[at as int]));
        at += 1;
    }
    true
}

/// The text of one decimal digit.
fn digit_text(digit: u64) -> (text: &'static str)
    requires
        digit < 10,
    ensures
        text@ == seq![digit_char(digit as int)],
{
    proof {
        reveal_strlit("0");
        reveal_strlit("1");
        reveal_strlit("2");
        reveal_strlit("3");
        reveal_strlit("4");
        reveal_strlit("5");
        reveal_strlit("6");
        reveal_strlit("7");
        reveal_strlit("8");
        reveal_strlit("9");
    }
    let text = if digit == 0 {
        "0"
    } else if digit == 1 {
        "1"
    } else if digit == 2 {
        "2"
    } else if digit == 3 {
        "3"
    } else if digit == 4 {
        "4"
    } else if digit == 5 {
        "5"
    } else if digit == 6 {
        "6"
    } else if digit == 7 {
        "7"
    } else if digit == 8 {
        "8"
    } else {
        "9"
    };
    assert(text@ =~= seq![digit_char(digit as int)]);
    text
}

/// Appends the decimal numeral of `number` to `out`.
pub fn push_decimal(out: &mut String, number: u64)
    ensures
        final(out)@ == old(out)@ + decimal(number as nat),
    decreases number,
{
    if number >= 10 {
        push_decimal(out, number / 10);
    }
    out.append(digit_text(number % 10));
    assert(out@ =~= old(out)@ + decimal(number as nat));
}

/// Writes the canonical text of a rotation record.
pub fn write_rotation(prefix: &str, key: &[u8], sequence: u64) -> (written: Option<String>)
    ensures
        match written {
            Some(text) => rotation_text(prefix@, key@, sequence) == Some(text@),
            None => rotation_text(prefix@, key@, sequence) is None,
        },
{
    let key_text = encode_base64(key);
    if !is_plain_text(prefix) || !is_plain_text(key_text.as_str()) {
        return None;
    }
    proof {
        reveal(record_of);
    }
    let mut out = "{\"aid\":\"".to_owned();
    out.append(prefix);
    out.append("\",\"new_public_key\":\"");
    out.append(key_text.as_str());
    out.append("\",\"sn\":");
    push_decimal(&mut out, sequence);
    out.append(",\"type\":\"rot\"}");
    Some(out)
}

proof fn lemma_digit_of_char(c: char)
    requires
        is_digit(c),
    ensures
        digit_value(c) < 10,
        digit_char(digit_value(c) as int) == c,
        digit_value(c) == 0 <==> c == '0',
{
}

proof fn lemma_char_of_digit(digit: int)
    requires
        0 <= digit < 10,
    ensures
        is_digit(digit_char(digit)),
        digit_value(digit_char(digit)) == digit,
{
}

/// What `decimal` writes is a numeral, and it stands for the number written.
proof fn lemma_decimal_is_numeral(number: nat)
    ensures
        is_numeral(decimal(number)),
        numeral_value(decimal(number)) == number,
    decreases number,
{
    if number < 10 {
        lemma_char_of_digit(number as int);
        let written = decimal(number);
        assert(written.drop_last() =~= Seq::<char>::empty());
        assert(numeral_value(written.drop_last()) == 0);
        assert(is_numeral(written));
    } else {
        lemma_decimal_is_numeral(number / 10);
        lemma_char_of_digit((number % 10) as int);
        let front = decimal(number / 10);
        let written = decimal(number);
        assert(written.drop_last() =~= front);
        assert(written.last() == digit_char((number % 10) as int));
        assert(written[0] == front[0]);
        if front.len() == 1 {
            assert(numeral_value(front) == number / 10);
            assert(front.drop_last() =~= Seq::<char>::empty());
            assert(numeral_value(front.drop_last()) == 0);
            assert(front.last() == front[0]);
            assert(digit_value(front[0]) == number / 10);
            assert(is_digit(front[0]));
            lemma_digit_of_char(front[0]);
            assert(front[0] != '0');
        }
        assert(written[0] != '0');
        assert forall|i: int| 0 <= i < written.len() implies is_digit(#[trigger] written[i]) by {
            if i < front.len() {
                assert(written[i] == front[i]);
            }
        }
        assert(is_numeral(written));
    }
}

proof fn lemma_numeral_is_positive(digits: Seq<char>)
    requires
        digits.len() >= 1,
        all_digits(digits),
        digits[0] != '0',
    ensures
        numeral_value(digits) >= 1,
    decreases digits.len(),
{
    lemma_digit_of_char(digits.last());
    if digits.len() == 1 {
        assert(digits.drop_last() =~= Seq::<char>::empty());
    } else {
        let front = digits.drop_last();
        assert(front[0] == digits[0]);
        assert forall|i: int| 0 <= i < front.len() implies is_digit(#[trigger] front[i]) by {
            assert(front[i] == digits[i]);
        }
        lemma_numeral_is_positive(front);
    }
}

/// A numeral is what `decimal` writes for the number it stands for.
proof fn lemma_numeral_is_decimal(digits: Seq<char>)
    requires
        is_numeral(digits),
    ensures
        decimal(numeral_value(digits)) == digits,
    decreases digits.len(),
{
    lemma_digit_of_char(digits.last());
    let front = digits.drop_last();
    if digits.len() == 1 {
        assert(front =~= Seq::<char>::empty());
        assert(numeral_value(front) == 0);
        assert(decimal(numeral_value(digits)) =~= digits);
    } else {
        assert(front[0] == digits[0]);
        assert forall|i: int| 0 <= i < front.len() implies is_digit(#[trigger] front[i]) by {
            assert(front[i] == digits[i]);
        }
        lemma_numeral_is_positive(front);
        lemma_numeral_is_decimal(front);
        let number = numeral_value(digits);
        assert(number == numeral_value(front) * 10 + digit_value(digits.last()));
        assert(number / 10 == numeral_value(front));
        assert(number % 10 == digit_value(digits.last()));
        assert(decimal(number) =~= digits);
    }
}

proof fn lemma_numeral_grows(digits: Seq<char>, upto: int)
    requires
        0 <= upto <= digits.len(),
    ensures
        numeral_value(digits.subrange(0, upto)) <= numeral_value(digits),
    decreases digits.len() - upto,
{
    if upto == digits.len() {
        assert(digits.subrange(0, upto) =~= digits);
    } else {
        lemma_numeral_grows(digits, upto + 1);
        let longer = digits.subrange(0, upto + 1);
        assert(longer.drop_last() =~= digits.subrange(0, upto));
    }
}

/// The end of the longest run of plain characters that starts at `from`.
pub open spec fn plain_run_ends(text: Seq<char>, from: int, end: int) -> bool {
    &&& 0 <= from <= end <= text.len()
    &&& forall|i: int| from <= i < end ==> is_plain(#[trigger] text[i])
    &&& end == text.len() || !is_plain(text[end])
}

/// The end of the longest run of decimal digits that starts at `from`.
pub open spec fn digit_run_ends(text: Seq<char>, from: int, end: int) -> bool {
    &&& 0 <= from <= end <= text.len()
    &&& forall|i: int| from <= i < end ==> is_digit(#[trigger] text[i])
    &&& end == text.len() || !is_digit(text[end])
}

proof fn lemma_labels()
    ensures
        record_head().len() == 8,
        record_key_label().len() == 20,
        record_number_label().len() == 7,
        record_tail().len() == 14,
        record_key_label()[0] == '"',
        record_number_label()[0] == '"',
        record_tail()[0] == ',',
        vstd::utf8::is_ascii_chars(record_head()),
        vstd::utf8::is_ascii_chars(record_key_label()),
        vstd::utf8::is_ascii_chars(record_number_label()),
        vstd::utf8::is_ascii_chars(record_tail()),
{
    reveal_strlit("{\"aid\":\"");
    reveal_strlit("\",\"new_public_key\":\"");
    reveal_strlit("\",\"sn\":");
    reveal_strlit(",\"type\":\"rot\"}");
}

/// Where the parts of a record stand in its text.
proof fn lemma_record_layout(prefix: Seq<char>, key_text: Seq<char>, number: Seq<char>)
    ensures
        ({
            let text = record_of(prefix, key_text, number);
            let prefix_to: int = 8 + prefix.len() as int;
            let key_to: int = prefix_to + 20 + key_text.len();
            let number_to: int = key_to + 7 + number.len();
            &&& text.len() == number_to + 14
            &&& stands_at(text, record_head(), 0)
            &&& stands_at(text, record_key_label(), prefix_to)
            &&& stands_at(text, record_number_label(), key_to)
            &&& stands_at(text, record_tail(), number_to)
            &&& text.subrange(8, prefix_to) == prefix
            &&& text.subrange(prefix_to + 20, key_to) == key_text
            &&& text.subrange(key_to + 7, number_to) == number
            &&& text[prefix_to] == '"'
            &&& text[key_to] == '"'
            &&& text[number_to] == ','
        }),
{
    lemma_labels();
    reveal(record_of);
    let text = record_of(prefix, key_text, number);
    let prefix_to: int = 8 + prefix.len() as int;
    let key_to: int = prefix_to + 20 + key_text.len();
    let number_to: int = key_to + 7 + number.len();
    assert(text.subrange(8, prefix_to) =~= prefix);
    assert(text.subrange(prefix_to + 20, key_to) =~= key_text);
    assert(text.subrange(key_to + 7, number_to) =~= number);
}

/// A text in which the four labels stand around three fields is the record
/// of those fields.
proof fn lemma_record_assembled(text: Seq<char>, prefix_to: int, key_to: int, number_to: int)
    requires
        stands_at(text, record_head(), 0),
        8 <= prefix_to,
        stands_at(text, record_key_label(), prefix_to),
        prefix_to + 20 <= key_to,
        stands_at(text, record_number_label(), key_to),
        key_to + 7 <= number_to,
        stands_at(text, record_tail(), number_to),
        text.len() == number_to + 14,
    ensures
        text == record_of(
            text.subrange(8, prefix_to),
            text.subrange(prefix_to + 20, key_to),
            text.subrange(key_to + 7, number_to),
        ),
{
    lemma_labels();
    reveal(record_of);
    let assembled = record_of(
        text.subrange(8, prefix_to),
        text.subrange(prefix_to + 20, key_to),
        text.subrange(key_to + 7, number_to),
    );
    assert(assembled.len() == text.len());
    assert forall|i: int| 0 <= i < text.len() implies text[i] == assembled[i] by {
        if i < 8 {
            assert(text[0 + i] == record_head()[i]);
        } else if i < prefix_to {
        } else if i < prefix_to + 20 {
            assert(text[prefix_to + (i - prefix_to)] == record_key_label()[i - prefix_to]);
        } else if i < key_to {
        } else if i < key_to + 7 {
            assert(text[key_to + (i - key_to)] == record_number_label()[i - key_to]);
        } else if i < number_to {
        } else {
            assert(text[number_to + (i - number_to)] == record_tail()[i - number_to]);
        }
    }
    assert(text =~= assembled);
}

/// A record is made of ASCII characters.
proof fn lemma_record_is_ascii(prefix: Seq<char>, key_text: Seq<char>, number: Seq<char>)
    requires
        plain_text(prefix),
        plain_text(key_text),
        all_digits(number),
    ensures
        vstd::utf8::is_ascii_chars(record_of(prefix, key_text, number)),
{
    lemma_labels();
    lemma_record_layout(prefix, key_text, number);
    let text = record_of(prefix, key_text, number);
    let prefix_to: int = 8 + prefix.len() as int;
    let key_to: int = prefix_to + 20 + key_text.len();
    let number_to: int = key_to + 7 + number.len();
    assert forall|i: int| 0 <= i < text.len() implies '\0' <= #[trigger] text[i] <= '\u{7f}' by {
        if i < 8 {
            assert(text[0 + i] == record_head()[i]);
        } else if i < prefix_to {
            assert(text.subrange(8, prefix_to)[i - 8] == text[i]);
            assert(is_plain(prefix[i - 8]));
        } else if i < prefix_to + 20 {
            assert(text[prefix_to + (i - prefix_to)] == record_key_label()[i - prefix_to]);
        } else if i < key_to {
            assert(text.subrange(prefix_to + 20, key_to)[i - prefix_to - 20] == text[i]);
            assert(is_plain(key_text[i - prefix_to - 20]));
        } else if i < key_to + 7 {
            assert(text[key_to + (i - key_to)] == record_number_label()[i - key_to]);
        } else if i < number_to {
            assert(text.subrange(key_to + 7, number_to)[i - key_to - 7] == text[i]);
            assert(is_digit(number[i - key_to - 7]));
        } else {
            assert(text[number_to + (i - number_to)] == record_tail()[i - number_to]);
        }
    }
}

/// In a record, the run of plain characters after the head is the prefix.
proof fn lemma_prefix_found(text: Seq<char>, end: int, prefix: Seq<char>, key_text: Seq<char>, number: Seq<char>)
    requires
        text == record_of(prefix, key_text, number),
        plain_text(prefix),
        plain_run_ends(text, 8, end),
    ensures
        end == 8 + prefix.len() as int,
{
    lemma_record_layout(prefix, key_text, number);
    let prefix_to: int = 8 + prefix.len() as int;
    if end < prefix_to {
        assert(text.subrange(8, prefix_to)[end - 8] == text[end]);
        assert(is_plain(prefix[end - 8]));
    } else if end > prefix_to {
        assert(is_plain(text[prefix_to]));
    }
}

/// In a record, the run of plain characters after the key label is the text
/// of the key.
proof fn lemma_key_found(text: Seq<char>, end: int, prefix: Seq<char>, key_text: Seq<char>, number: Seq<char>)
    requires
        text == record_of(prefix, key_text, number),
        plain_text(key_text),
        plain_run_ends(text, 8 + prefix.len() as int + 20, end),
    ensures
        end == 8 + prefix.len() as int + 20 + key_text.len(),
{
    lemma_record_layout(prefix, key_text, number);
    let key_from: int = 8 + prefix.len() as int + 20;
    let key_to: int = key_from + key_text.len();
    if end < key_to {
        assert(text.subrange(key_from, key_to)[end - key_from] == text[end]);
        assert(is_plain(key_text[end - key_from]));
    } else if end > key_to {
        assert(is_plain(text[key_to]));
    }
}

/// In a record, the run of digits after the number label is the numeral.
proof fn lemma_number_found(text: Seq<char>, end: int, prefix: Seq<char>, key_text: Seq<char>, number: Seq<char>)
    requires
        text == record_of(prefix, key_text, number),
        all_digits(number),
        digit_run_ends(text, 8 + prefix.len() as int + 20 + key_text.len() + 7, end),
    ensures
        end == 8 + prefix.len() as int + 20 + key_text.len() + 7 + number.len(),
{
    lemma_record_layout(prefix, key_text, number);
    let number_from: int = 8 + prefix.len() as int + 20 + key_text.len() + 7;
    let number_to: int = number_from + number.len();
    if end < number_to {
        assert(text.subrange(number_from, number_to)[end - number_from] == text[end]);
        assert(is_digit(number[end - number_from]));
    } else if end > number_to {
        assert(is_digit(text[number_to]));
    }
}

/// Whether `literal` stands in `text` at `at`.
pub(crate) fn literal_at(text: &str, at: usize, literal: &str) -> (found: bool)
    requires
        is_ascii(text),
    ensures
        found == stands_at(text@, literal@, at as int),
{
    if !literal.is_ascii() {
        assert(!stands_at(text@, literal@, at as int)) by {
            if stands_at(text@, literal@, at as int) {
                assert forall|i: int| 0 <= i < literal@.len() implies '\0' <= #[trigger] literal@[i]
                    <= '\u{7f}' by {
                    assert(text@[at + i] == literal@[i]);
                }
            }
        }
        return false;
    }
    let length: usize = text.unicode_len();
    let width: usize = literal.unicode_len();
    if at > length || width > length - at {
        return false;
    }
    let mut offset: usize = 0;
    while offset < width
        invariant
            is_ascii(text),
            is_ascii(literal),
            length == text@.len(),
            width == literal@.len(),
            at + width <= length,
            offset <= width,
            forall|i: int| 0 <= i < offset ==> text@[at + i] == #[trigger] literal@[i],
        decreases width - offset,
    {
        let here = text.get_ascii(at + offset);
        let wanted = literal.get_ascii(offset);
        assert('\0' <= text@[at + offset] <= '\u{7f}');
        assert('\0' <= literal@[offset as int] <= '\u{7f}');
        if here != wanted {
            assert(text@[at + offset] != literal@[offset as int]);
            return false;
        }
        assert(text@[at + offset] == literal@[offset as int]);
        offset += 1;
    }
    true
}

/// Finds the end of the run of plain characters that starts at `from`.
pub(crate) fn plain_run(text: &str, from: usize) -> (end: usize)
    requires
        is_ascii(text),
        from <= text@.len(),
    ensures
        plain_run_ends(text@, from as int, end as int),
{
    let length: usize = text.unicode_len();
    let mut end: usize = from;
    while end < length
        invariant
            is_ascii(text),
            length == text@.len(),
            from <= end <= length,
            forall|i: int| from <= i < end ==> is_plain(#[trigger] text@[i]),
        decreases length - end,
    {
        let byte = text.get_ascii(end);
        assert('\0' <= text@[end as int] <= '\u{7f}');
        if byte < 0x20 || byte > 0x7e || byte == 0x22 || byte == 0x5c {
            assert(!is_plain(text@[end as int]));
            return end;
        }
        assert(is_plain(text@[end as int]));
        end += 1;
    }
    end
}

/// Finds the end of the run of decimal digits that starts at `from`.
fn digit_run(text: &str, from: usize) -> (end: usize)
    requires
        is_ascii(text),
        from <= text@.len(),
    ensures
        digit_run_ends(text@, from as int, end as int),
{
    let length: usize = text.unicode_len();
    let mut end: usize = from;
    while end < length
        invariant
            is_ascii(text),
            length == text@.len(),
            from <= end <= length,
            forall|i: int| from <= i < end ==> is_digit(#[trigger] text@[i]),
        decreases length - end,
    {
        let byte = text.get_ascii(end);
        assert('\0' <= text@[end as int] <= '\u{7f}');
        if byte < 0x30 || byte > 0x39 {
            assert(!is_digit(text@[end as int]));
            return end;
        }
        assert(is_digit(text@[end as int]));
        end += 1;
    }
    end
}

/// Reads the numeral that fills `text` from `from` to `to`.
fn read_number(text: &str, from: usize, to: usize) -> (read: Option<u64>)
    requires
        is_ascii(text),
        from <= to <= text@.len(),
        all_digits(text@.subrange(from as int, to as int)),
    ensures
        match read {
            Some(number) => decimal(number as nat) == text@.subrange(from as int, to as int),
            None => forall|number: u64| #[trigger]
                decimal(number as nat) != text@.subrange(from as int, to as int),
        },
{
    let ghost digits = text@.subrange(from as int, to as int);
    if from == to {
        assert forall|number: u64| #[trigger] decimal(number as nat) != digits by {
            lemma_decimal_is_numeral(number as nat);
        }
        return None;
    }
    assert(digits[0] == text@[from as int]);
    assert(is_digit(digits[0]));
    assert('\0' <= text@[from as int] <= '\u{7f}');
    if to - from > 1 && text.get_ascii(from) == 0x30 {
        assert(digits[0] == '0');
        assert forall|number: u64| #[trigger] decimal(number as nat) != digits by {
            lemma_decimal_is_numeral(number as nat);
        }
        return None;
    }
    let mut value: u64 = 0;
    let mut at: usize = from;
    assert(digits.subrange(0, 0) =~= Seq::<char>::empty());
    while at < to
        invariant
            is_ascii(text),
            from <= at <= to <= text@.len(),
            digits == text@.subrange(from as int, to as int),
            all_digits(digits),
            value == numeral_value(digits.subrange(0, at - from)),
        decreases to - at,
    {
        let byte = text.get_ascii(at);
        assert(digits[at - from] == text@[at as int]);
        assert(is_digit(digits[at - from]));
        assert('\0' <= text@[at as int] <= '\u{7f}');
        let digit: u64 = (byte - 0x30) as u64;
        assert(digit == digit_value(digits[at - from]));
        proof {
            let longer = digits.subrange(0, at - from + 1);
            assert(longer.drop_last() =~= digits.subrange(0, at - from));
            assert(longer.last() == digits[at - from]);
            assert(numeral_value(longer) == value * 10 + digit);
        }
        if value > (u64::MAX - digit) / 10 {
            proof {
                lemma_numeral_grows(digits, at - from + 1);
                assert(numeral_value(digits) > u64::MAX);
                assert forall|number: u64| #[trigger] decimal(number as nat) != digits by {
                    lemma_decimal_is_numeral(number as nat);
                }
            }
            return None;
        }
        value = value * 10 + digit;
        at += 1;
    }
    proof {
        assert(digits.subrange(0, to - from) =~= digits);
        if digits.len() > 1 {
            assert(digits[0] != '0');
        }
        assert(is_numeral(digits));
        lemma_numeral_is_decimal(digits);
    }
    Some(value)
}

/// What the text of a record tells of the places found while reading it, as
/// far as the reading has come: after step 1 the end of the prefix, after
/// step 2 the end of the key, after step 3 the end of the number.
proof fn lemma_reading_follows_record(
    text: Seq<char>,
    prefix_to: int,
    key_to: int,
    number_to: int,
    step: int,
    prefix: Seq<char>,
    key: Seq<u8>,
    sequence: u64,
)
    requires
        rotation_text(prefix, key, sequence) == Some(text),
        step >= 1 ==> plain_run_ends(text, 8, prefix_to),
        step >= 2 ==> plain_run_ends(text, prefix_to + 20, key_to),
        step >= 3 ==> digit_run_ends(text, key_to + 7, number_to),
    ensures
        vstd::utf8::is_ascii_chars(text),
        stands_at(text, record_head(), 0),
        step >= 1 ==> {
            &&& stands_at(text, record_key_label(), prefix_to)
            &&& text.subrange(8, prefix_to) == prefix
        },
        step >= 2 ==> {
            &&& stands_at(text, record_number_label(), key_to)
            &&& text.subrange(prefix_to + 20, key_to) == base64_text(key)
        },
        step >= 3 ==> {
            &&& stands_at(text, record_tail(), number_to)
            &&& text.len() == number_to + 14
            &&& text.subrange(key_to + 7, number_to) == decimal(sequence as nat)
        },
{
    let key_text = base64_text(key);
    let number = decimal(sequence as nat);
    lemma_decimal_is_numeral(sequence as nat);
    lemma_record_is_ascii(prefix, key_text, number);
    lemma_record_layout(prefix, key_text, number);
    if step >= 1 {
        lemma_prefix_found(text, prefix_to, prefix, key_text, number);
    }
    if step >= 2 {
        lemma_key_found(text, key_to, prefix, key_text, number);
    }
    if step >= 3 {
        lemma_number_found(text, number_to, prefix, key_text, number);
    }
}

/// The canonical text of a rotation belongs to one rotation only.
pub proof fn lemma_rotation_text_is_injective(
    prefix: Seq<char>,
    key: Seq<u8>,
    sequence: u64,
    other_prefix: Seq<char>,
    other_key: Seq<u8>,
    other_sequence: u64,
)
    requires
        rotation_text(prefix, key, sequence) is Some,
        rotation_text(prefix, key, sequence) == rotation_text(
            other_prefix,
            other_key,
            other_sequence,
        ),
    ensures
        prefix == other_prefix,
        key == other_key,
        sequence == other_sequence,
{
    let text = rotation_text(prefix, key, sequence)->Some_0;
    let key_text = base64_text(key);
    let number = decimal(sequence as nat);
    lemma_decimal_is_numeral(sequence as nat);
    lemma_decimal_is_numeral(other_sequence as nat);
    lemma_record_layout(prefix, key_text, number);
    let prefix_to: int = 8 + prefix.len() as int;
    let key_to: int = prefix_to + 20 + key_text.len();
    let number_to: int = key_to + 7 + number.len();
    assert(plain_run_ends(text, 8, prefix_to)) by {
        assert forall|i: int| 8 <= i < prefix_to implies is_plain(#[trigger] text[i]) by {
            assert(text.subrange(8, prefix_to)[i - 8] == text[i]);
            assert(is_plain(prefix[i - 8]));
        }
    }
    assert(plain_run_ends(text, prefix_to + 20, key_to)) by {
        assert forall|i: int| prefix_to + 20 <= i < key_to implies is_plain(#[trigger] text[i]) by {
            assert(text.subrange(prefix_to + 20, key_to)[i - prefix_to - 20] == text[i]);
            assert(is_plain(key_text[i - prefix_to - 20]));
        }
    }
    assert(digit_run_ends(text, key_to + 7, number_to)) by {
        assert forall|i: int| key_to + 7 <= i < number_to implies is_digit(#[trigger] text[i]) by {
            assert(text.subrange(key_to + 7, number_to)[i - key_to - 7] == text[i]);
            assert(is_digit(number[i - key_to - 7]));
        }
    }
    lemma_reading_follows_record(
        text,
        prefix_to,
        key_to,
        number_to,
        3,
        other_prefix,
        other_key,
        other_sequence,
    );
    assert(base64_text(key) == base64_text(other_key));
    assert(decimal(sequence as nat) == decimal(other_sequence as nat));
}

/// Reads the canonical text of a rotation record: the prefix, the key and
/// the sequence number of the one rotation that is written so, and `None`
/// for a text that no rotation is written as. So reading what
/// `write_rotation` wrote gives back what was written.
pub fn read_rotation(text: &str) -> (read: Option<(String, Vec<u8>, u64)>)
    ensures
        match read {
            Some((prefix, key, sequence)) => rotation_text(prefix@, key@, sequence) == Some(text@),
            None => true,
        },
        forall|prefix: Seq<char>, key: Seq<u8>, sequence: u64| #[trigger]
            rotation_text(prefix, key, sequence) == Some(text@) ==> (read matches Some(found)
                && found.0@ == prefix && found.1@ == key && found.2 == sequence),
{
    if !text.is_ascii() {
        assert forall|prefix: Seq<char>, key: Seq<u8>, sequence: u64| #[trigger]
            rotation_text(prefix, key, sequence) != Some(text@) by {
            if rotation_text(prefix, key, sequence) == Some(text@) {
                lemma_reading_follows_record(text@, 0, 0, 0, 0, prefix, key, sequence);
            }
        }
        return None;
    }
    proof {
        lemma_labels();
    }
    let length: usize = text.unicode_len();
    if !literal_at(text, 0, "{\"aid\":\"") {
        assert forall|prefix: Seq<char>, key: Seq<u8>, sequence: u64| #[trigger]
            rotation_text(prefix, key, sequence) != Some(text@) by {
            if rotation_text(prefix, key, sequence) == Some(text@) {
                lemma_reading_follows_record(text@, 0, 0, 0, 0, prefix, key, sequence);
            }
        }
        return None;
    }
    let prefix_from: usize = 8;
    let prefix_to: usize = plain_run(text, prefix_from);
    if !literal_at(text, prefix_to, "\",\"new_public_key\":\"") {
        assert forall|prefix: Seq<char>, key: Seq<u8>, sequence: u64| #[trigger]
            rotation_text(prefix, key, sequence) != Some(text@) by {
            if rotation_text(prefix, key, sequence) == Some(text@) {
                lemma_reading_follows_record(text@, prefix_to as int, 0, 0, 1, prefix, key, sequence);
            }
        }
        return None;
    }
    let key_from: usize = prefix_to + 20;
    let key_to: usize = plain_run(text, key_from);
    if !literal_at(text, key_to, "\",\"sn\":") {
        assert forall|prefix: Seq<char>, key: Seq<u8>, sequence: u64| #[trigger]
            rotation_text(prefix, key, sequence) != Some(text@) by {
            if rotation_text(prefix, key, sequence) == Some(text@) {
                lemma_reading_follows_record(
                    text@,
                    prefix_to as int,
                    key_to as int,
                    0,
                    2,
                    prefix,
                    key,
                    sequence,
                );
            }
        }
        return None;
    }
    let number_from: usize = key_to + 7;
    let number_to: usize = digit_run(text, number_from);
    let ghost found_prefix = text@.subrange(8, prefix_to as int);
    let ghost found_key = text@.subrange(key_from as int, key_to as int);
    let ghost found_number = text@.subrange(number_from as int, number_to as int);
    let ghost last_step = |prefix: Seq<char>, key: Seq<u8>, sequence: u64|
        {
            &&& found_prefix == prefix
            &&& found_key == base64_text(key)
            &&& found_number == decimal(sequence as nat)
            &&& stands_at(text@, record_tail(), number_to as int)
            &&& text@.len() == number_to + 14
            &&& key_can_be_written(key)
        };
    assert forall|prefix: Seq<char>, key: Seq<u8>, sequence: u64| #[trigger]
        rotation_text(prefix, key, sequence) == Some(text@) implies last_step(
        prefix,
        key,
        sequence,
    ) by {
        lemma_reading_follows_record(
            text@,
            prefix_to as int,
            key_to as int,
            number_to as int,
            3,
            prefix,
            key,
            sequence,
        );
    }
    if !literal_at(text, number_to, ",\"type\":\"rot\"}") || length - number_to != 14 {
        return None;
    }
    let key_text = text.substring_ascii(key_from, key_to);
    let key = match decode_base64(key_text) {
        Ok(key) => key,
        Err(_) => {
            return None;
        },
    };
    let written_again = encode_base64(key.as_slice());
    if written_again != key_text.to_owned() {
        return None;
    }
    assert(all_digits(found_number)) by {
        assert forall|i: int| 0 <= i < found_number.len() implies is_digit(
            #[trigger] found_number[i],
        ) by {
            assert(found_number[i] == text@[number_from + i]);
        }
    }
    let sequence = match read_number(text, number_from, number_to) {
        Some(sequence) => sequence,
        None => {
            return None;
        },
    };
    let prefix = text.substring_ascii(prefix_from, prefix_to).to_owned();
    proof {
        lemma_record_assembled(text@, prefix_to as int, key_to as int, number_to as int);
        assert(plain_text(found_prefix)) by {
            assert forall|i: int| 0 <= i < found_prefix.len() implies is_plain(
                #[trigger] found_prefix[i],
            ) by {
                assert(found_prefix[i] == text@[8 + i]);
            }
        }
        assert(plain_text(found_key)) by {
            assert forall|i: int| 0 <= i < found_key.len() implies is_plain(
                #[trigger] found_key[i],
            ) by {
                assert(found_key[i] == text@[key_from + i]);
            }
        }
        assert(key_can_be_written(key@));
        assert forall|other_prefix: Seq<char>, other_key: Seq<u8>, other_sequence: u64| #[trigger]
            rotation_text(other_prefix, other_key, other_sequence) == Some(
                text@,
            ) implies other_prefix == prefix@ && other_key == key@ && other_sequence
            == sequence by {
            lemma_rotation_text_is_injective(
                prefix@,
                key@,
                sequence,
                other_prefix,
                other_key,
                other_sequence,
            );
        }
    }
    Some((prefix, key, sequence))
}

} // verus!
