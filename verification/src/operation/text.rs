use vstd::prelude::*;

use crate::bytes::{append_bytes, copy_range};
use crate::catalog::{declared_safety, registered_safety, OperationSafety};
use crate::operation::{
    CommandCode, DeviceReply, Operation, OperationError, PayloadWriter, ReplyView,
};
use crate::strings::{chars_of, lemma_char_range, lemma_trim_padding, text_from, trimmed_end};

verus! {

/// Three-byte date in device format.
#[derive(Debug, Clone, Copy, PartialEq, Eq, Structural)]
pub struct DeviceDate {
    /// Day of the month.
    pub day: u8,
    /// Month.
    pub month: u8,
    /// Year relative to 1900.
    pub year_since_1900: u8,
}

impl DeviceDate {
    /// A day and a month in range, or the all-zero unspecified date.
    pub open spec fn valid(self) -> bool {
        ||| self.day == 0 && self.month == 0 && self.year_since_1900 == 0
        ||| 1 <= self.day <= 31 && 1 <= self.month <= 12
    }

    /// Creates a validated device date.
    pub fn new(day: u8, month: u8, year_since_1900: u8) -> (result: Result<Self, OperationError>)
        ensures
            ({
                let date = DeviceDate { day, month, year_since_1900 };
                result == if date.valid() {
                    Ok(date)
                } else {
                    Err(OperationError::InvalidValue("device date"))
                }
            }),
    {
        let date = DeviceDate { day, month, year_since_1900 };
        validate_date(date)?;
        Ok(date)
    }

    /// Returns the all-zero unspecified date representation.
    pub fn unspecified() -> (date: Self)
        ensures
            date == (DeviceDate { day: 0, month: 0, year_since_1900: 0 }),
    {
        DeviceDate { day: 0, month: 0, year_since_1900: 0 }
    }
}

fn validate_date(date: DeviceDate) -> (result: Result<(), OperationError>)
    ensures
        result == if date.valid() {
            Ok(())
        } else {
            Err(OperationError::InvalidValue("device date"))
        },
{
    if date.day == 0 && date.month == 0 && date.year_since_1900 == 0 {
        return Ok(());
    }
    if date.day < 1 || date.day > 31 || date.month < 1 || date.month > 12 {
        return Err(OperationError::InvalidValue("device date"));
    }
    Ok(())
}

/// Tag, descriptor, and date used by Command 13 or 18.
#[derive(Debug, PartialEq, Eq)]
pub struct TagDescriptorDate {
    /// Short tag of up to eight characters.
    pub tag: String,
    /// Descriptor of up to sixteen characters.
    pub descriptor: String,
    /// Device date.
    pub date: DeviceDate,
}

impl Clone for TagDescriptorDate {
    fn clone(&self) -> (copy: Self)
        ensures
            copy.tag@ == self.tag@,
            copy.descriptor@ == self.descriptor@,
            copy.date == self.date,
    {
        TagDescriptorDate {
            tag: self.tag.clone(),
            descriptor: self.descriptor.clone(),
            date: self.date,
        }
    }
}

impl TagDescriptorDate {
    /// Creates text fields that will be validated when a write operation is constructed.
    pub fn new(tag: String, descriptor: String, date: DeviceDate) -> (value: Self)
        ensures
            value == (TagDescriptorDate { tag, descriptor, date }),
    {
        TagDescriptorDate { tag, descriptor, date }
    }
}

/// A character that six bits can carry.
pub open spec fn packable(character: char) -> bool {
    0x20 <= character as u32 <= 0x5f
}

/// The six-bit code of a character.
pub open spec fn sextet(character: char) -> u8 {
    (character as u32 % 64) as u8
}

/// The character of a six-bit code.
pub open spec fn sextet_char(code: u8) -> char {
    if code < 32 {
        (code + 64) as char
    } else {
        code as char
    }
}

/// Four six-bit codes in every three bytes.
pub open spec fn packed(codes: Seq<u8>) -> Seq<u8> {
    Seq::new(
        codes.len() / 4 * 3,
        |i: int|
            {
                let group = i / 3 * 4;
                if i % 3 == 0 {
                    (codes[group] * 4 + codes[group + 1] / 16) as u8
                } else if i % 3 == 1 {
                    ((codes[group + 1] % 16) * 16 + codes[group + 2] / 4) as u8
                } else {
                    ((codes[group + 2] % 4) * 64 + codes[group + 3]) as u8
                }
            },
    )
}

/// The six-bit codes that every three bytes hold; an incomplete group holds none.
pub open spec fn unpacked(bytes: Seq<u8>) -> Seq<u8> {
    Seq::new(
        bytes.len() / 3 * 4,
        |i: int|
            {
                let group = i / 4 * 3;
                if i % 4 == 0 {
                    (bytes[group] / 4) as u8
                } else if i % 4 == 1 {
                    ((bytes[group] % 4) * 16 + bytes[group + 1] / 16) as u8
                } else if i % 4 == 2 {
                    ((bytes[group + 1] % 16) * 4 + bytes[group + 2] / 64) as u8
                } else {
                    (bytes[group + 2] % 64) as u8
                }
            },
    )
}

/// The codes of a text, filled up with spaces.
pub open spec fn padded_codes(text: Seq<char>, capacity: nat) -> Seq<u8> {
    Seq::new(
        capacity,
        |i: int|
            if i < text.len() {
                sextet(text[i])
            } else {
                0x20
            },
    )
}

/// The packed form of a text, or what keeps it from being packed.
pub open spec fn packed_text(text: Seq<char>, output_bytes: nat) -> Result<
    Seq<u8>,
    OperationError,
> {
    if output_bytes > 255 || output_bytes % 3 != 0 {
        Err(OperationError::InvalidValue("packed-text length"))
    } else if text.len() > output_bytes / 3 * 4 || exists|i: int|
        0 <= i < text.len() && !packable(#[trigger] text[i]) {
        Err(OperationError::InvalidValue("packed-text character"))
    } else {
        Ok(packed(padded_codes(text, output_bytes / 3 * 4)))
    }
}

/// The text of packed bytes, without trailing spaces.
pub open spec fn unpacked_text(bytes: Seq<u8>) -> Seq<char> {
    trimmed_end(unpacked(bytes).map_values(|code: u8| sextet_char(code)), set![' '])
}

/// Packs characters in `0x20..=0x5F`, four characters into three bytes.
pub fn pack_text(text: &str, output_bytes: usize) -> (result: Result<Vec<u8>, OperationError>)
    ensures
        match packed_text(text@, output_bytes as nat) {
            Ok(expected) => result matches Ok(bytes) && bytes@ == expected && bytes@.len()
                == output_bytes,
            Err(error) => result == Err::<Vec<u8>, OperationError>(error),
        },
{
    if output_bytes > 255 || output_bytes % 3 != 0 {
        return Err(OperationError::InvalidValue("packed-text length"));
    }
    let capacity: usize = output_bytes / 3 * 4;
    let characters = chars_of(text);
    let mut codes: Vec<u8> = Vec::new();
    let mut index: usize = 0;
    while index < characters.len()
        invariant
            index <= characters@.len(),
            characters@ == text@,
            codes@.len() == index,
            index <= capacity,
            output_bytes <= 255,
            output_bytes % 3 == 0,
            capacity == output_bytes / 3 * 4,
            forall|i: int| 0 <= i < index ==> packable(#[trigger] text@[i]),
            forall|i: int| 0 <= i < index ==> codes@[i] == sextet(text@[i]),
        decreases characters@.len() - index,
    {
        let code: u32 = characters[index] as u32;
        if code < 0x20 || code > 0x5f || codes.len() == capacity {
            assert(!packable(text@[index as int]) || text@.len() > capacity);
            return Err(OperationError::InvalidValue("packed-text character"));
        }
        codes.push((code % 64) as u8);
        index += 1;
    }
    codes.resize(capacity, 0x20);
    assert(codes@ =~= padded_codes(text@, capacity as nat)) by {
        assert forall|i: int| 0 <= i < capacity implies codes@[i] == padded_codes(
            text@,
            capacity as nat,
        )[i] by {
            if i < text@.len() {
                assert(codes@.subrange(0, text@.len() as int)[i] == codes@[i]);
            }
        }
    }
    let mut output: Vec<u8> = Vec::new();
    let mut group: usize = 0;
    while group < capacity
        invariant
            group <= capacity,
            group % 4 == 0,
            capacity % 4 == 0,
            capacity <= 340,
            codes@.len() == capacity,
            forall|i: int| 0 <= i < capacity ==> codes@[i] < 64,
            output@.len() == group / 4 * 3,
            output@ == packed(codes@).take(output@.len() as int),
        decreases capacity - group,
    {
        let ghost before = output@;
        output.push(codes[group] * 4 + codes[group + 1] / 16);
        output.push((codes[group + 1] % 16) * 16 + codes[group + 2] / 4);
        output.push((codes[group + 2] % 4) * 64 + codes[group + 3]);
        group += 4;
        assert(output@ =~= packed(codes@).take(output@.len() as int));
    }
    assert(output@ =~= packed(codes@));
    Ok(output)
}

/// Unpacks six-bit text and removes trailing spaces.
pub fn unpack_text(bytes: &[u8]) -> (text: String)
    ensures
        text@ == unpacked_text(bytes@),
{
    let length: usize = bytes.len();
    let groups: usize = length / 3;
    let mut characters: Vec<char> = Vec::new();
    let mut group: usize = 0;
    let ghost whole = unpacked(bytes@).map_values(|code: u8| sextet_char(code));
    while group < groups
        invariant
            group <= groups,
            groups == bytes@.len() / 3,
            groups * 3 <= bytes@.len() <= usize::MAX,
            whole == unpacked(bytes@).map_values(|code: u8| sextet_char(code)),
            characters@.len() == group * 4,
            characters@ == whole.take(group * 4),
        decreases groups - group,
    {
        let first: u8 = bytes[group * 3];
        let second: u8 = bytes[group * 3 + 1];
        let third: u8 = bytes[group * 3 + 2];
        characters.push(character_of(first / 4));
        characters.push(character_of((first % 4) * 16 + second / 16));
        characters.push(character_of((second % 16) * 4 + third / 64));
        characters.push(character_of(third % 64));
        group += 1;
        assert(characters@ =~= whole.take(group * 4));
    }
    assert(characters@ =~= whole);
    let length = trimmed_length(&characters, false);
    text_from(&characters, length)
}

pub(crate) fn character_of(code: u8) -> (character: char)
    requires
        code < 64,
    ensures
        character == sextet_char(code),
{
    if code < 32 {
        (code + 64) as char
    } else {
        code as char
    }
}

/// Length of a text without trailing spaces, and without trailing zeros where asked.
pub(crate) fn trimmed_length(characters: &Vec<char>, zeros: bool) -> (length: usize)
    ensures
        length <= characters@.len(),
        characters@.take(length as int) == trimmed_end(
            characters@,
            if zeros {
                set!['\0', ' ']
            } else {
                set![' ']
            },
        ),
{
    let mut length: usize = characters.len();
    let ghost unwanted: Set<char> = if zeros {
        set!['\0', ' ']
    } else {
        set![' ']
    };
    assert(characters@.take(length as int) =~= characters@);
    while length > 0 && (characters[length - 1] == ' ' || (zeros && characters[length - 1]
        == '\0'))
        invariant
            length <= characters@.len(),
            unwanted == (if zeros {
                set!['\0', ' ']
            } else {
                set![' ']
            }),
            trimmed_end(characters@.take(length as int), unwanted) == trimmed_end(
                characters@,
                unwanted,
            ),
        decreases length,
    {
        assert(characters@.take(length as int).drop_last() =~= characters@.take(length - 1));
        length -= 1;
    }
    length
}

proof fn lemma_group_round_trip(first: u8, second: u8, third: u8, fourth: u8)
    requires
        first < 64,
        second < 64,
        third < 64,
        fourth < 64,
    ensures
        ({
            let high = (first * 4 + second / 16) as u8;
            let middle = ((second % 16) * 16 + third / 4) as u8;
            let low = ((third % 4) * 64 + fourth) as u8;
            &&& high / 4 == first
            &&& (high % 4) * 16 + middle / 16 == second
            &&& (middle % 16) * 4 + low / 64 == third
            &&& low % 64 == fourth
        }),
{
}

proof fn lemma_sextet_round_trip(character: char)
    requires
        packable(character),
    ensures
        sextet(character) < 64,
        sextet_char(sextet(character)) == character,
{
    lemma_char_range(character);
}

#[verifier::spinoff_prover]
#[verifier::rlimit(50)]
proof fn lemma_unpack_packed(codes: Seq<u8>)
    requires
        codes.len() % 4 == 0,
        forall|i: int| 0 <= i < codes.len() ==> codes[i] < 64,
    ensures
        unpacked(packed(codes)) == codes,
{
    let bytes = packed(codes);
    assert forall|i: int| 0 <= i < codes.len() implies unpacked(bytes)[i] == codes[i] by {
        let quarter = i / 4;
        let group = quarter * 4;
        let low = quarter * 3;
        assert(group + 3 < codes.len());
        assert(low / 3 == quarter && low % 3 == 0);
        assert((low + 1) / 3 == quarter && (low + 1) % 3 == 1);
        assert((low + 2) / 3 == quarter && (low + 2) % 3 == 2);
        assert(bytes[low] == (codes[group] * 4 + codes[group + 1] / 16) as u8);
        assert(bytes[low + 1] == ((codes[group + 1] % 16) * 16 + codes[group + 2] / 4) as u8);
        assert(bytes[low + 2] == ((codes[group + 2] % 4) * 64 + codes[group + 3]) as u8);
        lemma_group_round_trip(
            codes[group],
            codes[group + 1],
            codes[group + 2],
            codes[group + 3],
        );
        assert(i == group || i == group + 1 || i == group + 2 || i == group + 3);
    }
    assert(unpacked(bytes) =~= codes);
}

/// Unpacking undoes packing: every packable text comes back without the
/// trailing spaces that padding adds.
pub proof fn lemma_packed_text_round_trip(text: Seq<char>, output_bytes: nat)
    requires
        packed_text(text, output_bytes) is Ok,
    ensures
        unpacked_text(packed_text(text, output_bytes)->Ok_0) == trimmed_end(text, set![' ']),
{
    let capacity = output_bytes / 3 * 4;
    let codes = padded_codes(text, capacity);
    assert forall|i: int| 0 <= i < text.len() implies packable(#[trigger] text[i]) by {}
    assert forall|i: int| 0 <= i < capacity implies codes[i] < 64 by {
        if i < text.len() {
            lemma_sextet_round_trip(text[i]);
        }
    }
    assert(codes.len() % 4 == 0);
    lemma_unpack_packed(codes);
    let padding = Seq::new((capacity - text.len()) as nat, |i: int| ' ');
    let decoded = codes.map_values(|code: u8| sextet_char(code));
    assert forall|i: int| 0 <= i < capacity implies decoded[i] == (text + padding)[i] by {
        if i < text.len() {
            lemma_sextet_round_trip(text[i]);
        }
    }
    assert(decoded =~= text + padding);
    lemma_trim_padding(text, padding, set![' ']);
}

/// The Latin-1 bytes of a text filled up with spaces, or what keeps it from fitting.
pub open spec fn latin1(text: Seq<char>, length: nat) -> Result<Seq<u8>, OperationError> {
    if text.len() > length || exists|i: int|
        0 <= i < text.len() && (#[trigger] text[i]) as u32 > 0xff {
        Err(OperationError::InvalidValue("Latin-1 string"))
    } else {
        Ok(
            Seq::new(
                length,
                |i: int|
                    if i < text.len() {
                        (text[i] as u32) as u8
                    } else {
                        0x20
                    },
            ),
        )
    }
}

/// The text of Latin-1 bytes without trailing spaces and zeros.
pub open spec fn latin1_text(bytes: Seq<u8>) -> Seq<char> {
    trimmed_end(bytes.map_values(|byte: u8| byte as char), set!['\0', ' '])
}

/// Encodes a text in Latin-1 and fills it up with spaces.
pub(crate) fn encode_latin1(value: &str, length: usize) -> (result: Result<
    Vec<u8>,
    OperationError,
>)
    ensures
        match latin1(value@, length as nat) {
            Ok(expected) => result matches Ok(bytes) && bytes@ == expected,
            Err(error) => result == Err::<Vec<u8>, OperationError>(error),
        },
{
    let characters = chars_of(value);
    let mut output: Vec<u8> = Vec::new();
    let mut index: usize = 0;
    while index < characters.len()
        invariant
            index <= characters@.len(),
            characters@ == value@,
            output@.len() == index,
            index <= length,
            forall|i: int| 0 <= i < index ==> (#[trigger] value@[i]) as u32 <= 0xff,
            forall|i: int| 0 <= i < index ==> output@[i] == (value@[i] as u32) as u8,
        decreases characters@.len() - index,
    {
        let code: u32 = characters[index] as u32;
        if output.len() == length || code > 0xff {
            assert(value@[index as int] as u32 > 0xff || value@.len() > length);
            return Err(OperationError::InvalidValue("Latin-1 string"));
        }
        output.push(code as u8);
        index += 1;
    }
    output.resize(length, 0x20);
    assert(latin1(value@, length as nat) is Ok);
    let ghost expected = latin1(value@, length as nat)->Ok_0;
    assert(output@ =~= expected) by {
        assert forall|i: int| 0 <= i < length implies output@[i] == expected[i] by {
            if i < value@.len() {
                assert(output@.subrange(0, value@.len() as int)[i] == output@[i]);
            }
        }
    }
    Ok(output)
}

/// The text of Latin-1 bytes without trailing spaces and zeros.
pub(crate) fn latin1_string(data: &[u8]) -> (text: String)
    ensures
        text@ == latin1_text(data@),
{
    let length: usize = data.len();
    let mut characters: Vec<char> = Vec::new();
    let mut index: usize = 0;
    let ghost whole = data@.map_values(|byte: u8| byte as char);
    while index < length
        invariant
            index <= length,
            length == data@.len(),
            whole == data@.map_values(|byte: u8| byte as char),
            characters@ == whole.take(index as int),
        decreases length - index,
    {
        characters.push(data[index] as char);
        index += 1;
        assert(characters@ =~= whole.take(index as int));
    }
    assert(characters@ =~= whole);
    let kept = trimmed_length(&characters, true);
    text_from(&characters, kept)
}

fn decode_latin1(data: &[u8], length: usize) -> (result: Result<String, OperationError>)
    ensures
        if data@.len() != length {
            result == Err::<String, OperationError>(
                OperationError::InvalidValue("Latin-1 string length"),
            )
        } else {
            result matches Ok(text) && text@ == latin1_text(data@)
        },
{
    if data.len() != length {
        return Err(OperationError::InvalidValue("Latin-1 string length"));
    }
    Ok(latin1_string(data))
}

/// Decoding undoes encoding in Latin-1, up to trailing spaces and zeros.
pub proof fn lemma_latin1_round_trip(text: Seq<char>, length: nat)
    requires
        latin1(text, length) is Ok,
    ensures
        latin1_text(latin1(text, length)->Ok_0) == trimmed_end(text, set!['\0', ' ']),
{
    let bytes = latin1(text, length)->Ok_0;
    let padding = Seq::new((length - text.len()) as nat, |i: int| ' ');
    let decoded = bytes.map_values(|byte: u8| byte as char);
    assert forall|i: int| 0 <= i < decoded.len() implies decoded[i] == (text + padding)[i] by {
        if i < text.len() {
            assert(text[i] as u32 <= 0xff);
            lemma_char_range(text[i]);
        }
    }
    assert(decoded =~= text + padding);
    lemma_trim_padding(text, padding, set!['\0', ' ']);
}

/// What the 32-character message of a reply decodes to.
pub open spec fn message_of(
    command: CommandCode,
    reply: ReplyView,
    result: Result<String, OperationError>,
) -> bool {
    match reply.status_error(command) {
        Some(error) => result == Err::<String, OperationError>(error),
        None => if reply.data.len() != 24 {
            result == Err::<String, OperationError>(OperationError::InvalidValue("message length"))
        } else {
            result matches Ok(text) && text@ == unpacked_text(reply.data)
        },
    }
}

fn decode_message(command: CommandCode, reply: &DeviceReply) -> (result: Result<
    String,
    OperationError,
>)
    ensures
        message_of(command, reply@, result),
{
    reply.require_success(command)?;
    if reply.data.len() != 24 {
        return Err(OperationError::InvalidValue("message length"));
    }
    Ok(unpack_text(&reply.data))
}

/// What the long tag of a reply decodes to.
pub open spec fn long_tag_of(
    command: CommandCode,
    reply: ReplyView,
    result: Result<String, OperationError>,
) -> bool {
    match reply.status_error(command) {
        Some(error) => result == Err::<String, OperationError>(error),
        None => if reply.data.len() != 32 {
            result == Err::<String, OperationError>(
                OperationError::InvalidValue("Latin-1 string length"),
            )
        } else {
            result matches Ok(text) && text@ == latin1_text(reply.data)
        },
    }
}

fn decode_long_tag(command: CommandCode, reply: &DeviceReply) -> (result: Result<
    String,
    OperationError,
>)
    ensures
        long_tag_of(command, reply@, result),
{
    reply.require_success(command)?;
    decode_latin1(&reply.data, 32)
}

/// What the tag, descriptor and date of a reply decode to.
pub open spec fn tag_of(
    command: CommandCode,
    reply: ReplyView,
    result: Result<TagDescriptorDate, OperationError>,
) -> bool {
    match reply.status_error(command) {
        Some(error) => result == Err::<TagDescriptorDate, OperationError>(error),
        None => {
            let date = DeviceDate {
                day: reply.data[18],
                month: reply.data[19],
                year_since_1900: reply.data[20],
            };
            if reply.data.len() != 21 {
                result == Err::<TagDescriptorDate, OperationError>(
                    OperationError::InvalidValue("tag, descriptor, and date length"),
                )
            } else if !date.valid() {
                result == Err::<TagDescriptorDate, OperationError>(
                    OperationError::InvalidValue("device date"),
                )
            } else {
                result matches Ok(value) && value.tag@ == unpacked_text(reply.data.subrange(0, 6))
                    && value.descriptor@ == unpacked_text(reply.data.subrange(6, 18)) && value.date
                    == date
            }
        },
    }
}

fn decode_tag_descriptor_date(command: CommandCode, reply: &DeviceReply) -> (result: Result<
    TagDescriptorDate,
    OperationError,
>)
    ensures
        tag_of(command, reply@, result),
{
    reply.require_success(command)?;
    if reply.data.len() != 21 {
        return Err(OperationError::InvalidValue("tag, descriptor, and date length"));
    }
    let date = DeviceDate {
        day: reply.data[18],
        month: reply.data[19],
        year_since_1900: reply.data[20],
    };
    validate_date(date)?;
    Ok(
        TagDescriptorDate {
            tag: unpack_text(&copy_range(&reply.data, 0, 6)),
            descriptor: unpack_text(&copy_range(&reply.data, 6, 18)),
            date,
        },
    )
}

/// Reads the 32-character message with Command 12.
#[derive(Debug, Clone, Copy, Default)]
pub struct ReadMessage;

/// Writes the 32-character message with Command 17.
#[derive(Debug, Clone, PartialEq, Eq)]
pub struct WriteMessage {
    packed: Vec<u8>,
}

impl WriteMessage {
    /// Validates the character set and creates the operation.
    pub fn new(message: &str) -> (result: Result<Self, OperationError>)
        ensures
            match packed_text(message@, 24) {
                Ok(bytes) => result matches Ok(operation) && operation.payload() == Ok::<
                    Seq<u8>,
                    OperationError,
                >(bytes),
                Err(error) => result == Err::<Self, OperationError>(error),
            },
    {
        let packed = pack_text(message, 24)?;
        Ok(WriteMessage { packed })
    }
}

/// Reads the short tag, descriptor, and date with Command 13.
#[derive(Debug, Clone, Copy, Default)]
pub struct ReadTagDescriptorDate;

/// Writes the short tag, descriptor, and date with Command 18.
#[derive(Debug, Clone, PartialEq, Eq)]
pub struct WriteTagDescriptorDate {
    data: Vec<u8>,
}

/// The request data of Command 18, or what keeps it from being written.
pub open spec fn tag_bytes(value: TagDescriptorDate) -> Result<Seq<u8>, OperationError> {
    if !value.date.valid() {
        Err(OperationError::InvalidValue("device date"))
    } else {
        match (packed_text(value.tag@, 6), packed_text(value.descriptor@, 12)) {
            (Ok(tag), Ok(descriptor)) => Ok(
                tag + descriptor + seq![
                    value.date.day,
                    value.date.month,
                    value.date.year_since_1900,
                ],
            ),
            (Err(error), _) => Err(error),
            (_, Err(error)) => Err(error),
        }
    }
}

impl WriteTagDescriptorDate {
    /// Validates the fields and creates the operation.
    pub fn new(value: &TagDescriptorDate) -> (result: Result<Self, OperationError>)
        ensures
            match tag_bytes(*value) {
                Ok(bytes) => result matches Ok(operation) && operation.payload() == Ok::<
                    Seq<u8>,
                    OperationError,
                >(bytes),
                Err(error) => result == Err::<Self, OperationError>(error),
            },
    {
        validate_date(value.date)?;
        let mut data = pack_text(&value.tag, 6)?;
        let descriptor = pack_text(&value.descriptor, 12)?;
        append_bytes(&mut data, &descriptor);
        data.push(value.date.day);
        data.push(value.date.month);
        data.push(value.date.year_since_1900);
        assert(data@ =~= tag_bytes(*value)->Ok_0);
        Ok(WriteTagDescriptorDate { data })
    }
}

/// Reads the long tag with Command 20.
#[derive(Debug, Clone, Copy, Default)]
pub struct ReadLongTag;

/// Writes the long tag with Command 22.
#[derive(Debug, Clone, PartialEq, Eq)]
pub struct WriteLongTag {
    data: Vec<u8>,
}

impl WriteLongTag {
    /// Encodes up to 32 Latin-1 characters and pads them with spaces.
    pub fn new(tag: &str) -> (result: Result<Self, OperationError>)
        ensures
            match latin1(tag@, 32) {
                Ok(bytes) => result matches Ok(operation) && operation.payload() == Ok::<
                    Seq<u8>,
                    OperationError,
                >(bytes),
                Err(error) => result == Err::<Self, OperationError>(error),
            },
    {
        let data = encode_latin1(tag, 32)?;
        Ok(WriteLongTag { data })
    }
}

impl Operation for ReadMessage {
    type Output = String;

    open spec fn code(&self) -> CommandCode {
        CommandCode(12)
    }

    open spec fn safety(&self) -> OperationSafety {
        declared_safety(self.code().0)
    }

    open spec fn payload(&self) -> Result<Seq<u8>, OperationError> {
        Ok(seq![])
    }

    open spec fn decodes(
        &self,
        reply: ReplyView,
        result: Result<String, OperationError>,
    ) -> bool {
        message_of(self.code(), reply, result)
    }

    fn command(&self) -> CommandCode {
        CommandCode(12)
    }

    fn retry_safety(&self) -> OperationSafety {
        registered_safety(self.command())
    }

    fn encode_request(&self, _writer: &mut PayloadWriter) -> Result<(), OperationError> {
        assert(_writer@ =~= old(_writer)@ + Seq::<u8>::empty());
        Ok(())
    }

    fn decode_reply(&self, reply: &DeviceReply) -> Result<String, OperationError> {
        decode_message(self.command(), reply)
    }
}

impl Operation for WriteMessage {
    type Output = String;

    open spec fn code(&self) -> CommandCode {
        CommandCode(17)
    }

    open spec fn safety(&self) -> OperationSafety {
        declared_safety(self.code().0)
    }

    closed spec fn payload(&self) -> Result<Seq<u8>, OperationError> {
        Ok(self.packed@)
    }

    open spec fn decodes(
        &self,
        reply: ReplyView,
        result: Result<String, OperationError>,
    ) -> bool {
        message_of(self.code(), reply, result)
    }

    fn command(&self) -> CommandCode {
        CommandCode(17)
    }

    fn retry_safety(&self) -> OperationSafety {
        registered_safety(self.command())
    }

    fn encode_request(&self, writer: &mut PayloadWriter) -> Result<(), OperationError> {
        writer.bytes(&self.packed);
        Ok(())
    }

    fn decode_reply(&self, reply: &DeviceReply) -> Result<String, OperationError> {
        decode_message(self.command(), reply)
    }
}

impl Operation for ReadTagDescriptorDate {
    type Output = TagDescriptorDate;

    open spec fn code(&self) -> CommandCode {
        CommandCode(13)
    }

    open spec fn safety(&self) -> OperationSafety {
        declared_safety(self.code().0)
    }

    open spec fn payload(&self) -> Result<Seq<u8>, OperationError> {
        Ok(seq![])
    }

    open spec fn decodes(
        &self,
        reply: ReplyView,
        result: Result<TagDescriptorDate, OperationError>,
    ) -> bool {
        tag_of(self.code(), reply, result)
    }

    fn command(&self) -> CommandCode {
        CommandCode(13)
    }

    fn retry_safety(&self) -> OperationSafety {
        registered_safety(self.command())
    }

    fn encode_request(&self, _writer: &mut PayloadWriter) -> Result<(), OperationError> {
        assert(_writer@ =~= old(_writer)@ + Seq::<u8>::empty());
        Ok(())
    }

    fn decode_reply(&self, reply: &DeviceReply) -> Result<TagDescriptorDate, OperationError> {
        decode_tag_descriptor_date(self.command(), reply)
    }
}

impl Operation for WriteTagDescriptorDate {
    type Output = TagDescriptorDate;

    open spec fn code(&self) -> CommandCode {
        CommandCode(18)
    }

    open spec fn safety(&self) -> OperationSafety {
        declared_safety(self.code().0)
    }

    closed spec fn payload(&self) -> Result<Seq<u8>, OperationError> {
        Ok(self.data@)
    }

    open spec fn decodes(
        &self,
        reply: ReplyView,
        result: Result<TagDescriptorDate, OperationError>,
    ) -> bool {
        tag_of(self.code(), reply, result)
    }

    fn command(&self) -> CommandCode {
        CommandCode(18)
    }

    fn retry_safety(&self) -> OperationSafety {
        registered_safety(self.command())
    }

    fn encode_request(&self, writer: &mut PayloadWriter) -> Result<(), OperationError> {
        writer.bytes(&self.data);
        Ok(())
    }

    fn decode_reply(&self, reply: &DeviceReply) -> Result<TagDescriptorDate, OperationError> {
        decode_tag_descriptor_date(self.command(), reply)
    }
}

impl Operation for ReadLongTag {
    type Output = String;

    open spec fn code(&self) -> CommandCode {
        CommandCode(20)
    }

    open spec fn safety(&self) -> OperationSafety {
        declared_safety(self.code().0)
    }

    open spec fn payload(&self) -> Result<Seq<u8>, OperationError> {
        Ok(seq![])
    }

    open spec fn decodes(
        &self,
        reply: ReplyView,
        result: Result<String, OperationError>,
    ) -> bool {
        long_tag_of(self.code(), reply, result)
    }

    fn command(&self) -> CommandCode {
        CommandCode(20)
    }

    fn retry_safety(&self) -> OperationSafety {
        registered_safety(self.command())
    }

    fn encode_request(&self, _writer: &mut PayloadWriter) -> Result<(), OperationError> {
        assert(_writer@ =~= old(_writer)@ + Seq::<u8>::empty());
        Ok(())
    }

    fn decode_reply(&self, reply: &DeviceReply) -> Result<String, OperationError> {
        decode_long_tag(self.command(), reply)
    }
}

impl Operation for WriteLongTag {
    type Output = String;

    open spec fn code(&self) -> CommandCode {
        CommandCode(22)
    }

    open spec fn safety(&self) -> OperationSafety {
        declared_safety(self.code().0)
    }

    closed spec fn payload(&self) -> Result<Seq<u8>, OperationError> {
        Ok(self.data@)
    }

    open spec fn decodes(
        &self,
        reply: ReplyView,
        result: Result<String, OperationError>,
    ) -> bool {
        long_tag_of(self.code(), reply, result)
    }

    fn command(&self) -> CommandCode {
        CommandCode(22)
    }

    fn retry_safety(&self) -> OperationSafety {
        registered_safety(self.command())
    }

    fn encode_request(&self, writer: &mut PayloadWriter) -> Result<(), OperationError> {
        writer.bytes(&self.data);
        Ok(())
    }

    fn decode_reply(&self, reply: &DeviceReply) -> Result<String, OperationError> {
        decode_long_tag(self.command(), reply)
    }
}

/// A date is a day up to 31 of a month up to 12, or all zero where it is not
/// set.
pub proof fn lemma_dates(
    day: u8,
    month: u8,
    year_since_1900: u8,
    created: Result<DeviceDate, OperationError>,
)
    requires
        call_ensures(DeviceDate::new, (day, month, year_since_1900), created),
    ensures
        created is Ok <==> (0 < day < 32 && 0 < month < 13) || (day == 0 && month == 0
            && year_since_1900 == 0),
        created matches Ok(date) ==> date.day == day && date.month == month
            && date.year_since_1900 == year_since_1900,
        created matches Ok(date) ==> date.valid(),
{
}

} // verus!
