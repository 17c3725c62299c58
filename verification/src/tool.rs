//! What the command-line tool computes from its arguments.

use vstd::prelude::*;

use crate::digits::{append_decimal, decimal};
use crate::inspect::{
    digit_value, exchange_issues, first_bad_digit, hex_nibble, inspect_exchange, inspected,
    issue_views, lemma_request_is_reported, paired, unspaced, ExchangeReport,
};
use crate::operation::{CommandCode, Request, RequestView};
use crate::strings::text_bytes;
use crate::wire::{Address, Master, WireError};

verus! {

/// The bytes of a hexadecimal text of any length, or what is wrong with it.
pub open spec fn decoded_hex(text: Seq<u8>) -> Result<Seq<u8>, Seq<char>> {
    let digits = unspaced(text);
    if digits.len() % 2 != 0 {
        Err("odd number of hexadecimal digits"@)
    } else {
        match first_bad_digit(digits, 0) {
            Some(offset) => Err("invalid digit at "@ + decimal((offset / 2) as nat)),
            None => Ok(paired(digits)),
        }
    }
}

/// Decodes a hexadecimal text that may be spaced.
pub fn decode_hex(value: &str) -> (result: Result<Vec<u8>, String>)
    ensures
        match decoded_hex(text_bytes(value@)) {
            Ok(bytes) => result matches Ok(found) && found@ == bytes,
            Err(message) => result matches Err(found) && found@ == message,
        },
{
    let text = value.as_bytes();
    let mut compact: Vec<u8> = Vec::new();
    let mut index: usize = 0;
    assert(text@.take(0) =~= Seq::<u8>::empty());
    while index < text.len()
        invariant
            index <= text@.len(),
            compact@ == unspaced(text@.take(index as int)),
        decreases text@.len() - index,
    {
        let byte: u8 = text[index];
        assert(text@.take(index + 1).drop_last() =~= text@.take(index as int));
        assert(text@.take(index + 1).last() == byte);
        if byte != 0x20 && byte != 0x09 && byte != 0x0a && byte != 0x0c && byte != 0x0d {
            compact.push(byte);
        }
        index += 1;
    }
    assert(text@.take(index as int) =~= text@);
    if compact.len() % 2 != 0 {
        return Err(String::from_str("odd number of hexadecimal digits"));
    }
    let mut bytes: Vec<u8> = Vec::new();
    let mut offset: usize = 0;
    while offset < compact.len()
        invariant
            offset <= compact@.len(),
            offset % 2 == 0,
            compact@.len() % 2 == 0,
            compact@ == unspaced(text_bytes(value@)),
            first_bad_digit(compact@, 0) == first_bad_digit(compact@, offset as int),
            bytes@.len() == offset / 2,
            bytes@ == paired(compact@).take(bytes@.len() as int),
        decreases compact@.len() - offset,
    {
        let high: u8 = match hex_nibble(compact[offset]) {
            Some(digit) => digit,
            None => {
                return Err(invalid_digit(offset / 2));
            },
        };
        assert(first_bad_digit(compact@, offset as int) == first_bad_digit(compact@, offset + 1));
        let low: u8 = match hex_nibble(compact[offset + 1]) {
            Some(digit) => digit,
            None => {
                assert((offset + 1) / 2 == offset / 2);
                return Err(invalid_digit(offset / 2));
            },
        };
        bytes.push(high * 16 + low);
        assert(compact@[2 * (offset / 2)] == compact@[offset as int]);
        offset += 2;
        assert(bytes@ =~= paired(compact@).take(bytes@.len() as int));
    }
    assert(bytes@ =~= paired(compact@));
    Ok(bytes)
}

fn invalid_digit(pair: usize) -> (message: String)
    ensures
        message@ == "invalid digit at "@ + decimal(pair as nat),
{
    let mut message = String::from_str("invalid digit at ");
    append_decimal(&mut message, pair as u64);
    message
}

/// The character of a hexadecimal digit, in upper case.
pub open spec fn upper_digit(digit: int) -> char {
    if digit < 10 {
        ('0' as int + digit) as char
    } else {
        ('A' as int + (digit - 10)) as char
    }
}

/// Two upper-case hexadecimal digits for each byte.
pub open spec fn upper_hex(bytes: Seq<u8>) -> Seq<char> {
    Seq::new(
        2 * bytes.len(),
        |i: int|
            upper_digit(
                if i % 2 == 0 {
                    (bytes[i / 2] / 16) as int
                } else {
                    (bytes[i / 2] % 16) as int
                },
            ),
    )
}

fn upper_character(digit: u8) -> (character: char)
    requires
        digit < 16,
    ensures
        character == upper_digit(digit as int),
{
    if digit < 10 {
        (0x30u8 + digit) as char
    } else {
        (0x41u8 + (digit - 10)) as char
    }
}

/// Renders bytes as upper-case hexadecimal digits.
pub fn encode_hex(bytes: &[u8]) -> (text: String)
    ensures
        text@ == upper_hex(bytes@),
{
    let mut text = String::new();
    let mut index: usize = 0;
    assert(text@ =~= upper_hex(bytes@.take(0)));
    while index < bytes.len()
        invariant
            index <= bytes@.len(),
            text@ == upper_hex(bytes@.take(index as int)),
        decreases bytes@.len() - index,
    {
        let byte: u8 = bytes[index];
        text.push(upper_character(byte / 16));
        text.push(upper_character(byte % 16));
        index += 1;
        assert(text@ =~= upper_hex(bytes@.take(index as int)));
    }
    assert(bytes@.take(index as int) =~= bytes@);
    text
}

/// The hexadecimal frame of a request to a short address, or why there is none.
pub open spec fn built(address: u8, command: u16, data: Seq<u8>) -> Result<Seq<char>, Seq<char>> {
    if address > 63 {
        Err(WireError::PollingAddress(address).text())
    } else {
        match decoded_hex(data) {
            Err(message) => Err(message),
            Ok(bytes) => {
                let request = RequestView::plain(
                    Address::Polling { node: address, master: Master::Primary },
                    CommandCode(command),
                    bytes,
                );
                match request.size_error() {
                    Some(error) => Err(error.text()),
                    None => Ok(upper_hex(request.frame().encoded())),
                }
            },
        }
    }
}

/// Builds a request of the primary master to a short address and renders its frame.
pub fn build(address: u8, command: u16, data: &str) -> (result: Result<String, String>)
    ensures
        match built(address, command, text_bytes(data@)) {
            Ok(text) => result matches Ok(found) && found@ == text,
            Err(message) => result matches Err(found) && found@ == message,
        },
{
    let address = match Address::polling(address, Master::Primary) {
        Ok(address) => address,
        Err(error) => {
            return Err(error.message());
        },
    };
    let data = decode_hex(data)?;
    let frame = match Request::new(address, command, data).to_frame() {
        Ok(frame) => frame,
        Err(error) => {
            return Err(error.message());
        },
    };
    match frame.encode() {
        Ok(bytes) => Ok(encode_hex(&bytes)),
        Err(error) => Err(error.message()),
    }
}

/// Compares a hexadecimal request with a hexadecimal response.
pub fn compare(request: &str, response: &str) -> (result: Result<ExchangeReport, String>)
    ensures
        match (decoded_hex(text_bytes(request@)), decoded_hex(text_bytes(response@))) {
            (Err(message), _) => result matches Err(found) && found@ == message,
            (_, Err(message)) => result matches Err(found) && found@ == message,
            (Ok(request_bytes), Ok(response_bytes)) => match (
                inspected(request_bytes),
                inspected(response_bytes),
            ) {
                (Ok(sent), Ok(received)) => result matches Ok(found) && found.request@ == sent
                    && found.response@ == received && found.address_matches == (sent.address
                    == received.address) && found.command_matches == (sent.command
                    == received.command) && issue_views(found.issues@) == exchange_issues(
                    sent,
                    received,
                ),
                (Err(issue), _) => result matches Err(found) && found@ == issue.message,
                (_, Err(issue)) => result matches Err(found) && found@ == issue.message,
            },
        },
{
    let request = decode_hex(request)?;
    let response = decode_hex(response)?;
    match inspect_exchange(&request, &response) {
        Ok(report) => Ok(report),
        Err(issue) => Err(issue.message),
    }
}

proof fn lemma_all_digits(digits: Seq<u8>, from: int)
    requires
        0 <= from,
        forall|i: int| 0 <= i < digits.len() ==> digit_value(#[trigger] digits[i]) is Some,
    ensures
        first_bad_digit(digits, from) is None,
    decreases digits.len() - from,
{
    if from < digits.len() {
        lemma_all_digits(digits, from + 1);
    }
}

proof fn lemma_no_spaces(bytes: Seq<u8>)
    requires
        forall|i: int| 0 <= i < bytes.len() ==> digit_value(#[trigger] bytes[i]) is Some,
    ensures
        unspaced(bytes) == bytes,
    decreases bytes.len(),
{
    if bytes.len() > 0 {
        assert(digit_value(bytes[bytes.len() - 1]) is Some);
        lemma_no_spaces(bytes.drop_last());
        assert(bytes.drop_last().push(bytes.last()) =~= bytes);
    }
}

/// Bytes that were rendered in hexadecimal are decoded again.
pub proof fn lemma_hex_round_trip(bytes: Seq<u8>)
    ensures
        decoded_hex(text_bytes(upper_hex(bytes))) == Ok::<Seq<u8>, Seq<char>>(bytes),
{
    let text = upper_hex(bytes);
    let digits = text_bytes(text);
    assert(vstd::utf8::is_ascii_chars(text));
    vstd::utf8::is_ascii_chars_encode_utf8(text);
    assert(digits =~= Seq::new(text.len(), |i: int| text[i] as u8));
    assert forall|i: int| 0 <= i < digits.len() implies digit_value(#[trigger] digits[i]) == Some(
        if i % 2 == 0 {
            (bytes[i / 2] / 16) as u8
        } else {
            (bytes[i / 2] % 16) as u8
        },
    ) by {}
    lemma_no_spaces(digits);
    lemma_all_digits(digits, 0);
    assert(paired(digits) =~= bytes);
}

/// A request is built for the polling addresses up to 63 and for data that is
/// hexadecimal and fits one frame. What is built can be read back: it is a
/// request of the primary master to that address with that command and as much
/// data as was given. Command 31 is left out: with data it names another one.
pub proof fn lemma_built_request_is_inspected(address: u8, command: u16, data: Seq<u8>)
    requires
        command != 31,
    ensures
        built(address, command, data) is Ok <==> address <= 63 && (decoded_hex(data) matches Ok(
            bytes,
        ) && bytes.len() + (if command > 255 {
            2int
        } else {
            0
        }) <= 255),
        built(address, command, data) matches Ok(text) ==> decoded_hex(text_bytes(text)) is Ok && (
        inspected(decoded_hex(text_bytes(text))->Ok_0) matches Ok(found) && found.kind is Request
            && found.command.0 == command && found.address == (Address::Polling {
            node: address,
            master: Master::Primary,
        }) && found.data_length == decoded_hex(data)->Ok_0.len()),
{
    if address <= 63 && decoded_hex(data) is Ok {
        let request = RequestView::plain(
            Address::Polling { node: address, master: Master::Primary },
            CommandCode(command),
            decoded_hex(data)->Ok_0,
        );
        if request.size_error() is None {
            lemma_request_is_reported(request);
            lemma_hex_round_trip(request.frame().encoded());
        }
    }
}

} // verus!
