//! Fast structural frame inspection for development and link diagnostics.

use vstd::prelude::*;

use base64::Engine;

use crate::bytes::{from_be16, join16};
use crate::catalog::{command_descriptor, registered, CommandClass};
use crate::digits::{append_decimal, decimal};
use crate::operation::{CommandCode, DeviceReply, ReplyView, RequestView};
use crate::strings::{strip, stripped, text_bytes};
use crate::wire::{
    lemma_encode_decode_round_trip, Address, ChecksumPolicy, DecodeEvent, DecodeLimits,
    DecodeStatistics, DecoderState, EventView, FrameDecoder, FrameKind, FrameRepair, FrameView,
    PhysicalLayer, MAX_ENCODED_FRAME_SIZE,
};

verus! {

/// Largest textual frame representation accepted before decoding whitespace or encoding.
pub const MAXIMUM_INSPECTION_TEXT_BYTES: usize = MAX_ENCODED_FRAME_SIZE * 8;

/// Inspector diagnostic.
#[derive(Debug, PartialEq, Eq)]
pub struct InspectionIssue {
    /// Machine-readable diagnostic code.
    pub code: &'static str,
    /// Human-readable explanation.
    pub message: String,
}

/// What a diagnostic holds.
#[verifier::ext_equal]
pub struct IssueView {
    pub code: &'static str,
    pub message: Seq<char>,
}

impl View for InspectionIssue {
    type V = IssueView;

    open spec fn view(&self) -> IssueView {
        IssueView { code: self.code, message: self.message@ }
    }
}

impl Clone for InspectionIssue {
    fn clone(&self) -> (copy: Self)
        ensures
            copy@ == self@,
    {
        InspectionIssue { code: self.code, message: self.message.clone() }
    }
}

/// The views of a list of diagnostics.
pub open spec fn issue_views(issues: Seq<InspectionIssue>) -> Seq<IssueView> {
    issues.map_values(|issue: InspectionIssue| issue@)
}

/// Summary of an inspected frame.
#[derive(Debug, Clone, PartialEq, Eq)]
pub struct FrameReport {
    /// Frame direction.
    pub kind: FrameKind,
    /// Frame address without service bits.
    pub address: Address,
    /// Physical mode carried by the delimiter.
    pub physical_layer: PhysicalLayer,
    /// Logical command number.
    pub command: CommandCode,
    /// Known command class, or `None`.
    pub class: Option<CommandClass>,
    /// Preamble count.
    pub preambles: u8,
    /// One-byte command value actually carried on the wire.
    pub wire_command: u8,
    /// Number of link-header extension bytes.
    pub frame_expansion_length: usize,
    /// Applied repair for a known gateway defect.
    pub repair: Option<FrameRepair>,
    /// Application payload length.
    pub data_length: usize,
    /// Response code for a response frame.
    pub response_code: Option<u8>,
    /// Device status for a response frame.
    pub device_status: Option<u8>,
    /// Non-structural diagnostics.
    pub issues: Vec<InspectionIssue>,
}

/// What a report holds.
#[verifier::ext_equal]
pub struct ReportView {
    pub kind: FrameKind,
    pub address: Address,
    pub physical_layer: PhysicalLayer,
    pub command: CommandCode,
    pub class: Option<CommandClass>,
    pub preambles: u8,
    pub wire_command: u8,
    pub frame_expansion_length: nat,
    pub repair: Option<FrameRepair>,
    pub data_length: nat,
    pub response_code: Option<u8>,
    pub device_status: Option<u8>,
    pub issues: Seq<IssueView>,
}

impl View for FrameReport {
    type V = ReportView;

    open spec fn view(&self) -> ReportView {
        ReportView {
            kind: self.kind,
            address: self.address,
            physical_layer: self.physical_layer,
            command: self.command,
            class: self.class,
            preambles: self.preambles,
            wire_command: self.wire_command,
            frame_expansion_length: self.frame_expansion_length as nat,
            repair: self.repair,
            data_length: self.data_length as nat,
            response_code: self.response_code,
            device_status: self.device_status,
            issues: issue_views(self.issues@),
        }
    }
}

/// Consistency of a complete request and response.
#[derive(Debug, Clone, PartialEq, Eq)]
pub struct ExchangeReport {
    /// Request summary.
    pub request: FrameReport,
    /// Response summary.
    pub response: FrameReport,
    /// Whether the canonical addresses match.
    pub address_matches: bool,
    /// Whether the logical command numbers match, Command 31 resolved.
    pub command_matches: bool,
    /// Cross-frame consistency errors.
    pub issues: Vec<InspectionIssue>,
}

/// The diagnostic of input beyond the frame limit.
pub open spec fn limit_issue() -> IssueView {
    IssueView {
        code: "input_limit",
        message: "input exceeds the "@ + decimal(MAX_ENCODED_FRAME_SIZE as nat)
            + "-byte frame limit"@,
    }
}

/// The logical command of a request frame: Command 31 with a number stands for that number.
pub open spec fn requested_command(frame: FrameView) -> CommandCode {
    if frame.wire_command == 31 && frame.payload.len() >= 2 {
        CommandCode(from_be16(frame.payload[0], frame.payload[1]))
    } else {
        CommandCode(frame.wire_command as u16)
    }
}

/// Diagnostics of a structurally valid frame.
pub open spec fn semantic_issues(command: CommandCode) -> Seq<IssueView> {
    if registered(command.0) is None {
        seq![
            IssueView {
                code: "unknown_semantics",
                message: "the frame is structurally valid, but command "@ + decimal(
                    command.0 as nat,
                ) + " is not in the registry"@,
            },
        ]
    } else {
        seq![]
    }
}

/// The report on a frame with the given application contents.
pub open spec fn report(
    frame: FrameView,
    command: CommandCode,
    data_length: nat,
    response_code: Option<u8>,
    device_status: Option<u8>,
) -> ReportView {
    ReportView {
        kind: frame.kind,
        address: frame.address,
        physical_layer: frame.physical_layer,
        command,
        class: match registered(command.0) {
            Some(entry) => Some(entry.class),
            None => None,
        },
        preambles: frame.preambles,
        wire_command: frame.wire_command,
        frame_expansion_length: frame.expansion.len(),
        repair: frame.repair,
        data_length,
        response_code,
        device_status,
        issues: semantic_issues(command),
    }
}

/// The report on a decoded frame, or what keeps it from being one.
pub open spec fn frame_report(frame: FrameView) -> Result<ReportView, IssueView> {
    if frame.kind is Request {
        let expanded = frame.wire_command == 31 && frame.payload.len() >= 2;
        Ok(
            report(
                frame,
                requested_command(frame),
                (frame.payload.len() - if expanded {
                    2int
                } else {
                    0int
                }) as nat,
                None,
                None,
            ),
        )
    } else {
        match ReplyView::of_frame(frame) {
            Err(error) => Err(IssueView { code: "reply", message: error.text() }),
            Ok(reply) => Ok(
                report(
                    frame,
                    reply.command,
                    reply.data.len(),
                    Some(reply.response_code),
                    Some(reply.device_status),
                ),
            ),
        }
    }
}

/// The decoder limits of an inspection.
pub open spec fn inspection_limits(length: nat) -> DecodeLimits {
    DecodeLimits {
        buffer_capacity: if length > 64 {
            length as usize
        } else {
            64
        },
        minimum_preambles: 1,
        checksum_policy: ChecksumPolicy::Strict,
    }
}

/// The report on a byte sequence that holds exactly one frame, or what is wrong with it.
pub open spec fn inspected(bytes: Seq<u8>) -> Result<ReportView, IssueView> {
    if bytes.len() > MAX_ENCODED_FRAME_SIZE {
        Err(limit_issue())
    } else {
        let fresh = DecoderState { buffered: seq![], statistics: DecodeStatistics::zero() };
        let (last, events) = fresh.pushed(inspection_limits(bytes.len()), bytes);
        if events.len() != 1 || last.buffered.len() != 0 {
            Err(
                IssueView { code: "frame_count", message: "expected exactly one complete frame"@ },
            )
        } else {
            match events[0] {
                EventView::Rejected(error) => Err(IssueView { code: "wire", message: error.text() },
                ),
                EventView::Frame(frame) => if last.statistics.discarded_bytes != 0 {
                    Err(
                        IssueView {
                            code: "unexpected_bytes",
                            message: "unexpected bytes were found before or after the frame"@,
                        },
                    )
                } else {
                    frame_report(frame)
                },
            }
        }
    }
}

/// Whether a report or diagnostic has the given view.
pub open spec fn reported(
    result: Result<FrameReport, InspectionIssue>,
    expected: Result<ReportView, IssueView>,
) -> bool {
    match expected {
        Ok(view) => result matches Ok(found) && found@ == view,
        Err(view) => result matches Err(found) && found@ == view,
    }
}

/// Inspects exactly one frame in a complete byte sequence.
pub fn inspect_bytes(bytes: &[u8]) -> (result: Result<FrameReport, InspectionIssue>)
    ensures
        reported(result, inspected(bytes@)),
{
    if bytes.len() > MAX_ENCODED_FRAME_SIZE {
        return Err(input_limit_issue());
    }
    let buffer_capacity: usize = if bytes.len() > 64 {
        bytes.len()
    } else {
        64
    };
    let mut decoder = FrameDecoder::new(
        DecodeLimits {
            buffer_capacity,
            minimum_preambles: 1,
            checksum_policy: ChecksumPolicy::Strict,
        },
    );
    let mut events = decoder.push(bytes);
    let ghost views = crate::wire::event_views(events@);
    if events.len() != 1 || decoder.buffered_len() != 0 {
        return Err(
            InspectionIssue {
                code: "frame_count",
                message: String::from_str("expected exactly one complete frame"),
            },
        );
    }
    let event = events.remove(0);
    assert(event@ == views[0]);
    match event {
        DecodeEvent::Rejected(error) => Err(
            InspectionIssue { code: "wire", message: error.message() },
        ),
        DecodeEvent::Frame(frame) => {
            if decoder.statistics().discarded_bytes != 0 {
                return Err(
                    InspectionIssue {
                        code: "unexpected_bytes",
                        message: String::from_str(
                            "unexpected bytes were found before or after the frame",
                        ),
                    },
                );
            }
            let ghost view = frame@;
            let kind = frame.kind;
            let address = frame.address;
            let physical_layer = frame.physical_layer;
            let preambles: u8 = frame.preambles;
            let wire_command: u8 = frame.wire_command;
            let frame_expansion_length: usize = frame.expansion.len();
            let repair = frame.repair;
            let (command, response_code, device_status, data_length): (
                CommandCode,
                Option<u8>,
                Option<u8>,
                usize,
            ) = if kind == FrameKind::Request {
                let length: usize = frame.payload.len();
                if wire_command == 31 && length >= 2 {
                    (
                        CommandCode(join16(frame.payload[0], frame.payload[1])),
                        None,
                        None,
                        length - 2,
                    )
                } else {
                    (CommandCode(wire_command as u16), None, None, length)
                }
            } else {
                match DeviceReply::from_frame(frame) {
                    Err(error) => {
                        return Err(InspectionIssue { code: "reply", message: error.message() });
                    },
                    Ok(reply) => (
                        reply.command,
                        Some(reply.response_code),
                        Some(reply.device_status),
                        reply.data.len(),
                    ),
                }
            };
            let (class, issues) = classify(command);
            let found = FrameReport {
                kind,
                address,
                physical_layer,
                command,
                class,
                preambles,
                wire_command,
                frame_expansion_length,
                repair,
                data_length,
                response_code,
                device_status,
                issues,
            };
            assert(found@ =~= report(
                view,
                command,
                data_length as nat,
                response_code,
                device_status,
            ));
            Ok(found)
        },
    }
}

fn classify(command: CommandCode) -> (result: (Option<CommandClass>, Vec<InspectionIssue>))
    ensures
        result.0 == match registered(command.0) {
            Some(entry) => Some(entry.class),
            None => None,
        },
        issue_views(result.1@) == semantic_issues(command),
{
    let mut issues: Vec<InspectionIssue> = Vec::new();
    match command_descriptor(command) {
        Some(entry) => {
            assert(issue_views(issues@) =~= semantic_issues(command));
            (Some(entry.class), issues)
        },
        None => {
            let mut message = String::from_str(
                "the frame is structurally valid, but command ",
            );
            append_decimal(&mut message, command.get() as u64);
            message.append(" is not in the registry");
            issues.push(InspectionIssue { code: "unknown_semantics", message });
            assert(issue_views(issues@) =~= semantic_issues(command));
            (None, issues)
        },
    }
}

/// The diagnostics of an exchange.
pub open spec fn exchange_issues(request: ReportView, response: ReportView) -> Seq<IssueView> {
    issue_if(
        !(request.kind is Request),
        "request_direction",
        "the first frame is not a request"@,
    ) + issue_if(
        !(response.kind is Response),
        "response_direction",
        "the second frame is not a solicited response"@,
    ) + issue_if(
        request.address != response.address,
        "address_mismatch",
        "the response address does not match the request address"@,
    ) + issue_if(
        request.command != response.command,
        "command_mismatch",
        "the response logical command does not match the request"@,
    )
}

/// One diagnostic where a condition holds, else none.
pub open spec fn issue_if(condition: bool, code: &'static str, message: Seq<char>) -> Seq<
    IssueView,
> {
    if condition {
        seq![IssueView { code, message }]
    } else {
        seq![]
    }
}

fn push_issue(
    issues: &mut Vec<InspectionIssue>,
    condition: bool,
    code: &'static str,
    message: &'static str,
)
    ensures
        issue_views(final(issues)@) == issue_views(old(issues)@) + issue_if(
            condition,
            code,
            message@,
        ),
{
    if condition {
        issues.push(InspectionIssue { code, message: String::from_str(message) });
    }
    assert(issue_views(issues@) =~= issue_views(old(issues)@) + issue_if(
        condition,
        code,
        message@,
    ));
}

/// Validates the structure and consistency of a complete exchange.
pub fn inspect_exchange(request_bytes: &[u8], response_bytes: &[u8]) -> (result: Result<
    ExchangeReport,
    InspectionIssue,
>)
    ensures
        match (inspected(request_bytes@), inspected(response_bytes@)) {
            (Ok(request), Ok(response)) => result matches Ok(found) && found.request@ == request
                && found.response@ == response && found.address_matches == (request.address
                == response.address) && found.command_matches == (request.command
                == response.command) && issue_views(found.issues@) == exchange_issues(
                request,
                response,
            ),
            (Err(issue), _) => result matches Err(found) && found@ == issue,
            (_, Err(issue)) => result matches Err(found) && found@ == issue,
        },
{
    let request = inspect_bytes(request_bytes)?;
    let response = inspect_bytes(response_bytes)?;
    let address_matches = request.address == response.address;
    let command_matches = request.command == response.command;
    let mut issues: Vec<InspectionIssue> = Vec::new();
    push_issue(
        &mut issues,
        request.kind != FrameKind::Request,
        "request_direction",
        "the first frame is not a request",
    );
    push_issue(
        &mut issues,
        response.kind != FrameKind::Response,
        "response_direction",
        "the second frame is not a solicited response",
    );
    push_issue(
        &mut issues,
        !address_matches,
        "address_mismatch",
        "the response address does not match the request address",
    );
    push_issue(
        &mut issues,
        !command_matches,
        "command_mismatch",
        "the response logical command does not match the request",
    );
    assert(issue_views(issues@) =~= exchange_issues(request@, response@));
    Ok(ExchangeReport { request, response, address_matches, command_matches, issues })
}

/// A Base64 decoding error.
#[verifier::external_type_specification]
#[verifier::external_body]
pub struct ExDecodeError(base64::DecodeError);

/// The bytes that a text stands for in Base64 with the standard alphabet and
/// padding, or `None` where the text is not valid Base64.
pub uninterp spec fn base64_bytes(text: Seq<char>) -> Option<Seq<u8>>;

/// `base64::Engine::decode` of the engine `general_purpose::STANDARD`: the
/// decoded bytes, or an error where the text is not valid Base64. Which texts
/// are valid and what they stand for depends on the text alone.
#[verifier::external_body]
fn decode_base64(text: &str) -> (result: Result<Vec<u8>, base64::DecodeError>)
    ensures
        match result {
            Ok(bytes) => base64_bytes(text@) == Some(bytes@),
            Err(_) => base64_bytes(text@) is None,
        },
{
    base64::engine::general_purpose::STANDARD.decode(text)
}

/// The report on what a Base64 text decoded to; `None` stands for invalid Base64.
pub open spec fn decoded_report(decoded: Option<Seq<u8>>) -> Result<ReportView, IssueView> {
    match decoded {
        Some(bytes) => inspected(bytes),
        None => Err(IssueView { code: "base64", message: "the string is not valid Base64"@ }),
    }
}

/// Inspects the bytes that a Base64 text decoded to; `None` stands for invalid Base64.
pub fn inspect_decoded(decoded: Option<Vec<u8>>) -> (result: Result<FrameReport, InspectionIssue>)
    ensures
        reported(
            result,
            decoded_report(
                match decoded {
                    Some(bytes) => Some(bytes@),
                    None => None,
                },
            ),
        ),
{
    match decoded {
        Some(bytes) => inspect_bytes(&bytes),
        None => Err(
            InspectionIssue {
                code: "base64",
                message: String::from_str("the string is not valid Base64"),
            },
        ),
    }
}

/// Decodes a standard Base64 string and inspects the contained frame.
pub fn inspect_base64(value: &str) -> (result: Result<FrameReport, InspectionIssue>)
    ensures
        reported(
            result,
            if text_bytes(value@).len() > MAXIMUM_INSPECTION_TEXT_BYTES || text_bytes(
                stripped(value@),
            ).len() > 696 {
                Err(limit_issue())
            } else {
                decoded_report(base64_bytes(stripped(value@)))
            },
        ),
{
    if value.as_bytes().len() > MAXIMUM_INSPECTION_TEXT_BYTES {
        return Err(input_limit_issue());
    }
    let text = strip(value);
    let maximum_encoded: usize = (MAX_ENCODED_FRAME_SIZE + 2) / 3 * 4;
    if text.as_str().as_bytes().len() > maximum_encoded {
        return Err(input_limit_issue());
    }
    match decode_base64(text.as_str()) {
        Ok(bytes) => inspect_decoded(Some(bytes)),
        Err(_) => inspect_decoded(None),
    }
}

/// A byte that hexadecimal text may be spaced with.
pub open spec fn ascii_space(byte: u8) -> bool {
    byte == 0x20 || byte == 0x09 || byte == 0x0a || byte == 0x0c || byte == 0x0d
}

/// The bytes of a text without its spacing.
pub open spec fn unspaced(bytes: Seq<u8>) -> Seq<u8>
    decreases bytes.len(),
{
    if bytes.len() == 0 {
        seq![]
    } else if ascii_space(bytes.last()) {
        unspaced(bytes.drop_last())
    } else {
        unspaced(bytes.drop_last()).push(bytes.last())
    }
}

/// The value of a hexadecimal digit.
pub open spec fn digit_value(byte: u8) -> Option<u8> {
    if 0x30 <= byte <= 0x39 {
        Some((byte - 0x30) as u8)
    } else if 0x61 <= byte <= 0x66 {
        Some((byte - 0x61 + 10) as u8)
    } else if 0x41 <= byte <= 0x46 {
        Some((byte - 0x41 + 10) as u8)
    } else {
        None
    }
}

/// The first position at or after `from` that holds no hexadecimal digit.
pub open spec fn first_bad_digit(digits: Seq<u8>, from: int) -> Option<int>
    decreases digits.len() - from,
{
    if from >= digits.len() {
        None
    } else if digit_value(digits[from]) is None {
        Some(from)
    } else {
        first_bad_digit(digits, from + 1)
    }
}

/// The bytes that pairs of digits stand for.
pub open spec fn paired(digits: Seq<u8>) -> Seq<u8> {
    Seq::new(
        digits.len() / 2,
        |i: int|
            (digit_value(digits[2 * i])->0 * 16 + digit_value(digits[2 * i + 1])->0) as u8,
    )
}

/// The bytes of a hexadecimal text, or what is wrong with it.
pub open spec fn hex_bytes(text: Seq<u8>) -> Result<Seq<u8>, IssueView> {
    let digits = unspaced(text);
    if text.len() > MAXIMUM_INSPECTION_TEXT_BYTES || digits.len() > MAX_ENCODED_FRAME_SIZE * 2 {
        Err(limit_issue())
    } else if digits.len() % 2 != 0 {
        Err(
            IssueView {
                code: "hex_length",
                message: "the hexadecimal string must contain an even number of digits"@,
            },
        )
    } else {
        match first_bad_digit(digits, 0) {
            Some(offset) => Err(
                IssueView {
                    code: "hex_digit",
                    message: "invalid hexadecimal digit at offset "@ + decimal(offset as nat),
                },
            ),
            None => Ok(paired(digits)),
        }
    }
}

proof fn lemma_unspaced_grows(bytes: Seq<u8>, shorter: int)
    requires
        0 <= shorter <= bytes.len(),
    ensures
        unspaced(bytes.take(shorter)).len() <= unspaced(bytes).len(),
    decreases bytes.len(),
{
    if shorter < bytes.len() {
        lemma_unspaced_grows(bytes.drop_last(), shorter);
        assert(bytes.drop_last().take(shorter) =~= bytes.take(shorter));
    } else {
        assert(bytes.take(shorter) =~= bytes);
    }
}

/// Decodes the digits of a hexadecimal text.
fn decode_hex(text: &[u8]) -> (result: Result<Vec<u8>, InspectionIssue>)
    requires
        text@.len() <= MAXIMUM_INSPECTION_TEXT_BYTES,
    ensures
        match hex_bytes(text@) {
            Ok(expected) => result matches Ok(bytes) && bytes@ == expected,
            Err(issue) => result matches Err(found) && found@ == issue,
        },
{
    let maximum_digits: usize = MAX_ENCODED_FRAME_SIZE * 2;
    let mut compact: Vec<u8> = Vec::new();
    let mut index: usize = 0;
    assert(text@.take(0) =~= Seq::<u8>::empty());
    while index < text.len()
        invariant
            index <= text@.len(),
            text@.len() <= MAXIMUM_INSPECTION_TEXT_BYTES,
            maximum_digits == MAX_ENCODED_FRAME_SIZE * 2,
            compact@ == unspaced(text@.take(index as int)),
            compact@.len() <= maximum_digits,
        decreases text@.len() - index,
    {
        let byte: u8 = text[index];
        assert(text@.take(index + 1).drop_last() =~= text@.take(index as int));
        assert(text@.take(index + 1).last() == byte);
        if byte != 0x20 && byte != 0x09 && byte != 0x0a && byte != 0x0c && byte != 0x0d {
            if compact.len() == maximum_digits {
                proof {
                    lemma_unspaced_grows(text@, index + 1);
                }
                return Err(input_limit_issue());
            }
            compact.push(byte);
        }
        index += 1;
    }
    assert(text@.take(index as int) =~= text@);
    if compact.len() % 2 != 0 {
        return Err(
            InspectionIssue {
                code: "hex_length",
                message: String::from_str(
                    "the hexadecimal string must contain an even number of digits",
                ),
            },
        );
    }
    let mut bytes: Vec<u8> = Vec::new();
    let mut offset: usize = 0;
    while offset < compact.len()
        invariant
            offset <= compact@.len(),
            offset % 2 == 0,
            compact@.len() % 2 == 0,
            compact@ == unspaced(text@),
            compact@.len() <= MAX_ENCODED_FRAME_SIZE * 2,
            text@.len() <= MAXIMUM_INSPECTION_TEXT_BYTES,
            first_bad_digit(compact@, 0) == first_bad_digit(compact@, offset as int),
            bytes@.len() == offset / 2,
            bytes@ == paired(compact@).take(bytes@.len() as int),
        decreases compact@.len() - offset,
    {
        let high: u8 = match hex_nibble(compact[offset]) {
            Some(value) => value,
            None => {
                return Err(digit_issue(offset));
            },
        };
        assert(first_bad_digit(compact@, offset as int) == first_bad_digit(compact@, offset + 1));
        let low: u8 = match hex_nibble(compact[offset + 1]) {
            Some(value) => value,
            None => {
                return Err(digit_issue(offset + 1));
            },
        };
        bytes.push(high * 16 + low);
        assert(compact@[2 * (offset / 2)] == compact@[offset as int]);
        offset += 2;
        assert(bytes@ =~= paired(compact@).take(bytes@.len() as int));
    }
    assert(bytes@ =~= paired(compact@));
    Ok(bytes)
}

fn digit_issue(offset: usize) -> (issue: InspectionIssue)
    ensures
        issue@ == (IssueView {
            code: "hex_digit",
            message: "invalid hexadecimal digit at offset "@ + decimal(offset as nat),
        }),
{
    let mut message = String::from_str("invalid hexadecimal digit at offset ");
    append_decimal(&mut message, offset as u64);
    InspectionIssue { code: "hex_digit", message }
}

/// Decodes a hexadecimal string and inspects the contained frame.
pub fn inspect_hex(value: &str) -> (result: Result<FrameReport, InspectionIssue>)
    ensures
        reported(
            result,
            match hex_bytes(text_bytes(value@)) {
                Ok(bytes) => inspected(bytes),
                Err(issue) => Err(issue),
            },
        ),
{
    let text = value.as_bytes();
    if text.len() > MAXIMUM_INSPECTION_TEXT_BYTES {
        return Err(input_limit_issue());
    }
    match decode_hex(text) {
        Ok(bytes) => inspect_bytes(&bytes),
        Err(issue) => Err(issue),
    }
}

fn input_limit_issue() -> (issue: InspectionIssue)
    ensures
        issue@ == limit_issue(),
{
    let mut message = String::from_str("input exceeds the ");
    append_decimal(&mut message, MAX_ENCODED_FRAME_SIZE as u64);
    message.append("-byte frame limit");
    InspectionIssue { code: "input_limit", message }
}

/// Returns the value of a hexadecimal digit.
pub(crate) fn hex_nibble(byte: u8) -> (value: Option<u8>)
    ensures
        value == digit_value(byte),
        value matches Some(digit) ==> digit < 16,
{
    if byte >= 0x30 && byte <= 0x39 {
        Some(byte - 0x30)
    } else if byte >= 0x61 && byte <= 0x66 {
        Some(byte - 0x61 + 10)
    } else if byte >= 0x41 && byte <= 0x46 {
        Some(byte - 0x41 + 10)
    } else {
        None
    }
}

/// The encoding of a canonical frame with a preamble is inspected as that frame.
#[verifier::spinoff_prover]
#[verifier::rlimit(50)]
pub proof fn lemma_encoded_frame_is_inspected(frame: FrameView)
    requires
        frame.canonical(),
        frame.preambles >= 1,
    ensures
        inspected(frame.encoded()) == frame_report(frame),
{
    let bytes = frame.encoded();
    let fresh = DecoderState { buffered: seq![], statistics: DecodeStatistics::zero() };
    lemma_encode_decode_round_trip(fresh, frame, inspection_limits(bytes.len()));
}

/// A request that was encoded is reported with its logical command, its
/// address and its data length, whether or not the command is expanded.
/// Command 31 itself is left out: with data it names another command.
pub proof fn lemma_request_is_reported(request: RequestView)
    requires
        request.size_error() is None,
        request.address.valid(),
        request.preambles >= 1,
        request.command.0 != 31,
    ensures
        inspected(request.frame().encoded()) matches Ok(found) && found.command == request.command
            && found.address == request.address && found.data_length == request.data.len()
            && found.kind is Request,
{
    let frame = request.frame();
    lemma_encoded_frame_is_inspected(frame);
    if request.command.expanded() {
        crate::bytes::lemma_be16_round_trip(request.command.0, 0, 0);
        let number = crate::bytes::be16(request.command.0);
        assert(frame.payload[0] == number[0]);
        assert(frame.payload[1] == number[1]);
    }
}

/// An exchange is without issue exactly when a request is followed by a
/// response of the same address and the same command; each point that fails is
/// one issue.
pub proof fn lemma_exchange_without_issue(request: ReportView, response: ReportView)
    ensures
        exchange_issues(request, response).len() == 0 <==> request.kind is Request
            && response.kind is Response && request.address == response.address && request.command
            == response.command,
        exchange_issues(request, response).len() == (if request.kind is Request {
            0int
        } else {
            1int
        }) + (if response.kind is Response {
            0int
        } else {
            1int
        }) + (if request.address == response.address {
            0int
        } else {
            1int
        }) + (if request.command == response.command {
            0int
        } else {
            1int
        }),
{
}

/// The report of a frame repeats its header; the command and the length of the
/// data are those behind an expanded number where there is one; a response
/// shows its code and status and a request has none. An issue is raised
/// exactly for a command that is not registered.
pub proof fn lemma_report_of_a_frame(frame: FrameView)
    ensures
        frame_report(frame) matches Ok(found) ==> {
            &&& found.kind == frame.kind
            &&& found.address == frame.address
            &&& found.physical_layer == frame.physical_layer
            &&& found.preambles == frame.preambles
            &&& found.wire_command == frame.wire_command
            &&& found.frame_expansion_length == frame.expansion.len()
            &&& found.repair == frame.repair
            &&& (found.issues.len() == 0 <==> registered(found.command.0) is Some)
            &&& (found.class is Some <==> registered(found.command.0) is Some)
            &&& (frame.wire_command != 31 ==> found.command.0 == frame.wire_command)
            &&& (frame.kind is Request ==> found.response_code is None
                && found.device_status is None)
            &&& (frame.kind is Request && frame.wire_command != 31 ==> found.data_length
                == frame.payload.len())
            &&& (frame.kind is Request && frame.wire_command == 31 && frame.payload.len() >= 2
                ==> found.command.0 == frame.payload[0] * 256 + frame.payload[1]
                && found.data_length == frame.payload.len() - 2)
            &&& (!(frame.kind is Request) ==> found.response_code == Some(frame.payload[0])
                && found.device_status == Some(frame.payload[1]))
            &&& (!(frame.kind is Request) && frame.wire_command != 31 ==> found.data_length
                == frame.payload.len() - 2)
            &&& (!(frame.kind is Request) && frame.wire_command == 31 ==> found.command.0
                == frame.payload[2] * 256 + frame.payload[3] && found.data_length
                == frame.payload.len() - 4)
        },
        frame.kind is Request ==> frame_report(frame) is Ok,
{
}

/// Hexadecimal digits stand for their values in either case, and nothing else
/// is a digit; two digits make a byte, the first of them the upper half.
pub proof fn lemma_hexadecimal_digits(digits: Seq<u8>, index: int)
    requires
        0 <= index < digits.len() / 2,
        digit_value(digits[2 * index]) is Some,
        digit_value(digits[2 * index + 1]) is Some,
    ensures
        paired(digits).len() == digits.len() / 2,
        paired(digits)[index] / 16 == digit_value(digits[2 * index])->0,
        paired(digits)[index] % 16 == digit_value(digits[2 * index + 1])->0,
        forall|byte: u8|
            #[trigger] digit_value(byte) is Some <==> '0' as u32 <= byte <= '9' as u32 || 'a' as u32
                <= byte <= 'f' as u32 || 'A' as u32 <= byte <= 'F' as u32,
        forall|byte: u8|
            '0' as u32 <= byte <= '9' as u32 ==> #[trigger] digit_value(byte) == Some(
                (byte - 48) as u8,
            ),
        forall|byte: u8|
            'a' as u32 <= byte <= 'f' as u32 ==> #[trigger] digit_value(byte) == Some(
                (byte - 87) as u8,
            ),
        forall|byte: u8|
            'A' as u32 <= byte <= 'F' as u32 ==> #[trigger] digit_value(byte) == Some(
                (byte - 55) as u8,
            ),
{
}

/// Spaces, tabs and line ends between digits count for nothing, wherever they
/// stand, and nothing else is left out.
pub proof fn lemma_spacing_is_ignored(left: Seq<u8>, right: Seq<u8>, byte: u8)
    ensures
        unspaced(left + right) == unspaced(left) + unspaced(right),
        unspaced(seq![byte]) == if byte == 32 || byte == 9 || byte == 10 || byte == 12 || byte == 13 {
            seq![]
        } else {
            seq![byte]
        },
    decreases right.len(),
{
    assert(unspaced(seq![byte].drop_last()) =~= seq![]) by {
        assert(seq![byte].drop_last().len() == 0);
    }
    if right.len() > 0 {
        lemma_spacing_is_ignored(left, right.drop_last(), byte);
        assert((left + right).drop_last() =~= left + right.drop_last());
        assert((left + right).last() == right.last());
        assert(unspaced(left + right) =~= unspaced(left) + unspaced(right));
    } else {
        assert(left + right =~= left);
        assert(unspaced(left) + unspaced(right) =~= unspaced(left));
    }
}

/// The digit that is reported is no hexadecimal digit and the first that is
/// none; where none is reported, all are.
pub proof fn lemma_first_bad_digit(digits: Seq<u8>, from: int)
    requires
        0 <= from,
    ensures
        match first_bad_digit(digits, from) {
            Some(at) => from <= at < digits.len() && digit_value(digits[at]) is None && forall|
                i: int,
            |
                from <= i < at ==> digit_value(#[trigger] digits[i]) is Some,
            None => forall|i: int|
                from <= i < digits.len() ==> digit_value(#[trigger] digits[i]) is Some,
        },
    decreases digits.len() - from,
{
    if from < digits.len() && digit_value(digits[from]) is Some {
        lemma_first_bad_digit(digits, from + 1);
    }
}

} // verus!
