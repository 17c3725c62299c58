//! Application-level requests and responses.

use vstd::prelude::*;

pub mod codec;
pub mod configuration;
pub mod control;
pub mod diagnostics;
pub mod identity;
pub mod information;
pub mod laws;
pub mod process;
pub mod text;

use crate::bytes::{append_bytes, be16, copy_bytes, copy_range, from_be16, join16, push16};
use crate::catalog::{
    declared_constraint, declared_safety, registered_safety, request_constraint, OperationSafety,
};
use crate::digits::{append_decimal, append_hex_byte, decimal, hex_byte};
use crate::wire::{Address, Frame, FrameKind, FrameView, PhysicalLayer, WireError};

pub use codec::{PayloadReader, PayloadWriter};
pub use configuration::{
    LoopConfiguration, PollingAddress, ReadLoopConfiguration, WriteLegacyPollingAddress,
    WritePollingAddress,
};
pub use control::{
    ActionCommand, AnalogTrim, EepromControl, FixedCurrent, RangeValues, SetDamping, SetRange,
    WritePrimaryUnit, WriteTransferFunction,
};
pub use diagnostics::{AdditionalStatus, ReadAdditionalStatus};
pub use identity::{DeviceIdentity, IdentityView, ReadDeviceIdentity, ReadIdentity};
pub use information::{
    ReadFinalAssemblyNumber, ReadOutputInformation, ReadTransducerInformation,
    WriteFinalAssemblyNumber,
};
pub use process::{
    DeviceVariable, DeviceVariables, DynamicValues, LoopSignal, MeasuredValue, PrimaryValue,
    ReadDeviceVariables, ReadDynamicValues, ReadLoopSignal, ReadPrimaryValue,
    ReadSelectedVariables, ReadVariableClassifications, SelectedVariable, VariableClassifications,
};
pub use text::{
    pack_text, unpack_text, DeviceDate, ReadLongTag, ReadMessage, ReadTagDescriptorDate,
    TagDescriptorDate, WriteLongTag, WriteMessage, WriteTagDescriptorDate,
};

verus! {

/// Logical HART operation number.
#[derive(Debug, Clone, Copy, PartialEq, Eq, PartialOrd, Ord, Hash, Structural)]
pub struct CommandCode(pub u16);

impl CommandCode {
    /// Whether the number must be carried through Command 31.
    pub open spec fn expanded(self) -> bool {
        self.0 > 255
    }

    /// Creates a number in the full 16-bit command space.
    pub fn new(value: u16) -> (code: Self)
        ensures
            code == CommandCode(value),
    {
        CommandCode(value)
    }

    /// Returns the numeric value.
    pub fn get(self) -> (value: u16)
        ensures
            value == self.0,
    {
        self.0
    }

    /// Reports whether the number must be carried through Command 31.
    pub fn is_expanded(self) -> (expanded: bool)
        ensures
            expanded == self.expanded(),
    {
        self.0 > 255
    }
}

impl From<u8> for CommandCode {
    fn from(value: u8) -> (code: Self) {
        CommandCode(value as u16)
    }
}

impl vstd::std_specs::convert::FromSpecImpl<u8> for CommandCode {
    open spec fn obeys_from_spec() -> bool {
        true
    }

    open spec fn from_spec(value: u8) -> Self {
        CommandCode(value as u16)
    }
}

impl From<u16> for CommandCode {
    fn from(value: u16) -> (code: Self) {
        CommandCode(value)
    }
}

impl vstd::std_specs::convert::FromSpecImpl<u16> for CommandCode {
    open spec fn obeys_from_spec() -> bool {
        true
    }

    open spec fn from_spec(value: u16) -> Self {
        CommandCode(value)
    }
}

/// What names a command: its code, or its number in eight or sixteen bits.
pub trait CommandNumber: Sized {
    /// The command that is named.
    spec fn number(self) -> CommandCode;

    /// Returns the command that is named.
    fn command_code(self) -> (code: CommandCode)
        ensures
            code == self.number(),
    ;
}

impl CommandNumber for CommandCode {
    open spec fn number(self) -> CommandCode {
        self
    }

    fn command_code(self) -> CommandCode {
        self
    }
}

impl CommandNumber for u8 {
    open spec fn number(self) -> CommandCode {
        CommandCode(self as u16)
    }

    fn command_code(self) -> CommandCode {
        CommandCode(self as u16)
    }
}

impl CommandNumber for u16 {
    open spec fn number(self) -> CommandCode {
        CommandCode(self)
    }

    fn command_code(self) -> CommandCode {
        CommandCode(self)
    }
}

/// Application codec error.
#[derive(Debug, Clone, Copy, PartialEq, Eq)]
#[allow(inconsistent_fields)]
pub enum OperationError {
    /// The response names a different command.
    CommandMismatch {
        /// Expected logical number.
        expected: u16,
        /// Actual logical number.
        actual: u16,
    },
    /// The device returned an error or warning that prevents payload decoding.
    DeviceStatus {
        /// HART response code.
        code: u8,
        /// Device status bits.
        status: u8,
    },
    /// The first response byte is a communication-error summary, not an application code.
    CommunicationStatus {
        /// Communication-error summary with its most significant bit set.
        summary: u8,
        /// Second status byte retained for diagnostics.
        status: u8,
    },
    /// The payload is too short for the declared format.
    Truncated {
        /// Application field name.
        field: &'static str,
        /// Read offset.
        offset: usize,
    },
    /// Unexpected data remains after decoding.
    TrailingBytes(usize),
    /// A value cannot be represented by the protocol type.
    InvalidValue(&'static str),
    /// The request length does not match the explicit command contract.
    RequestLength {
        /// Logical command number.
        command: u16,
        /// Actual length.
        actual: usize,
    },
    /// Link-layer error.
    Wire(WireError),
}

impl From<WireError> for OperationError {
    fn from(error: WireError) -> (wrapped: Self) {
        OperationError::Wire(error)
    }
}

impl vstd::std_specs::convert::FromSpecImpl<WireError> for OperationError {
    open spec fn obeys_from_spec() -> bool {
        true
    }

    open spec fn from_spec(error: WireError) -> Self {
        OperationError::Wire(error)
    }
}

impl OperationError {
    /// The diagnostic text of the error.
    pub open spec fn text(self) -> Seq<char> {
        match self {
            OperationError::CommandMismatch { expected, actual } => "expected command "@ + decimal(
                expected as nat,
            ) + ", received command "@ + decimal(actual as nat),
            OperationError::DeviceStatus { code, status } => "device returned response code "@
                + decimal(code as nat) + " and status "@ + hex_byte(status),
            OperationError::CommunicationStatus { summary, status } =>
            "device reported communication status "@ + hex_byte(summary) + " and status "@
                + hex_byte(status),
            OperationError::Truncated { field, offset } => "field "@ + field@
                + " is truncated at offset "@ + decimal(offset as nat),
            OperationError::TrailingBytes(count) => decimal(count as nat)
                + " unexpected bytes remain after decoding"@,
            OperationError::InvalidValue(field) => "field "@ + field@
                + " is outside the allowed range"@,
            OperationError::RequestLength { command, actual } => "command "@ + decimal(
                command as nat,
            ) + " does not accept a "@ + decimal(actual as nat) + "-byte request"@,
            OperationError::Wire(error) => error.text(),
        }
    }

    /// Renders the error for a diagnostic.
    pub fn message(&self) -> (message: String)
        ensures
            message@ == self.text(),
    {
        match *self {
            OperationError::CommandMismatch { expected, actual } => {
                let mut message = String::from_str("expected command ");
                append_decimal(&mut message, expected as u64);
                message.append(", received command ");
                append_decimal(&mut message, actual as u64);
                message
            },
            OperationError::DeviceStatus { code, status } => {
                let mut message = String::from_str("device returned response code ");
                append_decimal(&mut message, code as u64);
                message.append(" and status ");
                append_hex_byte(&mut message, status);
                message
            },
            OperationError::CommunicationStatus { summary, status } => {
                let mut message = String::from_str("device reported communication status ");
                append_hex_byte(&mut message, summary);
                message.append(" and status ");
                append_hex_byte(&mut message, status);
                message
            },
            OperationError::Truncated { field, offset } => {
                let mut message = String::from_str("field ");
                message.append(field);
                message.append(" is truncated at offset ");
                append_decimal(&mut message, offset as u64);
                message
            },
            OperationError::TrailingBytes(count) => {
                let mut message = String::new();
                append_decimal(&mut message, count as u64);
                message.append(" unexpected bytes remain after decoding");
                assert(message@ =~= self.text());
                message
            },
            OperationError::InvalidValue(field) => {
                let mut message = String::from_str("field ");
                message.append(field);
                message.append(" is outside the allowed range");
                message
            },
            OperationError::RequestLength { command, actual } => {
                let mut message = String::from_str("command ");
                append_decimal(&mut message, command as u64);
                message.append(" does not accept a ");
                append_decimal(&mut message, actual as u64);
                message.append("-byte request");
                message
            },
            OperationError::Wire(error) => error.message(),
        }
    }
}

/// Request before conversion into a link-layer frame.
#[derive(Debug, PartialEq, Eq)]
pub struct Request {
    /// Device address.
    pub address: Address,
    /// Logical command number.
    pub command: CommandCode,
    /// Request data without the expanded-command service number.
    pub data: Vec<u8>,
    /// Preamble count used for the initial transmission.
    pub preambles: u8,
    /// Link-layer header extension.
    pub frame_expansion: Vec<u8>,
    /// Physical mode of the generated frame.
    pub physical_layer: PhysicalLayer,
    /// Explicit automatic-retry safety, or `None` for registry lookup and conservative fallback.
    pub retry_safety: Option<OperationSafety>,
}

/// What a request holds, with its byte vectors as sequences.
#[verifier::ext_equal]
pub struct RequestView {
    pub address: Address,
    pub command: CommandCode,
    pub data: Seq<u8>,
    pub preambles: u8,
    pub frame_expansion: Seq<u8>,
    pub physical_layer: PhysicalLayer,
    pub retry_safety: Option<OperationSafety>,
}

impl View for Request {
    type V = RequestView;

    open spec fn view(&self) -> RequestView {
        RequestView {
            address: self.address,
            command: self.command,
            data: self.data@,
            preambles: self.preambles,
            frame_expansion: self.frame_expansion@,
            physical_layer: self.physical_layer,
            retry_safety: self.retry_safety,
        }
    }
}

impl Clone for Request {
    fn clone(&self) -> (copy: Self)
        ensures
            copy@ == self@,
    {
        Request {
            address: self.address,
            command: self.command,
            data: copy_bytes(&self.data),
            preambles: self.preambles,
            frame_expansion: copy_bytes(&self.frame_expansion),
            physical_layer: self.physical_layer,
            retry_safety: self.retry_safety,
        }
    }
}

impl RequestView {
    /// A request with five preambles and no further options.
    pub open spec fn plain(address: Address, command: CommandCode, data: Seq<u8>) -> RequestView {
        RequestView {
            address,
            command,
            data,
            preambles: 5,
            frame_expansion: seq![],
            physical_layer: PhysicalLayer::Fsk,
            retry_safety: None,
        }
    }

    /// The payload length on the wire: an expanded command adds its number.
    pub open spec fn wire_length(self) -> int {
        self.data.len() + if self.command.expanded() {
            2int
        } else {
            0int
        }
    }

    /// What keeps the request from fitting a frame, if anything.
    pub open spec fn size_error(self) -> Option<OperationError> {
        if self.wire_length() > 255 {
            Some(
                OperationError::Wire(
                    WireError::PayloadLength(
                        if self.wire_length() > usize::MAX {
                            usize::MAX
                        } else {
                            self.wire_length() as usize
                        },
                    ),
                ),
            )
        } else if self.frame_expansion.len() > 3 {
            Some(
                OperationError::Wire(
                    WireError::ExpansionLength(self.frame_expansion.len() as usize),
                ),
            )
        } else {
            None
        }
    }

    /// The link-layer frame that carries the request.
    pub open spec fn frame(self) -> FrameView {
        FrameView {
            preambles: self.preambles,
            kind: FrameKind::Request,
            physical_layer: self.physical_layer,
            address: self.address,
            expansion: self.frame_expansion,
            wire_command: if self.command.expanded() {
                31
            } else {
                self.command.0 as u8
            },
            payload: if self.command.expanded() {
                be16(self.command.0) + self.data
            } else {
                self.data
            },
            repair: None,
        }
    }
}

impl Request {
    /// Creates a request with five preambles.
    pub fn new<C: CommandNumber>(address: Address, command: C, data: Vec<u8>) -> (request: Self)
        ensures
            request@ == RequestView::plain(address, command.number(), data@),
    {
        let request = Request {
            address,
            command: command.command_code(),
            data,
            preambles: 5,
            frame_expansion: Vec::new(),
            physical_layer: PhysicalLayer::Fsk,
            retry_safety: None,
        };
        assert(request@ =~= RequestView::plain(address, command.number(), data@));
        request
    }

    /// Creates a request and immediately checks its wire-size constraints.
    pub fn try_new<C: CommandNumber>(address: Address, command: C, data: Vec<u8>) -> (result:
        Result<Self, OperationError>)
        ensures
            ({
                let expected = RequestView::plain(address, command.number(), data@);
                match expected.size_error() {
                    Some(error) => result == Err::<Self, OperationError>(error),
                    None => result matches Ok(request) && request@ == expected,
                }
            }),
    {
        let request = Request::new(address, command, data);
        request.validate()?;
        Ok(request)
    }

    /// Sets the preamble count.
    pub fn with_preambles(self, preambles: u8) -> (request: Self)
        ensures
            request == (Request { preambles, ..self }),
    {
        Request { preambles, ..self }
    }

    /// Sets the physical mode of the frame.
    pub fn with_physical_layer(self, physical_layer: PhysicalLayer) -> (request: Self)
        ensures
            request == (Request { physical_layer, ..self }),
    {
        Request { physical_layer, ..self }
    }

    /// Sets up to three link-layer header-extension bytes.
    pub fn with_frame_expansion(self, expansion: Vec<u8>) -> (result: Result<
        Self,
        OperationError,
    >)
        ensures
            result == if expansion@.len() > 3 {
                Err(OperationError::InvalidValue("frame expansion length"))
            } else {
                Ok(Request { frame_expansion: expansion, ..self })
            },
    {
        if expansion.len() > 3 {
            return Err(OperationError::InvalidValue("frame expansion length"));
        }
        Ok(Request { frame_expansion: expansion, ..self })
    }

    /// Declares whether repeating this exact request can safely occur after an uncertain result.
    pub fn with_retry_safety(self, safety: OperationSafety) -> (request: Self)
        ensures
            request == (Request { retry_safety: Some(safety), ..self }),
    {
        Request { retry_safety: Some(safety), ..self }
    }

    /// Validates frame-size fields without cloning or encoding request data.
    pub fn validate(&self) -> (result: Result<(), OperationError>)
        ensures
            result == match self@.size_error() {
                Some(error) => Err(error),
                None => Ok(()),
            },
    {
        let service_bytes: usize = if self.command.is_expanded() {
            2
        } else {
            0
        };
        let payload_len: usize = self.data.len().saturating_add(service_bytes);
        if payload_len > 255 {
            return Err(OperationError::Wire(WireError::PayloadLength(payload_len)));
        }
        if self.frame_expansion.len() > 3 {
            return Err(
                OperationError::Wire(WireError::ExpansionLength(self.frame_expansion.len())),
            );
        }
        Ok(())
    }

    /// Converts the request into a link-layer frame.
    pub fn to_frame(&self) -> (result: Result<Frame, OperationError>)
        ensures
            match self@.size_error() {
                Some(error) => result == Err::<Frame, OperationError>(error),
                None => result matches Ok(frame) && frame@ == self@.frame()
                    && frame@.encode_error() is None,
            },
    {
        self.validate()?;
        let mut payload: Vec<u8> = Vec::new();
        let wire_command: u8 = if self.command.is_expanded() {
            push16(&mut payload, self.command.0);
            31
        } else {
            self.command.0 as u8
        };
        append_bytes(&mut payload, &self.data);
        assert(payload@ =~= self@.frame().payload);
        Ok(
            Frame {
                preambles: self.preambles,
                kind: FrameKind::Request,
                physical_layer: self.physical_layer,
                address: self.address,
                expansion: copy_bytes(&self.frame_expansion),
                wire_command,
                payload,
                repair: None,
            },
        )
    }
}

/// Validated device response with a normalized command number.
#[derive(Debug, PartialEq, Eq)]
pub struct DeviceReply {
    /// Address carried by the response.
    pub address: Address,
    /// Logical command number.
    pub command: CommandCode,
    /// Operation result code.
    pub response_code: u8,
    /// Device status bits.
    pub device_status: u8,
    /// Application payload without service bytes.
    pub data: Vec<u8>,
    /// Whether the response was an unsolicited message.
    pub burst: bool,
    /// Physical mode of the received frame.
    pub physical_layer: PhysicalLayer,
    /// Preamble count of the received frame.
    pub response_preambles: u8,
    /// Link-layer header extension bytes.
    pub frame_expansion: Vec<u8>,
}

/// What a reply holds, with its byte vectors as sequences.
#[verifier::ext_equal]
pub struct ReplyView {
    pub address: Address,
    pub command: CommandCode,
    pub response_code: u8,
    pub device_status: u8,
    pub data: Seq<u8>,
    pub burst: bool,
    pub physical_layer: PhysicalLayer,
    pub response_preambles: u8,
    pub frame_expansion: Seq<u8>,
}

impl View for DeviceReply {
    type V = ReplyView;

    open spec fn view(&self) -> ReplyView {
        ReplyView {
            address: self.address,
            command: self.command,
            response_code: self.response_code,
            device_status: self.device_status,
            data: self.data@,
            burst: self.burst,
            physical_layer: self.physical_layer,
            response_preambles: self.response_preambles,
            frame_expansion: self.frame_expansion@,
        }
    }
}

impl Clone for DeviceReply {
    fn clone(&self) -> (copy: Self)
        ensures
            copy@ == self@,
    {
        DeviceReply {
            address: self.address,
            command: self.command,
            response_code: self.response_code,
            device_status: self.device_status,
            data: copy_bytes(&self.data),
            burst: self.burst,
            physical_layer: self.physical_layer,
            response_preambles: self.response_preambles,
            frame_expansion: copy_bytes(&self.frame_expansion),
        }
    }
}

impl ReplyView {
    /// The reply that a frame carries, or what is wrong with the frame.
    pub open spec fn of_frame(frame: FrameView) -> Result<ReplyView, OperationError> {
        if frame.kind is Request {
            Err(OperationError::InvalidValue("response frame type"))
        } else if frame.payload.len() < 2 {
            Err(
                OperationError::Truncated {
                    field: "response code and status",
                    offset: frame.payload.len() as usize,
                },
            )
        } else if frame.wire_command == 31 && frame.payload.len() < 4 {
            Err(
                OperationError::Truncated {
                    field: "expanded command number",
                    offset: frame.payload.len() as usize,
                },
            )
        } else {
            let expanded = frame.wire_command == 31;
            Ok(
                ReplyView {
                    address: frame.address,
                    command: if expanded {
                        CommandCode(from_be16(frame.payload[2], frame.payload[3]))
                    } else {
                        CommandCode(frame.wire_command as u16)
                    },
                    response_code: frame.payload[0],
                    device_status: frame.payload[1],
                    data: frame.payload.skip(
                        if expanded {
                            4
                        } else {
                            2
                        },
                    ),
                    burst: frame.kind is Burst,
                    physical_layer: frame.physical_layer,
                    response_preambles: frame.preambles,
                    frame_expansion: frame.expansion,
                },
            )
        }
    }

    /// The reply names another command.
    pub open spec fn command_error(self, expected: CommandCode) -> Option<OperationError> {
        if self.command != expected {
            Some(OperationError::CommandMismatch { expected: expected.0, actual: self.command.0 })
        } else {
            None
        }
    }

    /// The first status byte is a link communication-error summary.
    pub open spec fn communication_error(self) -> bool {
        self.response_code & 0x80 != 0
    }

    /// The same reply with the response code of a success.
    pub open spec fn as_success(self) -> ReplyView {
        ReplyView { response_code: 0, ..self }
    }

    /// What keeps the reply from being a plain success of a command, if anything.
    pub open spec fn status_error(self, expected: CommandCode) -> Option<OperationError> {
        self.error_accepting(expected, seq![])
    }

    /// The same, where some application codes are accepted as warnings.
    pub open spec fn error_accepting(self, expected: CommandCode, warnings: Seq<u8>) -> Option<
        OperationError,
    > {
        if self.command != expected {
            self.command_error(expected)
        } else if self.communication_error() {
            Some(
                OperationError::CommunicationStatus {
                    summary: self.response_code,
                    status: self.device_status,
                },
            )
        } else if self.response_code != 0 && !warnings.contains(self.response_code) {
            Some(
                OperationError::DeviceStatus {
                    code: self.response_code,
                    status: self.device_status,
                },
            )
        } else {
            None
        }
    }
}

impl DeviceReply {
    /// Decodes a response or unsolicited frame.
    pub fn from_frame(frame: Frame) -> (result: Result<Self, OperationError>)
        ensures
            match ReplyView::of_frame(frame@) {
                Ok(expected) => result matches Ok(reply) && reply@ == expected,
                Err(error) => result == Err::<Self, OperationError>(error),
            },
    {
        if frame.kind == FrameKind::Request {
            return Err(OperationError::InvalidValue("response frame type"));
        }
        let length: usize = frame.payload.len();
        if length < 2 {
            return Err(
                OperationError::Truncated { field: "response code and status", offset: length },
            );
        }
        let (command, data_start): (CommandCode, usize) = if frame.wire_command == 31 {
            if length < 4 {
                return Err(
                    OperationError::Truncated { field: "expanded command number", offset: length },
                );
            }
            (CommandCode(join16(frame.payload[2], frame.payload[3])), 4)
        } else {
            (CommandCode(frame.wire_command as u16), 2)
        };
        let data = copy_range(&frame.payload, data_start, length);
        assert(data@ =~= frame.payload@.skip(data_start as int));
        Ok(
            DeviceReply {
                address: frame.address,
                command,
                response_code: frame.payload[0],
                device_status: frame.payload[1],
                data,
                burst: frame.kind == FrameKind::Burst,
                physical_layer: frame.physical_layer,
                response_preambles: frame.preambles,
                frame_expansion: frame.expansion,
            },
        )
    }

    /// Validates the command and ensures that the device reported no error.
    pub fn require_success(&self, expected: CommandCode) -> (result: Result<(), OperationError>)
        ensures
            result == match self@.status_error(expected) {
                Some(error) => Err(error),
                None => Ok(()),
            },
    {
        self.require_command(expected)?;
        if self.response_code & 0x80 != 0 {
            return Err(
                OperationError::CommunicationStatus {
                    summary: self.response_code,
                    status: self.device_status,
                },
            );
        }
        if self.response_code != 0 {
            return Err(
                OperationError::DeviceStatus {
                    code: self.response_code,
                    status: self.device_status,
                },
            );
        }
        Ok(())
    }

    /// Validates only the logical command, preserving every response status for the caller.
    pub fn require_command(&self, expected: CommandCode) -> (result: Result<(), OperationError>)
        ensures
            result == match self@.command_error(expected) {
                Some(error) => Err(error),
                None => Ok(()),
            },
    {
        if self.command != expected {
            return Err(
                OperationError::CommandMismatch {
                    expected: expected.get(),
                    actual: self.command.get(),
                },
            );
        }
        Ok(())
    }

    /// Reports whether the first status byte is a link communication-error summary.
    pub fn has_communication_error(&self) -> (error: bool)
        ensures
            error == self@.communication_error(),
    {
        self.response_code & 0x80 != 0
    }

    /// Reports an exact successful application response.
    pub fn is_success(&self) -> (success: bool)
        ensures
            success == (self.response_code == 0),
    {
        self.response_code == 0
    }
}

/// Typed value accompanied by the exact device result bytes that allowed its decoding.
#[derive(Debug, Clone, PartialEq)]
pub struct CommandOutcome<T> {
    /// Decoded command-specific value.
    pub value: T,
    /// Original seven-bit application response code.
    pub response_code: u8,
    /// Original device-status byte.
    pub device_status: u8,
}

impl<T> CommandOutcome<T> {
    /// Reports whether the accepted result was accompanied by a warning.
    pub fn is_warning(&self) -> (warning: bool)
        ensures
            warning == (self.response_code != 0),
    {
        self.response_code != 0
    }
}

/// Typed operation performed on a device.
pub trait Operation: Sized {
    /// Result of successful response decoding.
    type Output;

    /// The logical command number.
    spec fn code(&self) -> CommandCode;

    /// The retry semantics of the operation.
    spec fn safety(&self) -> OperationSafety;

    /// The request data, or what keeps the operation from being encoded.
    spec fn payload(&self) -> Result<Seq<u8>, OperationError>;

    /// Whether a result is what a reply decodes to.
    spec fn decodes(&self, reply: ReplyView, result: Result<Self::Output, OperationError>) -> bool;

    /// Returns the logical command number.
    fn command(&self) -> (code: CommandCode)
        ensures
            code == self.code(),
    ;

    /// Returns the retry semantics used when building a request.
    fn retry_safety(&self) -> (safety: OperationSafety)
        ensures
            safety == self.safety(),
    ;

    /// Encodes request data.
    fn encode_request(&self, writer: &mut PayloadWriter) -> (result: Result<(), OperationError>)
        ensures
            match self.payload() {
                Ok(bytes) => result is Ok && final(writer)@ == old(writer)@ + bytes,
                Err(error) => result == Err::<(), OperationError>(error) && final(writer)@ == old(
                    writer,
                )@,
            },
    ;

    /// Decodes application response data.
    fn decode_reply(&self, reply: &DeviceReply) -> (result: Result<Self::Output, OperationError>)
        ensures
            self.decodes(reply@, result),
    ;

    /// Decodes a success or one of the explicitly accepted command-specific warning codes.
    ///
    /// Warning meaning is not inferred from a broad numeric range. Callers should obtain the
    /// accepted list from what is published of the command, or from exact-revision DeviceInfo.
    fn decode_reply_accepting(&self, reply: &DeviceReply, accepted_warnings: &[u8]) -> (result:
        Result<CommandOutcome<Self::Output>, OperationError>)
        ensures
            match reply@.error_accepting(self.code(), accepted_warnings@) {
                Some(error) => result == Err::<CommandOutcome<Self::Output>, OperationError>(error),
                None => exists|inner: Result<Self::Output, OperationError>|
                    #[trigger] self.decodes(reply@.as_success(), inner)
                        && result == match inner {
                        Ok(value) => Ok(
                            CommandOutcome {
                                value,
                                response_code: reply.response_code,
                                device_status: reply.device_status,
                            },
                        ),
                        Err(error) => Err(error),
                    },
            },
    {
        reply.require_command(self.command())?;
        if reply.has_communication_error() {
            return Err(
                OperationError::CommunicationStatus {
                    summary: reply.response_code,
                    status: reply.device_status,
                },
            );
        }
        if reply.response_code != 0 && !crate::bytes::contains_byte(
            accepted_warnings,
            reply.response_code,
        ) {
            return Err(
                OperationError::DeviceStatus {
                    code: reply.response_code,
                    status: reply.device_status,
                },
            );
        }
        let mut accepted = reply.clone();
        accepted.response_code = 0;
        assert(accepted@ =~= reply@.as_success());
        let inner = self.decode_reply(&accepted);
        let ghost decoded = inner;
        assert(self.decodes(reply@.as_success(), decoded));
        match inner {
            Ok(value) => Ok(
                CommandOutcome {
                    value,
                    response_code: reply.response_code,
                    device_status: reply.device_status,
                },
            ),
            Err(error) => Err(error),
        }
    }

    /// Creates a complete request for the supplied address.
    fn request(&self, address: Address) -> (result: Result<Request, OperationError>)
        default_ensures
            match self.payload() {
                Ok(bytes) => result matches Ok(request) && request@ == (RequestView {
                    retry_safety: Some(self.safety()),
                    ..RequestView::plain(address, self.code(), bytes)
                }),
                Err(error) => result == Err::<Request, OperationError>(error),
            },
    {
        let mut writer = PayloadWriter::new();
        self.encode_request(&mut writer)?;
        let data = writer.finish();
        assert(self.payload() matches Ok(bytes) ==> data@ =~= bytes);
        Ok(Request::new(address, self.command(), data).with_retry_safety(self.retry_safety()))
    }
}

/// Raw operation with no assumptions about the vendor payload format.
#[derive(Debug, PartialEq, Eq)]
pub struct RawOperation {
    /// Logical command number.
    pub command: CommandCode,
    /// Request data.
    pub data: Vec<u8>,
    /// Declared retry semantics.
    pub retry_safety: OperationSafety,
}

impl RawOperation {
    /// Creates an arbitrary standard or expanded command.
    pub fn new<C: CommandNumber>(command: C, data: Vec<u8>) -> (operation: Self)
        ensures
            operation == (RawOperation {
                command: command.number(),
                data,
                retry_safety: OperationSafety::Action,
            }),
    {
        RawOperation {
            command: command.command_code(),
            data,
            retry_safety: OperationSafety::Action,
        }
    }

    /// Creates a read-only vendor command that may be retried and coalesced safely.
    pub fn read<C: CommandNumber>(command: C, data: Vec<u8>) -> (operation: Self)
        ensures
            operation == (RawOperation {
                command: command.number(),
                data,
                retry_safety: OperationSafety::ReadOnly,
            }),
    {
        RawOperation::new(command, data).with_retry_safety(OperationSafety::ReadOnly)
    }

    /// Creates an idempotent write that may be repeated after an uncertain result.
    pub fn idempotent_write<C: CommandNumber>(command: C, data: Vec<u8>) -> (operation: Self)
        ensures
            operation == (RawOperation {
                command: command.number(),
                data,
                retry_safety: OperationSafety::IdempotentWrite,
            }),
    {
        RawOperation::new(command, data).with_retry_safety(OperationSafety::IdempotentWrite)
    }

    /// Creates a one-shot action that is never retried after a completed transmission.
    pub fn action<C: CommandNumber>(command: C, data: Vec<u8>) -> (operation: Self)
        ensures
            operation == (RawOperation {
                command: command.number(),
                data,
                retry_safety: OperationSafety::Action,
            }),
    {
        RawOperation::new(command, data)
    }

    /// Declares retry semantics for a vendor operation whose exact behavior is known.
    pub fn with_retry_safety(self, safety: OperationSafety) -> (operation: Self)
        ensures
            operation == (RawOperation { retry_safety: safety, ..self }),
    {
        RawOperation { retry_safety: safety, ..self }
    }
}

impl Clone for RawOperation {
    fn clone(&self) -> (copy: Self)
        ensures
            copy.command == self.command,
            copy.data@ == self.data@,
            copy.retry_safety == self.retry_safety,
    {
        RawOperation {
            command: self.command,
            data: copy_bytes(&self.data),
            retry_safety: self.retry_safety,
        }
    }
}

/// What a raw command decodes to: the reply itself, if it names the command.
pub open spec fn raw_reply(
    command: CommandCode,
    reply: ReplyView,
    result: Result<DeviceReply, OperationError>,
) -> bool {
    match reply.command_error(command) {
        Some(error) => result == Err::<DeviceReply, OperationError>(error),
        None => result matches Ok(value) && value@ == reply,
    }
}

impl Operation for RawOperation {
    type Output = DeviceReply;

    open spec fn code(&self) -> CommandCode {
        self.command
    }

    open spec fn safety(&self) -> OperationSafety {
        self.retry_safety
    }

    open spec fn payload(&self) -> Result<Seq<u8>, OperationError> {
        Ok(self.data@)
    }

    open spec fn decodes(
        &self,
        reply: ReplyView,
        result: Result<DeviceReply, OperationError>,
    ) -> bool {
        raw_reply(self.command, reply, result)
    }

    fn command(&self) -> CommandCode {
        self.command
    }

    fn retry_safety(&self) -> OperationSafety {
        self.retry_safety
    }

    fn encode_request(&self, writer: &mut PayloadWriter) -> Result<(), OperationError> {
        writer.bytes(&self.data);
        Ok(())
    }

    fn request(&self, address: Address) -> (result: Result<Request, OperationError>)
        ensures
            if self.data@.len() > (if self.command.expanded() {
                253int
            } else {
                255int
            }) {
                result == Err::<Request, OperationError>(
                    OperationError::RequestLength {
                        command: self.command.0,
                        actual: self.data@.len() as usize,
                    },
                )
            } else {
                result matches Ok(request) && request@ == (RequestView {
                    retry_safety: Some(self.retry_safety),
                    ..RequestView::plain(address, self.command, self.data@)
                })
            },
    {
        let maximum: usize = if self.command.is_expanded() {
            253
        } else {
            255
        };
        if self.data.len() > maximum {
            return Err(
                OperationError::RequestLength {
                    command: self.command.get(),
                    actual: self.data.len(),
                },
            );
        }
        let data = copy_bytes(&self.data);
        Ok(Request::new(address, self.command, data).with_retry_safety(self.retry_safety))
    }

    fn decode_reply(&self, reply: &DeviceReply) -> Result<DeviceReply, OperationError> {
        reply.require_command(self.command)?;
        Ok(reply.clone())
    }
}

/// Raw command validated against a known request length.
#[derive(Debug, Clone, PartialEq, Eq)]
pub struct CheckedOperation {
    command: CommandCode,
    data: Vec<u8>,
    retry_safety: OperationSafety,
}

/// Whether a request of the given length fits one frame and the declared constraint.
pub open spec fn fits_command(command: CommandCode, length: int) -> bool {
    &&& length <= if command.expanded() {
        253int
    } else {
        255int
    }
    &&& declared_constraint(command.0).accepts(length)
}

impl CheckedOperation {
    /// The request data.
    pub closed spec fn bytes(&self) -> Seq<u8> {
        self.data@
    }

    /// Validates the length against the explicit registry and preserves the original data.
    pub fn new<C: CommandNumber>(command: C, data: Vec<u8>) -> (result: Result<
        Self,
        OperationError,
    >)
        ensures
            if fits_command(command.number(), data@.len() as int) {
                result matches Ok(operation) && operation.code() == command.number()
                    && operation.bytes() == data@ && operation.safety() == declared_safety(
                    command.number().0,
                )
            } else {
                result == Err::<Self, OperationError>(
                    OperationError::RequestLength {
                        command: command.number().0,
                        actual: data@.len() as usize,
                    },
                )
            },
    {
        let command = command.command_code();
        let fits_frame = if command.is_expanded() {
            data.len() <= 253
        } else {
            data.len() <= 255
        };
        if !fits_frame || !request_constraint(command).allows(data.len()) {
            return Err(
                OperationError::RequestLength { command: command.get(), actual: data.len() },
            );
        }
        let retry_safety = registered_safety(command);
        Ok(CheckedOperation { command, data, retry_safety })
    }

    /// Overrides retry semantics after validating them against what the device documents.
    pub fn with_retry_safety(self, safety: OperationSafety) -> (operation: Self)
        ensures
            operation.code() == self.code(),
            operation.bytes() == self.bytes(),
            operation.safety() == safety,
    {
        CheckedOperation { retry_safety: safety, ..self }
    }
}

impl Operation for CheckedOperation {
    type Output = DeviceReply;

    closed spec fn code(&self) -> CommandCode {
        self.command
    }

    closed spec fn safety(&self) -> OperationSafety {
        self.retry_safety
    }

    open spec fn payload(&self) -> Result<Seq<u8>, OperationError> {
        Ok(self.bytes())
    }

    open spec fn decodes(
        &self,
        reply: ReplyView,
        result: Result<DeviceReply, OperationError>,
    ) -> bool {
        raw_reply(self.code(), reply, result)
    }

    fn command(&self) -> CommandCode {
        self.command
    }

    fn retry_safety(&self) -> OperationSafety {
        self.retry_safety
    }

    fn encode_request(&self, writer: &mut PayloadWriter) -> Result<(), OperationError> {
        writer.bytes(&self.data);
        Ok(())
    }

    fn decode_reply(&self, reply: &DeviceReply) -> Result<DeviceReply, OperationError> {
        reply.require_command(self.command)?;
        Ok(reply.clone())
    }
}

} // verus!
