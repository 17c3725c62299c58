//! HART-IP packet transport and managed session.
//!
//! The session decides; its owner moves bytes. Every step that waits for a
//! stream is split into what is handed to the stream and what follows from the
//! outcome.

use std::collections::VecDeque;

use vstd::prelude::*;

use crate::bytes::{
    append_bytes, append_queue, be16, be32, copy_bytes, copy_range, drain_front, from_be16, join16,
    lemma_be16_round_trip, push16, push32,
};
use crate::channel::ChannelError;
use crate::counters::counted;
use crate::digits::{append_decimal, append_hex_byte, decimal, hex_byte};
use crate::time::Duration;

verus! {

/// Standard HART-IP server port.
pub const DEFAULT_PORT: u16 = 5094;

/// HART-IP protocol version used by the public Version 1 packet format.
pub const PROTOCOL_VERSION_1: u8 = 1;

/// Largest body representable by the 16-bit HART-IP packet length.
pub const MAXIMUM_IP_BODY_BYTES: usize = 65_527;

/// Hard upper bound for retained Publish packet metadata.
pub const MAXIMUM_IP_PUBLISHED_PACKETS: usize = 4096;

/// Hard upper bound for stale non-Publish packets skipped by one exchange.
pub const MAXIMUM_IP_UNMATCHED_PACKETS: usize = 4096;

/// Hard upper bound in nanoseconds for direct HART-IP I/O and exchange deadlines.
pub const MAXIMUM_IP_TIMEOUT: u128 = 86_400_000_000_000;

/// Default aggregate Publish payload retention limit.
pub const DEFAULT_MAXIMUM_IP_PUBLISHED_BYTES: usize = 1024 * 1024;

/// Hard upper bound for retained Publish payload bytes.
pub const MAXIMUM_IP_PUBLISHED_BYTES: usize = 64 * 1024 * 1024;

/// HART-IP message type carried in the low nibble of header byte 1.
#[derive(Debug, Clone, Copy, PartialEq, Eq, Structural)]
pub enum MessageType {
    /// Client request.
    Request,
    /// Server response.
    Response,
    /// Published device message.
    Publish,
    /// Negative acknowledgement.
    Nak,
}

impl MessageType {
    /// The number of the type in a header.
    pub open spec fn number(self) -> u8 {
        match self {
            MessageType::Request => 0,
            MessageType::Response => 1,
            MessageType::Publish => 2,
            MessageType::Nak => 15,
        }
    }

    /// The type with a number, if there is one.
    pub open spec fn numbered(value: u8) -> Option<MessageType> {
        if value == 0 {
            Some(MessageType::Request)
        } else if value == 1 {
            Some(MessageType::Response)
        } else if value == 2 {
            Some(MessageType::Publish)
        } else if value == 15 {
            Some(MessageType::Nak)
        } else {
            None
        }
    }

    /// The name of the type in diagnostics.
    pub open spec fn name(self) -> Seq<char> {
        match self {
            MessageType::Request => "Request"@,
            MessageType::Response => "Response"@,
            MessageType::Publish => "Publish"@,
            MessageType::Nak => "Nak"@,
        }
    }

    /// Finds the type with a number.
    pub fn try_from(value: u8) -> (result: Result<Self, IpError>)
        ensures
            result == match MessageType::numbered(value) {
                Some(message_type) => Ok::<Self, IpError>(message_type),
                None => Err(IpError::MessageType(value)),
            },
    {
        match value {
            0 => Ok(MessageType::Request),
            1 => Ok(MessageType::Response),
            2 => Ok(MessageType::Publish),
            15 => Ok(MessageType::Nak),
            _ => Err(IpError::MessageType(value)),
        }
    }

    fn code(self) -> (value: u8)
        ensures
            value == self.number(),
    {
        match self {
            MessageType::Request => 0,
            MessageType::Response => 1,
            MessageType::Publish => 2,
            MessageType::Nak => 15,
        }
    }

    fn append_name(self, message: &mut String)
        ensures
            final(message)@ == old(message)@ + self.name(),
    {
        match self {
            MessageType::Request => message.append("Request"),
            MessageType::Response => message.append("Response"),
            MessageType::Publish => message.append("Publish"),
            MessageType::Nak => message.append("Nak"),
        }
    }
}

/// Standard HART-IP Version 1 message identifier.
#[derive(Debug, Clone, Copy, PartialEq, Eq, Structural)]
pub enum MessageId {
    /// Opens a logical client session.
    SessionInitiate,
    /// Closes a logical client session.
    SessionClose,
    /// Prevents inactivity expiration.
    KeepAlive,
    /// Carries a traditional HART token-passing PDU.
    TokenPassingPdu,
}

impl MessageId {
    /// The number of the identifier in a header.
    pub open spec fn number(self) -> u8 {
        match self {
            MessageId::SessionInitiate => 0,
            MessageId::SessionClose => 1,
            MessageId::KeepAlive => 2,
            MessageId::TokenPassingPdu => 3,
        }
    }

    /// Returns the number of the identifier in a header.
    pub fn code(self) -> (value: u8)
        ensures
            value == self.number(),
    {
        match self {
            MessageId::SessionInitiate => 0,
            MessageId::SessionClose => 1,
            MessageId::KeepAlive => 2,
            MessageId::TokenPassingPdu => 3,
        }
    }
}

impl From<MessageId> for u8 {
    fn from(value: MessageId) -> (code: u8) {
        value.code()
    }
}

impl vstd::std_specs::convert::FromSpecImpl<MessageId> for u8 {
    open spec fn obeys_from_spec() -> bool {
        true
    }

    open spec fn from_spec(value: MessageId) -> u8 {
        value.number()
    }
}

/// One validated HART-IP packet.
#[derive(Debug, PartialEq, Eq)]
pub struct IpPacket {
    /// Packet-protocol version.
    pub version: u8,
    /// Message purpose.
    pub message_type: MessageType,
    /// Application-message identifier.
    pub message_id: u8,
    /// Packet-processing status.
    pub status: u8,
    /// Session sequence number.
    pub sequence: u16,
    /// Packet payload.
    pub body: Vec<u8>,
}

/// What a packet holds, with its body as a sequence.
#[verifier::ext_equal]
pub struct PacketView {
    pub version: u8,
    pub message_type: MessageType,
    pub message_id: u8,
    pub status: u8,
    pub sequence: u16,
    pub body: Seq<u8>,
}

impl View for IpPacket {
    type V = PacketView;

    open spec fn view(&self) -> PacketView {
        PacketView {
            version: self.version,
            message_type: self.message_type,
            message_id: self.message_id,
            status: self.status,
            sequence: self.sequence,
            body: self.body@,
        }
    }
}

impl Clone for IpPacket {
    fn clone(&self) -> (copy: Self)
        ensures
            copy@ == self@,
    {
        IpPacket {
            version: self.version,
            message_type: self.message_type,
            message_id: self.message_id,
            status: self.status,
            sequence: self.sequence,
            body: copy_bytes(&self.body),
        }
    }
}

impl PacketView {
    /// Header and body in network byte order.
    pub open spec fn encoded(self) -> Seq<u8> {
        seq![self.version, self.message_type.number(), self.message_id, self.status] + be16(
            self.sequence,
        ) + be16((8 + self.body.len()) as u16) + self.body
    }

    /// The packet that a byte sequence stands for, or why there is none.
    pub open spec fn decoded(bytes: Seq<u8>, maximum_body: nat) -> Result<PacketView, IpError> {
        if bytes.len() < 8 {
            Err(IpError::Truncated)
        } else {
            let declared = from_be16(bytes[6], bytes[7]);
            if declared != bytes.len() {
                Err(
                    IpError::PacketLength {
                        declared: declared as usize,
                        actual: bytes.len() as usize,
                    },
                )
            } else if bytes.len() - 8 > maximum_body {
                Err(IpError::BodyLimit((bytes.len() - 8) as usize))
            } else if bytes[1] >= 16 {
                Err(IpError::ReservedMessageBits((bytes[1] / 16 * 16) as u8))
            } else {
                match MessageType::numbered(bytes[1]) {
                    None => Err(IpError::MessageType(bytes[1])),
                    Some(message_type) => Ok(
                        PacketView {
                            version: bytes[0],
                            message_type,
                            message_id: bytes[2],
                            status: bytes[3],
                            sequence: from_be16(bytes[4], bytes[5]),
                            body: bytes.skip(8),
                        },
                    ),
                }
            }
        }
    }
}

/// Decoding an encoded packet gives the packet back.
pub proof fn lemma_packet_round_trip(packet: PacketView, maximum_body: nat)
    requires
        packet.body.len() <= maximum_body,
        packet.body.len() <= MAXIMUM_IP_BODY_BYTES,
    ensures
        PacketView::decoded(packet.encoded(), maximum_body) == Ok::<PacketView, IpError>(packet),
{
    let bytes = packet.encoded();
    crate::bytes::lemma_be16_round_trip(packet.sequence, 0, 0);
    crate::bytes::lemma_be16_round_trip((8 + packet.body.len()) as u16, 0, 0);
    assert(bytes[4] == be16(packet.sequence)[0]);
    assert(bytes[5] == be16(packet.sequence)[1]);
    assert(bytes[6] == be16((8 + packet.body.len()) as u16)[0]);
    assert(bytes[7] == be16((8 + packet.body.len()) as u16)[1]);
    assert(bytes.skip(8) =~= packet.body);
}

/// Encoding a decoded packet gives the bytes back.
pub proof fn lemma_decoded_packet_encodes_back(bytes: Seq<u8>, maximum_body: nat)
    requires
        PacketView::decoded(bytes, maximum_body) is Ok,
    ensures
        PacketView::decoded(bytes, maximum_body)->Ok_0.encoded() == bytes,
{
    let packet = PacketView::decoded(bytes, maximum_body)->Ok_0;
    crate::bytes::lemma_be16_round_trip(0, bytes[4], bytes[5]);
    crate::bytes::lemma_be16_round_trip(0, bytes[6], bytes[7]);
    assert(packet.encoded() =~= bytes);
}

impl IpPacket {
    /// Fixed-header length.
    pub const HEADER_SIZE: usize = 8;

    /// Encodes the header and body in network byte order.
    pub fn encode(&self) -> (result: Result<Vec<u8>, IpError>)
        ensures
            if self@.body.len() > MAXIMUM_IP_BODY_BYTES {
                result == Err::<Vec<u8>, IpError>(IpError::Length(self@.body.len() as usize))
            } else {
                result matches Ok(bytes) && bytes@ == self@.encoded()
            },
    {
        let length: usize = self.body.len();
        if length > MAXIMUM_IP_BODY_BYTES {
            return Err(IpError::Length(length));
        }
        let total: u16 = (8 + length) as u16;
        let mut bytes: Vec<u8> = Vec::new();
        bytes.push(self.version);
        bytes.push(self.message_type.code());
        bytes.push(self.message_id);
        bytes.push(self.status);
        push16(&mut bytes, self.sequence);
        push16(&mut bytes, total);
        append_bytes(&mut bytes, &self.body);
        assert(bytes@ =~= self@.encoded());
        Ok(bytes)
    }

    /// Decodes exactly one complete packet.
    pub fn decode(bytes: &[u8], maximum_body: usize) -> (result: Result<Self, IpError>)
        ensures
            match PacketView::decoded(bytes@, maximum_body as nat) {
                Ok(packet) => result matches Ok(decoded) && decoded@ == packet,
                Err(error) => result == Err::<Self, IpError>(error),
            },
    {
        let length: usize = bytes.len();
        if length < 8 {
            return Err(IpError::Truncated);
        }
        let total: usize = join16(bytes[6], bytes[7]) as usize;
        if total != length {
            return Err(IpError::PacketLength { declared: total, actual: length });
        }
        let body_length: usize = total - 8;
        if body_length > maximum_body {
            return Err(IpError::BodyLimit(body_length));
        }
        if bytes[1] >= 16 {
            return Err(IpError::ReservedMessageBits(bytes[1] / 16 * 16));
        }
        let message_type = MessageType::try_from(bytes[1])?;
        let body = copy_range(bytes, 8, length);
        assert(body@ =~= bytes@.skip(8));
        Ok(
            IpPacket {
                version: bytes[0],
                message_type,
                message_id: bytes[2],
                status: bytes[3],
                sequence: join16(bytes[4], bytes[5]),
                body,
            },
        )
    }
}

/// Packet-session error.
#[derive(Debug, Clone, PartialEq, Eq)]
pub enum IpError {
    /// Socket error.
    Io {
        /// Whether the error is the expiry of an operating-system timeout.
        timed_out: bool,
        /// What the operating system said.
        message: String,
    },
    /// A packet is truncated.
    Truncated,
    /// Unknown message purpose.
    MessageType(u8),
    /// Reserved high message-type bits are nonzero.
    ReservedMessageBits(u8),
    /// The body does not fit in the length field.
    Length(usize),
    /// The declared length does not match the actual length.
    PacketLength {
        /// Header value.
        declared: usize,
        /// Actual length.
        actual: usize,
    },
    /// The body exceeds the local limit.
    BodyLimit(usize),
    /// A response does not match the session request.
    Sequence,
    /// A peer packet uses a different packet-protocol version.
    ProtocolVersion {
        /// Version emitted by this session.
        expected: u8,
        /// Version received from the peer.
        actual: u8,
    },
    /// The server rejected the request.
    RemoteStatus(u8),
    /// A response uses an unexpected message type.
    UnexpectedMessageType(MessageType),
    /// A logical session is already open.
    AlreadyOpen,
    /// A message requires an open logical session.
    NotOpen,
    /// The inactivity timeout does not fit the Version 1 session request.
    InactivityTimeout,
    /// A configured I/O or exchange deadline expired.
    Timeout(&'static str),
    /// A timeout must allow the session to make progress.
    ZeroTimeout,
    /// A configured deadline is implausibly large.
    TimeoutLimit(&'static str),
    /// A previous cancelled or failed I/O operation left stream framing uncertain.
    StreamUnusable,
}

impl IpError {
    /// The diagnostic text of the error.
    pub open spec fn text(self) -> Seq<char> {
        match self {
            IpError::Io { message, .. } => "I/O error: "@ + message@,
            IpError::Truncated => "HART-IP packet is truncated"@,
            IpError::MessageType(value) => "unknown HART-IP message type "@ + decimal(value as nat),
            IpError::ReservedMessageBits(bits) =>
            "reserved HART-IP message-type bits are nonzero: "@ + hex_byte(bits),
            IpError::Length(length) => "body length "@ + decimal(length as nat)
                + " does not fit in a packet"@,
            IpError::PacketLength { declared, actual } => "packet declared length "@ + decimal(
                declared as nat,
            ) + ", but "@ + decimal(actual as nat) + " bytes were received"@,
            IpError::BodyLimit(length) => decimal(length as nat)
                + "-byte HART-IP body exceeds the configured limit"@,
            IpError::Sequence =>
            "too many HART-IP responses did not match the expected sequence and message ID"@,
            IpError::ProtocolVersion { expected, actual } => "expected HART-IP protocol version "@
                + decimal(expected as nat) + ", received "@ + decimal(actual as nat),
            IpError::RemoteStatus(status) => "HART-IP server returned status "@ + decimal(
                status as nat,
            ),
            IpError::UnexpectedMessageType(message_type) =>
            "HART-IP server returned unexpected message type "@ + message_type.name(),
            IpError::AlreadyOpen => "HART-IP session is already open"@,
            IpError::NotOpen => "HART-IP session is not open"@,
            IpError::InactivityTimeout =>
            "HART-IP inactivity timeout does not fit in milliseconds"@,
            IpError::Timeout(operation) => "HART-IP "@ + operation@ + " timeout expired"@,
            IpError::ZeroTimeout => "HART-IP timeout must be greater than zero"@,
            IpError::TimeoutLimit(operation) => "HART-IP "@ + operation@
                + " timeout exceeds the supported limit"@,
            IpError::StreamUnusable =>
            "HART-IP stream must be reconnected after an indeterminate I/O result"@,
        }
    }

    /// Renders the error for a diagnostic.
    pub fn message(&self) -> (message: String)
        ensures
            message@ == self.text(),
    {
        match self {
            IpError::Io { message: reason, .. } => {
                let mut message = String::from_str("I/O error: ");
                message.append(reason.as_str());
                message
            },
            IpError::Truncated => String::from_str("HART-IP packet is truncated"),
            IpError::MessageType(value) => {
                let mut message = String::from_str("unknown HART-IP message type ");
                append_decimal(&mut message, *value as u64);
                message
            },
            IpError::ReservedMessageBits(bits) => {
                let mut message = String::from_str(
                    "reserved HART-IP message-type bits are nonzero: ",
                );
                append_hex_byte(&mut message, *bits);
                message
            },
            IpError::Length(length) => {
                let mut message = String::from_str("body length ");
                append_decimal(&mut message, *length as u64);
                message.append(" does not fit in a packet");
                message
            },
            IpError::PacketLength { declared, actual } => {
                let mut message = String::from_str("packet declared length ");
                append_decimal(&mut message, *declared as u64);
                message.append(", but ");
                append_decimal(&mut message, *actual as u64);
                message.append(" bytes were received");
                message
            },
            IpError::BodyLimit(length) => {
                let mut message = String::new();
                append_decimal(&mut message, *length as u64);
                message.append("-byte HART-IP body exceeds the configured limit");
                assert(message@ =~= self.text());
                message
            },
            IpError::Sequence => String::from_str(
                "too many HART-IP responses did not match the expected sequence and message ID",
            ),
            IpError::ProtocolVersion { expected, actual } => {
                let mut message = String::from_str("expected HART-IP protocol version ");
                append_decimal(&mut message, *expected as u64);
                message.append(", received ");
                append_decimal(&mut message, *actual as u64);
                message
            },
            IpError::RemoteStatus(status) => {
                let mut message = String::from_str("HART-IP server returned status ");
                append_decimal(&mut message, *status as u64);
                message
            },
            IpError::UnexpectedMessageType(message_type) => {
                let mut message = String::from_str(
                    "HART-IP server returned unexpected message type ",
                );
                message_type.append_name(&mut message);
                message
            },
            IpError::AlreadyOpen => String::from_str("HART-IP session is already open"),
            IpError::NotOpen => String::from_str("HART-IP session is not open"),
            IpError::InactivityTimeout => String::from_str(
                "HART-IP inactivity timeout does not fit in milliseconds",
            ),
            IpError::Timeout(operation) => {
                let mut message = String::from_str("HART-IP ");
                message.append(operation);
                message.append(" timeout expired");
                message
            },
            IpError::ZeroTimeout => String::from_str("HART-IP timeout must be greater than zero"),
            IpError::TimeoutLimit(operation) => {
                let mut message = String::from_str("HART-IP ");
                message.append(operation);
                message.append(" timeout exceeds the supported limit");
                message
            },
            IpError::StreamUnusable => String::from_str(
                "HART-IP stream must be reconnected after an indeterminate I/O result",
            ),
        }
    }

    /// Turns a session error into a channel error: an I/O error stays one, any
    /// other is a protocol error with its text.
    pub fn into_channel_error(self) -> (error: ChannelError)
        ensures
            match self {
                IpError::Io { timed_out, message } => error == (ChannelError::Io {
                    timed_out,
                    message,
                }),
                _ => error matches ChannelError::Protocol(text) && text@ == self.text(),
            },
    {
        match self {
            IpError::Io { timed_out, message } => ChannelError::Io { timed_out, message },
            other => ChannelError::Protocol(other.message()),
        }
    }
}

/// Parameters of a Version 1 Session-Initiate request.
#[derive(Debug, Clone, Copy, PartialEq, Eq, Structural)]
pub struct SessionOptions {
    /// Server-side inactivity close time.
    pub inactivity_close: Duration,
}

impl Default for SessionOptions {
    fn default() -> (options: Self)
        ensures
            options.inactivity_close.nanos == 60_000_000_000,
    {
        SessionOptions { inactivity_close: Duration::from_secs(60) }
    }
}

/// Deadlines enforced even when [`IpSession`] is used without the queue runner.
#[derive(Debug, Clone, Copy, PartialEq, Eq, Structural)]
pub struct IpTimeouts {
    /// Maximum duration of one complete socket read or write.
    pub io: Duration,
    /// Maximum duration of one request-response exchange, including Publish packets.
    pub exchange: Duration,
}

impl Default for IpTimeouts {
    fn default() -> (timeouts: Self)
        ensures
            timeouts.io.nanos == 10_000_000_000,
            timeouts.exchange.nanos == 30_000_000_000,
            timeouts.violation() is None,
    {
        IpTimeouts { io: Duration::from_secs(10), exchange: Duration::from_secs(30) }
    }
}

impl IpTimeouts {
    /// What is wrong with the deadlines, if anything.
    pub open spec fn violation(self) -> Option<IpError> {
        if self.io.nanos == 0 || self.exchange.nanos == 0 {
            Some(IpError::ZeroTimeout)
        } else if self.io.nanos > MAXIMUM_IP_TIMEOUT {
            Some(IpError::TimeoutLimit("I/O"))
        } else if self.exchange.nanos > MAXIMUM_IP_TIMEOUT {
            Some(IpError::TimeoutLimit("exchange"))
        } else {
            None
        }
    }

    /// Rejects deadlines that cannot make progress or are implausibly large.
    pub fn validate(self) -> (result: Result<(), IpError>)
        ensures
            result == match self.violation() {
                Some(error) => Err::<(), IpError>(error),
                None => Ok(()),
            },
    {
        if self.io.is_zero() || self.exchange.is_zero() {
            return Err(IpError::ZeroTimeout);
        }
        if self.io.nanos > MAXIMUM_IP_TIMEOUT {
            return Err(IpError::TimeoutLimit("I/O"));
        }
        if self.exchange.nanos > MAXIMUM_IP_TIMEOUT {
            return Err(IpError::TimeoutLimit("exchange"));
        }
        Ok(())
    }
}

/// Bounded HART-IP session counters.
#[derive(Debug, Clone, Copy, PartialEq, Eq, Structural)]
pub struct IpSessionSnapshot {
    /// Publish packets currently waiting for the application.
    pub published_queued: usize,
    /// Combined body bytes retained in the Publish queue.
    pub published_bytes: usize,
    /// Publish packets discarded because their queue was disabled or full.
    pub published_dropped: u64,
    /// Stale responses skipped while finding the matching sequence.
    pub unmatched_skipped: u64,
}

impl Default for IpSessionSnapshot {
    fn default() -> (snapshot: Self)
        ensures
            snapshot == (IpSessionSnapshot {
                published_queued: 0,
                published_bytes: 0,
                published_dropped: 0,
                unmatched_skipped: 0,
            }),
    {
        IpSessionSnapshot {
            published_queued: 0,
            published_bytes: 0,
            published_dropped: 0,
            unmatched_skipped: 0,
        }
    }
}

/// Combined body size of packets.
pub open spec fn body_bytes(packets: Seq<IpPacket>) -> nat
    decreases packets.len(),
{
    if packets.len() == 0 {
        0
    } else {
        packets[0].body@.len() + body_bytes(packets.drop_first())
    }
}

proof fn lemma_body_bytes_push(packets: Seq<IpPacket>, packet: IpPacket)
    ensures
        body_bytes(packets.push(packet)) == body_bytes(packets) + packet.body@.len(),
    decreases packets.len(),
{
    reveal_with_fuel(body_bytes, 2);
    if packets.len() == 0 {
        assert(packets.push(packet).drop_first() =~= Seq::<IpPacket>::empty());
    } else {
        assert(packets.push(packet).drop_first() =~= packets.drop_first().push(packet));
        lemma_body_bytes_push(packets.drop_first(), packet);
    }
}

/// How many of the oldest packets leave until the others keep both limits.
pub open spec fn surplus(packets: Seq<IpPacket>, count: nat, bytes: nat) -> nat
    decreases packets.len(),
{
    if packets.len() == 0 || (packets.len() <= count && body_bytes(packets) <= bytes) {
        0
    } else {
        1 + surplus(packets.drop_first(), count, bytes)
    }
}

/// No more packets leave than must: the others keep both limits, and with any
/// more of them a limit would be broken.
pub proof fn lemma_surplus_is_least(packets: Seq<IpPacket>, count: nat, bytes: nat)
    ensures
        surplus(packets, count, bytes) <= packets.len(),
        ({
            let rest = packets.skip(surplus(packets, count, bytes) as int);
            rest.len() <= count && body_bytes(rest) <= bytes
        }),
        forall|fewer: int|
            0 <= fewer < surplus(packets, count, bytes) ==> {
                ||| (#[trigger] packets.skip(fewer)).len() > count
                ||| body_bytes(packets.skip(fewer)) > bytes
            },
    decreases packets.len(),
{
    if packets.len() == 0 || (packets.len() <= count && body_bytes(packets) <= bytes) {
        assert(packets.skip(0) =~= packets);
    } else {
        let rest = packets.drop_first();
        let inner = surplus(rest, count, bytes);
        lemma_surplus_is_least(rest, count, bytes);
        assert(packets.skip(inner as int + 1) =~= rest.skip(inner as int));
        assert forall|fewer: int| 0 <= fewer < inner + 1 implies {
            ||| (#[trigger] packets.skip(fewer)).len() > count
            ||| body_bytes(packets.skip(fewer)) > bytes
        } by {
            if fewer == 0 {
                assert(packets.skip(0) =~= packets);
            } else {
                assert(packets.skip(fewer) =~= rest.skip(fewer - 1));
            }
        }
    }
}

/// What a session holds beside its stream.
#[verifier::ext_equal]
pub struct SessionState {
    /// Sequence number of the next packet that is sent.
    pub next_sequence: u16,
    /// Incoming body limit.
    pub maximum_body: usize,
    /// Version emitted and accepted.
    pub protocol_version: u8,
    /// Whether a logical session is open.
    pub open: bool,
    /// Retained Publish packets, the oldest first.
    pub published: Seq<IpPacket>,
    /// Retained Publish packet limit.
    pub maximum_published: usize,
    /// Retained Publish body-byte limit.
    pub maximum_published_bytes: usize,
    /// Stale-response skip limit.
    pub maximum_unmatched: usize,
    /// Deadlines.
    pub timeouts: IpTimeouts,
    /// Publish packets discarded so far.
    pub published_dropped: u64,
    /// Stale responses skipped so far.
    pub unmatched_skipped: u64,
    /// Whether framed I/O can continue without reconnecting.
    pub usable: bool,
}

impl SessionState {
    /// A session that has not exchanged anything.
    pub open spec fn fresh() -> SessionState {
        SessionState {
            next_sequence: 1,
            maximum_body: 8192,
            protocol_version: PROTOCOL_VERSION_1,
            open: false,
            published: Seq::empty(),
            maximum_published: 128,
            maximum_published_bytes: DEFAULT_MAXIMUM_IP_PUBLISHED_BYTES,
            maximum_unmatched: 16,
            timeouts: IpTimeouts {
                io: Duration { nanos: 10_000_000_000 },
                exchange: Duration { nanos: 30_000_000_000 },
            },
            published_dropped: 0,
            unmatched_skipped: 0,
            usable: true,
        }
    }

    /// The session whose stream cannot be used any more.
    pub open spec fn broken(self) -> SessionState {
        SessionState { usable: false, ..self }
    }

    /// The session without its oldest Publish packets beyond two limits.
    pub open spec fn trimmed(self, count: nat, bytes: nat) -> SessionState {
        let gone = surplus(self.published, count, bytes);
        SessionState {
            published: self.published.skip(gone as int),
            published_dropped: counted(self.published_dropped, gone),
            ..self
        }
    }

    /// The session after a Publish packet arrived during an exchange.
    pub open spec fn retaining(self, packet: IpPacket) -> SessionState {
        let size = packet.body@.len();
        if self.maximum_published == 0 || self.maximum_published_bytes == 0 || size
            > self.maximum_published_bytes {
            SessionState { published_dropped: counted(self.published_dropped, 1), ..self }
        } else {
            let room = self.trimmed(
                (self.maximum_published - 1) as nat,
                (self.maximum_published_bytes - size) as nat,
            );
            SessionState { published: room.published.push(packet), ..room }
        }
    }

    /// Why a packet cannot be sent, if it cannot.
    pub open spec fn send_violation(self, body: Seq<u8>) -> Option<IpError> {
        if !self.usable {
            Some(IpError::StreamUnusable)
        } else if body.len() > MAXIMUM_IP_BODY_BYTES {
            Some(IpError::Length(body.len() as usize))
        } else {
            None
        }
    }

    /// The packet that is sent next.
    pub open spec fn outgoing(
        self,
        message_type: MessageType,
        message_id: u8,
        body: Seq<u8>,
    ) -> PacketView {
        PacketView {
            version: self.protocol_version,
            message_type,
            message_id,
            status: 0,
            sequence: self.next_sequence,
            body,
        }
    }

    /// What a received packet means to an exchange that waits for a response
    /// with a sequence number and a message identifier.
    pub open spec fn meaning(
        self,
        sequence: u16,
        message_id: u8,
        unmatched: usize,
        packet: IpPacket,
    ) -> PacketMeaning {
        if packet.version != self.protocol_version {
            PacketMeaning::Failure(
                IpError::ProtocolVersion {
                    expected: self.protocol_version,
                    actual: packet.version,
                },
            )
        } else if packet.message_type == MessageType::Publish {
            PacketMeaning::Published
        } else if packet.sequence != sequence || packet.message_id != message_id {
            if unmatched >= self.maximum_unmatched {
                PacketMeaning::StaleOverLimit
            } else {
                PacketMeaning::Stale
            }
        } else if packet.message_type == MessageType::Nak {
            PacketMeaning::Failure(IpError::RemoteStatus(packet.status))
        } else if packet.message_type != MessageType::Response {
            PacketMeaning::Failure(IpError::UnexpectedMessageType(packet.message_type))
        } else if packet.status != 0 {
            PacketMeaning::Failure(IpError::RemoteStatus(packet.status))
        } else {
            PacketMeaning::Response
        }
    }
}

/// What a received packet means to a waiting exchange.
pub enum PacketMeaning {
    /// The awaited response.
    Response,
    /// A Publish packet, retained for the application.
    Published,
    /// A stale response that is skipped.
    Stale,
    /// One stale response too many.
    StaleOverLimit,
    /// The exchange failed.
    Failure(IpError),
}

/// How a write or a read on the stream ended.
#[derive(Debug, Clone, PartialEq, Eq)]
pub enum IoFailure {
    /// The stream reported an error.
    Error {
        /// Whether the error is the expiry of an operating-system timeout.
        timed_out: bool,
        /// What the operating system said.
        message: String,
    },
    /// The deadline of the operation passed.
    Deadline,
}

/// What is to be read behind a packet header.
#[derive(Debug, Clone, PartialEq, Eq)]
pub enum ReceivePlan {
    /// A body of this length.
    Body(usize),
    /// A body of this length, to be thrown away.
    Discard(usize),
    /// Nothing: the header is invalid.
    Reject(IpError),
}

/// What came back when a packet was read as planned.
#[derive(Debug, PartialEq, Eq)]
pub enum ReceivedBytes {
    /// Header and body of one packet.
    Packet(Vec<u8>),
    /// A body over the limit was thrown away; its length.
    Discarded(usize),
    /// The header was rejected.
    Rejected(IpError),
    /// The read failed.
    Failed(IoFailure),
}

/// Next step of an exchange after a packet.
#[derive(Debug, PartialEq, Eq)]
pub enum ExchangeStep {
    /// Read another packet.
    Continue,
    /// The exchange is over.
    Done(Result<IpPacket, IpError>),
}

/// A request that waits for its response.
#[derive(Debug, Clone, Copy, PartialEq, Eq, Structural)]
pub struct PendingExchange {
    /// Sequence number of the request.
    pub sequence: u16,
    /// Message identifier of the request.
    pub message_id: u8,
    /// Stale responses skipped so far.
    pub unmatched: usize,
}

/// Packet session over a stream that its owner reads and writes.
#[derive(Debug)]
pub struct IpSession<S> {
    stream: S,
    next_sequence: u16,
    maximum_body: usize,
    protocol_version: u8,
    open: bool,
    published: VecDeque<IpPacket>,
    published_bytes: usize,
    maximum_published: usize,
    maximum_published_bytes: usize,
    maximum_unmatched: usize,
    timeouts: IpTimeouts,
    published_dropped: u64,
    unmatched_skipped: u64,
    usable: bool,
}

impl<S> View for IpSession<S> {
    type V = SessionState;

    closed spec fn view(&self) -> SessionState {
        SessionState {
            next_sequence: self.next_sequence,
            maximum_body: self.maximum_body,
            protocol_version: self.protocol_version,
            open: self.open,
            published: self.published@,
            maximum_published: self.maximum_published,
            maximum_published_bytes: self.maximum_published_bytes,
            maximum_unmatched: self.maximum_unmatched,
            timeouts: self.timeouts,
            published_dropped: self.published_dropped,
            unmatched_skipped: self.unmatched_skipped,
            usable: self.usable,
        }
    }
}

/// The smaller of two numbers.
pub open spec fn at_most(value: usize, limit: usize) -> usize {
    if value > limit {
        limit
    } else {
        value
    }
}

impl<S> IpSession<S> {
    /// The limits are within the hard bounds and kept, the deadlines are
    /// usable, and the retained size is the combined size of the retained
    /// packets.
    pub closed spec fn well_formed(&self) -> bool {
        &&& self.maximum_body <= MAXIMUM_IP_BODY_BYTES
        &&& self.maximum_published <= MAXIMUM_IP_PUBLISHED_PACKETS
        &&& self.maximum_published_bytes <= MAXIMUM_IP_PUBLISHED_BYTES
        &&& self.maximum_unmatched <= MAXIMUM_IP_UNMATCHED_PACKETS
        &&& self.timeouts.violation() is None
        &&& self.protocol_version == PROTOCOL_VERSION_1
        &&& self.published@.len() <= self.maximum_published
        &&& self.published_bytes == body_bytes(self.published@)
        &&& self.published_bytes <= self.maximum_published_bytes
    }

    /// The stream.
    pub closed spec fn carried(&self) -> S {
        self.stream
    }

    /// A session never retains more than its limits allow, and its limits
    /// never exceed the hard bounds.
    pub proof fn lemma_limits_are_kept(&self)
        requires
            self.well_formed(),
        ensures
            self@.maximum_body <= MAXIMUM_IP_BODY_BYTES,
            self@.maximum_published <= MAXIMUM_IP_PUBLISHED_PACKETS,
            self@.maximum_published_bytes <= MAXIMUM_IP_PUBLISHED_BYTES,
            self@.maximum_unmatched <= MAXIMUM_IP_UNMATCHED_PACKETS,
            self@.timeouts.violation() is None,
            self@.protocol_version == PROTOCOL_VERSION_1,
            self@.published.len() <= self@.maximum_published,
            body_bytes(self@.published) <= self@.maximum_published_bytes,
    {
    }

    /// Creates a session over an existing secured or plain stream.
    pub fn new(stream: S) -> (session: Self)
        ensures
            session.well_formed(),
            session.carried() == stream,
            session@ == SessionState::fresh(),
    {
        IpSession {
            stream,
            next_sequence: 1,
            maximum_body: 8192,
            protocol_version: PROTOCOL_VERSION_1,
            open: false,
            published: VecDeque::new(),
            published_bytes: 0,
            maximum_published: 128,
            maximum_published_bytes: DEFAULT_MAXIMUM_IP_PUBLISHED_BYTES,
            maximum_unmatched: 16,
            timeouts: IpTimeouts {
                io: Duration::from_secs(10),
                exchange: Duration::from_secs(30),
            },
            published_dropped: 0,
            unmatched_skipped: 0,
            usable: true,
        }
    }

    /// Sets the incoming-packet body limit.
    pub fn with_maximum_body(self, maximum_body: usize) -> (session: Self)
        requires
            self.well_formed(),
        ensures
            session.well_formed(),
            session.carried() == self.carried(),
            session@ == (SessionState {
                maximum_body: at_most(maximum_body, MAXIMUM_IP_BODY_BYTES),
                ..self@
            }),
    {
        let maximum_body: usize = if maximum_body > MAXIMUM_IP_BODY_BYTES {
            MAXIMUM_IP_BODY_BYTES
        } else {
            maximum_body
        };
        IpSession { maximum_body, ..self }
    }

    /// Sets the maximum number of Publish packets retained while awaiting a response.
    pub fn with_maximum_published(self, maximum_published: usize) -> (session: Self)
        requires
            self.well_formed(),
        ensures
            session.well_formed(),
            session.carried() == self.carried(),
            ({
                let limit = at_most(maximum_published, MAXIMUM_IP_PUBLISHED_PACKETS);
                session@ == (SessionState { maximum_published: limit, ..self@ }).trimmed(
                    limit as nat,
                    self@.maximum_published_bytes as nat,
                )
            }),
    {
        let limit: usize = if maximum_published > MAXIMUM_IP_PUBLISHED_PACKETS {
            MAXIMUM_IP_PUBLISHED_PACKETS
        } else {
            maximum_published
        };
        let bytes: usize = self.maximum_published_bytes;
        let mut session = IpSession { maximum_published: limit, ..self };
        session.trim(limit, bytes);
        session
    }

    /// Sets the aggregate Publish body-byte limit; zero disables retention.
    pub fn with_maximum_published_bytes(self, maximum_published_bytes: usize) -> (session: Self)
        requires
            self.well_formed(),
        ensures
            session.well_formed(),
            session.carried() == self.carried(),
            ({
                let limit = at_most(maximum_published_bytes, MAXIMUM_IP_PUBLISHED_BYTES);
                session@ == (SessionState { maximum_published_bytes: limit, ..self@ }).trimmed(
                    self@.maximum_published as nat,
                    limit as nat,
                )
            }),
    {
        let limit: usize = if maximum_published_bytes > MAXIMUM_IP_PUBLISHED_BYTES {
            MAXIMUM_IP_PUBLISHED_BYTES
        } else {
            maximum_published_bytes
        };
        let count: usize = self.maximum_published;
        let mut session = IpSession { maximum_published_bytes: limit, ..self };
        session.trim(count, limit);
        session
    }

    /// Sets how many stale non-Publish packets may be skipped during one exchange.
    pub fn with_maximum_unmatched(self, maximum_unmatched: usize) -> (session: Self)
        requires
            self.well_formed(),
        ensures
            session.well_formed(),
            session.carried() == self.carried(),
            session@ == (SessionState {
                maximum_unmatched: at_most(maximum_unmatched, MAXIMUM_IP_UNMATCHED_PACKETS),
                ..self@
            }),
    {
        let maximum_unmatched: usize = if maximum_unmatched > MAXIMUM_IP_UNMATCHED_PACKETS {
            MAXIMUM_IP_UNMATCHED_PACKETS
        } else {
            maximum_unmatched
        };
        IpSession { maximum_unmatched, ..self }
    }

    /// Replaces socket and whole-exchange deadlines.
    pub fn with_timeouts(self, timeouts: IpTimeouts) -> (result: Result<Self, IpError>)
        requires
            self.well_formed(),
        ensures
            match timeouts.violation() {
                Some(error) => result == Err::<Self, IpError>(error),
                None => result matches Ok(session) && session.well_formed() && session.carried()
                    == self.carried() && session@ == (SessionState { timeouts, ..self@ }),
            },
    {
        timeouts.validate()?;
        Ok(IpSession { timeouts, ..self })
    }

    /// Returns bounded queue and stale-packet counters.
    pub fn snapshot(&self) -> (snapshot: IpSessionSnapshot)
        requires
            self.well_formed(),
        ensures
            snapshot.published_queued == self@.published.len(),
            snapshot.published_bytes == body_bytes(self@.published),
            snapshot.published_dropped == self@.published_dropped,
            snapshot.unmatched_skipped == self@.unmatched_skipped,
    {
        IpSessionSnapshot {
            published_queued: self.published.len(),
            published_bytes: self.published_bytes,
            published_dropped: self.published_dropped,
            unmatched_skipped: self.unmatched_skipped,
        }
    }

    /// Returns the effective incoming body limit.
    pub fn maximum_body(&self) -> (limit: usize)
        ensures
            limit == self@.maximum_body,
    {
        self.maximum_body
    }

    /// Returns the effective retained Publish packet-count limit.
    pub fn maximum_published(&self) -> (limit: usize)
        ensures
            limit == self@.maximum_published,
    {
        self.maximum_published
    }

    /// Returns the effective retained Publish body-byte limit.
    pub fn maximum_published_bytes(&self) -> (limit: usize)
        ensures
            limit == self@.maximum_published_bytes,
    {
        self.maximum_published_bytes
    }

    /// Returns the effective stale-response skip limit.
    pub fn maximum_unmatched(&self) -> (limit: usize)
        ensures
            limit == self@.maximum_unmatched,
    {
        self.maximum_unmatched
    }

    /// Returns the effective deadlines.
    pub fn timeouts(&self) -> (timeouts: IpTimeouts)
        ensures
            timeouts == self@.timeouts,
    {
        self.timeouts
    }

    /// Reports whether Session Initiate completed successfully.
    pub fn is_open(&self) -> (open: bool)
        ensures
            open == self@.open,
    {
        self.open
    }

    /// Reports whether framed I/O can continue without reconnecting.
    pub fn is_usable(&self) -> (usable: bool)
        ensures
            usable == self@.usable,
    {
        self.usable
    }

    /// Returns the protocol version emitted by this client.
    pub fn protocol_version(&self) -> (version: u8)
        ensures
            version == self@.protocol_version,
    {
        self.protocol_version
    }

    /// Lends the stream to whoever reads and writes it.
    pub fn stream_mut(&mut self) -> (stream: &mut S)
        ensures
            *stream == old(self).carried(),
            *final(stream) == final(self).carried(),
            final(self)@ == old(self)@,
            final(self).well_formed() == old(self).well_formed(),
    {
        &mut self.stream
    }

    /// Encodes the next packet, to be written to the stream.
    pub fn prepare_send(&self, message_type: MessageType, message_id: u8, body: &[u8]) -> (result:
        Result<Vec<u8>, IpError>)
        ensures
            match self@.send_violation(body@) {
                Some(error) => result == Err::<Vec<u8>, IpError>(error),
                None => result matches Ok(bytes) && bytes@ == self@.outgoing(
                    message_type,
                    message_id,
                    body@,
                ).encoded(),
            },
    {
        if !self.usable {
            return Err(IpError::StreamUnusable);
        }
        let length: usize = body.len();
        if length > MAXIMUM_IP_BODY_BYTES {
            return Err(IpError::Length(length));
        }
        let packet = IpPacket {
            version: self.protocol_version,
            message_type,
            message_id,
            status: 0,
            sequence: self.next_sequence,
            body: copy_bytes(body),
        };
        packet.encode()
    }

    /// Takes over how the write of a prepared packet ended, and returns the
    /// sequence number used.
    pub fn finish_send(&mut self, outcome: Result<(), IoFailure>) -> (result: Result<u16, IpError>)
        requires
            old(self).well_formed(),
        ensures
            final(self).well_formed(),
            final(self).carried() == old(self).carried(),
            match outcome {
                Ok(()) => result == Ok::<u16, IpError>(old(self)@.next_sequence) && final(self)@
                    == (SessionState {
                    next_sequence: if old(self)@.next_sequence == u16::MAX {
                        0
                    } else {
                        (old(self)@.next_sequence + 1) as u16
                    },
                    ..old(self)@
                }),
                Err(IoFailure::Error { timed_out, message }) => result == Err::<u16, IpError>(
                    IpError::Io { timed_out, message },
                ) && final(self)@ == old(self)@.broken(),
                Err(IoFailure::Deadline) => result == Err::<u16, IpError>(IpError::Timeout("write"))
                    && final(self)@ == old(self)@.broken(),
            },
    {
        match outcome {
            Ok(()) => {
                let sequence: u16 = self.next_sequence;
                self.next_sequence = if sequence == u16::MAX {
                    0
                } else {
                    sequence + 1
                };
                Ok(sequence)
            },
            Err(IoFailure::Error { timed_out, message }) => {
                self.usable = false;
                Err(IpError::Io { timed_out, message })
            },
            Err(IoFailure::Deadline) => {
                self.usable = false;
                Err(IpError::Timeout("write"))
            },
        }
    }

    /// Refuses a read on a stream whose framing is uncertain.
    pub fn prepare_receive(&self) -> (result: Result<(), IpError>)
        ensures
            result == if self@.usable {
                Ok::<(), IpError>(())
            } else {
                Err(IpError::StreamUnusable)
            },
    {
        if self.usable {
            Ok(())
        } else {
            Err(IpError::StreamUnusable)
        }
    }

    /// Decides what to read behind a packet header.
    pub fn plan_receive(&self, header: [u8; 8]) -> (plan: ReceivePlan)
        ensures
            ({
                let declared = from_be16(header@[6], header@[7]);
                plan == if declared < 8 {
                    ReceivePlan::Reject(
                        IpError::PacketLength { declared: declared as usize, actual: 8 },
                    )
                } else if declared - 8 > self@.maximum_body {
                    ReceivePlan::Discard((declared - 8) as usize)
                } else {
                    ReceivePlan::Body((declared - 8) as usize)
                }
            }),
    {
        let total: usize = join16(header[6], header[7]) as usize;
        if total < 8 {
            return ReceivePlan::Reject(IpError::PacketLength { declared: total, actual: 8 });
        }
        let body_length: usize = total - 8;
        if body_length > self.maximum_body {
            return ReceivePlan::Discard(body_length);
        }
        ReceivePlan::Body(body_length)
    }

    /// Takes over what was read. A failed read or a length that contradicts
    /// the packet leaves the framing uncertain; any other error does not.
    pub fn finish_receive(&mut self, received: ReceivedBytes) -> (result: Result<IpPacket, IpError>)
        requires
            old(self).well_formed(),
        ensures
            final(self).well_formed(),
            final(self).carried() == old(self).carried(),
            match received {
                ReceivedBytes::Packet(bytes) => {
                    let decoded = PacketView::decoded(bytes@, old(self)@.maximum_body as nat);
                    &&& match decoded {
                        Ok(packet) => result matches Ok(found) && found@ == packet,
                        Err(error) => result == Err::<IpPacket, IpError>(error),
                    }
                    &&& final(self)@ == if decoded is Err && decoded->Err_0 is PacketLength {
                        old(self)@.broken()
                    } else {
                        old(self)@
                    }
                },
                ReceivedBytes::Discarded(length) => result == Err::<IpPacket, IpError>(
                    IpError::BodyLimit(length),
                ) && final(self)@ == old(self)@,
                ReceivedBytes::Rejected(error) => result == Err::<IpPacket, IpError>(error)
                    && final(self)@ == if error is PacketLength || error is Io {
                    old(self)@.broken()
                } else {
                    old(self)@
                },
                ReceivedBytes::Failed(IoFailure::Error { timed_out, message }) => result == Err::<
                    IpPacket,
                    IpError,
                >(IpError::Io { timed_out, message }) && final(self)@ == old(self)@.broken(),
                ReceivedBytes::Failed(IoFailure::Deadline) => result == Err::<IpPacket, IpError>(
                    IpError::Timeout("read"),
                ) && final(self)@ == old(self)@.broken(),
            },
    {
        match received {
            ReceivedBytes::Packet(bytes) => match IpPacket::decode(&bytes, self.maximum_body) {
                Ok(packet) => Ok(packet),
                Err(error) => {
                    if let IpError::PacketLength { .. } = error {
                        self.usable = false;
                    }
                    Err(error)
                },
            },
            ReceivedBytes::Discarded(length) => Err(IpError::BodyLimit(length)),
            ReceivedBytes::Rejected(error) => {
                match error {
                    IpError::PacketLength { .. } => {
                        self.usable = false;
                    },
                    IpError::Io { .. } => {
                        self.usable = false;
                    },
                    _ => {},
                }
                Err(error)
            },
            ReceivedBytes::Failed(IoFailure::Error { timed_out, message }) => {
                self.usable = false;
                Err(IpError::Io { timed_out, message })
            },
            ReceivedBytes::Failed(IoFailure::Deadline) => {
                self.usable = false;
                Err(IpError::Timeout("read"))
            },
        }
    }

    /// Takes over one packet received during an exchange.
    pub fn advance(&mut self, exchange: &mut PendingExchange, packet: IpPacket) -> (step:
        ExchangeStep)
        requires
            old(self).well_formed(),
            old(exchange).unmatched <= old(self)@.maximum_unmatched,
        ensures
            final(self).well_formed(),
            final(self).carried() == old(self).carried(),
            final(exchange).sequence == old(exchange).sequence,
            final(exchange).message_id == old(exchange).message_id,
            match old(self)@.meaning(
                old(exchange).sequence,
                old(exchange).message_id,
                old(exchange).unmatched,
                packet,
            ) {
                PacketMeaning::Response => step == ExchangeStep::Done(Ok(packet)) && final(self)@
                    == old(self)@ && *final(exchange) == *old(exchange),
                PacketMeaning::Published => step == ExchangeStep::Continue
                    && final(self)@ == old(self)@.retaining(packet)
                    && *final(exchange) == *old(exchange),
                PacketMeaning::Stale => step == ExchangeStep::Continue && final(self)@ == (
                SessionState {
                    unmatched_skipped: counted(old(self)@.unmatched_skipped, 1),
                    ..old(self)@
                }) && final(exchange).unmatched == old(exchange).unmatched + 1,
                PacketMeaning::StaleOverLimit => step == ExchangeStep::Done(Err(IpError::Sequence))
                    && final(self)@ == (SessionState {
                    unmatched_skipped: counted(old(self)@.unmatched_skipped, 1),
                    ..old(self)@
                }),
                PacketMeaning::Failure(error) => step == ExchangeStep::Done(Err(error))
                    && final(self)@ == old(self)@ && *final(exchange) == *old(exchange),
            },
            step == ExchangeStep::Continue ==> final(exchange).unmatched
                <= final(self)@.maximum_unmatched,
    {
        if packet.version != self.protocol_version {
            return ExchangeStep::Done(
                Err(
                    IpError::ProtocolVersion {
                        expected: self.protocol_version,
                        actual: packet.version,
                    },
                ),
            );
        }
        if packet.message_type == MessageType::Publish {
            self.retain_published(packet);
            return ExchangeStep::Continue;
        }
        if packet.sequence != exchange.sequence || packet.message_id != exchange.message_id {
            self.unmatched_skipped = self.unmatched_skipped.saturating_add(1);
            if exchange.unmatched >= self.maximum_unmatched {
                return ExchangeStep::Done(Err(IpError::Sequence));
            }
            exchange.unmatched = exchange.unmatched + 1;
            return ExchangeStep::Continue;
        }
        if packet.message_type == MessageType::Nak {
            return ExchangeStep::Done(Err(IpError::RemoteStatus(packet.status)));
        }
        if packet.message_type != MessageType::Response {
            return ExchangeStep::Done(Err(IpError::UnexpectedMessageType(packet.message_type)));
        }
        if packet.status != 0 {
            return ExchangeStep::Done(Err(IpError::RemoteStatus(packet.status)));
        }
        ExchangeStep::Done(Ok(packet))
    }

    /// Takes over that the deadline of a whole exchange passed.
    pub fn expire_exchange(&mut self) -> (error: IpError)
        requires
            old(self).well_formed(),
        ensures
            final(self).well_formed(),
            final(self).carried() == old(self).carried(),
            final(self)@ == old(self)@.broken(),
            error == IpError::Timeout("exchange"),
    {
        self.usable = false;
        IpError::Timeout("exchange")
    }

    /// Returns the body of the request that opens a Version 1 logical session.
    pub fn prepare_open(&self, options: SessionOptions) -> (result: Result<Vec<u8>, IpError>)
        ensures
            if self@.open {
                result == Err::<Vec<u8>, IpError>(IpError::AlreadyOpen)
            } else if options.inactivity_close.nanos / 1_000_000 > u32::MAX {
                result == Err::<Vec<u8>, IpError>(IpError::InactivityTimeout)
            } else {
                result matches Ok(body) && body@ == seq![1u8] + be32(
                    (options.inactivity_close.nanos / 1_000_000) as u32,
                )
            },
    {
        if self.open {
            return Err(IpError::AlreadyOpen);
        }
        let milliseconds: u128 = options.inactivity_close.as_millis();
        if milliseconds > u32::MAX as u128 {
            return Err(IpError::InactivityTimeout);
        }
        let mut body: Vec<u8> = Vec::new();
        body.push(1);
        push32(&mut body, milliseconds as u32);
        assert(body@ =~= seq![1u8] + be32((options.inactivity_close.nanos / 1_000_000) as u32));
        Ok(body)
    }

    /// Takes over how the exchange that opens a logical session ended.
    pub fn finish_open(&mut self, outcome: Result<IpPacket, IpError>) -> (result: Result<
        IpPacket,
        IpError,
    >)
        requires
            old(self).well_formed(),
        ensures
            final(self).well_formed(),
            final(self).carried() == old(self).carried(),
            result == outcome,
            final(self)@ == (SessionState {
                open: outcome is Ok || old(self)@.open,
                ..old(self)@
            }),
    {
        match outcome {
            Ok(response) => {
                self.open = true;
                Ok(response)
            },
            Err(error) => Err(error),
        }
    }

    /// Refuses a request outside an open logical session.
    pub fn prepare_request(&self) -> (result: Result<(), IpError>)
        ensures
            result == if self@.open {
                Ok::<(), IpError>(())
            } else {
                Err(IpError::NotOpen)
            },
    {
        if self.open {
            Ok(())
        } else {
            Err(IpError::NotOpen)
        }
    }

    /// Takes over how the exchange that closes a logical session ended.
    pub fn finish_close(&mut self, outcome: Result<IpPacket, IpError>) -> (result: Result<
        IpPacket,
        IpError,
    >)
        requires
            old(self).well_formed(),
        ensures
            final(self).well_formed(),
            final(self).carried() == old(self).carried(),
            result == outcome,
            final(self)@ == (SessionState {
                open: outcome is Err && old(self)@.open,
                ..old(self)@
            }),
    {
        match outcome {
            Ok(response) => {
                self.open = false;
                Ok(response)
            },
            Err(error) => Err(error),
        }
    }

    /// Removes the oldest Publish packet retained during request processing.
    pub fn take_published(&mut self) -> (packet: Option<IpPacket>)
        requires
            old(self).well_formed(),
        ensures
            final(self).well_formed(),
            final(self).carried() == old(self).carried(),
            if old(self)@.published.len() == 0 {
                packet is None && final(self)@ == old(self)@
            } else {
                packet == Some(old(self)@.published[0]) && final(self)@ == (SessionState {
                    published: old(self)@.published.drop_first(),
                    ..old(self)@
                })
            },
    {
        let ghost before = self.published@;
        match self.published.pop_front() {
            None => None,
            Some(packet) => {
                assert(self.published@ =~= before.drop_first());
                let length: usize = packet.body.len();
                self.published_bytes = self.published_bytes - length;
                Some(packet)
            },
        }
    }

    fn retain_published(&mut self, packet: IpPacket)
        requires
            old(self).well_formed(),
        ensures
            final(self).well_formed(),
            final(self).stream == old(self).stream,
            final(self)@ == old(self)@.retaining(packet),
    {
        let bytes: usize = packet.body.len();
        if self.maximum_published == 0 || self.maximum_published_bytes == 0 || bytes
            > self.maximum_published_bytes {
            self.published_dropped = self.published_dropped.saturating_add(1);
            return;
        }
        self.trim(self.maximum_published - 1, self.maximum_published_bytes - bytes);
        proof {
            lemma_body_bytes_push(self.published@, packet);
        }
        self.published_bytes = self.published_bytes + bytes;
        self.published.push_back(packet);
    }

    fn trim(&mut self, count: usize, bytes: usize)
        requires
            old(self).published_bytes == body_bytes(old(self).published@),
        ensures
            final(self).published_bytes == body_bytes(final(self).published@),
            final(self).published@.len() <= count,
            final(self).published_bytes <= bytes,
            final(self).stream == old(self).stream,
            final(self)@ == old(self)@.trimmed(count as nat, bytes as nat),
    {
        let ghost before = *old(self);
        let ghost mut gone: nat = 0;
        assert(before.published@.skip(0) =~= before.published@);
        while self.published.len() > count || self.published_bytes > bytes
            invariant
                self.published_bytes == body_bytes(self.published@),
                gone <= before.published@.len(),
                self.published@ == before.published@.skip(gone as int),
                surplus(before.published@, count as nat, bytes as nat) == gone + surplus(
                    self.published@,
                    count as nat,
                    bytes as nat,
                ),
                self.stream == before.stream,
                self@ == (SessionState {
                    published: self.published@,
                    published_dropped: counted(before.published_dropped, gone),
                    ..before@
                }),
            decreases self.published@.len(),
        {
            let ghost current = self.published@;
            assert(current.len() > 0);
            if let Some(dropped) = self.published.pop_front() {
                assert(self.published@ =~= current.drop_first());
                assert(before.published@.skip(gone as int + 1) =~= current.drop_first());
                let length: usize = dropped.body.len();
                self.published_bytes = self.published_bytes - length;
                self.published_dropped = self.published_dropped.saturating_add(1);
                proof {
                    gone = gone + 1;
                }
            }
        }
    }
}

/// An exchange accepts only the response with its own sequence number and
/// message identifier, a zero status and the version of the session.
pub proof fn lemma_only_the_matching_response_is_accepted(
    state: SessionState,
    exchange: PendingExchange,
    packet: IpPacket,
)
    ensures
        state.meaning(exchange.sequence, exchange.message_id, exchange.unmatched, packet) is Response
            <==> packet.version == state.protocol_version && packet.message_type
            == MessageType::Response && packet.sequence == exchange.sequence && packet.message_id
            == exchange.message_id && packet.status == 0,
{
}

/// Adapts direct-packet bodies to the shared byte-link runner.
#[derive(Debug)]
pub struct IpPacketChannel<S> {
    session: IpSession<S>,
    message_id: u8,
    pending: VecDeque<u8>,
}

/// The bodies of packets one after the other.
pub open spec fn joined_bodies(packets: Seq<IpPacket>) -> Seq<u8>
    decreases packets.len(),
{
    if packets.len() == 0 {
        Seq::empty()
    } else {
        packets[0].body@ + joined_bodies(packets.drop_first())
    }
}

impl<S> IpPacketChannel<S> {
    /// The packet session.
    pub closed spec fn inner(&self) -> IpSession<S> {
        self.session
    }

    /// The application-message identifier.
    pub closed spec fn identifier(&self) -> u8 {
        self.message_id
    }

    /// Response bytes that were not read yet.
    pub closed spec fn unread(&self) -> Seq<u8> {
        self.pending@
    }

    /// Creates an adapter for one application-message identifier.
    pub fn new(session: IpSession<S>, message_id: u8) -> (channel: Self)
        ensures
            channel.inner() == session,
            channel.identifier() == message_id,
            channel.unread() == Seq::<u8>::empty(),
    {
        IpPacketChannel { session, message_id, pending: VecDeque::new() }
    }

    /// Returns a reference to the underlying packet session.
    pub fn session(&self) -> (session: &IpSession<S>)
        ensures
            *session == self.inner(),
    {
        &self.session
    }

    /// Lends the underlying packet session to whoever runs its exchanges.
    pub fn session_mut(&mut self) -> (session: &mut IpSession<S>)
        ensures
            *session == old(self).inner(),
            *final(session) == final(self).inner(),
            final(self).identifier() == old(self).identifier(),
            final(self).unread() == old(self).unread(),
    {
        &mut self.session
    }

    /// Recovers the underlying packet session when no byte exchange is active.
    pub fn into_session(self) -> (result: Result<IpSession<S>, ChannelError>)
        ensures
            result == if self.unread().len() == 0 {
                Ok::<IpSession<S>, ChannelError>(self.inner())
            } else {
                Err(
                    ChannelError::Configuration(
                        "HART-IP response bytes must be drained before recovering the session",
                    ),
                )
            },
    {
        if self.pending.len() == 0 {
            Ok(self.session)
        } else {
            Err(
                ChannelError::Configuration(
                    "HART-IP response bytes must be drained before recovering the session",
                ),
            )
        }
    }

    /// Returns the message identifier of the request that carries outgoing
    /// bytes, unless earlier response bytes wait to be read.
    pub fn prepare_send(&self) -> (result: Result<u8, ChannelError>)
        ensures
            result == if self.unread().len() > 0 {
                Err::<u8, ChannelError>(
                    ChannelError::Configuration(
                        "previous HART-IP response bytes were not drained",
                    ),
                )
            } else {
                Ok(self.identifier())
            },
    {
        if self.pending.len() > 0 {
            return Err(
                ChannelError::Configuration("previous HART-IP response bytes were not drained"),
            );
        }
        Ok(self.message_id)
    }

    /// Takes over how the request ended: the bodies of retained Publish
    /// packets and then of the response become readable.
    pub fn finish_send(&mut self, outcome: Result<IpPacket, IpError>) -> (result: Result<
        (),
        ChannelError,
    >)
        requires
            old(self).inner().well_formed(),
        ensures
            final(self).inner().well_formed(),
            final(self).inner().carried() == old(self).inner().carried(),
            final(self).identifier() == old(self).identifier(),
            match outcome {
                Ok(packet) => result == Ok::<(), ChannelError>(())
                    && final(self).unread() == old(self).unread() + joined_bodies(old(self).inner()@.published) + packet.body@ && final(self).inner()@ == (SessionState { published: Seq::empty(), ..old(self).inner()@ }),
                Err(error) => final(self).unread() == old(self).unread() && final(self).inner()
                    == old(self).inner() && match error {
                    IpError::Io { timed_out, message } => result == Err::<(), ChannelError>(
                        ChannelError::Io { timed_out, message },
                    ),
                    _ => result matches Err(ChannelError::Protocol(text)) && text@ == error.text(),
                },
            },
    {
        match outcome {
            Err(error) => Err(error.into_channel_error()),
            Ok(packet) => {
                let ghost before = *old(self);
                let ghost all = before.session@.published;
                assert(before.pending@ + joined_bodies(all) =~= self.pending@ + joined_bodies(all));
                while self.session.snapshot().published_queued > 0
                    invariant
                        self.session.well_formed(),
                        self.session.carried() == before.session.carried(),
                        self.message_id == before.message_id,
                        before.session@.published == all,
                        self.session@ == (SessionState {
                            published: self.session@.published,
                            ..before.session@
                        }),
                        before.pending@ + joined_bodies(all) == self.pending@ + joined_bodies(
                            self.session@.published,
                        ),
                    decreases self.session@.published.len(),
                {
                    let ghost waiting = self.session@.published;
                    let ghost held = self.pending@;
                    if let Some(published) = self.session.take_published() {
                        append_queue(&mut self.pending, &published.body);
                        assert(held + joined_bodies(waiting) =~= self.pending@ + joined_bodies(
                            self.session@.published,
                        ));
                    }
                }
                assert(self.session@.published =~= Seq::<IpPacket>::empty());
                assert(self.pending@ + joined_bodies(self.session@.published) =~= self.pending@);
                append_queue(&mut self.pending, &packet.body);
                Ok(())
            },
        }
    }

    /// Reads at most `capacity` response bytes.
    pub fn receive(&mut self, capacity: usize) -> (result: Result<Vec<u8>, ChannelError>)
        ensures
            final(self).inner() == old(self).inner(),
            final(self).identifier() == old(self).identifier(),
            if capacity == 0 {
                result == Err::<Vec<u8>, ChannelError>(
                    ChannelError::Configuration("HART-IP receive buffer cannot be empty"),
                ) && final(self).unread() == old(self).unread()
            } else if old(self).unread().len() == 0 {
                result == Err::<Vec<u8>, ChannelError>(ChannelError::Closed)
                    && final(self).unread() == old(self).unread()
            } else {
                let count = if capacity <= old(self).unread().len() {
                    capacity as int
                } else {
                    old(self).unread().len() as int
                };
                &&& result matches Ok(chunk)
                &&& chunk@ == old(self).unread().take(count)
                &&& final(self).unread() == old(self).unread().skip(count)
            },
    {
        if capacity == 0 {
            return Err(ChannelError::Configuration("HART-IP receive buffer cannot be empty"));
        }
        if self.pending.len() == 0 {
            return Err(ChannelError::Closed);
        }
        let count: usize = if capacity <= self.pending.len() {
            capacity
        } else {
            self.pending.len()
        };
        Ok(drain_front(&mut self.pending, count))
    }
}

/// How a packet is written: version, type, message and status in a byte each,
/// then the sequence number and the length of the whole packet in two bytes
/// each, and the body.
pub proof fn lemma_packet_layout(packet: PacketView)
    requires
        packet.body.len() <= MAXIMUM_IP_BODY_BYTES,
    ensures
        ({
            let bytes = packet.encoded();
            &&& bytes.len() == 8 + packet.body.len()
            &&& bytes[0] == packet.version
            &&& bytes[1] == (match packet.message_type {
                MessageType::Request => 0int,
                MessageType::Response => 1int,
                MessageType::Publish => 2int,
                MessageType::Nak => 15int,
            })
            &&& bytes[2] == packet.message_id
            &&& bytes[3] == packet.status
            &&& bytes[4] * 256 + bytes[5] == packet.sequence
            &&& bytes[6] * 256 + bytes[7] == bytes.len()
            &&& bytes.skip(8) == packet.body
        }),
{
    let bytes = packet.encoded();
    crate::bytes::lemma_be16_round_trip(packet.sequence, 0, 0);
    crate::bytes::lemma_be16_round_trip((8 + packet.body.len()) as u16, 0, 0);
    assert(bytes.skip(8) =~= packet.body);
}

/// A packet is read exactly when it has a whole header, is as long as it says,
/// keeps to the limit and has one of the four types.
pub proof fn lemma_packet_is_read(bytes: Seq<u8>, maximum_body: nat)
    ensures
        PacketView::decoded(bytes, maximum_body) is Ok <==> bytes.len() >= 8 && bytes[6] * 256
            + bytes[7] == bytes.len() && bytes.len() - 8 <= maximum_body && (bytes[1] == 0
            || bytes[1] == 1 || bytes[1] == 2 || bytes[1] == 15),
        PacketView::decoded(bytes, maximum_body) matches Ok(packet) ==> packet.body.len()
            <= maximum_body && packet.sequence == bytes[4] * 256 + bytes[5] && packet.message_id
            == bytes[2] && packet.status == bytes[3] && packet.version == bytes[0],
{
}

/// What a packet means to a waiting exchange. Another version is a failure;
/// what is published is kept; a packet with another number or message is
/// passed over, up to the limit; a refusal or a status is a failure, and so is
/// a request.
pub proof fn lemma_packet_meanings(
    state: SessionState,
    sequence: u16,
    message_id: u8,
    unmatched: usize,
    packet: IpPacket,
)
    ensures
        ({
            let meaning = state.meaning(sequence, message_id, unmatched, packet);
            let other_version = packet.version != state.protocol_version;
            let published = !other_version && packet.message_type is Publish;
            let other = !other_version && !published && (packet.sequence != sequence
                || packet.message_id != message_id);
            let matched = !other_version && !published && !other;
            &&& (meaning is Published <==> published)
            &&& (meaning is Stale <==> other && unmatched < state.maximum_unmatched)
            &&& (meaning is StaleOverLimit <==> other && unmatched >= state.maximum_unmatched)
            &&& (meaning is Response <==> matched && packet.message_type is Response
                && packet.status == 0)
            &&& (other_version ==> meaning == PacketMeaning::Failure(
                IpError::ProtocolVersion {
                    expected: state.protocol_version,
                    actual: packet.version,
                },
            ))
            &&& (matched && (packet.message_type is Nak || packet.message_type is Response
                && packet.status != 0) ==> meaning == PacketMeaning::Failure(
                IpError::RemoteStatus(packet.status),
            ))
            &&& (matched && packet.message_type is Request ==> meaning == PacketMeaning::Failure(
                IpError::UnexpectedMessageType(MessageType::Request),
            ))
        }),
{
}

/// A published packet that fits is kept behind the others; for it the oldest
/// ones leave, no more than needed, and both limits hold afterwards. One that
/// can never fit is dropped and changes nothing else. Every packet that leaves
/// is counted.
pub proof fn lemma_newest_published_packet_is_kept(state: SessionState, packet: IpPacket)
    requires
        state.published_dropped + state.published.len() < u64::MAX,
    ensures
        ({
            let after = state.retaining(packet);
            let fits = state.maximum_published > 0 && state.maximum_published_bytes > 0
                && packet.body@.len() <= state.maximum_published_bytes;
            &&& !fits ==> after.published == state.published && after.published_dropped
                == state.published_dropped + 1
            &&& fits ==> ({
                let gone = state.published.len() + 1 - after.published.len();
                &&& after.published.len() > 0
                &&& after.published.last() == packet
                &&& 0 <= gone <= state.published.len()
                &&& after.published.take(after.published.len() - 1) == state.published.skip(gone)
                &&& after.published.len() <= state.maximum_published
                &&& body_bytes(after.published) <= state.maximum_published_bytes
                &&& after.published_dropped == state.published_dropped + gone
                &&& gone > 0 ==> state.published.len() - gone + 1 >= state.maximum_published
                    || body_bytes(state.published.skip(gone - 1)) + packet.body@.len()
                    > state.maximum_published_bytes
            })
        }),
{
    let size = packet.body@.len();
    if state.maximum_published > 0 && state.maximum_published_bytes > 0 && size
        <= state.maximum_published_bytes {
        let count = (state.maximum_published - 1) as nat;
        let bytes = (state.maximum_published_bytes - size) as nat;
        lemma_surplus_is_least(state.published, count, bytes);
        let gone = surplus(state.published, count, bytes);
        let rest = state.published.skip(gone as int);
        lemma_body_bytes_push(rest, packet);
        let after = state.retaining(packet);
        assert(after.published.take(after.published.len() - 1) =~= rest);
        if gone > 0 {
            assert(state.published.skip(gone - 1).len() > count || body_bytes(
                state.published.skip(gone - 1),
            ) > bytes);
        }
    }
}

/// The bodies of packets in a row are read in the order of the packets.
pub proof fn lemma_bodies_are_read_in_order(packets: Seq<IpPacket>, packet: IpPacket)
    ensures
        joined_bodies(packets.push(packet)) == joined_bodies(packets) + packet.body@,
        joined_bodies(Seq::empty()) == Seq::<u8>::empty(),
        joined_bodies(packets).len() == body_bytes(packets),
    decreases packets.len(),
{
    if packets.len() == 0 {
        reveal_with_fuel(joined_bodies, 2);
        assert(packets.push(packet).drop_first() =~= packets);
        assert(packet.body@ + Seq::<u8>::empty() =~= packet.body@);
        assert(Seq::<u8>::empty() + packet.body@ =~= packet.body@);
    } else {
        lemma_bodies_are_read_in_order(packets.drop_first(), packet);
        assert(packets.push(packet).drop_first() =~= packets.drop_first().push(packet));
        assert(packets.push(packet)[0] == packets[0]);
        assert(packets[0].body@ + (joined_bodies(packets.drop_first()) + packet.body@) =~= (
        packets[0].body@ + joined_bodies(packets.drop_first())) + packet.body@);
    }
}

/// What a session sends carries its version, the next number and no status,
/// and is refused only on a broken stream or beyond the largest body.
pub proof fn lemma_outgoing_packet(
    state: SessionState,
    message_type: MessageType,
    message_id: u8,
    body: Seq<u8>,
)
    ensures
        state.outgoing(message_type, message_id, body).version == state.protocol_version,
        state.outgoing(message_type, message_id, body).message_type == message_type,
        state.outgoing(message_type, message_id, body).message_id == message_id,
        state.outgoing(message_type, message_id, body).status == 0,
        state.outgoing(message_type, message_id, body).sequence == state.next_sequence,
        state.outgoing(message_type, message_id, body).body == body,
        state.send_violation(body) is None <==> state.usable && body.len() <= MAXIMUM_IP_BODY_BYTES,
        !state.usable ==> state.send_violation(body) == Some(IpError::StreamUnusable),
        !state.broken().usable,
{
}

/// The header of a packet tells how much of it follows: after the eight bytes
/// of a packet that was sent, exactly its body is read, if the limit allows
/// it, and otherwise exactly its body is skipped. A length that does not even
/// cover the header is refused.
pub proof fn lemma_header_announces_the_body<S>(
    session: IpSession<S>,
    packet: PacketView,
    header: [u8; 8],
    plan: ReceivePlan,
)
    requires
        call_ensures(IpSession::<S>::plan_receive, (&session, header), plan),
    ensures
        packet.body.len() <= MAXIMUM_IP_BODY_BYTES && header@ == packet.encoded().take(8) ==> plan
            == if packet.body.len() <= session@.maximum_body {
            ReceivePlan::Body(packet.body.len() as usize)
        } else {
            ReceivePlan::Discard(packet.body.len() as usize)
        },
        header@[6] == 0 && header@[7] < 8 ==> plan is Reject,
{
    lemma_be16_round_trip((8 + packet.body.len()) as u16, header@[6], header@[7]);
    if packet.body.len() <= MAXIMUM_IP_BODY_BYTES && header@ == packet.encoded().take(8) {
        let length = be16((8 + packet.body.len()) as u16);
        assert(header@[6] == length[0]);
        assert(header@[7] == length[1]);
    }
}

/// A new session counts its packets from one, speaks the first version of the
/// protocol, is not open yet and has kept and dropped nothing. Both timeouts
/// of a session lie between one nanosecond and a day.
pub proof fn lemma_new_ip_session(timeouts: IpTimeouts, value: usize, limit: usize)
    ensures
        SessionState::fresh().next_sequence == 1,
        SessionState::fresh().protocol_version == 1,
        !SessionState::fresh().open,
        SessionState::fresh().usable,
        SessionState::fresh().published.len() == 0,
        SessionState::fresh().published_dropped == 0,
        SessionState::fresh().unmatched_skipped == 0,
        SessionState::fresh().maximum_body == 8192,
        SessionState::fresh().timeouts.violation() is None,
        timeouts.violation() is None <==> 0 < timeouts.io.nanos <= 24 * 3600 * 1_000_000_000 && 0
            < timeouts.exchange.nanos <= 24 * 3600 * 1_000_000_000,
        at_most(value, limit) <= limit && at_most(value, limit) <= value,
        value <= limit ==> at_most(value, limit) == value,
        value >= limit ==> at_most(value, limit) == limit,
{
}

/// Packets are numbered one after the other, and after the last number from
/// zero again; a packet that could not be written makes the stream unusable
/// and uses no number.
pub proof fn lemma_packets_are_numbered<S>(
    session: &mut IpSession<S>,
    outcome: Result<(), IoFailure>,
    result: Result<u16, IpError>,
)
    requires
        call_ensures(IpSession::<S>::finish_send, (session, outcome), result),
    ensures
        result is Ok <==> outcome is Ok,
        result matches Ok(number) ==> number == old(session)@.next_sequence
            && final(session)@.next_sequence == (number + 1) % 0x1_0000 && final(session)@.usable
            == old(session)@.usable,
        outcome is Err ==> !final(session)@.usable && final(session)@.next_sequence
            == old(session)@.next_sequence,
        outcome == Err::<(), IoFailure>(IoFailure::Deadline) ==> result matches Err(
            IpError::Timeout(_),
        ),
        final(session)@.published == old(session)@.published,
        final(session)@.open == old(session)@.open,
{
}

/// Published packets are handed out in the order in which they came.
pub proof fn lemma_publications_are_taken_in_order<S>(
    session: &mut IpSession<S>,
    packet: Option<IpPacket>,
)
    requires
        call_ensures(IpSession::<S>::take_published, (session,), packet),
    ensures
        packet is None <==> old(session)@.published.len() == 0,
        packet matches Some(first) ==> first == old(session)@.published[0]
            && final(session)@.published == old(session)@.published.skip(1),
        packet is None ==> final(session)@.published == old(session)@.published,
        final(session)@.published_dropped == old(session)@.published_dropped,
{
}

/// An exchange ends well only with the packet itself, and only where it is a
/// response of the same version with the sequence number and the identifier
/// that were sent. It goes on only after a publication or after a packet of
/// another exchange, and such a packet counts.
pub proof fn lemma_exchange_takes_its_response<S>(
    session: &mut IpSession<S>,
    exchange: &mut PendingExchange,
    packet: IpPacket,
    step: ExchangeStep,
)
    requires
        call_ensures(IpSession::<S>::advance, (session, exchange, packet), step),
    ensures
        step matches ExchangeStep::Done(Ok(found)) ==> found == packet && packet.version
            == old(session)@.protocol_version && packet.sequence == old(exchange).sequence
            && packet.message_id == old(exchange).message_id && packet.message_type is Response,
        step is Continue ==> packet.message_type is Publish || packet.sequence
            != old(exchange).sequence || packet.message_id != old(exchange).message_id,
        step is Continue && !(packet.message_type is Publish) ==> final(exchange).unmatched
            == old(exchange).unmatched + 1 && final(session)@.published
            == old(session)@.published,
        step is Continue && packet.message_type is Publish ==> final(exchange).unmatched
            == old(exchange).unmatched,
        final(exchange).sequence == old(exchange).sequence,
        final(exchange).message_id == old(exchange).message_id,
{
}

/// Received bodies are read in order, never more than fits, and what is not
/// read stays for the next read.
pub proof fn lemma_bodies_are_kept_until_read<S>(
    channel: &mut IpPacketChannel<S>,
    capacity: usize,
    result: Result<Vec<u8>, ChannelError>,
)
    requires
        call_ensures(IpPacketChannel::<S>::receive, (channel, capacity), result),
    ensures
        result is Ok <==> capacity > 0 && old(channel).unread().len() > 0,
        result is Err ==> final(channel).unread() == old(channel).unread(),
        result matches Ok(bytes) ==> 0 < bytes@.len() <= capacity && bytes@
            + final(channel).unread() == old(channel).unread() && (bytes@.len() == capacity
            || final(channel).unread().len() == 0),
{
    if let Ok(bytes) = result {
        assert(bytes@ + final(channel).unread() =~= old(channel).unread());
    }
}

} // verus!
