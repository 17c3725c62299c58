use vstd::prelude::*;

use crate::bytes::{append_bytes, copy_bytes};
use crate::digits::{append_decimal, append_hex_byte, decimal, hex_byte};
use crate::wire::address::Address;
use crate::wire::{xor_all, xor_checksum};

verus! {

/// Largest canonical frame: 255 preambles, long address, three expansion bytes, and 255 payload bytes.
pub const MAX_ENCODED_FRAME_SIZE: usize = 522;

/// Physical layer mode encoded in the frame delimiter.
#[derive(Debug, Clone, Copy, PartialEq, Eq, Hash, Structural)]
pub enum PhysicalLayer {
    /// 1200 bit/s frequency-shift keying.
    Fsk,
    /// Phase-shift keying used by the high-speed physical layer.
    Psk,
}

impl PhysicalLayer {
    /// The delimiter bit that stands for this mode.
    pub open spec fn bit(self) -> u8 {
        match self {
            PhysicalLayer::Fsk => 0,
            PhysicalLayer::Psk => 0x08,
        }
    }

    /// The mode named by a delimiter.
    pub open spec fn of_delimiter(delimiter: u8) -> PhysicalLayer {
        if delimiter & 0x08 == 0 {
            PhysicalLayer::Fsk
        } else {
            PhysicalLayer::Psk
        }
    }

    pub(crate) fn delimiter_bit(self) -> (bit: u8)
        ensures
            bit == self.bit(),
    {
        match self {
            PhysicalLayer::Fsk => 0,
            PhysicalLayer::Psk => 0x08,
        }
    }

    pub(crate) fn from_delimiter(delimiter: u8) -> (layer: PhysicalLayer)
        ensures
            layer == PhysicalLayer::of_delimiter(delimiter),
    {
        if delimiter & 0x08 == 0 {
            PhysicalLayer::Fsk
        } else {
            PhysicalLayer::Psk
        }
    }
}

/// Frame purpose encoded in the delimiter.
#[derive(Debug, Clone, Copy, PartialEq, Eq, Hash, Structural)]
pub enum FrameKind {
    /// Request from a master to a device.
    Request,
    /// Device response to a request.
    Response,
    /// Unsolicited device message.
    Burst,
}

/// Explicit repair applied for a known gateway behavior.
#[derive(Debug, Clone, Copy, PartialEq, Eq, Hash, Structural)]
pub enum FrameRepair {
    /// The reserved `0x10` delimiter bit was altered.
    DelimiterBit,
    /// The gateway rewrote the short address without updating the checksum.
    ShortAddressRewrite {
        /// Address used to calculate the checksum.
        checksum_source_node: u8,
    },
}

impl FrameKind {
    /// The delimiter without its service bits.
    pub open spec fn base(self) -> u8 {
        match self {
            FrameKind::Request => 0x02,
            FrameKind::Response => 0x06,
            FrameKind::Burst => 0x01,
        }
    }

    /// The purpose named by a delimiter, if it names one.
    pub open spec fn of_delimiter(delimiter: u8) -> Option<FrameKind> {
        let low = delimiter & 0x1f;
        if low == 0x02 || low == 0x0a {
            Some(FrameKind::Request)
        } else if low == 0x06 || low == 0x0e {
            Some(FrameKind::Response)
        } else if low == 0x01 || low == 0x09 {
            Some(FrameKind::Burst)
        } else {
            None
        }
    }

    pub(crate) fn delimiter_base(self) -> (base: u8)
        ensures
            base == self.base(),
    {
        match self {
            FrameKind::Request => 0x02,
            FrameKind::Response => 0x06,
            FrameKind::Burst => 0x01,
        }
    }

    pub(crate) fn from_delimiter(delimiter: u8) -> (kind: Option<FrameKind>)
        ensures
            kind == FrameKind::of_delimiter(delimiter),
    {
        match delimiter & 0x1f {
            0x02 | 0x0a => Some(FrameKind::Request),
            0x06 | 0x0e => Some(FrameKind::Response),
            0x01 | 0x09 => Some(FrameKind::Burst),
            _ => None,
        }
    }
}

/// Error while constructing or decoding a data-link frame.
#[derive(Debug, Clone, Copy, PartialEq, Eq, Structural)]
pub enum WireError {
    /// The short address is outside the valid range.
    PollingAddress(u8),
    /// The expanded device type does not fit the address field.
    ExpandedDeviceType(u16),
    /// The device identifier does not fit in 24 bits.
    DeviceIdentifier(u32),
    /// The frame contains more than three expansion bytes.
    ExpansionLength(usize),
    /// The payload does not fit the one-byte length field.
    PayloadLength(usize),
    /// The stream ended before the frame was complete.
    Truncated,
    /// The delimiter does not identify a supported HART frame.
    Delimiter(u8),
    /// The frame checksum does not match.
    Checksum {
        /// Calculated value.
        expected: u8,
        /// Value received from the line.
        actual: u8,
    },
}

impl WireError {
    /// The diagnostic text of the error.
    pub open spec fn text(self) -> Seq<char> {
        match self {
            WireError::PollingAddress(node) => "short address "@ + decimal(node as nat)
                + " is outside the 0..=63 range"@,
            WireError::ExpandedDeviceType(value) => "expanded device type "@ + decimal(value as nat)
                + " does not fit in 14 bits"@,
            WireError::DeviceIdentifier(value) => "device identifier "@ + decimal(value as nat)
                + " does not fit in 24 bits"@,
            WireError::ExpansionLength(length) => "frame contains an invalid expansion length: "@
                + decimal(length as nat),
            WireError::PayloadLength(length) => "payload is too large: "@ + decimal(length as nat)
                + " bytes"@,
            WireError::Truncated => "truncated frame"@,
            WireError::Delimiter(value) => "unknown delimiter "@ + hex_byte(value),
            WireError::Checksum { expected, actual } => "checksum mismatch: expected "@ + hex_byte(
                expected,
            ) + ", received "@ + hex_byte(actual),
        }
    }

    /// Renders the error for a diagnostic.
    pub fn message(&self) -> (message: String)
        ensures
            message@ == self.text(),
    {
        match *self {
            WireError::PollingAddress(node) => {
                let mut message = String::from_str("short address ");
                append_decimal(&mut message, node as u64);
                message.append(" is outside the 0..=63 range");
                message
            },
            WireError::ExpandedDeviceType(value) => {
                let mut message = String::from_str("expanded device type ");
                append_decimal(&mut message, value as u64);
                message.append(" does not fit in 14 bits");
                message
            },
            WireError::DeviceIdentifier(value) => {
                let mut message = String::from_str("device identifier ");
                append_decimal(&mut message, value as u64);
                message.append(" does not fit in 24 bits");
                message
            },
            WireError::ExpansionLength(length) => {
                let mut message = String::from_str("frame contains an invalid expansion length: ");
                append_decimal(&mut message, length as u64);
                message
            },
            WireError::PayloadLength(length) => {
                let mut message = String::from_str("payload is too large: ");
                append_decimal(&mut message, length as u64);
                message.append(" bytes");
                message
            },
            WireError::Truncated => String::from_str("truncated frame"),
            WireError::Delimiter(value) => {
                let mut message = String::from_str("unknown delimiter ");
                append_hex_byte(&mut message, value);
                message
            },
            WireError::Checksum { expected, actual } => {
                let mut message = String::from_str("checksum mismatch: expected ");
                append_hex_byte(&mut message, expected);
                message.append(", received ");
                append_hex_byte(&mut message, actual);
                message
            },
        }
    }
}

/// Complete data-link frame without unrelated line bytes.
#[derive(Debug, PartialEq, Eq)]
pub struct Frame {
    /// Number of preambles before the delimiter.
    pub preambles: u8,
    /// Frame direction and purpose.
    pub kind: FrameKind,
    /// Frame physical layer.
    pub physical_layer: PhysicalLayer,
    /// Sender or recipient address.
    pub address: Address,
    /// Optional data-link header expansion bytes.
    pub expansion: Vec<u8>,
    /// One-byte command number carried on the wire.
    pub wire_command: u8,
    /// Payload. Responses carry the response code and device status first.
    pub payload: Vec<u8>,
    /// Known gateway repair applied while decoding, if any.
    pub repair: Option<FrameRepair>,
}

/// What a frame holds, with its byte vectors as sequences.
#[verifier::ext_equal]
pub struct FrameView {
    pub preambles: u8,
    pub kind: FrameKind,
    pub physical_layer: PhysicalLayer,
    pub address: Address,
    pub expansion: Seq<u8>,
    pub wire_command: u8,
    pub payload: Seq<u8>,
    pub repair: Option<FrameRepair>,
}

impl View for Frame {
    type V = FrameView;

    open spec fn view(&self) -> FrameView {
        FrameView {
            preambles: self.preambles,
            kind: self.kind,
            physical_layer: self.physical_layer,
            address: self.address,
            expansion: self.expansion@,
            wire_command: self.wire_command,
            payload: self.payload@,
            repair: self.repair,
        }
    }
}

impl Clone for Frame {
    fn clone(&self) -> (copy: Self)
        ensures
            copy@ == self@,
    {
        Frame {
            preambles: self.preambles,
            kind: self.kind,
            physical_layer: self.physical_layer,
            address: self.address,
            expansion: copy_bytes(&self.expansion),
            wire_command: self.wire_command,
            payload: copy_bytes(&self.payload),
            repair: self.repair,
        }
    }
}

/// The delimiter byte of a frame with the given properties.
pub open spec fn delimiter_byte(
    kind: FrameKind,
    layer: PhysicalLayer,
    long: bool,
    expansion: nat,
) -> u8 {
    kind.base() | layer.bit() | (if long {
        0x80u8
    } else {
        0u8
    }) | ((expansion as u8) << 5)
}

impl FrameView {
    /// The error that keeps this frame from being encoded, if any.
    pub open spec fn encode_error(self) -> Option<WireError> {
        if self.expansion.len() > 3 {
            Some(WireError::ExpansionLength(self.expansion.len() as usize))
        } else if self.payload.len() > 255 {
            Some(WireError::PayloadLength(self.payload.len() as usize))
        } else {
            None
        }
    }

    /// The frame can be encoded and its address has a canonical form.
    pub open spec fn canonical(self) -> bool {
        &&& self.expansion.len() <= 3
        &&& self.payload.len() <= 255
        &&& self.address.valid()
        &&& self.repair is None
    }

    /// The delimiter of the frame.
    pub open spec fn delimiter_value(self) -> u8 {
        delimiter_byte(self.kind, self.physical_layer, self.address.long(), self.expansion.len())
    }

    /// Every byte that the checksum covers.
    pub open spec fn checked_bytes(self) -> Seq<u8> {
        seq![self.delimiter_value()] + self.address.wire_bytes(self.kind is Burst) + self.expansion
            + seq![self.wire_command, self.payload.len() as u8] + self.payload
    }

    /// The complete encoding: preambles, checked bytes and checksum.
    pub open spec fn encoded(self) -> Seq<u8> {
        Seq::new(self.preambles as nat, |i: int| 0xffu8) + self.checked_bytes() + seq![
            xor_all(self.checked_bytes()),
        ]
    }
}

impl Frame {
    /// Encodes the canonical byte sequence with its checksum.
    pub fn encode(&self) -> (result: Result<Vec<u8>, WireError>)
        ensures
            match self@.encode_error() {
                Some(error) => result == Err::<Vec<u8>, WireError>(error),
                None => result matches Ok(bytes) && bytes@ == self@.encoded() && bytes@.len()
                    <= MAX_ENCODED_FRAME_SIZE,
            },
    {
        let delimiter = match self.delimiter() {
            Ok(delimiter) => delimiter,
            Err(error) => {
                return Err(error);
            },
        };
        if self.payload.len() > 255 {
            return Err(WireError::PayloadLength(self.payload.len()));
        }
        let mut output: Vec<u8> = Vec::new();
        output.resize(self.preambles as usize, 0xff);
        let checksum_start: usize = output.len();
        let ghost preambles = Seq::new(self.preambles as nat, |i: int| 0xffu8);
        assert(output@ =~= preambles);
        output.push(delimiter);
        self.address.write_to(self.kind == FrameKind::Burst, &mut output);
        append_bytes(&mut output, &self.expansion);
        output.push(self.wire_command);
        output.push(self.payload.len() as u8);
        append_bytes(&mut output, &self.payload);
        assert(output@ =~= preambles + self@.checked_bytes());
        let end: usize = output.len();
        let checksum = xor_checksum(&output, checksum_start, end);
        assert(output@.subrange(checksum_start as int, end as int) =~= self@.checked_bytes());
        output.push(checksum);
        assert(output@ =~= self@.encoded());
        Ok(output)
    }

    /// Returns the delimiter corresponding to the frame contents.
    pub fn delimiter(&self) -> (result: Result<u8, WireError>)
        ensures
            result == if self.expansion@.len() > 3 {
                Err(WireError::ExpansionLength(self.expansion@.len() as usize))
            } else {
                Ok(self@.delimiter_value())
            },
    {
        if self.expansion.len() > 3 {
            return Err(WireError::ExpansionLength(self.expansion.len()));
        }
        let long_bit: u8 = if self.address.encoded_len() == 5 {
            0x80
        } else {
            0
        };
        Ok(
            self.kind.delimiter_base() | self.physical_layer.delimiter_bit() | long_bit | ((
            self.expansion.len() as u8) << 5),
        )
    }
}

/// What a delimiter says can be read back from it.
pub proof fn lemma_delimiter_round_trip(
    kind: FrameKind,
    layer: PhysicalLayer,
    long: bool,
    expansion: nat,
)
    requires
        expansion <= 3,
    ensures
        ({
            let delimiter = delimiter_byte(kind, layer, long, expansion);
            &&& FrameKind::of_delimiter(delimiter) == Some(kind)
            &&& PhysicalLayer::of_delimiter(delimiter) == layer
            &&& (delimiter & 0x80 != 0) == long
            &&& (delimiter >> 5) & 0x03 == expansion
        }),
{
    lemma_delimiter_bits(
        kind.base(),
        layer.bit(),
        if long {
            0x80u8
        } else {
            0u8
        },
        expansion as u8,
    );
}

proof fn lemma_delimiter_bits(kind: u8, layer: u8, long: u8, expansion: u8)
    by (bit_vector)
    requires
        kind == 1 || kind == 2 || kind == 6,
        layer == 0 || layer == 8,
        long == 0 || long == 0x80,
        expansion <= 3,
    ensures
        (kind | layer | long | (expansion << 5)) & 0x1f == kind | layer,
        kind == 1 ==> kind | layer == 0x01 || kind | layer == 0x09,
        kind == 2 ==> kind | layer == 0x02 || kind | layer == 0x0a,
        kind == 6 ==> kind | layer == 0x06 || kind | layer == 0x0e,
        ((kind | layer | long | (expansion << 5)) & 0x08 == 0) == (layer == 0),
        ((kind | layer | long | (expansion << 5)) & 0x80 == 0) == (long == 0),
        ((kind | layer | long | (expansion << 5)) >> 5) & 0x03 == expansion,
{
}

} // verus!
