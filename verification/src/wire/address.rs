use vstd::prelude::*;

use crate::bytes::{be24, from_be16, from_be24, join16, join24, push24};
use crate::wire::WireError;

verus! {

/// Master that originates a frame.
#[derive(Debug, Clone, Copy, PartialEq, Eq, PartialOrd, Ord, Hash, Structural)]
pub enum Master {
    /// Primary line master.
    Primary,
    /// Secondary line master.
    Secondary,
}

impl Master {
    /// The address-byte bit that stands for this master.
    pub open spec fn bit(self) -> u8 {
        match self {
            Master::Primary => 0x80,
            Master::Secondary => 0,
        }
    }

    /// The master named by an address byte.
    pub open spec fn of_byte(byte: u8) -> Master {
        if byte & 0x80 == 0 {
            Master::Secondary
        } else {
            Master::Primary
        }
    }

    pub(crate) fn address_bit(self) -> (bit: u8)
        ensures
            bit == self.bit(),
    {
        match self {
            Master::Primary => 0x80,
            Master::Secondary => 0,
        }
    }

    pub(crate) fn from_address_byte(byte: u8) -> (master: Master)
        ensures
            master == Master::of_byte(byte),
    {
        if byte & 0x80 == 0 {
            Master::Secondary
        } else {
            Master::Primary
        }
    }
}

/// Transport-independent node address.
#[derive(Debug, Clone, Copy, PartialEq, Eq, PartialOrd, Ord, Hash, Structural)]
pub enum Address {
    /// Short polling address in the `0..=63` range.
    Polling {
        /// Node number on the line.
        node: u8,
        /// Master performing the exchange.
        master: Master,
    },
    /// Long address composed of the expanded device type and 24-bit identifier.
    Unique {
        /// Expanded device type; its lower 14 bits are encoded in the address.
        expanded_type: u16,
        /// Unique 24-bit part of the address.
        device_id: u32,
        /// Master performing the exchange.
        master: Master,
    },
}

/// The address-byte bit that marks an unsolicited message.
pub open spec fn burst_bit(burst: bool) -> u8 {
    if burst {
        0x40
    } else {
        0
    }
}

impl Address {
    /// Every part fits its address field.
    pub open spec fn valid(self) -> bool {
        match self {
            Address::Polling { node, .. } => node <= 63,
            Address::Unique { expanded_type, device_id, .. } => expanded_type <= 0x3fff && device_id
                <= 0xff_ffff,
        }
    }

    /// Whether this is a five-byte address.
    pub open spec fn long(self) -> bool {
        self is Unique
    }

    /// The master part.
    pub open spec fn master_part(self) -> Master {
        match self {
            Address::Polling { master, .. } => master,
            Address::Unique { master, .. } => master,
        }
    }

    /// The address bytes of a frame.
    pub open spec fn wire_bytes(self, burst: bool) -> Seq<u8> {
        match self {
            Address::Polling { node, master } => seq![master.bit() | burst_bit(burst) | node],
            Address::Unique { expanded_type, device_id, master } => seq![
                master.bit() | burst_bit(burst) | ((expanded_type / 256) as u8 & 0x3f),
                (expanded_type % 256) as u8,
            ] + be24(device_id),
        }
    }

    /// The address that frame bytes stand for.
    pub open spec fn parsed(bytes: Seq<u8>, long: bool) -> Result<Address, WireError> {
        if bytes.len() < (if long {
            5int
        } else {
            1int
        }) {
            Err(WireError::Truncated)
        } else if long {
            Ok(
                Address::Unique {
                    expanded_type: from_be16(bytes[0] & 0x3f, bytes[1]),
                    device_id: from_be24(bytes[2], bytes[3], bytes[4]),
                    master: Master::of_byte(bytes[0]),
                },
            )
        } else {
            Ok(Address::Polling { node: bytes[0] & 0x3f, master: Master::of_byte(bytes[0]) })
        }
    }

    /// Creates a validated short address.
    pub fn polling(node: u8, master: Master) -> (result: Result<Self, WireError>)
        ensures
            result == if node > 63 {
                Err(WireError::PollingAddress(node))
            } else {
                Ok(Address::Polling { node, master })
            },
    {
        if node > 63 {
            return Err(WireError::PollingAddress(node));
        }
        Ok(Address::Polling { node, master })
    }

    /// Creates a validated long address.
    pub fn unique(expanded_type: u16, device_id: u32, master: Master) -> (result: Result<
        Self,
        WireError,
    >)
        ensures
            result == if expanded_type > 0x3fff {
                Err(WireError::ExpandedDeviceType(expanded_type))
            } else if device_id > 0xff_ffff {
                Err(WireError::DeviceIdentifier(device_id))
            } else {
                Ok(Address::Unique { expanded_type, device_id, master })
            },
    {
        if expanded_type > 0x3fff {
            return Err(WireError::ExpandedDeviceType(expanded_type));
        }
        if device_id > 0x00ff_ffff {
            return Err(WireError::DeviceIdentifier(device_id));
        }
        Ok(Address::Unique { expanded_type, device_id, master })
    }

    /// Returns the number of address bytes in the frame.
    pub fn encoded_len(self) -> (length: usize)
        ensures
            length == (if self.long() {
                5usize
            } else {
                1usize
            }),
            forall|burst: bool| length == #[trigger] self.wire_bytes(burst).len(),
    {
        match self {
            Address::Polling { .. } => 1,
            Address::Unique { .. } => 5,
        }
    }

    /// Returns the master encoded in the address.
    pub fn master(self) -> (master: Master)
        ensures
            master == self.master_part(),
    {
        match self {
            Address::Polling { master, .. } => master,
            Address::Unique { master, .. } => master,
        }
    }

    /// Returns the short polling node, if this is a short address.
    pub fn polling_node(self) -> (node: Option<u8>)
        ensures
            node == match self {
                Address::Polling { node, .. } => Some(node),
                Address::Unique { .. } => None,
            },
    {
        match self {
            Address::Polling { node, .. } => Some(node),
            Address::Unique { .. } => None,
        }
    }

    /// Returns the expanded device type and 24-bit identifier of a long address.
    pub fn unique_parts(self) -> (parts: Option<(u16, u32)>)
        ensures
            parts == match self {
                Address::Unique { expanded_type, device_id, .. } => Some(
                    (expanded_type, device_id),
                ),
                Address::Polling { .. } => None,
            },
    {
        match self {
            Address::Unique { expanded_type, device_id, .. } => Some((expanded_type, device_id)),
            Address::Polling { .. } => None,
        }
    }

    pub(crate) fn write_to(self, burst: bool, output: &mut Vec<u8>)
        ensures
            final(output)@ == old(output)@ + self.wire_bytes(burst),
    {
        let flag: u8 = if burst {
            0x40
        } else {
            0
        };
        match self {
            Address::Polling { node, master } => {
                output.push(master.address_bit() | flag | node);
                assert(output@ =~= old(output)@ + self.wire_bytes(burst));
            },
            Address::Unique { expanded_type, device_id, master } => {
                output.push(master.address_bit() | flag | ((expanded_type / 256) as u8 & 0x3f));
                output.push((expanded_type % 256) as u8);
                push24(output, device_id);
                assert(output@ =~= old(output)@ + self.wire_bytes(burst));
            },
        }
    }

    pub(crate) fn read_from(bytes: &[u8], from: usize, long: bool) -> (result: Result<
        Self,
        WireError,
    >)
        requires
            from <= bytes@.len(),
        ensures
            result == Address::parsed(bytes@.subrange(from as int, bytes@.len() as int), long),
            result matches Ok(address) ==> address.valid() && address.long() == long,
    {
        let available: usize = bytes.len() - from;
        if available == 0 {
            return Err(WireError::Truncated);
        }
        let first = bytes[from];
        let master = Master::from_address_byte(first);
        let low: u8 = first & 0x3f;
        proof {
            lemma_low_bits(first);
        }
        if !long {
            return Ok(Address::Polling { node: low, master });
        }
        if available < 5 {
            return Err(WireError::Truncated);
        }
        Ok(
            Address::Unique {
                expanded_type: join16(low, bytes[from + 1]),
                device_id: join24(bytes[from + 2], bytes[from + 3], bytes[from + 4]),
                master,
            },
        )
    }
}

proof fn lemma_low_bits(byte: u8)
    by (bit_vector)
    ensures
        byte & 0x3f <= 63,
{
}

proof fn lemma_address_byte(master: u8, burst: u8, low: u8)
    by (bit_vector)
    requires
        master == 0 || master == 0x80,
        burst == 0 || burst == 0x40,
        low <= 63,
    ensures
        (master | burst | low) & 0x3f == low,
        ((master | burst | low) & 0x80 == 0) == (master == 0),
        low & 0x3f == low,
{
}

/// Reading the bytes of a valid address gives the address back, whatever the
/// burst flag and whatever follows.
pub proof fn lemma_address_round_trip(address: Address, burst: bool, rest: Seq<u8>)
    requires
        address.valid(),
    ensures
        Address::parsed(address.wire_bytes(burst) + rest, address.long()) == Ok::<
            Address,
            WireError,
        >(address),
{
    let bytes = address.wire_bytes(burst) + rest;
    match address {
        Address::Polling { node, master } => {
            lemma_address_byte(master.bit(), burst_bit(burst), node);
            assert(bytes[0] == master.bit() | burst_bit(burst) | node);
        },
        Address::Unique { expanded_type, device_id, master } => {
            let high = (expanded_type / 256) as u8;
            lemma_address_byte(master.bit(), burst_bit(burst), high);
            assert(bytes[0] == master.bit() | burst_bit(burst) | high);
            assert(bytes[1] == (expanded_type % 256) as u8);
            assert(bytes.subrange(2, 5) =~= be24(device_id));
            assert(bytes[2] == be24(device_id)[0]);
            assert(bytes[3] == be24(device_id)[1]);
            assert(bytes[4] == be24(device_id)[2]);
        },
    }
}

/// A polling address is made of a node up to 63 and a unique address of a type
/// of 14 and a device number of 24 bits. On the wire the highest bit of the
/// first byte tells the primary master, the next one a burst, and the rest is
/// the number, most significant byte first.
pub proof fn lemma_bits_of_an_address(
    node: u8,
    expanded_type: u16,
    device_id: u32,
    master: Master,
    burst: bool,
    polling: Result<Address, WireError>,
    unique: Result<Address, WireError>,
)
    requires
        call_ensures(Address::polling, (node, master), polling),
        call_ensures(Address::unique, (expanded_type, device_id, master), unique),
    ensures
        polling is Ok <==> node < 64,
        unique is Ok <==> expanded_type < 0x4000 && device_id < 0x100_0000,
        polling matches Ok(address) ==> address == (Address::Polling { node, master })
            && address.wire_bytes(burst).len() == 1 && address.wire_bytes(burst)[0] == node + (
        if master is Primary {
            128int
        } else {
            0
        }) + (if burst {
            64int
        } else {
            0
        }),
        unique matches Ok(address) ==> address == (Address::Unique {
            expanded_type,
            device_id,
            master,
        }) && address.wire_bytes(burst).len() == 5 && address.wire_bytes(burst)[0]
            == expanded_type / 256 + (if master is Primary {
            128int
        } else {
            0
        }) + (if burst {
            64int
        } else {
            0
        }) && address.wire_bytes(burst)[1] == expanded_type % 256 && address.wire_bytes(burst)[2]
            == device_id / 0x1_0000 && address.wire_bytes(burst)[3] == device_id / 0x100 % 0x100
            && address.wire_bytes(burst)[4] == device_id % 0x100,
{
    if node < 64 {
        lemma_sum_of_bits(master.bit(), burst_bit(burst), node);
    }
    if expanded_type < 0x4000 {
        let high = (expanded_type / 256) as u8;
        lemma_sum_of_bits(master.bit(), burst_bit(burst), high);
        lemma_address_byte(master.bit(), burst_bit(burst), high);
    }
}

proof fn lemma_sum_of_bits(master: u8, burst: u8, low: u8)
    by (bit_vector)
    requires
        master == 0 || master == 0x80,
        burst == 0 || burst == 0x40,
        low <= 63,
    ensures
        (master | burst | low) == master + burst + low,
{
}

} // verus!
