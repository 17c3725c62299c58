use vstd::prelude::*;

use crate::bytes::{copy_bytes, copy_range, from_be16, from_be24, join16, join24};
use crate::catalog::{
    declared_constraint, declared_safety, registered_safety, request_constraint, OperationSafety,
};
use crate::operation::text::{encode_latin1, latin1, pack_text, packed_text};
use crate::operation::{
    CommandCode, DeviceReply, Operation, OperationError, PayloadWriter, ReplyView,
};
use crate::wire::{Address, Master, WireError};

verus! {

/// Requests device identification.
#[derive(Debug, Clone, Copy, Default)]
pub struct ReadDeviceIdentity;

/// Identification operation for Commands 0, 11, 21, 73, and 75.
#[derive(Debug, Clone, PartialEq, Eq)]
pub struct ReadIdentity {
    command: CommandCode,
    request_data: Vec<u8>,
}

/// The commands that identify a device.
pub open spec fn identifies(command: u8) -> bool {
    command == 0 || command == 11 || command == 21 || command == 73 || command == 75
}

/// The result of creating an identification operation.
pub open spec fn identification_created(
    command: u8,
    data: Seq<u8>,
    result: Result<ReadIdentity, OperationError>,
) -> bool {
    if !identifies(command) {
        result == Err::<ReadIdentity, OperationError>(
            OperationError::InvalidValue("identification command number"),
        )
    } else if !declared_constraint(command as u16).accepts(data.len() as int) {
        result == Err::<ReadIdentity, OperationError>(
            OperationError::RequestLength { command: command as u16, actual: data.len() as usize },
        )
    } else {
        result matches Ok(operation) && operation.code() == CommandCode(command as u16)
            && operation.payload() == Ok::<Seq<u8>, OperationError>(data)
    }
}

impl ReadIdentity {
    /// Creates one of the identification commands.
    pub fn new(command: u8, request_data: Vec<u8>) -> (result: Result<Self, OperationError>)
        ensures
            identification_created(command, request_data@, result),
    {
        if command != 0 && command != 11 && command != 21 && command != 73 && command != 75 {
            return Err(OperationError::InvalidValue("identification command number"));
        }
        let code = CommandCode(command as u16);
        if !request_constraint(code).allows(request_data.len()) {
            return Err(
                OperationError::RequestLength {
                    command: command as u16,
                    actual: request_data.len(),
                },
            );
        }
        Ok(ReadIdentity { command: code, request_data })
    }

    /// Creates Command 11 from an eight-character short tag.
    pub fn by_tag(tag: &str) -> (result: Result<Self, OperationError>)
        ensures
            match packed_text(tag@, 6) {
                Ok(data) => result is Ok && identification_created(11, data, result),
                Err(error) => result == Err::<Self, OperationError>(error),
            },
    {
        let data = pack_text(tag, 6)?;
        ReadIdentity::new(11, data)
    }

    /// Creates Command 21 from a long Latin-1 tag.
    pub fn by_long_tag(tag: &str) -> (result: Result<Self, OperationError>)
        ensures
            match latin1(tag@, 32) {
                Ok(data) => result is Ok && identification_created(21, data, result),
                Err(error) => result == Err::<Self, OperationError>(error),
            },
    {
        let data = encode_latin1(tag, 32)?;
        ReadIdentity::new(21, data)
    }
}

/// Identification data that preserves an unknown response tail.
#[derive(Debug, PartialEq, Eq)]
pub struct DeviceIdentity {
    /// Response format identifier, normally `0xFE`.
    pub response_identifier: u8,
    /// Manufacturer identifier.
    pub manufacturer_id: u16,
    /// Expanded device type.
    pub device_type: u16,
    /// Number of request preambles required by the device.
    pub request_preambles: u8,
    /// Universal-command revision.
    pub universal_revision: u8,
    /// Device-specific revision.
    pub device_revision: u8,
    /// Software revision.
    pub software_revision: u8,
    /// Hardware revision without physical-signal bits.
    pub hardware_revision: u8,
    /// Supported physical-signal code.
    pub physical_signaling: u8,
    /// Device capability flags.
    pub flags: u8,
    /// Unique 24-bit part of the address.
    pub device_id: u32,
    /// Required response preamble count in newer revisions.
    pub response_preambles: Option<u8>,
    /// Maximum number of device variables.
    pub maximum_device_variables: Option<u8>,
    /// Configuration-change counter.
    pub configuration_change_counter: Option<u16>,
    /// Extended device status.
    pub extended_status: Option<u8>,
    /// Private-label distributor identifier.
    pub private_label_distributor: Option<u16>,
    /// Device profile code.
    pub device_profile: Option<u8>,
    /// Additional data introduced by newer revisions.
    pub extension: Vec<u8>,
}

/// What an identification holds, with its extension as a sequence.
#[verifier::ext_equal]
pub struct IdentityView {
    pub response_identifier: u8,
    pub manufacturer_id: u16,
    pub device_type: u16,
    pub request_preambles: u8,
    pub universal_revision: u8,
    pub device_revision: u8,
    pub software_revision: u8,
    pub hardware_revision: u8,
    pub physical_signaling: u8,
    pub flags: u8,
    pub device_id: u32,
    pub response_preambles: Option<u8>,
    pub maximum_device_variables: Option<u8>,
    pub configuration_change_counter: Option<u16>,
    pub extended_status: Option<u8>,
    pub private_label_distributor: Option<u16>,
    pub device_profile: Option<u8>,
    pub extension: Seq<u8>,
}

impl View for DeviceIdentity {
    type V = IdentityView;

    open spec fn view(&self) -> IdentityView {
        IdentityView {
            response_identifier: self.response_identifier,
            manufacturer_id: self.manufacturer_id,
            device_type: self.device_type,
            request_preambles: self.request_preambles,
            universal_revision: self.universal_revision,
            device_revision: self.device_revision,
            software_revision: self.software_revision,
            hardware_revision: self.hardware_revision,
            physical_signaling: self.physical_signaling,
            flags: self.flags,
            device_id: self.device_id,
            response_preambles: self.response_preambles,
            maximum_device_variables: self.maximum_device_variables,
            configuration_change_counter: self.configuration_change_counter,
            extended_status: self.extended_status,
            private_label_distributor: self.private_label_distributor,
            device_profile: self.device_profile,
            extension: self.extension@,
        }
    }
}

impl Clone for DeviceIdentity {
    fn clone(&self) -> (copy: Self)
        ensures
            copy@ == self@,
    {
        DeviceIdentity {
            response_identifier: self.response_identifier,
            manufacturer_id: self.manufacturer_id,
            device_type: self.device_type,
            request_preambles: self.request_preambles,
            universal_revision: self.universal_revision,
            device_revision: self.device_revision,
            software_revision: self.software_revision,
            hardware_revision: self.hardware_revision,
            physical_signaling: self.physical_signaling,
            flags: self.flags,
            device_id: self.device_id,
            response_preambles: self.response_preambles,
            maximum_device_variables: self.maximum_device_variables,
            configuration_change_counter: self.configuration_change_counter,
            extended_status: self.extended_status,
            private_label_distributor: self.private_label_distributor,
            device_profile: self.device_profile,
            extension: copy_bytes(&self.extension),
        }
    }
}

/// The length that an identification must have under a universal revision.
pub open spec fn required_length(universal_revision: u8) -> int {
    if universal_revision <= 5 {
        12
    } else if universal_revision == 6 {
        17
    } else {
        22
    }
}

/// The identification that a payload holds, or what is wrong with it.
pub open spec fn identity_of(data: Seq<u8>) -> Result<IdentityView, OperationError> {
    let revision = data[4];
    if data.len() < 12 {
        Err(
            OperationError::Truncated {
                field: "mandatory identification",
                offset: data.len() as usize,
            },
        )
    } else if data[0] != 0xfe {
        Err(OperationError::InvalidValue("Command 0 response identifier"))
    } else if data[3] == 0 {
        Err(OperationError::InvalidValue("request preamble count"))
    } else if data.len() < required_length(revision) {
        Err(
            OperationError::Truncated {
                field: "identification data for the selected HART revision",
                offset: data.len() as usize,
            },
        )
    } else {
        Ok(
            IdentityView {
                response_identifier: data[0],
                manufacturer_id: if revision >= 7 {
                    from_be16(data[17], data[18])
                } else {
                    data[1] as u16
                },
                device_type: if revision >= 7 {
                    from_be16(data[1], data[2])
                } else {
                    data[2] as u16
                },
                request_preambles: data[3],
                universal_revision: revision,
                device_revision: data[5],
                software_revision: data[6],
                hardware_revision: data[7] / 8,
                physical_signaling: data[7] % 8,
                flags: data[8],
                device_id: from_be24(data[9], data[10], data[11]),
                response_preambles: if revision >= 6 {
                    Some(data[12])
                } else {
                    None
                },
                maximum_device_variables: if revision >= 6 {
                    Some(data[13])
                } else {
                    None
                },
                configuration_change_counter: if revision >= 6 {
                    Some(from_be16(data[14], data[15]))
                } else {
                    None
                },
                extended_status: if revision >= 6 {
                    Some(data[16])
                } else {
                    None
                },
                private_label_distributor: if revision >= 7 {
                    Some(from_be16(data[19], data[20]))
                } else {
                    None
                },
                device_profile: if revision >= 7 {
                    Some(data[21])
                } else {
                    None
                },
                extension: data.skip(required_length(revision)),
            },
        )
    }
}

impl IdentityView {
    /// The 14-bit expanded device type of the long address.
    pub open spec fn address_type(self) -> u16 {
        if self.universal_revision >= 7 {
            self.device_type % 0x4000
        } else {
            ((self.manufacturer_id % 64) * 256 + self.device_type % 256) as u16
        }
    }

    /// The long address, unless the identifier does not fit it.
    pub open spec fn long_address(self, master: Master) -> Result<Address, WireError> {
        if self.device_id > 0xff_ffff {
            Err(WireError::DeviceIdentifier(self.device_id))
        } else {
            Ok(
                Address::Unique {
                    expanded_type: self.address_type(),
                    device_id: self.device_id,
                    master,
                },
            )
        }
    }
}

impl DeviceIdentity {
    /// Returns the 14-bit expanded device type used in a long HART address.
    ///
    /// Command 0 encodes this value differently before HART 7: the high
    /// address byte comes from the legacy manufacturer field and the low byte
    /// comes from the legacy device type. HART 7 and newer return the expanded
    /// type directly in those two positions.
    pub fn address_device_type(&self) -> (device_type: u16)
        ensures
            device_type == self@.address_type(),
            device_type <= 0x3fff,
    {
        if self.universal_revision >= 7 {
            self.device_type % 0x4000
        } else {
            (self.manufacturer_id % 64) * 256 + self.device_type % 256
        }
    }

    /// Builds the unique address that must be used after discovery.
    pub fn unique_address(&self, master: Master) -> (result: Result<Address, WireError>)
        ensures
            result == self@.long_address(master),
    {
        Address::unique(self.address_device_type(), self.device_id, master)
    }
}

/// An identification that was read from a device always has a valid long address.
pub proof fn lemma_identity_has_address(data: Seq<u8>, master: Master)
    requires
        identity_of(data) is Ok,
    ensures
        identity_of(data)->Ok_0.long_address(master) matches Ok(address) && address.valid(),
{
}

fn decode_identity_data(data: &[u8]) -> (result: Result<DeviceIdentity, OperationError>)
    ensures
        match identity_of(data@) {
            Ok(expected) => result matches Ok(identity) && identity@ == expected,
            Err(error) => result == Err::<DeviceIdentity, OperationError>(error),
        },
{
    let length: usize = data.len();
    if length < 12 {
        return Err(OperationError::Truncated { field: "mandatory identification", offset: length });
    }
    let response_identifier: u8 = data[0];
    if response_identifier != 0xfe {
        return Err(OperationError::InvalidValue("Command 0 response identifier"));
    }
    let request_preambles: u8 = data[3];
    if request_preambles == 0 {
        return Err(OperationError::InvalidValue("request preamble count"));
    }
    let universal_revision: u8 = data[4];
    let required: usize = match universal_revision {
        0..=5 => 12,
        6 => 17,
        _ => 22,
    };
    if length < required {
        return Err(
            OperationError::Truncated {
                field: "identification data for the selected HART revision",
                offset: length,
            },
        );
    }
    let since_six = universal_revision >= 6;
    let since_seven = universal_revision >= 7;
    let extension = copy_range(data, required, length);
    assert(extension@ =~= data@.skip(required as int));
    Ok(
        DeviceIdentity {
            response_identifier,
            manufacturer_id: if since_seven {
                join16(data[17], data[18])
            } else {
                data[1] as u16
            },
            device_type: if since_seven {
                join16(data[1], data[2])
            } else {
                data[2] as u16
            },
            request_preambles,
            universal_revision,
            device_revision: data[5],
            software_revision: data[6],
            hardware_revision: data[7] / 8,
            physical_signaling: data[7] % 8,
            flags: data[8],
            device_id: join24(data[9], data[10], data[11]),
            response_preambles: if since_six {
                Some(data[12])
            } else {
                None
            },
            maximum_device_variables: if since_six {
                Some(data[13])
            } else {
                None
            },
            configuration_change_counter: if since_six {
                Some(join16(data[14], data[15]))
            } else {
                None
            },
            extended_status: if since_six {
                Some(data[16])
            } else {
                None
            },
            private_label_distributor: if since_seven {
                Some(join16(data[19], data[20]))
            } else {
                None
            },
            device_profile: if since_seven {
                Some(data[21])
            } else {
                None
            },
            extension,
        },
    )
}

/// What an identification reply decodes to.
pub open spec fn identity_reply(
    command: CommandCode,
    reply: ReplyView,
    result: Result<DeviceIdentity, OperationError>,
) -> bool {
    match reply.status_error(command) {
        Some(error) => result == Err::<DeviceIdentity, OperationError>(error),
        None => match identity_of(reply.data) {
            Ok(expected) => result matches Ok(identity) && identity@ == expected,
            Err(error) => result == Err::<DeviceIdentity, OperationError>(error),
        },
    }
}

impl Operation for ReadDeviceIdentity {
    type Output = DeviceIdentity;

    open spec fn code(&self) -> CommandCode {
        CommandCode(0)
    }

    open spec fn safety(&self) -> OperationSafety {
        declared_safety(self.code().0)
    }

    open spec fn payload(&self) -> Result<Seq<u8>, OperationError> {
        Ok(seq![])
    }

    open spec fn decodes(
        &self,
        reply: ReplyView,
        result: Result<DeviceIdentity, OperationError>,
    ) -> bool {
        identity_reply(self.code(), reply, result)
    }

    fn command(&self) -> CommandCode {
        CommandCode(0)
    }

    fn retry_safety(&self) -> OperationSafety {
        registered_safety(self.command())
    }

    fn encode_request(&self, _writer: &mut PayloadWriter) -> Result<(), OperationError> {
        assert(_writer@ =~= old(_writer)@ + Seq::<u8>::empty());
        Ok(())
    }

    fn decode_reply(&self, reply: &DeviceReply) -> Result<DeviceIdentity, OperationError> {
        reply.require_success(self.command())?;
        decode_identity_data(&reply.data)
    }
}

impl Operation for ReadIdentity {
    type Output = DeviceIdentity;

    closed spec fn code(&self) -> CommandCode {
        self.command
    }

    open spec fn safety(&self) -> OperationSafety {
        declared_safety(self.code().0)
    }

    closed spec fn payload(&self) -> Result<Seq<u8>, OperationError> {
        Ok(self.request_data@)
    }

    open spec fn decodes(
        &self,
        reply: ReplyView,
        result: Result<DeviceIdentity, OperationError>,
    ) -> bool {
        identity_reply(self.code(), reply, result)
    }

    fn command(&self) -> CommandCode {
        self.command
    }

    fn retry_safety(&self) -> OperationSafety {
        registered_safety(self.command())
    }

    fn encode_request(&self, writer: &mut PayloadWriter) -> Result<(), OperationError> {
        writer.bytes(&self.request_data);
        Ok(())
    }

    fn decode_reply(&self, reply: &DeviceReply) -> Result<DeviceIdentity, OperationError> {
        reply.require_success(self.command())?;
        decode_identity_data(&reply.data)
    }
}

} // verus!
