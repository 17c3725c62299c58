use vstd::prelude::*;

use crate::catalog::{declared_safety, registered_safety, OperationSafety};
use crate::operation::codec::truncated;
use crate::operation::{
    CommandCode, DeviceReply, Operation, OperationError, PayloadReader, PayloadWriter, ReplyView,
};

verus! {

/// Short address and loop-current mode configuration.
#[derive(Debug, Clone, Copy, PartialEq, Eq, Structural)]
pub struct PollingAddress {
    /// Short address in the `0..=63` range.
    pub node: u8,
    /// Whether loop current is enabled independently of the address.
    pub loop_current_enabled: bool,
}

impl PollingAddress {
    /// Creates a validated HART 6/7 polling-address configuration.
    pub fn new(node: u8, loop_current_enabled: bool) -> (result: Result<Self, OperationError>)
        ensures
            result == if node > 63 {
                Err(OperationError::InvalidValue("polling address"))
            } else {
                Ok(PollingAddress { node, loop_current_enabled })
            },
    {
        if node > 63 {
            return Err(OperationError::InvalidValue("polling address"));
        }
        Ok(PollingAddress { node, loop_current_enabled })
    }
}

/// Changes the short polling address using the two-byte HART 6/7 Command 6 request.
#[derive(Debug, Clone, Copy)]
pub struct WritePollingAddress {
    /// New configuration.
    pub value: PollingAddress,
}

impl WritePollingAddress {
    /// Creates a validated HART 6/7 Command 6 operation.
    pub fn new(node: u8, loop_current_enabled: bool) -> (result: Result<Self, OperationError>)
        ensures
            result == if node > 63 {
                Err(OperationError::InvalidValue("polling address"))
            } else {
                Ok(WritePollingAddress { value: PollingAddress { node, loop_current_enabled } })
            },
    {
        let value = PollingAddress::new(node, loop_current_enabled)?;
        Ok(WritePollingAddress { value })
    }
}

/// Changes the short polling address using the one-byte HART 5 Command 6 request.
#[derive(Debug, Clone, Copy)]
pub struct WriteLegacyPollingAddress {
    /// New address in `0..=15` for a conforming HART 5 multidrop loop.
    pub node: u8,
}

impl WriteLegacyPollingAddress {
    /// Creates a validated one-byte HART 5 Command 6 operation.
    pub fn new(node: u8) -> (result: Result<Self, OperationError>)
        ensures
            result == if node > 15 {
                Err(OperationError::InvalidValue("HART 5 polling address"))
            } else {
                Ok(WriteLegacyPollingAddress { node })
            },
    {
        if node > 15 {
            return Err(OperationError::InvalidValue("HART 5 polling address"));
        }
        Ok(WriteLegacyPollingAddress { node })
    }
}

/// Reads the complete address and loop-current configuration with Command 7.
#[derive(Debug, Clone, Copy, Default)]
pub struct ReadLoopConfiguration;

/// Command 7 response preserving an unknown mode code.
#[derive(Debug, Clone, Copy, PartialEq, Eq, Structural)]
pub struct LoopConfiguration {
    /// Short address.
    pub node: u8,
    /// Loop-current mode code, when supplied by the device.
    pub loop_current_mode: Option<u8>,
}

/// The address and optional mode byte of a Command 6 or 7 reply.
pub open spec fn loop_configuration(data: Seq<u8>) -> Result<LoopConfiguration, OperationError> {
    if data.len() == 0 {
        truncated("polling address", 0)
    } else if data.len() > 2 {
        Err(OperationError::TrailingBytes((data.len() - 2) as usize))
    } else {
        Ok(
            LoopConfiguration {
                node: data[0] % 64,
                loop_current_mode: if data.len() == 2 {
                    Some(data[1])
                } else {
                    None
                },
            },
        )
    }
}

/// A Command 6 reply: without a mode byte, only address zero enables the loop current.
pub open spec fn polling_address(data: Seq<u8>) -> Result<PollingAddress, OperationError> {
    match loop_configuration(data) {
        Err(error) => Err(error),
        Ok(configuration) => Ok(
            PollingAddress {
                node: configuration.node,
                loop_current_enabled: match configuration.loop_current_mode {
                    Some(mode) => mode != 0,
                    None => configuration.node == 0,
                },
            },
        ),
    }
}

fn decode_loop_configuration(data: &[u8]) -> (result: Result<LoopConfiguration, OperationError>)
    ensures
        result == loop_configuration(data@),
{
    let mut reader = PayloadReader::new(data);
    let node = reader.u8("polling address")? % 64;
    let loop_current_mode = if reader.remaining() > 0 {
        Some(reader.u8("loop-current mode")?)
    } else {
        None
    };
    reader.finish()?;
    Ok(LoopConfiguration { node, loop_current_mode })
}

fn decode_polling_address(data: &[u8]) -> (result: Result<PollingAddress, OperationError>)
    ensures
        result == polling_address(data@),
{
    let configuration = decode_loop_configuration(data)?;
    Ok(
        PollingAddress {
            node: configuration.node,
            loop_current_enabled: match configuration.loop_current_mode {
                Some(mode) => mode != 0,
                None => configuration.node == 0,
            },
        },
    )
}

impl Operation for ReadLoopConfiguration {
    type Output = LoopConfiguration;

    open spec fn code(&self) -> CommandCode {
        CommandCode(7)
    }

    open spec fn safety(&self) -> OperationSafety {
        declared_safety(self.code().0)
    }

    open spec fn payload(&self) -> Result<Seq<u8>, OperationError> {
        Ok(seq![])
    }

    open spec fn decodes(
        &self,
        reply: ReplyView,
        result: Result<LoopConfiguration, OperationError>,
    ) -> bool {
        result == match reply.status_error(self.code()) {
            Some(error) => Err::<LoopConfiguration, OperationError>(error),
            None => loop_configuration(reply.data),
        }
    }

    fn command(&self) -> CommandCode {
        CommandCode(7)
    }

    fn retry_safety(&self) -> OperationSafety {
        registered_safety(self.command())
    }

    fn encode_request(&self, _writer: &mut PayloadWriter) -> Result<(), OperationError> {
        assert(_writer@ =~= old(_writer)@ + Seq::<u8>::empty());
        Ok(())
    }

    fn decode_reply(&self, reply: &DeviceReply) -> Result<LoopConfiguration, OperationError> {
        reply.require_success(self.command())?;
        decode_loop_configuration(&reply.data)
    }
}

impl Operation for WritePollingAddress {
    type Output = PollingAddress;

    open spec fn code(&self) -> CommandCode {
        CommandCode(6)
    }

    open spec fn safety(&self) -> OperationSafety {
        declared_safety(self.code().0)
    }

    open spec fn payload(&self) -> Result<Seq<u8>, OperationError> {
        if self.value.node > 63 {
            Err(OperationError::InvalidValue("polling address"))
        } else {
            Ok(
                seq![
                    self.value.node,
                    if self.value.loop_current_enabled {
                        1
                    } else {
                        0
                    },
                ],
            )
        }
    }

    open spec fn decodes(
        &self,
        reply: ReplyView,
        result: Result<PollingAddress, OperationError>,
    ) -> bool {
        result == match reply.status_error(self.code()) {
            Some(error) => Err::<PollingAddress, OperationError>(error),
            None => polling_address(reply.data),
        }
    }

    fn command(&self) -> CommandCode {
        CommandCode(6)
    }

    fn retry_safety(&self) -> OperationSafety {
        registered_safety(self.command())
    }

    fn encode_request(&self, writer: &mut PayloadWriter) -> Result<(), OperationError> {
        if self.value.node > 63 {
            return Err(OperationError::InvalidValue("polling address"));
        }
        writer.u8(self.value.node);
        writer.u8(
            if self.value.loop_current_enabled {
                1
            } else {
                0
            },
        );
        assert(writer@ =~= old(writer)@ + self.payload()->Ok_0);
        Ok(())
    }

    fn decode_reply(&self, reply: &DeviceReply) -> Result<PollingAddress, OperationError> {
        reply.require_success(self.command())?;
        decode_polling_address(&reply.data)
    }
}

impl Operation for WriteLegacyPollingAddress {
    type Output = PollingAddress;

    open spec fn code(&self) -> CommandCode {
        CommandCode(6)
    }

    open spec fn safety(&self) -> OperationSafety {
        declared_safety(self.code().0)
    }

    open spec fn payload(&self) -> Result<Seq<u8>, OperationError> {
        if self.node > 15 {
            Err(OperationError::InvalidValue("HART 5 polling address"))
        } else {
            Ok(seq![self.node])
        }
    }

    open spec fn decodes(
        &self,
        reply: ReplyView,
        result: Result<PollingAddress, OperationError>,
    ) -> bool {
        result == match reply.status_error(self.code()) {
            Some(error) => Err::<PollingAddress, OperationError>(error),
            None => polling_address(reply.data),
        }
    }

    fn command(&self) -> CommandCode {
        CommandCode(6)
    }

    fn retry_safety(&self) -> OperationSafety {
        registered_safety(self.command())
    }

    fn encode_request(&self, writer: &mut PayloadWriter) -> Result<(), OperationError> {
        if self.node > 15 {
            return Err(OperationError::InvalidValue("HART 5 polling address"));
        }
        writer.u8(self.node);
        assert(writer@ =~= old(writer)@ + seq![self.node]);
        Ok(())
    }

    fn decode_reply(&self, reply: &DeviceReply) -> Result<PollingAddress, OperationError> {
        reply.require_success(self.command())?;
        decode_polling_address(&reply.data)
    }
}

} // verus!
