use vstd::prelude::*;

use crate::bytes::{be24, copy_bytes, from_be24};
use crate::catalog::{declared_safety, registered_safety, OperationSafety};
use crate::operation::codec::truncated;
use crate::operation::{
    CommandCode, DeviceReply, Operation, OperationError, PayloadReader, PayloadWriter, ReplyView,
};

verus! {

/// Reads primary transducer information with Command 14.
#[derive(Debug, Clone, Copy, Default)]
pub struct ReadTransducerInformation;

/// Reads primary output information with Command 15.
#[derive(Debug, Clone, Copy, Default)]
pub struct ReadOutputInformation;

/// Information kept as the device sent it; an empty reply carries none.
pub open spec fn information_of(
    command: CommandCode,
    reply: ReplyView,
    result: Result<Vec<u8>, OperationError>,
) -> bool {
    match reply.status_error(command) {
        Some(error) => result == Err::<Vec<u8>, OperationError>(error),
        None => if reply.data.len() == 0 {
            result == Err::<Vec<u8>, OperationError>(
                OperationError::InvalidValue("empty device information"),
            )
        } else {
            result matches Ok(bytes) && bytes@ == reply.data
        },
    }
}

fn decode_information(command: CommandCode, reply: &DeviceReply) -> (result: Result<
    Vec<u8>,
    OperationError,
>)
    ensures
        information_of(command, reply@, result),
{
    reply.require_success(command)?;
    if reply.data.is_empty() {
        return Err(OperationError::InvalidValue("empty device information"));
    }
    Ok(copy_bytes(&reply.data))
}

/// Reads the 24-bit final assembly number with Command 16.
#[derive(Debug, Clone, Copy, Default)]
pub struct ReadFinalAssemblyNumber;

/// Writes the 24-bit final assembly number with Command 19.
#[derive(Debug, Clone, Copy, PartialEq, Eq, Structural)]
pub struct WriteFinalAssemblyNumber(pub u32);

impl WriteFinalAssemblyNumber {
    /// Creates a value that fits the 24-bit Command 19 field.
    pub fn new(value: u32) -> (result: Result<Self, OperationError>)
        ensures
            result == if value > 0xff_ffff {
                Err(OperationError::InvalidValue("24-bit integer"))
            } else {
                Ok(WriteFinalAssemblyNumber(value))
            },
    {
        if value > 0x00ff_ffff {
            return Err(OperationError::InvalidValue("24-bit integer"));
        }
        Ok(WriteFinalAssemblyNumber(value))
    }
}

/// The number in exactly three bytes.
pub open spec fn assembly_number(data: Seq<u8>) -> Result<u32, OperationError> {
    if data.len() < 3 {
        truncated("final assembly number", 0)
    } else if data.len() > 3 {
        Err(OperationError::TrailingBytes((data.len() - 3) as usize))
    } else {
        Ok(from_be24(data[0], data[1], data[2]))
    }
}

fn decode_assembly_number(data: &[u8]) -> (result: Result<u32, OperationError>)
    ensures
        result == assembly_number(data@),
{
    let mut reader = PayloadReader::new(data);
    let number = reader.u24("final assembly number")?;
    reader.finish()?;
    Ok(number)
}

impl Operation for ReadTransducerInformation {
    type Output = Vec<u8>;

    open spec fn code(&self) -> CommandCode {
        CommandCode(14)
    }

    open spec fn safety(&self) -> OperationSafety {
        declared_safety(self.code().0)
    }

    open spec fn payload(&self) -> Result<Seq<u8>, OperationError> {
        Ok(seq![])
    }

    open spec fn decodes(
        &self,
        reply: ReplyView,
        result: Result<Vec<u8>, OperationError>,
    ) -> bool {
        information_of(self.code(), reply, result)
    }

    fn command(&self) -> CommandCode {
        CommandCode(14)
    }

    fn retry_safety(&self) -> OperationSafety {
        registered_safety(self.command())
    }

    fn encode_request(&self, _writer: &mut PayloadWriter) -> Result<(), OperationError> {
        assert(_writer@ =~= old(_writer)@ + Seq::<u8>::empty());
        Ok(())
    }

    fn decode_reply(&self, reply: &DeviceReply) -> Result<Vec<u8>, OperationError> {
        decode_information(self.command(), reply)
    }
}

impl Operation for ReadOutputInformation {
    type Output = Vec<u8>;

    open spec fn code(&self) -> CommandCode {
        CommandCode(15)
    }

    open spec fn safety(&self) -> OperationSafety {
        declared_safety(self.code().0)
    }

    open spec fn payload(&self) -> Result<Seq<u8>, OperationError> {
        Ok(seq![])
    }

    open spec fn decodes(
        &self,
        reply: ReplyView,
        result: Result<Vec<u8>, OperationError>,
    ) -> bool {
        information_of(self.code(), reply, result)
    }

    fn command(&self) -> CommandCode {
        CommandCode(15)
    }

    fn retry_safety(&self) -> OperationSafety {
        registered_safety(self.command())
    }

    fn encode_request(&self, _writer: &mut PayloadWriter) -> Result<(), OperationError> {
        assert(_writer@ =~= old(_writer)@ + Seq::<u8>::empty());
        Ok(())
    }

    fn decode_reply(&self, reply: &DeviceReply) -> Result<Vec<u8>, OperationError> {
        decode_information(self.command(), reply)
    }
}

impl Operation for ReadFinalAssemblyNumber {
    type Output = u32;

    open spec fn code(&self) -> CommandCode {
        CommandCode(16)
    }

    open spec fn safety(&self) -> OperationSafety {
        declared_safety(self.code().0)
    }

    open spec fn payload(&self) -> Result<Seq<u8>, OperationError> {
        Ok(seq![])
    }

    open spec fn decodes(
        &self,
        reply: ReplyView,
        result: Result<u32, OperationError>,
    ) -> bool {
        result == match reply.status_error(self.code()) {
            Some(error) => Err::<u32, OperationError>(error),
            None => assembly_number(reply.data),
        }
    }

    fn command(&self) -> CommandCode {
        CommandCode(16)
    }

    fn retry_safety(&self) -> OperationSafety {
        registered_safety(self.command())
    }

    fn encode_request(&self, _writer: &mut PayloadWriter) -> Result<(), OperationError> {
        assert(_writer@ =~= old(_writer)@ + Seq::<u8>::empty());
        Ok(())
    }

    fn decode_reply(&self, reply: &DeviceReply) -> Result<u32, OperationError> {
        reply.require_success(self.command())?;
        decode_assembly_number(&reply.data)
    }
}

impl Operation for WriteFinalAssemblyNumber {
    type Output = u32;

    open spec fn code(&self) -> CommandCode {
        CommandCode(19)
    }

    open spec fn safety(&self) -> OperationSafety {
        declared_safety(self.code().0)
    }

    open spec fn payload(&self) -> Result<Seq<u8>, OperationError> {
        if self.0 > 0xff_ffff {
            Err(OperationError::InvalidValue("24-bit integer"))
        } else {
            Ok(be24(self.0))
        }
    }

    open spec fn decodes(
        &self,
        reply: ReplyView,
        result: Result<u32, OperationError>,
    ) -> bool {
        result == match reply.status_error(self.code()) {
            Some(error) => Err::<u32, OperationError>(error),
            None => if reply.data.len() == 0 {
                Ok(self.0)
            } else {
                assembly_number(reply.data)
            },
        }
    }

    fn command(&self) -> CommandCode {
        CommandCode(19)
    }

    fn retry_safety(&self) -> OperationSafety {
        registered_safety(self.command())
    }

    fn encode_request(&self, writer: &mut PayloadWriter) -> Result<(), OperationError> {
        writer.u24(self.0)?;
        Ok(())
    }

    fn decode_reply(&self, reply: &DeviceReply) -> Result<u32, OperationError> {
        reply.require_success(self.command())?;
        if reply.data.is_empty() {
            return Ok(self.0);
        }
        decode_assembly_number(&reply.data)
    }
}

} // verus!
