use vstd::prelude::*;

use crate::bytes::be32;
use crate::catalog::{
    declared_constraint, declared_safety, registered_safety, request_constraint, OperationSafety,
};
use crate::float::Float32;
use crate::operation::codec::truncated;
use crate::operation::process::float_at;
use crate::operation::{
    CommandCode, DeviceReply, Operation, OperationError, PayloadReader, PayloadWriter, ReplyView,
};

verus! {

/// The only number in a reply.
pub open spec fn single_number(field: &'static str, data: Seq<u8>) -> Result<
    Float32,
    OperationError,
> {
    if data.len() < 4 {
        truncated(field, 0)
    } else if data.len() > 4 {
        Err(OperationError::TrailingBytes((data.len() - 4) as usize))
    } else {
        Ok(float_at(data, 0))
    }
}

fn decode_single_number(field: &'static str, data: &[u8]) -> (result: Result<
    Float32,
    OperationError,
>)
    ensures
        result == single_number(field, data@),
{
    let mut reader = PayloadReader::new(data);
    let value = reader.float32(field)?;
    reader.finish()?;
    Ok(value)
}

/// The only byte in a reply.
pub open spec fn single_byte(field: &'static str, data: Seq<u8>) -> Result<u8, OperationError> {
    if data.len() < 1 {
        truncated(field, 0)
    } else if data.len() > 1 {
        Err(OperationError::TrailingBytes((data.len() - 1) as usize))
    } else {
        Ok(data[0])
    }
}

fn decode_single_byte(field: &'static str, data: &[u8]) -> (result: Result<u8, OperationError>)
    ensures
        result == single_byte(field, data@),
{
    let mut reader = PayloadReader::new(data);
    let value = reader.u8(field)?;
    reader.finish()?;
    Ok(value)
}

/// Sets the damping value with Command 34.
#[derive(Debug, Clone, Copy, PartialEq, Eq, Structural)]
pub struct SetDamping {
    /// Value in seconds.
    pub seconds: Float32,
}

impl SetDamping {
    /// Creates a validated damping update.
    pub fn new(seconds: Float32) -> (result: Result<Self, OperationError>)
        ensures
            result == if !seconds.finite() || seconds.below_zero() {
                Err(OperationError::InvalidValue("damping value"))
            } else {
                Ok(SetDamping { seconds })
            },
    {
        if !seconds.is_finite() || seconds.is_below_zero() {
            return Err(OperationError::InvalidValue("damping value"));
        }
        Ok(SetDamping { seconds })
    }
}

/// Unit and range limits used by Command 35.
#[derive(Debug, Clone, Copy, PartialEq, Eq, Structural)]
pub struct RangeValues {
    /// Unit code.
    pub unit: u8,
    /// Upper limit.
    pub upper: Float32,
    /// Lower limit.
    pub lower: Float32,
}

impl RangeValues {
    /// Creates finite lower and upper range values without assuming their ordering.
    pub fn new(unit: u8, lower: Float32, upper: Float32) -> (result: Result<Self, OperationError>)
        ensures
            result == if !upper.finite() || !lower.finite() {
                Err(OperationError::InvalidValue("range limits"))
            } else {
                Ok(RangeValues { unit, upper, lower })
            },
    {
        if !upper.is_finite() || !lower.is_finite() {
            return Err(OperationError::InvalidValue("range limits"));
        }
        Ok(RangeValues { unit, upper, lower })
    }
}

/// Writes range limits with Command 35.
#[derive(Debug, Clone, Copy, PartialEq, Eq, Structural)]
pub struct SetRange(pub RangeValues);

impl SetRange {
    /// Creates a validated Command 35 operation.
    pub fn new(unit: u8, lower: Float32, upper: Float32) -> (result: Result<Self, OperationError>)
        ensures
            result == if !upper.finite() || !lower.finite() {
                Err(OperationError::InvalidValue("range limits"))
            } else {
                Ok(SetRange(RangeValues { unit, upper, lower }))
            },
    {
        let values = RangeValues::new(unit, lower, upper)?;
        Ok(SetRange(values))
    }
}

/// A unit and two limits in exactly nine bytes.
pub open spec fn range_values(data: Seq<u8>) -> Result<RangeValues, OperationError> {
    if data.len() < 1 {
        truncated("range unit", 0)
    } else if data.len() < 5 {
        truncated("upper range limit", 1)
    } else if data.len() < 9 {
        truncated("lower range limit", 5)
    } else if data.len() > 9 {
        Err(OperationError::TrailingBytes((data.len() - 9) as usize))
    } else {
        Ok(RangeValues { unit: data[0], upper: float_at(data, 1), lower: float_at(data, 5) })
    }
}

fn decode_range_values(data: &[u8]) -> (result: Result<RangeValues, OperationError>)
    ensures
        result == range_values(data@),
{
    let mut reader = PayloadReader::new(data);
    let unit = reader.u8("range unit")?;
    let upper = reader.float32("upper range limit")?;
    let lower = reader.float32("lower range limit")?;
    reader.finish()?;
    Ok(RangeValues { unit, upper, lower })
}

/// Action with no required response data.
#[derive(Debug, Clone, PartialEq, Eq)]
pub struct ActionCommand {
    command: CommandCode,
    data: Vec<u8>,
}

/// The commands that an [`ActionCommand`] can carry.
pub open spec fn is_action(command: u8) -> bool {
    36 <= command <= 38 || 41 <= command <= 43
}

impl ActionCommand {
    /// Creates one of Commands 36, 37, 38, 41, 42, or 43.
    pub fn new(command: u8, data: Vec<u8>) -> (result: Result<Self, OperationError>)
        ensures
            if !is_action(command) {
                result == Err::<Self, OperationError>(
                    OperationError::InvalidValue("action command number"),
                )
            } else if !declared_constraint(command as u16).accepts(data@.len() as int) {
                result == Err::<Self, OperationError>(
                    OperationError::RequestLength {
                        command: command as u16,
                        actual: data@.len() as usize,
                    },
                )
            } else {
                result matches Ok(operation) && operation.code() == CommandCode(command as u16)
                    && operation.payload() == Ok::<Seq<u8>, OperationError>(data@)
            },
            result matches Ok(operation) ==> operation.safety() is Action,
    {
        if !((command >= 36 && command <= 38) || (command >= 41 && command <= 43)) {
            return Err(OperationError::InvalidValue("action command number"));
        }
        let command = CommandCode(command as u16);
        if !request_constraint(command).allows(data.len()) {
            return Err(
                OperationError::RequestLength { command: command.get(), actual: data.len() },
            );
        }
        Ok(ActionCommand { command, data })
    }
}

/// Controls nonvolatile memory with Command 39.
#[derive(Debug, Clone, Copy, PartialEq, Eq, Structural)]
pub struct EepromControl(pub u8);

/// Enters or exits fixed-current mode with Command 40.
#[derive(Debug, Clone, Copy, PartialEq, Eq, Structural)]
pub struct FixedCurrent(pub Float32);

impl FixedCurrent {
    /// Creates a finite fixed-current request.
    pub fn new(milliamps: Float32) -> (result: Result<Self, OperationError>)
        ensures
            result == if !milliamps.finite() {
                Err(OperationError::InvalidValue("fixed current"))
            } else {
                Ok(FixedCurrent(milliamps))
            },
    {
        if !milliamps.is_finite() {
            return Err(OperationError::InvalidValue("fixed current"));
        }
        Ok(FixedCurrent(milliamps))
    }
}

/// Writes the primary-variable unit with Command 44.
#[derive(Debug, Clone, Copy, PartialEq, Eq, Structural)]
pub struct WritePrimaryUnit(pub u8);

/// Trims the current output with Command 45 or 46.
#[derive(Debug, Clone, Copy, PartialEq, Eq, Structural)]
pub struct AnalogTrim {
    command: CommandCode,
    /// Reference current in milliamperes.
    pub reference_current: Float32,
}

/// The result of creating a current-output trim.
pub open spec fn trim_created(
    command: u8,
    reference_current: Float32,
    result: Result<AnalogTrim, OperationError>,
) -> bool {
    if (command != 45 && command != 46) || !reference_current.finite() {
        result == Err::<AnalogTrim, OperationError>(
            OperationError::InvalidValue("current-output trim"),
        )
    } else {
        result matches Ok(operation) && operation.code() == CommandCode(command as u16)
            && operation.payload() == Ok::<Seq<u8>, OperationError>(be32(reference_current.bits))
    }
}

impl AnalogTrim {
    /// Creates a zero (`45`) or gain (`46`) trim operation.
    pub fn new(command: u8, reference_current: Float32) -> (result: Result<Self, OperationError>)
        ensures
            trim_created(command, reference_current, result),
    {
        if (command != 45 && command != 46) || !reference_current.is_finite() {
            return Err(OperationError::InvalidValue("current-output trim"));
        }
        Ok(AnalogTrim { command: CommandCode(command as u16), reference_current })
    }

    /// Creates a Command 45 zero-trim operation.
    pub fn zero(reference_current: Float32) -> (result: Result<Self, OperationError>)
        ensures
            trim_created(45, reference_current, result),
    {
        AnalogTrim::new(45, reference_current)
    }

    /// Creates a Command 46 gain-trim operation.
    pub fn gain(reference_current: Float32) -> (result: Result<Self, OperationError>)
        ensures
            trim_created(46, reference_current, result),
    {
        AnalogTrim::new(46, reference_current)
    }
}

/// Writes the transfer function with Command 47.
#[derive(Debug, Clone, Copy, PartialEq, Eq, Structural)]
pub struct WriteTransferFunction(pub u8);

impl Operation for SetDamping {
    type Output = Float32;

    open spec fn code(&self) -> CommandCode {
        CommandCode(34)
    }

    open spec fn safety(&self) -> OperationSafety {
        declared_safety(self.code().0)
    }

    open spec fn payload(&self) -> Result<Seq<u8>, OperationError> {
        if !self.seconds.finite() || self.seconds.below_zero() {
            Err(OperationError::InvalidValue("damping value"))
        } else {
            Ok(be32(self.seconds.bits))
        }
    }

    open spec fn decodes(
        &self,
        reply: ReplyView,
        result: Result<Float32, OperationError>,
    ) -> bool {
        result == match reply.status_error(self.code()) {
            Some(error) => Err::<Float32, OperationError>(error),
            None => single_number("actual damping value", reply.data),
        }
    }

    fn command(&self) -> CommandCode {
        CommandCode(34)
    }

    fn retry_safety(&self) -> OperationSafety {
        registered_safety(self.command())
    }

    fn encode_request(&self, writer: &mut PayloadWriter) -> Result<(), OperationError> {
        if !self.seconds.is_finite() || self.seconds.is_below_zero() {
            return Err(OperationError::InvalidValue("damping value"));
        }
        writer.float32(self.seconds);
        Ok(())
    }

    fn decode_reply(&self, reply: &DeviceReply) -> Result<Float32, OperationError> {
        reply.require_success(self.command())?;
        decode_single_number("actual damping value", &reply.data)
    }
}

impl Operation for SetRange {
    type Output = RangeValues;

    open spec fn code(&self) -> CommandCode {
        CommandCode(35)
    }

    open spec fn safety(&self) -> OperationSafety {
        declared_safety(self.code().0)
    }

    open spec fn payload(&self) -> Result<Seq<u8>, OperationError> {
        if !self.0.upper.finite() || !self.0.lower.finite() {
            Err(OperationError::InvalidValue("range limits"))
        } else {
            Ok(seq![self.0.unit] + be32(self.0.upper.bits) + be32(self.0.lower.bits))
        }
    }

    open spec fn decodes(
        &self,
        reply: ReplyView,
        result: Result<RangeValues, OperationError>,
    ) -> bool {
        result == match reply.status_error(self.code()) {
            Some(error) => Err::<RangeValues, OperationError>(error),
            None => range_values(reply.data),
        }
    }

    fn command(&self) -> CommandCode {
        CommandCode(35)
    }

    fn retry_safety(&self) -> OperationSafety {
        registered_safety(self.command())
    }

    fn encode_request(&self, writer: &mut PayloadWriter) -> Result<(), OperationError> {
        if !self.0.upper.is_finite() || !self.0.lower.is_finite() {
            return Err(OperationError::InvalidValue("range limits"));
        }
        writer.u8(self.0.unit);
        writer.float32(self.0.upper);
        writer.float32(self.0.lower);
        assert(writer@ =~= old(writer)@ + self.payload()->Ok_0);
        Ok(())
    }

    fn decode_reply(&self, reply: &DeviceReply) -> Result<RangeValues, OperationError> {
        reply.require_success(self.command())?;
        decode_range_values(&reply.data)
    }
}

impl Operation for ActionCommand {
    type Output = DeviceReply;

    closed spec fn code(&self) -> CommandCode {
        self.command
    }

    open spec fn safety(&self) -> OperationSafety {
        declared_safety(self.code().0)
    }

    closed spec fn payload(&self) -> Result<Seq<u8>, OperationError> {
        Ok(self.data@)
    }

    open spec fn decodes(
        &self,
        reply: ReplyView,
        result: Result<DeviceReply, OperationError>,
    ) -> bool {
        match reply.status_error(self.code()) {
            Some(error) => result == Err::<DeviceReply, OperationError>(error),
            None => result matches Ok(value) && value@ == reply,
        }
    }

    fn command(&self) -> CommandCode {
        self.command
    }

    fn retry_safety(&self) -> OperationSafety {
        registered_safety(self.command())
    }

    fn encode_request(&self, writer: &mut PayloadWriter) -> Result<(), OperationError> {
        writer.bytes(&self.data);
        Ok(())
    }

    fn decode_reply(&self, reply: &DeviceReply) -> Result<DeviceReply, OperationError> {
        reply.require_success(self.command())?;
        Ok(reply.clone())
    }
}

impl Operation for EepromControl {
    type Output = u8;

    open spec fn code(&self) -> CommandCode {
        CommandCode(39)
    }

    open spec fn safety(&self) -> OperationSafety {
        declared_safety(self.code().0)
    }

    open spec fn payload(&self) -> Result<Seq<u8>, OperationError> {
        Ok(seq![self.0])
    }

    open spec fn decodes(
        &self,
        reply: ReplyView,
        result: Result<u8, OperationError>,
    ) -> bool {
        result == match reply.status_error(self.code()) {
            Some(error) => Err::<u8, OperationError>(error),
            None => single_byte("memory control code", reply.data),
        }
    }

    fn command(&self) -> CommandCode {
        CommandCode(39)
    }

    fn retry_safety(&self) -> OperationSafety {
        registered_safety(self.command())
    }

    fn encode_request(&self, writer: &mut PayloadWriter) -> Result<(), OperationError> {
        writer.u8(self.0);
        assert(writer@ =~= old(writer)@ + seq![self.0]);
        Ok(())
    }

    fn decode_reply(&self, reply: &DeviceReply) -> Result<u8, OperationError> {
        reply.require_success(self.command())?;
        decode_single_byte("memory control code", &reply.data)
    }
}

impl Operation for FixedCurrent {
    type Output = Float32;

    open spec fn code(&self) -> CommandCode {
        CommandCode(40)
    }

    open spec fn safety(&self) -> OperationSafety {
        declared_safety(self.code().0)
    }

    open spec fn payload(&self) -> Result<Seq<u8>, OperationError> {
        if !self.0.finite() {
            Err(OperationError::InvalidValue("fixed current"))
        } else {
            Ok(be32(self.0.bits))
        }
    }

    open spec fn decodes(
        &self,
        reply: ReplyView,
        result: Result<Float32, OperationError>,
    ) -> bool {
        result == match reply.status_error(self.code()) {
            Some(error) => Err::<Float32, OperationError>(error),
            None => single_number("actual current", reply.data),
        }
    }

    fn command(&self) -> CommandCode {
        CommandCode(40)
    }

    fn retry_safety(&self) -> OperationSafety {
        registered_safety(self.command())
    }

    fn encode_request(&self, writer: &mut PayloadWriter) -> Result<(), OperationError> {
        if !self.0.is_finite() {
            return Err(OperationError::InvalidValue("fixed current"));
        }
        writer.float32(self.0);
        Ok(())
    }

    fn decode_reply(&self, reply: &DeviceReply) -> Result<Float32, OperationError> {
        reply.require_success(self.command())?;
        decode_single_number("actual current", &reply.data)
    }
}

impl Operation for WritePrimaryUnit {
    type Output = u8;

    open spec fn code(&self) -> CommandCode {
        CommandCode(44)
    }

    open spec fn safety(&self) -> OperationSafety {
        declared_safety(self.code().0)
    }

    open spec fn payload(&self) -> Result<Seq<u8>, OperationError> {
        Ok(seq![self.0])
    }

    open spec fn decodes(
        &self,
        reply: ReplyView,
        result: Result<u8, OperationError>,
    ) -> bool {
        result == match reply.status_error(self.code()) {
            Some(error) => Err::<u8, OperationError>(error),
            None => single_byte("primary-variable unit", reply.data),
        }
    }

    fn command(&self) -> CommandCode {
        CommandCode(44)
    }

    fn retry_safety(&self) -> OperationSafety {
        registered_safety(self.command())
    }

    fn encode_request(&self, writer: &mut PayloadWriter) -> Result<(), OperationError> {
        writer.u8(self.0);
        assert(writer@ =~= old(writer)@ + seq![self.0]);
        Ok(())
    }

    fn decode_reply(&self, reply: &DeviceReply) -> Result<u8, OperationError> {
        reply.require_success(self.command())?;
        decode_single_byte("primary-variable unit", &reply.data)
    }
}

impl Operation for AnalogTrim {
    type Output = Float32;

    closed spec fn code(&self) -> CommandCode {
        self.command
    }

    open spec fn safety(&self) -> OperationSafety {
        declared_safety(self.code().0)
    }

    closed spec fn payload(&self) -> Result<Seq<u8>, OperationError> {
        Ok(be32(self.reference_current.bits))
    }

    open spec fn decodes(
        &self,
        reply: ReplyView,
        result: Result<Float32, OperationError>,
    ) -> bool {
        result == match reply.status_error(self.code()) {
            Some(error) => Err::<Float32, OperationError>(error),
            None => single_number("actual trim current", reply.data),
        }
    }

    fn command(&self) -> CommandCode {
        self.command
    }

    fn retry_safety(&self) -> OperationSafety {
        registered_safety(self.command())
    }

    fn encode_request(&self, writer: &mut PayloadWriter) -> Result<(), OperationError> {
        writer.float32(self.reference_current);
        Ok(())
    }

    fn decode_reply(&self, reply: &DeviceReply) -> Result<Float32, OperationError> {
        reply.require_success(self.command())?;
        decode_single_number("actual trim current", &reply.data)
    }
}

impl Operation for WriteTransferFunction {
    type Output = u8;

    open spec fn code(&self) -> CommandCode {
        CommandCode(47)
    }

    open spec fn safety(&self) -> OperationSafety {
        declared_safety(self.code().0)
    }

    open spec fn payload(&self) -> Result<Seq<u8>, OperationError> {
        Ok(seq![self.0])
    }

    open spec fn decodes(
        &self,
        reply: ReplyView,
        result: Result<u8, OperationError>,
    ) -> bool {
        result == match reply.status_error(self.code()) {
            Some(error) => Err::<u8, OperationError>(error),
            None => single_byte("transfer function", reply.data),
        }
    }

    fn command(&self) -> CommandCode {
        CommandCode(47)
    }

    fn retry_safety(&self) -> OperationSafety {
        registered_safety(self.command())
    }

    fn encode_request(&self, writer: &mut PayloadWriter) -> Result<(), OperationError> {
        writer.u8(self.0);
        assert(writer@ =~= old(writer)@ + seq![self.0]);
        Ok(())
    }

    fn decode_reply(&self, reply: &DeviceReply) -> Result<u8, OperationError> {
        reply.require_success(self.command())?;
        decode_single_byte("transfer function", &reply.data)
    }
}

} // verus!
