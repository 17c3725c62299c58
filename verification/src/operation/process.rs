use vstd::prelude::*;

use crate::bytes::{copy_bytes, from_be32};
use crate::catalog::{declared_safety, registered_safety, OperationSafety};
use crate::float::Float32;
use crate::operation::codec::truncated;
use crate::operation::{
    CommandCode, DeviceReply, Operation, OperationError, PayloadReader, PayloadWriter, ReplyView,
};

verus! {

/// The number in the four bytes at a position.
pub open spec fn float_at(data: Seq<u8>, index: int) -> Float32 {
    Float32 { bits: from_be32(data[index], data[index + 1], data[index + 2], data[index + 3]) }
}

/// Requests the primary process variable.
#[derive(Debug, Clone, Copy, Default)]
pub struct ReadPrimaryValue;

/// Primary process variable together with its unit code.
#[derive(Debug, Clone, Copy, PartialEq, Eq, Structural)]
pub struct PrimaryValue {
    /// Unit code from the HART common table.
    pub unit: u8,
    /// Value in the specified unit.
    pub value: Float32,
}

/// A value together with its unit code.
#[derive(Debug, Clone, Copy, PartialEq, Eq, Structural)]
pub struct MeasuredValue {
    /// Unit code.
    pub unit: u8,
    /// Numeric value.
    pub value: Float32,
}

/// Requests loop current and available dynamic variables with Command 3.
#[derive(Debug, Clone, Copy, Default)]
pub struct ReadDynamicValues;

/// Command 3 response containing a variable number of PV/SV/TV/QV values.
#[derive(Debug, Clone, PartialEq, Eq)]
pub struct DynamicValues {
    /// Loop current in milliamperes.
    pub loop_current: Float32,
    /// One to four dynamic variables.
    pub values: Vec<MeasuredValue>,
}

/// The dynamic variables of a Command 3 payload, five bytes each after the current.
pub open spec fn dynamic_values(data: Seq<u8>) -> Seq<MeasuredValue> {
    Seq::new(
        ((data.len() - 4) / 5) as nat,
        |k: int| MeasuredValue { unit: data[4 + 5 * k], value: float_at(data, 5 + 5 * k) },
    )
}

/// What a Command 3 payload decodes to.
pub open spec fn dynamic_of(data: Seq<u8>, result: Result<DynamicValues, OperationError>) -> bool {
    if data.len() < 9 || (data.len() - 4) % 5 != 0 {
        result == Err::<DynamicValues, OperationError>(
            OperationError::InvalidValue("dynamic-variable payload length"),
        )
    } else if data.len() > 24 {
        result == Err::<DynamicValues, OperationError>(
            OperationError::TrailingBytes((data.len() - 24) as usize),
        )
    } else {
        result matches Ok(values) && values.loop_current == float_at(data, 0) && values.values@
            == dynamic_values(data)
    }
}

fn decode_dynamic(data: &[u8]) -> (result: Result<DynamicValues, OperationError>)
    ensures
        dynamic_of(data@, result),
{
    if data.len() < 9 || (data.len() - 4) % 5 != 0 {
        return Err(OperationError::InvalidValue("dynamic-variable payload length"));
    }
    let mut reader = PayloadReader::new(data);
    let loop_current = reader.float32("loop current")?;
    let mut values: Vec<MeasuredValue> = Vec::new();
    while reader.remaining() >= 5 && values.len() < 4
        invariant
            reader.well_formed(),
            reader.data() == data@,
            reader.read() == 4 + 5 * values@.len(),
            data@.len() >= 9,
            (data@.len() - 4) % 5 == 0,
            values@.len() <= 4,
            values@ == dynamic_values(data@).take(values@.len() as int),
        decreases 4 - values@.len(),
    {
        let unit = reader.u8("dynamic-variable unit")?;
        let value = reader.float32("dynamic variable")?;
        values.push(MeasuredValue { unit, value });
        assert(values@ =~= dynamic_values(data@).take(values@.len() as int));
    }
    reader.finish()?;
    assert(values@ =~= dynamic_values(data@));
    Ok(DynamicValues { loop_current, values })
}

/// Reads PV/SV/TV/QV classifications with Command 8.
#[derive(Debug, Clone, Copy, Default)]
pub struct ReadVariableClassifications;

/// One to four dynamic-variable classifications.
#[derive(Debug, Clone, PartialEq, Eq)]
pub struct VariableClassifications {
    /// Codes in PV, SV, TV, QV order.
    pub classes: Vec<u8>,
}

/// Requests up to eight device variables with Command 9.
#[derive(Debug, Clone, PartialEq, Eq)]
pub struct ReadDeviceVariables {
    /// Requested slot codes.
    pub slots: Vec<u8>,
}

/// One variable returned by Command 9.
#[derive(Debug, Clone, Copy, PartialEq, Eq, Structural)]
pub struct DeviceVariable {
    /// Variable code.
    pub code: u8,
    /// Classification code.
    pub classification: u8,
    /// Unit code.
    pub unit: u8,
    /// Value.
    pub value: Float32,
    /// Variable status bits.
    pub status: u8,
}

/// Command 9 response.
#[derive(Debug, Clone, PartialEq, Eq)]
pub struct DeviceVariables {
    /// Extended field-device status.
    pub extended_status: u8,
    /// Decoded variables.
    pub variables: Vec<DeviceVariable>,
}

impl ReadDeviceVariables {
    /// Creates a request for one to eight slots.
    pub fn new(slots: Vec<u8>) -> (result: Result<Self, OperationError>)
        ensures
            result == if 1 <= slots@.len() <= 8 {
                Ok(ReadDeviceVariables { slots })
            } else {
                Err(OperationError::RequestLength { command: 9, actual: slots@.len() as usize })
            },
    {
        if slots.len() < 1 || slots.len() > 8 {
            return Err(OperationError::RequestLength { command: 9, actual: slots.len() });
        }
        Ok(ReadDeviceVariables { slots })
    }
}

/// The device variables of a Command 9 payload, eight bytes each after the status.
pub open spec fn device_variables(data: Seq<u8>) -> Seq<DeviceVariable> {
    Seq::new(
        ((data.len() - 1) / 8) as nat,
        |k: int|
            DeviceVariable {
                code: data[1 + 8 * k],
                classification: data[2 + 8 * k],
                unit: data[3 + 8 * k],
                value: float_at(data, 4 + 8 * k),
                status: data[8 + 8 * k],
            },
    )
}

/// What a Command 9 payload decodes to.
pub open spec fn variables_of(
    data: Seq<u8>,
    result: Result<DeviceVariables, OperationError>,
) -> bool {
    if data.len() == 0 || (data.len() - 1) % 8 != 0 {
        result == Err::<DeviceVariables, OperationError>(
            OperationError::InvalidValue("device-variable payload length"),
        )
    } else if data.len() > 65 {
        result == Err::<DeviceVariables, OperationError>(
            OperationError::TrailingBytes((data.len() - 65) as usize),
        )
    } else {
        result matches Ok(variables) && variables.extended_status == data[0]
            && variables.variables@ == device_variables(data)
    }
}

fn decode_device_variables(data: &[u8]) -> (result: Result<DeviceVariables, OperationError>)
    ensures
        variables_of(data@, result),
{
    if data.is_empty() || (data.len() - 1) % 8 != 0 {
        return Err(OperationError::InvalidValue("device-variable payload length"));
    }
    let mut reader = PayloadReader::new(data);
    let extended_status = reader.u8("extended status")?;
    let mut variables: Vec<DeviceVariable> = Vec::new();
    assert(variables@ =~= device_variables(data@).take(0));
    while reader.remaining() >= 8 && variables.len() < 8
        invariant
            reader.well_formed(),
            reader.data() == data@,
            reader.read() == 1 + 8 * variables@.len(),
            data@.len() >= 1,
            (data@.len() - 1) % 8 == 0,
            variables@.len() <= 8,
            variables@ == device_variables(data@).take(variables@.len() as int),
        decreases 8 - variables@.len(),
    {
        let code = reader.u8("variable code")?;
        let classification = reader.u8("variable classification")?;
        let unit = reader.u8("variable unit")?;
        let value = reader.float32("variable value")?;
        let status = reader.u8("variable status")?;
        variables.push(DeviceVariable { code, classification, unit, value, status });
        assert(variables@ =~= device_variables(data@).take(variables@.len() as int));
    }
    reader.finish()?;
    assert(variables@ =~= device_variables(data@));
    Ok(DeviceVariables { extended_status, variables })
}

/// Reads one to four selected variables with Command 33.
#[derive(Debug, Clone, PartialEq, Eq)]
pub struct ReadSelectedVariables {
    /// Variable codes in the requested order.
    pub variables: Vec<u8>,
}

/// One value returned by Command 33.
#[derive(Debug, Clone, Copy, PartialEq, Eq, Structural)]
pub struct SelectedVariable {
    /// Variable code.
    pub code: u8,
    /// Unit code.
    pub unit: u8,
    /// Value.
    pub value: Float32,
}

impl ReadSelectedVariables {
    /// Validates the number of selected variables.
    pub fn new(variables: Vec<u8>) -> (result: Result<Self, OperationError>)
        ensures
            result == if 1 <= variables@.len() <= 4 {
                Ok(ReadSelectedVariables { variables })
            } else {
                Err(
                    OperationError::RequestLength {
                        command: 33,
                        actual: variables@.len() as usize,
                    },
                )
            },
    {
        if variables.len() < 1 || variables.len() > 4 {
            return Err(OperationError::RequestLength { command: 33, actual: variables.len() });
        }
        Ok(ReadSelectedVariables { variables })
    }
}

/// The variables of a Command 33 payload, six bytes each.
pub open spec fn selected_variables(data: Seq<u8>) -> Seq<SelectedVariable> {
    Seq::new(
        data.len() / 6,
        |k: int|
            SelectedVariable {
                code: data[6 * k],
                unit: data[6 * k + 1],
                value: float_at(data, 6 * k + 2),
            },
    )
}

/// What a Command 33 payload decodes to.
pub open spec fn selected_of(
    data: Seq<u8>,
    result: Result<Vec<SelectedVariable>, OperationError>,
) -> bool {
    if data.len() == 0 || data.len() % 6 != 0 || data.len() > 24 {
        result == Err::<Vec<SelectedVariable>, OperationError>(
            OperationError::InvalidValue("selected-variable payload length"),
        )
    } else {
        result matches Ok(variables) && variables@ == selected_variables(data)
    }
}

fn decode_selected(data: &[u8]) -> (result: Result<Vec<SelectedVariable>, OperationError>)
    ensures
        selected_of(data@, result),
{
    if data.is_empty() || data.len() % 6 != 0 || data.len() > 24 {
        return Err(OperationError::InvalidValue("selected-variable payload length"));
    }
    let mut reader = PayloadReader::new(data);
    let mut output: Vec<SelectedVariable> = Vec::new();
    assert(output@ =~= selected_variables(data@).take(0));
    while reader.remaining() >= 6
        invariant
            reader.well_formed(),
            reader.data() == data@,
            reader.read() == 6 * output@.len(),
            data@.len() % 6 == 0,
            data@.len() <= 24,
            output@ == selected_variables(data@).take(output@.len() as int),
        decreases data@.len() - reader.read(),
    {
        let code = reader.u8("selected-variable code")?;
        let unit = reader.u8("selected-variable unit")?;
        let value = reader.float32("selected-variable value")?;
        output.push(SelectedVariable { code, unit, value });
        assert(output@ =~= selected_variables(data@).take(output@.len() as int));
    }
    reader.finish()?;
    assert(output@ =~= selected_variables(data@));
    Ok(output)
}

/// A unit and a number in exactly five bytes.
pub open spec fn primary_value(data: Seq<u8>) -> Result<PrimaryValue, OperationError> {
    if data.len() < 1 {
        truncated("primary-variable unit", 0)
    } else if data.len() < 5 {
        truncated("primary variable", 1)
    } else if data.len() > 5 {
        Err(OperationError::TrailingBytes((data.len() - 5) as usize))
    } else {
        Ok(PrimaryValue { unit: data[0], value: float_at(data, 1) })
    }
}

fn decode_primary_value(data: &[u8]) -> (result: Result<PrimaryValue, OperationError>)
    ensures
        result == primary_value(data@),
{
    let mut reader = PayloadReader::new(data);
    let unit = reader.u8("primary-variable unit")?;
    let value = reader.float32("primary variable")?;
    reader.finish()?;
    Ok(PrimaryValue { unit, value })
}

/// Requests loop current and percent of range.
#[derive(Debug, Clone, Copy, Default)]
pub struct ReadLoopSignal;

/// Primary-output electrical signal.
#[derive(Debug, Clone, Copy, PartialEq, Eq, Structural)]
pub struct LoopSignal {
    /// Loop current in milliamperes.
    pub milliamps: Float32,
    /// Percent of the configured range.
    pub percent: Float32,
}

/// Two numbers in exactly eight bytes.
pub open spec fn loop_signal(data: Seq<u8>) -> Result<LoopSignal, OperationError> {
    if data.len() < 4 {
        truncated("loop current", 0)
    } else if data.len() < 8 {
        truncated("percent of range", 4)
    } else if data.len() > 8 {
        Err(OperationError::TrailingBytes((data.len() - 8) as usize))
    } else {
        Ok(LoopSignal { milliamps: float_at(data, 0), percent: float_at(data, 4) })
    }
}

fn decode_loop_signal(data: &[u8]) -> (result: Result<LoopSignal, OperationError>)
    ensures
        result == loop_signal(data@),
{
    let mut reader = PayloadReader::new(data);
    let milliamps = reader.float32("loop current")?;
    let percent = reader.float32("percent of range")?;
    reader.finish()?;
    Ok(LoopSignal { milliamps, percent })
}

impl Operation for ReadDynamicValues {
    type Output = DynamicValues;

    open spec fn code(&self) -> CommandCode {
        CommandCode(3)
    }

    open spec fn safety(&self) -> OperationSafety {
        declared_safety(self.code().0)
    }

    open spec fn payload(&self) -> Result<Seq<u8>, OperationError> {
        Ok(seq![])
    }

    open spec fn decodes(
        &self,
        reply: ReplyView,
        result: Result<DynamicValues, OperationError>,
    ) -> bool {
        match reply.status_error(self.code()) {
            Some(error) => result == Err::<DynamicValues, OperationError>(error),
            None => dynamic_of(reply.data, result),
        }
    }

    fn command(&self) -> CommandCode {
        CommandCode(3)
    }

    fn retry_safety(&self) -> OperationSafety {
        registered_safety(self.command())
    }

    fn encode_request(&self, _writer: &mut PayloadWriter) -> Result<(), OperationError> {
        assert(_writer@ =~= old(_writer)@ + Seq::<u8>::empty());
        Ok(())
    }

    fn decode_reply(&self, reply: &DeviceReply) -> Result<DynamicValues, OperationError> {
        reply.require_success(self.command())?;
        decode_dynamic(&reply.data)
    }
}

impl Operation for ReadVariableClassifications {
    type Output = VariableClassifications;

    open spec fn code(&self) -> CommandCode {
        CommandCode(8)
    }

    open spec fn safety(&self) -> OperationSafety {
        declared_safety(self.code().0)
    }

    open spec fn payload(&self) -> Result<Seq<u8>, OperationError> {
        Ok(seq![])
    }

    open spec fn decodes(
        &self,
        reply: ReplyView,
        result: Result<VariableClassifications, OperationError>,
    ) -> bool {
        match reply.status_error(self.code()) {
            Some(error) => result == Err::<VariableClassifications, OperationError>(error),
            None => if 1 <= reply.data.len() <= 4 {
                result matches Ok(value) && value.classes@ == reply.data
            } else {
                result == Err::<VariableClassifications, OperationError>(
                    OperationError::InvalidValue("classification count"),
                )
            },
        }
    }

    fn command(&self) -> CommandCode {
        CommandCode(8)
    }

    fn retry_safety(&self) -> OperationSafety {
        registered_safety(self.command())
    }

    fn encode_request(&self, _writer: &mut PayloadWriter) -> Result<(), OperationError> {
        assert(_writer@ =~= old(_writer)@ + Seq::<u8>::empty());
        Ok(())
    }

    fn decode_reply(&self, reply: &DeviceReply) -> Result<VariableClassifications, OperationError> {
        reply.require_success(self.command())?;
        if reply.data.len() < 1 || reply.data.len() > 4 {
            return Err(OperationError::InvalidValue("classification count"));
        }
        Ok(VariableClassifications { classes: copy_bytes(&reply.data) })
    }
}

impl Operation for ReadDeviceVariables {
    type Output = DeviceVariables;

    open spec fn code(&self) -> CommandCode {
        CommandCode(9)
    }

    open spec fn safety(&self) -> OperationSafety {
        declared_safety(self.code().0)
    }

    open spec fn payload(&self) -> Result<Seq<u8>, OperationError> {
        Ok(self.slots@)
    }

    open spec fn decodes(
        &self,
        reply: ReplyView,
        result: Result<DeviceVariables, OperationError>,
    ) -> bool {
        match reply.status_error(self.code()) {
            Some(error) => result == Err::<DeviceVariables, OperationError>(error),
            None => variables_of(reply.data, result),
        }
    }

    fn command(&self) -> CommandCode {
        CommandCode(9)
    }

    fn retry_safety(&self) -> OperationSafety {
        registered_safety(self.command())
    }

    fn encode_request(&self, writer: &mut PayloadWriter) -> Result<(), OperationError> {
        writer.bytes(&self.slots);
        Ok(())
    }

    fn decode_reply(&self, reply: &DeviceReply) -> Result<DeviceVariables, OperationError> {
        reply.require_success(self.command())?;
        decode_device_variables(&reply.data)
    }
}

impl Operation for ReadSelectedVariables {
    type Output = Vec<SelectedVariable>;

    open spec fn code(&self) -> CommandCode {
        CommandCode(33)
    }

    open spec fn safety(&self) -> OperationSafety {
        declared_safety(self.code().0)
    }

    open spec fn payload(&self) -> Result<Seq<u8>, OperationError> {
        Ok(self.variables@)
    }

    open spec fn decodes(
        &self,
        reply: ReplyView,
        result: Result<Vec<SelectedVariable>, OperationError>,
    ) -> bool {
        match reply.status_error(self.code()) {
            Some(error) => result == Err::<Vec<SelectedVariable>, OperationError>(error),
            None => selected_of(reply.data, result),
        }
    }

    fn command(&self) -> CommandCode {
        CommandCode(33)
    }

    fn retry_safety(&self) -> OperationSafety {
        registered_safety(self.command())
    }

    fn encode_request(&self, writer: &mut PayloadWriter) -> Result<(), OperationError> {
        writer.bytes(&self.variables);
        Ok(())
    }

    fn decode_reply(&self, reply: &DeviceReply) -> Result<Vec<SelectedVariable>, OperationError> {
        reply.require_success(self.command())?;
        decode_selected(&reply.data)
    }
}

impl Operation for ReadPrimaryValue {
    type Output = PrimaryValue;

    open spec fn code(&self) -> CommandCode {
        CommandCode(1)
    }

    open spec fn safety(&self) -> OperationSafety {
        declared_safety(self.code().0)
    }

    open spec fn payload(&self) -> Result<Seq<u8>, OperationError> {
        Ok(seq![])
    }

    open spec fn decodes(
        &self,
        reply: ReplyView,
        result: Result<PrimaryValue, OperationError>,
    ) -> bool {
        result == match reply.status_error(self.code()) {
            Some(error) => Err::<PrimaryValue, OperationError>(error),
            None => primary_value(reply.data),
        }
    }

    fn command(&self) -> CommandCode {
        CommandCode(1)
    }

    fn retry_safety(&self) -> OperationSafety {
        registered_safety(self.command())
    }

    fn encode_request(&self, _writer: &mut PayloadWriter) -> Result<(), OperationError> {
        assert(_writer@ =~= old(_writer)@ + Seq::<u8>::empty());
        Ok(())
    }

    fn decode_reply(&self, reply: &DeviceReply) -> Result<PrimaryValue, OperationError> {
        reply.require_success(self.command())?;
        decode_primary_value(&reply.data)
    }
}

impl Operation for ReadLoopSignal {
    type Output = LoopSignal;

    open spec fn code(&self) -> CommandCode {
        CommandCode(2)
    }

    open spec fn safety(&self) -> OperationSafety {
        declared_safety(self.code().0)
    }

    open spec fn payload(&self) -> Result<Seq<u8>, OperationError> {
        Ok(seq![])
    }

    open spec fn decodes(
        &self,
        reply: ReplyView,
        result: Result<LoopSignal, OperationError>,
    ) -> bool {
        result == match reply.status_error(self.code()) {
            Some(error) => Err::<LoopSignal, OperationError>(error),
            None => loop_signal(reply.data),
        }
    }

    fn command(&self) -> CommandCode {
        CommandCode(2)
    }

    fn retry_safety(&self) -> OperationSafety {
        registered_safety(self.command())
    }

    fn encode_request(&self, _writer: &mut PayloadWriter) -> Result<(), OperationError> {
        assert(_writer@ =~= old(_writer)@ + Seq::<u8>::empty());
        Ok(())
    }

    fn decode_reply(&self, reply: &DeviceReply) -> Result<LoopSignal, OperationError> {
        reply.require_success(self.command())?;
        decode_loop_signal(&reply.data)
    }
}

} // verus!
