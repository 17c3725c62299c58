//! What holds of requests and replies taken together.

use vstd::prelude::*;

use crate::bytes::{
    be16, be24, be32, lemma_be16_round_trip, lemma_be24_round_trip, lemma_be32_round_trip,
};
use crate::catalog::declared_constraint;
use crate::float::Float32;
use crate::operation::configuration::{
    LoopConfiguration, PollingAddress, ReadLoopConfiguration, WriteLegacyPollingAddress,
    WritePollingAddress,
};
use crate::operation::control::{
    AnalogTrim, EepromControl, FixedCurrent, RangeValues, SetDamping, SetRange, WritePrimaryUnit,
    WriteTransferFunction,
};
use crate::operation::diagnostics::{AdditionalStatus, ReadAdditionalStatus};
use crate::operation::identity::{
    identity_of, identity_reply, DeviceIdentity, IdentityView, ReadIdentity,
};
use crate::operation::information::{
    ReadFinalAssemblyNumber, ReadOutputInformation, ReadTransducerInformation,
    WriteFinalAssemblyNumber,
};
use crate::operation::process::{
    float_at, DeviceVariable, DeviceVariables, DynamicValues, LoopSignal, MeasuredValue,
    PrimaryValue, ReadDeviceVariables, ReadDynamicValues, ReadLoopSignal, ReadPrimaryValue,
    ReadSelectedVariables, ReadVariableClassifications, SelectedVariable, VariableClassifications,
};
use crate::operation::text::{
    latin1, lemma_latin1_round_trip, lemma_packed_text_round_trip, packed_text, tag_bytes,
    unpacked_text, DeviceDate, ReadLongTag, ReadMessage, ReadTagDescriptorDate, TagDescriptorDate,
    WriteLongTag, WriteMessage, WriteTagDescriptorDate,
};
use crate::operation::{
    CommandCode, DeviceReply, Operation, OperationError, RawOperation, ReplyView, RequestView,
};
use crate::strings::trimmed_end;
use crate::wire::address::{Address, Master};
use crate::wire::frame::{FrameKind, FrameView};

verus! {

pub(crate) proof fn lemma_high_bit(code: u8)
    by (bit_vector)
    ensures
        code & 0x80 != 0 <==> code >= 128,
{
}

/// A reply is accepted exactly when it carries the expected command and
/// reports success or one of the allowed warnings. A reply of another command
/// is refused as such, a response code from 128 upwards as a communication
/// error, every other code as a device error.
pub proof fn lemma_only_success_is_accepted(
    reply: ReplyView,
    expected: CommandCode,
    warnings: Seq<u8>,
)
    ensures
        reply.error_accepting(expected, warnings) is None <==> reply.command.0 == expected.0
            && reply.response_code < 128 && (reply.response_code == 0 || warnings.contains(
            reply.response_code,
        )),
        reply.command.0 != expected.0 ==> reply.error_accepting(expected, warnings) == Some(
            OperationError::CommandMismatch { expected: expected.0, actual: reply.command.0 },
        ),
        reply.command.0 == expected.0 && reply.response_code >= 128 ==> reply.error_accepting(
            expected,
            warnings,
        ) == Some(
            OperationError::CommunicationStatus {
                summary: reply.response_code,
                status: reply.device_status,
            },
        ),
        reply.command.0 == expected.0 && 0 < reply.response_code < 128 && !warnings.contains(
            reply.response_code,
        ) ==> reply.error_accepting(expected, warnings) == Some(
            OperationError::DeviceStatus { code: reply.response_code, status: reply.device_status },
        ),
        reply.status_error(expected) is None <==> reply.command.0 == expected.0
            && reply.response_code == 0,
{
    lemma_high_bit(reply.response_code);
    assert(!Seq::<u8>::empty().contains(reply.response_code));
    assert(seq![] =~= Seq::<u8>::empty());
}

/// The bytes of units and numbers in a row.
pub open spec fn measured_bytes(values: Seq<MeasuredValue>) -> Seq<u8>
    decreases values.len(),
{
    if values.len() == 0 {
        Seq::empty()
    } else {
        measured_bytes(values.drop_last()) + seq![values.last().unit] + be32(
            values.last().value.bits,
        )
    }
}

proof fn lemma_measured_bytes(values: Seq<MeasuredValue>)
    ensures
        measured_bytes(values).len() == 5 * values.len(),
        forall|k: int|
            #![trigger values[k]]
            0 <= k < values.len() ==> measured_bytes(values)[5 * k] == values[k].unit && float_at(
                measured_bytes(values),
                5 * k + 1,
            ) == values[k].value,
    decreases values.len(),
{
    if values.len() > 0 {
        let rest = values.drop_last();
        let bytes = measured_bytes(values);
        lemma_measured_bytes(rest);
        lemma_be32_round_trip(values.last().value.bits, 0, 0, 0, 0);
        assert forall|k: int| #![trigger values[k]] 0 <= k < values.len() implies bytes[5 * k]
            == values[k].unit && float_at(bytes, 5 * k + 1) == values[k].value by {
            if k < rest.len() {
                assert(rest[k] == values[k]);
                assert(bytes[5 * k] == measured_bytes(rest)[5 * k]);
                assert(bytes[5 * k + 1] == measured_bytes(rest)[5 * k + 1]);
                assert(bytes[5 * k + 2] == measured_bytes(rest)[5 * k + 2]);
                assert(bytes[5 * k + 3] == measured_bytes(rest)[5 * k + 3]);
                assert(bytes[5 * k + 4] == measured_bytes(rest)[5 * k + 4]);
            }
        }
    }
}

/// Reading the dynamic variables undoes writing them: a loop current and one
/// to four units with numbers come back as they were written and in their
/// order. Replies of no other length are accepted.
pub proof fn lemma_dynamic_values_round_trip(
    reply: ReplyView,
    current: Float32,
    values: Seq<MeasuredValue>,
    result: Result<DynamicValues, OperationError>,
)
    requires
        ReadDynamicValues.decodes(reply, result),
    ensures
        reply.command.0 == 3 && reply.response_code == 0 && 1 <= values.len() <= 4 && reply.data
            == be32(current.bits) + measured_bytes(values) ==> (result matches Ok(decoded)
            && decoded.loop_current == current && decoded.values@ == values),
        result is Ok <==> reply.command.0 == 3 && reply.response_code == 0 && (reply.data.len() == 9
            || reply.data.len() == 14 || reply.data.len() == 19 || reply.data.len() == 24),
{
    lemma_only_success_is_accepted(reply, CommandCode(3), seq![]);
    lemma_measured_bytes(values);
    lemma_be32_round_trip(current.bits, 0, 0, 0, 0);
    if reply.command.0 == 3 && reply.response_code == 0 && 1 <= values.len() <= 4 && reply.data
        == be32(current.bits) + measured_bytes(values) {
        let data = reply.data;
        let tail = measured_bytes(values);
        let decoded = result->Ok_0;
        assert(data.len() == 4 + 5 * values.len());
        assert(decoded.values@.len() == values.len());
        assert forall|k: int| 0 <= k < values.len() implies decoded.values@[k] == values[k] by {
            assert(values[k].unit == tail[5 * k]);
            assert(data[4 + 5 * k] == tail[5 * k]);
            assert(data[5 + 5 * k] == tail[5 * k + 1]);
            assert(data[6 + 5 * k] == tail[5 * k + 2]);
            assert(data[7 + 5 * k] == tail[5 * k + 3]);
            assert(data[8 + 5 * k] == tail[5 * k + 4]);
        }
        assert(decoded.values@ =~= values);
    }
}

/// Reading the primary variable undoes writing its unit and number, and
/// accepts nothing but five bytes.
pub proof fn lemma_primary_value_round_trip(
    reply: ReplyView,
    value: PrimaryValue,
    result: Result<PrimaryValue, OperationError>,
)
    requires
        ReadPrimaryValue.decodes(reply, result),
    ensures
        reply.command.0 == 1 && reply.response_code == 0 && reply.data == seq![value.unit] + be32(
            value.value.bits,
        ) ==> result == Ok::<PrimaryValue, OperationError>(value),
        result is Ok <==> reply.command.0 == 1 && reply.response_code == 0 && reply.data.len() == 5,
{
    lemma_only_success_is_accepted(reply, CommandCode(1), seq![]);
    lemma_be32_round_trip(value.value.bits, 0, 0, 0, 0);
}

/// Reading the loop signal undoes writing the current and then the percentage,
/// and accepts nothing but eight bytes.
pub proof fn lemma_loop_signal_round_trip(
    reply: ReplyView,
    signal: LoopSignal,
    result: Result<LoopSignal, OperationError>,
)
    requires
        ReadLoopSignal.decodes(reply, result),
    ensures
        reply.command.0 == 2 && reply.response_code == 0 && reply.data == be32(
            signal.milliamps.bits,
        ) + be32(signal.percent.bits) ==> result == Ok::<LoopSignal, OperationError>(signal),
        result is Ok <==> reply.command.0 == 2 && reply.response_code == 0 && reply.data.len() == 8,
{
    lemma_only_success_is_accepted(reply, CommandCode(2), seq![]);
    lemma_be32_round_trip(signal.milliamps.bits, 0, 0, 0, 0);
    lemma_be32_round_trip(signal.percent.bits, 0, 0, 0, 0);
}

/// One to four classification bytes are handed out as they came.
pub proof fn lemma_classifications_are_the_bytes(
    reply: ReplyView,
    result: Result<VariableClassifications, OperationError>,
)
    requires
        ReadVariableClassifications.decodes(reply, result),
    ensures
        result is Ok <==> reply.command.0 == 8 && reply.response_code == 0 && 1 <= reply.data.len()
            <= 4,
        result matches Ok(decoded) ==> decoded.classes@ == reply.data,
{
    lemma_only_success_is_accepted(reply, CommandCode(8), seq![]);
}

/// The bytes of device variables in a row.
pub open spec fn variable_bytes(variables: Seq<DeviceVariable>) -> Seq<u8>
    decreases variables.len(),
{
    if variables.len() == 0 {
        Seq::empty()
    } else {
        let last = variables.last();
        variable_bytes(variables.drop_last()) + seq![last.code, last.classification, last.unit]
            + be32(last.value.bits) + seq![last.status]
    }
}

spec fn variable_at(bytes: Seq<u8>, at: int, variable: DeviceVariable) -> bool {
    &&& bytes[at] == variable.code
    &&& bytes[at + 1] == variable.classification
    &&& bytes[at + 2] == variable.unit
    &&& float_at(bytes, at + 3) == variable.value
    &&& bytes[at + 7] == variable.status
}

proof fn lemma_variable_bytes(variables: Seq<DeviceVariable>)
    ensures
        variable_bytes(variables).len() == 8 * variables.len(),
        forall|k: int|
            #![trigger variables[k]]
            0 <= k < variables.len() ==> variable_at(
                variable_bytes(variables),
                8 * k,
                variables[k],
            ),
    decreases variables.len(),
{
    if variables.len() > 0 {
        let rest = variables.drop_last();
        let bytes = variable_bytes(variables);
        let before = variable_bytes(rest);
        lemma_variable_bytes(rest);
        lemma_be32_round_trip(variables.last().value.bits, 0, 0, 0, 0);
        assert forall|k: int|
            #![trigger variables[k]]
            0 <= k < variables.len() implies variable_at(bytes, 8 * k, variables[k]) by {
            if k < rest.len() {
                assert(rest[k] == variables[k]);
                assert(forall|i: int| 0 <= i < before.len() ==> bytes[i] == before[i]);
                assert(variable_at(before, 8 * k, variables[k]));
            }
        }
    }
}

/// Reading device variables undoes writing them: the extended status and up to
/// eight variables come back field by field and in their order. Replies of no
/// other length are accepted. The request lists the slots as they were given.
pub proof fn lemma_device_variables_round_trip(
    operation: ReadDeviceVariables,
    reply: ReplyView,
    status: u8,
    variables: Seq<DeviceVariable>,
    result: Result<DeviceVariables, OperationError>,
)
    requires
        operation.decodes(reply, result),
    ensures
        reply.command.0 == 9 && reply.response_code == 0 && variables.len() <= 8 && reply.data
            == seq![status] + variable_bytes(variables) ==> (result matches Ok(decoded)
            && decoded.extended_status == status && decoded.variables@ == variables),
        result is Ok <==> reply.command.0 == 9 && reply.response_code == 0 && reply.data.len() % 8
            == 1 && reply.data.len() <= 65,
        operation.payload() == Ok::<Seq<u8>, OperationError>(operation.slots@),
{
    lemma_only_success_is_accepted(reply, CommandCode(9), seq![]);
    lemma_variable_bytes(variables);
    if reply.command.0 == 9 && reply.response_code == 0 && variables.len() <= 8 && reply.data
        == seq![status] + variable_bytes(variables) {
        let tail = variable_bytes(variables);
        let decoded = result->Ok_0;
        assert forall|k: int| 0 <= k < variables.len() implies decoded.variables@[k]
            == variables[k] by {
            assert(variable_at(tail, 8 * k, variables[k]));
            assert(forall|i: int| 0 <= i < tail.len() ==> reply.data[1 + i] == tail[i]);
            assert(reply.data[1 + 8 * k] == tail[8 * k]);
            assert(reply.data[2 + 8 * k] == tail[8 * k + 1]);
            assert(reply.data[3 + 8 * k] == tail[8 * k + 2]);
            assert(reply.data[4 + 8 * k] == tail[8 * k + 3]);
            assert(reply.data[5 + 8 * k] == tail[8 * k + 4]);
            assert(reply.data[6 + 8 * k] == tail[8 * k + 5]);
            assert(reply.data[7 + 8 * k] == tail[8 * k + 6]);
            assert(reply.data[8 + 8 * k] == tail[8 * k + 7]);
        }
        assert(decoded.variables@ =~= variables);
    }
}

/// The bytes of selected variables in a row.
pub open spec fn selected_bytes(variables: Seq<SelectedVariable>) -> Seq<u8>
    decreases variables.len(),
{
    if variables.len() == 0 {
        Seq::empty()
    } else {
        let last = variables.last();
        selected_bytes(variables.drop_last()) + seq![last.code, last.unit] + be32(last.value.bits)
    }
}

spec fn selected_at(bytes: Seq<u8>, at: int, variable: SelectedVariable) -> bool {
    &&& bytes[at] == variable.code
    &&& bytes[at + 1] == variable.unit
    &&& float_at(bytes, at + 2) == variable.value
}

proof fn lemma_selected_bytes(variables: Seq<SelectedVariable>)
    ensures
        selected_bytes(variables).len() == 6 * variables.len(),
        forall|k: int|
            #![trigger variables[k]]
            0 <= k < variables.len() ==> selected_at(
                selected_bytes(variables),
                6 * k,
                variables[k],
            ),
    decreases variables.len(),
{
    if variables.len() > 0 {
        let rest = variables.drop_last();
        let bytes = selected_bytes(variables);
        let before = selected_bytes(rest);
        lemma_selected_bytes(rest);
        lemma_be32_round_trip(variables.last().value.bits, 0, 0, 0, 0);
        assert forall|k: int|
            #![trigger variables[k]]
            0 <= k < variables.len() implies selected_at(bytes, 6 * k, variables[k]) by {
            if k < rest.len() {
                assert(rest[k] == variables[k]);
                assert(forall|i: int| 0 <= i < before.len() ==> bytes[i] == before[i]);
                assert(selected_at(before, 6 * k, variables[k]));
            }
        }
    }
}

/// Reading selected variables undoes writing them: one to four variables come
/// back field by field and in their order. Replies of no other length are
/// accepted. The request lists the variables as they were given.
pub proof fn lemma_selected_variables_round_trip(
    operation: ReadSelectedVariables,
    reply: ReplyView,
    variables: Seq<SelectedVariable>,
    result: Result<Vec<SelectedVariable>, OperationError>,
)
    requires
        operation.decodes(reply, result),
    ensures
        reply.command.0 == 33 && reply.response_code == 0 && 1 <= variables.len() <= 4
            && reply.data == selected_bytes(variables) ==> (result matches Ok(decoded)
            && decoded@ == variables),
        result is Ok <==> reply.command.0 == 33 && reply.response_code == 0 && (reply.data.len()
            == 6 || reply.data.len() == 12 || reply.data.len() == 18 || reply.data.len() == 24),
        operation.payload() == Ok::<Seq<u8>, OperationError>(operation.variables@),
{
    lemma_only_success_is_accepted(reply, CommandCode(33), seq![]);
    lemma_selected_bytes(variables);
    if reply.command.0 == 33 && reply.response_code == 0 && 1 <= variables.len() <= 4
        && reply.data == selected_bytes(variables) {
        let decoded = result->Ok_0;
        assert forall|k: int| 0 <= k < variables.len() implies decoded@[k] == variables[k] by {
            assert(selected_at(reply.data, 6 * k, variables[k]));
        }
        assert(decoded@ =~= variables);
    }
}

/// A device that confirms a new polling address with the bytes of the request
/// confirms exactly what was asked for. A reply without the mode byte says
/// that the loop current is active at address zero only, and the two upper
/// bits of the address byte carry no meaning.
pub proof fn lemma_polling_address_round_trip(
    operation: WritePollingAddress,
    reply: ReplyView,
    result: Result<PollingAddress, OperationError>,
)
    requires
        operation.decodes(reply, result),
    ensures
        operation.payload() is Ok <==> operation.value.node <= 63,
        operation.payload() matches Ok(data) ==> data.len() == 2 && data[0] == operation.value.node
            && (data[1] != 0 <==> operation.value.loop_current_enabled) && (reply.command.0 == 6
            && reply.response_code == 0 && reply.data == data ==> result == Ok::<
            PollingAddress,
            OperationError,
        >(operation.value)),
        result is Ok <==> reply.command.0 == 6 && reply.response_code == 0 && 1 <= reply.data.len()
            <= 2,
        result matches Ok(address) ==> address.node <= 63 && (reply.data[0] - address.node) % 64
            == 0 && (reply.data.len() == 1 ==> (address.loop_current_enabled <==> address.node
            == 0)) && (reply.data.len() == 2 ==> (address.loop_current_enabled <==> reply.data[1]
            != 0)),
{
    lemma_only_success_is_accepted(reply, CommandCode(6), seq![]);
}

/// The single-byte form of the address command writes an address of at most
/// fifteen; its confirmation gives the address back.
pub proof fn lemma_legacy_polling_address_round_trip(
    operation: WriteLegacyPollingAddress,
    reply: ReplyView,
    result: Result<PollingAddress, OperationError>,
)
    requires
        operation.decodes(reply, result),
    ensures
        operation.payload() is Ok <==> operation.node <= 15,
        operation.payload() matches Ok(data) ==> data == seq![operation.node] && (reply.command.0
            == 6 && reply.response_code == 0 && reply.data == data ==> (result matches Ok(address)
            && address.node == operation.node && (address.loop_current_enabled <==> operation.node
            == 0))),
{
    lemma_only_success_is_accepted(reply, CommandCode(6), seq![]);
}

/// The loop configuration is an address of six bits and, where a second byte
/// is present, that byte as the mode.
pub proof fn lemma_loop_configuration_round_trip(
    reply: ReplyView,
    configuration: LoopConfiguration,
    result: Result<LoopConfiguration, OperationError>,
)
    requires
        ReadLoopConfiguration.decodes(reply, result),
        configuration.node <= 63,
    ensures
        reply.command.0 == 7 && reply.response_code == 0 && reply.data == (
        match configuration.loop_current_mode {
            Some(mode) => seq![configuration.node, mode],
            None => seq![configuration.node],
        }) ==> result == Ok::<LoopConfiguration, OperationError>(configuration),
        result is Ok <==> reply.command.0 == 7 && reply.response_code == 0 && 1 <= reply.data.len()
            <= 2,
        result matches Ok(decoded) ==> decoded.node <= 63 && (reply.data[0] - decoded.node) % 64
            == 0,
{
    lemma_only_success_is_accepted(reply, CommandCode(7), seq![]);
}

/// A device that confirms a damping time with the bytes of the request
/// confirms exactly that time. Only finite times that are not negative are
/// written.
pub proof fn lemma_damping_round_trip(
    operation: SetDamping,
    reply: ReplyView,
    confirmed: Float32,
    result: Result<Float32, OperationError>,
)
    requires
        operation.decodes(reply, result),
    ensures
        operation.payload() is Ok <==> operation.seconds.bits <= 0x7f7f_ffff
            || operation.seconds.bits == 0x8000_0000,
        operation.payload() matches Ok(data) ==> data == be32(operation.seconds.bits),
        reply.command.0 == 34 && reply.response_code == 0 && reply.data == be32(confirmed.bits)
            ==> result == Ok::<Float32, OperationError>(confirmed),
        result is Ok <==> reply.command.0 == 34 && reply.response_code == 0 && reply.data.len()
            == 4,
{
    lemma_only_success_is_accepted(reply, CommandCode(34), seq![]);
    lemma_be32_round_trip(confirmed.bits, 0, 0, 0, 0);
}

/// A range is written as its unit, its upper and its lower limit, and a
/// confirmation in the same form gives back the three.
pub proof fn lemma_range_round_trip(
    operation: SetRange,
    reply: ReplyView,
    confirmed: RangeValues,
    result: Result<RangeValues, OperationError>,
)
    requires
        operation.decodes(reply, result),
    ensures
        operation.payload() is Ok <==> operation.0.upper.finite() && operation.0.lower.finite(),
        operation.payload() matches Ok(data) ==> data.len() == 9 && data[0] == operation.0.unit
            && data.subrange(1, 5) == be32(operation.0.upper.bits) && data.subrange(5, 9) == be32(
            operation.0.lower.bits,
        ),
        reply.command.0 == 35 && reply.response_code == 0 && reply.data == seq![confirmed.unit]
            + be32(confirmed.upper.bits) + be32(confirmed.lower.bits) ==> result == Ok::<
            RangeValues,
            OperationError,
        >(confirmed),
        result is Ok <==> reply.command.0 == 35 && reply.response_code == 0 && reply.data.len()
            == 9,
{
    lemma_only_success_is_accepted(reply, CommandCode(35), seq![]);
    lemma_be32_round_trip(confirmed.upper.bits, 0, 0, 0, 0);
    lemma_be32_round_trip(confirmed.lower.bits, 0, 0, 0, 0);
    if operation.payload() is Ok {
        let data = operation.payload()->Ok_0;
        assert(data.subrange(1, 5) =~= be32(operation.0.upper.bits));
        assert(data.subrange(5, 9) =~= be32(operation.0.lower.bits));
    }
}

/// A fixed current is written as its four bytes where it is finite, and the
/// confirmed current is the one that the four bytes of the reply give.
pub proof fn lemma_fixed_current_round_trip(
    operation: FixedCurrent,
    reply: ReplyView,
    confirmed: Float32,
    result: Result<Float32, OperationError>,
)
    requires
        operation.decodes(reply, result),
    ensures
        operation.payload() is Ok <==> operation.0.finite(),
        operation.payload() matches Ok(data) ==> data == be32(operation.0.bits),
        reply.command.0 == 40 && reply.response_code == 0 && reply.data == be32(confirmed.bits)
            ==> result == Ok::<Float32, OperationError>(confirmed),
        result is Ok <==> reply.command.0 == 40 && reply.response_code == 0 && reply.data.len()
            == 4,
{
    lemma_only_success_is_accepted(reply, CommandCode(40), seq![]);
    lemma_be32_round_trip(confirmed.bits, 0, 0, 0, 0);
}

/// The current that a trim confirms is the one that the four bytes of the
/// reply give.
pub proof fn lemma_trim_round_trip(
    operation: AnalogTrim,
    reply: ReplyView,
    confirmed: Float32,
    result: Result<Float32, OperationError>,
)
    requires
        operation.decodes(reply, result),
    ensures
        reply.command.0 == operation.code().0 && reply.response_code == 0 && reply.data == be32(
            confirmed.bits,
        ) ==> result == Ok::<Float32, OperationError>(confirmed),
        result is Ok <==> reply.command.0 == operation.code().0 && reply.response_code == 0
            && reply.data.len() == 4,
{
    lemma_only_success_is_accepted(reply, operation.code(), seq![]);
    lemma_be32_round_trip(confirmed.bits, 0, 0, 0, 0);
}

/// Memory control, the unit of the primary variable and the transfer function
/// are one byte in the request and one byte in the reply.
pub proof fn lemma_single_bytes_round_trip(
    memory: EepromControl,
    unit: WritePrimaryUnit,
    function: WriteTransferFunction,
    reply: ReplyView,
    result: Result<u8, OperationError>,
)
    ensures
        memory.payload() == Ok::<Seq<u8>, OperationError>(seq![memory.0]),
        unit.payload() == Ok::<Seq<u8>, OperationError>(seq![unit.0]),
        function.payload() == Ok::<Seq<u8>, OperationError>(seq![function.0]),
        memory.decodes(reply, result) ==> (result is Ok <==> reply.command.0 == 39
            && reply.response_code == 0 && reply.data.len() == 1),
        unit.decodes(reply, result) ==> (result is Ok <==> reply.command.0 == 44
            && reply.response_code == 0 && reply.data.len() == 1),
        function.decodes(reply, result) ==> (result is Ok <==> reply.command.0 == 47
            && reply.response_code == 0 && reply.data.len() == 1),
        memory.decodes(reply, result) || unit.decodes(reply, result) || function.decodes(
            reply,
            result,
        ) ==> (result matches Ok(byte) ==> reply.data == seq![byte]),
{
    lemma_only_success_is_accepted(reply, CommandCode(39), seq![]);
    lemma_only_success_is_accepted(reply, CommandCode(44), seq![]);
    lemma_only_success_is_accepted(reply, CommandCode(47), seq![]);
    if reply.data.len() == 1 {
        assert(reply.data =~= seq![reply.data[0]]);
    }
}

/// Transducer and output information are the bytes of the reply, and there is
/// at least one. The additional status is the bytes of the reply, be there any
/// or none.
pub proof fn lemma_information_is_the_bytes(
    reply: ReplyView,
    information: Result<Vec<u8>, OperationError>,
    status: Result<AdditionalStatus, OperationError>,
)
    ensures
        ReadTransducerInformation.decodes(reply, information) ==> (information is Ok
            <==> reply.command.0 == 14 && reply.response_code == 0 && reply.data.len() > 0) && (
        information matches Ok(bytes) ==> bytes@ == reply.data),
        ReadOutputInformation.decodes(reply, information) ==> (information is Ok
            <==> reply.command.0 == 15 && reply.response_code == 0 && reply.data.len() > 0) && (
        information matches Ok(bytes) ==> bytes@ == reply.data),
        ReadAdditionalStatus.decodes(reply, status) ==> (status is Ok <==> reply.command.0 == 48
            && reply.response_code == 0) && (status matches Ok(decoded) ==> decoded.bytes@
            == reply.data),
{
    lemma_only_success_is_accepted(reply, CommandCode(14), seq![]);
    lemma_only_success_is_accepted(reply, CommandCode(15), seq![]);
    lemma_only_success_is_accepted(reply, CommandCode(48), seq![]);
}

/// A final assembly number of 24 bits is written as three bytes and read back
/// from three bytes. A confirmation without bytes confirms the number that was
/// written.
pub proof fn lemma_assembly_number_round_trip(
    operation: WriteFinalAssemblyNumber,
    reply: ReplyView,
    number: u32,
    read: Result<u32, OperationError>,
    written: Result<u32, OperationError>,
)
    requires
        number <= 0xff_ffff,
        ReadFinalAssemblyNumber.decodes(reply, read),
        operation.decodes(reply, written),
    ensures
        operation.payload() is Ok <==> operation.0 <= 0xff_ffff,
        operation.payload() matches Ok(data) ==> data == be24(operation.0),
        reply.command.0 == 16 && reply.response_code == 0 && reply.data == be24(number) ==> read
            == Ok::<u32, OperationError>(number),
        read is Ok <==> reply.command.0 == 16 && reply.response_code == 0 && reply.data.len() == 3,
        reply.command.0 == 19 && reply.response_code == 0 && reply.data == be24(number) ==> written
            == Ok::<u32, OperationError>(number),
        reply.command.0 == 19 && reply.response_code == 0 && reply.data.len() == 0 ==> written
            == Ok::<u32, OperationError>(operation.0),
        written is Ok <==> reply.command.0 == 19 && reply.response_code == 0 && (reply.data.len()
            == 0 || reply.data.len() == 3),
{
    lemma_only_success_is_accepted(reply, CommandCode(16), seq![]);
    lemma_only_success_is_accepted(reply, CommandCode(19), seq![]);
    lemma_be24_round_trip(number, 0, 0, 0);
}

/// The bytes that every identification starts with, up to the device number.
pub open spec fn identity_head(identity: IdentityView) -> Seq<u8> {
    seq![0xfeu8] + (if identity.universal_revision >= 7 {
        be16(identity.device_type)
    } else {
        seq![identity.manufacturer_id as u8, identity.device_type as u8]
    }) + seq![
        identity.request_preambles,
        identity.universal_revision,
        identity.device_revision,
        identity.software_revision,
        (identity.hardware_revision * 8 + identity.physical_signaling) as u8,
        identity.flags,
    ] + be24(identity.device_id)
}

/// The bytes that revision 6 added.
pub open spec fn identity_middle(identity: IdentityView) -> Seq<u8> {
    seq![identity.response_preambles->0, identity.maximum_device_variables->0] + be16(
        identity.configuration_change_counter->0,
    ) + seq![identity.extended_status->0]
}

/// The bytes that revision 7 added.
pub open spec fn identity_end(identity: IdentityView) -> Seq<u8> {
    be16(identity.manufacturer_id) + be16(identity.private_label_distributor->0)
        + seq![identity.device_profile->0]
}

/// What the fields of an identification can hold, by its revision.
pub open spec fn presentable(identity: IdentityView) -> bool {
    let revision = identity.universal_revision;
    &&& identity.response_identifier == 0xfe
    &&& identity.request_preambles > 0
    &&& identity.hardware_revision < 32
    &&& identity.physical_signaling < 8
    &&& identity.device_id <= 0xff_ffff
    &&& revision < 7 ==> identity.manufacturer_id <= 255 && identity.device_type <= 255
    &&& (identity.response_preambles is Some <==> revision >= 6)
    &&& (identity.maximum_device_variables is Some <==> revision >= 6)
    &&& (identity.configuration_change_counter is Some <==> revision >= 6)
    &&& (identity.extended_status is Some <==> revision >= 6)
    &&& (identity.private_label_distributor is Some <==> revision >= 7)
    &&& (identity.device_profile is Some <==> revision >= 7)
}

/// The bytes of an identification, by its revision.
pub open spec fn identity_bytes(identity: IdentityView) -> Seq<u8> {
    identity_head(identity) + (if identity.universal_revision >= 6 {
        identity_middle(identity)
    } else {
        Seq::empty()
    }) + (if identity.universal_revision >= 7 {
        identity_end(identity)
    } else {
        Seq::empty()
    }) + identity.extension
}

/// Reading an identification undoes writing it, field by field, for every
/// revision; bytes beyond the known ones are kept.
#[verifier::spinoff_prover]
#[verifier::rlimit(40)]
pub proof fn lemma_identity_round_trip(identity: IdentityView)
    requires
        presentable(identity),
    ensures
        identity_of(identity_bytes(identity)) == Ok::<IdentityView, OperationError>(identity),
{
    let data = identity_bytes(identity);
    let head = identity_head(identity);
    let middle = identity_middle(identity);
    let end = identity_end(identity);
    let revision = identity.universal_revision;
    lemma_be16_round_trip(identity.device_type, 0, 0);
    lemma_be16_round_trip(identity.manufacturer_id, 0, 0);
    lemma_be24_round_trip(identity.device_id, 0, 0, 0);
    assert(head.len() == 12);
    assert(forall|i: int| 0 <= i < 12 ==> data[i] == head[i]);
    assert(data[4] == revision);
    if revision >= 7 {
        lemma_be16_round_trip(identity.configuration_change_counter->0, 0, 0);
        lemma_be16_round_trip(identity.private_label_distributor->0, 0, 0);
        assert(forall|i: int| 0 <= i < 5 ==> data[12 + i] == middle[i]);
        assert(forall|i: int| 0 <= i < 5 ==> data[17 + i] == end[i]);
        assert(data[12] == middle[0] && data[13] == middle[1] && data[14] == middle[2] && data[15]
            == middle[3] && data[16] == middle[4]);
        assert(data[17] == end[0] && data[18] == end[1] && data[19] == end[2] && data[20] == end[3]
            && data[21] == end[4]);
        assert(data.skip(22) =~= identity.extension);
    } else if revision == 6 {
        lemma_be16_round_trip(identity.configuration_change_counter->0, 0, 0);
        assert(forall|i: int| 0 <= i < 5 ==> data[12 + i] == middle[i]);
        assert(data[12] == middle[0] && data[13] == middle[1] && data[14] == middle[2] && data[15]
            == middle[3] && data[16] == middle[4]);
        assert(data.skip(17) =~= identity.extension);
    } else {
        assert(data.skip(12) =~= identity.extension);
    }
    assert(identity_of(data)->Ok_0 =~= identity);
}

/// An identification is read from a reply of the command that asked for it, if
/// that reports success and its data is an identification.
pub proof fn lemma_identity_is_read_from_a_success(
    command: CommandCode,
    reply: ReplyView,
    identity: IdentityView,
    result: Result<DeviceIdentity, OperationError>,
)
    requires
        identity_reply(command, reply, result),
    ensures
        presentable(identity) && reply.command.0 == command.0 && reply.response_code == 0
            && reply.data == identity_bytes(identity) ==> (result matches Ok(read) && read@
            == identity),
        result is Ok ==> reply.command.0 == command.0 && reply.response_code == 0
            && reply.data.len() >= 12 && reply.data[0] == 0xfe && reply.data[3] != 0,
{
    lemma_only_success_is_accepted(reply, command, seq![]);
    if presentable(identity) {
        lemma_identity_round_trip(identity);
    }
}

/// The long address of a device carries its 24-bit number and 14 bits of type:
/// the low bits of the expanded type from revision 7 on, before that six bits
/// of the manufacturer above the eight of the type.
pub proof fn lemma_long_address_fields(
    identity: IdentityView,
    master: Master,
)
    ensures
        identity.long_address(master) is Ok <==> identity.device_id <= 0xff_ffff,
        identity.long_address(master) matches Ok(address) ==> (address matches Address::Unique { expanded_type, device_id, master: by }
            && device_id == identity.device_id && by == master && expanded_type < 0x4000 && (
        identity.universal_revision >= 7 ==> (identity.device_type - expanded_type) % 0x4000 == 0)
            && (identity.universal_revision < 7 ==> (identity.device_type - expanded_type) % 256
            == 0 && (identity.manufacturer_id - expanded_type / 256) % 64 == 0)),
{
}

/// A request frame carries its command: commands of up to 255 in the header,
/// the others behind command 31 with their number in front of the data. What
/// the response to it carries behind code and status is read back the same
/// way, whatever the command but 31 itself.
pub proof fn lemma_reply_frame_round_trip(request: RequestView, reply: ReplyView)
    requires
        request.command.0 != 31,
        reply.command == request.command,
    ensures
        request.frame().kind is Request,
        request.frame().address == request.address,
        request.frame().preambles == request.preambles,
        request.frame().expansion == request.frame_expansion,
        request.frame().physical_layer == request.physical_layer,
        request.command.0 <= 255 ==> request.frame().wire_command == request.command.0
            && request.frame().payload == request.data,
        request.command.0 > 255 ==> request.frame().wire_command == 31 && request.frame().payload
            == be16(request.command.0) + request.data,
        ReplyView::of_frame(
            FrameView {
                preambles: reply.response_preambles,
                kind: if reply.burst {
                    FrameKind::Burst
                } else {
                    FrameKind::Response
                },
                physical_layer: reply.physical_layer,
                address: reply.address,
                expansion: reply.frame_expansion,
                wire_command: if reply.command.0 > 255 {
                    31
                } else {
                    reply.command.0 as u8
                },
                payload: seq![reply.response_code, reply.device_status] + (if reply.command.0 > 255 {
                    be16(reply.command.0)
                } else {
                    Seq::empty()
                }) + reply.data,
                repair: None,
            },
        ) == Ok::<ReplyView, OperationError>(reply),
{
    lemma_be16_round_trip(reply.command.0, 0, 0);
    let head = seq![reply.response_code, reply.device_status];
    let number = be16(reply.command.0);
    assert((head + number + reply.data).skip(4) =~= reply.data);
    assert((head + Seq::<u8>::empty() + reply.data).skip(2) =~= reply.data);
}

/// A request can be sent exactly when its data, together with the number of an
/// expanded command, takes at most 255 bytes and its header extension at most
/// three. A request that is sent untyped gives its reply back whatever the
/// device reported, if only the command is the same.
pub proof fn lemma_size_of_a_request(
    request: RequestView,
    operation: RawOperation,
    reply: ReplyView,
    result: Result<DeviceReply, OperationError>,
)
    requires
        operation.decodes(reply, result),
    ensures
        request.size_error() is None <==> request.frame().payload.len() <= 255
            && request.frame_expansion.len() <= 3,
        reply.command.0 == operation.command.0 ==> (result matches Ok(value) && value@ == reply),
        reply.command.0 != operation.command.0 ==> result == Err::<DeviceReply, OperationError>(
            OperationError::CommandMismatch {
                expected: operation.command.0,
                actual: reply.command.0,
            },
        ),
{
}

/// Whether a text is another one without its trailing blanks.
pub open spec fn is_trimmed(kept: Seq<char>, text: Seq<char>, zeros: bool) -> bool {
    &&& kept.len() <= text.len()
    &&& forall|i: int| 0 <= i < kept.len() ==> kept[i] == #[trigger] text[i]
    &&& forall|i: int|
        kept.len() <= i < text.len() ==> #[trigger] text[i] == ' ' || zeros && text[i] == '\0'
    &&& kept.len() > 0 ==> kept.last() != ' ' && !(zeros && kept.last() == '\0')
}

pub(crate) proof fn lemma_trimmed(text: Seq<char>, zeros: bool)
    ensures
        is_trimmed(
            trimmed_end(
                text,
                if zeros {
                    set!['\0', ' ']
                } else {
                    set![' ']
                },
            ),
            text,
            zeros,
        ),
    decreases text.len(),
{
    let unwanted = if zeros {
        set!['\0', ' ']
    } else {
        set![' ']
    };
    if text.len() > 0 && unwanted.contains(text.last()) {
        let rest = text.drop_last();
        lemma_trimmed(rest, zeros);
        let kept = trimmed_end(rest, unwanted);
        assert forall|i: int| 0 <= i < kept.len() implies kept[i] == #[trigger] text[i] by {
            assert(kept[i] == rest[i]);
        }
        assert forall|i: int| kept.len() <= i < text.len() implies #[trigger] text[i] == ' '
            || zeros && text[i] == '\0' by {
            if i < rest.len() {
                assert(rest[i] == text[i]);
            }
        }
    }
}

/// A text can be packed exactly when the room for it is a number of whole
/// three-byte groups of at most 255 bytes, its characters lie between the
/// space and the underscore, and four of them fit into each group. Each group
/// holds the low six bits of its four characters in their order, a space
/// standing for each that is missing.
pub proof fn lemma_packed_groups(text: Seq<char>, output_bytes: nat, group: int)
    requires
        0 <= group < output_bytes / 3,
    ensures
        packed_text(text, output_bytes) is Ok <==> output_bytes <= 255 && output_bytes % 3 == 0
            && 3 * text.len() <= 4 * output_bytes && forall|i: int|
            0 <= i < text.len() ==> ' ' as u32 <= (#[trigger] text[i]) as u32 <= '_' as u32,
        packed_text(text, output_bytes) matches Ok(bytes) ==> bytes.len() == output_bytes && bytes[3
            * group] * 65536 + bytes[3 * group + 1] * 256 + bytes[3 * group + 2] == six_low_bits(
            text,
            4 * group,
        ) * 262144 + six_low_bits(text, 4 * group + 1) * 4096 + six_low_bits(text, 4 * group + 2)
            * 64 + six_low_bits(text, 4 * group + 3),
{
    if packed_text(text, output_bytes) is Ok {
        let bytes = packed_text(text, output_bytes)->Ok_0;
        let a = six_low_bits(text, 4 * group) as u8;
        let b = six_low_bits(text, 4 * group + 1) as u8;
        let c = six_low_bits(text, 4 * group + 2) as u8;
        let d = six_low_bits(text, 4 * group + 3) as u8;
        assert(3 * group / 3 * 4 == 4 * group);
        assert((3 * group + 1) / 3 * 4 == 4 * group);
        assert((3 * group + 2) / 3 * 4 == 4 * group);
        assert(bytes[3 * group] == (a * 4 + b / 16) as u8);
        assert(bytes[3 * group + 1] == ((b % 16) * 16 + c / 4) as u8);
        assert(bytes[3 * group + 2] == ((c % 4) * 64 + d) as u8);
    }
}

/// The low six bits of a character of a text, those of a space behind its end.
pub open spec fn six_low_bits(text: Seq<char>, index: int) -> int {
    if index < text.len() {
        text[index] as u32 as int % 64
    } else {
        32
    }
}

/// A message that was written is read back without its trailing spaces, from
/// the confirmation as well as by the reading command. Messages take 24 bytes.
pub proof fn lemma_message_round_trip(
    message: Seq<char>,
    writing: WriteMessage,
    reply: ReplyView,
    result: Result<String, OperationError>,
)
    requires
        writing.payload() == packed_text(message, 24),
        packed_text(message, 24) is Ok,
        writing.decodes(reply, result) || ReadMessage.decodes(reply, result),
    ensures
        (reply.command.0 == 17 && writing.decodes(reply, result) || reply.command.0 == 12
            && ReadMessage.decodes(reply, result)) && reply.response_code == 0 && reply.data
            == writing.payload()->Ok_0 ==> (result matches Ok(text) && is_trimmed(
            text@,
            message,
            false,
        )),
        result is Ok ==> (reply.command.0 == 12 || reply.command.0 == 17) && reply.response_code
            == 0 && reply.data.len() == 24,
{
    lemma_only_success_is_accepted(reply, CommandCode(12), seq![]);
    lemma_only_success_is_accepted(reply, CommandCode(17), seq![]);
    let kept = trimmed_end(message, set![' ']);
    let data = packed_text(message, 24)->Ok_0;
    assert(unpacked_text(data) == kept && is_trimmed(kept, message, false)) by {
        lemma_packed_text_round_trip(message, 24);
        lemma_trimmed(message, false);
    }
    lemma_message_length(message);
}

proof fn lemma_message_length(message: Seq<char>)
    requires
        packed_text(message, 24) is Ok,
    ensures
        packed_text(message, 24)->Ok_0.len() == 24,
{
}

/// A long tag that was written is read back without its trailing blanks, from
/// the confirmation as well as by the reading command. Long tags take 32 bytes,
/// one for each character.
pub proof fn lemma_long_tag_round_trip(
    tag: Seq<char>,
    writing: WriteLongTag,
    reply: ReplyView,
    result: Result<String, OperationError>,
)
    requires
        writing.payload() == latin1(tag, 32),
        writing.decodes(reply, result) || ReadLongTag.decodes(reply, result),
    ensures
        latin1(tag, 32) is Ok <==> tag.len() <= 32 && forall|i: int|
            0 <= i < tag.len() ==> (#[trigger] tag[i]) as u32 <= 255,
        latin1(tag, 32) matches Ok(bytes) ==> bytes.len() == 32 && forall|i: int|
            0 <= i < 32 ==> #[trigger] bytes[i] == if i < tag.len() {
                tag[i] as u32
            } else {
                ' ' as u32
            },
        latin1(tag, 32) is Ok && (reply.command.0 == 22 && writing.decodes(reply, result)
            || reply.command.0 == 20 && ReadLongTag.decodes(reply, result))
            && reply.response_code == 0 && reply.data == latin1(tag, 32)->Ok_0 ==> (
        result matches Ok(text) && is_trimmed(text@, tag, true)),
        result is Ok ==> (reply.command.0 == 20 || reply.command.0 == 22) && reply.response_code
            == 0 && reply.data.len() == 32,
{
    lemma_only_success_is_accepted(reply, CommandCode(20), seq![]);
    lemma_only_success_is_accepted(reply, CommandCode(22), seq![]);
    if latin1(tag, 32) is Ok {
        let bytes = latin1(tag, 32)->Ok_0;
        lemma_latin1_round_trip(tag, 32);
        lemma_trimmed(tag, true);
        assert forall|i: int| 0 <= i < 32 implies #[trigger] bytes[i] == if i < tag.len() {
            tag[i] as u32
        } else {
            ' ' as u32
        } by {
            if i < tag.len() {
                assert(tag[i] as u32 <= 0xff);
            }
        }
    }
}

/// Tag, descriptor and date that were written are read back, the texts without
/// their trailing spaces, from the confirmation as well as by the reading
/// command. They can be written exactly when the date is unspecified or names
/// a day of a month and both texts can be packed.
pub proof fn lemma_tag_round_trip(
    value: TagDescriptorDate,
    writing: WriteTagDescriptorDate,
    reply: ReplyView,
    result: Result<TagDescriptorDate, OperationError>,
)
    requires
        writing.payload() == tag_bytes(value),
        writing.decodes(reply, result) || ReadTagDescriptorDate.decodes(reply, result),
    ensures
        tag_bytes(value) is Ok <==> (value.date == (DeviceDate {
            day: 0,
            month: 0,
            year_since_1900: 0,
        }) || 1 <= value.date.day <= 31 && 1 <= value.date.month <= 12) && packed_text(
            value.tag@,
            6,
        ) is Ok && packed_text(value.descriptor@, 12) is Ok,
        tag_bytes(value) is Ok && (reply.command.0 == 18 && writing.decodes(reply, result)
            || reply.command.0 == 13 && ReadTagDescriptorDate.decodes(reply, result))
            && reply.response_code == 0 && reply.data == tag_bytes(value)->Ok_0 ==> (
        result matches Ok(read) && is_trimmed(read.tag@, value.tag@, false) && is_trimmed(
            read.descriptor@,
            value.descriptor@,
            false,
        ) && read.date == value.date),
        result is Ok ==> (reply.command.0 == 13 || reply.command.0 == 18) && reply.response_code
            == 0 && reply.data.len() == 21,
        result matches Ok(read) ==> read.date == (DeviceDate {
            day: reply.data[18],
            month: reply.data[19],
            year_since_1900: reply.data[20],
        }),
{
    lemma_only_success_is_accepted(reply, CommandCode(13), seq![]);
    lemma_only_success_is_accepted(reply, CommandCode(18), seq![]);
    if tag_bytes(value) is Ok {
        let data = tag_bytes(value)->Ok_0;
        let tag = packed_text(value.tag@, 6)->Ok_0;
        let descriptor = packed_text(value.descriptor@, 12)->Ok_0;
        lemma_packed_text_round_trip(value.tag@, 6);
        lemma_packed_text_round_trip(value.descriptor@, 12);
        lemma_trimmed(value.tag@, false);
        lemma_trimmed(value.descriptor@, false);
        assert(tag.len() == 6);
        assert(descriptor.len() == 12);
        assert(data.subrange(0, 6) =~= tag);
        assert(data.subrange(6, 18) =~= descriptor);
    }
}

/// Every command has its number.
pub proof fn lemma_command_numbers(
    variables: ReadDeviceVariables,
    selected: ReadSelectedVariables,
    polling: WritePollingAddress,
    legacy: WriteLegacyPollingAddress,
    message: WriteMessage,
    tag: WriteTagDescriptorDate,
    long_tag: WriteLongTag,
    assembly: WriteFinalAssemblyNumber,
    damping: SetDamping,
    range: SetRange,
    memory: EepromControl,
    current: FixedCurrent,
    unit: WritePrimaryUnit,
    function: WriteTransferFunction,
)
    ensures
        ReadPrimaryValue.code().0 == 1,
        ReadLoopSignal.code().0 == 2,
        ReadDynamicValues.code().0 == 3,
        polling.code().0 == 6,
        legacy.code().0 == 6,
        ReadLoopConfiguration.code().0 == 7,
        ReadVariableClassifications.code().0 == 8,
        variables.code().0 == 9,
        ReadMessage.code().0 == 12,
        ReadTagDescriptorDate.code().0 == 13,
        ReadTransducerInformation.code().0 == 14,
        ReadOutputInformation.code().0 == 15,
        ReadFinalAssemblyNumber.code().0 == 16,
        message.code().0 == 17,
        tag.code().0 == 18,
        assembly.code().0 == 19,
        ReadLongTag.code().0 == 20,
        long_tag.code().0 == 22,
        selected.code().0 == 33,
        damping.code().0 == 34,
        range.code().0 == 35,
        memory.code().0 == 39,
        current.code().0 == 40,
        unit.code().0 == 44,
        function.code().0 == 47,
        ReadAdditionalStatus.code().0 == 48,
{
}

/// What the typed operations send has a length that the registry allows for
/// their command.
pub proof fn lemma_payloads_have_registered_lengths(
    polling: WritePollingAddress,
    legacy: WriteLegacyPollingAddress,
    assembly: WriteFinalAssemblyNumber,
    damping: SetDamping,
    range: SetRange,
    memory: EepromControl,
    current: FixedCurrent,
    unit: WritePrimaryUnit,
    function: WriteTransferFunction,
)
    ensures
        polling.payload() matches Ok(data) ==> declared_constraint(6).accepts(data.len() as int),
        legacy.payload() matches Ok(data) ==> declared_constraint(6).accepts(data.len() as int),
        assembly.payload() matches Ok(data) ==> declared_constraint(19).accepts(data.len() as int),
        damping.payload() matches Ok(data) ==> declared_constraint(34).accepts(data.len() as int),
        range.payload() matches Ok(data) ==> declared_constraint(35).accepts(data.len() as int),
        memory.payload() matches Ok(data) ==> declared_constraint(39).accepts(data.len() as int),
        current.payload() matches Ok(data) ==> declared_constraint(40).accepts(data.len() as int),
        unit.payload() matches Ok(data) ==> declared_constraint(44).accepts(data.len() as int),
        function.payload() matches Ok(data) ==> declared_constraint(47).accepts(data.len() as int),
{
}

/// An operation that only reads may be repeated, one that sets a value may be
/// repeated as a configuration, and one that acts on the device may not be
/// repeated unasked.
pub proof fn lemma_repetition_of_operations(
    polling: WritePollingAddress,
    legacy: WriteLegacyPollingAddress,
    message: WriteMessage,
    tag: WriteTagDescriptorDate,
    long_tag: WriteLongTag,
    number: WriteFinalAssemblyNumber,
    damping: SetDamping,
    range: SetRange,
    unit: WritePrimaryUnit,
    transfer: WriteTransferFunction,
    current: FixedCurrent,
    memory: EepromControl,
)
    ensures
        ReadPrimaryValue.safety() is ReadOnly,
        ReadLoopSignal.safety() is ReadOnly,
        ReadDynamicValues.safety() is ReadOnly,
        ReadLoopConfiguration.safety() is ReadOnly,
        ReadMessage.safety() is ReadOnly,
        ReadTagDescriptorDate.safety() is ReadOnly,
        ReadLongTag.safety() is ReadOnly,
        ReadFinalAssemblyNumber.safety() is ReadOnly,
        polling.safety() is IdempotentWrite,
        legacy.safety() is IdempotentWrite,
        message.safety() is IdempotentWrite,
        tag.safety() is IdempotentWrite,
        long_tag.safety() is IdempotentWrite,
        number.safety() is IdempotentWrite,
        damping.safety() is IdempotentWrite,
        range.safety() is IdempotentWrite,
        current.safety() is IdempotentWrite,
        unit.safety() is IdempotentWrite,
        transfer.safety() is IdempotentWrite,
        memory.safety() is Action,
{
}

/// The constructors of the address operations take exactly the addresses that
/// can be sent, and keep them.
pub proof fn lemma_addresses_are_checked_when_created(
    node: u8,
    enabled: bool,
    created: Result<WritePollingAddress, OperationError>,
    legacy: Result<WriteLegacyPollingAddress, OperationError>,
)
    requires
        call_ensures(WritePollingAddress::new, (node, enabled), created),
        call_ensures(WriteLegacyPollingAddress::new, (node,), legacy),
    ensures
        created is Ok <==> node <= 63,
        created matches Ok(operation) ==> operation.payload() matches Ok(data) && data[0] == node
            && (data[1] != 0 <==> enabled),
        legacy is Ok <==> node <= 15,
        legacy matches Ok(operation) ==> operation.payload() == Ok::<Seq<u8>, OperationError>(
            seq![node],
        ),
{
}

/// The constructors of the operations that send a number take exactly the
/// numbers that can be sent: finite ones, for a damping none below zero, and
/// for an assembly number none above 24 bits.
pub proof fn lemma_numbers_are_checked_when_created(
    unit: u8,
    lower: Float32,
    upper: Float32,
    number: u32,
    damping: Result<SetDamping, OperationError>,
    range: Result<SetRange, OperationError>,
    current: Result<FixedCurrent, OperationError>,
    assembly: Result<WriteFinalAssemblyNumber, OperationError>,
)
    requires
        call_ensures(SetDamping::new, (upper,), damping),
        call_ensures(SetRange::new, (unit, lower, upper), range),
        call_ensures(FixedCurrent::new, (upper,), current),
        call_ensures(WriteFinalAssemblyNumber::new, (number,), assembly),
    ensures
        damping is Ok <==> upper.bits <= 0x7f7f_ffff || upper.bits == 0x8000_0000,
        damping matches Ok(operation) ==> operation.payload() == Ok::<Seq<u8>, OperationError>(
            be32(upper.bits),
        ),
        range is Ok <==> upper.bits % 0x8000_0000 < 0x7f80_0000 && lower.bits % 0x8000_0000
            < 0x7f80_0000,
        range matches Ok(operation) ==> operation.payload() == Ok::<Seq<u8>, OperationError>(
            seq![unit] + be32(upper.bits) + be32(lower.bits),
        ),
        current is Ok <==> upper.bits % 0x8000_0000 < 0x7f80_0000,
        current matches Ok(operation) ==> operation.payload() == Ok::<Seq<u8>, OperationError>(
            be32(upper.bits),
        ),
        assembly is Ok <==> number < 0x100_0000,
        assembly matches Ok(operation) ==> operation.payload() == Ok::<Seq<u8>, OperationError>(
            be24(number),
        ),
{
}

/// A zero trim sends Command 45 and a gain trim Command 46, both with the
/// reference current, and both only with a finite one.
pub proof fn lemma_trims_are_checked_when_created(
    command: u8,
    current: Float32,
    trim: Result<AnalogTrim, OperationError>,
    zero: Result<AnalogTrim, OperationError>,
    gain: Result<AnalogTrim, OperationError>,
)
    requires
        call_ensures(AnalogTrim::new, (command, current), trim),
        call_ensures(AnalogTrim::zero, (current,), zero),
        call_ensures(AnalogTrim::gain, (current,), gain),
    ensures
        trim is Ok <==> 45 <= command <= 46 && current.bits % 0x8000_0000 < 0x7f80_0000,
        zero is Ok <==> current.bits % 0x8000_0000 < 0x7f80_0000,
        gain is Ok <==> current.bits % 0x8000_0000 < 0x7f80_0000,
        trim matches Ok(operation) ==> operation.code().0 == command && operation.payload() == Ok::<
            Seq<u8>,
            OperationError,
        >(be32(current.bits)),
        zero matches Ok(operation) ==> operation.code().0 == 45 && operation.payload() == Ok::<
            Seq<u8>,
            OperationError,
        >(be32(current.bits)),
        gain matches Ok(operation) ==> operation.code().0 == 46 && operation.payload() == Ok::<
            Seq<u8>,
            OperationError,
        >(be32(current.bits)),
{
}

/// An identification operation is created for the commands that identify a
/// device, with the request data that its command takes, and sends that data.
pub proof fn lemma_identification_is_checked_when_created(
    command: u8,
    data: Vec<u8>,
    created: Result<ReadIdentity, OperationError>,
)
    requires
        call_ensures(ReadIdentity::new, (command, data), created),
    ensures
        created is Ok <==> (command == 0 && data@.len() == 0) || (command == 11 && data@.len() == 6)
            || (command == 21 && data@.len() == 32) || ((command == 73 || command == 75)
            && data@.len() <= 255),
        created matches Ok(operation) ==> operation.code().0 == command && operation.payload()
            == Ok::<Seq<u8>, OperationError>(data@),
{
}

} // verus!
