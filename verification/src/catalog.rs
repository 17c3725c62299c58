//! Explicit registry of known commands without broad range classification.

use vstd::prelude::*;

use crate::operation::CommandCode;

verus! {

/// Declared command class.
#[derive(Debug, Clone, Copy, PartialEq, Eq, Structural)]
pub enum CommandClass {
    /// Universal command.
    Universal,
    /// Common-practice command.
    CommonPractice,
}

/// Safety of automatic retries.
#[derive(Debug, Clone, Copy, PartialEq, Eq, Structural)]
pub enum OperationSafety {
    /// The operation only reads state.
    ReadOnly,
    /// A retry establishes the same state.
    IdempotentWrite,
    /// A retry may trigger the action again.
    Action,
}

/// Request-payload length constraint for a known command.
#[derive(Debug, Clone, Copy, PartialEq, Eq, Structural)]
pub enum PayloadConstraint {
    /// No payload.
    Empty,
    /// Exact length required.
    Exact(u8),
    /// A continuous length range is accepted.
    Range {
        /// Minimum byte count.
        minimum: u8,
        /// Maximum byte count.
        maximum: u8,
    },
    /// Two distinct lengths are accepted.
    Either(u8, u8),
    /// The format is defined by DeviceInfo or vendor information.
    Unspecified,
}

impl PayloadConstraint {
    /// Whether a payload of the given length meets the constraint.
    pub open spec fn accepts(self, length: int) -> bool {
        match self {
            PayloadConstraint::Empty => length == 0,
            PayloadConstraint::Exact(expected) => length == expected,
            PayloadConstraint::Range { minimum, maximum } => minimum <= length <= maximum,
            PayloadConstraint::Either(left, right) => length == left || length == right,
            PayloadConstraint::Unspecified => length <= 255,
        }
    }

    /// Validates the actual length.
    pub fn allows(self, length: usize) -> (allowed: bool)
        ensures
            allowed == self.accepts(length as int),
    {
        match self {
            PayloadConstraint::Empty => length == 0,
            PayloadConstraint::Exact(expected) => length == expected as usize,
            PayloadConstraint::Range { minimum, maximum } => {
                length >= minimum as usize && length <= maximum as usize
            },
            PayloadConstraint::Either(left, right) => length == left as usize || length
                == right as usize,
            PayloadConstraint::Unspecified => length <= 255,
        }
    }
}

/// Concise declared description of a known operation.
#[derive(Debug, Clone, Copy, PartialEq, Eq)]
pub struct CommandDescriptor {
    /// Logical number.
    pub code: CommandCode,
    /// Declared class.
    pub class: CommandClass,
    /// Safe-retry rule.
    pub safety: OperationSafety,
    /// Short operation purpose.
    pub purpose: &'static str,
}

/// The registry: what is declared of each known command number.
pub open spec fn registered(code: u16) -> Option<CommandDescriptor> {
    match code {
        0 => described(
            0,
            CommandClass::Universal,
            OperationSafety::ReadOnly,
            "device identification",
        ),
        1 => described(
            1,
            CommandClass::Universal,
            OperationSafety::ReadOnly,
            "primary variable",
        ),
        2 => described(
            2,
            CommandClass::Universal,
            OperationSafety::ReadOnly,
            "current and percent of range",
        ),
        3 => described(
            3,
            CommandClass::Universal,
            OperationSafety::ReadOnly,
            "dynamic variables and current",
        ),
        6 => described(
            6,
            CommandClass::Universal,
            OperationSafety::IdempotentWrite,
            "polling address",
        ),
        7 => described(
            7,
            CommandClass::Universal,
            OperationSafety::ReadOnly,
            "loop-current mode",
        ),
        8 => described(
            8,
            CommandClass::Universal,
            OperationSafety::ReadOnly,
            "variable classification",
        ),
        9 => described(
            9,
            CommandClass::Universal,
            OperationSafety::ReadOnly,
            "variables and status",
        ),
        11 => described(
            11,
            CommandClass::Universal,
            OperationSafety::ReadOnly,
            "identification by tag",
        ),
        12 => described(
            12,
            CommandClass::Universal,
            OperationSafety::ReadOnly,
            "device message",
        ),
        13 => described(
            13,
            CommandClass::Universal,
            OperationSafety::ReadOnly,
            "tag, descriptor, and date",
        ),
        14 => described(
            14,
            CommandClass::Universal,
            OperationSafety::ReadOnly,
            "sensor information",
        ),
        15 => described(
            15,
            CommandClass::Universal,
            OperationSafety::ReadOnly,
            "primary-output information",
        ),
        16 => described(
            16,
            CommandClass::Universal,
            OperationSafety::ReadOnly,
            "assembly number",
        ),
        17 => described(
            17,
            CommandClass::Universal,
            OperationSafety::IdempotentWrite,
            "write message",
        ),
        18 => described(
            18,
            CommandClass::Universal,
            OperationSafety::IdempotentWrite,
            "write tag and descriptor",
        ),
        19 => described(
            19,
            CommandClass::Universal,
            OperationSafety::IdempotentWrite,
            "write assembly number",
        ),
        20 => described(
            20,
            CommandClass::Universal,
            OperationSafety::ReadOnly,
            "long tag",
        ),
        21 => described(
            21,
            CommandClass::Universal,
            OperationSafety::ReadOnly,
            "identification by long tag",
        ),
        22 => described(
            22,
            CommandClass::Universal,
            OperationSafety::IdempotentWrite,
            "write long tag",
        ),
        33 => described(
            33,
            CommandClass::CommonPractice,
            OperationSafety::ReadOnly,
            "device variables",
        ),
        34 => described(
            34,
            CommandClass::CommonPractice,
            OperationSafety::IdempotentWrite,
            "damping",
        ),
        35 => described(
            35,
            CommandClass::CommonPractice,
            OperationSafety::IdempotentWrite,
            "range limits",
        ),
        36 => described(
            36,
            CommandClass::CommonPractice,
            OperationSafety::Action,
            "set upper range value from the applied input",
        ),
        37 => described(
            37,
            CommandClass::CommonPractice,
            OperationSafety::Action,
            "set lower range value from the applied input",
        ),
        38 => described(
            38,
            CommandClass::CommonPractice,
            OperationSafety::Action,
            "reset configuration-changed flag",
        ),
        39 => described(
            39,
            CommandClass::CommonPractice,
            OperationSafety::Action,
            "nonvolatile-memory control",
        ),
        40 => described(
            40,
            CommandClass::CommonPractice,
            OperationSafety::IdempotentWrite,
            "fixed current",
        ),
        41 => described(
            41,
            CommandClass::CommonPractice,
            OperationSafety::Action,
            "self-test",
        ),
        42 => described(
            42,
            CommandClass::CommonPractice,
            OperationSafety::Action,
            "device reset",
        ),
        43 => described(
            43,
            CommandClass::CommonPractice,
            OperationSafety::Action,
            "zero primary variable",
        ),
        44 => described(
            44,
            CommandClass::CommonPractice,
            OperationSafety::IdempotentWrite,
            "primary-variable unit",
        ),
        45 => described(
            45,
            CommandClass::CommonPractice,
            OperationSafety::Action,
            "current-output zero trim",
        ),
        46 => described(
            46,
            CommandClass::CommonPractice,
            OperationSafety::Action,
            "current-output gain trim",
        ),
        47 => described(
            47,
            CommandClass::CommonPractice,
            OperationSafety::IdempotentWrite,
            "transfer function",
        ),
        48 => described(
            48,
            CommandClass::Universal,
            OperationSafety::ReadOnly,
            "additional status",
        ),
        73 => described(
            73,
            CommandClass::CommonPractice,
            OperationSafety::ReadOnly,
            "connected-device discovery",
        ),
        75 => described(
            75,
            CommandClass::CommonPractice,
            OperationSafety::ReadOnly,
            "subdevice information",
        ),
        _ => None,
    }
}

/// A registry entry.
pub open spec fn described(
    code: u16,
    class: CommandClass,
    safety: OperationSafety,
    purpose: &'static str,
) -> Option<CommandDescriptor> {
    Some(CommandDescriptor { code: CommandCode(code), class, safety, purpose })
}

fn descriptor(
    code: u16,
    class: CommandClass,
    safety: OperationSafety,
    purpose: &'static str,
) -> (entry: Option<CommandDescriptor>)
    ensures
        entry == described(code, class, safety, purpose),
{
    Some(CommandDescriptor { code: CommandCode(code), class, safety, purpose })
}

/// Returns a description only for a command present in the explicit registry.
#[verifier::spinoff_prover]
#[verifier::rlimit(60)]
pub fn command_descriptor(code: CommandCode) -> (entry: Option<CommandDescriptor>)
    ensures
        entry == registered(code.0),
{
    match code.0 {
        0 => descriptor(
            0,
            CommandClass::Universal,
            OperationSafety::ReadOnly,
            "device identification",
        ),
        1 => descriptor(
            1,
            CommandClass::Universal,
            OperationSafety::ReadOnly,
            "primary variable",
        ),
        2 => descriptor(
            2,
            CommandClass::Universal,
            OperationSafety::ReadOnly,
            "current and percent of range",
        ),
        3 => descriptor(
            3,
            CommandClass::Universal,
            OperationSafety::ReadOnly,
            "dynamic variables and current",
        ),
        6 => descriptor(
            6,
            CommandClass::Universal,
            OperationSafety::IdempotentWrite,
            "polling address",
        ),
        7 => descriptor(
            7,
            CommandClass::Universal,
            OperationSafety::ReadOnly,
            "loop-current mode",
        ),
        8 => descriptor(
            8,
            CommandClass::Universal,
            OperationSafety::ReadOnly,
            "variable classification",
        ),
        9 => descriptor(
            9,
            CommandClass::Universal,
            OperationSafety::ReadOnly,
            "variables and status",
        ),
        11 => descriptor(
            11,
            CommandClass::Universal,
            OperationSafety::ReadOnly,
            "identification by tag",
        ),
        12 => descriptor(
            12,
            CommandClass::Universal,
            OperationSafety::ReadOnly,
            "device message",
        ),
        13 => descriptor(
            13,
            CommandClass::Universal,
            OperationSafety::ReadOnly,
            "tag, descriptor, and date",
        ),
        14 => descriptor(
            14,
            CommandClass::Universal,
            OperationSafety::ReadOnly,
            "sensor information",
        ),
        15 => descriptor(
            15,
            CommandClass::Universal,
            OperationSafety::ReadOnly,
            "primary-output information",
        ),
        16 => descriptor(
            16,
            CommandClass::Universal,
            OperationSafety::ReadOnly,
            "assembly number",
        ),
        17 => descriptor(
            17,
            CommandClass::Universal,
            OperationSafety::IdempotentWrite,
            "write message",
        ),
        18 => descriptor(
            18,
            CommandClass::Universal,
            OperationSafety::IdempotentWrite,
            "write tag and descriptor",
        ),
        19 => descriptor(
            19,
            CommandClass::Universal,
            OperationSafety::IdempotentWrite,
            "write assembly number",
        ),
        20 => descriptor(
            20,
            CommandClass::Universal,
            OperationSafety::ReadOnly,
            "long tag",
        ),
        21 => descriptor(
            21,
            CommandClass::Universal,
            OperationSafety::ReadOnly,
            "identification by long tag",
        ),
        22 => descriptor(
            22,
            CommandClass::Universal,
            OperationSafety::IdempotentWrite,
            "write long tag",
        ),
        33 => descriptor(
            33,
            CommandClass::CommonPractice,
            OperationSafety::ReadOnly,
            "device variables",
        ),
        34 => descriptor(
            34,
            CommandClass::CommonPractice,
            OperationSafety::IdempotentWrite,
            "damping",
        ),
        35 => descriptor(
            35,
            CommandClass::CommonPractice,
            OperationSafety::IdempotentWrite,
            "range limits",
        ),
        36 => descriptor(
            36,
            CommandClass::CommonPractice,
            OperationSafety::Action,
            "set upper range value from the applied input",
        ),
        37 => descriptor(
            37,
            CommandClass::CommonPractice,
            OperationSafety::Action,
            "set lower range value from the applied input",
        ),
        38 => descriptor(
            38,
            CommandClass::CommonPractice,
            OperationSafety::Action,
            "reset configuration-changed flag",
        ),
        39 => descriptor(
            39,
            CommandClass::CommonPractice,
            OperationSafety::Action,
            "nonvolatile-memory control",
        ),
        40 => descriptor(
            40,
            CommandClass::CommonPractice,
            OperationSafety::IdempotentWrite,
            "fixed current",
        ),
        41 => descriptor(
            41,
            CommandClass::CommonPractice,
            OperationSafety::Action,
            "self-test",
        ),
        42 => descriptor(
            42,
            CommandClass::CommonPractice,
            OperationSafety::Action,
            "device reset",
        ),
        43 => descriptor(
            43,
            CommandClass::CommonPractice,
            OperationSafety::Action,
            "zero primary variable",
        ),
        44 => descriptor(
            44,
            CommandClass::CommonPractice,
            OperationSafety::IdempotentWrite,
            "primary-variable unit",
        ),
        45 => descriptor(
            45,
            CommandClass::CommonPractice,
            OperationSafety::Action,
            "current-output zero trim",
        ),
        46 => descriptor(
            46,
            CommandClass::CommonPractice,
            OperationSafety::Action,
            "current-output gain trim",
        ),
        47 => descriptor(
            47,
            CommandClass::CommonPractice,
            OperationSafety::IdempotentWrite,
            "transfer function",
        ),
        48 => descriptor(
            48,
            CommandClass::Universal,
            OperationSafety::ReadOnly,
            "additional status",
        ),
        73 => descriptor(
            73,
            CommandClass::CommonPractice,
            OperationSafety::ReadOnly,
            "connected-device discovery",
        ),
        75 => descriptor(
            75,
            CommandClass::CommonPractice,
            OperationSafety::ReadOnly,
            "subdevice information",
        ),
        _ => None,
    }
}

/// The safety declared for a command; an unknown command counts as an action.
pub open spec fn declared_safety(code: u16) -> OperationSafety {
    match registered(code) {
        Some(entry) => entry.safety,
        None => OperationSafety::Action,
    }
}

pub(crate) fn registered_safety(code: CommandCode) -> (safety: OperationSafety)
    ensures
        safety == declared_safety(code.0),
{
    match command_descriptor(code) {
        Some(entry) => entry.safety,
        None => OperationSafety::Action,
    }
}

/// Returns the complete built-in registry, in ascending order of command numbers.
pub fn known_commands() -> (commands: Vec<CommandDescriptor>)
    ensures
        forall|i: int|
            0 <= i < commands@.len() ==> registered((#[trigger] commands@[i]).code.0) == Some(
                commands@[i],
            ),
        forall|i: int, j: int|
            0 <= i < j < commands@.len() ==> (#[trigger] commands@[i]).code.0 < (
            #[trigger] commands@[j]).code.0,
        forall|code: u16|
            (#[trigger] registered(code)) matches Some(entry) ==> commands@.contains(entry),
{
    let mut commands: Vec<CommandDescriptor> = Vec::new();
    let mut number: u16 = 0;
    while number < 256
        invariant
            number <= 256,
            forall|i: int|
                0 <= i < commands@.len() ==> registered((#[trigger] commands@[i]).code.0) == Some(
                    commands@[i],
                ) && commands@[i].code.0 < number,
            forall|i: int, j: int|
                0 <= i < j < commands@.len() ==> (#[trigger] commands@[i]).code.0 < (
                #[trigger] commands@[j]).code.0,
            forall|code: u16|
                code < number ==> ((#[trigger] registered(code)) matches Some(entry)
                    ==> commands@.contains(entry)),
        decreases 256 - number,
    {
        let ghost before = commands@;
        if let Some(entry) = command_descriptor(CommandCode(number)) {
            commands.push(entry);
            assert(commands@[before.len() as int] == entry);
            assert forall|code: u16| code <= number implies ((
            #[trigger] registered(code)) matches Some(found) ==> commands@.contains(found)) by {
                if code < number {
                    if let Some(found) = registered(code) {
                        let i = choose|i: int| 0 <= i < before.len() && before[i] == found;
                        assert(commands@[i] == found);
                    }
                }
            }
        }
        number += 1;
    }
    commands
}

/// The payload constraint declared for each command number.
pub open spec fn declared_constraint(code: u16) -> PayloadConstraint {
    if code <= 3 || code == 7 || code == 8 || 12 <= code <= 16 || code == 20 || code == 36 || code
        == 37 || 41 <= code <= 43 || code == 48 {
        PayloadConstraint::Empty
    } else if code == 6 {
        PayloadConstraint::Either(1, 2)
    } else if code == 9 {
        PayloadConstraint::Range { minimum: 1, maximum: 8 }
    } else if code == 11 {
        PayloadConstraint::Exact(6)
    } else if code == 17 {
        PayloadConstraint::Exact(24)
    } else if code == 18 {
        PayloadConstraint::Exact(21)
    } else if code == 19 {
        PayloadConstraint::Exact(3)
    } else if code == 21 || code == 22 {
        PayloadConstraint::Exact(32)
    } else if code == 33 {
        PayloadConstraint::Range { minimum: 1, maximum: 4 }
    } else if code == 34 || code == 40 || code == 45 || code == 46 {
        PayloadConstraint::Exact(4)
    } else if code == 35 {
        PayloadConstraint::Exact(9)
    } else if code == 38 {
        PayloadConstraint::Either(0, 2)
    } else if code == 39 || code == 44 || code == 47 {
        PayloadConstraint::Exact(1)
    } else {
        PayloadConstraint::Unspecified
    }
}

/// Returns the enforceable request-payload constraint.
pub fn request_constraint(code: CommandCode) -> (constraint: PayloadConstraint)
    ensures
        constraint == declared_constraint(code.0),
{
    match code.0 {
        0..=3 | 7 | 8 | 12..=16 | 20 | 36 | 37 | 41..=43 | 48 => PayloadConstraint::Empty,
        6 => PayloadConstraint::Either(1, 2),
        9 => PayloadConstraint::Range { minimum: 1, maximum: 8 },
        11 => PayloadConstraint::Exact(6),
        17 => PayloadConstraint::Exact(24),
        18 => PayloadConstraint::Exact(21),
        19 => PayloadConstraint::Exact(3),
        21 | 22 => PayloadConstraint::Exact(32),
        33 => PayloadConstraint::Range { minimum: 1, maximum: 4 },
        34 | 40 | 45 | 46 => PayloadConstraint::Exact(4),
        35 => PayloadConstraint::Exact(9),
        38 => PayloadConstraint::Either(0, 2),
        39 | 44 | 47 => PayloadConstraint::Exact(1),
        _ => PayloadConstraint::Unspecified,
    }
}

/// Which commands are registered, to which class they belong and whether they
/// may be repeated. Commands 6, 17 to 19, 22, 34, 35, 40, 44 and 47 write what
/// can be written again; commands 36 to 39, 41 to 43, 45 and 46 act; the others
/// read. A command that is not registered counts as an action.
pub proof fn lemma_registered_commands(code: u16)
    ensures
        registered(code) is Some <==> code <= 3 || 6 <= code <= 9 || 11 <= code <= 22 || 33 <= code
            <= 48 || code == 73 || code == 75,
        registered(code) matches Some(entry) ==> entry.code.0 == code,
        registered(code) matches Some(entry) ==> (entry.class is Universal <==> code <= 22 || code
            == 48),
        registered(code) matches Some(entry) ==> (entry.safety is IdempotentWrite <==> code == 6
            || 17 <= code <= 19 || code == 22 || code == 34 || code == 35 || code == 40 || code
            == 44 || code == 47),
        registered(code) matches Some(entry) ==> (entry.safety is Action <==> 36 <= code <= 39 || 41
            <= code <= 43 || code == 45 || code == 46),
        registered(code) matches Some(entry) ==> declared_safety(code) == entry.safety,
        registered(code) is None ==> declared_safety(code) is Action,
{
}

/// How many bytes the request of a command may have, for every command with a
/// fixed form; every other command takes up to 255.
pub proof fn lemma_request_lengths(code: u16, length: int)
    requires
        0 <= length,
    ensures
        ({
            let accepted = declared_constraint(code).accepts(length);
            &&& (code <= 3 || code == 7 || code == 8 || 12 <= code <= 16 || code == 20 || code == 36
                || code == 37 || 41 <= code <= 43 || code == 48) ==> (accepted <==> length == 0)
            &&& code == 6 ==> (accepted <==> 1 <= length <= 2)
            &&& code == 9 ==> (accepted <==> 1 <= length <= 8)
            &&& code == 11 ==> (accepted <==> length == 6)
            &&& code == 17 ==> (accepted <==> length == 24)
            &&& code == 18 ==> (accepted <==> length == 21)
            &&& code == 19 ==> (accepted <==> length == 3)
            &&& (code == 21 || code == 22) ==> (accepted <==> length == 32)
            &&& code == 33 ==> (accepted <==> 1 <= length <= 4)
            &&& (code == 34 || code == 40 || code == 45 || code == 46) ==> (accepted <==> length
                == 4)
            &&& code == 35 ==> (accepted <==> length == 9)
            &&& code == 38 ==> (accepted <==> length == 0 || length == 2)
            &&& (code == 39 || code == 44 || code == 47) ==> (accepted <==> length == 1)
            &&& (code == 4 || code == 5 || code == 10 || 23 <= code <= 32 || code > 48) ==> (accepted
                <==> length <= 255)
        }),
{
}

} // verus!
