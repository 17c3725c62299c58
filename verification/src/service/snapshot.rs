//! Partial view of an identified device.

use vstd::prelude::*;

use crate::operation::{
    AdditionalStatus, CommandCode, DynamicValues, LoopSignal, PrimaryValue, TagDescriptorDate,
};
use crate::service::session::{SessionError, SessionProfile};
use crate::time::Duration;

verus! {

/// Selects optional groups included in a device snapshot.
#[derive(Debug, Clone, Copy, PartialEq, Eq, Structural)]
pub struct SnapshotOptions {
    /// Reads Commands 1, 2, and 3.
    pub process_values: bool,
    /// Reads Commands 13 and, when supported by the HART revision, 20.
    pub tags: bool,
    /// Reads Command 48.
    pub diagnostics: bool,
}

impl Default for SnapshotOptions {
    fn default() -> (options: Self)
        ensures
            options == (SnapshotOptions { process_values: true, tags: true, diagnostics: true }),
    {
        SnapshotOptions::full()
    }
}

impl SnapshotOptions {
    /// Returns only identity already held by the device session.
    pub fn identity_only() -> (options: Self)
        ensures
            options == (SnapshotOptions { process_values: false, tags: false, diagnostics: false }),
    {
        SnapshotOptions { process_values: false, tags: false, diagnostics: false }
    }

    /// Requests every snapshot group supported by the library.
    pub fn full() -> (options: Self)
        ensures
            options == (SnapshotOptions { process_values: true, tags: true, diagnostics: true }),
    {
        SnapshotOptions { process_values: true, tags: true, diagnostics: true }
    }

    /// Enables or disables process-value reads.
    pub fn with_process_values(self, enabled: bool) -> (options: Self)
        ensures
            options == (SnapshotOptions { process_values: enabled, ..self }),
    {
        SnapshotOptions { process_values: enabled, ..self }
    }

    /// Enables or disables short and long tag reads.
    pub fn with_tags(self, enabled: bool) -> (options: Self)
        ensures
            options == (SnapshotOptions { tags: enabled, ..self }),
    {
        SnapshotOptions { tags: enabled, ..self }
    }

    /// Enables or disables additional-status reads.
    pub fn with_diagnostics(self, enabled: bool) -> (options: Self)
        ensures
            options == (SnapshotOptions { diagnostics: enabled, ..self }),
    {
        SnapshotOptions { diagnostics: enabled, ..self }
    }

    /// Whether the long tag is read: it came with the sixth revision.
    pub open spec fn reads_long_tag(self, universal_revision: u8) -> bool {
        self.tags && universal_revision >= 6
    }

    /// The commands of a snapshot in the order in which they are sent.
    pub open spec fn sent(self, universal_revision: u8) -> Seq<CommandCode> {
        (if self.process_values {
            seq![CommandCode(1), CommandCode(2), CommandCode(3)]
        } else {
            Seq::empty()
        }) + (if self.tags {
            seq![CommandCode(13)]
        } else {
            Seq::empty()
        }) + (if self.reads_long_tag(universal_revision) {
            seq![CommandCode(20)]
        } else {
            Seq::empty()
        }) + (if self.diagnostics {
            seq![CommandCode(48)]
        } else {
            Seq::empty()
        })
    }

    /// Returns the commands of a snapshot in the order in which they are sent.
    pub fn commands(self, universal_revision: u8) -> (commands: Vec<CommandCode>)
        ensures
            commands@ == self.sent(universal_revision),
    {
        let mut commands: Vec<CommandCode> = Vec::new();
        if self.process_values {
            commands.push(CommandCode(1));
            commands.push(CommandCode(2));
            commands.push(CommandCode(3));
        }
        if self.tags {
            commands.push(CommandCode(13));
            if universal_revision >= 6 {
                commands.push(CommandCode(20));
            }
        }
        if self.diagnostics {
            commands.push(CommandCode(48));
        }
        assert(commands@ =~= self.sent(universal_revision));
        commands
    }
}

/// One command failure retained without discarding other snapshot values.
#[derive(Debug, Clone, PartialEq, Eq)]
pub struct SnapshotError {
    /// Logical command that failed.
    pub command: CommandCode,
    /// Stable human-readable error captured at collection time.
    pub message: String,
}

/// State of one optional snapshot field.
#[derive(Debug, Clone, PartialEq, Eq)]
pub enum SnapshotField<T> {
    /// The caller did not request this group.
    NotRequested,
    /// The identified HART revision does not support the command.
    Unsupported {
        /// Static reason for skipping the command.
        reason: &'static str,
    },
    /// The command completed and decoded successfully.
    Value(T),
    /// The command failed while other fields remained available.
    Error(SnapshotError),
}

impl<T> SnapshotField<T> {
    /// Returns a shared successful value.
    pub fn value(&self) -> (value: Option<&T>)
        ensures
            match self {
                SnapshotField::Value(expected) => value == Some(expected),
                _ => value is None,
            },
    {
        match self {
            SnapshotField::Value(value) => Some(value),
            _ => None,
        }
    }

    /// Returns the retained command failure.
    pub fn error(&self) -> (error: Option<&SnapshotError>)
        ensures
            match self {
                SnapshotField::Error(expected) => error == Some(expected),
                _ => error is None,
            },
    {
        match self {
            SnapshotField::Error(error) => Some(error),
            _ => None,
        }
    }

    /// Reports whether the command failed.
    pub fn is_error(&self) -> (failed: bool)
        ensures
            failed == (self is Error),
    {
        match self {
            SnapshotField::Error(_) => true,
            _ => false,
        }
    }
}

/// Whether a field holds the result of its command.
pub open spec fn captured<T>(
    field: SnapshotField<T>,
    command: CommandCode,
    result: Result<T, SessionError>,
) -> bool {
    match result {
        Ok(value) => field == SnapshotField::Value(value),
        Err(error) => match field {
            SnapshotField::Error(found) => found.command == command && found.message@
                == error.text(),
            _ => false,
        },
    }
}

/// Keeps the result of a command.
pub fn capture<T>(command: CommandCode, result: Result<T, SessionError>) -> (field: SnapshotField<T>)
    ensures
        captured(field, command, result),
{
    match result {
        Ok(value) => SnapshotField::Value(value),
        Err(error) => SnapshotField::Error(SnapshotError { command, message: error.message() }),
    }
}

/// Whether a field holds the result of a command that was sent, and nothing else.
pub open spec fn collected<T>(
    field: SnapshotField<T>,
    requested: bool,
    command: CommandCode,
    result: Option<Result<T, SessionError>>,
) -> bool {
    match result {
        Some(result) => if requested {
            captured(field, command, result)
        } else {
            field == SnapshotField::<T>::NotRequested
        },
        None => field == SnapshotField::<T>::NotRequested,
    }
}

fn collect<T>(
    requested: bool,
    command: CommandCode,
    result: Option<Result<T, SessionError>>,
) -> (field: SnapshotField<T>)
    ensures
        collected(field, requested, command, result),
{
    match result {
        Some(result) => if requested {
            capture(command, result)
        } else {
            SnapshotField::NotRequested
        },
        None => SnapshotField::NotRequested,
    }
}

/// Results of the commands of a snapshot, `None` where a command was not sent.
#[derive(Debug)]
pub struct SnapshotResults {
    /// Command 1 result.
    pub primary_value: Option<Result<PrimaryValue, SessionError>>,
    /// Command 2 result.
    pub loop_signal: Option<Result<LoopSignal, SessionError>>,
    /// Command 3 result.
    pub dynamic_values: Option<Result<DynamicValues, SessionError>>,
    /// Command 13 result.
    pub tag: Option<Result<TagDescriptorDate, SessionError>>,
    /// Command 20 result.
    pub long_tag: Option<Result<String, SessionError>>,
    /// Command 48 result.
    pub additional_status: Option<Result<AdditionalStatus, SessionError>>,
}

impl SnapshotResults {
    /// Whether a command of a snapshot has a result.
    pub open spec fn answers(self, command: CommandCode) -> bool {
        if command == CommandCode(1) {
            self.primary_value is Some
        } else if command == CommandCode(2) {
            self.loop_signal is Some
        } else if command == CommandCode(3) {
            self.dynamic_values is Some
        } else if command == CommandCode(13) {
            self.tag is Some
        } else if command == CommandCode(20) {
            self.long_tag is Some
        } else {
            command == CommandCode(48) && self.additional_status is Some
        }
    }

    /// Whether every command of a list has a result.
    pub open spec fn answer_all(self, commands: Seq<CommandCode>) -> bool {
        forall|index: int| 0 <= index < commands.len() ==> self.answers(#[trigger] commands[index])
    }
}

/// Partial, timestamped view of one identified device.
#[derive(Debug, Clone, PartialEq, Eq)]
pub struct DeviceSnapshot {
    /// Time since the Unix epoch immediately before optional commands were collected.
    pub captured_at: Duration,
    /// Identity, unique address, and learned preamble count from the session.
    pub profile: SessionProfile,
    /// Command 1 result.
    pub primary_value: SnapshotField<PrimaryValue>,
    /// Command 2 result.
    pub loop_signal: SnapshotField<LoopSignal>,
    /// Command 3 result.
    pub dynamic_values: SnapshotField<DynamicValues>,
    /// Command 13 result.
    pub tag: SnapshotField<TagDescriptorDate>,
    /// Command 20 result.
    pub long_tag: SnapshotField<String>,
    /// Command 48 result.
    pub additional_status: SnapshotField<AdditionalStatus>,
}

impl DeviceSnapshot {
    /// Whether every field is what the results of the commands come to.
    pub open spec fn holds(self, options: SnapshotOptions, results: SnapshotResults) -> bool {
        &&& collected(
            self.primary_value,
            options.process_values,
            CommandCode(1),
            results.primary_value,
        )
        &&& collected(
            self.loop_signal,
            options.process_values,
            CommandCode(2),
            results.loop_signal,
        )
        &&& collected(
            self.dynamic_values,
            options.process_values,
            CommandCode(3),
            results.dynamic_values,
        )
        &&& collected(self.tag, options.tags, CommandCode(13), results.tag)
        &&& if options.tags && self.profile.identity.universal_revision < 6 {
            self.long_tag == (SnapshotField::<String>::Unsupported {
                reason: "long tag requires HART 6 or newer",
            })
        } else {
            collected(self.long_tag, options.tags, CommandCode(20), results.long_tag)
        }
        &&& collected(
            self.additional_status,
            options.diagnostics,
            CommandCode(48),
            results.additional_status,
        )
    }

    /// Collects the results of the commands that the options ask for and the
    /// revision of the device supports. A failure of one leaves the others.
    pub fn collect(
        captured_at: Duration,
        profile: SessionProfile,
        options: SnapshotOptions,
        results: SnapshotResults,
    ) -> (snapshot: Self)
        ensures
            snapshot.captured_at == captured_at,
            snapshot.profile == profile,
            snapshot.holds(options, results),
    {
        let long_tag = if options.tags && profile.identity.universal_revision < 6 {
            SnapshotField::Unsupported { reason: "long tag requires HART 6 or newer" }
        } else {
            collect(options.tags, CommandCode(20), results.long_tag)
        };
        DeviceSnapshot {
            captured_at,
            profile,
            primary_value: collect(
                options.process_values,
                CommandCode(1),
                results.primary_value,
            ),
            loop_signal: collect(options.process_values, CommandCode(2), results.loop_signal),
            dynamic_values: collect(
                options.process_values,
                CommandCode(3),
                results.dynamic_values,
            ),
            tag: collect(options.tags, CommandCode(13), results.tag),
            long_tag,
            additional_status: collect(
                options.diagnostics,
                CommandCode(48),
                results.additional_status,
            ),
        }
    }

    /// Reports whether at least one requested command failed.
    pub fn has_errors(&self) -> (failed: bool)
        ensures
            failed == (self.primary_value is Error || self.loop_signal is Error
                || self.dynamic_values is Error || self.tag is Error || self.long_tag is Error
                || self.additional_status is Error),
    {
        self.primary_value.is_error() || self.loop_signal.is_error()
            || self.dynamic_values.is_error() || self.tag.is_error() || self.long_tag.is_error()
            || self.additional_status.is_error()
    }
}

/// With a result for every command that was to be sent, each field of a group
/// that was asked for holds the value or the error of its command, or says that
/// the revision does not support it, and each field of another group says that
/// it was not asked for.
pub proof fn lemma_every_requested_field_is_filled(
    snapshot: DeviceSnapshot,
    options: SnapshotOptions,
    results: SnapshotResults,
)
    requires
        snapshot.holds(options, results),
        results.answer_all(options.sent(snapshot.profile.identity.universal_revision)),
    ensures
        if options.process_values {
            &&& captured(snapshot.primary_value, CommandCode(1), results.primary_value->0)
            &&& captured(snapshot.loop_signal, CommandCode(2), results.loop_signal->0)
            &&& captured(snapshot.dynamic_values, CommandCode(3), results.dynamic_values->0)
        } else {
            &&& snapshot.primary_value is NotRequested
            &&& snapshot.loop_signal is NotRequested
            &&& snapshot.dynamic_values is NotRequested
        },
        if options.tags {
            captured(snapshot.tag, CommandCode(13), results.tag->0)
        } else {
            snapshot.tag is NotRequested
        },
        if options.reads_long_tag(snapshot.profile.identity.universal_revision) {
            captured(snapshot.long_tag, CommandCode(20), results.long_tag->0)
        } else if options.tags {
            snapshot.long_tag is Unsupported
        } else {
            snapshot.long_tag is NotRequested
        },
        if options.diagnostics {
            captured(snapshot.additional_status, CommandCode(48), results.additional_status->0)
        } else {
            snapshot.additional_status is NotRequested
        },
        options.process_values ==> !(snapshot.primary_value is NotRequested)
            && !(snapshot.loop_signal is NotRequested) && !(
        snapshot.dynamic_values is NotRequested),
        options.tags ==> !(snapshot.tag is NotRequested) && !(snapshot.long_tag is NotRequested),
        options.diagnostics ==> !(snapshot.additional_status is NotRequested),
{
    let commands = options.sent(snapshot.profile.identity.universal_revision);
    let tags_at: int = if options.process_values {
        3
    } else {
        0
    };
    if options.process_values {
        assert(results.answers(commands[0]));
        assert(results.answers(commands[1]));
        assert(results.answers(commands[2]));
    }
    if options.tags {
        assert(commands[tags_at] == CommandCode(13));
    }
    if options.reads_long_tag(snapshot.profile.identity.universal_revision) {
        assert(commands[tags_at + 1] == CommandCode(20));
    }
    if options.diagnostics {
        assert(commands.last() == CommandCode(48));
        assert(results.answers(commands[commands.len() - 1]));
    }
}

/// Which commands a snapshot sends: the process variables with 1, 2 and 3, the
/// tag with 13 and from revision 6 on the long tag with 20, the diagnostics
/// with 48; each once and in this order, and nothing that was not asked for.
pub proof fn lemma_commands_of_a_snapshot(options: SnapshotOptions, revision: u8, command: u16)
    ensures
        ({
            let sent = options.sent(revision);
            &&& (sent.contains(CommandCode(command)) <==> options.process_values && (command == 1
                || command == 2 || command == 3) || options.tags && command == 13 || options.tags
                && revision >= 6 && command == 20 || options.diagnostics && command == 48)
            &&& forall|i: int, j: int|
                0 <= i < j < sent.len() ==> (#[trigger] sent[i]).0 < (#[trigger] sent[j]).0
        }),
{
    let sent = options.sent(revision);
    let code = CommandCode(command);
    let process = if options.process_values {
        seq![CommandCode(1), CommandCode(2), CommandCode(3)]
    } else {
        Seq::empty()
    };
    let tag = if options.tags {
        seq![CommandCode(13)]
    } else {
        Seq::empty()
    };
    let long_tag = if options.tags && revision >= 6 {
        seq![CommandCode(20)]
    } else {
        Seq::empty()
    };
    let first = process.len() as int;
    let second = first + tag.len();
    let third = second + long_tag.len();
    if options.process_values {
        assert(sent[0].0 == 1 && sent[1].0 == 2 && sent[2].0 == 3);
    }
    if options.tags {
        assert(sent[first].0 == 13);
    }
    if options.tags && revision >= 6 {
        assert(sent[second].0 == 20);
    }
    if options.diagnostics {
        assert(sent[third].0 == 48);
    }
    assert(forall|i: int| 0 <= i < first ==> #[trigger] sent[i] == process[i]);
    assert(forall|i: int| first <= i < second ==> (#[trigger] sent[i]).0 == 13);
    assert(forall|i: int| second <= i < third ==> (#[trigger] sent[i]).0 == 20);
    assert(forall|i: int| third <= i < sent.len() ==> (#[trigger] sent[i]).0 == 48);
}

/// A field of a snapshot holds the value that was read under its own command,
/// or the error of that command; a field that was not asked for says so, and a
/// long tag that the device cannot have says that.
pub proof fn lemma_fields_hold_their_results(
    snapshot: DeviceSnapshot,
    options: SnapshotOptions,
    results: SnapshotResults,
)
    requires
        snapshot.holds(options, results),
    ensures
        results.primary_value matches Some(Ok(value)) ==> options.process_values
            ==> snapshot.primary_value == SnapshotField::Value(value),
        results.primary_value matches Some(Err(error)) && options.process_values ==> (
        snapshot.primary_value matches SnapshotField::Error(found) && found.command.0 == 1),
        results.loop_signal matches Some(Ok(value)) ==> options.process_values
            ==> snapshot.loop_signal == SnapshotField::Value(value),
        results.loop_signal matches Some(Err(error)) && options.process_values ==> (
        snapshot.loop_signal matches SnapshotField::Error(found) && found.command.0 == 2),
        results.dynamic_values matches Some(Ok(value)) ==> options.process_values
            ==> snapshot.dynamic_values == SnapshotField::Value(value),
        results.dynamic_values matches Some(Err(error)) && options.process_values ==> (
        snapshot.dynamic_values matches SnapshotField::Error(found) && found.command.0 == 3),
        results.tag matches Some(Ok(value)) ==> options.tags ==> snapshot.tag
            == SnapshotField::Value(value),
        results.tag matches Some(Err(error)) && options.tags ==> (snapshot.tag matches
            SnapshotField::Error(found) && found.command.0 == 13),
        results.long_tag matches Some(Ok(value)) ==> options.tags
            && snapshot.profile.identity.universal_revision >= 6 ==> snapshot.long_tag
            == SnapshotField::Value(value),
        results.long_tag matches Some(Err(error)) && options.tags
            && snapshot.profile.identity.universal_revision >= 6 ==> (snapshot.long_tag matches
            SnapshotField::Error(found) && found.command.0 == 20),
        options.tags && snapshot.profile.identity.universal_revision < 6
            ==> snapshot.long_tag is Unsupported,
        results.additional_status matches Some(Ok(value)) ==> options.diagnostics
            ==> snapshot.additional_status == SnapshotField::Value(value),
        results.additional_status matches Some(Err(error)) && options.diagnostics ==> (
        snapshot.additional_status matches SnapshotField::Error(found) && found.command.0 == 48),
        !options.process_values ==> snapshot.primary_value is NotRequested
            && snapshot.loop_signal is NotRequested && snapshot.dynamic_values is NotRequested,
        !options.tags ==> snapshot.tag is NotRequested && snapshot.long_tag is NotRequested,
        !options.diagnostics ==> snapshot.additional_status is NotRequested,
{
}

} // verus!
