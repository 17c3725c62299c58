//! What a link reports: events, snapshots and errors.

use vstd::prelude::*;

use crate::catalog::OperationSafety;
use crate::channel::ChannelError;
use crate::digits::{append_decimal, decimal};
use crate::operation::{CommandCode, DeviceReply, OperationError, ReplyView};
use crate::service::queue_set::{QueueId, QueuePushError};
use crate::service::retry::RetryPolicyError;
use crate::wire::WireError;

verus! {

/// Observable queue and link event.
#[derive(Debug, Clone, PartialEq, Eq)]
#[allow(inconsistent_fields)]
pub enum LinkEvent {
    /// A request was accepted by the queue.
    Queued {
        /// Unique request identifier.
        id: u64,
        /// Logical command number.
        command: CommandCode,
        /// Queue selected after routing.
        queue: QueueId,
    },
    /// A request was rejected by admission control before receiving an identifier.
    Denied {
        /// Rejected logical command number.
        command: u16,
        /// Resolved retry-safety classification.
        safety: OperationSafety,
        /// Queue selected after command routing.
        queue: QueueId,
    },
    /// The runner started an exchange.
    Started {
        /// Unique request identifier.
        id: u64,
        /// Logical command number.
        command: CommandCode,
    },
    /// A local request echo was removed from the input stream.
    EchoDiscarded {
        /// Unique request identifier.
        id: u64,
    },
    /// An unsolicited frame was received.
    Unsolicited(DeviceReply),
    /// A valid response unrelated to the current request was skipped.
    StaleFrame {
        /// Identifier of the current request.
        id: u64,
        /// Command of the skipped response.
        command: CommandCode,
    },
    /// A valid solicited response arrived while no request was in flight.
    LateResponse(DeviceReply),
    /// A complete candidate frame was rejected by link-layer validation.
    RejectedFrame {
        /// Identifier of the current request.
        id: u64,
        /// Validation error retained for diagnostics.
        error: WireError,
    },
    /// A frame received while idle failed link-layer validation.
    IdleRejectedFrame {
        /// Validation error retained for diagnostics.
        error: WireError,
    },
    /// The physical channel stopped while the runner was idle.
    ChannelStopped {
        /// Stable reason suitable for a metric label.
        reason: &'static str,
    },
    /// The last waiter disappeared before the exchange completed.
    Cancelled {
        /// Unique request identifier. An already started exchange is drained safely.
        id: u64,
    },
    /// An identical read-only request joined an already selected exchange.
    Coalesced {
        /// Identifier of the joined request.
        id: u64,
        /// Identifier of the exchange that will provide its result.
        leader_id: u64,
    },
    /// An allowed retry is being performed.
    Retrying {
        /// Unique request identifier.
        id: u64,
        /// Attempt number, starting with two.
        attempt: u8,
        /// Reason the previous attempt did not finish the exchange.
        cause: RetryCause,
    },
    /// A request completed successfully.
    Completed {
        /// Unique request identifier.
        id: u64,
    },
    /// A request failed.
    Failed {
        /// Unique request identifier.
        id: u64,
        /// Short explanation.
        reason: &'static str,
    },
}

/// What an event holds, with replies as views and reasons as text.
#[verifier::ext_equal]
#[allow(inconsistent_fields)]
pub enum LinkNote {
    Queued { id: u64, command: CommandCode, queue: QueueId },
    Denied { command: u16, safety: OperationSafety, queue: QueueId },
    Started { id: u64, command: CommandCode },
    EchoDiscarded { id: u64 },
    Unsolicited { reply: ReplyView },
    StaleFrame { id: u64, command: CommandCode },
    LateResponse { reply: ReplyView },
    RejectedFrame { id: u64, error: WireError },
    IdleRejectedFrame { error: WireError },
    ChannelStopped { reason: Seq<char> },
    Cancelled { id: u64 },
    Coalesced { id: u64, leader_id: u64 },
    Retrying { id: u64, attempt: u8, cause: RetryCause },
    Completed { id: u64 },
    Failed { id: u64, reason: Seq<char> },
}

impl View for LinkEvent {
    type V = LinkNote;

    open spec fn view(&self) -> LinkNote {
        match self {
            LinkEvent::Queued { id, command, queue } => LinkNote::Queued {
                id: *id,
                command: *command,
                queue: *queue,
            },
            LinkEvent::Denied { command, safety, queue } => LinkNote::Denied {
                command: *command,
                safety: *safety,
                queue: *queue,
            },
            LinkEvent::Started { id, command } => LinkNote::Started { id: *id, command: *command },
            LinkEvent::EchoDiscarded { id } => LinkNote::EchoDiscarded { id: *id },
            LinkEvent::Unsolicited(reply) => LinkNote::Unsolicited { reply: reply@ },
            LinkEvent::StaleFrame { id, command } => LinkNote::StaleFrame {
                id: *id,
                command: *command,
            },
            LinkEvent::LateResponse(reply) => LinkNote::LateResponse { reply: reply@ },
            LinkEvent::RejectedFrame { id, error } => LinkNote::RejectedFrame {
                id: *id,
                error: *error,
            },
            LinkEvent::IdleRejectedFrame { error } => LinkNote::IdleRejectedFrame {
                error: *error,
            },
            LinkEvent::ChannelStopped { reason } => LinkNote::ChannelStopped { reason: reason@ },
            LinkEvent::Cancelled { id } => LinkNote::Cancelled { id: *id },
            LinkEvent::Coalesced { id, leader_id } => LinkNote::Coalesced {
                id: *id,
                leader_id: *leader_id,
            },
            LinkEvent::Retrying { id, attempt, cause } => LinkNote::Retrying {
                id: *id,
                attempt: *attempt,
                cause: *cause,
            },
            LinkEvent::Completed { id } => LinkNote::Completed { id: *id },
            LinkEvent::Failed { id, reason } => LinkNote::Failed { id: *id, reason: reason@ },
        }
    }
}

/// The views of a list of events.
pub open spec fn event_notes(events: Seq<LinkEvent>) -> Seq<LinkNote> {
    events.map_values(|event: LinkEvent| event@)
}

/// Observable reason for retrying an exchange.
#[derive(Debug, Clone, Copy, PartialEq, Eq, Structural)]
pub enum RetryCause {
    /// No response arrived before the per-attempt timeout.
    Transport,
    /// The device returned Busy.
    Busy,
    /// The device reported an initiated or running delayed response.
    DelayedResponse,
}

/// State snapshot of a link.
#[derive(Debug, Clone, Copy, PartialEq, Eq, Structural)]
pub struct LinkSnapshot {
    /// Number of pending requests across every configured queue.
    pub queued: usize,
    /// Total number of physical exchanges started after read-only coalescing.
    pub started: u64,
    /// Total number of successful requests.
    pub completed: u64,
    /// Total number of failures.
    pub failed: u64,
    /// Total number of requests cancelled by their waiters.
    pub cancelled: u64,
    /// Total number of requests joined to an identical read-only exchange.
    pub coalesced: u64,
    /// Total number of requests rejected before occupying queue capacity.
    pub denied: u64,
}

/// Error returned when enqueueing without waiting for capacity.
#[derive(Debug, Clone, Copy, PartialEq, Eq)]
pub enum StartError {
    /// The configured command policy rejected the request before enqueueing.
    CommandDenied {
        /// Rejected logical command number.
        command: u16,
        /// Resolved retry-safety classification.
        safety: OperationSafety,
        /// Queue selected after command routing.
        queue: QueueId,
    },
    /// The selected queue is not part of this link.
    UnknownQueue(QueueId),
    /// The selected queue is full.
    Full,
    /// The link runner has already stopped.
    Closed,
    /// The end-to-end deadline expired before queue capacity became available.
    Deadline,
    /// Retry or timeout settings are invalid.
    RetryPolicy(RetryPolicyError),
    /// The request cannot be represented by a HART frame.
    Operation(OperationError),
    /// A modem or gateway wake sequence is implausibly large.
    TransmitPrefix(usize),
}

/// What a queue that does not take a request means to the caller.
pub open spec fn push_failure(error: QueuePushError) -> StartError {
    match error {
        QueuePushError::Full => StartError::Full,
        QueuePushError::Closed => StartError::Closed,
        QueuePushError::Deadline => StartError::Deadline,
        QueuePushError::Unknown(queue) => StartError::UnknownQueue(queue),
    }
}

pub(crate) fn map_queue_push_error(error: QueuePushError) -> (mapped: StartError)
    ensures
        mapped == push_failure(error),
{
    match error {
        QueuePushError::Full => StartError::Full,
        QueuePushError::Closed => StartError::Closed,
        QueuePushError::Deadline => StartError::Deadline,
        QueuePushError::Unknown(queue) => StartError::UnknownQueue(queue),
    }
}

/// The name of a safety class.
pub open spec fn safety_name(safety: OperationSafety) -> Seq<char> {
    match safety {
        OperationSafety::ReadOnly => "ReadOnly"@,
        OperationSafety::IdempotentWrite => "IdempotentWrite"@,
        OperationSafety::Action => "Action"@,
    }
}

fn name_of_safety(safety: OperationSafety) -> (name: &'static str)
    ensures
        name@ == safety_name(safety),
{
    match safety {
        OperationSafety::ReadOnly => "ReadOnly",
        OperationSafety::IdempotentWrite => "IdempotentWrite",
        OperationSafety::Action => "Action",
    }
}

/// Device-exchange error.
#[derive(Debug, Clone, PartialEq, Eq)]
pub enum ExchangeError {
    /// The configured command policy rejected the request before enqueueing.
    CommandDenied {
        /// Rejected logical command number.
        command: u16,
        /// Resolved retry-safety classification.
        safety: OperationSafety,
        /// Queue selected after command routing.
        queue: QueueId,
    },
    /// The selected queue is not part of this link.
    UnknownQueue(QueueId),
    /// The request did not complete before its end-to-end deadline.
    Deadline,
    /// An individual attempt received no response.
    ResponseTimeout,
    /// Transmission did not finish, so the byte stream cannot be reused safely.
    SendTimeout,
    /// The device continued returning a transient rejection.
    Busy(u8),
    /// The device did not complete a delayed response within the polling limit.
    DelayedResponse(u8),
    /// The channel closed or returned an error.
    Channel(ChannelError),
    /// A frame could not be built or decoded.
    Wire(WireError),
    /// The application response does not match its format.
    Operation(OperationError),
    /// The runner stopped before returning a result.
    RunnerStopped,
    /// Retry or timeout settings are invalid.
    RetryPolicy(RetryPolicyError),
    /// A modem or gateway wake sequence is implausibly large.
    TransmitPrefix(usize),
}

impl ExchangeError {
    /// What a request that was not enqueued means to whoever waits for its result.
    pub open spec fn of_start(error: StartError) -> ExchangeError {
        match error {
            StartError::CommandDenied { command, safety, queue } => ExchangeError::CommandDenied {
                command,
                safety,
                queue,
            },
            StartError::UnknownQueue(queue) => ExchangeError::UnknownQueue(queue),
            StartError::Deadline => ExchangeError::Deadline,
            StartError::RetryPolicy(error) => ExchangeError::RetryPolicy(error),
            StartError::Operation(error) => ExchangeError::Operation(error),
            StartError::TransmitPrefix(length) => ExchangeError::TransmitPrefix(length),
            StartError::Closed | StartError::Full => ExchangeError::RunnerStopped,
        }
    }

    /// Takes over the error of a request that was not enqueued.
    pub fn from_start(error: StartError) -> (mapped: Self)
        ensures
            mapped == ExchangeError::of_start(error),
    {
        match error {
            StartError::CommandDenied { command, safety, queue } => ExchangeError::CommandDenied {
                command,
                safety,
                queue,
            },
            StartError::UnknownQueue(queue) => ExchangeError::UnknownQueue(queue),
            StartError::Deadline => ExchangeError::Deadline,
            StartError::RetryPolicy(error) => ExchangeError::RetryPolicy(error),
            StartError::Operation(error) => ExchangeError::Operation(error),
            StartError::TransmitPrefix(length) => ExchangeError::TransmitPrefix(length),
            StartError::Closed | StartError::Full => ExchangeError::RunnerStopped,
        }
    }

    /// The diagnostic text of the error.
    pub open spec fn text(self) -> Seq<char> {
        match self {
            ExchangeError::CommandDenied { command, safety, queue } => "command "@ + decimal(
                command as nat,
            ) + " with safety "@ + safety_name(safety) + " is denied for queue "@ + decimal(
                queue.0 as nat,
            ) + " by the admission policy"@,
            ExchangeError::UnknownQueue(queue) => "queue "@ + decimal(queue.0 as nat)
                + " is not configured on this link"@,
            ExchangeError::Deadline => "request deadline expired"@,
            ExchangeError::ResponseTimeout => "response timeout expired"@,
            ExchangeError::SendTimeout =>
            "request transmission timed out and the channel must be reopened"@,
            ExchangeError::Busy(code) =>
            "transient-device retries exhausted; last response code was "@ + decimal(code as nat),
            ExchangeError::DelayedResponse(code) =>
            "delayed-response polling exhausted; last response code was "@ + decimal(code as nat),
            ExchangeError::Channel(error) => error.text(),
            ExchangeError::Wire(error) => error.text(),
            ExchangeError::Operation(error) => error.text(),
            ExchangeError::RunnerStopped => "runner stopped before the request completed"@,
            ExchangeError::RetryPolicy(error) => error.text(),
            ExchangeError::TransmitPrefix(length) => "transmit prefix contains "@ + decimal(
                length as nat,
            ) + " bytes and exceeds the supported limit"@,
        }
    }

    /// Renders the error for a diagnostic.
    pub fn message(&self) -> (message: String)
        ensures
            message@ == self.text(),
    {
        match self {
            ExchangeError::CommandDenied { command, safety, queue } => {
                let mut message = String::from_str("command ");
                append_decimal(&mut message, *command as u64);
                message.append(" with safety ");
                message.append(name_of_safety(*safety));
                message.append(" is denied for queue ");
                append_decimal(&mut message, queue.0 as u64);
                message.append(" by the admission policy");
                message
            },
            ExchangeError::UnknownQueue(queue) => {
                let mut message = String::from_str("queue ");
                append_decimal(&mut message, queue.0 as u64);
                message.append(" is not configured on this link");
                message
            },
            ExchangeError::Deadline => String::from_str("request deadline expired"),
            ExchangeError::ResponseTimeout => String::from_str("response timeout expired"),
            ExchangeError::SendTimeout => String::from_str(
                "request transmission timed out and the channel must be reopened",
            ),
            ExchangeError::Busy(code) => {
                let mut message = String::from_str(
                    "transient-device retries exhausted; last response code was ",
                );
                append_decimal(&mut message, *code as u64);
                message
            },
            ExchangeError::DelayedResponse(code) => {
                let mut message = String::from_str(
                    "delayed-response polling exhausted; last response code was ",
                );
                append_decimal(&mut message, *code as u64);
                message
            },
            ExchangeError::Channel(error) => error.message(),
            ExchangeError::Wire(error) => error.message(),
            ExchangeError::Operation(error) => error.message(),
            ExchangeError::RunnerStopped => String::from_str(
                "runner stopped before the request completed",
            ),
            ExchangeError::RetryPolicy(error) => error.message(),
            ExchangeError::TransmitPrefix(length) => {
                let mut message = String::from_str("transmit prefix contains ");
                append_decimal(&mut message, *length as u64);
                message.append(" bytes and exceeds the supported limit");
                message
            },
        }
    }

    /// The short explanation of the error.
    pub open spec fn reason_text(self) -> Seq<char> {
        match self {
            ExchangeError::CommandDenied { .. } => "command policy"@,
            ExchangeError::UnknownQueue(_) => "unknown queue"@,
            ExchangeError::Deadline => "end-to-end deadline"@,
            ExchangeError::ResponseTimeout => "response timeout"@,
            ExchangeError::SendTimeout => "send timeout"@,
            ExchangeError::Busy(_) => "transient device rejection"@,
            ExchangeError::DelayedResponse(_) => "delayed response"@,
            ExchangeError::Channel(_) => "transport"@,
            ExchangeError::Wire(_) => "link-layer frame"@,
            ExchangeError::Operation(_) => "application format"@,
            ExchangeError::RunnerStopped => "runner stopped"@,
            ExchangeError::RetryPolicy(_) => "invalid retry policy"@,
            ExchangeError::TransmitPrefix(_) => "transmit prefix limit"@,
        }
    }

    /// Returns the short explanation of the error.
    pub fn reason(&self) -> (reason: &'static str)
        ensures
            reason@ == self.reason_text(),
    {
        match self {
            ExchangeError::CommandDenied { .. } => "command policy",
            ExchangeError::UnknownQueue(_) => "unknown queue",
            ExchangeError::Deadline => "end-to-end deadline",
            ExchangeError::ResponseTimeout => "response timeout",
            ExchangeError::SendTimeout => "send timeout",
            ExchangeError::Busy(_) => "transient device rejection",
            ExchangeError::DelayedResponse(_) => "delayed response",
            ExchangeError::Channel(_) => "transport",
            ExchangeError::Wire(_) => "link-layer frame",
            ExchangeError::Operation(_) => "application format",
            ExchangeError::RunnerStopped => "runner stopped",
            ExchangeError::RetryPolicy(_) => "invalid retry policy",
            ExchangeError::TransmitPrefix(_) => "transmit prefix limit",
        }
    }
}

} // verus!
