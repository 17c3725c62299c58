//! One exchange with a device: attempts, retries and the reading of frames.

use vstd::prelude::*;

use crate::bytes::{append_bytes, from_be16, join16, same_bytes};
use crate::catalog::OperationSafety;
use crate::operation::{CommandCode, DeviceReply, ReplyView, Request, RequestView};
use crate::service::event::{ExchangeError, LinkNote, RetryCause};
use crate::service::policy::{effective_safety, resolved_safety};
use crate::service::retry::{deadline_after, later, RetryPolicy};
use crate::time::Duration;
use crate::wire::{DecodeEvent, EventView, Frame, FrameKind, FrameView, WireError};

verus! {

/// A request that waits in a queue or is in flight.
#[derive(Debug)]
pub struct Job {
    /// Unique request identifier.
    pub id: u64,
    /// Complete request.
    pub request: Request,
    /// Bytes sent immediately before the frame.
    pub transmit_prefix: Vec<u8>,
    /// Retry limits.
    pub policy: RetryPolicy,
    /// Point in time at which the request has failed.
    pub deadline: Duration,
}

/// What a job holds, with its byte vectors as sequences.
#[verifier::ext_equal]
pub struct JobView {
    pub id: u64,
    pub request: RequestView,
    pub transmit_prefix: Seq<u8>,
    pub policy: RetryPolicy,
    pub deadline: Duration,
}

impl View for Job {
    type V = JobView;

    open spec fn view(&self) -> JobView {
        JobView {
            id: self.id,
            request: self.request@,
            transmit_prefix: self.transmit_prefix@,
            policy: self.policy,
            deadline: self.deadline,
        }
    }
}

/// Compares two requests field by field.
pub fn same_request(left: &Request, right: &Request) -> (same: bool)
    ensures
        same == (left@ == right@),
{
    let same = left.address == right.address && left.command == right.command && same_bytes(
        &left.data,
        &right.data,
    ) && left.preambles == right.preambles && same_bytes(
        &left.frame_expansion,
        &right.frame_expansion,
    ) && left.physical_layer == right.physical_layer && same_declaration(
        left.retry_safety,
        right.retry_safety,
    );
    assert(same ==> left@ =~= right@);
    same
}

fn same_declaration(left: Option<OperationSafety>, right: Option<OperationSafety>) -> (same: bool)
    ensures
        same == (left == right),
{
    match (left, right) {
        (Some(left), Some(right)) => left == right,
        (None, None) => true,
        _ => false,
    }
}

impl JobView {
    /// Whether another job can get its result from the exchange of this one.
    pub open spec fn answers_for(self, other: JobView) -> bool {
        &&& other.request == self.request
        &&& other.transmit_prefix.len() == 0
        &&& other.policy == self.policy
    }

    /// Whether other jobs can join the exchange of this one.
    pub open spec fn can_lead(self) -> bool {
        &&& effective_safety(self.request) == OperationSafety::ReadOnly
        &&& self.transmit_prefix.len() == 0
    }

    /// How often the exchange is repeated after silence.
    pub open spec fn transport_limit(self) -> u8 {
        if effective_safety(self.request) == OperationSafety::Action {
            0
        } else {
            self.policy.transport_retries
        }
    }
}

impl Job {
    pub(crate) fn leads(&self) -> (leads: bool)
        ensures
            leads == self@.can_lead(),
    {
        resolved_safety(&self.request) == OperationSafety::ReadOnly && self.transmit_prefix.len()
            == 0
    }

    pub(crate) fn coalesces_with(&self, candidate: &Job) -> (joined: bool)
        ensures
            joined == self@.answers_for(candidate@),
    {
        same_request(&candidate.request, &self.request) && candidate.transmit_prefix.len() == 0
            && candidate.policy == self.policy
    }
}

/// The logical command of a request frame.
pub open spec fn logical_number(frame: FrameView) -> CommandCode {
    if frame.wire_command == 31 && frame.payload.len() >= 2 {
        CommandCode(from_be16(frame.payload[0], frame.payload[1]))
    } else {
        CommandCode(frame.wire_command as u16)
    }
}

fn logical_command(frame: &Frame) -> (command: CommandCode)
    ensures
        command == logical_number(frame@),
{
    if frame.wire_command == 31 && frame.payload.len() >= 2 {
        CommandCode(join16(frame.payload[0], frame.payload[1]))
    } else {
        CommandCode(frame.wire_command as u16)
    }
}

/// What a decoded event means while a request is in flight.
#[derive(Debug, PartialEq, Eq)]
pub enum Finding {
    /// A damaged frame.
    Rejected(WireError),
    /// The request itself.
    Echo,
    /// A frame that is no response.
    Ignored,
    /// A message that nobody asked for.
    Unsolicited(DeviceReply),
    /// The response to the request.
    Answer(DeviceReply),
    /// A response to another request.
    Stale(DeviceReply),
}

/// What a finding holds, with replies as views.
#[verifier::ext_equal]
pub enum FindingView {
    Rejected(WireError),
    Echo,
    Ignored,
    Unsolicited(ReplyView),
    Answer(ReplyView),
    Stale(ReplyView),
}

impl View for Finding {
    type V = FindingView;

    open spec fn view(&self) -> FindingView {
        match self {
            Finding::Rejected(error) => FindingView::Rejected(*error),
            Finding::Echo => FindingView::Echo,
            Finding::Ignored => FindingView::Ignored,
            Finding::Unsolicited(reply) => FindingView::Unsolicited(reply@),
            Finding::Answer(reply) => FindingView::Answer(reply@),
            Finding::Stale(reply) => FindingView::Stale(reply@),
        }
    }
}

/// Whether a frame is the request itself.
pub open spec fn is_echo(frame: FrameView, request: FrameView) -> bool {
    &&& frame.kind == FrameKind::Request
    &&& frame.wire_command == request.wire_command
    &&& frame.address == request.address
    &&& frame.physical_layer == request.physical_layer
    &&& frame.expansion == request.expansion
    &&& frame.payload == request.payload
}

/// Whether a reply belongs to a request.
pub open spec fn answers(reply: ReplyView, request: FrameView) -> bool {
    &&& reply.command == logical_number(request)
    &&& reply.address == request.address
    &&& reply.physical_layer == request.physical_layer
    &&& reply.frame_expansion == request.expansion
}

/// What a decoded event means while a request is in flight.
pub open spec fn meaning(event: EventView, request: FrameView) -> FindingView {
    match event {
        EventView::Rejected(error) => FindingView::Rejected(error),
        EventView::Frame(frame) => if is_echo(frame, request) {
            FindingView::Echo
        } else {
            match ReplyView::of_frame(frame) {
                Err(_) => FindingView::Ignored,
                Ok(reply) => if reply.burst {
                    FindingView::Unsolicited(reply)
                } else if answers(reply, request) {
                    FindingView::Answer(reply)
                } else {
                    FindingView::Stale(reply)
                },
            }
        },
    }
}

/// Tells what a decoded event means while a request is in flight.
pub fn interpret(event: &DecodeEvent, request: &Frame) -> (finding: Finding)
    ensures
        finding@ == meaning(event@, request@),
{
    let frame = match event {
        DecodeEvent::Rejected(error) => {
            return Finding::Rejected(*error);
        },
        DecodeEvent::Frame(frame) => frame,
    };
    if frame.kind == FrameKind::Request && frame.wire_command == request.wire_command
        && frame.address == request.address && frame.physical_layer == request.physical_layer
        && same_bytes(&frame.expansion, &request.expansion) && same_bytes(
        &frame.payload,
        &request.payload,
    ) {
        return Finding::Echo;
    }
    match DeviceReply::from_frame(frame.clone()) {
        Err(_) => Finding::Ignored,
        Ok(reply) => if reply.burst {
            Finding::Unsolicited(reply)
        } else if reply.command == logical_command(request) && reply.address == request.address
            && reply.physical_layer == request.physical_layer && same_bytes(
            &reply.frame_expansion,
            &request.expansion,
        ) {
            Finding::Answer(reply)
        } else {
            Finding::Stale(reply)
        },
    }
}

/// What a list of decoded events comes to while a request is in flight.
#[verifier::ext_equal]
pub struct Heard {
    /// What observers are told.
    pub notes: Seq<LinkNote>,
    /// Messages that nobody asked for.
    pub bursts: Seq<ReplyView>,
    /// The response, if it was among the events.
    pub answer: Option<ReplyView>,
}

/// What observers are told of one event, if anything.
pub open spec fn note_of(finding: FindingView, id: u64) -> Seq<LinkNote> {
    match finding {
        FindingView::Rejected(error) => seq![LinkNote::RejectedFrame { id, error }],
        FindingView::Echo => seq![LinkNote::EchoDiscarded { id }],
        FindingView::Ignored => Seq::empty(),
        FindingView::Unsolicited(reply) => seq![LinkNote::Unsolicited { reply }],
        FindingView::Answer(_) => Seq::empty(),
        FindingView::Stale(reply) => seq![LinkNote::StaleFrame { id, command: reply.command }],
    }
}

/// The messages that nobody asked for in one event.
pub open spec fn burst_of(finding: FindingView) -> Seq<ReplyView> {
    match finding {
        FindingView::Unsolicited(reply) => seq![reply],
        _ => Seq::empty(),
    }
}

/// What a list of decoded events comes to: everything up to the response.
pub open spec fn heard(events: Seq<EventView>, request: FrameView, id: u64) -> Heard
    decreases events.len(),
{
    if events.len() == 0 {
        Heard { notes: Seq::empty(), bursts: Seq::empty(), answer: None }
    } else {
        match meaning(events[0], request) {
            FindingView::Answer(reply) => Heard {
                notes: Seq::empty(),
                bursts: Seq::empty(),
                answer: Some(reply),
            },
            finding => {
                let rest = heard(events.drop_first(), request, id);
                Heard {
                    notes: note_of(finding, id) + rest.notes,
                    bursts: burst_of(finding) + rest.bursts,
                    answer: rest.answer,
                }
            },
        }
    }
}

/// What is taken for the response answers the request: its command, address,
/// physical layer and header extension, and it was asked for.
pub proof fn lemma_only_a_response_answers(events: Seq<EventView>, request: FrameView, id: u64)
    ensures
        heard(events, request, id).answer matches Some(reply) ==> answers(reply, request)
            && !reply.burst,
    decreases events.len(),
{
    if events.len() > 0 {
        lemma_only_a_response_answers(events.drop_first(), request, id);
    }
}

/// What a decoded event means while no request is in flight.
pub open spec fn idle_note(event: EventView) -> Seq<LinkNote> {
    match event {
        EventView::Rejected(error) => seq![LinkNote::IdleRejectedFrame { error }],
        EventView::Frame(frame) => match ReplyView::of_frame(frame) {
            Err(_) => Seq::empty(),
            Ok(reply) => if reply.burst {
                seq![LinkNote::Unsolicited { reply }]
            } else {
                seq![LinkNote::LateResponse { reply }]
            },
        },
    }
}

/// The messages that nobody asked for in one event.
pub open spec fn idle_burst(event: EventView) -> Seq<ReplyView> {
    match event {
        EventView::Rejected(_) => Seq::empty(),
        EventView::Frame(frame) => match ReplyView::of_frame(frame) {
            Err(_) => Seq::empty(),
            Ok(reply) => if reply.burst {
                seq![reply]
            } else {
                Seq::empty()
            },
        },
    }
}

/// What a list of decoded events comes to while no request is in flight.
pub open spec fn idle_heard(events: Seq<EventView>) -> Heard
    decreases events.len(),
{
    if events.len() == 0 {
        Heard { notes: Seq::empty(), bursts: Seq::empty(), answer: None }
    } else {
        let rest = idle_heard(events.drop_first());
        Heard {
            notes: idle_note(events[0]) + rest.notes,
            bursts: idle_burst(events[0]) + rest.bursts,
            answer: None,
        }
    }
}

/// Where an exchange stands between attempts.
#[derive(Debug)]
pub struct Exchange {
    job: Job,
    frame: Frame,
    encoded: Vec<u8>,
    transport_limit: u8,
    attempt_number: u8,
    transport_retries: u8,
    busy_retries: u8,
    delayed_response_polls: u8,
}

/// What an exchange holds.
#[verifier::ext_equal]
pub struct ExchangeView {
    /// The request.
    pub job: JobView,
    /// Number of the current attempt.
    pub attempt: u8,
    /// Repeats after silence.
    pub transport_retries: u8,
    /// Repeats after a Busy response.
    pub busy_retries: u8,
    /// Repeats after a delayed-response indication.
    pub polls: u8,
}

/// A counter that stays at its largest value.
pub open spec fn one_more(counter: u8) -> u8 {
    if counter == u8::MAX {
        u8::MAX
    } else {
        (counter + 1) as u8
    }
}

/// What follows an attempt.
#[derive(Debug)]
pub enum ExchangeStep {
    /// The exchange is over.
    Finished(Result<DeviceReply, ExchangeError>),
    /// The next attempt follows.
    Repeat {
        /// Why.
        cause: RetryCause,
        /// Number of the next attempt.
        attempt: u8,
        /// When it may start, where it has to wait.
        wake: Option<Duration>,
    },
}

/// What follows an attempt, with the reply as its view.
#[verifier::ext_equal]
pub enum StepNote {
    Answered(ReplyView),
    Failed(ExchangeError),
    Repeat { cause: RetryCause, attempt: u8, wake: Option<Duration> },
    TooLate { cause: RetryCause, attempt: u8 },
}

impl ExchangeView {
    /// An exchange before its first attempt.
    pub open spec fn fresh(job: JobView) -> ExchangeView {
        ExchangeView { job, attempt: 1, transport_retries: 0, busy_retries: 0, polls: 0 }
    }

    /// The bytes of every attempt: the prefix, then the frame.
    pub open spec fn transmission(self) -> Seq<u8> {
        self.job.transmit_prefix + self.job.request.frame().encoded()
    }

    /// When an attempt that starts now has failed.
    pub open spec fn attempt_end(self, now: Duration) -> Duration {
        match later(now, self.job.policy.response_timeout) {
            Some(end) => if end.nanos < self.job.deadline.nanos {
                end
            } else {
                self.job.deadline
            },
            None => self.job.deadline,
        }
    }

    /// Whether a repeat may start before the deadline, and when.
    pub open spec fn pause(self, now: Duration) -> Option<Option<Duration>> {
        if self.job.policy.retry_delay.nanos == 0 {
            Some(None)
        } else {
            match later(now, self.job.policy.retry_delay) {
                None => None,
                Some(wake) => if wake.nanos >= self.job.deadline.nanos {
                    None
                } else {
                    Some(Some(wake))
                },
            }
        }
    }

    /// The exchange after an attempt, given its result.
    pub open spec fn after_reply(self, code: u8) -> ExchangeView {
        if code == 32 && self.busy_retries < self.job.policy.busy_retries {
            ExchangeView {
                attempt: one_more(self.attempt),
                busy_retries: (self.busy_retries + 1) as u8,
                ..self
            }
        } else if (code == 33 || code == 34) && self.polls
            < self.job.policy.delayed_response_polls {
            ExchangeView {
                attempt: one_more(self.attempt),
                polls: (self.polls + 1) as u8,
                ..self
            }
        } else {
            self
        }
    }

    /// The exchange after an attempt that failed.
    pub open spec fn after_error(self, error: ExchangeError) -> ExchangeView {
        if error is ResponseTimeout && self.transport_retries < self.job.transport_limit() {
            ExchangeView {
                attempt: one_more(self.attempt),
                transport_retries: (self.transport_retries + 1) as u8,
                ..self
            }
        } else {
            self
        }
    }

    /// The wait before the next attempt, and the failure where there is no time for it.
    pub open spec fn repeating(self, cause: RetryCause, now: Duration) -> StepNote {
        match self.pause(now) {
            Some(wake) => StepNote::Repeat { cause, attempt: self.attempt, wake },
            None => StepNote::TooLate { cause, attempt: self.attempt },
        }
    }

    /// What follows an attempt that got a reply.
    pub open spec fn reply_step(self, reply: ReplyView, now: Duration) -> StepNote {
        let code = reply.response_code;
        if code == 32 {
            if self.busy_retries >= self.job.policy.busy_retries {
                StepNote::Failed(ExchangeError::Busy(code))
            } else {
                self.after_reply(code).repeating(RetryCause::Busy, now)
            }
        } else if code == 33 || code == 34 {
            if self.polls >= self.job.policy.delayed_response_polls {
                StepNote::Failed(ExchangeError::DelayedResponse(code))
            } else {
                self.after_reply(code).repeating(RetryCause::DelayedResponse, now)
            }
        } else {
            StepNote::Answered(reply)
        }
    }

    /// What follows an attempt that failed: silence is repeated within its
    /// limit, everything else ends the exchange.
    pub open spec fn error_step(self, error: ExchangeError) -> StepNote {
        if error is ResponseTimeout && self.transport_retries < self.job.transport_limit() {
            StepNote::Repeat {
                cause: RetryCause::Transport,
                attempt: self.after_error(error).attempt,
                wake: None,
            }
        } else {
            StepNote::Failed(error)
        }
    }

    /// Whether the limits are kept.
    pub open spec fn within_limits(self) -> bool {
        &&& self.transport_retries <= self.job.transport_limit()
        &&& self.busy_retries <= self.job.policy.busy_retries
        &&& self.polls <= self.job.policy.delayed_response_polls
    }

    /// Attempts that may still follow.
    pub open spec fn attempts_left(self) -> int {
        self.job.transport_limit() - self.transport_retries + self.job.policy.busy_retries
            - self.busy_retries + self.job.policy.delayed_response_polls - self.polls
    }
}

/// Every repeat uses up one of finitely many, so that an exchange ends; the
/// limits are kept.
pub proof fn lemma_repeats_are_bounded(
    exchange: ExchangeView,
    reply: ReplyView,
    error: ExchangeError,
    now: Duration,
)
    requires
        exchange.within_limits(),
    ensures
        exchange.after_reply(reply.response_code).within_limits(),
        exchange.after_error(error).within_limits(),
        exchange.reply_step(reply, now) is Repeat ==> exchange.after_reply(
            reply.response_code,
        ).attempts_left() == exchange.attempts_left() - 1,
        exchange.error_step(error) is Repeat ==> exchange.after_error(error).attempts_left()
            == exchange.attempts_left() - 1,
        0 <= exchange.attempts_left() <= 765,
{
}

/// A request that changes the device in ways that cannot be repeated is never
/// sent again after silence.
pub proof fn lemma_action_is_not_repeated_after_silence(exchange: ExchangeView)
    requires
        effective_safety(exchange.job.request) == OperationSafety::Action,
    ensures
        exchange.error_step(ExchangeError::ResponseTimeout) == StepNote::Failed(
            ExchangeError::ResponseTimeout,
        ),
{
}

/// Only silence is a reason to repeat an attempt that failed.
pub proof fn lemma_only_silence_is_repeated(exchange: ExchangeView, error: ExchangeError)
    requires
        !(error is ResponseTimeout),
    ensures
        exchange.error_step(error) == StepNote::Failed(error),
        exchange.after_error(error) == exchange,
{
}

impl View for Exchange {
    type V = ExchangeView;

    closed spec fn view(&self) -> ExchangeView {
        ExchangeView {
            job: self.job@,
            attempt: self.attempt_number,
            transport_retries: self.transport_retries,
            busy_retries: self.busy_retries,
            polls: self.delayed_response_polls,
        }
    }
}

impl Exchange {
    /// The frame and the bytes are those of the request.
    pub closed spec fn well_formed(&self) -> bool {
        &&& self.frame@ == self.job.request@.frame()
        &&& self.encoded@ == self@.transmission()
        &&& self.transport_limit == self@.job.transport_limit()
        &&& self@.within_limits()
    }

    /// Prepares the first attempt of a request.
    pub fn begin(job: Job, now: Duration) -> (result: Result<Self, (Job, ExchangeError)>)
        ensures
            if now.nanos >= job.deadline.nanos {
                result == Err::<Self, (Job, ExchangeError)>((job, ExchangeError::Deadline))
            } else {
                match job.request@.size_error() {
                    Some(error) => result == Err::<Self, (Job, ExchangeError)>(
                        (job, ExchangeError::Operation(error)),
                    ),
                    None => result matches Ok(exchange) && exchange.well_formed() && exchange@
                        == ExchangeView::fresh(job@) && exchange.request() == job,
                }
            },
    {
        if now.nanos >= job.deadline.nanos {
            return Err((job, ExchangeError::Deadline));
        }
        let frame = match job.request.to_frame() {
            Ok(frame) => frame,
            Err(error) => {
                return Err((job, ExchangeError::Operation(error)));
            },
        };
        let frame_bytes = match frame.encode() {
            Ok(bytes) => bytes,
            Err(error) => {
                return Err((job, ExchangeError::Wire(error)));
            },
        };
        let mut encoded: Vec<u8> = Vec::new();
        append_bytes(&mut encoded, &job.transmit_prefix);
        append_bytes(&mut encoded, &frame_bytes);
        assert(encoded@ =~= job.transmit_prefix@ + frame@.encoded());
        let transport_limit: u8 = if resolved_safety(&job.request) == OperationSafety::Action {
            0
        } else {
            job.policy.transport_retries
        };
        Ok(
            Exchange {
                job,
                frame,
                encoded,
                transport_limit,
                attempt_number: 1,
                transport_retries: 0,
                busy_retries: 0,
                delayed_response_polls: 0,
            },
        )
    }

    /// The job of the exchange.
    pub closed spec fn request(&self) -> Job {
        self.job
    }

    /// Returns the job of the exchange.
    pub fn job(&self) -> (job: &Job)
        ensures
            *job == self.request(),
            job@ == self@.job,
    {
        &self.job
    }

    /// Gives the job of the exchange back.
    pub fn into_job(self) -> (job: Job)
        ensures
            job == self.request(),
            job@ == self@.job,
    {
        self.job
    }

    /// Returns the request frame.
    pub fn frame(&self) -> (frame: &Frame)
        requires
            self.well_formed(),
        ensures
            frame@ == self@.job.request.frame(),
    {
        &self.frame
    }

    /// Returns the bytes of every attempt.
    pub fn transmission(&self) -> (bytes: &Vec<u8>)
        requires
            self.well_formed(),
        ensures
            bytes@ == self@.transmission(),
    {
        &self.encoded
    }

    /// Returns when an attempt that starts now has failed.
    pub fn attempt_deadline(&self, now: Duration) -> (deadline: Duration)
        ensures
            deadline == self@.attempt_end(now),
    {
        match deadline_after(now, self.job.policy.response_timeout) {
            Some(end) => if end.nanos < self.job.deadline.nanos {
                end
            } else {
                self.job.deadline
            },
            None => self.job.deadline,
        }
    }

    /// Tells whether the next attempt may still start.
    pub fn resume(&self, now: Duration) -> (result: Result<(), ExchangeError>)
        ensures
            result == if now.nanos >= self@.job.deadline.nanos {
                Err::<(), ExchangeError>(ExchangeError::Deadline)
            } else {
                Ok::<(), ExchangeError>(())
            },
    {
        if now.nanos >= self.job.deadline.nanos {
            return Err(ExchangeError::Deadline);
        }
        Ok(())
    }

    fn wait_before_retry(&self, now: Duration) -> (result: Result<
        Option<Duration>,
        ExchangeError,
    >)
        ensures
            result == match self@.pause(now) {
                Some(wake) => Ok::<Option<Duration>, ExchangeError>(wake),
                None => Err::<Option<Duration>, ExchangeError>(ExchangeError::Deadline),
            },
    {
        let delay = self.job.policy.retry_delay;
        if delay.is_zero() {
            return Ok(None);
        }
        match deadline_after(now, delay) {
            None => Err(ExchangeError::Deadline),
            Some(wake) => if wake.nanos >= self.job.deadline.nanos {
                Err(ExchangeError::Deadline)
            } else {
                Ok(Some(wake))
            },
        }
    }

    /// Takes over the reply of an attempt. The retry is reported, also where
    /// there is no time for it.
    pub fn settle_reply(&mut self, reply: DeviceReply, now: Duration) -> (outcome: (
        Option<(RetryCause, u8)>,
        ExchangeStep,
    ))
        requires
            old(self).well_formed(),
        ensures
            final(self).well_formed(),
            final(self).request() == old(self).request(),
            final(self)@ == old(self)@.after_reply(reply@.response_code),
            settled_as(outcome, old(self)@.reply_step(reply@, now)),
    {
        let code: u8 = reply.response_code;
        if code == 32 {
            if self.busy_retries >= self.job.policy.busy_retries {
                return (None, ExchangeStep::Finished(Err(ExchangeError::Busy(code))));
            }
            self.busy_retries = self.busy_retries + 1;
            return self.next_attempt(RetryCause::Busy, now);
        }
        if code == 33 || code == 34 {
            if self.delayed_response_polls >= self.job.policy.delayed_response_polls {
                return (None, ExchangeStep::Finished(Err(ExchangeError::DelayedResponse(code))));
            }
            self.delayed_response_polls = self.delayed_response_polls + 1;
            return self.next_attempt(RetryCause::DelayedResponse, now);
        }
        (None, ExchangeStep::Finished(Ok(reply)))
    }

    fn next_attempt(&mut self, cause: RetryCause, now: Duration) -> (outcome: (
        Option<(RetryCause, u8)>,
        ExchangeStep,
    ))
        requires
            old(self).well_formed(),
        ensures
            final(self).well_formed(),
            final(self).request() == old(self).request(),
            final(self)@ == (ExchangeView { attempt: one_more(old(self)@.attempt), ..old(self)@ }),
            settled_as(outcome, final(self)@.repeating(cause, now)),
    {
        self.attempt_number = self.attempt_number.saturating_add(1);
        let attempt: u8 = self.attempt_number;
        match self.wait_before_retry(now) {
            Ok(wake) => (Some((cause, attempt)), ExchangeStep::Repeat { cause, attempt, wake }),
            Err(error) => (Some((cause, attempt)), ExchangeStep::Finished(Err(error))),
        }
    }

    /// Takes over the failure of an attempt.
    pub fn settle_error(&mut self, error: ExchangeError) -> (outcome: (
        Option<(RetryCause, u8)>,
        ExchangeStep,
    ))
        requires
            old(self).well_formed(),
        ensures
            final(self).well_formed(),
            final(self).request() == old(self).request(),
            final(self)@ == old(self)@.after_error(error),
            settled_as(outcome, old(self)@.error_step(error)),
    {
        let silent = match &error {
            ExchangeError::ResponseTimeout => true,
            _ => false,
        };
        if silent && self.transport_retries < self.transport_limit {
            self.transport_retries = self.transport_retries + 1;
            self.attempt_number = self.attempt_number.saturating_add(1);
            let attempt: u8 = self.attempt_number;
            return (
                Some((RetryCause::Transport, attempt)),
                ExchangeStep::Repeat { cause: RetryCause::Transport, attempt, wake: None },
            );
        }
        (None, ExchangeStep::Finished(Err(error)))
    }
}

/// What an outcome of an attempt says.
pub open spec fn settled_as(
    outcome: (Option<(RetryCause, u8)>, ExchangeStep),
    note: StepNote,
) -> bool {
    match note {
        StepNote::Answered(expected) => outcome.0 is None
            && answered_with(outcome.1, expected),
        StepNote::Failed(error) => outcome.0 is None && failed_with(outcome.1, error),
        StepNote::Repeat { cause, attempt, wake } => outcome.0 == Some((cause, attempt))
            && outcome.1 == (ExchangeStep::Repeat { cause, attempt, wake }),
        StepNote::TooLate { cause, attempt } => outcome.0 == Some((cause, attempt))
            && failed_with(outcome.1, ExchangeError::Deadline),
    }
}

/// Whether a step ends an exchange with a reply.
pub open spec fn answered_with(step: ExchangeStep, expected: ReplyView) -> bool {
    step matches ExchangeStep::Finished(Ok(reply)) && reply@ == expected
}

/// Whether a step ends an exchange with an error.
pub open spec fn failed_with(step: ExchangeStep, error: ExchangeError) -> bool {
    step matches ExchangeStep::Finished(Err(found)) && found == error
}

/// An exchange begins and goes on only before the deadline of its request, and
/// only for a request that fits a frame. It begins with the first attempt and
/// with nothing repeated, and sends the bytes ahead of the frame first.
pub proof fn lemma_exchange_begins(
    job: Job,
    now: Duration,
    begun: Result<Exchange, (Job, ExchangeError)>,
)
    requires
        call_ensures(Exchange::begin, (job, now), begun),
    ensures
        begun is Ok <==> now.nanos < job.deadline.nanos && job.request@.size_error() is None,
        now.nanos >= job.deadline.nanos ==> (begun matches Err((returned, error)) && returned == job
            && error is Deadline),
        begun matches Err((returned, _)) ==> returned == job,
        begun matches Ok(exchange) ==> exchange@.job == job@ && exchange@.attempt == 1
            && exchange@.transport_retries == 0 && exchange@.busy_retries == 0 && exchange@.polls
            == 0 && exchange@.transmission().take(job.transmit_prefix@.len() as int)
            == job.transmit_prefix@ && exchange@.transmission().skip(
            job.transmit_prefix@.len() as int,
        ) == job.request@.frame().encoded(),
        begun matches Ok(exchange) ==> forall|later: Duration, result: Result<(), ExchangeError>|
            #[trigger]
            call_ensures(Exchange::resume, (&exchange, later), result) ==> (result is Ok
                <==> later.nanos < job.deadline.nanos),
{
    if let Ok(exchange) = begun {
        let prefix = job.transmit_prefix@;
        let frame = job.request@.frame().encoded();
        assert((prefix + frame).take(prefix.len() as int) =~= prefix);
        assert((prefix + frame).skip(prefix.len() as int) =~= frame);
    }
}

} // verus!
