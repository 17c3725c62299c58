//! The entry to the queues of one physical link.

use vstd::prelude::*;

use crate::catalog::OperationSafety;
use crate::operation::{CommandCode, Request, RequestView};
use crate::service::event::{
    event_notes, map_queue_push_error, push_failure, ExchangeError, LinkEvent, LinkNote,
    LinkSnapshot, StartError,
};
use crate::service::exchange::{Job, JobView};
use crate::service::policy::{
    effective_safety, CommandContext, CommandPolicy, CommandRouting, Decisions,
};
use crate::service::priority::Priority;
use crate::service::queue_set::{
    layout_violation, lemma_valid_layout_is_distinct, next_turn, on_ring, taken, QueueConfig,
    QueueCursor, QueueError, QueueId, QueuePriority, QueuePushError, QueueSet, QueueSetView,
    QueueSnapshot, SlotView,
};
use crate::service::retry::{deadline_after, later, RetryPolicy};
use crate::time::Duration;

verus! {

/// Largest modem or gateway wake sequence accepted by the queue API.
pub const MAXIMUM_TRANSMIT_PREFIX: usize = 4096;

/// How many requests went which way.
#[derive(Debug, Clone, Copy, PartialEq, Eq, Structural)]
pub struct LinkCounters {
    /// Exchanges started.
    pub started: u64,
    /// Requests completed.
    pub completed: u64,
    /// Requests failed.
    pub failed: u64,
    /// Requests cancelled by their waiters.
    pub cancelled: u64,
    /// Requests joined to another exchange.
    pub coalesced: u64,
    /// Requests rejected before they were queued.
    pub denied: u64,
}

impl LinkCounters {
    /// Counters at their start.
    pub open spec fn zero() -> LinkCounters {
        LinkCounters { started: 0, completed: 0, failed: 0, cancelled: 0, coalesced: 0, denied: 0 }
    }
}

/// The next value of a counter that starts over behind its largest one.
pub open spec fn rolled(counter: u64) -> u64 {
    if counter == u64::MAX {
        0
    } else {
        (counter + 1) as u64
    }
}

fn roll(counter: u64) -> (next: u64)
    ensures
        next == rolled(counter),
{
    if counter == u64::MAX {
        0
    } else {
        counter + 1
    }
}

/// Identifies a request whose result is awaited.
#[derive(Debug, Clone, Copy, PartialEq, Eq, Structural)]
pub struct PendingReply {
    /// Unique request identifier.
    pub id: u64,
}

impl PendingReply {
    /// Returns the unique request identifier.
    pub fn id(&self) -> (id: u64)
        ensures
            id == self.id,
    {
        self.id
    }
}

/// What became of a request that waits for room in its queue.
#[derive(Debug)]
pub enum EnqueueStep {
    /// The queue has taken the request.
    Queued(PendingReply),
    /// There is no room yet.
    Waiting(Job),
    /// The queue does not take the request.
    Refused(StartError),
}

/// What the entry to a link holds.
#[verifier::ext_equal]
pub struct LinkView {
    /// Queues.
    pub queues: QueueSetView<Job>,
    /// Counters.
    pub counters: LinkCounters,
    /// Identifier of the youngest request.
    pub last_id: u64,
    /// Events that observers have not been told yet.
    pub notes: Seq<LinkNote>,
    /// Queue of requests that name none.
    pub default_queue: QueueId,
    /// Retry limits of requests that set none.
    pub default_retry: RetryPolicy,
    /// Admission policy.
    pub policy: CommandPolicy,
    /// Routing.
    pub routing: CommandRouting,
}

impl LinkView {
    /// The link with one more event.
    pub open spec fn noting(self, note: LinkNote) -> LinkView {
        LinkView { notes: self.notes.push(note), ..self }
    }

    /// The link with changed queues.
    pub open spec fn with_queues(self, queues: QueueSetView<Job>) -> LinkView {
        LinkView { queues, ..self }
    }

    /// The link after a waiter disappeared.
    pub open spec fn cancelling(self, id: u64) -> LinkView {
        LinkView {
            counters: LinkCounters { cancelled: rolled(self.counters.cancelled), ..self.counters },
            ..self.noting(LinkNote::Cancelled { id })
        }
    }

    /// The link after a request was completed.
    pub open spec fn completing(self, id: u64) -> LinkView {
        LinkView {
            counters: LinkCounters { completed: rolled(self.counters.completed), ..self.counters },
            ..self.noting(LinkNote::Completed { id })
        }
    }

    /// The link after a request failed.
    pub open spec fn failing(self, id: u64, error: ExchangeError) -> LinkView {
        LinkView {
            counters: LinkCounters { failed: rolled(self.counters.failed), ..self.counters },
            ..self.noting(LinkNote::Failed { id, reason: error.reason_text() })
        }
    }

    /// The link after a request joined another exchange.
    pub open spec fn coalescing(self, id: u64, leader_id: u64) -> LinkView {
        LinkView {
            counters: LinkCounters { coalesced: rolled(self.counters.coalesced), ..self.counters },
            ..self.noting(LinkNote::Coalesced { id, leader_id })
        }
    }

    /// The link after an exchange started.
    pub open spec fn starting(self, id: u64, command: CommandCode) -> LinkView {
        LinkView {
            counters: LinkCounters { started: rolled(self.counters.started), ..self.counters },
            ..self.noting(LinkNote::Started { id, command })
        }
    }

    /// The link after a request was rejected.
    pub open spec fn denying(self, command: u16, safety: OperationSafety, queue: QueueId) -> LinkView {
        LinkView {
            counters: LinkCounters { denied: rolled(self.counters.denied), ..self.counters },
            ..self.noting(LinkNote::Denied { command, safety, queue })
        }
    }

    /// The link after a request got its identifier.
    pub open spec fn numbering(self) -> LinkView {
        LinkView { last_id: rolled(self.last_id), ..self }
    }

    /// The link after a queue took a request.
    pub open spec fn queueing(self, queue: QueueId, job: Job) -> LinkView {
        LinkView {
            queues: self.queues.pushing(queue, job),
            ..self.noting(
                LinkNote::Queued { id: job.id, command: job.request.command, queue },
            )
        }
    }

    /// The queue of the requests of a priority: its own, or the default one on
    /// a link that does not tell priorities apart.
    pub open spec fn lane_of(self, priority: Priority) -> QueueId {
        if self.queues.has(priority.lane()) {
            priority.lane()
        } else {
            self.default_queue
        }
    }

    /// The queue of a request, or why it has none.
    pub open spec fn resolution(
        self,
        request: RequestView,
        requested: QueueId,
        routes: Seq<QueueId>,
    ) -> Result<QueueId, StartError> {
        let target = self.routing.routed(request.command, requested, routes);
        if !self.queues.has(requested) {
            Err(StartError::UnknownQueue(requested))
        } else if !self.queues.has(target) {
            Err(StartError::UnknownQueue(target))
        } else {
            Ok(target)
        }
    }

    /// Why a request does not get to its queue, if it does not.
    pub open spec fn admission_error(
        self,
        request: RequestView,
        prefix: Seq<u8>,
        queue: QueueId,
        policy: RetryPolicy,
        now: Duration,
        verdicts: Seq<bool>,
    ) -> Option<StartError> {
        if policy.runtime_violation(now) is Some {
            Some(StartError::RetryPolicy(policy.runtime_violation(now)->0))
        } else if request.size_error() is Some {
            Some(StartError::Operation(request.size_error()->0))
        } else if !self.policy.admitted(request.command, queue, verdicts) {
            Some(
                StartError::CommandDenied {
                    command: request.command.0,
                    safety: effective_safety(request),
                    queue,
                },
            )
        } else if prefix.len() > MAXIMUM_TRANSMIT_PREFIX {
            Some(StartError::TransmitPrefix(prefix.len() as usize))
        } else {
            None
        }
    }

    /// The link after a request did not get to its queue: a rejection by the
    /// policy is counted and reported.
    pub open spec fn refusing(self, error: StartError) -> LinkView {
        match error {
            StartError::CommandDenied { command, safety, queue } => self.denying(
                command,
                safety,
                queue,
            ),
            _ => self,
        }
    }

    /// The job of an admitted request.
    pub open spec fn job(
        self,
        request: RequestView,
        prefix: Seq<u8>,
        policy: RetryPolicy,
        now: Duration,
    ) -> JobView {
        JobView {
            id: rolled(self.last_id),
            request,
            transmit_prefix: prefix,
            policy,
            deadline: later(now, policy.total_timeout)->0,
        }
    }
}

/// Entry point to all configured queues of one physical link.
#[derive(Debug)]
pub struct LinkClient {
    queues: QueueSet<Job>,
    events: Vec<LinkEvent>,
    counters: LinkCounters,
    last_id: u64,
    default_queue: QueueId,
    default_retry: RetryPolicy,
    command_policy: CommandPolicy,
    command_routing: CommandRouting,
}

impl View for LinkClient {
    type V = LinkView;

    closed spec fn view(&self) -> LinkView {
        LinkView {
            queues: self.queues@,
            counters: self.counters,
            last_id: self.last_id,
            notes: event_notes(self.events@),
            default_queue: self.default_queue,
            default_retry: self.default_retry,
            policy: self.command_policy,
            routing: self.command_routing,
        }
    }
}

impl LinkClient {
    /// The queues are sound, and the default queue is one of them.
    pub closed spec fn well_formed(&self) -> bool {
        &&& self.queues.well_formed()
        &&& self@.queues.has(self@.default_queue)
    }

    /// No queue holds more than its capacity, and the default queue exists.
    pub proof fn lemma_consistent(&self)
        requires
            self.well_formed(),
        ensures
            self@.queues.consistent(),
            self@.queues.has(self@.default_queue),
    {
        self.queues.lemma_consistent();
    }

    pub(crate) fn new(
        layout: &Vec<QueueConfig>,
        default_queue: QueueId,
        default_retry: RetryPolicy,
        command_policy: CommandPolicy,
        command_routing: CommandRouting,
    ) -> (link: Self)
        requires
            layout_violation(layout@, default_queue) is None,
        ensures
            link.well_formed(),
            link@.counters == LinkCounters::zero(),
            link@.last_id == 0,
            link@.notes == Seq::<LinkNote>::empty(),
            link@.default_queue == default_queue,
            link@.default_retry == default_retry,
            link@.policy == command_policy,
            link@.routing == command_routing,
            link@.queues == fresh_queues(layout@),
    {
        proof {
            lemma_valid_layout_is_distinct(layout@, default_queue);
        }
        let link = LinkClient {
            queues: QueueSet::new(layout),
            events: Vec::new(),
            counters: LinkCounters {
                started: 0,
                completed: 0,
                failed: 0,
                cancelled: 0,
                coalesced: 0,
                denied: 0,
            },
            last_id: 0,
            default_queue,
            default_retry,
            command_policy,
            command_routing,
        };
        assert(link@.notes =~= Seq::<LinkNote>::empty());
        assert(link@.queues =~= fresh_queues(layout@));
        assert(link@.queues.has(default_queue)) by {
            let at = choose|at: int|
                0 <= at < layout@.len() && (#[trigger] layout@[at]).name() == default_queue;
            assert(link@.queues.slots[at].id == default_queue);
        }
        link
    }

    /// Returns a handle permanently bound to one configured queue.
    pub fn queue(&self, queue: QueueId) -> (result: Result<QueueClient, QueueError>)
        requires
            self.well_formed(),
        ensures
            if self@.queues.has(queue) {
                result matches Ok(client) && client.bound_to() == queue
            } else {
                result == Err::<QueueClient, QueueError>(QueueError::Unknown(queue))
            },
    {
        if !self.queues.contains(queue) {
            return Err(QueueError::Unknown(queue));
        }
        Ok(QueueClient { queue })
    }

    /// Returns a handle bound to the queue selected as the link default.
    pub fn default_queue(&self) -> (client: QueueClient)
        ensures
            client.bound_to() == self@.default_queue,
    {
        QueueClient { queue: self.default_queue }
    }

    /// Returns the default queue identifier.
    pub fn default_queue_id(&self) -> (queue: QueueId)
        ensures
            queue == self@.default_queue,
    {
        self.default_queue
    }

    /// Returns the queue of the requests of a priority: its own, or the default
    /// one on a link that does not tell priorities apart.
    pub fn priority_queue(&self, priority: Priority) -> (queue: QueueId)
        requires
            self.well_formed(),
        ensures
            queue == self@.lane_of(priority),
            self@.queues.has(queue),
    {
        let queue = priority.queue();
        if self.queues.contains(queue) {
            queue
        } else {
            self.default_queue
        }
    }

    /// Returns the retry policy used by convenience operations.
    pub fn default_retry(&self) -> (policy: RetryPolicy)
        ensures
            policy == self@.default_retry,
    {
        self.default_retry
    }

    /// Returns one queue's current scheduling policy.
    pub fn queue_priority(&self, queue: QueueId) -> (result: Result<QueuePriority, QueueError>)
        requires
            self.well_formed(),
        ensures
            result == if self@.queues.has(queue) {
                Ok::<QueuePriority, QueueError>(self@.queues.slot(queue).priority)
            } else {
                Err::<QueuePriority, QueueError>(QueueError::Unknown(queue))
            },
    {
        self.queues.priority(queue)
    }

    /// Changes one queue's scheduling policy.
    ///
    /// The in-flight exchange is not interrupted. The next scheduling decision observes the
    /// new policy. Strict priority is intentionally allowed to starve weighted queues.
    pub fn set_queue_priority(&mut self, queue: QueueId, priority: QueuePriority) -> (result:
        Result<(), QueueError>)
        requires
            old(self).well_formed(),
        ensures
            final(self).well_formed(),
            if old(self)@.queues.has(queue) {
                result == Ok::<(), QueueError>(()) && final(self)@ == old(self)@.with_queues(
                    old(self)@.queues.with_priority(queue, priority),
                )
            } else {
                result == Err::<(), QueueError>(QueueError::Unknown(queue)) && final(self)@
                    == old(self)@
            },
    {
        let ghost before = self@;
        let result = self.queues.set_priority(queue, priority);
        proof {
            lemma_same_queues(before.queues, self@.queues, self@.default_queue);
        }
        result
    }

    /// Assigns a starvation-free weighted quota to one queue.
    pub fn set_queue_weight(&mut self, queue: QueueId, weight: u16) -> (result: Result<
        (),
        QueueError,
    >)
        requires
            old(self).well_formed(),
        ensures
            final(self).well_formed(),
            if weight == 0 {
                result == Err::<(), QueueError>(QueueError::ZeroWeight)
                    && final(self)@ == old(self)@
            } else if old(self)@.queues.has(queue) {
                result == Ok::<(), QueueError>(()) && exists|priority: QueuePriority|
                    priority.weighs(weight) && final(self)@ == old(self)@.with_queues(
                        #[trigger] old(self)@.queues.with_priority(queue, priority),
                    )
            } else {
                result == Err::<(), QueueError>(QueueError::Unknown(queue)) && final(self)@
                    == old(self)@
            },
    {
        let ghost before = self@;
        let result = self.queues.set_weight(queue, weight);
        proof {
            lemma_same_queues(before.queues, self@.queues, self@.default_queue);
        }
        result
    }

    /// Returns one independently bounded queue snapshot.
    pub fn queue_snapshot(&self, queue: QueueId) -> (result: Result<QueueSnapshot, QueueError>)
        requires
            self.well_formed(),
        ensures
            match result {
                Ok(snapshot) => self@.queues.has(queue) && snapshot_of(
                    snapshot,
                    self@.queues.slot(queue),
                ),
                Err(error) => !self@.queues.has(queue) && error == QueueError::Unknown(queue),
            },
    {
        self.queues.snapshot(queue)
    }

    /// Returns snapshots for every configured queue in scheduling order.
    pub fn queue_snapshots(&self) -> (snapshots: Vec<QueueSnapshot>)
        requires
            self.well_formed(),
        ensures
            snapshots@.len() == self@.queues.slots.len(),
            forall|index: int|
                0 <= index < snapshots@.len() ==> snapshot_of(
                    #[trigger] snapshots@[index],
                    self@.queues.slots[index],
                ),
    {
        self.queues.snapshots()
    }

    /// Returns the queue that a request gets to when it asks for one.
    pub fn resolve_queue(
        &self,
        request: &Request,
        requested: QueueId,
        decisions: &Decisions,
    ) -> (result: Result<QueueId, StartError>)
        requires
            self.well_formed(),
        ensures
            result == self@.resolution(request@, requested, decisions.routes@),
    {
        if !self.queues.contains(requested) {
            return Err(StartError::UnknownQueue(requested));
        }
        let queue = self.command_routing.route(CommandContext::new(request, requested), decisions);
        if !self.queues.contains(queue) {
            return Err(StartError::UnknownQueue(queue));
        }
        Ok(queue)
    }

    fn make_job(
        &mut self,
        request: Request,
        transmit_prefix: Vec<u8>,
        queue: QueueId,
        policy: RetryPolicy,
        now: Duration,
        decisions: &Decisions,
    ) -> (result: Result<Job, StartError>)
        requires
            old(self).well_formed(),
        ensures
            final(self).well_formed(),
            match old(self)@.admission_error(
                request@,
                transmit_prefix@,
                queue,
                policy,
                now,
                decisions.verdicts@,
            ) {
                Some(error) => result == Err::<Job, StartError>(error)
                    && final(self)@ == old(self)@.refusing(error),
                None => result matches Ok(job) && job@ == old(self)@.job(
                    request@,
                    transmit_prefix@,
                    policy,
                    now,
                ) && job.request == request && final(self)@ == old(self)@.numbering(),
            },
    {
        if let Err(error) = policy.validate_runtime(now) {
            return Err(StartError::RetryPolicy(error));
        }
        if let Err(error) = request.validate() {
            return Err(StartError::Operation(error));
        }
        let context = CommandContext::new(&request, queue);
        let safety = context.safety;
        if !self.command_policy.admits(context, decisions) {
            self.counters.denied = roll(self.counters.denied);
            let command: u16 = request.command.get();
            self.note(LinkEvent::Denied { command, safety, queue });
            return Err(StartError::CommandDenied { command, safety, queue });
        }
        let length: usize = transmit_prefix.len();
        if length > MAXIMUM_TRANSMIT_PREFIX {
            return Err(StartError::TransmitPrefix(length));
        }
        self.last_id = roll(self.last_id);
        let deadline = match deadline_after(now, policy.total_timeout) {
            Some(deadline) => deadline,
            None => Duration::maximum(),
        };
        Ok(Job { id: self.last_id, request, transmit_prefix, policy, deadline })
    }

    /// Admits a request with bytes transmitted immediately before its frame
    /// and tells which queue is to take it.
    pub fn prepare_start(
        &mut self,
        request: Request,
        transmit_prefix: Vec<u8>,
        queue: QueueId,
        policy: RetryPolicy,
        now: Duration,
        decisions: &Decisions,
    ) -> (result: Result<(QueueId, Job), StartError>)
        requires
            old(self).well_formed(),
        ensures
            final(self).well_formed(),
            match old(self)@.resolution(request@, queue, decisions.routes@) {
                Err(error) => result == Err::<(QueueId, Job), StartError>(error) && final(self)@
                    == old(self)@,
                Ok(target) => match old(self)@.admission_error(
                    request@,
                    transmit_prefix@,
                    target,
                    policy,
                    now,
                    decisions.verdicts@,
                ) {
                    Some(error) => result == Err::<(QueueId, Job), StartError>(error)
                        && final(self)@ == old(self)@.refusing(error),
                    None => result matches Ok((found, job)) && found == target
                        && job@ == old(self)@.job(request@, transmit_prefix@, policy, now)
                        && job.request == request
                        && final(self)@ == old(self)@.numbering(),
                },
            },
    {
        let target = self.resolve_queue(&request, queue, decisions)?;
        let job = self.make_job(request, transmit_prefix, target, policy, now, decisions)?;
        Ok((target, job))
    }

    /// Offers an admitted request to its queue. Without room the request waits
    /// until its deadline.
    pub fn enqueue(&mut self, queue: QueueId, job: Job, now: Duration) -> (step: EnqueueStep)
        requires
            old(self).well_formed(),
        ensures
            final(self).well_formed(),
            match old(self)@.queues.refusal(queue) {
                None => step == EnqueueStep::Queued(PendingReply { id: job.id }) && final(self)@
                    == old(self)@.queueing(queue, job),
                Some(QueuePushError::Full) => final(self)@ == old(self)@ && step == if now.nanos
                    >= job.deadline.nanos {
                    EnqueueStep::Refused(StartError::Deadline)
                } else {
                    EnqueueStep::Waiting(job)
                },
                Some(error) => final(self)@ == old(self)@ && step == EnqueueStep::Refused(
                    push_failure(error),
                ),
            },
    {
        match self.queues.push_refusal(queue) {
            None => {
                let id: u64 = job.id;
                match self.push(queue, job) {
                    Ok(()) => EnqueueStep::Queued(PendingReply { id }),
                    Err(error) => EnqueueStep::Refused(error),
                }
            },
            Some(QueuePushError::Full) => {
                if now.nanos >= job.deadline.nanos {
                    EnqueueStep::Refused(StartError::Deadline)
                } else {
                    EnqueueStep::Waiting(job)
                }
            },
            Some(error) => EnqueueStep::Refused(map_queue_push_error(error)),
        }
    }

    fn push(&mut self, queue: QueueId, job: Job) -> (result: Result<(), StartError>)
        requires
            old(self).well_formed(),
        ensures
            final(self).well_formed(),
            match old(self)@.queues.refusal(queue) {
                None => result == Ok::<(), StartError>(()) && final(self)@ == old(self)@.queueing(
                    queue,
                    job,
                ),
                Some(error) => result == Err::<(), StartError>(push_failure(error))
                    && final(self)@ == old(self)@,
            },
    {
        let ghost before = self@;
        let id: u64 = job.id;
        let command = job.request.command;
        match self.queues.try_push(queue, job) {
            Ok(()) => {
                proof {
                    lemma_same_queues(before.queues, self@.queues, self@.default_queue);
                }
                self.note(LinkEvent::Queued { id, command, queue });
                Ok(())
            },
            Err(error) => Err(map_queue_push_error(error)),
        }
    }

    /// Attempts to enqueue without waiting for queue capacity.
    pub fn try_start(
        &mut self,
        request: Request,
        queue: QueueId,
        policy: RetryPolicy,
        now: Duration,
        decisions: &Decisions,
    ) -> (result: Result<PendingReply, StartError>)
        requires
            old(self).well_formed(),
        ensures
            final(self).well_formed(),
            started(old(self)@, request@, queue, policy, now, decisions, result, final(self)@),
    {
        let ghost before = self@;
        let (target, job) = self.prepare_start(
            request,
            Vec::new(),
            queue,
            policy,
            now,
            decisions,
        )?;
        let ghost taken = job;
        let id: u64 = job.id;
        self.push(target, job)?;
        assert(self@.queues.slot(target).entries.last() == taken) by {
            self.queues.lemma_consistent();
            lemma_pushed_slot(before.queues, target, taken);
        }
        Ok(PendingReply { id })
    }

    /// Attempts to enqueue immediately using the configured defaults.
    pub fn try_start_default(&mut self, request: Request, now: Duration, decisions: &Decisions) -> (result:
        Result<PendingReply, StartError>)
        requires
            old(self).well_formed(),
        ensures
            final(self).well_formed(),
            started(
                old(self)@,
                request@,
                old(self)@.default_queue,
                old(self)@.default_retry,
                now,
                decisions,
                result,
                final(self)@,
            ),
    {
        let queue = self.default_queue;
        let policy = self.default_retry;
        self.try_start(request, queue, policy, now, decisions)
    }

    /// Returns aggregate counters.
    pub fn snapshot(&self) -> (snapshot: LinkSnapshot)
        requires
            self.well_formed(),
        ensures
            snapshot.queued == self@.queues.pending(self@.queues.slots.len() as int),
            snapshot.started == self@.counters.started,
            snapshot.completed == self@.counters.completed,
            snapshot.failed == self@.counters.failed,
            snapshot.cancelled == self@.counters.cancelled,
            snapshot.coalesced == self@.counters.coalesced,
            snapshot.denied == self@.counters.denied,
    {
        LinkSnapshot {
            queued: self.queues.pending_total(),
            started: self.counters.started,
            completed: self.counters.completed,
            failed: self.counters.failed,
            cancelled: self.counters.cancelled,
            coalesced: self.counters.coalesced,
            denied: self.counters.denied,
        }
    }

    /// Takes out the events that observers have not been told yet.
    pub fn take_events(&mut self) -> (events: Vec<LinkEvent>)
        requires
            old(self).well_formed(),
        ensures
            final(self).well_formed(),
            event_notes(events@) == old(self)@.notes,
            final(self)@ == (LinkView { notes: Seq::empty(), ..old(self)@ }),
    {
        let mut events: Vec<LinkEvent> = Vec::new();
        std::mem::swap(&mut events, &mut self.events);
        assert(event_notes(self.events@) =~= Seq::<LinkNote>::empty());
        events
    }

    /// Takes over that every client is gone.
    pub fn close_input(&mut self)
        requires
            old(self).well_formed(),
        ensures
            final(self).well_formed(),
            final(self)@ == old(self)@.with_queues(
                QueueSetView { input_closed: true, ..old(self)@.queues },
            ),
    {
        let ghost before = self@;
        self.queues.close_input();
        proof {
            lemma_same_queues(before.queues, self@.queues, self@.default_queue);
        }
    }

    /// Reports whether every client is gone.
    pub fn input_closed(&self) -> (closed: bool)
        ensures
            closed == self@.queues.input_closed,
    {
        self.queues.input_closed()
    }

    pub(crate) fn note(&mut self, event: LinkEvent)
        ensures
            final(self)@ == old(self)@.noting(event@),
            final(self).well_formed() == old(self).well_formed(),
    {
        let ghost before = self@;
        self.events.push(event);
        assert(self@.notes =~= before.notes.push(event@));
    }

    pub(crate) fn mark_cancelled(&mut self, id: u64)
        ensures
            final(self)@ == old(self)@.cancelling(id),
            final(self).well_formed() == old(self).well_formed(),
    {
        self.counters.cancelled = roll(self.counters.cancelled);
        self.note(LinkEvent::Cancelled { id });
    }

    pub(crate) fn mark_completed(&mut self, id: u64)
        ensures
            final(self)@ == old(self)@.completing(id),
            final(self).well_formed() == old(self).well_formed(),
    {
        self.counters.completed = roll(self.counters.completed);
        self.note(LinkEvent::Completed { id });
    }

    pub(crate) fn mark_failed(&mut self, id: u64, error: &ExchangeError)
        ensures
            final(self)@ == old(self)@.failing(id, *error),
            final(self).well_formed() == old(self).well_formed(),
    {
        self.counters.failed = roll(self.counters.failed);
        let reason = error.reason();
        self.note(LinkEvent::Failed { id, reason });
    }

    pub(crate) fn mark_coalesced(&mut self, id: u64, leader_id: u64)
        ensures
            final(self)@ == old(self)@.coalescing(id, leader_id),
            final(self).well_formed() == old(self).well_formed(),
    {
        self.counters.coalesced = roll(self.counters.coalesced);
        self.note(LinkEvent::Coalesced { id, leader_id });
    }

    pub(crate) fn mark_started(&mut self, id: u64, command: CommandCode)
        ensures
            final(self)@ == old(self)@.starting(id, command),
            final(self).well_formed() == old(self).well_formed(),
    {
        self.counters.started = roll(self.counters.started);
        self.note(LinkEvent::Started { id, command });
    }

    pub(crate) fn pop_scheduled(&mut self, cursor: &mut QueueCursor) -> (item: Option<
        (QueueId, Job),
    >)
        requires
            old(self).well_formed(),
            on_ring(old(self)@.queues.slots, *old(cursor)),
        ensures
            final(self).well_formed(),
            on_ring(final(self)@.queues.slots, *final(cursor)),
            match next_turn(old(self)@.queues.slots, *old(cursor)) {
                Some((index, after)) => {
                    let slot = old(self)@.queues.slots[index];
                    &&& 0 <= index < old(self)@.queues.slots.len()
                    &&& slot.entries.len() > 0
                    &&& item == Some((slot.id, slot.entries[0]))
                    &&& final(self)@ == old(self)@.with_queues(old(self)@.queues.popping(index))
                    &&& *final(cursor) == after
                },
                None => item is None && final(self)@ == old(self)@
                    && *final(cursor) == *old(cursor),
            },
    {
        let ghost before = self@;
        let item = self.queues.pop_scheduled(cursor);
        proof {
            lemma_same_queues(before.queues, self@.queues, self@.default_queue);
        }
        item
    }

    pub(crate) fn pop_from(&mut self, queue: QueueId) -> (item: Option<Job>)
        requires
            old(self).well_formed(),
        ensures
            final(self).well_formed(),
            if old(self)@.queues.has(queue) && old(self)@.queues.slot(queue).entries.len() > 0 {
                item == Some(old(self)@.queues.slot(queue).entries[0])
                    && final(self)@ == old(self)@.with_queues(
                    old(self)@.queues.popping(old(self)@.queues.position(queue)->0),
                )
            } else {
                item is None && final(self)@ == old(self)@
            },
    {
        let ghost before = self@;
        let item = self.queues.pop_from(queue);
        proof {
            lemma_same_queues(before.queues, self@.queues, self@.default_queue);
        }
        item
    }

    pub(crate) fn push_front(&mut self, queue: QueueId, job: Job)
        requires
            old(self).well_formed(),
            old(self)@.queues.has(queue),
            old(self)@.queues.in_flight(queue) > 0,
        ensures
            final(self).well_formed(),
            final(self)@ == old(self)@.with_queues(old(self)@.queues.returning(queue, job)),
    {
        let ghost before = self@;
        self.queues.push_front(queue, job);
        proof {
            lemma_same_queues(before.queues, self@.queues, self@.default_queue);
        }
    }

    pub(crate) fn finish_entry(&mut self, queue: QueueId)
        requires
            old(self).well_formed(),
            old(self)@.queues.has(queue),
            old(self)@.queues.in_flight(queue) > 0,
        ensures
            final(self).well_formed(),
            final(self)@ == old(self)@.with_queues(old(self)@.queues.finishing(queue)),
    {
        let ghost before = self@;
        self.queues.finish_entry(queue);
        proof {
            lemma_same_queues(before.queues, self@.queues, self@.default_queue);
        }
    }

    pub(crate) fn close_runner(&mut self)
        requires
            old(self).well_formed(),
        ensures
            final(self).well_formed(),
            final(self)@ == old(self)@.with_queues(
                QueueSetView { runner_closed: true, ..old(self)@.queues },
            ),
    {
        let ghost before = self@;
        self.queues.close_runner();
        proof {
            lemma_same_queues(before.queues, self@.queues, self@.default_queue);
        }
    }
}

/// What an attempt to enqueue does and says.
pub open spec fn started(
    before: LinkView,
    request: RequestView,
    queue: QueueId,
    policy: RetryPolicy,
    now: Duration,
    decisions: &Decisions,
    result: Result<PendingReply, StartError>,
    after: LinkView,
) -> bool {
    match before.resolution(request, queue, decisions.routes@) {
        Err(error) => result == Err::<PendingReply, StartError>(error) && after == before,
        Ok(target) => match before.admission_error(
            request,
            Seq::empty(),
            target,
            policy,
            now,
            decisions.verdicts@,
        ) {
            Some(error) => result == Err::<PendingReply, StartError>(error) && after
                == before.refusing(error),
            None => match before.queues.refusal(target) {
                Some(error) => result == Err::<PendingReply, StartError>(push_failure(error))
                    && after == before.numbering(),
                None => {
                    let job = after.queues.slot(target).entries.last();
                    &&& result == Ok::<PendingReply, StartError>(PendingReply { id: job.id })
                    &&& job@ == before.job(request, Seq::empty(), policy, now)
                    &&& after == before.numbering().queueing(target, job)
                },
            },
        },
    }
}

/// A request that its policy rejects takes no room in any queue and gets no
/// identifier.
pub proof fn lemma_denied_request_changes_no_queue(link: LinkView, error: StartError)
    ensures
        link.refusing(error).queues == link.queues,
        link.refusing(error).last_id == link.last_id,
{
}

/// What a snapshot says of a queue.
pub open spec fn snapshot_of(snapshot: QueueSnapshot, slot: SlotView<Job>) -> bool {
    &&& snapshot.id == slot.id
    &&& snapshot.capacity == slot.capacity
    &&& snapshot.queued == slot.queued
    &&& snapshot.priority == slot.priority
}

/// The queues of a layout before anything was queued.
pub open spec fn fresh_queues(layout: Seq<QueueConfig>) -> QueueSetView<Job> {
    QueueSetView {
        slots: Seq::new(
            layout.len(),
            |index: int|
                SlotView {
                    id: layout[index].name(),
                    capacity: layout[index].room(),
                    priority: layout[index].policy(),
                    queued: 0nat,
                    entries: Seq::<Job>::empty(),
                },
        ),
        input_closed: false,
        runner_closed: false,
    }
}

proof fn lemma_same_queues(before: QueueSetView<Job>, after: QueueSetView<Job>, id: QueueId)
    requires
        before.slots.len() == after.slots.len(),
        forall|index: int|
            0 <= index < before.slots.len() ==> (#[trigger] after.slots[index]).id
                == before.slots[index].id,
    ensures
        after.has(id) == before.has(id),
{
    if before.has(id) {
        let index = before.position(id)->0;
        assert(after.slots[index].id == id);
    }
    if after.has(id) {
        let index = after.position(id)->0;
        assert(after.slots[index].id == before.slots[index].id);
    }
}

proof fn lemma_pushed_slot(queues: QueueSetView<Job>, id: QueueId, job: Job)
    requires
        queues.has(id),
        queues.pushing(id, job).consistent(),
    ensures
        queues.pushing(id, job).slot(id).entries.last() == job,
{
    let after = queues.pushing(id, job);
    let index = queues.position(id)->0;
    assert(after.slots[index].id == id);
    let found = after.position(id)->0;
    if found < index {
        assert(after.slots[found].id != after.slots[index].id);
    } else if index < found {
        assert(after.slots[index].id != after.slots[found].id);
    }
}

/// Handle permanently bound to one configured queue.
#[derive(Debug, Clone, Copy, PartialEq, Eq, Structural)]
pub struct QueueClient {
    queue: QueueId,
}

impl QueueClient {
    /// The queue of the handle.
    pub closed spec fn bound_to(self) -> QueueId {
        self.queue
    }

    /// Returns this handle's queue identifier.
    pub fn id(&self) -> (queue: QueueId)
        ensures
            queue == self.bound_to(),
    {
        self.queue
    }

    /// Returns this queue's live state, where the queue belongs to the link.
    pub fn snapshot(&self, link: &LinkClient) -> (result: Result<QueueSnapshot, QueueError>)
        requires
            link.well_formed(),
        ensures
            match result {
                Ok(snapshot) => link@.queues.has(self.bound_to()) && snapshot_of(
                    snapshot,
                    link@.queues.slot(self.bound_to()),
                ),
                Err(error) => !link@.queues.has(self.bound_to()) && error == QueueError::Unknown(
                    self.bound_to(),
                ),
            },
    {
        link.queue_snapshot(self.queue)
    }

    /// Replaces this queue's scheduling policy.
    pub fn set_priority(&self, link: &mut LinkClient, priority: QueuePriority) -> (result: Result<
        (),
        QueueError,
    >)
        requires
            old(link).well_formed(),
        ensures
            final(link).well_formed(),
            if old(link)@.queues.has(self.bound_to()) {
                result == Ok::<(), QueueError>(()) && final(link)@ == old(link)@.with_queues(
                    old(link)@.queues.with_priority(self.bound_to(), priority),
                )
            } else {
                result == Err::<(), QueueError>(QueueError::Unknown(self.bound_to()))
                    && final(link)@ == old(link)@
            },
    {
        link.set_queue_priority(self.queue, priority)
    }

    /// Moves this queue into starvation-free weighted scheduling.
    pub fn set_weight(&self, link: &mut LinkClient, weight: u16) -> (result: Result<
        (),
        QueueError,
    >)
        requires
            old(link).well_formed(),
        ensures
            final(link).well_formed(),
            if weight == 0 {
                result == Err::<(), QueueError>(QueueError::ZeroWeight)
                    && final(link)@ == old(link)@
            } else if old(link)@.queues.has(self.bound_to()) {
                result == Ok::<(), QueueError>(()) && exists|priority: QueuePriority|
                    priority.weighs(weight) && final(link)@ == old(link)@.with_queues(
                        #[trigger] old(link)@.queues.with_priority(self.bound_to(), priority),
                    )
            } else {
                result == Err::<(), QueueError>(QueueError::Unknown(self.bound_to()))
                    && final(link)@ == old(link)@
            },
    {
        link.set_queue_weight(self.queue, weight)
    }

    /// Enqueues immediately without waiting for capacity.
    pub fn try_start(
        &self,
        link: &mut LinkClient,
        request: Request,
        policy: RetryPolicy,
        now: Duration,
        decisions: &Decisions,
    ) -> (result: Result<PendingReply, StartError>)
        requires
            old(link).well_formed(),
        ensures
            final(link).well_formed(),
            started(
                old(link)@,
                request@,
                self.bound_to(),
                policy,
                now,
                decisions,
                result,
                final(link)@,
            ),
    {
        link.try_start(request, self.queue, policy, now, decisions)
    }
}

/// A request waits for a place only in a queue that is full and only before
/// its deadline; every other refusal ends it. A request that is queued is
/// known under its own number.
pub proof fn lemma_request_waits_for_a_place(
    link: &mut LinkClient,
    queue: QueueId,
    job: Job,
    now: Duration,
    step: EnqueueStep,
)
    requires
        call_ensures(LinkClient::enqueue, (link, queue, job, now), step),
    ensures
        step matches EnqueueStep::Waiting(kept) ==> kept == job && now.nanos < job.deadline.nanos
            && old(link)@.queues.refusal(queue) is Some && old(link)@.queues.slot(queue).queued
            >= old(link)@.queues.slot(queue).capacity,
        step matches EnqueueStep::Queued(pending) ==> pending.id == job.id
            && old(link)@.queues.has(queue) && !old(link)@.queues.runner_closed
            && old(link)@.queues.slot(queue).queued < old(link)@.queues.slot(queue).capacity,
        !(step is Queued) ==> final(link)@ == old(link)@,
        !old(link)@.queues.has(queue) ==> step == EnqueueStep::Refused(
            StartError::UnknownQueue(queue),
        ),
{
}

} // verus!
