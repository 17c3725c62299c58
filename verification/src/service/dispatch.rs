//! What holds of starting, sharing, finishing and dropping requests, and of
//! messages that nobody asked for.

use vstd::prelude::*;

use crate::catalog::{lemma_registered_commands, OperationSafety};
use crate::channel::ChannelError;
use crate::operation::{CommandCode, DeviceReply, ReplyView, RequestView};
use crate::ordered::KeySet;
use crate::service::burst::{
    published, reserved_slots, BurstConfig, BurstKey, BurstPublishError, BurstView, Delivery,
    MessageView, Publication, MAXIMUM_BURST_SUBSCRIPTION_CAPACITY,
};
use crate::service::event::{push_failure, ExchangeError, LinkNote, StartError};
use crate::service::exchange::{answered_with, failed_with, ExchangeStep, Job, JobView};
use crate::service::link::{
    fresh_queues, snapshot_of, started, LinkClient, LinkCounters, LinkView, PendingReply,
    MAXIMUM_TRANSMIT_PREFIX,
};
use crate::service::policy::{effective_safety, CommandPolicy, CommandRouting, Decisions};
use crate::service::priority::Priority;
use crate::service::queue_set::{
    lemma_position, lemma_push_appends, lemma_served_queue_has_work, next_turn, QueueConfig, QueueId, QueuePriority, QueuePushError,
    QueueSetView, QueueSnapshot, SlotView,
};
use crate::service::retry::RetryPolicy;
use crate::service::runner::{
    completing_all, delivered, emptied, follower_notices, gather, gathering, idle_input,
    joining_room, leader_notice, lemma_followers_are_identical, notice_views, read_failure,
    receives, requeueing, routed, selects, stop_notices, stopping, waiting, Gathered, IdleInput,
    LinkRunner, NextJob, Notice, NoticeView, ReceiveOutcome, SendOutcome,
};
use crate::time::{Duration, MAXIMUM_NANOSECONDS};

verus! {

/// A request that is started waits at the end of its queue, with the next
/// number, with a deadline that lies its whole time after now, and as it was given.
/// No other queue changes and one notice is added.
pub proof fn lemma_started_request_waits(
    before: LinkView,
    request: RequestView,
    queue: QueueId,
    policy: RetryPolicy,
    now: Duration,
    decisions: &Decisions,
    pending: PendingReply,
    after: LinkView,
    other: int,
)
    requires
        before.queues.consistent(),
        started(before, request, queue, policy, now, decisions, Ok(pending), after),
        0 <= other < before.queues.slots.len(),
        before.queues.slots[other].id != before.routing.routed(
            request.command,
            queue,
            decisions.routes@,
        ),
    ensures
        ({
            let target = before.routing.routed(request.command, queue, decisions.routes@);
            let at = before.queues.position(target)->0;
            let waiting = after.queues.slots[at].entries;
            &&& 0 <= at < before.queues.slots.len()
            &&& before.queues.slots[at].id == target
            &&& before.queues.slots[at].queued < before.queues.slots[at].capacity
            &&& waiting.len() == before.queues.slots[at].entries.len() + 1
            &&& waiting.take(waiting.len() - 1) == before.queues.slots[at].entries
            &&& waiting.last()@.request == request
            &&& waiting.last()@.transmit_prefix.len() == 0
            &&& waiting.last()@.policy == policy
            &&& waiting.last()@.deadline.nanos == now.nanos + policy.total_timeout.nanos
            &&& waiting.last()@.id == pending.id
            &&& before.last_id < u64::MAX ==> pending.id == before.last_id + 1
            &&& after.last_id == pending.id
            &&& after.queues.slots[at].queued == before.queues.slots[at].queued + 1
            &&& after.queues.slots[other] == before.queues.slots[other]
            &&& after.counters == before.counters
            &&& after.notes == before.notes.push(
                LinkNote::Queued { id: pending.id, command: request.command, queue: target },
            )
        }),
{
    let target = before.routing.routed(request.command, queue, decisions.routes@);
    let at = before.queues.position(target)->0;
    let job = after.queues.slot(target).entries.last();
    lemma_position(before.queues, at);
    lemma_push_appends(before.queues, at, job, other);
    let waiting = after.queues.slots[at].entries;
    assert(waiting.take(waiting.len() - 1) =~= before.queues.slots[at].entries);
}

/// A request is started exactly when the queue that was named and the queue
/// that it is routed to exist, its retry limits fit the clock, it fits into a
/// frame, the policy admits its command to that queue, the runner is there and
/// the queue has a place. Otherwise no queue changes.
pub proof fn lemma_request_is_started(
    before: LinkView,
    request: RequestView,
    queue: QueueId,
    policy: RetryPolicy,
    now: Duration,
    decisions: &Decisions,
    result: Result<PendingReply, StartError>,
    after: LinkView,
)
    requires
        started(before, request, queue, policy, now, decisions, result, after),
    ensures
        ({
            let target = before.routing.routed(request.command, queue, decisions.routes@);
            let known = before.queues.has(queue) && before.queues.has(target);
            let admitted = before.policy.admitted(
                request.command,
                target,
                decisions.verdicts@,
            );
            &&& (result is Ok <==> known && policy.runtime_violation(now) is None
                && request.frame().payload.len() <= 255 && request.frame_expansion.len() <= 3
                && admitted && !before.queues.runner_closed && before.queues.slot(target).queued
                < before.queues.slot(target).capacity)
            &&& (result is Err ==> after.queues == before.queues)
            &&& (!before.queues.has(queue) ==> result == Err::<PendingReply, StartError>(
                StartError::UnknownQueue(queue),
            ))
            &&& (known && policy.runtime_violation(now) is None && request.size_error() is None
                && !admitted ==> (result matches Err(StartError::CommandDenied {
                command,
                queue: at,
                ..
            }) && command == request.command.0 && at == target) && after.notes.len()
                == before.notes.len() + 1)
            &&& (result is Err && !(result->Err_0 is CommandDenied) ==> after.notes
                == before.notes && after.counters == before.counters)
            &&& (known && policy.runtime_violation(now) is None && request.size_error() is None
                && admitted && before.queues.runner_closed ==> result == Err::<
                PendingReply,
                StartError,
            >(StartError::Closed))
            &&& (known && policy.runtime_violation(now) is None && request.size_error() is None
                && admitted && !before.queues.runner_closed && before.queues.slot(target).queued
                >= before.queues.slot(target).capacity ==> result == Err::<PendingReply, StartError>(
                StartError::Full,
            ))
        }),
{
}

/// Retry limits fit exactly when the two timeouts are more than zero, all
/// three times are at most a day, and each ends while the clock still runs.
pub proof fn lemma_retry_limits(policy: RetryPolicy, now: Duration)
    ensures
        policy.runtime_violation(now) is None <==> policy.response_timeout.nanos > 0
            && policy.total_timeout.nanos > 0 && policy.response_timeout.nanos
            <= 86_400_000_000_000 && policy.total_timeout.nanos <= 86_400_000_000_000
            && policy.retry_delay.nanos <= 86_400_000_000_000 && now.nanos
            + policy.response_timeout.nanos <= MAXIMUM_NANOSECONDS && now.nanos
            + policy.total_timeout.nanos <= MAXIMUM_NANOSECONDS && now.nanos
            + policy.retry_delay.nanos <= MAXIMUM_NANOSECONDS,
        policy.violation() is None <==> policy.response_timeout.nanos > 0
            && policy.total_timeout.nanos > 0,
{
}

/// A policy that combines two others with `and` admits what both admit, with
/// `or` what either admits. A list admits exactly its commands, a denial list
/// everything else, and a list for one queue binds that queue only.
pub proof fn lemma_policies(
    first: CommandPolicy,
    second: CommandPolicy,
    commands: Vec<CommandCode>,
    restricted: QueueId,
    command: CommandCode,
    queue: QueueId,
    verdicts: Seq<bool>,
)
    ensures
        CommandPolicy::And(Box::new(first), Box::new(second)).admitted(command, queue, verdicts)
            <==> first.admitted(command, queue, verdicts) && second.admitted(
            command,
            queue,
            verdicts,
        ),
        CommandPolicy::Or(Box::new(first), Box::new(second)).admitted(command, queue, verdicts)
            <==> first.admitted(command, queue, verdicts) || second.admitted(
            command,
            queue,
            verdicts,
        ),
        CommandPolicy::AllowAll.admitted(command, queue, verdicts),
        CommandPolicy::AllowCommands(commands).admitted(command, queue, verdicts)
            <==> commands@.contains(command),
        CommandPolicy::DenyCommands(commands).admitted(command, queue, verdicts)
            <==> !commands@.contains(command),
        queue != restricted ==> CommandPolicy::QueueAllowlist(restricted, commands).admitted(
            command,
            queue,
            verdicts,
        ),
        CommandPolicy::QueueAllowlist(queue, commands).admitted(command, queue, verdicts)
            <==> commands@.contains(command),
        CommandPolicy::ReadOnly.admitted(command, queue, verdicts)
            ==> CommandPolicy::RetrySafe.admitted(command, queue, verdicts),
{
    reveal_with_fuel(CommandPolicy::admitted, 3);
}

/// A routing that keeps the named queue keeps it; one for listed commands moves
/// exactly those.
pub proof fn lemma_routings(
    commands: Vec<CommandCode>,
    command: CommandCode,
    target: QueueId,
    requested: QueueId,
    routes: Seq<QueueId>,
)
    ensures
        CommandRouting::PreserveRequested.routed(command, requested, routes) == requested,
        commands@.contains(command) ==> CommandRouting::CommandsTo(target, commands).routed(
            command,
            requested,
            routes,
        ) == target,
        !commands@.contains(command) ==> CommandRouting::CommandsTo(target, commands).routed(
            command,
            requested,
            routes,
        ) == requested,
{
}

/// Each outcome of a request adds one to its own counter, leaves the others
/// alone and adds one notice that names the request.
pub proof fn lemma_outcomes_are_counted(link: LinkView, id: u64, error: ExchangeError)
    requires
        link.counters.started < u64::MAX,
        link.counters.completed < u64::MAX,
        link.counters.failed < u64::MAX,
        link.counters.cancelled < u64::MAX,
    ensures
        link.completing(id).counters.completed == link.counters.completed + 1,
        link.completing(id).counters.failed == link.counters.failed,
        link.completing(id).counters.cancelled == link.counters.cancelled,
        link.completing(id).counters.started == link.counters.started,
        link.completing(id).notes == link.notes.push(LinkNote::Completed { id }),
        link.failing(id, error).counters.failed == link.counters.failed + 1,
        link.failing(id, error).counters.completed == link.counters.completed,
        link.failing(id, error).counters.cancelled == link.counters.cancelled,
        link.failing(id, error).counters.started == link.counters.started,
        link.failing(id, error).notes.len() == link.notes.len() + 1,
        link.failing(id, error).notes.last() matches LinkNote::Failed { id: named, .. } && named
            == id,
        link.cancelling(id).counters.cancelled == link.counters.cancelled + 1,
        link.cancelling(id).counters.failed == link.counters.failed,
        link.cancelling(id).counters.completed == link.counters.completed,
        link.cancelling(id).counters.started == link.counters.started,
        link.cancelling(id).notes == link.notes.push(LinkNote::Cancelled { id }),
        link.completing(id).queues == link.queues,
        link.failing(id, error).queues == link.queues,
        link.cancelling(id).queues == link.queues,
{
}

/// The requests that share an exchange are those right behind its leader:
/// gathering stops only where the room is used up, the queue ends or the next
/// request is another one. Requests whose caller is gone are dropped on the
/// way, and each request that leaves the queue is noted.
pub proof fn lemma_gathering_stops(
    leader: JobView,
    entries: Seq<Job>,
    closed: Map<u64, ()>,
    room: nat,
)
    ensures
        ({
            let gathered = gather(leader, entries, closed, room);
            let left = entries.len() - gathered.rest.len();
            &&& gathered.followers.len() == room || gathered.rest.len() == 0
                || !leader.answers_for(gathered.rest[0]@)
            &&& gathered.notes.len() == left
            &&& forall|index: int|
                0 <= index < left ==> leader.answers_for((#[trigger] entries[index])@)
                    && gathered.notes[index] == if closed.contains_key(entries[index].id) {
                    LinkNote::Cancelled { id: entries[index].id }
                } else {
                    LinkNote::Coalesced { id: entries[index].id, leader_id: leader.id }
                }
            &&& forall|index: int|
                0 <= index < left && !closed.contains_key((#[trigger] entries[index]).id)
                    ==> gathered.followers.contains(entries[index])
        }),
    decreases entries.len(),
{
    if !(room == 0 || entries.len() == 0 || !leader.answers_for(entries[0]@)) {
        let dropped = closed.contains_key(entries[0].id);
        let fewer = if dropped {
            room
        } else {
            (room - 1) as nat
        };
        lemma_gathering_stops(leader, entries.drop_first(), closed, fewer);
        let gathered = gather(leader, entries, closed, room);
        let rest = gather(leader, entries.drop_first(), closed, fewer);
        let left = entries.len() - gathered.rest.len();
        assert forall|index: int| 0 <= index < left implies leader.answers_for(
            (#[trigger] entries[index])@,
        ) && gathered.notes[index] == if closed.contains_key(entries[index].id) {
            LinkNote::Cancelled { id: entries[index].id }
        } else {
            LinkNote::Coalesced { id: entries[index].id, leader_id: leader.id }
        } by {
            if index > 0 {
                assert(entries[index] == entries.drop_first()[index - 1]);
                assert(gathered.notes[index] == rest.notes[index - 1]);
            }
        }
        assert forall|index: int|
            0 <= index < left && !closed.contains_key(
                (#[trigger] entries[index]).id,
            ) implies gathered.followers.contains(entries[index]) by {
            if index > 0 {
                assert(entries[index] == entries.drop_first()[index - 1]);
                assert(rest.followers.contains(entries[index]));
                let at = choose|at: int|
                    0 <= at < rest.followers.len() && rest.followers[at] == entries[index];
                if dropped {
                    assert(gathered.followers[at] == entries[index]);
                } else {
                    assert(gathered.followers[at + 1] == entries[index]);
                }
            } else {
                assert(gathered.followers[0] == entries[0]);
            }
        }
    }
}

/// Every request that shared an exchange and whose caller still waits is told
/// once: the shared reply while its own deadline has not passed, else that it
/// has. Nobody else is told.
pub proof fn lemma_followers_are_told(
    followers: Seq<Job>,
    closed: Map<u64, ()>,
    now: Duration,
    value: ReplyView,
)
    ensures
        ({
            let notices = follower_notices(followers, closed, now, value);
            &&& notices.len() <= followers.len()
            &&& forall|index: int|
                0 <= index < followers.len() && !closed.contains_key(
                    (#[trigger] followers[index]).id,
                ) ==> notices.contains(told(followers[index], now, value))
            &&& forall|at: int|
                0 <= at < notices.len() ==> told_to_a_caller(
                    followers,
                    closed,
                    now,
                    value,
                    #[trigger] notices[at],
                )
            &&& (forall|index: int|
                0 <= index < followers.len() ==> !closed.contains_key(
                    (#[trigger] followers[index]).id,
                )) ==> notices.len() == followers.len() && forall|index: int|
                0 <= index < followers.len() ==> notices[index] == told(
                    #[trigger] followers[index],
                    now,
                    value,
                )
        }),
    decreases followers.len(),
{
    if followers.len() > 0 {
        let rest = followers.drop_last();
        lemma_followers_are_told(rest, closed, now, value);
        let before = follower_notices(rest, closed, now, value);
        let notices = follower_notices(followers, closed, now, value);
        assert forall|index: int|
            0 <= index < followers.len() && !closed.contains_key(
                (#[trigger] followers[index]).id,
            ) implies notices.contains(told(followers[index], now, value)) by {
            let wanted = told(followers[index], now, value);
            if index < rest.len() {
                assert(rest[index] == followers[index]);
                assert(before.contains(wanted));
                let at = choose|at: int| 0 <= at < before.len() && before[at] == wanted;
                assert(notices[at] == wanted);
            } else {
                assert(notices.last() == wanted);
            }
        }
        assert forall|at: int| 0 <= at < notices.len() implies told_to_a_caller(
            followers,
            closed,
            now,
            value,
            #[trigger] notices[at],
        ) by {
            if at < before.len() {
                assert(notices[at] == before[at]);
                assert(told_to_a_caller(rest, closed, now, value, before[at]));
                let index = choose|index: int|
                    0 <= index < rest.len() && !closed.contains_key((#[trigger] rest[index]).id)
                        && before[at] == told(rest[index], now, value);
                assert(followers[index] == rest[index]);
            } else {
                assert(followers[followers.len() - 1] == followers.last());
            }
        }
        if forall|index: int|
            0 <= index < followers.len() ==> !closed.contains_key(
                (#[trigger] followers[index]).id,
            ) {
            assert forall|index: int| 0 <= index < rest.len() implies !closed.contains_key(
                (#[trigger] rest[index]).id,
            ) by {
                assert(rest[index] == followers[index]);
            }
            assert forall|index: int| 0 <= index < followers.len() implies notices[index] == told(
                #[trigger] followers[index],
                now,
                value,
            ) by {
                if index < rest.len() {
                    assert(rest[index] == followers[index]);
                    assert(notices[index] == before[index]);
                }
            }
        }
    }
}

/// What a request that shared an exchange is told.
pub open spec fn told(job: Job, now: Duration, value: ReplyView) -> NoticeView {
    NoticeView {
        id: job.id,
        result: if now.nanos < job.deadline.nanos {
            Ok(value)
        } else {
            Err(ExchangeError::Deadline)
        },
    }
}

/// Whether a notice is for a request whose caller still waits.
pub open spec fn told_to_a_caller(
    followers: Seq<Job>,
    closed: Map<u64, ()>,
    now: Duration,
    value: ReplyView,
    notice: NoticeView,
) -> bool {
    exists|index: int|
        0 <= index < followers.len() && !closed.contains_key((#[trigger] followers[index]).id)
            && notice == told(followers[index], now, value)
}

/// Requests that shared a failed exchange go back to the front of their queue
/// in their order, and nothing else changes.
pub proof fn lemma_followers_return_to_the_front(
    link: LinkView,
    at: int,
    followers: Seq<Job>,
    other: int,
)
    requires
        link.queues.consistent(),
        0 <= at < link.queues.slots.len(),
        0 <= other < link.queues.slots.len(),
        other != at,
    ensures
        ({
            let after = requeueing(link, link.queues.slots[at].id, followers);
            let entries = after.queues.slots[at].entries;
            &&& entries.take(followers.len() as int) == followers
            &&& entries.skip(followers.len() as int) == link.queues.slots[at].entries
            &&& after.queues.slots[at].queued == link.queues.slots[at].queued
            &&& after.queues.slots[at].id == link.queues.slots[at].id
            &&& after.queues.slots[other] == link.queues.slots[other]
            &&& after.counters == link.counters
            &&& after.notes == link.notes
        }),
{
    lemma_position(link.queues, at);
    let entries = followers + link.queues.slots[at].entries;
    assert(entries.take(followers.len() as int) =~= followers);
    assert(entries.skip(followers.len() as int) =~= link.queues.slots[at].entries);
}

/// When the runner stops, every request that still waits and whose caller is
/// there fails once with that reason, and no request is left in any queue.
pub proof fn lemma_stopped_runner_fails_the_rest(
    queues: QueueSetView<Job>,
    jobs: Seq<Job>,
    closed: Map<u64, ()>,
    at: int,
)
    requires
        0 <= at < queues.slots.len(),
    ensures
        emptied(queues, queues.slots.len() as int).slots[at].entries.len() == 0,
        emptied(queues, queues.slots.len() as int).slots[at].id == queues.slots[at].id,
        queues.slots[at].queued >= queues.slots[at].entries.len() ==> emptied(
            queues,
            queues.slots.len() as int,
        ).slots[at].queued == queues.slots[at].queued - queues.slots[at].entries.len(),
        forall|index: int|
            0 <= index < jobs.len() && !closed.contains_key((#[trigger] jobs[index]).id)
                ==> stop_notices(jobs, closed).contains(
                NoticeView { id: jobs[index].id, result: Err(ExchangeError::RunnerStopped) },
            ),
        forall|index: int|
            0 <= index < stop_notices(jobs, closed).len() ==> (#[trigger] stop_notices(
                jobs,
                closed,
            )[index]).result == Err::<ReplyView, ExchangeError>(ExchangeError::RunnerStopped)
                && !closed.contains_key(stop_notices(jobs, closed)[index].id),
        forall|index: int|
            0 <= index < queues.slots[at].entries.len() ==> waiting(
                queues.slots,
                queues.slots.len() as int,
            ).contains(#[trigger] queues.slots[at].entries[index]),
{
    lemma_stop_notices(jobs, closed);
    assert forall|index: int| 0 <= index < queues.slots[at].entries.len() implies waiting(
        queues.slots,
        queues.slots.len() as int,
    ).contains(#[trigger] queues.slots[at].entries[index]) by {
        lemma_waiting(queues.slots, queues.slots.len() as int, at, index);
    }
}

proof fn lemma_waiting(slots: Seq<SlotView<Job>>, count: int, at: int, index: int)
    requires
        0 <= at < count <= slots.len(),
        0 <= index < slots[at].entries.len(),
    ensures
        waiting(slots, count).contains(slots[at].entries[index]),
    decreases count,
{
    let all = waiting(slots, count);
    let before = waiting(slots, count - 1);
    if at < count - 1 {
        lemma_waiting(slots, count - 1, at, index);
        let place = choose|place: int|
            0 <= place < before.len() && before[place] == slots[at].entries[index];
        assert(all[place] == slots[at].entries[index]);
    } else {
        assert(all[before.len() + index] == slots[at].entries[index]);
    }
}

proof fn lemma_stop_notices(jobs: Seq<Job>, closed: Map<u64, ()>)
    ensures
        forall|index: int|
            0 <= index < jobs.len() && !closed.contains_key((#[trigger] jobs[index]).id)
                ==> stop_notices(jobs, closed).contains(
                NoticeView { id: jobs[index].id, result: Err(ExchangeError::RunnerStopped) },
            ),
        forall|index: int|
            0 <= index < stop_notices(jobs, closed).len() ==> (#[trigger] stop_notices(
                jobs,
                closed,
            )[index]).result == Err::<ReplyView, ExchangeError>(ExchangeError::RunnerStopped)
                && !closed.contains_key(stop_notices(jobs, closed)[index].id),
    decreases jobs.len(),
{
    if jobs.len() > 0 {
        let rest = jobs.drop_last();
        lemma_stop_notices(rest, closed);
        let before = stop_notices(rest, closed);
        let notices = stop_notices(jobs, closed);
        assert forall|index: int|
            0 <= index < jobs.len() && !closed.contains_key(
                (#[trigger] jobs[index]).id,
            ) implies notices.contains(
            NoticeView { id: jobs[index].id, result: Err(ExchangeError::RunnerStopped) },
        ) by {
            let wanted = NoticeView {
                id: jobs[index].id,
                result: Err::<ReplyView, ExchangeError>(ExchangeError::RunnerStopped),
            };
            if index < rest.len() {
                assert(rest[index] == jobs[index]);
                let at = choose|at: int| 0 <= at < before.len() && before[at] == wanted;
                assert(notices[at] == wanted);
            } else {
                assert(notices.last() == wanted);
            }
        }
        assert forall|index: int| 0 <= index < notices.len() implies (
        #[trigger] notices[index]).result == Err::<ReplyView, ExchangeError>(
            ExchangeError::RunnerStopped,
        ) && !closed.contains_key(notices[index].id) by {
            if index < before.len() {
                assert(notices[index] == before[index]);
            }
        }
    }
}

/// Reading for a response fails with silence where the time ran out, in the
/// runner or in the channel, and else with the error of the channel; reading
/// nothing means that the channel is closed. Between one byte and what the
/// buffer holds is no failure. While idle, only a closed or broken channel
/// stops the runner.
pub proof fn lemma_reading(outcome: ReceiveOutcome, idle: Result<usize, ChannelError>, room: nat)
    ensures
        read_failure(outcome, room) is None <==> (outcome matches ReceiveOutcome::Read(read) && 0
            < read <= room),
        outcome is Elapsed ==> read_failure(outcome, room) == Some(ExchangeError::ResponseTimeout),
        outcome matches ReceiveOutcome::Failed(error) ==> read_failure(outcome, room) == Some(
            if error.timed_out() {
                ExchangeError::ResponseTimeout
            } else {
                ExchangeError::Channel(error)
            },
        ),
        outcome matches ReceiveOutcome::Read(read) && read == 0 ==> read_failure(outcome, room)
            == Some(ExchangeError::Channel(ChannelError::Closed)),
        idle_input(idle, room) matches IdleInput::Bytes(read) ==> idle == Ok::<usize, ChannelError>(
            read,
        ) && 0 < read <= room,
        idle_input(idle, room) is Nothing <==> (idle matches Err(error) && error.timed_out()),
        idle matches Ok(read) && 0 < read <= room ==> idle_input(idle, room) is Bytes,
{
}

/// A message is a repetition of the last one of its device and command exactly
/// when it has the same code, status and data and comes before the duplicate
/// window has passed; without a window nothing is a repetition.
pub proof fn lemma_repetition_by_content(
    hub: BurstView,
    reply: ReplyView,
    first: Duration,
    repeated: ReplyView,
    second: Duration,
)
    requires
        reply.address == repeated.address,
        reply.command == repeated.command,
    ensures
        hub.remembering(reply, first).repeats(repeated, second) <==> reply.response_code
            == repeated.response_code && reply.device_status == repeated.device_status && reply.data
            == repeated.data && second.nanos < first.nanos + hub.config.duplicate_window.nanos
            && hub.config.duplicate_window.nanos > 0,
{
    let left = BurstView::fingerprint(reply);
    let right = BurstView::fingerprint(repeated);
    if left == right {
        assert(left[0] == right[0]);
        assert(left[1] == right[1]);
        assert(left.skip(2) =~= reply.data);
        assert(right.skip(2) =~= repeated.data);
    }
}

/// A message of another device or another command is no repetition of one that
/// was just remembered, and remembering one leaves what is known of others,
/// save that of the longest unheard one where there is no room for both.
pub proof fn lemma_messages_of_others(
    hub: BurstView,
    reply: ReplyView,
    other: ReplyView,
    now: Duration,
    later: Duration,
)
    requires
        reply.address != other.address || reply.command != other.command,
        hub.order.len() < hub.config.maximum_tracked_keys || hub.order[0] != (BurstKey {
            address: other.address,
            command: other.command,
        }).number() || hub.fingerprints.contains_key(
            (BurstKey { address: reply.address, command: reply.command }).number(),
        ),
    ensures
        hub.remembering(reply, now).repeats(other, later) <==> hub.repeats(other, later),
{
    let mine = BurstKey { address: reply.address, command: reply.command };
    let theirs = BurstKey { address: other.address, command: other.command };
    if mine.number() == theirs.number() {
        BurstKey::lemma_number_is_injective(mine, theirs);
    }
}

/// A message is taken up exactly when its data and its header extension fit
/// into a frame.
pub proof fn lemma_message_fits(reply: ReplyView)
    ensures
        BurstView::message_error(reply) is None <==> reply.data.len() <= 255
            && reply.frame_expansion.len() <= 3,
        reply.data.len() > 255 ==> (BurstView::message_error(reply) matches Some(
            BurstPublishError::DataLength(length),
        )),
        BurstView::message_key(reply).address == reply.address,
        BurstView::message_key(reply).command == reply.command,
{
}

/// A subscription is granted exactly when it asks for at least one place and
/// not too many, fewer subscriptions than allowed exist, its places fit into
/// what is left of all, and there is a number left for it.
pub proof fn lemma_subscription_is_granted(hub: BurstView, capacity: usize)
    ensures
        hub.subscription_error(capacity) is None <==> 1 <= capacity
            <= MAXIMUM_BURST_SUBSCRIPTION_CAPACITY && hub.subscriptions.len()
            < hub.config.maximum_subscriptions && reserved_slots(hub.subscriptions) + capacity
            <= hub.config.maximum_buffered_deliveries && hub.next_id < u64::MAX,
{
}

/// A request that starts, joins another exchange or is rejected adds one to
/// its own counter, leaves the counters of the outcomes alone and adds one
/// notice.
pub proof fn lemma_beginnings_are_counted(
    link: LinkView,
    id: u64,
    leader_id: u64,
    command: CommandCode,
    safety: OperationSafety,
    queue: QueueId,
)
    requires
        link.counters.started < u64::MAX,
        link.counters.coalesced < u64::MAX,
        link.counters.denied < u64::MAX,
        link.last_id < u64::MAX,
    ensures
        link.starting(id, command).counters == (LinkCounters {
            started: (link.counters.started + 1) as u64,
            ..link.counters
        }),
        link.starting(id, command).notes == link.notes.push(LinkNote::Started { id, command }),
        link.coalescing(id, leader_id).counters == (LinkCounters {
            coalesced: (link.counters.coalesced + 1) as u64,
            ..link.counters
        }),
        link.coalescing(id, leader_id).notes == link.notes.push(
            LinkNote::Coalesced { id, leader_id },
        ),
        link.denying(command.0, safety, queue).counters == (LinkCounters {
            denied: (link.counters.denied + 1) as u64,
            ..link.counters
        }),
        link.denying(command.0, safety, queue).notes == link.notes.push(
            LinkNote::Denied { command: command.0, safety, queue },
        ),
        link.starting(id, command).queues == link.queues,
        link.coalescing(id, leader_id).queues == link.queues,
        link.denying(command.0, safety, queue).queues == link.queues,
        link.numbering().last_id == link.last_id + 1,
        link.numbering().queues == link.queues,
{
}

/// Requests that share an exchange leave their queue but keep their places in
/// it, while those whose caller is gone give theirs back. Both are counted,
/// and the other queues stay as they were.
pub proof fn lemma_sharing_is_counted(link: LinkView, at: int, gathered: Gathered)
    requires
        link.queues.consistent(),
        0 <= at < link.queues.slots.len(),
        gathered.cancelled <= link.queues.slots[at].queued,
        link.counters.cancelled + gathered.cancelled <= u64::MAX,
        link.counters.coalesced + gathered.followers.len() <= u64::MAX,
    ensures
        ({
            let after = gathering(link, link.queues.slots[at].id, gathered);
            let slot = after.queues.slots[at];
            &&& after.queues.slots.len() == link.queues.slots.len()
            &&& slot.entries == gathered.rest
            &&& slot.queued == link.queues.slots[at].queued - gathered.cancelled
            &&& slot.id == link.queues.slots[at].id
            &&& slot.capacity == link.queues.slots[at].capacity
            &&& forall|other: int|
                0 <= other < link.queues.slots.len() && other != at
                    ==> #[trigger] after.queues.slots[other] == link.queues.slots[other]
            &&& after.counters == (LinkCounters {
                cancelled: (link.counters.cancelled + gathered.cancelled) as u64,
                coalesced: (link.counters.coalesced + gathered.followers.len()) as u64,
                ..link.counters
            })
            &&& after.notes == link.notes + gathered.notes
            &&& after.last_id == link.last_id
        }),
{
    lemma_position(link.queues, at);
}

/// What a link notes of a request that shared an exchange.
pub open spec fn noted_of(
    follower: Job,
    closed: Map<u64, ()>,
    now: Duration,
    note: LinkNote,
) -> bool {
    if closed.contains_key(follower.id) {
        note == LinkNote::Cancelled { id: follower.id }
    } else if now.nanos < follower.deadline.nanos {
        note == LinkNote::Completed { id: follower.id }
    } else {
        note matches LinkNote::Failed { id, .. } && id == follower.id
    }
}

/// When a shared exchange ends, each request that shared it frees one place of
/// its queue, counts in exactly one of the outcomes and is noted once, in the
/// order in which they waited. No request leaves or enters a queue.
pub proof fn lemma_followers_are_counted(
    link: LinkView,
    at: int,
    followers: Seq<Job>,
    closed: Map<u64, ()>,
    now: Duration,
)
    requires
        link.queues.consistent(),
        0 <= at < link.queues.slots.len(),
        followers.len() + link.queues.slots[at].entries.len() <= link.queues.slots[at].queued,
        link.counters.completed + followers.len() <= u64::MAX,
        link.counters.failed + followers.len() <= u64::MAX,
        link.counters.cancelled + followers.len() <= u64::MAX,
    ensures
        ({
            let queue = link.queues.slots[at].id;
            let after = completing_all(link, queue, followers, closed, now);
            &&& after.queues.consistent()
            &&& after.queues.slots.len() == link.queues.slots.len()
            &&& after.queues.slots[at].queued == link.queues.slots[at].queued - followers.len()
            &&& after.queues.slots[at].entries == link.queues.slots[at].entries
            &&& after.queues.slots[at].id == queue
            &&& forall|other: int|
                0 <= other < link.queues.slots.len() && other != at
                    ==> #[trigger] after.queues.slots[other] == link.queues.slots[other]
            &&& after.counters.completed >= link.counters.completed
            &&& after.counters.failed >= link.counters.failed
            &&& after.counters.cancelled >= link.counters.cancelled
            &&& after.counters.completed + after.counters.failed + after.counters.cancelled
                == link.counters.completed + link.counters.failed + link.counters.cancelled
                + followers.len()
            &&& after.counters.started == link.counters.started
            &&& after.counters.denied == link.counters.denied
            &&& after.counters.coalesced == link.counters.coalesced
            &&& after.notes.len() == link.notes.len() + followers.len()
            &&& after.notes.take(link.notes.len() as int) == link.notes
            &&& forall|index: int|
                0 <= index < followers.len() ==> noted_of(
                    #[trigger] followers[index],
                    closed,
                    now,
                    after.notes[link.notes.len() + index],
                )
        }),
    decreases followers.len(),
{
    lemma_position(link.queues, at);
    if followers.len() > 0 {
        let queue = link.queues.slots[at].id;
        let rest = followers.drop_last();
        lemma_followers_are_counted(link, at, rest, closed, now);
        let before = completing_all(link, queue, rest, closed, now);
        lemma_position(before.queues, at);
        let after = completing_all(link, queue, followers, closed, now);
        assert(after.notes.take(link.notes.len() as int) =~= before.notes.take(
            link.notes.len() as int,
        ));
        assert forall|index: int| 0 <= index < followers.len() implies noted_of(
            #[trigger] followers[index],
            closed,
            now,
            after.notes[link.notes.len() + index],
        ) by {
            if index < rest.len() {
                assert(rest[index] == followers[index]);
                assert(after.notes[link.notes.len() + index] == before.notes[link.notes.len()
                    + index]);
            }
        }
    }
}

/// When the runner stops, each request that still waits counts once, as failed
/// or, where its caller is gone, as cancelled, and is noted once.
pub proof fn lemma_stopping_is_counted(link: LinkView, jobs: Seq<Job>, closed: Map<u64, ()>)
    requires
        link.counters.failed + jobs.len() <= u64::MAX,
        link.counters.cancelled + jobs.len() <= u64::MAX,
    ensures
        ({
            let after = stopping(link, jobs, closed);
            &&& after.queues == link.queues
            &&& after.counters.failed >= link.counters.failed
            &&& after.counters.cancelled >= link.counters.cancelled
            &&& after.counters.failed + after.counters.cancelled == link.counters.failed
                + link.counters.cancelled + jobs.len()
            &&& after.counters.completed == link.counters.completed
            &&& after.notes.len() == link.notes.len() + jobs.len()
            &&& after.notes.take(link.notes.len() as int) == link.notes
            &&& forall|index: int|
                0 <= index < jobs.len() ==> if closed.contains_key((#[trigger] jobs[index]).id) {
                    after.notes[link.notes.len() + index] == (LinkNote::Cancelled {
                        id: jobs[index].id,
                    })
                } else {
                    after.notes[link.notes.len() + index] matches LinkNote::Failed { id, .. } && id
                        == jobs[index].id
                }
        }),
    decreases jobs.len(),
{
    if jobs.len() > 0 {
        let rest = jobs.drop_last();
        lemma_stopping_is_counted(link, rest, closed);
        let before = stopping(link, rest, closed);
        let after = stopping(link, jobs, closed);
        assert(after.notes.take(link.notes.len() as int) =~= before.notes.take(
            link.notes.len() as int,
        ));
        assert forall|index: int| 0 <= index < jobs.len() implies if closed.contains_key(
            (#[trigger] jobs[index]).id,
        ) {
            after.notes[link.notes.len() + index] == (LinkNote::Cancelled { id: jobs[index].id })
        } else {
            after.notes[link.notes.len() + index] matches LinkNote::Failed { id, .. } && id
                == jobs[index].id
        } by {
            if index < rest.len() {
                assert(rest[index] == jobs[index]);
                assert(after.notes[link.notes.len() + index] == before.notes[link.notes.len()
                    + index]);
            }
        }
    }
}

/// The caller of an exchange that ended is told its result once, unless it is
/// gone, and then nobody is.
pub proof fn lemma_leader_is_told(
    id: u64,
    result: Result<ReplyView, ExchangeError>,
    closed: Map<u64, ()>,
)
    ensures
        closed.contains_key(id) ==> leader_notice(id, result, closed).len() == 0,
        !closed.contains_key(id) ==> leader_notice(id, result, closed).len() == 1
            && leader_notice(id, result, closed)[0].id == id && leader_notice(
            id,
            result,
            closed,
        )[0].result == result,
{
}

/// Messages that arrive together reach the subscribers one by one, in the
/// order in which they arrived.
pub proof fn lemma_messages_are_delivered_in_order(
    before: BurstView,
    replies: Seq<ReplyView>,
    next: ReplyView,
    now: Duration,
    received_at: Duration,
    after: BurstView,
)
    ensures
        delivered(before, seq![], now, received_at, after) <==> before == after,
        delivered(before, replies.push(next), now, received_at, after) <==> exists|
            between: BurstView,
            result: Result<Publication, BurstPublishError>,
        |
            delivered(before, replies, now, received_at, between) && #[trigger] published(
                between,
                next,
                now,
                received_at,
                result,
                after,
            ),
{
    let all = replies.push(next);
    assert(all.drop_last() =~= replies);
    assert(all.last() == next);
    assert(delivered(before, all, now, received_at, after) <==> exists|
        between: BurstView,
        result: Result<Publication, BurstPublishError>,
    |
        delivered(before, all.drop_last(), now, received_at, between) && #[trigger] published(
            between,
            all.last(),
            now,
            received_at,
            result,
            after,
        ));
}

/// The built-in policies by number: the read-only one admits exactly the
/// registered commands that read, and the retry-safe one also those that set a
/// value.
pub proof fn lemma_policies_by_number(code: u16, queue: QueueId, verdicts: Seq<bool>)
    ensures
        CommandPolicy::ReadOnly.admitted(CommandCode(code), queue, verdicts) <==> code <= 3 || (7
            <= code <= 9) || (11 <= code <= 16) || code == 20 || code == 21 || code == 33 || code
            == 48 || code == 73 || code == 75,
        CommandPolicy::RetrySafe.admitted(CommandCode(code), queue, verdicts) <==> code <= 3 || (6
            <= code <= 9) || (11 <= code <= 22) || (33 <= code <= 35) || code == 40 || code == 44
            || code == 47 || code == 48 || code == 73 || code == 75,
{
    lemma_registered_commands(code);
}

/// How far a request may be repeated is what its caller declared; where the
/// caller declared nothing, a registered command counts as registered, and any
/// other command as an action.
pub proof fn lemma_safety_of_a_request(request: RequestView)
    ensures
        request.retry_safety matches Some(safety) ==> effective_safety(request) == safety,
        request.retry_safety is None ==> (effective_safety(request) is ReadOnly
            <==> CommandPolicy::ReadOnly.admitted(request.command, QueueId(0), seq![])),
        request.retry_safety is None ==> (effective_safety(request) is Action <==> (36
            <= request.command.0 <= 39) || (41 <= request.command.0 <= 43) || request.command.0 == 45
            || request.command.0 == 46 || request.command.0 == 4 || request.command.0 == 5
            || request.command.0 == 10 || (23 <= request.command.0 <= 32) || (49
            <= request.command.0 && request.command.0 != 73 && request.command.0 != 75)),
{
    lemma_registered_commands(request.command.0);
}

/// A priority leads to its own queue where the link has that queue, and to the
/// default queue where it has not.
pub proof fn lemma_queue_of_a_priority(link: LinkView, priority: Priority)
    ensures
        priority is Service && link.queues.has(QueueId(1)) ==> link.lane_of(priority) == QueueId(1),
        priority is Normal && link.queues.has(QueueId(0)) ==> link.lane_of(priority) == QueueId(0),
        priority is Service && !link.queues.has(QueueId(1)) ==> link.lane_of(priority)
            == link.default_queue,
        priority is Normal && !link.queues.has(QueueId(0)) ==> link.lane_of(priority)
            == link.default_queue,
{
}

/// A new link has one empty queue for each one of its layout, in the same
/// order, and takes requests.
pub proof fn lemma_new_queues_are_empty(layout: Seq<QueueConfig>, at: int)
    requires
        0 <= at < layout.len(),
    ensures
        fresh_queues(layout).slots.len() == layout.len(),
        fresh_queues(layout).slots[at].id == layout[at].name(),
        fresh_queues(layout).slots[at].capacity == layout[at].room(),
        fresh_queues(layout).slots[at].priority == layout[at].policy(),
        fresh_queues(layout).slots[at].queued == 0,
        fresh_queues(layout).slots[at].entries.len() == 0,
        !fresh_queues(layout).input_closed,
        !fresh_queues(layout).runner_closed,
{
}

/// A queue that is to be served otherwise keeps what it holds, and the other
/// queues keep everything.
pub proof fn lemma_priority_is_changed(
    queues: QueueSetView<Job>,
    at: int,
    other: int,
    priority: QueuePriority,
)
    requires
        queues.consistent(),
        0 <= at < queues.slots.len(),
        0 <= other < queues.slots.len(),
        other != at,
    ensures
        ({
            let after = queues.with_priority(queues.slots[at].id, priority);
            &&& after.slots.len() == queues.slots.len()
            &&& after.slots[at].priority == priority
            &&& after.slots[at].entries == queues.slots[at].entries
            &&& after.slots[at].queued == queues.slots[at].queued
            &&& after.slots[at].capacity == queues.slots[at].capacity
            &&& after.slots[at].id == queues.slots[at].id
            &&& after.slots[other] == queues.slots[other]
        }),
{
    lemma_position(queues, at);
}

/// The number of unfinished requests of a link is the sum over its queues: it
/// is the same for queues that hold the same number each, and a queue that
/// holds more by some number makes the sum larger by that number.
pub proof fn lemma_pending_requests(
    before: QueueSetView<Job>,
    after: QueueSetView<Job>,
    at: int,
    count: int,
)
    requires
        0 <= at < before.slots.len(),
        0 <= count <= before.slots.len(),
        after.slots.len() == before.slots.len(),
        forall|index: int|
            0 <= index < before.slots.len() && index != at ==> (
            #[trigger] after.slots[index]).queued == before.slots[index].queued,
    ensures
        after.pending(0) == 0,
        after.pending(count) - before.pending(count) == if at < count {
            after.slots[at].queued - before.slots[at].queued
        } else {
            0
        },
    decreases count,
{
    if count > 0 {
        lemma_pending_requests(before, after, at, count - 1);
    }
}

/// Each reason for which a queue takes no request reaches the caller under the
/// same name.
pub proof fn lemma_refusals_reach_the_caller(queue: QueueId)
    ensures
        push_failure(QueuePushError::Full) is Full,
        push_failure(QueuePushError::Closed) is Closed,
        push_failure(QueuePushError::Deadline) is Deadline,
        push_failure(QueuePushError::Unknown(queue)) == StartError::UnknownQueue(queue),
{
}

/// A rule of the caller's own decides alone: its verdict admits or refuses, its
/// queue is taken. Where it gave neither, the command is refused and stays in
/// the queue that was named.
pub proof fn lemma_custom_rules(
    rule: usize,
    command: CommandCode,
    queue: QueueId,
    verdicts: Seq<bool>,
    routes: Seq<QueueId>,
)
    ensures
        rule < verdicts.len() ==> (CommandPolicy::Custom(rule).admitted(command, queue, verdicts)
            <==> verdicts[rule as int]),
        rule >= verdicts.len() ==> !CommandPolicy::Custom(rule).admitted(command, queue, verdicts),
        rule < routes.len() ==> CommandRouting::Custom(rule).routed(command, queue, routes)
            == routes[rule as int],
        rule >= routes.len() ==> CommandRouting::Custom(rule).routed(command, queue, routes)
            == queue,
{
}

/// A request with bytes to send ahead of its frame is admitted exactly when the
/// same request without them is and they are not too many. A queue that is
/// unknown is named: the one that was asked for before the one that it leads to.
pub proof fn lemma_prefix_is_admitted(
    link: LinkView,
    request: RequestView,
    prefix: Seq<u8>,
    queue: QueueId,
    policy: RetryPolicy,
    now: Duration,
    decisions: &Decisions,
)
    ensures
        link.admission_error(request, prefix, queue, policy, now, decisions.verdicts@) is None
            <==> link.admission_error(request, seq![], queue, policy, now, decisions.verdicts@)
            is None && prefix.len() <= MAXIMUM_TRANSMIT_PREFIX,
        link.admission_error(request, seq![], queue, policy, now, decisions.verdicts@) is None
            && MAXIMUM_TRANSMIT_PREFIX < prefix.len() <= usize::MAX ==> link.admission_error(
            request,
            prefix,
            queue,
            policy,
            now,
            decisions.verdicts@,
        ) == Some(StartError::TransmitPrefix(prefix.len() as usize)),
        policy.runtime_violation(now) matches Some(problem) ==> link.admission_error(
            request,
            prefix,
            queue,
            policy,
            now,
            decisions.verdicts@,
        ) == Some(StartError::RetryPolicy(problem)),
        link.job(request, prefix, policy, now).transmit_prefix == prefix,
        link.job(request, prefix, policy, now).request == request,
        ({
            let target = link.routing.routed(request.command, queue, decisions.routes@);
            let found = link.resolution(request, queue, decisions.routes@);
            &&& !link.queues.has(queue) ==> found == Err::<QueueId, StartError>(
                StartError::UnknownQueue(queue),
            )
            &&& link.queues.has(queue) && !link.queues.has(target) ==> found == Err::<
                QueueId,
                StartError,
            >(StartError::UnknownQueue(target))
            &&& link.queues.has(queue) && link.queues.has(target) ==> found == Ok::<
                QueueId,
                StartError,
            >(target)
        }),
{
}

/// A snapshot of a queue shows what the queue holds: its name, its capacity,
/// how it is served and how many of its requests are unfinished.
pub proof fn lemma_queue_is_shown(snapshot: QueueSnapshot, slot: SlotView<Job>)
    requires
        snapshot_of(snapshot, slot),
    ensures
        snapshot.id == slot.id,
        snapshot.capacity == slot.capacity,
        snapshot.queued == slot.queued,
        snapshot.priority == slot.priority,
{
}

/// A runner without subscribers never gets any from what it hears; one with
/// subscribers keeps them.
pub proof fn lemma_subscribers_stay(
    before: Option<BurstView>,
    replies: Seq<ReplyView>,
    now: Duration,
    received_at: Duration,
    after: Option<BurstView>,
)
    requires
        routed(before, replies, now, received_at, after),
    ensures
        before is None <==> after is None,
        before is Some ==> delivered(before->0, replies, now, received_at, after->0),
{
}

/// The exchange that is begun next is for the request that was chosen, in its
/// queue and with the requests that share it; what an exchange or a read ends
/// with is handed over as it is.
pub proof fn lemma_results_are_handed_over(
    next: NextJob,
    queue: QueueId,
    job: Job,
    followers: Seq<Job>,
    result: Result<Option<DeviceReply>, ExchangeError>,
    answer: Option<ReplyView>,
    step: ExchangeStep,
    reply: ReplyView,
    error: ExchangeError,
)
    ensures
        selects(next, queue, job, followers) ==> (next matches NextJob::Selected(selected)
            && selected.queue == queue && selected.job == job && selected.followers@ == followers),
        receives(result, answer) ==> result is Ok && (answer is None <==> result->Ok_0 is None) && (
        answer matches Some(heard) ==> result->Ok_0->0@ == heard),
        answered_with(step, reply) ==> (step matches ExchangeStep::Finished(Ok(found)) && found@
            == reply),
        failed_with(step, error) ==> (step matches ExchangeStep::Finished(Err(found)) && found
            == error),
{
}

/// The last message of a device and command is remembered as the newest. Where
/// as many are remembered as allowed, the longest unheard one makes room and is
/// counted; otherwise nothing is lost.
pub proof fn lemma_oldest_message_makes_room(hub: BurstView, reply: ReplyView, now: Duration)
    requires
        hub.order.len() > 0,
        hub.evictions < u64::MAX,
    ensures
        ({
            let key = (BurstKey { address: reply.address, command: reply.command }).number();
            let after = hub.remembering(reply, now);
            let known = hub.fingerprints.contains_key(key);
            let full = hub.order.len() == hub.config.maximum_tracked_keys;
            &&& after.order.last() == key
            &&& after.fingerprints.contains_key(key)
            &&& after.fingerprints[key].1 == now
            &&& known ==> after.evictions == hub.evictions && after.fingerprints.dom()
                == hub.fingerprints.dom()
            &&& !known && full ==> after.evictions == hub.evictions + 1 && after.order.len()
                == hub.order.len() && after.order.take(hub.order.len() - 1) == hub.order.skip(1) && (
            hub.order[0] != key ==> !after.fingerprints.contains_key(hub.order[0]))
            &&& !known && !full ==> after.evictions == hub.evictions && after.order.take(
                hub.order.len() as int,
            ) == hub.order && after.order.len() == hub.order.len() + 1
            &&& after.subscriptions == hub.subscriptions
        }),
{
    let key = (BurstKey { address: reply.address, command: reply.command }).number();
    let after = hub.remembering(reply, now);
    if hub.fingerprints.contains_key(key) {
        assert(after.fingerprints.dom() =~= hub.fingerprints.dom());
    } else if hub.order.len() == hub.config.maximum_tracked_keys {
        assert(after.order.take(hub.order.len() - 1) =~= hub.order.skip(1));
    } else {
        assert(after.order.take(hub.order.len() as int) =~= hub.order);
    }
}

/// Every message counts once: as invalid where it does not fit a frame, else as
/// received, and then also as a duplicate where it repeats the last one. An
/// invalid or repeated message reaches nobody.
pub proof fn lemma_messages_are_counted(
    before: BurstView,
    reply: ReplyView,
    now: Duration,
    received_at: Duration,
    result: Result<Publication, BurstPublishError>,
    after: BurstView,
)
    requires
        published(before, reply, now, received_at, result, after),
        before.invalid < u64::MAX,
        before.received < u64::MAX,
        before.duplicates < u64::MAX,
    ensures
        result is Err <==> reply.data.len() > 255 || reply.frame_expansion.len() > 3,
        result is Err ==> after.invalid == before.invalid + 1 && after.received == before.received
            && after.subscriptions == before.subscriptions && after.duplicates
            == before.duplicates,
        result is Ok && before.repeats(reply, now) ==> after.received == before.received + 1
            && after.duplicates == before.duplicates + 1 && after.subscriptions
            == before.subscriptions && after.invalid == before.invalid,
        result is Ok && !before.repeats(reply, now) ==> after.received == before.received + 1
            && after.duplicates == before.duplicates && after.invalid == before.invalid,
{
    if result is Ok && !before.repeats(reply, now) {
        let remembered = before.receiving().remembering(reply, now);
        let deliveries = result->Ok_0->Deliveries_0@;
        lemma_settling_keeps_counters(
            remembered,
            deliveries,
            MessageView { received_at, reply },
        );
    }
}

proof fn lemma_settling_keeps_counters(
    hub: BurstView,
    deliveries: Seq<(u64, Delivery)>,
    message: MessageView,
)
    ensures
        hub.settling(deliveries, message).received == hub.received,
        hub.settling(deliveries, message).duplicates == hub.duplicates,
        hub.settling(deliveries, message).invalid == hub.invalid,
    decreases deliveries.len(),
{
    if deliveries.len() > 0 {
        lemma_settling_keeps_counters(hub, deliveries.drop_last(), message);
    }
}

/// A hub is set up with at least one and at most its maxima of subscriptions,
/// buffered messages and remembered keys; a new one is empty.
pub proof fn lemma_hub_limits(config: BurstConfig)
    ensures
        config.violation() is None <==> 1 <= config.maximum_subscriptions <= 65_536 && 1
            <= config.maximum_buffered_deliveries <= 1_048_576 && 1 <= config.maximum_tracked_keys
            <= 65_536,
        BurstConfig::standard().violation() is None,
        BurstView::fresh(config).config == config,
        BurstView::fresh(config).subscriptions.len() == 0,
        BurstView::fresh(config).fingerprints.len() == 0,
        BurstView::fresh(config).order.len() == 0,
        BurstView::fresh(config).next_id == 0,
{
}

/// A write that fails or takes too long fails its exchange and makes the
/// channel unusable; a write that was sent does neither.
pub proof fn lemma_write_ends(
    runner: &mut LinkRunner,
    outcome: SendOutcome,
    result: Result<(), ExchangeError>,
)
    requires
        call_ensures(LinkRunner::send_finished, (runner, outcome), result),
    ensures
        result is Ok <==> outcome is Sent,
        outcome is Sent ==> final(runner)@ == old(runner)@,
        !(outcome is Sent) ==> !final(runner)@.usable,
        outcome is Elapsed ==> result matches Err(ExchangeError::SendTimeout),
        outcome matches SendOutcome::Failed(problem) ==> result == Err::<(), ExchangeError>(
            ExchangeError::Channel(problem),
        ),
        final(runner)@.cursor == old(runner)@.cursor,
        final(runner)@.decoder == old(runner)@.decoder,
{
}

/// What a runner takes up next is the oldest request of a queue that has work.
/// It is begun before its deadline and while its caller waits, it fails once
/// its deadline has passed, and it is dropped where its caller is gone. The
/// runner is idle only where it is not to stop.
pub proof fn lemma_next_request(
    runner: &mut LinkRunner,
    link: &mut LinkClient,
    closed: &KeySet<u64>,
    now: Duration,
    next: NextJob,
)
    requires
        call_ensures(LinkRunner::next_job, (runner, link, closed, now), next),
        old(runner).serves(old(link)@),
        old(link)@.queues.consistent(),
    ensures
        next is Idle ==> !old(link)@.queues.input_closed && final(link)@ == old(link)@,
        next is Stopped ==> old(link)@.queues.input_closed && final(link)@ == old(link)@,
        next matches NextJob::Selected(selected) ==> now.nanos < selected.job.deadline.nanos
            && !closed@.contains_key(selected.job.id) && exists|at: int|
            0 <= at < old(link)@.queues.slots.len() && (#[trigger] old(link)@.queues.slots[at]).id
                == selected.queue && old(link)@.queues.slots[at].entries.len() > 0
                && old(link)@.queues.slots[at].entries[0] == selected.job,
        next matches NextJob::Selected(selected) ==> final(link)@.notes.last() == (
        LinkNote::Started { id: selected.job.id, command: selected.job.request.command }),
        next matches NextJob::Selected(selected) ==> selected.followers@.len()
            <= old(runner)@.maximum_coalesced && forall|index: int|
            0 <= index < selected.followers@.len() ==> (
            #[trigger] selected.followers@[index])@.request == selected.job@.request,
        next matches NextJob::Expired(notice) ==> (notice.result matches Err(
            ExchangeError::Deadline,
        )) && !closed@.contains_key(notice.id),
{
    if let Some((served, _)) = next_turn(old(link)@.queues.slots, old(runner)@.cursor) {
        lemma_served_queue_has_work(old(link)@.queues.slots, old(runner)@.cursor);
        let job = old(link)@.queues.slots[served].entries[0];
        let queue = old(link)@.queues.slots[served].id;
        assert(old(link)@.queues.slots[served].id == queue);
        let popped = old(link)@.queues.popping(served).finishing(queue);
        lemma_followers_are_identical(
            job@,
            popped.slot(queue).entries,
            closed@,
            joining_room(job@, old(runner)@.maximum_coalesced),
        );
    }
}

/// An exchange that ends without an answer is followed by a time for late
/// bytes only after silence on a usable channel. Requests that were to share
/// its answer wait again at the front of their queue, in their order, and only
/// the caller of the exchange is told. An exchange that was answered leaves
/// the waiting requests where they are.
pub proof fn lemma_exchange_ends(
    runner: &mut LinkRunner,
    link: &mut LinkClient,
    at: int,
    other: int,
    job: &Job,
    followers: Vec<Job>,
    result: Result<DeviceReply, ExchangeError>,
    closed: &KeySet<u64>,
    now: Duration,
    outcome: (Vec<Notice>, bool),
)
    requires
        0 <= at < old(link)@.queues.slots.len(),
        0 <= other < old(link)@.queues.slots.len(),
        other != at,
        call_ensures(
            LinkRunner::finish_job,
            (runner, link, old(link)@.queues.slots[at].id, job, followers, result, closed, now),
            outcome,
        ),
        old(link)@.queues.consistent(),
        old(link)@.queues.slots[at].entries.len() + followers@.len()
            <= old(link)@.queues.slots[at].queued,
        old(link)@.counters.completed + followers@.len() < u64::MAX,
        old(link)@.counters.failed + followers@.len() < u64::MAX,
        old(link)@.counters.cancelled + followers@.len() < u64::MAX,
    ensures
        outcome.1 <==> (result matches Err(error) && error is ResponseTimeout
            && old(runner)@.usable),
        result is Err ==> final(link)@.queues.slots[at].entries == followers@
            + old(link)@.queues.slots[at].entries && final(link)@.queues.slots[at].queued
            == old(link)@.queues.slots[at].queued && outcome.0@.len() <= 1,
        result is Err && !closed@.contains_key(job.id) ==> outcome.0@.len() == 1
            && outcome.0@[0].id == job.id && outcome.0@[0].result is Err,
        result is Ok ==> final(link)@.queues.slots[at].entries
            == old(link)@.queues.slots[at].entries && final(link)@.queues.slots[at].queued
            == old(link)@.queues.slots[at].queued - followers@.len(),
        result is Ok && !closed@.contains_key(job.id) ==> outcome.0@.len() >= 1
            && outcome.0@[0].id == job.id && outcome.0@[0].result is Ok,
        final(link)@.queues.slots[other] == old(link)@.queues.slots[other],
        final(runner)@ == old(runner)@,
{
    let queue = old(link)@.queues.slots[at].id;
    lemma_followers_return_to_the_front(old(link)@, at, followers@, other);
    lemma_position(old(link)@.queues, at);
    let noted = if closed@.contains_key(job.id) {
        old(link)@.cancelling(job.id)
    } else {
        old(link)@.completing(job.id)
    };
    lemma_followers_are_counted(noted, at, followers@, closed@, now);
    let told = notice_views(outcome.0@);
    if outcome.0@.len() > 0 {
        assert(told[0] == outcome.0@[0]@);
    }
    assert(told.len() == outcome.0@.len());
}

} // verus!
