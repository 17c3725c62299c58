//! What holds of exchanges and of searches for devices, stated over frames,
//! addresses and points in time.

use vstd::prelude::*;

use crate::bytes::{be16, lemma_be16_round_trip};
use crate::catalog::OperationSafety;
use crate::operation::laws::lemma_only_success_is_accepted;
use crate::operation::{CommandCode, ReplyView, RequestView};
use crate::profile::{
    lemma_valid_modules_are_disjoint, modules_violation, AddressTiming, LineProfile, ModuleWindow,
};
use crate::service::burst::address_number;
use crate::service::discovery::{
    fresh_search, hint_error, identified_by, line_targets, local_addresses, module_targets,
    next_open, probe_policy, searches, targeted, Discovery, DiscoveryError, DiscoveryHintError,
    DiscoveryOptions, DiscoveryView, Phase, ReportView, StepView, Target,
};
use crate::service::event::{ExchangeError, LinkNote};
use crate::service::exchange::{
    heard, idle_heard, meaning, ExchangeView, FindingView, JobView, StepNote,
};
use crate::service::policy::effective_safety;
use crate::service::retry::RetryPolicy;
use crate::time::{Duration, MAXIMUM_NANOSECONDS};
use crate::wire::{Address, EventView, FrameKind, FrameView, Master};

verus! {

/// The command that a request frame asks for: the number in its first two data
/// bytes behind command 31, else the command of its header.
pub open spec fn asked_command(request: FrameView) -> int {
    if request.wire_command == 31 && request.payload.len() >= 2 {
        request.payload[0] * 256 + request.payload[1]
    } else {
        request.wire_command as int
    }
}

/// The command that a response frame carries: the number behind code and
/// status with command 31, else the command of its header.
pub open spec fn carried_command(frame: FrameView) -> int {
    if frame.wire_command == 31 {
        frame.payload[2] * 256 + frame.payload[3]
    } else {
        frame.wire_command as int
    }
}

/// Whether a frame has room for the code, the status and an expanded number.
pub open spec fn complete(frame: FrameView) -> bool {
    frame.payload.len() >= (if frame.wire_command == 31 {
        4int
    } else {
        2int
    })
}

/// A complete response is the answer exactly when it comes from the address
/// that was asked, carries the command that was asked for and uses the same
/// physical layer and header extension. Every other complete response is
/// stale, in particular one from another address.
pub proof fn lemma_answer_belongs_to_the_request(frame: FrameView, request: FrameView)
    requires
        frame.kind is Response,
    ensures
        meaning(EventView::Frame(frame), request) is Answer <==> complete(frame) && frame.address
            == request.address && carried_command(frame) == asked_command(request)
            && frame.physical_layer == request.physical_layer && frame.expansion
            == request.expansion,
        meaning(EventView::Frame(frame), request) is Stale <==> complete(frame) && !(frame.address
            == request.address && carried_command(frame) == asked_command(request)
            && frame.physical_layer == request.physical_layer && frame.expansion
            == request.expansion),
        meaning(EventView::Frame(frame), request) is Ignored <==> !complete(frame),
{
}

/// What is taken for the answer to a request came in a response frame, from
/// the address that was asked and with the command that was asked for; its
/// code, status and data are those of the frame.
pub proof fn lemma_answer_fields(event: EventView, request: FrameView, reply: ReplyView)
    requires
        meaning(event, request) == FindingView::Answer(reply),
    ensures
        event matches EventView::Frame(frame) && frame.kind is Response && frame.address
            == request.address && reply.response_code == frame.payload[0] && reply.device_status
            == frame.payload[1] && reply.data == frame.payload.skip(
            if frame.wire_command == 31 {
                4
            } else {
                2
            },
        ),
        reply.address == request.address,
        reply.command.0 == asked_command(request),
        reply.physical_layer == request.physical_layer,
        reply.frame_expansion == request.expansion,
        !reply.burst,
{
}

/// What an event that is no response means: a damaged frame is reported, a
/// complete burst message is handed on, the request itself is an echo whatever
/// its preambles, and everything else is ignored.
pub proof fn lemma_other_events(event: EventView, request: FrameView)
    ensures
        event matches EventView::Rejected(error) ==> meaning(event, request)
            == FindingView::Rejected(error),
        event matches EventView::Frame(frame) ==> {
            &&& (frame.kind is Burst && complete(frame) ==> (meaning(
                event,
                request,
            ) matches FindingView::Unsolicited(reply) && reply.burst && reply.address
                == frame.address && reply.command.0 == carried_command(frame)
                && reply.response_code == frame.payload[0] && reply.device_status
                == frame.payload[1]))
            &&& (frame.kind is Burst && !complete(frame) ==> meaning(event, request)
                == FindingView::Ignored)
            &&& (frame.kind is Request ==> meaning(event, request) == if frame.wire_command
                == request.wire_command && frame.address == request.address && frame.payload
                == request.payload && frame.expansion == request.expansion
                && frame.physical_layer == request.physical_layer {
                FindingView::Echo
            } else {
                FindingView::Ignored
            })
        },
{
}

/// The answer to a request of any command but 31 itself is recognised: a
/// complete response of its address that repeats its command in the same way.
pub proof fn lemma_every_answer_is_recognised(
    request: RequestView,
    code: u8,
    status: u8,
    data: Seq<u8>,
    preambles: u8,
)
    requires
        request.command.0 != 31,
    ensures
        ({
            let frame = request.frame();
            let number = if request.command.0 > 255 {
                be16(request.command.0)
            } else {
                Seq::empty()
            };
            let response = FrameView {
                preambles,
                kind: FrameKind::Response,
                payload: seq![code, status] + number + data,
                ..frame
            };
            meaning(EventView::Frame(response), frame) matches FindingView::Answer(reply)
                && reply.command == request.command && reply.address == request.address
                && reply.response_code == code && reply.device_status == status && reply.data
                == data
        }),
{
    let number = be16(request.command.0);
    lemma_be16_round_trip(request.command.0, 0, 0);
    assert((seq![code, status] + number + data).skip(4) =~= data);
    assert((seq![code, status] + Seq::<u8>::empty() + data).skip(2) =~= data);
}

/// What one event comes to while a request is in flight.
pub proof fn lemma_one_event_is_heard(event: EventView, request: FrameView, id: u64)
    ensures
        ({
            let one = heard(seq![event], request, id);
            match meaning(event, request) {
                FindingView::Answer(reply) => one.answer == Some(reply) && one.notes.len() == 0
                    && one.bursts.len() == 0,
                FindingView::Unsolicited(reply) => one.answer is None && one.notes
                    == seq![LinkNote::Unsolicited { reply }] && one.bursts == seq![reply],
                FindingView::Stale(reply) => one.answer is None && one.notes
                    == seq![LinkNote::StaleFrame { id, command: reply.command }]
                    && one.bursts.len() == 0,
                FindingView::Rejected(error) => one.answer is None && one.notes
                    == seq![LinkNote::RejectedFrame { id, error }] && one.bursts.len() == 0,
                FindingView::Echo => one.answer is None && one.notes
                    == seq![LinkNote::EchoDiscarded { id }] && one.bursts.len() == 0,
                FindingView::Ignored => one.answer is None && one.notes.len() == 0
                    && one.bursts.len() == 0,
            }
        }),
{
    reveal_with_fuel(heard, 2);
    assert(seq![event].drop_first() =~= Seq::<EventView>::empty());
}

/// Events are heard in their order and up to the answer: what is heard of two
/// lists in a row is what is heard of the first, followed by what is heard of
/// the second, unless the first held the answer.
pub proof fn lemma_events_are_heard_in_order(
    first: Seq<EventView>,
    second: Seq<EventView>,
    request: FrameView,
    id: u64,
)
    ensures
        heard(first, request, id).answer is Some ==> heard(first + second, request, id) == heard(
            first,
            request,
            id,
        ),
        heard(first, request, id).answer is None ==> ({
            let both = heard(first + second, request, id);
            &&& both.notes == heard(first, request, id).notes + heard(second, request, id).notes
            &&& both.bursts == heard(first, request, id).bursts + heard(second, request, id).bursts
            &&& both.answer == heard(second, request, id).answer
        }),
        heard(Seq::empty(), request, id).answer is None,
    decreases first.len(),
{
    if first.len() == 0 {
        assert(first + second =~= second);
        let both = heard(second, request, id);
        assert(Seq::<LinkNote>::empty() + both.notes =~= both.notes);
        assert(Seq::<ReplyView>::empty() + both.bursts =~= both.bursts);
    } else {
        lemma_events_are_heard_in_order(first.drop_first(), second, request, id);
        assert((first + second).drop_first() =~= first.drop_first() + second);
        assert((first + second)[0] == first[0]);
        if !(meaning(first[0], request) is Answer) {
            let rest = heard(first.drop_first(), request, id);
            let last = heard(second, request, id);
            if rest.answer is None {
                assert(heard(first + second, request, id).notes =~= heard(
                    first,
                    request,
                    id,
                ).notes + last.notes);
                assert(heard(first + second, request, id).bursts =~= heard(
                    first,
                    request,
                    id,
                ).bursts + last.bursts);
            }
        }
    }
}

/// While nothing is in flight, a complete burst message is handed on, a
/// complete response is reported as late and never taken for an answer, and a
/// damaged frame is reported; events are heard in their order.
pub proof fn lemma_idle_events(first: Seq<EventView>, event: EventView)
    ensures
        ({
            let before = idle_heard(first);
            let after = idle_heard(first.push(event));
            &&& after.answer is None
            &&& match event {
                EventView::Rejected(error) => after.notes == before.notes.push(
                    LinkNote::IdleRejectedFrame { error },
                ) && after.bursts == before.bursts,
                EventView::Frame(frame) => match ReplyView::of_frame(frame) {
                    Ok(reply) => if frame.kind is Burst {
                        after.notes == before.notes.push(LinkNote::Unsolicited { reply })
                            && after.bursts == before.bursts.push(reply)
                    } else {
                        after.notes == before.notes.push(LinkNote::LateResponse { reply })
                            && after.bursts == before.bursts
                    },
                    Err(_) => after == before,
                },
            }
        }),
    decreases first.len(),
{
    if first.len() == 0 {
        reveal_with_fuel(idle_heard, 2);
        assert(first.push(event).drop_first() =~= first);
    } else {
        lemma_idle_events(first.drop_first(), event);
        assert(first.push(event).drop_first() =~= first.drop_first().push(event));
        assert(first.push(event)[0] == first[0]);
    }
    let before = idle_heard(first);
    let after = idle_heard(first.push(event));
    assert(after.notes =~= before.notes || after.notes =~= before.notes.push(after.notes.last()));
    assert(after.bursts =~= before.bursts || after.bursts =~= before.bursts.push(
        after.bursts.last(),
    ));
    assert(after.answer == before.answer);
    assert(event matches EventView::Frame(frame) && ReplyView::of_frame(frame) is Err ==> after
        =~= before);
}

/// What follows a reply. Busy replies use up the busy repeats and no others,
/// delayed ones the polls and no others, each repeat counting one attempt; with
/// none left the exchange fails with the code. Every other reply ends the
/// exchange and leaves the counters alone.
pub proof fn lemma_reply_decides(exchange: ExchangeView, reply: ReplyView, now: Duration)
    ensures
        ({
            let code = reply.response_code;
            let after = exchange.after_reply(code);
            let step = exchange.reply_step(reply, now);
            &&& after.job == exchange.job
            &&& after.transport_retries == exchange.transport_retries
            &&& (code != 32 && code != 33 && code != 34 ==> step == StepNote::Answered(reply)
                && after == exchange)
            &&& (code == 32 && exchange.busy_retries >= exchange.job.policy.busy_retries ==> step
                == StepNote::Failed(ExchangeError::Busy(32)) && after == exchange)
            &&& (code == 32 && exchange.busy_retries < exchange.job.policy.busy_retries ==> (step
                is Repeat || step is TooLate) && after.busy_retries == exchange.busy_retries + 1
                && after.polls == exchange.polls)
            &&& ((code == 33 || code == 34) && exchange.polls
                >= exchange.job.policy.delayed_response_polls ==> step == StepNote::Failed(
                ExchangeError::DelayedResponse(code),
            ) && after == exchange)
            &&& ((code == 33 || code == 34) && exchange.polls
                < exchange.job.policy.delayed_response_polls ==> (step is Repeat || step is TooLate)
                && after.polls == exchange.polls + 1 && after.busy_retries
                == exchange.busy_retries)
            &&& (step matches StepNote::Repeat { cause, attempt, .. } ==> attempt == after.attempt
                && (cause is Busy <==> code == 32) && (cause is DelayedResponse <==> code != 32))
            &&& (step matches StepNote::TooLate { attempt, .. } ==> attempt == after.attempt)
            &&& (step is Repeat || step is TooLate) && exchange.attempt < 255 ==> after.attempt
                == exchange.attempt + 1
        }),
{
}

/// A repeat waits for the whole retry delay and only if that ends before the
/// deadline of the request; without a delay it follows at once.
pub proof fn lemma_repeat_waits_for_the_delay(
    exchange: ExchangeView,
    reply: ReplyView,
    now: Duration,
)
    requires
        now.nanos + exchange.job.policy.retry_delay.nanos <= MAXIMUM_NANOSECONDS,
    ensures
        ({
            let delay = exchange.job.policy.retry_delay.nanos;
            let step = exchange.reply_step(reply, now);
            &&& (step matches StepNote::Repeat { wake: Some(wake), .. } ==> delay > 0 && wake.nanos
                == now.nanos + delay && wake.nanos < exchange.job.deadline.nanos)
            &&& (step matches StepNote::Repeat { wake: None, .. } ==> delay == 0)
            &&& (step is TooLate ==> delay > 0 && now.nanos + delay
                >= exchange.job.deadline.nanos)
        }),
{
}

/// Silence repeats the request without waiting, as often as its policy says,
/// and an action not at all; a repeat counts one attempt and nothing else.
/// Every other error ends the exchange.
pub proof fn lemma_error_decides(exchange: ExchangeView, error: ExchangeError)
    ensures
        ({
            let action = effective_safety(exchange.job.request) == OperationSafety::Action;
            let again = error is ResponseTimeout && !action && exchange.transport_retries
                < exchange.job.policy.transport_retries;
            let after = exchange.after_error(error);
            &&& (!again ==> exchange.error_step(error) == StepNote::Failed(error) && after
                == exchange)
            &&& (again ==> (exchange.error_step(error) matches StepNote::Repeat {
                cause,
                attempt,
                wake,
            } && cause is Transport && attempt == after.attempt && wake is None)
                && after.transport_retries == exchange.transport_retries + 1 && after.busy_retries
                == exchange.busy_retries && after.polls == exchange.polls && after.job
                == exchange.job && (exchange.attempt < 255 ==> after.attempt == exchange.attempt
                + 1))
        }),
{
}

/// An attempt waits for the response timeout, but never beyond the deadline of
/// the request. It sends the prefix of the job and then the frame, and a fresh
/// exchange stands at its first attempt with nothing repeated.
pub proof fn lemma_attempt(exchange: ExchangeView, job: JobView, now: Duration)
    ensures
        exchange.attempt_end(now).nanos <= exchange.job.deadline.nanos,
        exchange.attempt_end(now).nanos == exchange.job.deadline.nanos || exchange.attempt_end(
            now,
        ).nanos == now.nanos + exchange.job.policy.response_timeout.nanos,
        now.nanos + exchange.job.policy.response_timeout.nanos <= MAXIMUM_NANOSECONDS
            ==> exchange.attempt_end(now).nanos <= now.nanos
            + exchange.job.policy.response_timeout.nanos,
        exchange.transmission().take(exchange.job.transmit_prefix.len() as int)
            == exchange.job.transmit_prefix,
        exchange.transmission().skip(exchange.job.transmit_prefix.len() as int)
            == exchange.job.request.frame().encoded(),
        ExchangeView::fresh(job).job == job,
        ExchangeView::fresh(job).attempt == 1,
        ExchangeView::fresh(job).transport_retries == 0,
        ExchangeView::fresh(job).busy_retries == 0,
        ExchangeView::fresh(job).polls == 0,
{
    let prefix = exchange.job.transmit_prefix;
    let frame = exchange.job.request.frame().encoded();
    assert((prefix + frame).take(prefix.len() as int) =~= prefix);
    assert((prefix + frame).skip(prefix.len() as int) =~= frame);
}

/// Requests share an exchange only if they are the same in every field, send
/// nothing in front of the frame and have the same limits; the first of them
/// must read only.
pub proof fn lemma_shared_exchange(leader: JobView, follower: JobView)
    ensures
        leader.answers_for(follower) <==> follower.request.address == leader.request.address
            && follower.request.command == leader.request.command && follower.request.data
            == leader.request.data && follower.request.preambles == leader.request.preambles
            && follower.request.frame_expansion == leader.request.frame_expansion
            && follower.request.physical_layer == leader.request.physical_layer
            && follower.request.retry_safety == leader.request.retry_safety
            && follower.transmit_prefix.len() == 0 && follower.policy == leader.policy,
        leader.can_lead() <==> effective_safety(leader.request) is ReadOnly
            && leader.transmit_prefix.len() == 0,
        leader.request.retry_safety matches Some(safety) ==> effective_safety(leader.request)
            == safety,
{
}

/// Whether the shift of a module takes a local address of its window to a
/// polling address.
pub open spec fn reached(module: ModuleWindow, local: int) -> bool {
    &&& module.polling.first <= local <= module.polling.last
    &&& 0 <= local + module.address_shift <= 63
}

/// The target behind a local address of a module.
pub open spec fn reached_target(module: ModuleWindow, local: int, master: Master) -> Target {
    (
        module.module,
        Address::Polling { node: (local + module.address_shift) as u8, master },
    )
}

/// Whether a target lies behind a local address of one of the first modules.
pub open spec fn origin(modules: Seq<ModuleWindow>, count: int, target: Target, master: Master) -> bool {
    exists|index: int, local: int|
        0 <= index < count && #[trigger] reached(modules[index], local) && target
            == reached_target(modules[index], local, master)
}

spec fn local_origin(
    module: ModuleWindow,
    locals: Seq<u8>,
    target: Target,
    master: Master,
) -> bool {
    exists|at: int|
        0 <= at < locals.len() && reached(module, #[trigger] locals[at] as int) && target
            == reached_target(module, locals[at] as int, master)
}

proof fn lemma_module_targets(
    before: Seq<Target>,
    module: ModuleWindow,
    locals: Seq<u8>,
    master: Master,
)
    requires
        forall|i: int, j: int|
            0 <= i < j < before.len() ==> (#[trigger] before[i]).1 != (#[trigger] before[j]).1,
    ensures
        ({
            let found = module_targets(before, module, locals, master);
            &&& before.len() <= found.len()
            &&& forall|i: int| 0 <= i < before.len() ==> #[trigger] found[i] == before[i]
            &&& forall|i: int, j: int|
                0 <= i < j < found.len() ==> (#[trigger] found[i]).1 != (#[trigger] found[j]).1
            &&& forall|i: int|
                before.len() <= i < found.len() ==> local_origin(
                    module,
                    locals,
                    #[trigger] found[i],
                    master,
                )
            &&& forall|at: int|
                0 <= at < locals.len() && reached(module, #[trigger] locals[at] as int)
                    ==> targeted(found, reached_target(module, locals[at] as int, master).1)
        }),
    decreases locals.len(),
{
    if locals.len() > 0 {
        let rest = locals.drop_last();
        lemma_module_targets(before, module, rest, master);
        let earlier = module_targets(before, module, rest, master);
        let found = module_targets(before, module, locals, master);
        let last = locals.last();
        assert(found == earlier || found == earlier.push(reached_target(module, last as int, master))
            && reached(module, last as int));
        assert forall|i: int| before.len() <= i < found.len() implies local_origin(
            module,
            locals,
            #[trigger] found[i],
            master,
        ) by {
            if i < earlier.len() {
                assert(found[i] == earlier[i]);
                assert(local_origin(module, rest, earlier[i], master));
                let at = choose|at: int|
                    0 <= at < rest.len() && reached(module, #[trigger] rest[at] as int)
                        && earlier[i] == reached_target(module, rest[at] as int, master);
                assert(locals[at] == rest[at]);
            } else {
                assert(locals[locals.len() - 1] == last);
                assert(reached(module, last as int));
            }
        }
        assert forall|i: int, j: int| 0 <= i < j < found.len() implies (#[trigger] found[i]).1 != (
        #[trigger] found[j]).1 by {
            assert(found[i] == earlier[i]);
            if j < earlier.len() {
                assert(found[j] == earlier[j]);
            }
        }
        assert forall|at: int|
            0 <= at < locals.len() && reached(module, #[trigger] locals[at] as int) implies targeted(
            found,
            reached_target(module, locals[at] as int, master).1,
        ) by {
            let address = reached_target(module, locals[at] as int, master).1;
            if at < rest.len() {
                assert(rest[at] == locals[at]);
                assert(targeted(earlier, address));
                let index = choose|index: int|
                    0 <= index < earlier.len() && (#[trigger] earlier[index]).1 == address;
                assert(found[index].1 == address);
            } else {
                assert(module.physical(last) is Some);
                if !targeted(earlier, address) {
                    assert(found[earlier.len() as int].1 == address);
                }
            }
        }
    }
}

proof fn lemma_line_targets(modules: Seq<ModuleWindow>, count: int, master: Master)
    requires
        modules_violation(modules, 0) is None,
        0 <= count <= modules.len(),
    ensures
        ({
            let targets = line_targets(modules.take(count), master);
            &&& forall|i: int, j: int|
                0 <= i < j < targets.len() ==> (#[trigger] targets[i]).1 != (
                #[trigger] targets[j]).1
            &&& forall|i: int|
                0 <= i < targets.len() ==> origin(modules, count, #[trigger] targets[i], master)
            &&& forall|index: int, local: int|
                0 <= index < count && #[trigger] reached(modules[index], local)
                    ==> targets.contains(reached_target(modules[index], local, master))
        }),
    decreases count,
{
    let targets = line_targets(modules.take(count), master);
    if count > 0 {
        lemma_line_targets(modules, count - 1, master);
        assert(modules.take(count).drop_last() =~= modules.take(count - 1));
        assert(modules.take(count).last() == modules[count - 1]);
        let before = line_targets(modules.take(count - 1), master);
        let module = modules[count - 1];
        let locals = local_addresses(module);
        lemma_module_targets(before, module, locals, master);
        assert(targets == module_targets(before, module, locals, master));
        assert forall|i: int| 0 <= i < targets.len() implies origin(
            modules,
            count,
            #[trigger] targets[i],
            master,
        ) by {
            if i < before.len() {
                assert(targets[i] == before[i]);
                assert(origin(modules, count - 1, before[i], master));
                let (index, local) = choose|index: int, local: int|
                    0 <= index < count - 1 && #[trigger] reached(modules[index], local)
                        && before[i] == reached_target(modules[index], local, master);
                assert(reached(modules[index], local));
            } else {
                assert(local_origin(module, locals, targets[i], master));
                let at = choose|at: int|
                    0 <= at < locals.len() && reached(module, #[trigger] locals[at] as int)
                        && targets[i] == reached_target(module, locals[at] as int, master);
                assert(reached(modules[count - 1], locals[at] as int));
            }
        }
        assert forall|index: int, local: int|
            0 <= index < count && #[trigger] reached(modules[index], local) implies targets.contains(
            reached_target(modules[index], local, master),
        ) by {
            let wanted = reached_target(modules[index], local, master);
            if index < count - 1 {
                assert(before.contains(wanted));
                let at = choose|at: int| 0 <= at < before.len() && before[at] == wanted;
                assert(targets[at] == wanted);
            } else {
                let at = local - module.polling.first;
                assert(locals[at] == local);
                assert(targeted(targets, wanted.1));
                let found = choose|found: int|
                    0 <= found < targets.len() && (#[trigger] targets[found]).1 == wanted.1;
                if found < before.len() {
                    assert(targets[found] == before[found]);
                    assert(origin(modules, count - 1, before[found], master));
                    let (other, far) = choose|other: int, far: int|
                        0 <= other < count - 1 && #[trigger] reached(modules[other], far)
                            && before[found] == reached_target(modules[other], far, master);
                    let node = local + module.address_shift;
                    assert(far + modules[other].address_shift == node);
                    lemma_valid_modules_are_disjoint(modules, other, count - 1, node);
                }
                assert(targets[found] == wanted);
            }
        }
    } else {
        assert(modules.take(count) =~= Seq::<ModuleWindow>::empty());
    }
}

/// A search asks exactly the addresses that the profile describes: for every
/// module and every local address of its window that the shift keeps between 0
/// and 63, the shifted address is among the targets of that module. No address
/// is a target twice, and there is no other target.
pub proof fn lemma_search_covers_the_profile(
    profile: LineProfile,
    master: Master,
    options: DiscoveryOptions,
    timings: Map<u32, AddressTiming>,
)
    requires
        profile.violation() is None,
    ensures
        ({
            let modules = profile.modules@;
            let targets = fresh_search(profile, master, options, timings).plan.targets;
            &&& forall|index: int, local: int|
                0 <= index < modules.len() && #[trigger] reached(modules[index], local)
                    ==> targets.contains(reached_target(modules[index], local, master))
            &&& forall|i: int, j: int|
                0 <= i < j < targets.len() ==> (#[trigger] targets[i]).1 != (
                #[trigger] targets[j]).1
            &&& forall|i: int|
                0 <= i < targets.len() ==> origin(
                    modules,
                    modules.len() as int,
                    #[trigger] targets[i],
                    master,
                )
        }),
{
    let modules = profile.modules@;
    let count = modules.len() as int;
    lemma_line_targets(modules, count, master);
    assert(modules.take(count) =~= modules);
}

/// What a probe asks: the identification of the target that the search has
/// come to, with the hinted preambles or the conservative number of them. It
/// counts one attempt and uses up the wake prefix; with a hint it is not
/// repeated after silence.
pub proof fn lemma_probe_fields(search: DiscoveryView, hint: Option<u8>)
    ensures
        search.probing(hint).1 matches StepView::Probe { request, prefix, priority, retry }
            && request.address == search.plan.targets[search.index].1 && request.command.0 == 0
            && request.data.len() == 0 && request.frame_expansion.len() == 0 && request.preambles
            == (match hint {
            Some(preambles) => preambles,
            None => search.plan.conservative,
        }) && prefix == search.wake && priority == search.plan.priority && (hint is Some
            ==> retry.transport_retries == 0) && (hint is None ==> retry.transport_retries
            == search.plan.retry.transport_retries) && retry.busy_retries
            == search.plan.retry.busy_retries && retry.delayed_response_polls
            == search.plan.retry.delayed_response_polls && retry.retry_delay
            == search.plan.retry.retry_delay && retry.response_timeout == search.timeout(
            hint is Some,
        ),
        search.probing(hint).0.report.attempts == search.report.attempts + 1,
        search.probing(hint).0.report.hinted_attempts == search.report.hinted_attempts + (
        if hint is Some {
            1int
        } else {
            0int
        }),
        search.probing(hint).0.report.devices == search.report.devices,
        search.probing(hint).0.report.errors == search.report.errors,
        search.probing(hint).0.index == search.index,
        search.probing(hint).0.phase == Phase::Waiting(hint is Some),
        search.probing(hint).0.wake.len() == 0,
{
}

/// A hint is used in the first pass only, and only if it saves preambles.
pub proof fn lemma_hint_saves_preambles(search: DiscoveryView)
    ensures
        search.hint() matches Some(preambles) ==> search.pass == 0 && preambles
            < search.plan.conservative && search.plan.hints.contains_key(
            address_number(search.plan.targets[search.index].1),
        ) && search.plan.hints[address_number(
            search.plan.targets[search.index].1,
        )] == preambles,
        search.hint() is None ==> search.pass > 0 || !search.plan.hints.contains_key(
            address_number(search.plan.targets[search.index].1),
        ) || search.plan.hints[address_number(
            search.plan.targets[search.index].1,
        )] >= search.plan.conservative,
{
}

/// How long a probe waits: as long as its own address asks for; else the steady
/// time once a device answered or where a hint is tried, and the first time
/// before that.
pub proof fn lemma_probe_timeout(search: DiscoveryView, hinted: bool, node: u8, master: Master)
    requires
        search.plan.targets[search.index].1 == (Address::Polling { node, master }),
    ensures
        search.plan.timings.contains_key(node as u32) && search.plan.timings[node as u32]
            .response_timeout is Some ==> search.timeout(hinted)
            == search.plan.timings[node as u32].response_timeout->0,
        !(search.plan.timings.contains_key(node as u32) && search.plan.timings[node as u32]
            .response_timeout is Some) ==> search.timeout(hinted) == if hinted
            || search.report.devices.len() > 0 {
            search.plan.steady_response
        } else {
            search.plan.first_response
        },
        search.plan.timings.contains_key(node as u32) ==> search.delay()
            == search.plan.timings[node as u32].delay_before_probe,
        !search.plan.timings.contains_key(node as u32) ==> search.delay().nanos == 0,
{
}

/// A probe has time for all of its attempts and for the waits between them,
/// as far as the clock reaches.
pub proof fn lemma_probe_has_time(base: RetryPolicy, timeout: Duration, repeats: bool)
    ensures
        ({
            let policy = probe_policy(base, timeout, repeats);
            let attempts = 1 + policy.transport_retries + policy.busy_retries
                + policy.delayed_response_polls;
            let waits = policy.busy_retries + policy.delayed_response_polls;
            let wanted = timeout.nanos * attempts + base.retry_delay.nanos * waits;
            &&& wanted <= MAXIMUM_NANOSECONDS ==> policy.total_timeout.nanos == wanted
            &&& wanted > MAXIMUM_NANOSECONDS ==> policy.total_timeout.nanos == MAXIMUM_NANOSECONDS
        }),
{
    let policy = probe_policy(base, timeout, repeats);
    let attempts = 1 + policy.transport_retries + policy.busy_retries
        + policy.delayed_response_polls;
    let waits = policy.busy_retries + policy.delayed_response_polls;
    assert(timeout.nanos * attempts >= 0) by (nonlinear_arith)
        requires
            attempts >= 0,
    ;
    assert(base.retry_delay.nanos * waits >= 0) by (nonlinear_arith)
        requires
            waits >= 0,
    ;
}

/// The next address that a search comes to is the next one that was not
/// identified: every address before it was.
pub proof fn lemma_nothing_open_is_skipped(
    targets: Seq<Target>,
    report: ReportView,
    index: int,
)
    requires
        0 <= index <= targets.len(),
    ensures
        ({
            let open = next_open(targets, report, index);
            &&& index <= open <= targets.len()
            &&& forall|at: int|
                index <= at < open ==> exists|found: int|
                    0 <= found < report.devices.len() && (#[trigger] report.devices[found]).address
                        == (#[trigger] targets[at]).1
            &&& open < targets.len() ==> forall|found: int|
                0 <= found < report.devices.len() ==> (#[trigger] report.devices[found]).address
                    != targets[open].1
        }),
    decreases targets.len() - index,
{
    if index < targets.len() && report.identified(targets[index].1) {
        lemma_nothing_open_is_skipped(targets, report, index + 1);
    }
}

/// A search that stands between probes comes to the next open address of the
/// pass: it probes it, or pauses before it, and ends a pass only where none is
/// left. The pause between probes comes before the delay of the address, and
/// each comes once.
pub proof fn lemma_scan_step(search: DiscoveryView)
    requires
        search.sound(),
        search.phase is Scanning || search.phase is Paused || search.phase is Delayed,
    ensures
        ({
            let open = next_open(search.plan.targets, search.report, search.index);
            let (next, step) = search.advance();
            let at = DiscoveryView { index: open, ..search };
            &&& open < search.plan.targets.len() ==> next.pass == search.pass && next.index == open
                && next.report.devices == search.report.devices && match step {
                StepView::Sleep(span) => span == search.plan.interval && span.nanos > 0
                    && next.phase is Paused && search.phase is Scanning && search.probed || span
                    == at.delay() && span.nanos > 0 && next.phase is Delayed && !(
                search.phase is Delayed),
                StepView::Probe { request, .. } => request.address
                    == search.plan.targets[open].1 && next.phase is Waiting && (
                search.phase is Delayed || at.delay().nanos == 0) && !(search.phase is Scanning
                    && search.probed && search.plan.interval.nanos > 0),
                StepView::Finished => false,
            }
            &&& open == search.plan.targets.len() && (search.pass + 1 == search.plan.passes
                || search.report.devices.len() >= search.plan.targets.len()) ==> step is Finished
                && next.phase is Finished && next.report.passes_completed == search.pass + 1
            &&& open == search.plan.targets.len() && search.pass + 1 < search.plan.passes
                && search.report.devices.len() < search.plan.targets.len()
                && search.plan.pass_delay.nanos > 0 ==> step == StepView::Sleep(
                search.plan.pass_delay,
            ) && next.pass == search.pass + 1 && next.index == 0 && next.phase is Scanning
        }),
{
    lemma_nothing_open_is_skipped(search.plan.targets, search.report, search.index);
}

/// A reply that identifies a device adds it to the report under the module and
/// the address that were asked; another reply is reported as an error of that
/// address. Silence leaves no error. The search goes on with the next address.
pub proof fn lemma_answers_are_reported(
    search: DiscoveryView,
    reply: ReplyView,
    error: ExchangeError,
)
    ensures
        ({
            let after = search.after_reply(reply);
            let target = search.plan.targets[search.index];
            &&& after.index == search.index + 1
            &&& after.phase is Scanning
            &&& match identified_by(reply) {
                Ok(identity) => after.report.devices.len() == search.report.devices.len() + 1
                    && after.report.devices.take(search.report.devices.len() as int)
                    == search.report.devices && after.report.devices.last().module == target.0
                    && after.report.devices.last().address == target.1
                    && after.report.devices.last().identity == identity && after.report.errors
                    == search.report.errors,
                Err(problem) => after.report.devices == search.report.devices
                    && after.report.errors == search.report.errors.push(
                    (target.1, ExchangeError::Operation(problem)),
                ),
            }
        }),
        ({
            let after = search.after_error(error);
            let silent = error is ResponseTimeout || error is Deadline;
            &&& after.report.devices == search.report.devices
            &&& silent ==> after.report.errors == search.report.errors
            &&& !silent ==> after.report.errors == search.report.errors.push(
                (search.plan.targets[search.index].1, error),
            )
            &&& after.index == if silent && search.phase == Phase::Waiting(true) {
                search.index
            } else {
                search.index + 1
            }
        }),
        reply.command.0 != 0 || reply.response_code != 0
            ==> identified_by(reply) is Err,
{
    lemma_only_success_is_accepted(reply, CommandCode(0), seq![]);
    let devices = search.report.devices;
    assert(forall|device| #[trigger]
        devices.push(device).take(devices.len() as int) =~= devices);
}

/// A hint is taken up exactly for a polling address, with 2 to 40 preambles,
/// while there is room or the address had one before.
pub proof fn lemma_hint_is_accepted(hints: Map<u64, u8>, address: Address, preambles: u8)
    ensures
        hint_error(hints, address, preambles) is None <==> address is Polling && 2 <= preambles
            <= 40 && (hints.contains_key(address_number(address)) || hints.len() < 128),
        address is Unique ==> hint_error(hints, address, preambles) == Some(
            DiscoveryHintError::UniqueAddress,
        ),
{
}

/// A search is begun for a valid profile, valid retry limits and a pause of at
/// most a day between passes. It first lets the line settle, and its first
/// probe goes to the first target, with the wake-up bytes, the first response
/// time and the preambles of the profile, and with the limits and the priority
/// of the options.
pub proof fn lemma_search_begins(
    profile: LineProfile,
    master: Master,
    options: DiscoveryOptions,
    result: Result<Discovery, DiscoveryError>,
)
    requires
        searches(result, profile, master, options, Map::empty()),
    ensures
        result is Ok <==> profile.violation() is None && options.retry.violation() is None
            && options.pass_delay.nanos <= 24 * 3600 * 1_000_000_000,
        profile.violation() matches Some(problem) ==> result == Err::<Discovery, DiscoveryError>(
            DiscoveryError::Profile(problem),
        ),
        result matches Ok(search) ==> search@.report.attempts == 0 && search@.report.devices.len()
            == 0 && search@.report.errors.len() == 0 && search@.report.passes_completed == 0,
        result matches Ok(search) ==> profile.timing.connect_settle.nanos > 0
            ==> search@.advance().1 == StepView::Sleep(profile.timing.connect_settle),
        result matches Ok(search) ==> search@.plan.passes == options.passes.count()
            && search@.plan.pass_delay == options.pass_delay && search@.plan.interval
            == profile.timing.scan_interval && search@.plan.hints == options.preamble_hints@,
        result matches Ok(search) ==> options.preamble_hints@ == Map::<u64, u8>::empty()
            && search@.plan.targets.len() > 0 && profile.timing.connect_settle.nanos == 0 ==> (
        search@.advance().1 matches StepView::Probe { request, prefix, priority, retry }
            && request.address == search@.plan.targets[0].1 && request.preambles
            == profile.discovery_preambles && prefix == profile.wake_prefix@ && priority
            == options.priority && retry.transport_retries == options.retry.transport_retries
            && retry.busy_retries == options.retry.busy_retries && retry.response_timeout
            == profile.timing.first_response),
        result matches Ok(search) ==> forall|node: u8|
            search@.plan.targets.len() > 0 && search@.plan.targets[search@.index].1
                == #[trigger] polling_of(node, master) ==> search@.timeout(true)
                == profile.timing.steady_response,
{
    reveal_with_fuel(DiscoveryView::advance, 3);
    if let Ok(search) = result {
        if search@.plan.targets.len() > 0 {
            assert(!search@.report.identified(search@.plan.targets[0].1));
            assert(next_open(search@.plan.targets, search@.report, 0) == 0);
        }
    }
}

/// The polling address of a node for a master.
pub open spec fn polling_of(node: u8, master: Master) -> Address {
    Address::Polling { node, master }
}

} // verus!
