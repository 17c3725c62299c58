//! The sole owner of a physical channel: which request is served, what its
//! frames mean and who gets the result.

use vstd::prelude::*;

use crate::bytes::copy_range;
use crate::channel::ChannelError;
use crate::operation::{DeviceReply, ReplyView};
use crate::ordered::{holds, KeySet};
use crate::service::burst::{published, BurstHub, BurstPublishError, BurstView, Publication};
use crate::service::event::{ExchangeError, LinkEvent, LinkNote};
use crate::service::exchange::{
    heard, idle_burst, idle_heard, idle_note, interpret, note_of, Exchange, ExchangeStep, Finding,
    Job, JobView, StepNote, answered_with, failed_with,
};
use crate::service::link::{rolled, LinkClient, LinkCounters, LinkView};
use crate::service::queue_set::{
    lemma_position, next_turn, on_ring, QueueCursor, QueueId, QueueSetView, SlotView,
};
use crate::service::retry::{deadline_after, later};
use crate::time::{Duration, MAXIMUM_NANOSECONDS};
use crate::wire::{
    event_views, DecodeEvent, DecodeLimits, DecodeStatistics, DecoderState, FrameDecoder,
};

verus! {

/// The result of a request, for its waiter.
#[derive(Debug)]
pub struct Notice {
    /// Unique request identifier.
    pub id: u64,
    /// Reply, or why there is none.
    pub result: Result<DeviceReply, ExchangeError>,
}

/// What a notice holds, with the reply as its view.
#[verifier::ext_equal]
pub struct NoticeView {
    pub id: u64,
    pub result: Result<ReplyView, ExchangeError>,
}

/// The result of an exchange with the reply as its view.
pub open spec fn result_view(result: Result<DeviceReply, ExchangeError>) -> Result<
    ReplyView,
    ExchangeError,
> {
    match result {
        Ok(reply) => Ok(reply@),
        Err(error) => Err(error),
    }
}

impl View for Notice {
    type V = NoticeView;

    open spec fn view(&self) -> NoticeView {
        NoticeView { id: self.id, result: result_view(self.result) }
    }
}

/// The views of a list of notices.
pub open spec fn notice_views(notices: Seq<Notice>) -> Seq<NoticeView> {
    notices.map_values(|notice: Notice| notice@)
}

/// The request that is served next.
#[derive(Debug)]
pub enum NextJob {
    /// Nothing waits.
    Idle,
    /// Nothing waits, and no client is left.
    Stopped,
    /// The waiter of the next request was gone.
    Skipped,
    /// The next request was too late.
    Expired(Notice),
    /// An exchange starts.
    Selected(SelectedJob),
}

/// A request whose exchange starts, and the requests that wait for its result.
#[derive(Debug)]
pub struct SelectedJob {
    /// Queue of the requests.
    pub queue: QueueId,
    /// The request that is sent.
    pub job: Job,
    /// Requests that join it.
    pub followers: Vec<Job>,
}

/// How the sending of a request ended.
#[derive(Debug)]
pub enum SendOutcome {
    /// All bytes are sent.
    Sent,
    /// The channel failed.
    Failed(ChannelError),
    /// The attempt was over first.
    Elapsed,
}

/// How a read ended.
#[derive(Debug)]
pub enum ReceiveOutcome {
    /// Bytes at the start of the buffer were filled.
    Read(usize),
    /// The channel failed.
    Failed(ChannelError),
    /// The attempt was over first.
    Elapsed,
}

/// What a list of waiting requests comes to when an exchange looks for others
/// that can join it.
#[verifier::ext_equal]
pub struct Gathered {
    /// Requests that join.
    pub followers: Seq<Job>,
    /// Requests that go on waiting.
    pub rest: Seq<Job>,
    /// What observers are told.
    pub notes: Seq<LinkNote>,
    /// Requests whose waiters were gone.
    pub cancelled: nat,
}

/// Which requests at the front of a queue join an exchange: those that its
/// response answers, up to a number, without those whose waiters are gone.
pub open spec fn gather(
    leader: JobView,
    entries: Seq<Job>,
    closed: Map<u64, ()>,
    room: nat,
) -> Gathered
    decreases entries.len(),
{
    if room == 0 || entries.len() == 0 || !leader.answers_for(entries[0]@) {
        Gathered { followers: Seq::empty(), rest: entries, notes: Seq::empty(), cancelled: 0 }
    } else if closed.contains_key(entries[0].id) {
        let rest = gather(leader, entries.drop_first(), closed, room);
        Gathered {
            notes: seq![LinkNote::Cancelled { id: entries[0].id }] + rest.notes,
            cancelled: rest.cancelled + 1,
            ..rest
        }
    } else {
        let rest = gather(leader, entries.drop_first(), closed, (room - 1) as nat);
        Gathered {
            followers: seq![entries[0]] + rest.followers,
            notes: seq![LinkNote::Coalesced { id: entries[0].id, leader_id: leader.id }]
                + rest.notes,
            ..rest
        }
    }
}

/// Requests that join an exchange ask for exactly what it asks for, there are
/// no more of them than allowed, and no request is lost or overtaken.
pub proof fn lemma_followers_are_identical(
    leader: JobView,
    entries: Seq<Job>,
    closed: Map<u64, ()>,
    room: nat,
)
    ensures
        ({
            let gathered = gather(leader, entries, closed, room);
            &&& gathered.followers.len() <= room
            &&& gathered.followers.len() + gathered.cancelled + gathered.rest.len()
                == entries.len()
            &&& gathered.rest == entries.skip(
                (gathered.followers.len() + gathered.cancelled) as int,
            )
            &&& forall|index: int|
                0 <= index < gathered.followers.len() ==> leader.answers_for(
                    (#[trigger] gathered.followers[index])@,
                ) && !closed.contains_key(gathered.followers[index].id)
        }),
    decreases entries.len(),
{
    let gathered = gather(leader, entries, closed, room);
    if room == 0 || entries.len() == 0 || !leader.answers_for(entries[0]@) {
        assert(gathered.rest =~= entries.skip(0));
    } else if closed.contains_key(entries[0].id) {
        lemma_followers_are_identical(leader, entries.drop_first(), closed, room);
        let rest = gather(leader, entries.drop_first(), closed, room);
        let count = (rest.followers.len() + rest.cancelled) as int;
        assert(entries.drop_first().skip(count) =~= entries.skip(count + 1));
    } else {
        let rest = gather(leader, entries.drop_first(), closed, (room - 1) as nat);
        lemma_followers_are_identical(leader, entries.drop_first(), closed, (room - 1) as nat);
        let count = (rest.followers.len() + rest.cancelled) as int;
        assert(entries.drop_first().skip(count) =~= entries.skip(count + 1));
        assert forall|index: int| 0 <= index < gathered.followers.len() implies leader.answers_for(
            (#[trigger] gathered.followers[index])@,
        ) && !closed.contains_key(gathered.followers[index].id) by {
            if index > 0 {
                assert(gathered.followers[index] == rest.followers[index - 1]);
            }
        }
    }
}

/// A counter after a number of steps, starting over behind its largest value.
pub open spec fn rolled_by(counter: u64, steps: nat) -> u64 {
    ((counter + steps) % 0x1_0000_0000_0000_0000) as u64
}

proof fn lemma_rolled_by(counter: u64, steps: nat)
    ensures
        rolled_by(counter, 0) == counter,
        rolled(rolled_by(counter, steps)) == rolled_by(counter, steps + 1),
{
}

/// The link after requests joined an exchange.
pub open spec fn gathering(link: LinkView, queue: QueueId, gathered: Gathered) -> LinkView {
    let slot = link.queues.slot(queue);
    LinkView {
        queues: link.queues.with_slot(
            queue,
            SlotView {
                entries: gathered.rest,
                queued: (slot.queued - gathered.cancelled) as nat,
                ..slot
            },
        ),
        counters: LinkCounters {
            cancelled: rolled_by(link.counters.cancelled, gathered.cancelled),
            coalesced: rolled_by(link.counters.coalesced, gathered.followers.len()),
            ..link.counters
        },
        notes: link.notes + gathered.notes,
        ..link
    }
}

/// How many requests may join an exchange.
pub open spec fn joining_room(leader: JobView, maximum: usize) -> nat {
    if leader.can_lead() {
        maximum as nat
    } else {
        0
    }
}

/// The link after requests got the result of an exchange that they joined.
pub open spec fn completing_all(
    link: LinkView,
    queue: QueueId,
    followers: Seq<Job>,
    closed: Map<u64, ()>,
    now: Duration,
) -> LinkView
    decreases followers.len(),
{
    if followers.len() == 0 {
        link
    } else {
        let before = completing_all(link, queue, followers.drop_last(), closed, now);
        let finished = before.with_queues(before.queues.finishing(queue));
        let job = followers.last();
        if closed.contains_key(job.id) {
            finished.cancelling(job.id)
        } else if now.nanos >= job.deadline.nanos {
            finished.failing(job.id, ExchangeError::Deadline)
        } else {
            finished.completing(job.id)
        }
    }
}

/// The notices to requests that got the result of an exchange that they joined.
pub open spec fn follower_notices(
    followers: Seq<Job>,
    closed: Map<u64, ()>,
    now: Duration,
    value: ReplyView,
) -> Seq<NoticeView>
    decreases followers.len(),
{
    if followers.len() == 0 {
        Seq::empty()
    } else {
        let before = follower_notices(followers.drop_last(), closed, now, value);
        let job = followers.last();
        if closed.contains_key(job.id) {
            before
        } else if now.nanos >= job.deadline.nanos {
            before.push(NoticeView { id: job.id, result: Err(ExchangeError::Deadline) })
        } else {
            before.push(NoticeView { id: job.id, result: Ok(value) })
        }
    }
}

/// The link after requests that had joined an exchange wait again, before all others.
pub open spec fn requeueing(link: LinkView, queue: QueueId, followers: Seq<Job>) -> LinkView {
    let slot = link.queues.slot(queue);
    link.with_queues(
        link.queues.with_slot(queue, SlotView { entries: followers + slot.entries, ..slot }),
    )
}

/// The requests that wait in the first queues.
pub open spec fn waiting(slots: Seq<SlotView<Job>>, count: int) -> Seq<Job>
    decreases count,
{
    if count <= 0 {
        Seq::empty()
    } else {
        waiting(slots, count - 1) + slots[count - 1].entries
    }
}

/// The link after requests could not be served any more.
pub open spec fn stopping(link: LinkView, jobs: Seq<Job>, closed: Map<u64, ()>) -> LinkView
    decreases jobs.len(),
{
    if jobs.len() == 0 {
        link
    } else {
        let before = stopping(link, jobs.drop_last(), closed);
        if closed.contains_key(jobs.last().id) {
            before.cancelling(jobs.last().id)
        } else {
            before.failing(jobs.last().id, ExchangeError::RunnerStopped)
        }
    }
}

/// The notices to requests that could not be served any more.
pub open spec fn stop_notices(jobs: Seq<Job>, closed: Map<u64, ()>) -> Seq<NoticeView>
    decreases jobs.len(),
{
    if jobs.len() == 0 {
        Seq::empty()
    } else {
        let before = stop_notices(jobs.drop_last(), closed);
        if closed.contains_key(jobs.last().id) {
            before
        } else {
            before.push(
                NoticeView { id: jobs.last().id, result: Err(ExchangeError::RunnerStopped) },
            )
        }
    }
}

/// The queues after the first of them were emptied.
pub open spec fn emptied(queues: QueueSetView<Job>, count: int) -> QueueSetView<Job> {
    QueueSetView {
        slots: Seq::new(
            queues.slots.len(),
            |index: int|
                if index < count {
                    SlotView {
                        entries: Seq::<Job>::empty(),
                        queued: (queues.slots[index].queued
                            - queues.slots[index].entries.len()) as nat,
                        ..queues.slots[index]
                    }
                } else {
                    queues.slots[index]
                },
        ),
        ..queues
    }
}

/// Whether messages went through a router one after the other.
pub open spec fn delivered(
    before: BurstView,
    replies: Seq<ReplyView>,
    now: Duration,
    received_at: Duration,
    after: BurstView,
) -> bool
    decreases replies.len(),
{
    if replies.len() == 0 {
        before == after
    } else {
        exists|between: BurstView, result: Result<Publication, BurstPublishError>|
            delivered(before, replies.drop_last(), now, received_at, between)
                && #[trigger] published(
                between,
                replies.last(),
                now,
                received_at,
                result,
                after,
            )
    }
}

/// Whether a message went through a router.
pub open spec fn published_once(
    before: BurstView,
    reply: ReplyView,
    now: Duration,
    received_at: Duration,
    after: BurstView,
) -> bool {
    exists|result: Result<Publication, BurstPublishError>| #[trigger]
        published(before, reply, now, received_at, result, after)
}

/// Whether a message went through a router, where there is one.
pub open spec fn routed_once(
    before: Option<BurstView>,
    reply: ReplyView,
    now: Duration,
    received_at: Duration,
    after: Option<BurstView>,
) -> bool {
    match (before, after) {
        (Some(before), Some(after)) => published_once(before, reply, now, received_at, after),
        (None, None) => true,
        _ => false,
    }
}

/// Whether messages went through a router, where there is one.
pub open spec fn routed(
    before: Option<BurstView>,
    replies: Seq<ReplyView>,
    now: Duration,
    received_at: Duration,
    after: Option<BurstView>,
) -> bool {
    match (before, after) {
        (Some(before), Some(after)) => delivered(before, replies, now, received_at, after),
        (None, None) => true,
        _ => false,
    }
}

/// What a runner holds.
#[verifier::ext_equal]
pub struct RunnerView {
    /// Streaming decoder.
    pub decoder: DecoderState,
    /// Limits of the decoder.
    pub limits: DecodeLimits,
    /// Router of messages that nobody asked for.
    pub hub: Option<BurstView>,
    /// Whether the channel can still be used.
    pub usable: bool,
    /// How many requests may join an exchange.
    pub maximum_coalesced: usize,
    /// How long input is dropped after silence.
    pub guard: Duration,
    /// Rotation of the queues.
    pub cursor: QueueCursor,
    /// Size of a read.
    pub read_size: usize,
    /// Number of buffered observer events.
    pub event_capacity: usize,
}

/// Sole owner of the physical channel and link decoder.
#[derive(Debug)]
pub struct LinkRunner {
    decoder: FrameDecoder,
    read_buffer_size: usize,
    burst_hub: Option<BurstHub>,
    channel_usable: bool,
    maximum_coalesced: usize,
    late_response_guard: Duration,
    cursor: QueueCursor,
    event_capacity: usize,
}

spec fn hub_view(hub: Option<BurstHub>) -> Option<BurstView> {
    match hub {
        Some(hub) => Some(hub@),
        None => None,
    }
}

impl View for LinkRunner {
    type V = RunnerView;

    closed spec fn view(&self) -> RunnerView {
        RunnerView {
            decoder: self.decoder@,
            limits: self.decoder.effective_limits(),
            hub: hub_view(self.burst_hub),
            usable: self.channel_usable,
            maximum_coalesced: self.maximum_coalesced,
            guard: self.late_response_guard,
            cursor: self.cursor,
            read_size: self.read_buffer_size,
            event_capacity: self.event_capacity,
        }
    }
}

/// What a read while no request is in flight comes to.
pub enum IdleInput {
    /// Bytes came.
    Bytes(usize),
    /// Nothing came.
    Nothing,
    /// The channel is of no more use.
    Stop(Seq<char>),
}

/// What a read while no request is in flight comes to.
pub open spec fn idle_input(outcome: Result<usize, ChannelError>, room: nat) -> IdleInput {
    match outcome {
        Ok(read) => if read == 0 {
            IdleInput::Stop("channel closed"@)
        } else if read <= room {
            IdleInput::Bytes(read)
        } else {
            IdleInput::Stop("invalid receive length"@)
        },
        Err(error) => if error.timed_out() {
            IdleInput::Nothing
        } else if error is Closed {
            IdleInput::Stop("channel closed"@)
        } else {
            IdleInput::Stop("channel error"@)
        },
    }
}

/// What an attempt that reads comes to before its bytes are looked at.
pub open spec fn read_failure(outcome: ReceiveOutcome, room: nat) -> Option<ExchangeError> {
    match outcome {
        ReceiveOutcome::Elapsed => Some(ExchangeError::ResponseTimeout),
        ReceiveOutcome::Failed(error) => Some(
            if error.timed_out() {
                ExchangeError::ResponseTimeout
            } else {
                ExchangeError::Channel(error)
            },
        ),
        ReceiveOutcome::Read(read) => if read == 0 {
            Some(ExchangeError::Channel(ChannelError::Closed))
        } else if read > room {
            Some(
                ExchangeError::Channel(
                    ChannelError::Configuration(
                        "channel returned more bytes than the receive buffer can hold",
                    ),
                ),
            )
        } else {
            None
        },
    }
}

impl LinkRunner {
    /// The decoder and the router are sound.
    pub closed spec fn well_formed(&self) -> bool {
        &&& self.decoder.well_formed()
        &&& self.burst_hub matches Some(hub) ==> hub.well_formed()
    }

    /// Whether the rotation of the runner fits the queues of a link.
    pub open spec fn serves(&self, link: LinkView) -> bool {
        on_ring(link.queues.slots, self@.cursor)
    }

    pub(crate) fn new(
        decoder: DecodeLimits,
        read_buffer_size: usize,
        maximum_coalesced: usize,
        late_response_guard: Duration,
        event_capacity: usize,
    ) -> (runner: Self)
        requires
            decoder.usable(),
        ensures
            runner.well_formed(),
            runner@.limits == decoder,
            runner@.decoder.buffered == Seq::<u8>::empty(),
            runner@.decoder.statistics == DecodeStatistics::zero(),
            runner@.hub is None,
            runner@.usable,
            runner@.maximum_coalesced == maximum_coalesced,
            runner@.guard == late_response_guard,
            runner@.cursor == (QueueCursor {
                weighted_index: 0,
                weighted_used: 0,
                strict_index: 0,
            }),
            runner@.read_size == read_buffer_size,
            runner@.event_capacity == event_capacity,
    {
        LinkRunner {
            decoder: FrameDecoder::new(decoder),
            read_buffer_size,
            burst_hub: None,
            channel_usable: true,
            maximum_coalesced,
            late_response_guard,
            cursor: QueueCursor::new(),
            event_capacity,
        }
    }

    /// Attaches an unsolicited-message router.
    pub fn with_burst_hub(self, hub: BurstHub) -> (runner: Self)
        requires
            self.well_formed(),
            hub.well_formed(),
        ensures
            runner.well_formed(),
            runner@ == (RunnerView { hub: Some(hub@), ..self@ }),
    {
        LinkRunner { burst_hub: Some(hub), ..self }
    }

    /// Hands out the unsolicited-message router.
    pub fn burst_hub_mut(&mut self) -> (hub: &mut Option<BurstHub>)
        requires
            old(self).well_formed(),
        ensures
            old(self)@.hub is None ==> *hub is None,
            old(self)@.hub matches Some(state) ==> (*hub matches Some(router) && router@ == state
                && router.well_formed()),
            (*final(hub) matches Some(router) ==> router.well_formed()) ==> final(self).well_formed(),
            final(self)@ == (RunnerView {
                hub: match *final(hub) {
                    Some(router) => Some(router@),
                    None => None,
                },
                ..old(self)@
            }),
    {
        &mut self.burst_hub
    }

    /// Returns the size of a read.
    pub fn read_buffer_size(&self) -> (size: usize)
        ensures
            size == self@.read_size,
    {
        self.read_buffer_size
    }

    /// Returns the number of buffered observer events.
    pub fn event_capacity(&self) -> (capacity: usize)
        ensures
            capacity == self@.event_capacity,
    {
        self.event_capacity
    }

    /// Reports whether the channel can still be used.
    pub fn channel_usable(&self) -> (usable: bool)
        ensures
            usable == self@.usable,
    {
        self.channel_usable
    }

    fn route_burst(&mut self, reply: &DeviceReply, now: Duration, received_at: Duration)
        requires
            old(self).well_formed(),
        ensures
            final(self).well_formed(),
            final(self)@ == (RunnerView { hub: final(self)@.hub, ..old(self)@ }),
            routed_once(old(self)@.hub, reply@, now, received_at, final(self)@.hub),
    {
        match self.burst_hub.take() {
            Some(hub) => {
                let mut router = hub;
                let ghost before = router@;
                let copy = reply.clone();
                router.publish(copy, now, received_at);
                assert(published_once(before, reply@, now, received_at, router@));
                self.burst_hub = Some(router);
            },
            None => {},
        }
    }

    /// Takes over what came while no request was in flight. The answer tells
    /// whether the channel can still be used.
    pub fn process_idle_input(
        &mut self,
        link: &mut LinkClient,
        buffer: &Vec<u8>,
        outcome: &Result<usize, ChannelError>,
        now: Duration,
        received_at: Duration,
    ) -> (goes_on: bool)
        requires
            old(self).well_formed(),
            old(link).well_formed(),
        ensures
            final(self).well_formed(),
            final(link).well_formed(),
            match idle_input(*outcome, buffer@.len()) {
                IdleInput::Nothing => goes_on && final(self)@ == old(self)@
                    && final(link)@ == old(link)@,
                IdleInput::Stop(reason) => !goes_on && final(self)@ == old(self)@ && final(link)@
                    == old(link)@.noting(LinkNote::ChannelStopped { reason }),
                IdleInput::Bytes(read) => {
                    let (decoder, events) = old(self)@.decoder.pushed(
                        old(self)@.limits,
                        buffer@.take(read as int),
                    );
                    let heard = idle_heard(events);
                    &&& goes_on
                    &&& final(self)@ == (RunnerView {
                        decoder,
                        hub: final(self)@.hub,
                        ..old(self)@
                    })
                    &&& final(link)@ == (LinkView {
                        notes: old(link)@.notes + heard.notes,
                        ..old(link)@
                    })
                    &&& routed(old(self)@.hub, heard.bursts, now, received_at, final(self)@.hub)
                },
            },
    {
        let read: usize = match outcome {
            Ok(read) => {
                if *read == 0 {
                    link.note(LinkEvent::ChannelStopped { reason: "channel closed" });
                    return false;
                }
                if *read > buffer.len() {
                    link.note(LinkEvent::ChannelStopped { reason: "invalid receive length" });
                    return false;
                }
                *read
            },
            Err(error) => {
                if error.is_timeout() {
                    return true;
                }
                match error {
                    ChannelError::Closed => {
                        link.note(LinkEvent::ChannelStopped { reason: "channel closed" });
                    },
                    _ => {
                        link.note(LinkEvent::ChannelStopped { reason: "channel error" });
                    },
                }
                return false;
            },
        };
        let fragment = copy_range(buffer, 0, read);
        assert(fragment@ =~= buffer@.take(read as int));
        let events = self.decoder.push(&fragment);
        self.hear_idle(link, &events, now, received_at);
        true
    }

    fn hear_idle(
        &mut self,
        link: &mut LinkClient,
        events: &Vec<DecodeEvent>,
        now: Duration,
        received_at: Duration,
    )
        requires
            old(self).well_formed(),
            old(link).well_formed(),
        ensures
            final(self).well_formed(),
            final(link).well_formed(),
            final(self)@ == (RunnerView { hub: final(self)@.hub, ..old(self)@ }),
            final(link)@ == (LinkView {
                notes: old(link)@.notes + idle_heard(event_views(events@)).notes,
                ..old(link)@
            }),
            routed(
                old(self)@.hub,
                idle_heard(event_views(events@)).bursts,
                now,
                received_at,
                final(self)@.hub,
            ),
    {
        let ghost views = event_views(events@);
        let ghost mut bursts: Seq<ReplyView> = Seq::empty();
        let mut index: usize = 0;
        assert(views.skip(0) =~= views);
        assert(old(link)@.notes + idle_heard(views).notes =~= link@.notes + idle_heard(
            views.skip(0),
        ).notes);
        assert(bursts + idle_heard(views.skip(0)).bursts =~= idle_heard(views).bursts);
        while index < events.len()
            invariant
                index <= events@.len(),
                views == event_views(events@),
                self.well_formed(),
                link.well_formed(),
                self@ == (RunnerView { hub: self@.hub, ..old(self)@ }),
                link@ == (LinkView { notes: link@.notes, ..old(link)@ }),
                old(link)@.notes + idle_heard(views).notes == link@.notes + idle_heard(
                    views.skip(index as int),
                ).notes,
                bursts + idle_heard(views.skip(index as int)).bursts == idle_heard(views).bursts,
                routed(old(self)@.hub, bursts, now, received_at, self@.hub),
            decreases events@.len() - index,
        {
            let ghost rest = views.skip(index as int);
            let ghost event = events@[index as int]@;
            let ghost before = self@.hub;
            let ghost notes = link@.notes;
            assert(rest[0] == event);
            assert(rest.drop_first() =~= views.skip(index + 1));
            match &events[index] {
                DecodeEvent::Rejected(error) => {
                    link.note(LinkEvent::IdleRejectedFrame { error: *error });
                    assert(idle_burst(event) =~= Seq::empty());
                },
                DecodeEvent::Frame(frame) => match DeviceReply::from_frame(frame.clone()) {
                    Err(_) => {
                        assert(idle_burst(event) =~= Seq::empty());
                    },
                    Ok(reply) => {
                        let ghost view = reply@;
                        if reply.burst {
                            self.route_burst(&reply, now, received_at);
                            link.note(LinkEvent::Unsolicited(reply));
                            proof {
                                lemma_routed_one_more(
                                    old(self)@.hub,
                                    bursts,
                                    now,
                                    received_at,
                                    before,
                                    view,
                                    self@.hub,
                                );
                                bursts = bursts.push(view);
                            }
                        } else {
                            link.note(LinkEvent::LateResponse(reply));
                            assert(idle_burst(event) =~= Seq::empty());
                        }
                    },
                },
            }
            assert(notes + (idle_note(event) + idle_heard(rest.drop_first()).notes)
                =~= link@.notes + idle_heard(rest.drop_first()).notes);
            index += 1;
            assert(bursts + idle_heard(views.skip(index as int)).bursts =~= idle_heard(
                views,
            ).bursts);
        }
        assert(views.skip(index as int).len() == 0);
        assert(link@.notes + Seq::<LinkNote>::empty() =~= link@.notes);
        assert(bursts + Seq::<ReplyView>::empty() =~= bursts);
    }

    fn take_coalescible_followers(
        &self,
        link: &mut LinkClient,
        queue: QueueId,
        leader: &Job,
        closed: &KeySet<u64>,
    ) -> (followers: Vec<Job>)
        requires
            old(link).well_formed(),
            old(link)@.queues.has(queue),
        ensures
            final(link).well_formed(),
            ({
                let gathered = gather(
                    leader@,
                    old(link)@.queues.slot(queue).entries,
                    closed@,
                    joining_room(leader@, self@.maximum_coalesced),
                );
                &&& followers@ == gathered.followers
                &&& final(link)@ == gathering(old(link)@, queue, gathered)
            }),
    {
        let ghost before = link@;
        let ghost entries = before.queues.slot(queue).entries;
        let ghost room = joining_room(leader@, self@.maximum_coalesced);
        let ghost whole = gather(leader@, entries, closed@, room);
        let mut followers: Vec<Job> = Vec::new();
        proof {
            link.lemma_consistent();
            lemma_rolled_by(before.counters.cancelled, 0);
            lemma_rolled_by(before.counters.coalesced, 0);
        }
        if !leader.leads() || self.maximum_coalesced == 0 {
            proof {
                lemma_unchanged_slot(before.queues, queue);
            }
            assert(before.notes + Seq::<LinkNote>::empty() =~= before.notes);
            assert(link@ =~= gathering(before, queue, whole));
            return followers;
        }
        let ghost mut notes: Seq<LinkNote> = Seq::empty();
        let ghost mut cancelled: nat = 0;
        let ghost mut taken: nat = 0;
        proof {
            lemma_unchanged_slot(before.queues, queue);
            assert(entries.skip(0) =~= entries);
            assert(Seq::<Job>::empty() + whole.followers =~= whole.followers);
            assert(Seq::<LinkNote>::empty() + whole.notes =~= whole.notes);
            assert(before.notes + Seq::<LinkNote>::empty() =~= before.notes);
            assert(link@ =~= gathering(
                before,
                queue,
                Gathered {
                    followers: followers@,
                    rest: entries.skip(0),
                    notes: Seq::empty(),
                    cancelled: 0,
                },
            ));
        }
        while followers.len() < self.maximum_coalesced
            invariant
                link.well_formed(),
                before.queues.consistent(),
                before.queues.has(queue),
                entries == before.queues.slot(queue).entries,
                room == self.maximum_coalesced,
                followers@.len() <= room,
                taken == followers@.len() + cancelled,
                taken <= entries.len(),
                whole == gather(leader@, entries, closed@, room),
                ({
                    let rest = gather(
                        leader@,
                        entries.skip(taken as int),
                        closed@,
                        (room - followers@.len()) as nat,
                    );
                    &&& whole.followers == followers@ + rest.followers
                    &&& whole.rest == rest.rest
                    &&& whole.notes == notes + rest.notes
                    &&& whole.cancelled == cancelled + rest.cancelled
                }),
                link@ == gathering(
                    before,
                    queue,
                    Gathered {
                        followers: followers@,
                        rest: entries.skip(taken as int),
                        notes,
                        cancelled,
                    },
                ),
            ensures
                link.well_formed(),
                followers@ == whole.followers,
                link@ == gathering(before, queue, whole),
            decreases entries.len() - taken,
        {
            let ghost state = link@;
            let ghost rest = entries.skip(taken as int);
            proof {
                lemma_changed_slot(before.queues, queue, state.queues);
            }
            match link.pop_from(queue) {
                None => {
                    assert(rest.len() == 0);
                    assert(followers@ + Seq::<Job>::empty() =~= followers@);
                    assert(notes + Seq::<LinkNote>::empty() =~= notes);
                    assert(whole.rest =~= rest);
                    break ;
                },
                Some(candidate) => {
                    assert(candidate == rest[0]);
                    assert(rest.drop_first() =~= entries.skip(taken as int + 1));
                    let ghost popped = link@;
                    proof {
                        lemma_changed_slot(before.queues, queue, popped.queues);
                    }
                    if !leader.coalesces_with(&candidate) {
                        let ghost job = candidate;
                        link.push_front(queue, candidate);
                        assert(followers@ + Seq::<Job>::empty() =~= followers@);
                        assert(notes + Seq::<LinkNote>::empty() =~= notes);
                        assert(seq![job] + rest.drop_first() =~= rest);
                        assert(link@.queues =~= state.queues) by {
                            lemma_changed_slot(before.queues, queue, link@.queues);
                            assert(link@.queues.slots =~= state.queues.slots);
                        }
                        assert(link@ =~= state);
                        break ;
                    }
                    let id: u64 = candidate.id;
                    if holds(closed, id) {
                        link.finish_entry(queue);
                        link.mark_cancelled(id);
                        proof {
                            lemma_rolled_by(before.counters.cancelled, cancelled);
                            let inner = gather(
                                leader@,
                                rest.drop_first(),
                                closed@,
                                (room - followers@.len()) as nat,
                            );
                            assert(notes + (seq![LinkNote::Cancelled { id }] + inner.notes)
                                =~= notes.push(LinkNote::Cancelled { id }) + inner.notes);
                            assert(before.notes + notes.push(LinkNote::Cancelled { id }) =~= (
                            before.notes + notes).push(LinkNote::Cancelled { id }));
                            notes = notes.push(LinkNote::Cancelled { id });
                            cancelled = cancelled + 1;
                            taken = taken + 1;
                        }
                    } else {
                        link.mark_coalesced(id, leader.id);
                        proof {
                            lemma_rolled_by(before.counters.coalesced, followers@.len());
                            let note = LinkNote::Coalesced { id, leader_id: leader.id };
                            let inner = gather(
                                leader@,
                                rest.drop_first(),
                                closed@,
                                (room - followers@.len() - 1) as nat,
                            );
                            assert(notes + (seq![note] + inner.notes) =~= notes.push(note)
                                + inner.notes);
                            assert(followers@ + (seq![candidate] + inner.followers)
                                =~= followers@.push(candidate) + inner.followers);
                            assert(before.notes + notes.push(note) =~= (before.notes
                                + notes).push(note));
                            notes = notes.push(note);
                            taken = taken + 1;
                        }
                        followers.push(candidate);
                    }
                    proof {
                        let gathered = Gathered {
                            followers: followers@,
                            rest: entries.skip(taken as int),
                            notes,
                            cancelled,
                        };
                        lemma_changed_slot(before.queues, queue, link@.queues);
                        assert(link@.queues.slots =~= gathering(
                            before,
                            queue,
                            gathered,
                        ).queues.slots);
                        assert(link@ =~= gathering(before, queue, gathered));
                    }
                },
            }
        }
        followers
    }

    /// Chooses the request that is served next and the requests that join it.
    /// `closed` holds the identifiers of requests whose waiters are gone.
    pub fn next_job(
        &mut self,
        link: &mut LinkClient,
        closed: &KeySet<u64>,
        now: Duration,
    ) -> (next: NextJob)
        requires
            old(self).well_formed(),
            old(link).well_formed(),
            old(self).serves(old(link)@),
        ensures
            final(self).well_formed(),
            final(link).well_formed(),
            final(self).serves(final(link)@),
            match next_turn(old(link)@.queues.slots, old(self)@.cursor) {
                None => {
                    &&& final(self)@ == old(self)@
                    &&& final(link)@ == old(link)@
                    &&& next == if old(link)@.queues.input_closed {
                        NextJob::Stopped
                    } else {
                        NextJob::Idle
                    }
                },
                Some((index, cursor)) => {
                    let queue = old(link)@.queues.slots[index].id;
                    let job = old(link)@.queues.slots[index].entries[0];
                    let popped = old(link)@.with_queues(
                        old(link)@.queues.popping(index).finishing(queue),
                    );
                    &&& final(self)@ == (RunnerView { cursor, ..old(self)@ })
                    &&& if closed@.contains_key(job.id) {
                        &&& next == NextJob::Skipped
                        &&& final(link)@ == popped.cancelling(job.id)
                    } else if now.nanos >= job.deadline.nanos {
                        &&& next == NextJob::Expired(
                            Notice { id: job.id, result: Err(ExchangeError::Deadline) },
                        )
                        &&& final(link)@ == popped.failing(job.id, ExchangeError::Deadline)
                    } else {
                        let gathered = gather(
                            job@,
                            popped.queues.slot(queue).entries,
                            closed@,
                            joining_room(job@, old(self)@.maximum_coalesced),
                        );
                        &&& selects(next, queue, job, gathered.followers)
                        &&& final(link)@ == gathering(popped, queue, gathered).starting(
                            job.id,
                            job.request.command,
                        )
                        &&& final(link)@.queues.has(queue)
                        &&& final(link)@.queues.in_flight(queue) >= gathered.followers.len()
                    }
                },
            },
    {
        let ghost before = link@;
        proof {
            link.lemma_consistent();
        }
        match link.pop_scheduled(&mut self.cursor) {
            None => {
                if link.input_closed() {
                    NextJob::Stopped
                } else {
                    NextJob::Idle
                }
            },
            Some((queue, job)) => {
                let ghost turn = next_turn(before.queues.slots, old(self)@.cursor)->0;
                let ghost index = turn.0;
                proof {
                    lemma_position(before.queues, index);
                    lemma_changed_slot(before.queues, queue, link@.queues);
                    assert(before.queues.slots[index].entries.len()
                        <= before.queues.slots[index].queued);
                }
                link.finish_entry(queue);
                let ghost popped = link@;
                proof {
                    lemma_changed_slot(before.queues, queue, popped.queues);
                    link.lemma_consistent();
                }
                let id: u64 = job.id;
                if holds(closed, id) {
                    link.mark_cancelled(id);
                    return NextJob::Skipped;
                }
                if now.nanos >= job.deadline.nanos {
                    link.mark_failed(id, &ExchangeError::Deadline);
                    return NextJob::Expired(Notice { id, result: Err(ExchangeError::Deadline) });
                }
                let followers = self.take_coalescible_followers(link, queue, &job, closed);
                proof {
                    let room = joining_room(job@, self@.maximum_coalesced);
                    let waiting = popped.queues.slot(queue).entries;
                    lemma_followers_are_identical(job@, waiting, closed@, room);
                    lemma_changed_slot(popped.queues, queue, link@.queues);
                }
                link.mark_started(id, job.request.command);
                NextJob::Selected(SelectedJob { queue, job, followers })
            },
        }
    }

    fn complete_followers(
        &self,
        link: &mut LinkClient,
        queue: QueueId,
        followers: &Vec<Job>,
        value: &DeviceReply,
        closed: &KeySet<u64>,
        now: Duration,
        notices: &mut Vec<Notice>,
    )
        requires
            old(link).well_formed(),
            old(link)@.queues.has(queue),
            old(link)@.queues.in_flight(queue) >= followers@.len(),
        ensures
            final(link).well_formed(),
            final(link)@ == completing_all(old(link)@, queue, followers@, closed@, now),
            final(link)@.queues.slots.len() == old(link)@.queues.slots.len(),
            notice_views(final(notices)@) == notice_views(old(notices)@) + follower_notices(
                followers@,
                closed@,
                now,
                value@,
            ),
    {
        let ghost before = link@;
        let ghost earlier = notice_views(notices@);
        let mut index: usize = 0;
        proof {
            link.lemma_consistent();
            assert(followers@.take(0).len() == 0);
            assert(earlier + Seq::<NoticeView>::empty() =~= earlier);
        }
        while index < followers.len()
            invariant
                index <= followers@.len(),
                link.well_formed(),
                before.queues.consistent(),
                before.queues.has(queue),
                link@.queues.slots.len() == before.queues.slots.len(),
                forall|at: int|
                    0 <= at < before.queues.slots.len() ==> (#[trigger] link@.queues.slots[at]).id
                        == before.queues.slots[at].id,
                link@.queues.has(queue),
                link@.queues.in_flight(queue) >= followers@.len() - index,
                link@ == completing_all(before, queue, followers@.take(index as int), closed@, now),
                notice_views(notices@) == earlier + follower_notices(
                    followers@.take(index as int),
                    closed@,
                    now,
                    value@,
                ),
            decreases followers@.len() - index,
        {
            let ghost state = link@;
            let ghost sent = notices@;
            proof {
                lemma_changed_slot(before.queues, queue, state.queues);
                assert(followers@.take(index + 1).drop_last() =~= followers@.take(index as int));
                assert(followers@.take(index + 1).last() == followers@[index as int]);
            }
            link.finish_entry(queue);
            proof {
                lemma_changed_slot(before.queues, queue, link@.queues);
            }
            let id: u64 = followers[index].id;
            if holds(closed, id) {
                link.mark_cancelled(id);
            } else if now.nanos >= followers[index].deadline.nanos {
                link.mark_failed(id, &ExchangeError::Deadline);
                let notice = Notice { id, result: Err(ExchangeError::Deadline) };
                notices.push(notice);
                assert(notice_views(notices@) =~= notice_views(sent).push(notice@));
            } else {
                link.mark_completed(id);
                let notice = Notice { id, result: Ok(value.clone()) };
                notices.push(notice);
                assert(notice_views(notices@) =~= notice_views(sent).push(notice@));
            }
            index += 1;
            assert(notice_views(notices@) =~= earlier + follower_notices(
                followers@.take(index as int),
                closed@,
                now,
                value@,
            ));
        }
        assert(followers@.take(index as int) =~= followers@);
    }

    fn requeue_followers(&self, link: &mut LinkClient, queue: QueueId, followers: Vec<Job>)
        requires
            old(link).well_formed(),
            old(link)@.queues.has(queue),
            old(link)@.queues.in_flight(queue) >= followers@.len(),
        ensures
            final(link).well_formed(),
            final(link)@ == requeueing(old(link)@, queue, followers@),
    {
        let ghost before = link@;
        let ghost all = followers@;
        let mut left = followers;
        proof {
            link.lemma_consistent();
            lemma_unchanged_slot(before.queues, queue);
            assert(all.skip(all.len() as int) + before.queues.slot(queue).entries
                =~= before.queues.slot(queue).entries);
            assert(all.take(all.len() as int) =~= all);
        }
        while left.len() > 0
            invariant
                link.well_formed(),
                before.queues.consistent(),
                before.queues.has(queue),
                before.queues.in_flight(queue) >= all.len(),
                left@.len() <= all.len(),
                left@ == all.take(left@.len() as int),
                link@ == requeueing(before, queue, all.skip(left@.len() as int)),
            decreases left@.len(),
        {
            let ghost state = link@;
            let ghost count = left@.len();
            proof {
                lemma_changed_slot(before.queues, queue, state.queues);
            }
            if let Some(job) = left.pop() {
                assert(job == all[count - 1]);
                assert(left@ =~= all.take(count - 1));
                link.push_front(queue, job);
                proof {
                    lemma_changed_slot(before.queues, queue, link@.queues);
                    assert(seq![job] + all.skip(count as int) =~= all.skip(count - 1));
                    assert(seq![job] + (all.skip(count as int) + before.queues.slot(queue).entries)
                        =~= all.skip(count - 1) + before.queues.slot(queue).entries);
                    assert(link@.queues.slots =~= requeueing(
                        before,
                        queue,
                        all.skip(count - 1),
                    ).queues.slots);
                    assert(link@ =~= requeueing(before, queue, all.skip(count - 1)));
                }
            }
        }
        assert(all.skip(0) =~= all);
    }

    /// Takes over the end of an exchange: who gets the result, and which
    /// requests wait again. The second answer tells whether input is to be
    /// dropped for a while.
    pub fn finish_job(
        &mut self,
        link: &mut LinkClient,
        queue: QueueId,
        job: &Job,
        followers: Vec<Job>,
        result: Result<DeviceReply, ExchangeError>,
        closed: &KeySet<u64>,
        now: Duration,
    ) -> (outcome: (Vec<Notice>, bool))
        requires
            old(self).well_formed(),
            old(link).well_formed(),
            old(self).serves(old(link)@),
            old(link)@.queues.has(queue),
            old(link)@.queues.in_flight(queue) >= followers@.len(),
        ensures
            final(self)@ == old(self)@,
            final(self).well_formed(),
            final(link).well_formed(),
            final(self).serves(final(link)@),
            match result {
                Ok(value) => {
                    &&& !outcome.1
                    &&& final(link)@ == completing_all(
                        if closed@.contains_key(job.id) {
                            old(link)@.cancelling(job.id)
                        } else {
                            old(link)@.completing(job.id)
                        },
                        queue,
                        followers@,
                        closed@,
                        now,
                    )
                    &&& notice_views(outcome.0@) == leader_notice(
                        job.id,
                        Ok(value@),
                        closed@,
                    ) + follower_notices(followers@, closed@, now, value@)
                },
                Err(error) => {
                    let requeued = requeueing(old(link)@, queue, followers@);
                    &&& outcome.1 == (error is ResponseTimeout && old(self)@.usable)
                    &&& final(link)@ == if closed@.contains_key(job.id) {
                        requeued.cancelling(job.id)
                    } else {
                        requeued.failing(job.id, error)
                    }
                    &&& notice_views(outcome.0@) == leader_notice(job.id, Err(error), closed@)
                },
            },
    {
        let ghost before = link@;
        let mut notices: Vec<Notice> = Vec::new();
        assert(notice_views(notices@) =~= Seq::<NoticeView>::empty());
        let gone = holds(closed, job.id);
        match result {
            Ok(value) => {
                if gone {
                    link.mark_cancelled(job.id);
                } else {
                    link.mark_completed(job.id);
                    let notice = Notice { id: job.id, result: Ok(value.clone()) };
                    notices.push(notice);
                    assert(notice_views(notices@) =~= seq![notice@]);
                }
                self.complete_followers(link, queue, &followers, &value, closed, now, &mut notices);
                (notices, false)
            },
            Err(error) => {
                let timed_out = match &error {
                    ExchangeError::ResponseTimeout => true,
                    _ => false,
                };
                self.requeue_followers(link, queue, followers);
                if gone {
                    link.mark_cancelled(job.id);
                } else {
                    link.mark_failed(job.id, &error);
                    let notice = Notice { id: job.id, result: Err(error) };
                    notices.push(notice);
                    assert(notice_views(notices@) =~= seq![notice@]);
                }
                (notices, timed_out && self.channel_usable)
            },
        }
    }

    /// Ends the service: every request that waits fails, unless its waiter is gone.
    pub fn fail_pending_jobs(&mut self, link: &mut LinkClient, closed: &KeySet<u64>) -> (notices:
        Vec<Notice>)
        requires
            old(link).well_formed(),
        ensures
            final(self)@ == old(self)@,
            final(self).well_formed() == old(self).well_formed(),
            final(link).well_formed(),
            ({
                let queues = QueueSetView { runner_closed: true, ..old(link)@.queues };
                let count = queues.slots.len() as int;
                let jobs = waiting(queues.slots, count);
                &&& final(link)@ == stopping(old(link)@, jobs, closed@).with_queues(
                    emptied(queues, count),
                )
                &&& notice_views(notices@) == stop_notices(jobs, closed@)
            }),
    {
        let ghost before = link@;
        link.close_runner();
        let ghost queues = link@.queues;
        let snapshots = link.queue_snapshots();
        let mut notices: Vec<Notice> = Vec::new();
        let mut index: usize = 0;
        proof {
            link.lemma_consistent();
            assert(emptied(queues, 0).slots =~= queues.slots);
            assert(notice_views(notices@) =~= Seq::<NoticeView>::empty());
        }
        while index < snapshots.len()
            invariant
                index <= snapshots@.len(),
                snapshots@.len() == queues.slots.len(),
                forall|at: int|
                    0 <= at < snapshots@.len() ==> (#[trigger] snapshots@[at]).id
                        == queues.slots[at].id,
                queues.consistent(),
                link.well_formed(),
                link@ == stopping(
                    before,
                    waiting(queues.slots, index as int),
                    closed@,
                ).with_queues(emptied(queues, index as int)),
                notice_views(notices@) == stop_notices(
                    waiting(queues.slots, index as int),
                    closed@,
                ),
            decreases snapshots@.len() - index,
        {
            let queue = snapshots[index].id;
            self.fail_queue(
                link,
                queue,
                closed,
                &mut notices,
                Ghost(before),
                Ghost(queues),
                Ghost(index as int),
            );
            index += 1;
        }
        notices
    }

    fn fail_queue(
        &self,
        link: &mut LinkClient,
        queue: QueueId,
        closed: &KeySet<u64>,
        notices: &mut Vec<Notice>,
        Ghost(before): Ghost<LinkView>,
        Ghost(queues): Ghost<QueueSetView<Job>>,
        Ghost(index): Ghost<int>,
    )
        requires
            queues.consistent(),
            0 <= index < queues.slots.len(),
            queue == queues.slots[index].id,
            old(link).well_formed(),
            old(link)@ == stopping(before, waiting(queues.slots, index), closed@).with_queues(
                emptied(queues, index),
            ),
            notice_views(old(notices)@) == stop_notices(waiting(queues.slots, index), closed@),
        ensures
            final(link).well_formed(),
            final(link)@ == stopping(
                before,
                waiting(queues.slots, index + 1),
                closed@,
            ).with_queues(emptied(queues, index + 1)),
            notice_views(final(notices)@) == stop_notices(
                waiting(queues.slots, index + 1),
                closed@,
            ),
    {
        let ghost earlier = waiting(queues.slots, index);
        let ghost entries = queues.slots[index].entries;
        let ghost mut taken: int = 0;
        proof {
            assert(earlier + entries.take(0) =~= earlier);
            assert(entries.skip(0) =~= entries);
            assert(partly_emptied(queues, index, 0).slots =~= emptied(queues, index).slots);
        }
        loop
            invariant
                queues.consistent(),
                0 <= index < queues.slots.len(),
                queue == queues.slots[index].id,
                entries == queues.slots[index].entries,
                0 <= taken <= entries.len(),
                link.well_formed(),
                link@ == stopping(before, earlier + entries.take(taken), closed@).with_queues(
                    partly_emptied(queues, index, taken),
                ),
                notice_views(notices@) == stop_notices(earlier + entries.take(taken), closed@),
            ensures
                taken == entries.len(),
            decreases entries.len() - taken,
        {
            proof {
                lemma_position(queues, index);
                lemma_changed_slot(queues, queue, link@.queues);
                link.lemma_consistent();
            }
            match link.pop_from(queue) {
                None => {
                    break ;
                },
                Some(job) => {
                    let ghost jobs = earlier + entries.take(taken);
                    let ghost more = earlier + entries.take(taken + 1);
                    proof {
                        assert(job == entries[taken]);
                        assert(more =~= jobs.push(job));
                        assert(more.drop_last() =~= jobs);
                        lemma_changed_slot(queues, queue, link@.queues);
                    }
                    link.finish_entry(queue);
                    let id: u64 = job.id;
                    let ghost sent = notices@;
                    if holds(closed, id) {
                        link.mark_cancelled(id);
                    } else {
                        link.mark_failed(id, &ExchangeError::RunnerStopped);
                        let notice = Notice { id, result: Err(ExchangeError::RunnerStopped) };
                        notices.push(notice);
                        assert(notice_views(notices@) =~= notice_views(sent).push(notice@));
                    }
                    proof {
                        lemma_changed_slot(queues, queue, link@.queues);
                        assert(entries.skip(taken).drop_first() =~= entries.skip(taken + 1));
                        assert(link@.queues.slots =~= partly_emptied(
                            queues,
                            index,
                            taken + 1,
                        ).slots);
                        taken = taken + 1;
                        assert(link@ =~= stopping(before, more, closed@).with_queues(
                            partly_emptied(queues, index, taken),
                        ));
                    }
                },
            }
        }
        proof {
            assert(entries.take(taken) =~= entries);
            assert(entries.skip(taken) =~= Seq::<Job>::empty());
            assert(partly_emptied(queues, index, taken).slots =~= emptied(queues, index + 1).slots);
        }
    }

    /// Takes over the end of the sending of a request. Without all bytes sent
    /// the channel is of no more use.
    pub fn send_finished(&mut self, outcome: SendOutcome) -> (result: Result<(), ExchangeError>)
        requires
            old(self).well_formed(),
        ensures
            final(self).well_formed(),
            match outcome {
                SendOutcome::Sent => result == Ok::<(), ExchangeError>(())
                    && final(self)@ == old(self)@,
                SendOutcome::Failed(error) => result == Err::<(), ExchangeError>(
                    ExchangeError::Channel(error),
                ) && final(self)@ == (RunnerView { usable: false, ..old(self)@ }),
                SendOutcome::Elapsed => result == Err::<(), ExchangeError>(
                    ExchangeError::SendTimeout,
                ) && final(self)@ == (RunnerView { usable: false, ..old(self)@ }),
            },
    {
        match outcome {
            SendOutcome::Sent => Ok(()),
            SendOutcome::Failed(error) => {
                self.channel_usable = false;
                Err(ExchangeError::Channel(error))
            },
            SendOutcome::Elapsed => {
                self.channel_usable = false;
                Err(ExchangeError::SendTimeout)
            },
        }
    }

    /// Takes over a read while a request is in flight: the response, or
    /// nothing yet, or why the attempt is over.
    pub fn receive_finished(
        &mut self,
        link: &mut LinkClient,
        exchange: &Exchange,
        buffer: &Vec<u8>,
        outcome: ReceiveOutcome,
        now: Duration,
        received_at: Duration,
    ) -> (result: Result<Option<DeviceReply>, ExchangeError>)
        requires
            old(self).well_formed(),
            old(link).well_formed(),
            exchange.well_formed(),
        ensures
            final(self).well_formed(),
            final(link).well_formed(),
            match read_failure(outcome, buffer@.len()) {
                Some(error) => {
                    &&& result == Err::<Option<DeviceReply>, ExchangeError>(error)
                    &&& final(link)@ == old(link)@
                    &&& final(self)@ == (RunnerView {
                        usable: old(self)@.usable && error is ResponseTimeout,
                        ..old(self)@
                    })
                },
                None => {
                    let (decoder, events) = old(self)@.decoder.pushed(
                        old(self)@.limits,
                        buffer@.take(outcome->Read_0 as int),
                    );
                    let heard = heard(events, exchange@.job.request.frame(), exchange@.job.id);
                    &&& final(self)@ == (RunnerView {
                        decoder,
                        hub: final(self)@.hub,
                        ..old(self)@
                    })
                    &&& final(link)@ == (LinkView {
                        notes: old(link)@.notes + heard.notes,
                        ..old(link)@
                    })
                    &&& routed(old(self)@.hub, heard.bursts, now, received_at, final(self)@.hub)
                    &&& receives(result, heard.answer)
                },
            },
    {
        let read: usize = match outcome {
            ReceiveOutcome::Elapsed => {
                return Err(ExchangeError::ResponseTimeout);
            },
            ReceiveOutcome::Failed(error) => {
                if error.is_timeout() {
                    return Err(ExchangeError::ResponseTimeout);
                }
                self.channel_usable = false;
                return Err(ExchangeError::Channel(error));
            },
            ReceiveOutcome::Read(read) => read,
        };
        if read == 0 {
            self.channel_usable = false;
            return Err(ExchangeError::Channel(ChannelError::Closed));
        }
        if read > buffer.len() {
            self.channel_usable = false;
            return Err(
                ExchangeError::Channel(
                    ChannelError::Configuration(
                        "channel returned more bytes than the receive buffer can hold",
                    ),
                ),
            );
        }
        let fragment = copy_range(buffer, 0, read);
        assert(fragment@ =~= buffer@.take(read as int));
        let events = self.decoder.push(&fragment);
        Ok(self.hear(link, exchange, &events, now, received_at))
    }

    fn hear(
        &mut self,
        link: &mut LinkClient,
        exchange: &Exchange,
        events: &Vec<DecodeEvent>,
        now: Duration,
        received_at: Duration,
    ) -> (answer: Option<DeviceReply>)
        requires
            old(self).well_formed(),
            old(link).well_formed(),
            exchange.well_formed(),
        ensures
            final(self).well_formed(),
            final(link).well_formed(),
            ({
                let heard = heard(
                    event_views(events@),
                    exchange@.job.request.frame(),
                    exchange@.job.id,
                );
                &&& final(self)@ == (RunnerView { hub: final(self)@.hub, ..old(self)@ })
                &&& final(link)@ == (LinkView {
                    notes: old(link)@.notes + heard.notes,
                    ..old(link)@
                })
                &&& routed(old(self)@.hub, heard.bursts, now, received_at, final(self)@.hub)
                &&& reply_view(answer) == heard.answer
            }),
    {
        let ghost views = event_views(events@);
        let ghost request = exchange@.job.request.frame();
        let id: u64 = exchange.job().id;
        let ghost whole = heard(views, request, id);
        let ghost mut bursts: Seq<ReplyView> = Seq::empty();
        let mut index: usize = 0;
        assert(views.skip(0) =~= views);
        assert(Seq::<ReplyView>::empty() + whole.bursts =~= whole.bursts);
        while index < events.len()
            invariant
                index <= events@.len(),
                views == event_views(events@),
                exchange.well_formed(),
                request == exchange@.job.request.frame(),
                id == exchange@.job.id,
                whole == heard(views, request, id),
                self.well_formed(),
                link.well_formed(),
                self@ == (RunnerView { hub: self@.hub, ..old(self)@ }),
                link@ == (LinkView { notes: link@.notes, ..old(link)@ }),
                old(link)@.notes + whole.notes == link@.notes + heard(
                    views.skip(index as int),
                    request,
                    id,
                ).notes,
                bursts + heard(views.skip(index as int), request, id).bursts == whole.bursts,
                heard(views.skip(index as int), request, id).answer == whole.answer,
                routed(old(self)@.hub, bursts, now, received_at, self@.hub),
            decreases events@.len() - index,
        {
            let ghost rest = views.skip(index as int);
            let ghost event = events@[index as int]@;
            let ghost before = self@.hub;
            let ghost notes = link@.notes;
            let ghost later = heard(rest.drop_first(), request, id);
            assert(rest[0] == event);
            assert(rest.drop_first() =~= views.skip(index + 1));
            let finding = interpret(&events[index], exchange.frame());
            let ghost found = finding@;
            match finding {
                Finding::Rejected(error) => {
                    link.note(LinkEvent::RejectedFrame { id, error });
                },
                Finding::Echo => {
                    link.note(LinkEvent::EchoDiscarded { id });
                },
                Finding::Ignored => {},
                Finding::Unsolicited(reply) => {
                    let ghost view = reply@;
                    self.route_burst(&reply, now, received_at);
                    link.note(LinkEvent::Unsolicited(reply));
                    proof {
                        lemma_routed_one_more(
                            old(self)@.hub,
                            bursts,
                            now,
                            received_at,
                            before,
                            view,
                            self@.hub,
                        );
                        assert(bursts + (seq![view] + later.bursts) =~= bursts.push(view)
                            + later.bursts);
                        bursts = bursts.push(view);
                    }
                },
                Finding::Answer(reply) => {
                    assert(link@.notes + Seq::<LinkNote>::empty() =~= link@.notes);
                    assert(bursts + Seq::<ReplyView>::empty() =~= bursts);
                    return Some(reply);
                },
                Finding::Stale(reply) => {
                    link.note(LinkEvent::StaleFrame { id, command: reply.command });
                },
            }
            assert(notes + (note_of(found, id) + later.notes) =~= link@.notes + later.notes);
            assert(Seq::<ReplyView>::empty() + later.bursts =~= later.bursts);
            index += 1;
        }
        assert(views.skip(index as int).len() == 0);
        assert(link@.notes + Seq::<LinkNote>::empty() =~= link@.notes);
        assert(bursts + Seq::<ReplyView>::empty() =~= bursts);
        None
    }

    /// Takes over the end of an attempt and reports a retry.
    pub fn settle_attempt(
        &mut self,
        link: &mut LinkClient,
        exchange: &mut Exchange,
        attempt: Result<DeviceReply, ExchangeError>,
        now: Duration,
    ) -> (step: ExchangeStep)
        requires
            old(link).well_formed(),
            old(exchange).well_formed(),
        ensures
            final(self)@ == old(self)@,
            final(self).well_formed() == old(self).well_formed(),
            final(link).well_formed(),
            final(exchange).well_formed(),
            final(exchange).request() == old(exchange).request(),
            final(exchange)@ == match attempt {
                Ok(reply) => old(exchange)@.after_reply(reply@.response_code),
                Err(error) => old(exchange)@.after_error(error),
            },
            ({
                let note = match attempt {
                    Ok(reply) => old(exchange)@.reply_step(reply@, now),
                    Err(error) => old(exchange)@.error_step(error),
                };
                let id = old(exchange)@.job.id;
                match note {
                    StepNote::Answered(reply) => answered_with(step, reply)
                        && final(link)@ == old(link)@,
                    StepNote::Failed(error) => failed_with(step, error)
                        && final(link)@ == old(link)@,
                    StepNote::Repeat { cause, attempt, wake } => step == (ExchangeStep::Repeat {
                        cause,
                        attempt,
                        wake,
                    }) && final(link)@ == old(link)@.noting(
                        LinkNote::Retrying { id, attempt, cause },
                    ),
                    StepNote::TooLate { cause, attempt } => failed_with(
                        step,
                        ExchangeError::Deadline,
                    ) && final(link)@ == old(link)@.noting(
                        LinkNote::Retrying { id, attempt, cause },
                    ),
                }
            }),
    {
        let id: u64 = exchange.job().id;
        let (retry, step) = match attempt {
            Ok(reply) => exchange.settle_reply(reply, now),
            Err(error) => exchange.settle_error(error),
        };
        if let Some((cause, attempt)) = retry {
            link.note(LinkEvent::Retrying { id, attempt, cause });
        }
        step
    }

    /// Returns until when input is dropped after silence, where it is dropped.
    pub fn drain_deadline(&self, now: Duration) -> (deadline: Option<Duration>)
        ensures
            deadline == if self@.guard.nanos == 0 {
                None::<Duration>
            } else {
                later(now, self@.guard)
            },
    {
        if self.late_response_guard.is_zero() {
            return None;
        }
        deadline_after(now, self.late_response_guard)
    }

    /// Takes over a read while input is dropped. The answer tells whether to
    /// go on; a channel that stopped is of no more use.
    pub fn drain_late_responses(
        &mut self,
        link: &mut LinkClient,
        buffer: &Vec<u8>,
        outcome: &Result<usize, ChannelError>,
        now: Duration,
        received_at: Duration,
    ) -> (goes_on: bool)
        requires
            old(self).well_formed(),
            old(link).well_formed(),
        ensures
            final(self).well_formed(),
            final(link).well_formed(),
            match idle_input(*outcome, buffer@.len()) {
                IdleInput::Nothing => goes_on && final(self)@ == old(self)@
                    && final(link)@ == old(link)@,
                IdleInput::Stop(reason) => !goes_on && final(self)@ == (RunnerView {
                    usable: false,
                    ..old(self)@
                }) && final(link)@ == old(link)@.noting(LinkNote::ChannelStopped { reason }),
                IdleInput::Bytes(read) => {
                    let (decoder, events) = old(self)@.decoder.pushed(
                        old(self)@.limits,
                        buffer@.take(read as int),
                    );
                    let heard = idle_heard(events);
                    &&& goes_on
                    &&& final(self)@ == (RunnerView {
                        decoder,
                        hub: final(self)@.hub,
                        ..old(self)@
                    })
                    &&& final(link)@ == (LinkView {
                        notes: old(link)@.notes + heard.notes,
                        ..old(link)@
                    })
                    &&& routed(old(self)@.hub, heard.bursts, now, received_at, final(self)@.hub)
                },
            },
    {
        let goes_on = self.process_idle_input(link, buffer, outcome, now, received_at);
        if !goes_on {
            self.channel_usable = false;
        }
        goes_on
    }
}

/// The view of a reply, if there is one.
pub open spec fn reply_view(reply: Option<DeviceReply>) -> Option<ReplyView> {
    match reply {
        Some(reply) => Some(reply@),
        None => None,
    }
}

/// Whether a read gave a response, or none yet.
pub open spec fn receives(
    result: Result<Option<DeviceReply>, ExchangeError>,
    answer: Option<ReplyView>,
) -> bool {
    result matches Ok(reply) && reply_view(reply) == answer
}

/// The queues after the first of them and some requests of the next were taken out.
spec fn partly_emptied(queues: QueueSetView<Job>, index: int, taken: int) -> QueueSetView<Job> {
    let base = emptied(queues, index);
    QueueSetView {
        slots: base.slots.update(
            index,
            SlotView {
                entries: queues.slots[index].entries.skip(taken),
                queued: (queues.slots[index].queued - taken) as nat,
                ..queues.slots[index]
            },
        ),
        ..base
    }
}

/// Whether an exchange starts with given requests.
pub open spec fn selects(next: NextJob, queue: QueueId, job: Job, followers: Seq<Job>) -> bool {
    next matches NextJob::Selected(selected) && selected.queue == queue && selected.job == job
        && selected.followers@ == followers
}

/// The notice to the request that was sent, unless its waiter is gone.
pub open spec fn leader_notice(
    id: u64,
    result: Result<ReplyView, ExchangeError>,
    closed: Map<u64, ()>,
) -> Seq<NoticeView> {
    if closed.contains_key(id) {
        Seq::empty()
    } else {
        seq![NoticeView { id, result }]
    }
}

proof fn lemma_unchanged_slot(queues: QueueSetView<Job>, queue: QueueId)
    requires
        queues.has(queue),
    ensures
        queues.with_slot(queue, queues.slot(queue)) == queues,
        queues.slot(queue).id == queue,
        0 <= queues.position(queue)->0 < queues.slots.len(),
{
    assert(queues.with_slot(queue, queues.slot(queue)).slots =~= queues.slots);
}

proof fn lemma_changed_slot(before: QueueSetView<Job>, queue: QueueId, after: QueueSetView<Job>)
    requires
        before.consistent(),
        before.has(queue),
        after.slots.len() == before.slots.len(),
        forall|index: int|
            0 <= index < before.slots.len() ==> (#[trigger] after.slots[index]).id
                == before.slots[index].id,
    ensures
        after.has(queue),
        after.position(queue) == before.position(queue),
        0 <= before.position(queue)->0 < before.slots.len(),
{
    let index = before.position(queue)->0;
    assert(after.slots[index].id == queue);
    let found = after.position(queue)->0;
    assert(after.slots[found].id == before.slots[found].id);
    if found < index {
        assert(before.slots[found].id != before.slots[index].id);
    } else if index < found {
        assert(before.slots[index].id != before.slots[found].id);
    }
}

proof fn lemma_routed_one_more(
    before: Option<BurstView>,
    replies: Seq<ReplyView>,
    now: Duration,
    received_at: Duration,
    between: Option<BurstView>,
    reply: ReplyView,
    after: Option<BurstView>,
)
    requires
        routed(before, replies, now, received_at, between),
        routed_once(between, reply, now, received_at, after),
    ensures
        routed(before, replies.push(reply), now, received_at, after),
{
    if let Some(last) = after {
        let result = choose|result: Result<Publication, BurstPublishError>|
            published(between->0, reply, now, received_at, result, last);
        let all = replies.push(reply);
        assert(all.drop_last() =~= replies);
        assert(all.last() == reply);
        assert(delivered(before->0, all.drop_last(), now, received_at, between->0) && published(
            between->0,
            all.last(),
            now,
            received_at,
            result,
            last,
        ));
        assert(delivered(before->0, all, now, received_at, last));
    }
}

/// After a request that was not answered, late bytes are drained for the time
/// of the guard, and not at all without a guard.
pub proof fn lemma_guard_time(runner: LinkRunner, now: Duration, deadline: Option<Duration>)
    requires
        call_ensures(LinkRunner::drain_deadline, (&runner, now), deadline),
    ensures
        runner@.guard.nanos == 0 ==> deadline is None,
        0 < runner@.guard.nanos && now.nanos + runner@.guard.nanos <= MAXIMUM_NANOSECONDS ==> (
        deadline matches Some(end) && end.nanos == now.nanos + runner@.guard.nanos),
{
}

} // verus!
