//! Construction of a link from validated settings.

use vstd::prelude::*;

use crate::service::burst::BurstHub;
use crate::service::config::{LinkBuildError, LinkConfig, LinkConfigError};
use crate::service::event::LinkNote;
use crate::service::link::{fresh_queues, LinkClient, LinkCounters};
use crate::service::policy::{CommandPolicy, CommandRouting};
use crate::service::queue_set::{
    layout_violation, queues_violation, reserved, taken, validate_layout, QueueConfig,
    QueueConfigError, QueueCursor, QueueId, MAXIMUM_TOTAL_QUEUE_CAPACITY,
};
use crate::service::retry::RetryPolicy;
use crate::service::runner::LinkRunner;
use crate::time::Duration;
use crate::wire::{DecodeLimits, DecodeStatistics};

verus! {

/// Largest observer event channel accepted by [`LinkBuilder`].
pub const MAXIMUM_LINK_EVENT_CAPACITY: usize = 1_048_576;

/// Default drain period in nanoseconds after a response timeout on a protocol
/// without transaction identifiers.
pub const DEFAULT_LATE_RESPONSE_GUARD: u128 = 25_000_000;

/// Largest accepted post-timeout quarantine interval in nanoseconds.
pub const MAXIMUM_LATE_RESPONSE_GUARD: u128 = 60_000_000_000;

/// Fluent construction of a queue, runner, defaults, and optional Burst router.
#[derive(Debug)]
pub struct LinkBuilder {
    config: LinkConfig,
    event_capacity: usize,
    maximum_coalesced: usize,
    queue_layout: Option<Vec<QueueConfig>>,
    default_queue: QueueId,
    default_retry: RetryPolicy,
    burst_hub: Option<BurstHub>,
    late_response_guard: Duration,
    command_policy: CommandPolicy,
    command_routing: CommandRouting,
}

/// What a builder holds.
pub struct BuilderView {
    /// Capacities.
    pub config: LinkConfig,
    /// Number of buffered observer events.
    pub event_capacity: usize,
    /// How many requests may join an exchange.
    pub maximum_coalesced: usize,
    /// Queues, where they are not the default one.
    pub layout: Option<Seq<QueueConfig>>,
    /// Queue of requests that name none.
    pub default_queue: QueueId,
    /// Retry limits of requests that set none.
    pub default_retry: RetryPolicy,
    /// Router of unsolicited messages.
    pub hub: Option<BurstHub>,
    /// How long input is dropped after silence.
    pub guard: Duration,
    /// Admission policy.
    pub policy: CommandPolicy,
    /// Routing.
    pub routing: CommandRouting,
}

/// Whether a layout is the one weighted queue of a link that configures none.
pub open spec fn single_queue(layout: Seq<QueueConfig>, capacity: usize) -> bool {
    &&& layout.len() == 1
    &&& layout[0].name() == QueueId(0)
    &&& layout[0].room() == capacity
    &&& layout[0].policy().weighs(1)
}

impl View for LinkBuilder {
    type V = BuilderView;

    closed spec fn view(&self) -> BuilderView {
        BuilderView {
            config: self.config,
            event_capacity: self.event_capacity,
            maximum_coalesced: self.maximum_coalesced,
            layout: match self.queue_layout {
                Some(layout) => Some(layout@),
                None => None,
            },
            default_queue: self.default_queue,
            default_retry: self.default_retry,
            hub: self.burst_hub,
            guard: self.late_response_guard,
            policy: self.command_policy,
            routing: self.command_routing,
        }
    }
}

impl BuilderView {
    /// A builder that nothing was set in.
    pub open spec fn standard() -> BuilderView {
        BuilderView {
            config: LinkConfig::standard(),
            event_capacity: 512,
            maximum_coalesced: 64,
            layout: None,
            default_queue: QueueId(0),
            default_retry: RetryPolicy::standard(),
            hub: None,
            guard: Duration { nanos: DEFAULT_LATE_RESPONSE_GUARD },
            policy: CommandPolicy::AllowAll,
            routing: CommandRouting::PreserveRequested,
        }
    }

    /// What is wrong with the layout, if anything. The one default queue is
    /// always usable, but only as the default.
    pub open spec fn layout_error(self) -> Option<QueueConfigError> {
        match self.layout {
            Some(layout) => layout_violation(layout, self.default_queue),
            None => if self.default_queue == QueueId(0) {
                None
            } else {
                Some(QueueConfigError::MissingDefault(self.default_queue))
            },
        }
    }

    /// What is wrong with the settings, if anything.
    pub open spec fn violation(self, now: Duration) -> Option<LinkBuildError> {
        if self.config.violation() is Some {
            Some(LinkBuildError::Config(self.config.violation()->0))
        } else if self.default_retry.runtime_violation(now) is Some {
            Some(LinkBuildError::RetryPolicy(self.default_retry.runtime_violation(now)->0))
        } else if self.event_capacity == 0 {
            Some(LinkBuildError::EventCapacity)
        } else if self.event_capacity > MAXIMUM_LINK_EVENT_CAPACITY {
            Some(LinkBuildError::EventCapacityLimit(self.event_capacity))
        } else if self.guard.nanos > MAXIMUM_LATE_RESPONSE_GUARD {
            Some(LinkBuildError::LateResponseGuard)
        } else if self.layout_error() is Some {
            Some(LinkBuildError::Queues(self.layout_error()->0))
        } else {
            None
        }
    }

    /// Whether a link has the queues of a layout and the settings of this builder.
    pub open spec fn describes(
        self,
        layout: Seq<QueueConfig>,
        client: LinkClient,
        runner: LinkRunner,
    ) -> bool {
        &&& client.well_formed()
        &&& runner.well_formed()
        &&& runner.serves(client@)
        &&& client@.queues == fresh_queues(layout)
        &&& client@.counters == LinkCounters::zero()
        &&& client@.last_id == 0
        &&& client@.notes == Seq::<LinkNote>::empty()
        &&& client@.default_queue == self.default_queue
        &&& client@.default_retry == self.default_retry
        &&& client@.policy == self.policy
        &&& client@.routing == self.routing
        &&& runner@.limits == self.config.decoder
        &&& runner@.decoder.buffered == Seq::<u8>::empty()
        &&& runner@.decoder.statistics == DecodeStatistics::zero()
        &&& runner@.cursor == (QueueCursor { weighted_index: 0, weighted_used: 0, strict_index: 0 })
        &&& runner@.usable
        &&& runner@.hub == match self.hub {
            Some(hub) => Some(hub@),
            None => None,
        }
        &&& runner@.maximum_coalesced == self.maximum_coalesced
        &&& runner@.guard == self.guard
        &&& runner@.read_size == self.config.read_buffer_size
        &&& runner@.event_capacity == self.event_capacity
    }

    /// Whether a link is the one that this builder describes.
    pub open spec fn built(self, client: LinkClient, runner: LinkRunner) -> bool {
        match self.layout {
            Some(layout) => self.describes(layout, client, runner),
            None => exists|layout: Seq<QueueConfig>|
                single_queue(layout, self.config.queue_capacity) && #[trigger] self.describes(
                    layout,
                    client,
                    runner,
                ),
        }
    }
}

fn default_layout(capacity: usize) -> (layout: Vec<QueueConfig>)
    requires
        QueueConfig::violation(QueueId(0), capacity) is None,
    ensures
        single_queue(layout@, capacity),
{
    let mut layout: Vec<QueueConfig> = Vec::new();
    if let Ok(config) = QueueConfig::weighted(QueueId::new(0), capacity, 1) {
        layout.push(config);
    }
    layout
}

proof fn lemma_single_queue(layout: Seq<QueueConfig>, capacity: usize, default: QueueId)
    requires
        single_queue(layout, capacity),
        capacity <= MAXIMUM_TOTAL_QUEUE_CAPACITY,
    ensures
        layout_violation(layout, default) == if default == QueueId(0) {
            None::<QueueConfigError>
        } else {
            Some(QueueConfigError::MissingDefault(default))
        },
{
    reveal_with_fuel(reserved, 2);
    reveal_with_fuel(queues_violation, 3);
    assert(!taken(layout, 0, layout[0].name()));
    if default == QueueId(0) {
        assert(layout[0].name() == default);
        assert(taken(layout, 1, default));
    }
}

impl Default for LinkBuilder {
    fn default() -> (builder: Self)
        ensures
            builder@ == BuilderView::standard(),
            builder.well_formed(),
    {
        LinkBuilder::new()
    }
}

impl LinkBuilder {
    /// The router is sound.
    pub closed spec fn well_formed(&self) -> bool {
        self.burst_hub matches Some(hub) ==> hub.well_formed()
    }

    /// Starts with conservative production defaults.
    pub fn new() -> (builder: Self)
        ensures
            builder@ == BuilderView::standard(),
            builder.well_formed(),
    {
        LinkBuilder {
            config: LinkConfig::default(),
            event_capacity: 512,
            maximum_coalesced: 64,
            queue_layout: None,
            default_queue: QueueId::new(0),
            default_retry: RetryPolicy::default(),
            burst_hub: None,
            late_response_guard: Duration::from_millis(25),
            command_policy: CommandPolicy::default(),
            command_routing: CommandRouting::default(),
        }
    }

    /// Replaces queue and decoder settings.
    pub fn config(self, config: LinkConfig) -> (builder: Self)
        ensures
            builder@ == (BuilderView { config, ..self@ }),
            builder.well_formed() == self.well_formed(),
    {
        LinkBuilder { config, ..self }
    }

    /// Replaces the complete queue layout.
    ///
    /// Queue order is also the deterministic rotation order for weighted peers. Validation is
    /// deferred to [`Self::build`] so a layout can be assembled without partial runtime state.
    pub fn queues(self, queues: Vec<QueueConfig>) -> (builder: Self)
        ensures
            builder@ == (BuilderView { layout: Some(queues@), ..self@ }),
            builder.well_formed() == self.well_formed(),
    {
        LinkBuilder { queue_layout: Some(queues), ..self }
    }

    /// Sets the maximum transport-read allocation.
    pub fn read_buffer_size(self, read_buffer_size: usize) -> (builder: Self)
        ensures
            builder@ == (BuilderView {
                config: LinkConfig { read_buffer_size, ..self@.config },
                ..self@
            }),
            builder.well_formed() == self.well_formed(),
    {
        let config = LinkConfig { read_buffer_size, ..self.config };
        LinkBuilder { config, ..self }
    }

    /// Replaces streaming decoder limits.
    pub fn decoder(self, decoder: DecodeLimits) -> (builder: Self)
        ensures
            builder@ == (BuilderView { config: LinkConfig { decoder, ..self@.config }, ..self@ }),
            builder.well_formed() == self.well_formed(),
    {
        let config = LinkConfig { decoder, ..self.config };
        LinkBuilder { config, ..self }
    }

    /// Sets the number of buffered observer events.
    pub fn event_capacity(self, event_capacity: usize) -> (builder: Self)
        ensures
            builder@ == (BuilderView { event_capacity, ..self@ }),
            builder.well_formed() == self.well_formed(),
    {
        LinkBuilder { event_capacity, ..self }
    }

    /// Limits followers joined to one identical read-only exchange; zero disables coalescing.
    pub fn maximum_coalesced(self, maximum_coalesced: usize) -> (builder: Self)
        ensures
            builder@ == (BuilderView { maximum_coalesced, ..self@ }),
            builder.well_formed() == self.well_formed(),
    {
        LinkBuilder { maximum_coalesced, ..self }
    }

    /// Selects the queue used by convenience methods on [`LinkClient`].
    pub fn default_queue(self, default_queue: QueueId) -> (builder: Self)
        ensures
            builder@ == (BuilderView { default_queue, ..self@ }),
            builder.well_formed() == self.well_formed(),
    {
        LinkBuilder { default_queue, ..self }
    }

    /// Sets the retry policy used by the convenience methods on [`LinkClient`].
    pub fn default_retry(self, default_retry: RetryPolicy) -> (builder: Self)
        ensures
            builder@ == (BuilderView { default_retry, ..self@ }),
            builder.well_formed() == self.well_formed(),
    {
        LinkBuilder { default_retry, ..self }
    }

    /// Applies admission control before a request occupies queue capacity.
    pub fn command_policy(self, command_policy: CommandPolicy) -> (builder: Self)
        ensures
            builder@ == (BuilderView { policy: command_policy, ..self@ }),
            builder.well_formed() == self.well_formed(),
    {
        LinkBuilder { command_policy, ..self }
    }

    /// Applies automatic command-to-queue routing before admission control.
    pub fn command_routing(self, command_routing: CommandRouting) -> (builder: Self)
        ensures
            builder@ == (BuilderView { routing: command_routing, ..self@ }),
            builder.well_formed() == self.well_formed(),
    {
        LinkBuilder { command_routing, ..self }
    }

    /// Routes unsolicited Burst frames through the supplied hub.
    pub fn burst_hub(self, burst_hub: BurstHub) -> (builder: Self)
        requires
            burst_hub.well_formed(),
        ensures
            builder@ == (BuilderView { hub: Some(burst_hub), ..self@ }),
            builder.well_formed(),
    {
        LinkBuilder { burst_hub: Some(burst_hub), ..self }
    }

    /// Sets the input-drain period after a response timeout; zero disables the guard.
    pub fn late_response_guard(self, late_response_guard: Duration) -> (builder: Self)
        ensures
            builder@ == (BuilderView { guard: late_response_guard, ..self@ }),
            builder.well_formed() == self.well_formed(),
    {
        LinkBuilder { late_response_guard, ..self }
    }

    /// Validates all settings, by a clock that shows `now`, and creates the
    /// connected client-runner pair.
    pub fn build(self, now: Duration) -> (result: Result<(LinkClient, LinkRunner), LinkBuildError>)
        requires
            self.well_formed(),
        ensures
            match self@.violation(now) {
                Some(error) => result == Err::<(LinkClient, LinkRunner), LinkBuildError>(error),
                None => result matches Ok((client, runner)) && self@.built(client, runner),
            },
    {
        let ghost view = self@;
        if let Err(error) = self.config.validate() {
            return Err(LinkBuildError::Config(error));
        }
        if let Err(error) = self.default_retry.validate_runtime(now) {
            return Err(LinkBuildError::RetryPolicy(error));
        }
        if self.event_capacity == 0 {
            return Err(LinkBuildError::EventCapacity);
        }
        if self.event_capacity > MAXIMUM_LINK_EVENT_CAPACITY {
            return Err(LinkBuildError::EventCapacityLimit(self.event_capacity));
        }
        if self.late_response_guard.nanos > MAXIMUM_LATE_RESPONSE_GUARD {
            return Err(LinkBuildError::LateResponseGuard);
        }
        let capacity: usize = self.config.queue_capacity;
        let layout = match self.queue_layout {
            Some(layout) => layout,
            None => {
                let layout = default_layout(capacity);
                proof {
                    lemma_single_queue(layout@, capacity, self.default_queue);
                }
                layout
            },
        };
        if let Err(error) = validate_layout(&layout, self.default_queue) {
            return Err(LinkBuildError::Queues(error));
        }
        let client = LinkClient::new(
            &layout,
            self.default_queue,
            self.default_retry,
            self.command_policy,
            self.command_routing,
        );
        let runner = LinkRunner::new(
            self.config.decoder,
            self.config.read_buffer_size,
            self.maximum_coalesced,
            self.late_response_guard,
            self.event_capacity,
        );
        let runner = match self.burst_hub {
            Some(hub) => runner.with_burst_hub(hub),
            None => runner,
        };
        assert(view.describes(layout@, client, runner));
        Ok((client, runner))
    }
}

/// Creates a connected client-runner pair from settings held within their bounds.
///
/// Invalid capacities are clamped. Applications that want invalid
/// configuration reported explicitly call [`try_create_link`] or [`LinkBuilder`].
pub fn create_link(config: LinkConfig) -> (link: (LinkClient, LinkRunner))
    ensures
        (BuilderView { config: config.normal(), ..BuilderView::standard() }).built(link.0, link.1),
{
    build_link(config.normalized())
}

/// Validates the complete configuration and creates a connected client-runner pair.
pub fn try_create_link(config: LinkConfig) -> (result: Result<
    (LinkClient, LinkRunner),
    LinkConfigError,
>)
    ensures
        match config.violation() {
            Some(error) => result == Err::<(LinkClient, LinkRunner), LinkConfigError>(error),
            None => result matches Ok((client, runner)) && (BuilderView {
                config,
                ..BuilderView::standard()
            }).built(client, runner),
        },
{
    config.validate()?;
    Ok(build_link(config))
}

fn build_link(config: LinkConfig) -> (link: (LinkClient, LinkRunner))
    requires
        config.violation() is None,
    ensures
        (BuilderView { config, ..BuilderView::standard() }).built(link.0, link.1),
{
    let ghost view = BuilderView { config, ..BuilderView::standard() };
    let layout = default_layout(config.queue_capacity);
    proof {
        lemma_single_queue(layout@, config.queue_capacity, QueueId(0));
    }
    let client = LinkClient::new(
        &layout,
        QueueId::new(0),
        RetryPolicy::default(),
        CommandPolicy::allow_all(),
        CommandRouting::preserve_requested(),
    );
    let runner = LinkRunner::new(
        config.decoder,
        config.read_buffer_size,
        64,
        Duration::from_millis(25),
        512,
    );
    assert(view.describes(layout@, client, runner));
    (client, runner)
}

/// A link is built exactly when its configuration and its default retry limits
/// are valid, it keeps between one and the largest number of notices, waits at
/// most a minute for late responses, and its queues are valid, the default
/// among them; without queues of its own it has queue zero.
pub proof fn lemma_link_is_built(builder: BuilderView, now: Duration)
    ensures
        builder.violation(now) is None <==> builder.config.violation() is None
            && builder.default_retry.runtime_violation(now) is None && 1 <= builder.event_capacity
            <= 1_048_576 && builder.guard.nanos <= 60_000_000_000 && match builder.layout {
            Some(layout) => layout_violation(layout, builder.default_queue) is None,
            None => builder.default_queue.0 == 0,
        },
{
}

} // verus!
