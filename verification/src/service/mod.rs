//! Request queues, exchanges and the services built on them.

pub mod builder;
pub mod burst;
pub mod config;
pub mod discovery;
pub mod dispatch;
pub mod event;
pub mod exchange;
pub mod health;
pub mod laws;
pub mod link;
pub mod planner;
pub mod policy;
pub mod priority;
pub mod queue_set;
pub mod recovery;
pub mod retry;
pub mod runner;
pub mod session;
pub mod snapshot;
pub mod transfer;

pub use builder::{
    create_link, try_create_link, LinkBuilder, DEFAULT_LATE_RESPONSE_GUARD,
    MAXIMUM_LATE_RESPONSE_GUARD, MAXIMUM_LINK_EVENT_CAPACITY,
};
pub use burst::{
    BurstConfig, BurstConfigError, BurstHub, BurstKey, BurstMessage, BurstPublishError,
    BurstReceiveError, BurstSnapshot, BurstSubscription, BurstSubscriptionError, Delivery,
    MessageView, Publication, MAXIMUM_BURST_BUFFERED_DELIVERIES, MAXIMUM_BURST_SUBSCRIPTIONS,
    MAXIMUM_BURST_SUBSCRIPTION_CAPACITY, MAXIMUM_BURST_TRACKED_KEYS,
};
pub use config::{
    LinkBuildError, LinkConfig, LinkConfigError, MAXIMUM_LINK_DECODER_BUFFER,
    MAXIMUM_LINK_READ_BUFFER,
};
pub use discovery::{
    discover_line, discover_line_with_address_timings, discover_line_with_options,
    DiscoveredDevice, Discovery, DiscoveryError, DiscoveryHintError, DiscoveryHints,
    DiscoveryOptions, DiscoveryReport, DiscoveryStep, ProbeRequest, MAXIMUM_DISCOVERY_HINTS,
};
pub use event::{ExchangeError, LinkEvent, LinkSnapshot, RetryCause, StartError};
pub use exchange::{Exchange, ExchangeStep, Job};
pub use health::{
    AdaptiveTiming, DeviceHealthConfigError, DeviceHealthOptions, DeviceHealthSnapshot,
    ManagedDeviceSession, ManagedSessionError, ManagedStart, QuickStep,
};
pub use link::{EnqueueStep, LinkClient, PendingReply, QueueClient, MAXIMUM_TRANSMIT_PREFIX};
pub use planner::{Plan, PlanExpectation, PlanReport, PlanStep, StepReport};
pub use policy::{CommandContext, CommandPolicy, CommandRouting, Decisions};
pub use priority::{priority_queues, Priority, QueueScheduling, QueueSchedulingError};
pub use queue_set::{
    QueueConfig, QueueConfigError, QueueError, QueueId, QueuePriority, QueueSnapshot, QueueWeight,
    MAXIMUM_LINK_QUEUES, MAXIMUM_QUEUE_CAPACITY, MAXIMUM_TOTAL_QUEUE_CAPACITY,
};
pub use recovery::{reconcile_devices, KnownDevice, RecoveryReport, RecoveryStatus};
pub use retry::{RetryPolicy, RetryPolicyError, MAXIMUM_RETRY_DURATION};
pub use runner::{
    LinkRunner, NextJob, Notice, ReceiveOutcome, SelectedJob, SendOutcome,
};
pub use session::{DeviceSession, SessionError, SessionProfile};
pub use snapshot::{
    DeviceSnapshot, SnapshotError, SnapshotField, SnapshotOptions, SnapshotResults,
};
pub use transfer::{
    BlockReceiver, BlockSender, TransferBlock, TransferError, TransferProgress,
    MAXIMUM_TRANSFER_BYTES,
};
