//! Routing of unsolicited messages to bounded subscriptions.

use std::collections::{BTreeMap, VecDeque};

use tokio::sync::mpsc;
use vstd::prelude::*;

use crate::bytes::{append_bytes, same_bytes};
use crate::counters::counted;
use crate::operation::{CommandCode, DeviceReply, ReplyView};
use crate::ordered::{ascending_keys, find, holds, keys_of, lookup, put, size, take};
use crate::time::Duration;
use crate::wire::{Address, Master};

verus! {

/// Largest per-subscriber backlog accepted without explicit application buffering.
pub const MAXIMUM_BURST_SUBSCRIPTION_CAPACITY: usize = 65_536;

/// Largest number of active subscriptions retained by one hub.
pub const MAXIMUM_BURST_SUBSCRIPTIONS: usize = 65_536;

/// Largest number of deduplication fingerprints retained by one hub.
pub const MAXIMUM_BURST_TRACKED_KEYS: usize = 65_536;

/// Largest aggregate number of reserved delivery slots across one hub.
pub const MAXIMUM_BURST_BUFFERED_DELIVERIES: usize = 1_048_576;

/// The sending half of a bounded `tokio` queue.
#[verifier::external_type_specification]
#[verifier::external_body]
#[verifier::reject_recursive_types(T)]
pub struct ExSender<T>(tokio::sync::mpsc::Sender<T>);

/// The receiving half of a bounded `tokio` queue.
#[verifier::external_type_specification]
#[verifier::external_body]
#[verifier::reject_recursive_types(T)]
pub struct ExReceiver<T>(tokio::sync::mpsc::Receiver<T>);

/// What a sending half was handed, in order, and how each offer ended.
pub uninterp spec fn offers(sender: mpsc::Sender<BurstMessage>) -> Seq<(MessageView, Delivery)>;

/// What a sending half was told when it asked whether its receiver is gone.
pub uninterp spec fn polls(sender: mpsc::Sender<BurstMessage>) -> Seq<bool>;

/// How many messages may wait in the queue of a sending half.
pub uninterp spec fn bound(sender: mpsc::Sender<BurstMessage>) -> usize;

/// The queue that a sending half fills.
pub uninterp spec fn target(sender: mpsc::Sender<BurstMessage>) -> int;

/// All that the queue of a sending half carries in its life, in order.
pub uninterp spec fn carried(sender: mpsc::Sender<BurstMessage>) -> Seq<MessageView>;

/// The queue that a receiving half empties.
pub uninterp spec fn source(receiver: mpsc::Receiver<BurstMessage>) -> int;

/// What was taken out through a receiving half, in order.
pub uninterp spec fn taken(receiver: mpsc::Receiver<BurstMessage>) -> Seq<MessageView>;

/// All that the queue of a receiving half carries in its life, in order.
pub uninterp spec fn supplied(receiver: mpsc::Receiver<BurstMessage>) -> Seq<MessageView>;

/// The messages among offers that went into the queue.
pub open spec fn sent(offers: Seq<(MessageView, Delivery)>) -> Seq<MessageView>
    decreases offers.len(),
{
    if offers.len() == 0 {
        Seq::empty()
    } else {
        let before = sent(offers.drop_last());
        if offers.last().1 == Delivery::Delivered {
            before.push(offers.last().0)
        } else {
            before
        }
    }
}

/// The only sending half of a queue.
#[derive(Debug)]
struct Outlet {
    sender: mpsc::Sender<BurstMessage>,
}

/// Creates a bounded queue with `tokio::sync::mpsc::channel`: two halves of one
/// queue, with room for as many messages as asked, of which none was offered
/// or taken yet.
#[verifier::external_body]
fn open_queue(capacity: usize) -> (halves: (Outlet, mpsc::Receiver<BurstMessage>))
    requires
        0 < capacity <= MAXIMUM_BURST_SUBSCRIPTION_CAPACITY,
    ensures
        offers(halves.0.sender) == Seq::<(MessageView, Delivery)>::empty(),
        polls(halves.0.sender) == Seq::<bool>::empty(),
        bound(halves.0.sender) == capacity,
        source(halves.1) == target(halves.0.sender),
        supplied(halves.1) == carried(halves.0.sender),
        taken(halves.1) == Seq::<MessageView>::empty(),
{
    let (sender, receiver) = mpsc::channel(capacity);
    (Outlet { sender }, receiver)
}

/// Offers a message with `tokio::sync::mpsc::Sender::try_send`. A message that
/// is delivered goes into the queue behind all that went into it before; any
/// other does not go into it. A queue is only full once as many messages went
/// into it as it has room for. Whether there is room beyond that, and whether
/// the receiver is gone, depends on what its holder has done, so nothing more
/// is said of how the offer ends.
#[verifier::external_body]
fn offer(outlet: &mut Outlet, message: BurstMessage) -> (delivery: Delivery)
    ensures
        offers(final(outlet).sender) == offers(old(outlet).sender).push((message@, delivery)),
        polls(final(outlet).sender) == polls(old(outlet).sender),
        bound(final(outlet).sender) == bound(old(outlet).sender),
        target(final(outlet).sender) == target(old(outlet).sender),
        carried(final(outlet).sender) == carried(old(outlet).sender),
        sent(offers(final(outlet).sender)).is_prefix_of(carried(final(outlet).sender)),
        delivery == Delivery::Full ==> sent(offers(old(outlet).sender)).len() >= bound(
            old(outlet).sender,
        ),
{
    match outlet.sender.try_send(message) {
        Ok(()) => Delivery::Delivered,
        Err(mpsc::error::TrySendError::Full(_)) => Delivery::Full,
        Err(mpsc::error::TrySendError::Closed(_)) => Delivery::Closed,
    }
}

/// Asks with `tokio::sync::mpsc::Sender::is_closed` whether the receiver is
/// gone. The answer is up to its holder; asking sends nothing.
#[verifier::external_body]
fn receiver_is_gone(outlet: &mut Outlet) -> (gone: bool)
    ensures
        polls(final(outlet).sender) == polls(old(outlet).sender).push(gone),
        offers(final(outlet).sender) == offers(old(outlet).sender),
        bound(final(outlet).sender) == bound(old(outlet).sender),
        target(final(outlet).sender) == target(old(outlet).sender),
        carried(final(outlet).sender) == carried(old(outlet).sender),
{
    outlet.sender.is_closed()
}

/// Takes a message with `tokio::sync::mpsc::Receiver::try_recv`: the one that
/// went into the queue right after those that were taken before. Whether one
/// waits, and whether more can come, depends on the sending half.
#[verifier::external_body]
fn take_message(receiver: &mut mpsc::Receiver<BurstMessage>) -> (message: Result<
    BurstMessage,
    BurstReceiveError,
>)
    ensures
        source(*final(receiver)) == source(*old(receiver)),
        supplied(*final(receiver)) == supplied(*old(receiver)),
        taken(*final(receiver)) == match message {
            Ok(message) => taken(*old(receiver)).push(message@),
            Err(_) => taken(*old(receiver)),
        },
        taken(*final(receiver)).is_prefix_of(supplied(*final(receiver))),
{
    match receiver.try_recv() {
        Ok(message) => Ok(message),
        Err(mpsc::error::TryRecvError::Empty) => Err(BurstReceiveError::Empty),
        Err(mpsc::error::TryRecvError::Disconnected) => Err(BurstReceiveError::Disconnected),
    }
}

/// Routing key for an unsolicited message.
#[derive(Debug, Clone, Copy, PartialEq, Eq, PartialOrd, Ord, Hash, Structural)]
pub struct BurstKey {
    /// Source address.
    pub address: Address,
    /// Command of the published value.
    pub command: CommandCode,
}

/// The number of a master.
pub open spec fn master_number(master: Master) -> int {
    match master {
        Master::Primary => 1,
        Master::Secondary => 0,
    }
}

/// The number of an address, different for different addresses.
pub open spec fn address_number(address: Address) -> u64 {
    match address {
        Address::Polling { node, master } => (node * 2 + master_number(master)) as u64,
        Address::Unique { expanded_type, device_id, master } => (0x2_0000_0000_0000 + expanded_type
            * 0x2_0000_0000 + device_id * 2 + master_number(master)) as u64,
    }
}

/// Two addresses with one number are the same address.
pub proof fn lemma_address_number_is_injective(left: Address, right: Address)
    requires
        address_number(left) == address_number(right),
    ensures
        left == right,
{
}

pub(crate) fn number_of_address(address: Address) -> (number: u64)
    ensures
        number == address_number(address),
        number < 0x4_0000_0000_0000,
{
    match address {
        Address::Polling { node, master } => node as u64 * 2 + number_of_master(master),
        Address::Unique { expanded_type, device_id, master } => 0x2_0000_0000_0000 + expanded_type
            as u64 * 0x2_0000_0000 + device_id as u64 * 2 + number_of_master(master),
    }
}

fn number_of_master(master: Master) -> (number: u64)
    ensures
        number == master_number(master),
{
    match master {
        Master::Primary => 1,
        Master::Secondary => 0,
    }
}

impl BurstKey {
    /// The number of the key, different for different keys.
    pub open spec fn number(self) -> u128 {
        (address_number(self.address) * 0x1_0000 + self.command.0) as u128
    }

    /// Two keys with one number are the same key.
    pub proof fn lemma_number_is_injective(left: Self, right: Self)
        requires
            left.number() == right.number(),
        ensures
            left == right,
    {
        lemma_address_number_is_injective(left.address, right.address);
    }

    /// Creates an address-command routing key.
    pub fn new(address: Address, command: CommandCode) -> (key: Self)
        ensures
            key == (BurstKey { address, command }),
    {
        BurstKey { address, command }
    }

    fn key(self) -> (number: u128)
        ensures
            number == self.number(),
    {
        number_of_address(self.address) as u128 * 0x1_0000 + self.command.0 as u128
    }
}

/// Message together with its host receive time.
#[derive(Debug, PartialEq, Eq)]
pub struct BurstMessage {
    /// Time since the Unix epoch at which the manager received the message.
    pub received_at: Duration,
    /// Validated device response.
    pub reply: DeviceReply,
}

/// What a message holds, with the response as its view.
#[verifier::ext_equal]
pub struct MessageView {
    pub received_at: Duration,
    pub reply: ReplyView,
}

impl View for BurstMessage {
    type V = MessageView;

    open spec fn view(&self) -> MessageView {
        MessageView { received_at: self.received_at, reply: self.reply@ }
    }
}

impl Clone for BurstMessage {
    fn clone(&self) -> (copy: Self)
        ensures
            copy@ == self@,
    {
        BurstMessage { received_at: self.received_at, reply: self.reply.clone() }
    }
}

/// Aggregate delivery counters.
#[derive(Debug, Clone, Copy, PartialEq, Eq, Structural)]
pub struct BurstSnapshot {
    /// Number of active subscriptions.
    pub subscriptions: usize,
    /// Aggregate delivery slots reserved across active subscriptions.
    pub reserved_delivery_slots: usize,
    /// Number of accepted messages.
    pub received: u64,
    /// Number of exact duplicates discarded.
    pub duplicates: u64,
    /// Number of deliveries dropped because a receiver was slow.
    pub backpressure_drops: u64,
    /// Number of address-command fingerprints currently retained.
    pub tracked_keys: usize,
    /// Number of old fingerprints evicted to keep memory bounded.
    pub fingerprint_evictions: u64,
    /// Forged messages rejected before allocating deduplication state.
    pub invalid_messages: u64,
}

impl Default for BurstSnapshot {
    fn default() -> (snapshot: Self)
        ensures
            snapshot == (BurstSnapshot {
                    subscriptions: 0,
                    reserved_delivery_slots: 0,
                    received: 0,
                    duplicates: 0,
                    backpressure_drops: 0,
                    tracked_keys: 0,
                    fingerprint_evictions: 0,
                    invalid_messages: 0,
                }),
    {
        BurstSnapshot {
            subscriptions: 0,
            reserved_delivery_slots: 0,
            received: 0,
            duplicates: 0,
            backpressure_drops: 0,
            tracked_keys: 0,
            fingerprint_evictions: 0,
            invalid_messages: 0,
        }
    }
}

/// Memory and duplicate-suppression limits for a [`BurstHub`].
#[derive(Debug, Clone, Copy, PartialEq, Eq, Structural)]
pub struct BurstConfig {
    /// Maximum number of active subscriptions retained by this hub.
    pub maximum_subscriptions: usize,
    /// Maximum aggregate delivery slots across every active subscription.
    pub maximum_buffered_deliveries: usize,
    /// Maximum number of address-command fingerprints retained at once.
    pub maximum_tracked_keys: usize,
    /// Interval during which an unchanged publication is considered a duplicate.
    ///
    /// A zero duration disables duplicate suppression while retaining bounded routing state.
    pub duplicate_window: Duration,
}

impl Default for BurstConfig {
    fn default() -> (config: Self)
        ensures
            config == BurstConfig::standard(),
    {
        BurstConfig {
            maximum_subscriptions: 4096,
            maximum_buffered_deliveries: 65_536,
            maximum_tracked_keys: 1024,
            duplicate_window: Duration::from_millis(250),
        }
    }
}

impl BurstConfig {
    /// The limits of a hub that is not configured.
    pub open spec fn standard() -> BurstConfig {
        BurstConfig {
            maximum_subscriptions: 4096,
            maximum_buffered_deliveries: 65_536,
            maximum_tracked_keys: 1024,
            duplicate_window: Duration { nanos: 250_000_000 },
        }
    }

    /// What is wrong with the limits, if anything.
    pub open spec fn violation(self) -> Option<BurstConfigError> {
        if self.maximum_subscriptions == 0 {
            Some(BurstConfigError::NoSubscriptions)
        } else if self.maximum_subscriptions > MAXIMUM_BURST_SUBSCRIPTIONS {
            Some(BurstConfigError::SubscriptionLimit(self.maximum_subscriptions))
        } else if self.maximum_buffered_deliveries == 0 {
            Some(BurstConfigError::NoBufferedDeliveries)
        } else if self.maximum_buffered_deliveries > MAXIMUM_BURST_BUFFERED_DELIVERIES {
            Some(BurstConfigError::BufferedDeliveryLimit(self.maximum_buffered_deliveries))
        } else if self.maximum_tracked_keys == 0 {
            Some(BurstConfigError::NoTrackedKeys)
        } else if self.maximum_tracked_keys > MAXIMUM_BURST_TRACKED_KEYS {
            Some(BurstConfigError::TrackedKeyLimit(self.maximum_tracked_keys))
        } else {
            None
        }
    }

    /// Sets the active subscription limit.
    pub fn with_maximum_subscriptions(self, maximum_subscriptions: usize) -> (config: Self)
        ensures
            config == (BurstConfig { maximum_subscriptions, ..self }),
    {
        BurstConfig { maximum_subscriptions, ..self }
    }

    /// Sets the aggregate delivery backlog limit.
    pub fn with_maximum_buffered_deliveries(self, maximum_buffered_deliveries: usize) -> (config:
        Self)
        ensures
            config == (BurstConfig { maximum_buffered_deliveries, ..self }),
    {
        BurstConfig { maximum_buffered_deliveries, ..self }
    }

    /// Sets the deduplication fingerprint limit.
    pub fn with_maximum_tracked_keys(self, maximum_tracked_keys: usize) -> (config: Self)
        ensures
            config == (BurstConfig { maximum_tracked_keys, ..self }),
    {
        BurstConfig { maximum_tracked_keys, ..self }
    }

    /// Sets the exact-payload duplicate suppression window.
    pub fn with_duplicate_window(self, duplicate_window: Duration) -> (config: Self)
        ensures
            config == (BurstConfig { duplicate_window, ..self }),
    {
        BurstConfig { duplicate_window, ..self }
    }
}

/// Invalid [`BurstHub`] configuration.
#[derive(Debug, Clone, Copy, PartialEq, Eq, Structural)]
pub enum BurstConfigError {
    /// At least one subscription slot is required.
    NoSubscriptions,
    /// The configured active subscription count is implausibly large.
    SubscriptionLimit(usize),
    /// At least one aggregate delivery slot is required.
    NoBufferedDeliveries,
    /// The configured aggregate delivery backlog is implausibly large.
    BufferedDeliveryLimit(usize),
    /// At least one fingerprint slot is required.
    NoTrackedKeys,
    /// The configured fingerprint count is implausibly large.
    TrackedKeyLimit(usize),
}

/// Invalid input supplied directly to [`BurstHub::try_publish`].
#[derive(Debug, Clone, Copy, PartialEq, Eq, Structural)]
pub enum BurstPublishError {
    /// A response data field cannot exceed the frame payload space.
    DataLength(usize),
    /// Link-layer header expansion is limited to three bytes.
    ExpansionLength(usize),
}

/// Invalid per-subscriber buffering settings.
#[derive(Debug, Clone, Copy, PartialEq, Eq, Structural)]
pub enum BurstSubscriptionError {
    /// A subscription must retain at least one message.
    ZeroCapacity,
    /// A subscription backlog is too large.
    CapacityLimit(usize),
    /// The hub reached its configured active subscription limit.
    SubscriptionLimit(usize),
    /// The internal subscription identifier space was exhausted.
    IdentifierSpace,
    /// A new subscription would exceed the aggregate delivery backlog.
    AggregateCapacity(usize),
}

/// Why no message could be taken.
#[derive(Debug, Clone, Copy, PartialEq, Eq, Structural)]
pub enum BurstReceiveError {
    /// No message waits.
    Empty,
    /// No message waits, and none will come.
    Disconnected,
}

/// How the delivery of a message to a subscription ended.
#[derive(Debug, Clone, Copy, PartialEq, Eq, Structural)]
pub enum Delivery {
    /// The message waits for the receiver.
    Delivered,
    /// The receiver was slow and the message was dropped.
    Full,
    /// The receiver is gone.
    Closed,
}

/// What became of a published message.
pub enum Publication {
    /// The message repeats the last one of its key.
    Duplicate,
    /// The message was offered to the subscriptions of its key, in the order
    /// of their identifiers.
    Deliveries(Vec<(u64, Delivery)>),
}

/// What the sending half of a queue has seen.
#[verifier::ext_equal]
pub struct QueueView {
    /// What was offered, and how each offer ended.
    pub offers: Seq<(MessageView, Delivery)>,
    /// The answers to whether the receiver is gone.
    pub polls: Seq<bool>,
    /// How many messages may wait.
    pub bound: usize,
    /// The queue.
    pub target: int,
    /// All that the queue carries in its life.
    pub carried: Seq<MessageView>,
}

impl QueueView {
    /// What a sending half has seen.
    pub open spec fn of(sender: mpsc::Sender<BurstMessage>) -> QueueView {
        QueueView {
            offers: offers(sender),
            polls: polls(sender),
            bound: bound(sender),
            target: target(sender),
            carried: carried(sender),
        }
    }

    /// A queue into which nothing went yet.
    pub open spec fn is_fresh(self, capacity: usize) -> bool {
        &&& self.offers == Seq::<(MessageView, Delivery)>::empty()
        &&& self.polls == Seq::<bool>::empty()
        &&& self.bound == capacity
    }

    /// The queue after one more offer.
    pub open spec fn offering(self, message: MessageView, delivery: Delivery) -> QueueView {
        QueueView { offers: self.offers.push((message, delivery)), ..self }
    }

    /// The queue after its sending half asked once more for the receiver.
    pub open spec fn polling(self, gone: bool) -> QueueView {
        QueueView { polls: self.polls.push(gone), ..self }
    }

    /// Some sending half has seen this.
    pub open spec fn was_seen(self) -> bool {
        exists|sender: mpsc::Sender<BurstMessage>| self == #[trigger] QueueView::of(sender)
    }
}

/// What a hub remembers of a subscription.
#[verifier::ext_equal]
pub struct SubscriptionView {
    /// Routing key.
    pub key: BurstKey,
    /// Reserved delivery slots.
    pub capacity: usize,
    /// The queue to the subscriber.
    pub queue: QueueView,
}

impl SubscriptionView {
    /// The messages that went to the subscriber, in order.
    pub open spec fn sent(self) -> Seq<MessageView> {
        sent(self.queue.offers)
    }

    /// The queue has the reserved slots, and carries messages of the key only.
    pub open spec fn consistent(self) -> bool {
        &&& self.queue.bound == self.capacity
        &&& self.sent().is_prefix_of(self.queue.carried)
        &&& forall|index: int|
            0 <= index < self.sent().len() ==> BurstView::message_key(
                (#[trigger] self.sent()[index]).reply,
            ) == self.key
    }

    /// The subscription after it was offered a message.
    pub open spec fn offering(self, message: MessageView, delivery: Delivery) -> SubscriptionView {
        SubscriptionView { queue: self.queue.offering(message, delivery), ..self }
    }

    /// The subscription after its receiver was asked for.
    pub open spec fn polling(self, gone: bool) -> SubscriptionView {
        SubscriptionView { queue: self.queue.polling(gone), ..self }
    }
}

/// Delivery slots reserved by subscriptions.
pub open spec fn reserved_slots(subscriptions: Map<u64, SubscriptionView>) -> nat
    decreases subscriptions.dom().len(),
{
    if subscriptions.dom().finite() && subscriptions.dom().len() > 0 {
        let id = subscriptions.dom().choose();
        subscriptions[id].capacity as nat + reserved_slots(subscriptions.remove(id))
    } else {
        0
    }
}

proof fn lemma_reserved_slots(subscriptions: Map<u64, SubscriptionView>, id: u64)
    requires
        subscriptions.dom().finite(),
        subscriptions.contains_key(id),
    ensures
        reserved_slots(subscriptions) == subscriptions[id].capacity + reserved_slots(
            subscriptions.remove(id),
        ),
    decreases subscriptions.dom().len(),
{
    let first = subscriptions.dom().choose();
    assert(subscriptions.dom().contains(id));
    assert(subscriptions.dom().contains(first));
    if first != id {
        let rest = subscriptions.remove(first);
        lemma_reserved_slots(rest, id);
        lemma_reserved_slots(subscriptions.remove(id), first);
        assert(rest.remove(id) =~= subscriptions.remove(id).remove(first));
    }
}

/// The subscriptions of a key among the first identifiers, in order.
pub open spec fn receivers(
    subscriptions: Map<u64, SubscriptionView>,
    ids: Seq<u64>,
    key: BurstKey,
) -> Seq<u64>
    decreases ids.len(),
{
    if ids.len() == 0 {
        Seq::empty()
    } else {
        let before = receivers(subscriptions, ids.drop_last(), key);
        if subscriptions[ids.last()].key == key {
            before.push(ids.last())
        } else {
            before
        }
    }
}

proof fn lemma_same_slots(
    left: Map<u64, SubscriptionView>,
    right: Map<u64, SubscriptionView>,
)
    requires
        left.dom().finite(),
        left.dom() == right.dom(),
        forall|id: u64| #[trigger]
            left.contains_key(id) ==> left[id].capacity == right[id].capacity,
    ensures
        reserved_slots(left) == reserved_slots(right),
    decreases left.dom().len(),
{
    if left.dom().len() > 0 {
        let id = left.dom().choose();
        assert(left.contains_key(id));
        assert(left.remove(id).dom() =~= right.remove(id).dom());
        lemma_same_slots(left.remove(id), right.remove(id));
        lemma_reserved_slots(left, id);
        lemma_reserved_slots(right, id);
    }
}

/// The identifiers of deliveries.
pub open spec fn delivery_ids(deliveries: Seq<(u64, Delivery)>) -> Seq<u64> {
    Seq::new(deliveries.len(), |index: int| deliveries[index].0)
}

/// What the end of an offer to a subscription tells of its queue: it is only
/// full once its slots were used, and only a half that was told so takes its
/// receiver for gone.
pub open spec fn justified(
    subscription: SubscriptionView,
    message: MessageView,
    delivery: Delivery,
) -> bool {
    match delivery {
        Delivery::Delivered => true,
        Delivery::Full => subscription.sent().len() >= subscription.capacity,
        Delivery::Closed => subscription.queue.offering(message, delivery).was_seen(),
    }
}

/// Every offer to a subscription ended as its queue says.
pub open spec fn all_justified(
    subscriptions: Map<u64, SubscriptionView>,
    deliveries: Seq<(u64, Delivery)>,
    message: MessageView,
) -> bool {
    forall|index: int|
        0 <= index < deliveries.len() ==> justified(
            subscriptions[(#[trigger] deliveries[index]).0],
            message,
            deliveries[index].1,
        )
}

/// The keys without one of them.
pub open spec fn without_key(order: Seq<u128>, key: u128) -> Seq<u128> {
    order.filter(|candidate: u128| candidate != key)
}

/// What a hub holds.
#[verifier::ext_equal]
pub struct BurstView {
    /// Identifier of the youngest subscription.
    pub next_id: u64,
    /// Active subscriptions by identifier.
    pub subscriptions: Map<u64, SubscriptionView>,
    /// Last delivered payload of each key, and when it was delivered.
    pub fingerprints: Map<u128, (Seq<u8>, Duration)>,
    /// Keys in the order of their last delivery, the oldest first.
    pub order: Seq<u128>,
    /// Limits.
    pub config: BurstConfig,
    /// Accepted messages.
    pub received: u64,
    /// Discarded duplicates.
    pub duplicates: u64,
    /// Dropped deliveries.
    pub drops: u64,
    /// Evicted fingerprints.
    pub evictions: u64,
    /// Rejected messages.
    pub invalid: u64,
}

impl BurstView {
    /// A hub that has seen nothing.
    pub open spec fn fresh(config: BurstConfig) -> BurstView {
        BurstView {
            next_id: 0,
            subscriptions: Map::empty(),
            fingerprints: Map::empty(),
            order: Seq::empty(),
            config,
            received: 0,
            duplicates: 0,
            drops: 0,
            evictions: 0,
            invalid: 0,
        }
    }

    /// The limits are usable and kept, every subscription has its own slots and
    /// messages of its key only, and the order names every remembered key
    /// exactly once.
    pub open spec fn consistent(self) -> bool {
        &&& self.config.violation() is None
        &&& self.subscriptions.dom().finite()
        &&& self.subscriptions.len() <= self.config.maximum_subscriptions
        &&& reserved_slots(self.subscriptions) <= self.config.maximum_buffered_deliveries
        &&& forall|id: u64| #[trigger]
            self.subscriptions.contains_key(id) ==> id <= self.next_id
                && self.subscriptions[id].consistent()
        &&& self.order.no_duplicates()
        &&& self.order.to_set() == self.fingerprints.dom()
        &&& self.order.len() <= self.config.maximum_tracked_keys
    }

    /// Why a subscription is refused, if it is.
    pub open spec fn subscription_error(self, capacity: usize) -> Option<BurstSubscriptionError> {
        if capacity == 0 {
            Some(BurstSubscriptionError::ZeroCapacity)
        } else if capacity > MAXIMUM_BURST_SUBSCRIPTION_CAPACITY {
            Some(BurstSubscriptionError::CapacityLimit(capacity))
        } else if self.subscriptions.len() >= self.config.maximum_subscriptions {
            Some(BurstSubscriptionError::SubscriptionLimit(self.config.maximum_subscriptions))
        } else if reserved_slots(self.subscriptions) + capacity
            > self.config.maximum_buffered_deliveries {
            Some(BurstSubscriptionError::AggregateCapacity(self.config.maximum_buffered_deliveries))
        } else if self.next_id == u64::MAX {
            Some(BurstSubscriptionError::IdentifierSpace)
        } else {
            None
        }
    }

    /// The hub after a subscription was added.
    pub open spec fn subscribing(
        self,
        key: BurstKey,
        capacity: usize,
        queue: QueueView,
    ) -> BurstView {
        let id = (self.next_id + 1) as u64;
        BurstView {
            next_id: id,
            subscriptions: self.subscriptions.insert(id, SubscriptionView { key, capacity, queue }),
            ..self
        }
    }

    /// The hub after a subscription ended.
    pub open spec fn unsubscribing(self, id: u64) -> BurstView {
        BurstView { subscriptions: self.subscriptions.remove(id), ..self }
    }

    /// What is wrong with a message, if anything.
    pub open spec fn message_error(reply: ReplyView) -> Option<BurstPublishError> {
        if reply.data.len() > 255 {
            Some(BurstPublishError::DataLength(reply.data.len() as usize))
        } else if reply.frame_expansion.len() > 3 {
            Some(BurstPublishError::ExpansionLength(reply.frame_expansion.len() as usize))
        } else {
            None
        }
    }

    /// The key of a message.
    pub open spec fn message_key(reply: ReplyView) -> BurstKey {
        BurstKey { address: reply.address, command: reply.command }
    }

    /// What is compared of a message: its codes and its data.
    pub open spec fn fingerprint(reply: ReplyView) -> Seq<u8> {
        seq![reply.response_code, reply.device_status] + reply.data
    }

    /// Whether a message repeats the last delivered one of its key within the window.
    pub open spec fn repeats(self, reply: ReplyView, now: Duration) -> bool {
        let key = BurstView::message_key(reply).number();
        &&& self.fingerprints.contains_key(key)
        &&& self.config.duplicate_window.nanos > 0
        &&& self.fingerprints[key].0 == BurstView::fingerprint(reply)
        &&& now.nanos - self.fingerprints[key].1.nanos < self.config.duplicate_window.nanos
    }

    /// The hub with one more accepted message.
    pub open spec fn receiving(self) -> BurstView {
        BurstView { received: counted(self.received, 1), ..self }
    }

    /// The hub after it remembered a message, and forgot the oldest one where
    /// it has no room.
    pub open spec fn remembering(self, reply: ReplyView, now: Duration) -> BurstView {
        let key = BurstView::message_key(reply).number();
        let entry = (BurstView::fingerprint(reply), now);
        if self.fingerprints.contains_key(key) {
            BurstView {
                fingerprints: self.fingerprints.insert(key, entry),
                order: self.forgetting(key).order.push(key),
                ..self
            }
        } else if self.order.len() == self.config.maximum_tracked_keys {
            BurstView {
                fingerprints: self.fingerprints.remove(self.order[0]).insert(key, entry),
                order: self.order.drop_first().push(key),
                evictions: counted(self.evictions, 1),
                ..self
            }
        } else {
            BurstView {
                fingerprints: self.fingerprints.insert(key, entry),
                order: self.order.push(key),
                ..self
            }
        }
    }

    /// The hub without the remembered message of a key.
    pub open spec fn forgetting(self, key: u128) -> BurstView {
        BurstView {
            fingerprints: self.fingerprints.remove(key),
            order: without_key(self.order, key),
            ..self
        }
    }

    /// The hub after a message was offered to a subscription.
    pub open spec fn offering(self, id: u64, message: MessageView, delivery: Delivery) -> BurstView {
        match delivery {
            Delivery::Delivered => BurstView {
                subscriptions: self.subscriptions.insert(
                    id,
                    self.subscriptions[id].offering(message, delivery),
                ),
                ..self
            },
            Delivery::Full => BurstView {
                subscriptions: self.subscriptions.insert(
                    id,
                    self.subscriptions[id].offering(message, delivery),
                ),
                drops: counted(self.drops, 1),
                ..self
            },
            Delivery::Closed => self.unsubscribing(id),
        }
    }

    /// The hub after a message was offered to subscriptions.
    pub open spec fn settling(
        self,
        deliveries: Seq<(u64, Delivery)>,
        message: MessageView,
    ) -> BurstView
        decreases deliveries.len(),
    {
        if deliveries.len() == 0 {
            self
        } else {
            self.settling(deliveries.drop_last(), message).offering(
                deliveries.last().0,
                message,
                deliveries.last().1,
            )
        }
    }
}

/// What a hub does of a subscription when it looks for those whose receiver is
/// gone: it keeps it where the answer is no, and ends it where it is yes.
pub open spec fn polled(
    before: Map<u64, SubscriptionView>,
    after: Map<u64, SubscriptionView>,
    id: u64,
) -> bool {
    if after.contains_key(id) {
        after[id] == before[id].polling(false)
    } else {
        before[id].queue.polling(true).was_seen()
    }
}

/// The hub after it ended the subscriptions whose receiver is gone.
pub open spec fn swept(before: BurstView, after: BurstView) -> bool {
    &&& after == (BurstView { subscriptions: after.subscriptions, ..before })
    &&& after.subscriptions.dom().subset_of(before.subscriptions.dom())
    &&& forall|id: u64| #[trigger]
        before.subscriptions.contains_key(id) ==> polled(
            before.subscriptions,
            after.subscriptions,
            id,
        )
}

/// What a hub without gone receivers answers to a subscriber.
pub open spec fn admitted(
    before: BurstView,
    key: BurstKey,
    capacity: usize,
    result: Result<BurstSubscription, BurstSubscriptionError>,
    after: BurstView,
) -> bool {
    match before.subscription_error(capacity) {
        Some(error) => result matches Err(found) && found == error && after == before,
        None => {
            let id = (before.next_id + 1) as u64;
            let queue = after.subscriptions[id].queue;
            &&& result matches Ok(subscription)
            &&& subscription.number() == id
            &&& subscription.queue() == queue.target
            &&& subscription.supply() == queue.carried
            &&& subscription.read() == Seq::<MessageView>::empty()
            &&& queue.is_fresh(capacity)
            &&& after == before.subscribing(key, capacity, queue)
        },
    }
}

/// What asking for a subscription does and says: a capacity that no queue can
/// have is refused at once, anything else is judged once the subscriptions
/// whose receiver is gone have ended.
pub open spec fn subscribed(
    before: BurstView,
    key: BurstKey,
    capacity: usize,
    result: Result<BurstSubscription, BurstSubscriptionError>,
    after: BurstView,
) -> bool {
    if capacity == 0 || capacity > MAXIMUM_BURST_SUBSCRIPTION_CAPACITY {
        &&& result matches Err(error)
        &&& Some(error) == before.subscription_error(capacity)
        &&& after == before
    } else {
        exists|between: BurstView|
            swept(before, between) && #[trigger] admitted(between, key, capacity, result, after)
    }
}

/// A message repeats the one that was remembered last for its key exactly where
/// its codes and data are the same and less than the window has passed since
/// that one was delivered.
pub proof fn lemma_repetition_is_discarded(
    hub: BurstView,
    reply: ReplyView,
    first: Duration,
    repeated: ReplyView,
    second: Duration,
)
    requires
        BurstView::message_key(reply) == BurstView::message_key(repeated),
    ensures
        hub.remembering(reply, first).repeats(repeated, second) <==> {
            &&& hub.config.duplicate_window.nanos > 0
            &&& BurstView::fingerprint(reply) == BurstView::fingerprint(repeated)
            &&& second.nanos - first.nanos < hub.config.duplicate_window.nanos
        },
{
}

/// After a key was reset its next message is delivered.
pub proof fn lemma_reset_key_is_delivered(hub: BurstView, reply: ReplyView, now: Duration)
    ensures
        !hub.forgetting(BurstView::message_key(reply).number()).repeats(reply, now),
{
}

#[derive(Debug)]
struct SubscriptionEntry {
    key: BurstKey,
    outlet: Outlet,
    capacity: usize,
}

impl View for SubscriptionEntry {
    type V = SubscriptionView;

    closed spec fn view(&self) -> SubscriptionView {
        SubscriptionView {
            key: self.key,
            capacity: self.capacity,
            queue: QueueView::of(self.outlet.sender),
        }
    }
}

#[derive(Debug)]
struct Fingerprint {
    bytes: Vec<u8>,
    last_delivered_at: Duration,
}

/// Bounded subscription to one address and command.
#[derive(Debug)]
pub struct BurstSubscription {
    id: u64,
    receiver: mpsc::Receiver<BurstMessage>,
}

impl BurstSubscription {
    /// The identifier of the subscription in its hub.
    pub closed spec fn number(&self) -> u64 {
        self.id
    }

    /// The queue from which the subscription reads.
    pub closed spec fn queue(&self) -> int {
        source(self.receiver)
    }

    /// All that the queue of the subscription carries in its life, in order.
    pub closed spec fn supply(&self) -> Seq<MessageView> {
        supplied(self.receiver)
    }

    /// The messages that the subscription has read, in order.
    pub closed spec fn read(&self) -> Seq<MessageView> {
        taken(self.receiver)
    }

    /// Returns the identifier of the subscription in its hub.
    pub fn id(&self) -> (id: u64)
        ensures
            id == self.number(),
    {
        self.id
    }

    /// Attempts to receive immediately without waiting.
    ///
    /// A message is the one that its queue carries right after those that were
    /// read before. Whether one waits is up to the hub and the time.
    pub fn try_receive(&mut self) -> (result: Result<BurstMessage, BurstReceiveError>)
        ensures
            final(self).number() == old(self).number(),
            final(self).queue() == old(self).queue(),
            final(self).supply() == old(self).supply(),
            final(self).read() == match result {
                Ok(message) => old(self).read().push(message@),
                Err(_) => old(self).read(),
            },
            final(self).read().is_prefix_of(final(self).supply()),
    {
        take_message(&mut self.receiver)
    }

    /// Hands out the receiving half, to be awaited.
    pub fn receiver_mut(&mut self) -> (receiver: &mut mpsc::Receiver<BurstMessage>)
        ensures
            source(*receiver) == old(self).queue(),
            supplied(*receiver) == old(self).supply(),
            taken(*receiver) == old(self).read(),
            final(self).number() == old(self).number(),
            final(self).queue() == source(*final(receiver)),
            final(self).supply() == supplied(*final(receiver)),
            final(self).read() == taken(*final(receiver)),
    {
        &mut self.receiver
    }
}

/// Unsolicited-message router with deduplication and backpressure.
#[derive(Debug)]
pub struct BurstHub {
    next_id: u64,
    subscriptions: BTreeMap<u64, SubscriptionEntry>,
    reserved: usize,
    fingerprints: BTreeMap<u128, Fingerprint>,
    fingerprint_order: VecDeque<u128>,
    config: BurstConfig,
    received: u64,
    duplicates: u64,
    drops: u64,
    evictions: u64,
    invalid: u64,
}

spec fn subscription_views(subscriptions: Map<u64, SubscriptionEntry>) -> Map<
    u64,
    SubscriptionView,
> {
    subscriptions.map_values(|entry: SubscriptionEntry| entry@)
}

spec fn fingerprint_views(fingerprints: Map<u128, Fingerprint>) -> Map<u128, (Seq<u8>, Duration)> {
    fingerprints.map_values(|entry: Fingerprint| (entry.bytes@, entry.last_delivered_at))
}

impl View for BurstHub {
    type V = BurstView;

    closed spec fn view(&self) -> BurstView {
        BurstView {
            next_id: self.next_id,
            subscriptions: subscription_views(self.subscriptions@),
            fingerprints: fingerprint_views(self.fingerprints@),
            order: self.fingerprint_order@,
            config: self.config,
            received: self.received,
            duplicates: self.duplicates,
            drops: self.drops,
            evictions: self.evictions,
            invalid: self.invalid,
        }
    }
}

impl Default for BurstHub {
    fn default() -> (hub: Self)
        ensures
            hub.well_formed(),
            hub@ == BurstView::fresh(BurstConfig::standard()),
    {
        BurstHub::from_valid_config(BurstConfig::default())
    }
}

impl BurstHub {
    /// The limits are kept, and the recorded slots are those of the subscriptions.
    pub closed spec fn well_formed(&self) -> bool {
        &&& self@.consistent()
        &&& self.reserved == reserved_slots(self@.subscriptions)
    }

    /// A hub never exceeds its limits.
    pub proof fn lemma_limits_are_kept(&self)
        requires
            self.well_formed(),
        ensures
            self@.consistent(),
            self@.fingerprints.len() <= self@.config.maximum_tracked_keys,
    {
        self@.order.unique_seq_to_set();
    }

    /// Creates a router with explicit bounded deduplication settings.
    pub fn new(config: BurstConfig) -> (result: Result<Self, BurstConfigError>)
        ensures
            match config.violation() {
                Some(error) => result matches Err(found) && found == error,
                None => result matches Ok(hub) && hub.well_formed() && hub@ == BurstView::fresh(
                    config,
                ),
            },
    {
        if config.maximum_subscriptions == 0 {
            return Err(BurstConfigError::NoSubscriptions);
        }
        if config.maximum_subscriptions > MAXIMUM_BURST_SUBSCRIPTIONS {
            return Err(BurstConfigError::SubscriptionLimit(config.maximum_subscriptions));
        }
        if config.maximum_buffered_deliveries == 0 {
            return Err(BurstConfigError::NoBufferedDeliveries);
        }
        if config.maximum_buffered_deliveries > MAXIMUM_BURST_BUFFERED_DELIVERIES {
            return Err(BurstConfigError::BufferedDeliveryLimit(config.maximum_buffered_deliveries));
        }
        if config.maximum_tracked_keys == 0 {
            return Err(BurstConfigError::NoTrackedKeys);
        }
        if config.maximum_tracked_keys > MAXIMUM_BURST_TRACKED_KEYS {
            return Err(BurstConfigError::TrackedKeyLimit(config.maximum_tracked_keys));
        }
        Ok(BurstHub::from_valid_config(config))
    }

    fn from_valid_config(config: BurstConfig) -> (hub: Self)
        requires
            config.violation() is None,
        ensures
            hub.well_formed(),
            hub@ == BurstView::fresh(config),
    {
        let hub = BurstHub {
            next_id: 0,
            subscriptions: BTreeMap::new(),
            reserved: 0,
            fingerprints: BTreeMap::new(),
            fingerprint_order: VecDeque::new(),
            config,
            received: 0,
            duplicates: 0,
            drops: 0,
            evictions: 0,
            invalid: 0,
        };
        assert(hub@ =~= BurstView::fresh(config));
        assert(hub@.order.to_set() =~= hub@.fingerprints.dom());
        hub
    }

    /// Creates a subscription with bounded capacity.
    pub fn subscribe(&mut self, key: BurstKey, capacity: usize) -> (result: Result<
        BurstSubscription,
        BurstSubscriptionError,
    >)
        requires
            old(self).well_formed(),
        ensures
            final(self).well_formed(),
            subscribed(old(self)@, key, capacity, result, final(self)@),
    {
        self.try_subscribe(key, capacity)
    }

    /// Creates a subscription with a small default backlog.
    pub fn subscribe_default(&mut self, key: BurstKey) -> (result: Result<
        BurstSubscription,
        BurstSubscriptionError,
    >)
        requires
            old(self).well_formed(),
        ensures
            final(self).well_formed(),
            subscribed(old(self)@, key, 64, result, final(self)@),
    {
        self.try_subscribe(key, 64)
    }

    /// Creates a subscription after rejecting zero or implausibly large backlogs.
    pub fn try_subscribe(&mut self, key: BurstKey, capacity: usize) -> (result: Result<
        BurstSubscription,
        BurstSubscriptionError,
    >)
        requires
            old(self).well_formed(),
        ensures
            final(self).well_formed(),
            subscribed(old(self)@, key, capacity, result, final(self)@),
    {
        if capacity == 0 {
            return Err(BurstSubscriptionError::ZeroCapacity);
        }
        if capacity > MAXIMUM_BURST_SUBSCRIPTION_CAPACITY {
            return Err(BurstSubscriptionError::CapacityLimit(capacity));
        }
        self.subscribe_validated(key, capacity)
    }

    fn subscribe_validated(&mut self, key: BurstKey, capacity: usize) -> (result: Result<
        BurstSubscription,
        BurstSubscriptionError,
    >)
        requires
            old(self).well_formed(),
            0 < capacity <= MAXIMUM_BURST_SUBSCRIPTION_CAPACITY,
        ensures
            final(self).well_formed(),
            subscribed(old(self)@, key, capacity, result, final(self)@),
    {
        self.sweep();
        let ghost before = self@;
        let result = self.open_subscription(key, capacity);
        assert(admitted(before, key, capacity, result, self@));
        result
    }

    fn open_subscription(&mut self, key: BurstKey, capacity: usize) -> (result: Result<
        BurstSubscription,
        BurstSubscriptionError,
    >)
        requires
            old(self).well_formed(),
            0 < capacity <= MAXIMUM_BURST_SUBSCRIPTION_CAPACITY,
        ensures
            final(self).well_formed(),
            admitted(old(self)@, key, capacity, result, final(self)@),
    {
        let ghost before = self@;
        let count: usize = size(&self.subscriptions);
        assert(self.subscriptions@.dom() =~= before.subscriptions.dom());
        if count >= self.config.maximum_subscriptions {
            return Err(
                BurstSubscriptionError::SubscriptionLimit(self.config.maximum_subscriptions),
            );
        }
        if capacity > self.config.maximum_buffered_deliveries - self.reserved {
            return Err(
                BurstSubscriptionError::AggregateCapacity(self.config.maximum_buffered_deliveries),
            );
        }
        if self.next_id == u64::MAX {
            return Err(BurstSubscriptionError::IdentifierSpace);
        }
        let id: u64 = self.next_id + 1;
        let (outlet, receiver) = open_queue(capacity);
        let ghost queue = QueueView::of(outlet.sender);
        self.next_id = id;
        put(&mut self.subscriptions, id, SubscriptionEntry { key, outlet, capacity });
        self.reserved = self.reserved + capacity;
        proof {
            let after = before.subscribing(key, capacity, queue);
            assert(!before.subscriptions.contains_key(id));
            assert(self@.subscriptions =~= after.subscriptions);
            assert(self@ =~= after);
            lemma_reserved_slots(after.subscriptions, id);
            assert(after.subscriptions.remove(id) =~= before.subscriptions);
        }
        Ok(BurstSubscription { id, receiver })
    }

    /// Ends the subscriptions whose receiver is gone.
    fn sweep(&mut self)
        requires
            old(self).well_formed(),
        ensures
            final(self).well_formed(),
            swept(old(self)@, final(self)@),
    {
        let ghost before = self@;
        let ids = keys_of(&self.subscriptions);
        assert(self.subscriptions@.dom() =~= before.subscriptions.dom());
        let mut index: usize = 0;
        while index < ids.len()
            invariant
                index <= ids@.len(),
                ascending_keys(ids@, before.subscriptions),
                self.well_formed(),
                self@ == (BurstView { subscriptions: self@.subscriptions, ..before }),
                self@.subscriptions.dom().subset_of(before.subscriptions.dom()),
                forall|at: int|
                    0 <= at < index ==> polled(
                        before.subscriptions,
                        self@.subscriptions,
                        #[trigger] ids@[at],
                    ),
                forall|at: int|
                    index <= at < ids@.len() ==> self@.subscriptions.contains_key(
                        #[trigger] ids@[at],
                    ) && self@.subscriptions[ids@[at]] == before.subscriptions[ids@[at]],
            decreases ids@.len() - index,
        {
            let id: u64 = ids[index];
            assert(self@.subscriptions.contains_key(ids@[index as int]));
            self.poll(id);
            index += 1;
        }
        assert forall|id: u64| #[trigger] before.subscriptions.contains_key(id) implies polled(
            before.subscriptions,
            self@.subscriptions,
            id,
        ) by {
            assert(ids@.contains(id));
            let at = choose|at: int| 0 <= at < ids@.len() && ids@[at] == id;
            assert(polled(before.subscriptions, self@.subscriptions, ids@[at]));
        }
    }

    /// Ends a subscription if its receiver is gone.
    fn poll(&mut self, id: u64)
        requires
            old(self).well_formed(),
            old(self)@.subscriptions.contains_key(id),
        ensures
            final(self).well_formed(),
            polled(old(self)@.subscriptions, final(self)@.subscriptions, id),
            final(self)@ == old(self)@.unsubscribing(id) || final(self)@ == (BurstView {
                subscriptions: old(self)@.subscriptions.insert(
                    id,
                    old(self)@.subscriptions[id].polling(false),
                ),
                ..old(self)@
            }),
    {
        let ghost before = self@;
        if let Some(found) = take(&mut self.subscriptions, id) {
            let mut entry = found;
            assert(before.subscriptions[id] == entry@);
            proof {
                lemma_reserved_slots(before.subscriptions, id);
            }
            if receiver_is_gone(&mut entry.outlet) {
                self.reserved = self.reserved - entry.capacity;
                assert(before.subscriptions[id].queue.polling(true) == QueueView::of(
                    entry.outlet.sender,
                ));
                assert(self@.subscriptions =~= before.subscriptions.remove(id));
                assert(self@ =~= before.unsubscribing(id));
            } else {
                let ghost kept = before.subscriptions[id].polling(false);
                assert(entry@ =~= kept);
                put(&mut self.subscriptions, id, entry);
                assert(self@.subscriptions =~= before.subscriptions.insert(id, kept));
                proof {
                    lemma_same_slots(before.subscriptions, self@.subscriptions);
                }
            }
        }
    }

    /// Ends a subscription and gives its delivery slots back.
    pub fn unsubscribe(&mut self, id: u64)
        requires
            old(self).well_formed(),
        ensures
            final(self).well_formed(),
            final(self)@ == old(self)@.unsubscribing(id),
    {
        let ghost before = self@;
        let ghost entries = self.subscriptions@;
        match take(&mut self.subscriptions, id) {
            Some(entry) => {
                proof {
                    lemma_reserved_slots(before.subscriptions, id);
                }
                self.reserved = self.reserved - entry.capacity;
                assert(self@.subscriptions =~= before.unsubscribing(id).subscriptions);
            },
            None => {
                assert(!entries.contains_key(id));
                assert(self@.subscriptions =~= before.subscriptions);
                assert(before.unsubscribing(id).subscriptions =~= before.subscriptions);
            },
        }
        assert(self@ =~= before.unsubscribing(id));
    }

    /// Publishes a validated message, silently rejecting forged oversized values.
    pub fn publish(&mut self, reply: DeviceReply, now: Duration, received_at: Duration)
        requires
            old(self).well_formed(),
        ensures
            final(self).well_formed(),
            exists|result: Result<Publication, BurstPublishError>|
                published(old(self)@, reply@, now, received_at, result, final(self)@),
    {
        let result = self.try_publish(reply, now, received_at);
        assert(published(old(self)@, reply@, now, received_at, result, self@));
    }

    /// Publishes a message and reports malformed values constructed outside the wire decoder.
    ///
    /// `now` is the time by which repetitions are judged, `received_at` the
    /// time that subscribers are told.
    pub fn try_publish(&mut self, reply: DeviceReply, now: Duration, received_at: Duration) -> (result:
        Result<Publication, BurstPublishError>)
        requires
            old(self).well_formed(),
        ensures
            final(self).well_formed(),
            published(old(self)@, reply@, now, received_at, result, final(self)@),
    {
        let ghost before = self@;
        let ghost view = reply@;
        let data_length: usize = reply.data.len();
        if data_length > 255 {
            self.mark_invalid();
            return Err(BurstPublishError::DataLength(data_length));
        }
        let expansion_length: usize = reply.frame_expansion.len();
        if expansion_length > 3 {
            self.mark_invalid();
            return Err(BurstPublishError::ExpansionLength(expansion_length));
        }
        let key = BurstKey { address: reply.address, command: reply.command };
        let mut fingerprint: Vec<u8> = Vec::new();
        fingerprint.push(reply.response_code);
        fingerprint.push(reply.device_status);
        append_bytes(&mut fingerprint, &reply.data);
        assert(fingerprint@ =~= BurstView::fingerprint(view));
        self.received = self.received.saturating_add(1);
        assert(self@ =~= before.receiving());
        if self.is_repetition(key, &fingerprint, now) {
            self.duplicates = self.duplicates.saturating_add(1);
            return Ok(Publication::Duplicate);
        }
        self.remember(key, fingerprint, now, Ghost(view));
        let message = BurstMessage { received_at, reply };
        let deliveries = self.deliver(key, &message);
        Ok(Publication::Deliveries(deliveries))
    }

    fn is_repetition(&self, key: BurstKey, fingerprint: &Vec<u8>, now: Duration) -> (repeated: bool)
        ensures
            repeated == ({
                &&& self@.fingerprints.contains_key(key.number())
                &&& self@.config.duplicate_window.nanos > 0
                &&& self@.fingerprints[key.number()].0 == fingerprint@
                &&& now.nanos - self@.fingerprints[key.number()].1.nanos
                    < self@.config.duplicate_window.nanos
            }),
    {
        match find(&self.fingerprints, key.key()) {
            None => false,
            Some(previous) => !self.config.duplicate_window.is_zero() && same_bytes(
                &previous.bytes,
                fingerprint,
            ) && now.saturating_sub(previous.last_delivered_at).nanos
                < self.config.duplicate_window.nanos,
        }
    }

    fn drop_from_order(&mut self, key: u128)
        ensures
            final(self).fingerprint_order@ == without_key(old(self).fingerprint_order@, key),
            final(self).next_id == old(self).next_id,
            final(self).subscriptions == old(self).subscriptions,
            final(self).reserved == old(self).reserved,
            final(self).fingerprints == old(self).fingerprints,
            final(self).config == old(self).config,
            final(self).received == old(self).received,
            final(self).duplicates == old(self).duplicates,
            final(self).drops == old(self).drops,
            final(self).evictions == old(self).evictions,
            final(self).invalid == old(self).invalid,
    {
        let ghost before = self.fingerprint_order@;
        let mut kept: VecDeque<u128> = VecDeque::new();
        let mut index: usize = 0;
        reveal(Seq::filter);
        assert(without_key(before.take(0), key) =~= Seq::<u128>::empty());
        while index < self.fingerprint_order.len()
            invariant
                index <= self.fingerprint_order@.len(),
                self.fingerprint_order@ == before,
                kept@ == without_key(before.take(index as int), key),
            decreases self.fingerprint_order@.len() - index,
        {
            reveal(Seq::filter);
            assert(before.take(index + 1).drop_last() =~= before.take(index as int));
            let candidate: u128 = self.fingerprint_order[index];
            if candidate != key {
                kept.push_back(candidate);
            }
            index += 1;
        }
        assert(before.take(index as int) =~= before);
        self.fingerprint_order = kept;
    }

    fn remember(
        &mut self,
        key: BurstKey,
        fingerprint: Vec<u8>,
        now: Duration,
        Ghost(reply): Ghost<ReplyView>,
    )
        requires
            old(self).well_formed(),
            key == BurstView::message_key(reply),
            fingerprint@ == BurstView::fingerprint(reply),
        ensures
            final(self).well_formed(),
            final(self)@ == old(self)@.remembering(reply, now),
    {
        let ghost before = self@;
        let number: u128 = key.key();
        proof {
            self@.order.unique_seq_to_set();
        }
        if holds(&self.fingerprints, number) {
            self.drop_from_order(number);
        } else if self.fingerprint_order.len() == self.config.maximum_tracked_keys {
            if let Some(oldest) = self.fingerprint_order.pop_front() {
                take(&mut self.fingerprints, oldest);
                self.evictions = self.evictions.saturating_add(1);
                assert(self.fingerprint_order@ =~= before.order.drop_first());
            }
        }
        put(
            &mut self.fingerprints,
            number,
            Fingerprint { bytes: fingerprint, last_delivered_at: now },
        );
        self.fingerprint_order.push_back(number);
        proof {
            assert(self@.fingerprints =~= before.remembering(reply, now).fingerprints);
            assert(self@ =~= before.remembering(reply, now));
            lemma_remembering_is_consistent(before, reply, now);
        }
    }

    /// Offers a message to a subscription if it is one of its key.
    fn offer_to(&mut self, id: u64, key: BurstKey, message: &BurstMessage) -> (offered: Option<
        Delivery,
    >)
        requires
            old(self).well_formed(),
            old(self)@.subscriptions.contains_key(id),
            key == BurstView::message_key(message@.reply),
        ensures
            final(self).well_formed(),
            if old(self)@.subscriptions[id].key == key {
                &&& offered matches Some(delivery)
                &&& final(self)@ == old(self)@.offering(id, message@, delivery)
                &&& justified(old(self)@.subscriptions[id], message@, delivery)
            } else {
                offered is None && final(self)@ == old(self)@
            },
    {
        let ghost before = self@;
        match take(&mut self.subscriptions, id) {
            None => None,
            Some(found) => {
                let mut entry = found;
                let ghost subscription = entry@;
                assert(before.subscriptions[id] == subscription);
                assert(subscription.consistent());
                proof {
                    lemma_reserved_slots(before.subscriptions, id);
                }
                if entry.key != key {
                    put(&mut self.subscriptions, id, entry);
                    assert(self@.subscriptions =~= before.subscriptions);
                    assert(self@ =~= before);
                    return None;
                }
                let delivery = offer(&mut entry.outlet, message.clone());
                let ghost offered = subscription.offering(message@, delivery);
                assert(entry@ =~= offered);
                assert(offered.queue.offers.drop_last() =~= subscription.queue.offers);
                match delivery {
                    Delivery::Closed => {
                        self.reserved = self.reserved - entry.capacity;
                        assert(offered.queue == QueueView::of(entry.outlet.sender));
                        assert(self@.subscriptions =~= before.subscriptions.remove(id));
                    },
                    Delivery::Full => {
                        self.drops = self.drops.saturating_add(1);
                        put(&mut self.subscriptions, id, entry);
                        assert(self@.subscriptions =~= before.subscriptions.insert(id, offered));
                        proof {
                            lemma_same_slots(before.subscriptions, self@.subscriptions);
                        }
                    },
                    Delivery::Delivered => {
                        put(&mut self.subscriptions, id, entry);
                        assert(self@.subscriptions =~= before.subscriptions.insert(id, offered));
                        proof {
                            lemma_same_slots(before.subscriptions, self@.subscriptions);
                        }
                    },
                }
                assert(self@ =~= before.offering(id, message@, delivery));
                Some(delivery)
            },
        }
    }

    /// Offers a message to every subscription of its key, in order.
    fn deliver(&mut self, key: BurstKey, message: &BurstMessage) -> (deliveries: Vec<
        (u64, Delivery),
    >)
        requires
            old(self).well_formed(),
            key == BurstView::message_key(message@.reply),
        ensures
            final(self).well_formed(),
            final(self)@ == old(self)@.settling(deliveries@, message@),
            all_justified(old(self)@.subscriptions, deliveries@, message@),
            exists|ids: Seq<u64>|
                ascending_keys(ids, old(self)@.subscriptions) && delivery_ids(deliveries@)
                    == #[trigger] receivers(old(self)@.subscriptions, ids, key),
    {
        let ghost before = self@;
        let ids = keys_of(&self.subscriptions);
        assert(self.subscriptions@.dom() =~= before.subscriptions.dom());
        let mut deliveries: Vec<(u64, Delivery)> = Vec::new();
        let mut index: usize = 0;
        assert(delivery_ids(deliveries@) =~= receivers(before.subscriptions, ids@.take(0), key));
        while index < ids.len()
            invariant
                index <= ids@.len(),
                key == BurstView::message_key(message@.reply),
                ascending_keys(ids@, before.subscriptions),
                self.well_formed(),
                self@ == before.settling(deliveries@, message@),
                all_justified(before.subscriptions, deliveries@, message@),
                delivery_ids(deliveries@) == receivers(
                    before.subscriptions,
                    ids@.take(index as int),
                    key,
                ),
                forall|at: int|
                    index <= at < ids@.len() ==> self@.subscriptions.contains_key(
                        #[trigger] ids@[at],
                    ) && self@.subscriptions[ids@[at]] == before.subscriptions[ids@[at]],
            decreases ids@.len() - index,
        {
            let id: u64 = ids[index];
            let ghost earlier = deliveries@;
            assert(ids@.take(index + 1).drop_last() =~= ids@.take(index as int));
            assert(self@.subscriptions.contains_key(ids@[index as int]));
            if let Some(delivery) = self.offer_to(id, key, message) {
                deliveries.push((id, delivery));
                assert(deliveries@.drop_last() =~= earlier);
                assert(delivery_ids(deliveries@) =~= delivery_ids(earlier).push(id));
            }
            index += 1;
        }
        assert(ids@.take(index as int) =~= ids@);
        deliveries
    }

    /// Returns the current summary, without the subscriptions whose receiver is gone.
    pub fn snapshot(&mut self) -> (snapshot: BurstSnapshot)
        requires
            old(self).well_formed(),
        ensures
            final(self).well_formed(),
            swept(old(self)@, final(self)@),
            snapshot.subscriptions == final(self)@.subscriptions.len(),
            snapshot.reserved_delivery_slots == reserved_slots(final(self)@.subscriptions),
            snapshot.received == final(self)@.received,
            snapshot.duplicates == final(self)@.duplicates,
            snapshot.backpressure_drops == final(self)@.drops,
            snapshot.tracked_keys == final(self)@.fingerprints.len(),
            snapshot.fingerprint_evictions == final(self)@.evictions,
            snapshot.invalid_messages == final(self)@.invalid,
    {
        self.sweep();
        assert(self.subscriptions@.dom() =~= self@.subscriptions.dom());
        assert(self.fingerprints@.dom() =~= self@.fingerprints.dom());
        BurstSnapshot {
            subscriptions: size(&self.subscriptions),
            reserved_delivery_slots: self.reserved,
            received: self.received,
            duplicates: self.duplicates,
            backpressure_drops: self.drops,
            tracked_keys: size(&self.fingerprints),
            fingerprint_evictions: self.evictions,
            invalid_messages: self.invalid,
        }
    }

    /// Removes the remembered payload for one key so its next message is always delivered.
    pub fn reset_key(&mut self, key: BurstKey)
        requires
            old(self).well_formed(),
        ensures
            final(self).well_formed(),
            final(self)@ == old(self)@.forgetting(key.number()),
    {
        let ghost before = self@;
        let number: u128 = key.key();
        take(&mut self.fingerprints, number);
        self.drop_from_order(number);
        assert(self@.fingerprints =~= before.forgetting(number).fingerprints);
        assert(self@ =~= before.forgetting(number));
        proof {
            lemma_forgetting_is_consistent(before, number);
        }
    }

    /// Removes every remembered payload without affecting subscriptions or counters.
    pub fn reset_all(&mut self)
        requires
            old(self).well_formed(),
        ensures
            final(self).well_formed(),
            final(self)@ == (BurstView {
                fingerprints: Map::empty(),
                order: Seq::empty(),
                ..old(self)@
            }),
    {
        self.fingerprints = BTreeMap::new();
        self.fingerprint_order = VecDeque::new();
        assert(self@.fingerprints =~= Map::empty());
        assert(self@.order.to_set() =~= self@.fingerprints.dom());
    }

    fn mark_invalid(&mut self)
        requires
            old(self).well_formed(),
        ensures
            final(self).well_formed(),
            final(self)@ == (BurstView { invalid: counted(old(self)@.invalid, 1), ..old(self)@ }),
    {
        self.invalid = self.invalid.saturating_add(1);
    }
}

/// What publishing a message does and says.
pub open spec fn published(
    before: BurstView,
    reply: ReplyView,
    now: Duration,
    received_at: Duration,
    result: Result<Publication, BurstPublishError>,
    after: BurstView,
) -> bool {
    match BurstView::message_error(reply) {
        Some(error) => result == Err::<Publication, BurstPublishError>(error) && after == (
        BurstView { invalid: counted(before.invalid, 1), ..before }),
        None => if before.repeats(reply, now) {
            result == Ok::<Publication, BurstPublishError>(Publication::Duplicate) && after == (
            BurstView { duplicates: counted(before.duplicates, 1), ..before.receiving() })
        } else {
            let remembered = before.receiving().remembering(reply, now);
            let message = MessageView { received_at, reply };
            &&& result matches Ok(Publication::Deliveries(deliveries))
            &&& after == remembered.settling(deliveries@, message)
            &&& all_justified(before.subscriptions, deliveries@, message)
            &&& exists|ids: Seq<u64>|
                ascending_keys(ids, before.subscriptions) && delivery_ids(deliveries@)
                    == #[trigger] receivers(
                    before.subscriptions,
                    ids,
                    BurstView::message_key(reply),
                )
        },
    }
}

/// How many offers found their queue full.
pub open spec fn full_offers(deliveries: Seq<(u64, Delivery)>) -> nat
    decreases deliveries.len(),
{
    if deliveries.len() == 0 {
        0
    } else {
        full_offers(deliveries.drop_last()) + if deliveries.last().1 == Delivery::Full {
            1nat
        } else {
            0nat
        }
    }
}

proof fn lemma_receivers(subscriptions: Map<u64, SubscriptionView>, ids: Seq<u64>, key: BurstKey)
    requires
        ids.no_duplicates(),
    ensures
        receivers(subscriptions, ids, key).no_duplicates(),
        forall|id: u64| #[trigger]
            receivers(subscriptions, ids, key).contains(id) <==> ids.contains(id)
                && subscriptions[id].key == key,
    decreases ids.len(),
{
    let found = receivers(subscriptions, ids, key);
    if ids.len() > 0 {
        let rest = ids.drop_last();
        let last = ids.last();
        let before = receivers(subscriptions, rest, key);
        lemma_receivers(subscriptions, rest, key);
        assert(ids =~= rest.push(last));
        assert(!rest.contains(last)) by {
            if rest.contains(last) {
                let at = choose|at: int| 0 <= at < rest.len() && rest[at] == last;
                assert(ids[at] == ids[ids.len() - 1]);
            }
        }
        lemma_contains_pushed(rest, last);
        lemma_contains_pushed(before, last);
        if subscriptions[last].key == key {
            assert forall|first: int, second: int| 0 <= first < second < found.len() implies
                found[first] != found[second] by {
                if second == before.len() {
                    assert(before.contains(before[first]));
                }
            }
        }
    } else {
        assert(found =~= Seq::empty());
    }
}

proof fn lemma_contains_pushed(items: Seq<u64>, last: u64)
    ensures
        forall|item: u64| #[trigger]
            items.push(last).contains(item) <==> items.contains(item) || item == last,
{
    let longer = items.push(last);
    assert forall|item: u64| #[trigger] longer.contains(item) <==> items.contains(item) || item
        == last by {
        if items.contains(item) {
            let at = choose|at: int| 0 <= at < items.len() && items[at] == item;
            assert(longer[at] == item);
        }
        assert(longer[items.len() as int] == last);
        if longer.contains(item) && item != last {
            let at = choose|at: int| 0 <= at < longer.len() && longer[at] == item;
            assert(items[at] == item);
        }
    }
}

/// What offers to different subscriptions leave of a hub.
proof fn lemma_settling(hub: BurstView, deliveries: Seq<(u64, Delivery)>, message: MessageView)
    requires
        delivery_ids(deliveries).no_duplicates(),
        forall|index: int|
            0 <= index < deliveries.len() ==> hub.subscriptions.contains_key(
                (#[trigger] deliveries[index]).0,
            ),
    ensures
        ({
            let after = hub.settling(deliveries, message);
            &&& after == (BurstView {
                subscriptions: after.subscriptions,
                drops: counted(hub.drops, full_offers(deliveries)),
                ..hub
            })
            &&& forall|index: int|
                0 <= index < deliveries.len() ==> reached(
                    hub.subscriptions,
                    after.subscriptions,
                    (#[trigger] deliveries[index]).0,
                    message,
                    deliveries[index].1,
                )
            &&& forall|id: u64|
                !(#[trigger] delivery_ids(deliveries).contains(id)) ==> lookup(
                    after.subscriptions,
                    id,
                ) == lookup(hub.subscriptions, id)
        }),
    decreases deliveries.len(),
{
    if deliveries.len() > 0 {
        let rest = deliveries.drop_last();
        let (last, delivery) = deliveries.last();
        let ids = delivery_ids(rest);
        assert(delivery_ids(deliveries) =~= ids.push(last));
        lemma_contains_pushed(ids, last);
        assert forall|first: int, second: int| 0 <= first < second < ids.len() implies ids[first]
            != ids[second] by {
            assert(delivery_ids(deliveries)[first] != delivery_ids(deliveries)[second]);
        }
        assert forall|index: int| 0 <= index < rest.len() implies hub.subscriptions.contains_key(
            (#[trigger] rest[index]).0,
        ) && rest[index].0 != last by {
            assert(rest[index] == deliveries[index]);
            assert(delivery_ids(deliveries)[index] != delivery_ids(deliveries)[deliveries.len()
                - 1]);
        }
        lemma_settling(hub, rest, message);
        let between = hub.settling(rest, message);
        let after = hub.settling(deliveries, message);
        assert(!ids.contains(last)) by {
            if ids.contains(last) {
                let at = choose|at: int| 0 <= at < ids.len() && ids[at] == last;
                assert(rest[at].0 == last);
            }
        }
        assert(lookup(between.subscriptions, last) == lookup(hub.subscriptions, last));
        assert(hub.subscriptions.contains_key(deliveries[deliveries.len() - 1].0));
        assert forall|index: int| 0 <= index < deliveries.len() implies reached(
            hub.subscriptions,
            after.subscriptions,
            (#[trigger] deliveries[index]).0,
            message,
            deliveries[index].1,
        ) by {
            if index < rest.len() {
                assert(rest[index] == deliveries[index]);
                assert(rest[index].0 != last);
            } else {
                let offers = hub.subscriptions[last].queue.offers;
                assert(offers.push((message, delivery)).drop_last() =~= offers);
            }
        }
        assert forall|id: u64| !(#[trigger] delivery_ids(deliveries).contains(id)) implies lookup(
            after.subscriptions,
            id,
        ) == lookup(hub.subscriptions, id) by {
            assert(!ids.contains(id));
        }
    }
}

/// What an offer leaves of a subscription: the message stands last in its
/// queue where it was delivered, nothing is added where the queue was full, and
/// the subscription ends where its receiver is gone.
pub open spec fn reached(
    before: Map<u64, SubscriptionView>,
    after: Map<u64, SubscriptionView>,
    id: u64,
    message: MessageView,
    delivery: Delivery,
) -> bool {
    if delivery == Delivery::Closed {
        !after.contains_key(id)
    } else {
        &&& after.contains_key(id)
        &&& after[id] == before[id].offering(message, delivery)
        &&& after[id].sent() == if delivery == Delivery::Delivered {
            before[id].sent().push(message)
        } else {
            before[id].sent()
        }
    }
}

/// A message that is no repetition is offered once to every subscription of its
/// key and to no other: it goes into the queue behind all that went into it
/// before, unless the receiver is gone or the queue was full, which it is only
/// after as many messages as it has slots. Each full queue counts as a dropped
/// delivery.
pub proof fn lemma_publication_reaches_its_key(
    before: BurstView,
    reply: ReplyView,
    now: Duration,
    received_at: Duration,
    result: Result<Publication, BurstPublishError>,
    after: BurstView,
)
    requires
        before.consistent(),
        published(before, reply, now, received_at, result, after),
        BurstView::message_error(reply) is None,
        !before.repeats(reply, now),
    ensures
        result matches Ok(Publication::Deliveries(deliveries)) && {
            let message = MessageView { received_at, reply };
            let key = BurstView::message_key(reply);
            let ids = delivery_ids(deliveries@);
            &&& ids.no_duplicates()
            &&& forall|id: u64| #[trigger]
                ids.contains(id) <==> before.subscriptions.contains_key(id)
                    && before.subscriptions[id].key == key
            &&& forall|index: int|
                0 <= index < deliveries@.len() ==> {
                    let (id, delivery) = #[trigger] deliveries@[index];
                    &&& reached(before.subscriptions, after.subscriptions, id, message, delivery)
                    &&& before.subscriptions[id].sent().len() < before.subscriptions[id].capacity
                        ==> delivery != Delivery::Full
                }
            &&& forall|id: u64|
                !(#[trigger] ids.contains(id)) ==> lookup(after.subscriptions, id) == lookup(
                    before.subscriptions,
                    id,
                )
            &&& after.drops == counted(before.drops, full_offers(deliveries@))
            &&& after.duplicates == before.duplicates
            &&& after.received == counted(before.received, 1)
            &&& after.fingerprints[key.number()] == (BurstView::fingerprint(reply), now)
        },
{
    let message = MessageView { received_at, reply };
    let key = BurstView::message_key(reply);
    let deliveries = result->Ok_0->Deliveries_0@;
    let remembered = before.receiving().remembering(reply, now);
    let ids = choose|ids: Seq<u64>|
        ascending_keys(ids, before.subscriptions) && delivery_ids(deliveries)
            == #[trigger] receivers(before.subscriptions, ids, key);
    assert(ids.no_duplicates());
    lemma_receivers(before.subscriptions, ids, key);
    assert forall|index: int| 0 <= index < deliveries.len() implies
        before.subscriptions.contains_key((#[trigger] deliveries[index]).0) by {
        let id = deliveries[index].0;
        assert(delivery_ids(deliveries)[index] == id);
        assert(delivery_ids(deliveries).contains(id));
        let at = choose|at: int| 0 <= at < ids.len() && ids[at] == id;
        assert(before.subscriptions.contains_key(ids[at]));
    }
    lemma_settling(remembered, deliveries, message);
    assert forall|id: u64| #[trigger] delivery_ids(deliveries).contains(id) <==>
        before.subscriptions.contains_key(id) && before.subscriptions[id].key == key by {
        if ids.contains(id) {
            let at = choose|at: int| 0 <= at < ids.len() && ids[at] == id;
            assert(before.subscriptions.contains_key(ids[at]));
        }
    }
    assert forall|index: int| 0 <= index < deliveries.len() implies {
        let (id, delivery) = #[trigger] deliveries[index];
        &&& reached(before.subscriptions, after.subscriptions, id, message, delivery)
        &&& before.subscriptions[id].sent().len() < before.subscriptions[id].capacity ==> delivery
            != Delivery::Full
    } by {
        let (id, delivery) = deliveries[index];
        assert(justified(before.subscriptions[id], message, delivery));
    }
}

/// A message that is refused or repeats another reaches no subscription, and
/// the time of the delivery that it repeats stays as it was.
pub proof fn lemma_other_publication_reaches_nobody(
    before: BurstView,
    reply: ReplyView,
    now: Duration,
    received_at: Duration,
    result: Result<Publication, BurstPublishError>,
    after: BurstView,
)
    requires
        published(before, reply, now, received_at, result, after),
        BurstView::message_error(reply) is Some || before.repeats(reply, now),
    ensures
        after.subscriptions == before.subscriptions,
        after.fingerprints == before.fingerprints,
        after.order == before.order,
        after.drops == before.drops,
        BurstView::message_error(reply) is Some ==> result is Err && after.invalid == counted(
            before.invalid,
            1,
        ),
        BurstView::message_error(reply) is None ==> result == Ok::<Publication, BurstPublishError>(
            Publication::Duplicate,
        ) && after.received == counted(before.received, 1) && after.duplicates == counted(
            before.duplicates,
            1,
        ),
{
}

/// A subscription at a later time: it has the same key, slots and queue, and
/// all that went to the subscriber before still stands first.
pub open spec fn continues(earlier: SubscriptionView, later: SubscriptionView) -> bool {
    &&& later.key == earlier.key
    &&& later.capacity == earlier.capacity
    &&& later.queue.bound == earlier.queue.bound
    &&& later.queue.target == earlier.queue.target
    &&& later.queue.carried == earlier.queue.carried
    &&& earlier.sent().is_prefix_of(later.sent())
}

/// Publishing a message starts no subscription, and leaves each that it does
/// not end on its queue, with all that was sent to it.
pub proof fn lemma_publication_keeps_queues(
    before: BurstView,
    reply: ReplyView,
    now: Duration,
    received_at: Duration,
    result: Result<Publication, BurstPublishError>,
    after: BurstView,
    id: u64,
)
    requires
        before.consistent(),
        published(before, reply, now, received_at, result, after),
        after.subscriptions.contains_key(id),
    ensures
        before.subscriptions.contains_key(id),
        continues(before.subscriptions[id], after.subscriptions[id]),
        before.subscriptions[id].key != BurstView::message_key(reply) ==> after.subscriptions[id]
            == before.subscriptions[id],
{
    if BurstView::message_error(reply) is None && !before.repeats(reply, now) {
        lemma_publication_reaches_its_key(before, reply, now, received_at, result, after);
        let deliveries = result->Ok_0->Deliveries_0@;
        let ids = delivery_ids(deliveries);
        if ids.contains(id) {
            let index = choose|index: int| 0 <= index < ids.len() && ids[index] == id;
            assert(deliveries[index].0 == id);
            let sent = before.subscriptions[id].sent();
            assert(sent =~= after.subscriptions[id].sent().subrange(0, sent.len() as int));
        } else {
            assert(lookup(after.subscriptions, id) == lookup(before.subscriptions, id));
            lemma_continues_itself(before.subscriptions[id]);
        }
    } else {
        lemma_continues_itself(before.subscriptions[id]);
    }
}

/// Looking for receivers that are gone leaves every other subscription on its
/// queue, with all that was sent to it, and sends nothing.
pub proof fn lemma_sweep_keeps_queues(before: BurstView, after: BurstView, id: u64)
    requires
        swept(before, after),
        after.subscriptions.contains_key(id),
    ensures
        before.subscriptions.contains_key(id),
        continues(before.subscriptions[id], after.subscriptions[id]),
        after.subscriptions[id].queue.offers == before.subscriptions[id].queue.offers,
{
    assert(before.subscriptions.dom().contains(id));
    assert(polled(before.subscriptions, after.subscriptions, id));
    lemma_continues_itself(before.subscriptions[id]);
}

proof fn lemma_continues_itself(subscription: SubscriptionView)
    ensures
        continues(subscription, subscription),
{
    let sent = subscription.sent();
    assert(sent =~= sent.subrange(0, sent.len() as int));
}

/// A subscription reads the messages that the hub sent it, in order, and each
/// of them has its key: what it has read and what was sent to it agree as far
/// as both go.
pub proof fn lemma_subscription_reads_what_was_sent(
    hub: &BurstHub,
    subscription: &BurstSubscription,
)
    requires
        hub.well_formed(),
        hub@.subscriptions.contains_key(subscription.number()),
        subscription.supply() == hub@.subscriptions[subscription.number()].queue.carried,
        subscription.read().is_prefix_of(subscription.supply()),
    ensures
        ({
            let entry = hub@.subscriptions[subscription.number()];
            let read = subscription.read();
            &&& read.len() <= entry.sent().len() ==> read.is_prefix_of(entry.sent())
            &&& read.len() >= entry.sent().len() ==> entry.sent().is_prefix_of(read)
            &&& forall|index: int|
                0 <= index < read.len() && index < entry.sent().len()
                    ==> BurstView::message_key((#[trigger] read[index]).reply) == entry.key
        }),
{
    let entry = hub@.subscriptions[subscription.number()];
    let read = subscription.read();
    let carried = entry.queue.carried;
    assert(entry.consistent());
    assert forall|index: int| 0 <= index < read.len() && index < entry.sent().len() implies
        #[trigger] read[index] == entry.sent()[index] by {
        assert(read[index] == carried.subrange(0, read.len() as int)[index]);
        assert(entry.sent()[index] == carried.subrange(0, entry.sent().len() as int)[index]);
    }
    if read.len() <= entry.sent().len() {
        assert(read =~= entry.sent().subrange(0, read.len() as int));
    }
    if read.len() >= entry.sent().len() {
        assert(entry.sent() =~= read.subrange(0, entry.sent().len() as int));
    }
}

proof fn lemma_fewer_slots(
    fewer: Map<u64, SubscriptionView>,
    subscriptions: Map<u64, SubscriptionView>,
)
    requires
        subscriptions.dom().finite(),
        fewer.dom().subset_of(subscriptions.dom()),
        forall|id: u64| #[trigger]
            fewer.contains_key(id) ==> fewer[id].capacity == subscriptions[id].capacity,
    ensures
        fewer.dom().finite(),
        fewer.len() <= subscriptions.len(),
        reserved_slots(fewer) <= reserved_slots(subscriptions),
    decreases subscriptions.dom().len(),
{
    vstd::set_lib::lemma_len_subset(fewer.dom(), subscriptions.dom());
    if subscriptions.dom().len() > 0 {
        let id = subscriptions.dom().choose();
        assert(subscriptions.contains_key(id));
        lemma_reserved_slots(subscriptions, id);
        lemma_fewer_slots(fewer.remove(id), subscriptions.remove(id));
        if fewer.contains_key(id) {
            lemma_reserved_slots(fewer, id);
        } else {
            assert(fewer.remove(id) =~= fewer);
        }
    }
}

/// Ending subscriptions whose receiver is gone frees places and slots, so what
/// could be subscribed before can be subscribed after; where none is gone, the
/// places and slots in use stay the same.
pub proof fn lemma_sweep_frees_slots(before: BurstView, after: BurstView, capacity: usize)
    requires
        before.consistent(),
        swept(before, after),
    ensures
        after.subscriptions.len() <= before.subscriptions.len(),
        reserved_slots(after.subscriptions) <= reserved_slots(before.subscriptions),
        before.subscription_error(capacity) is None ==> after.subscription_error(capacity) is None,
        after.subscriptions.dom() == before.subscriptions.dom() ==> after.subscriptions.len()
            == before.subscriptions.len() && reserved_slots(after.subscriptions) == reserved_slots(
            before.subscriptions,
        ),
{
    assert forall|id: u64| #[trigger] after.subscriptions.contains_key(id) implies
        after.subscriptions[id].capacity == before.subscriptions[id].capacity by {
        assert(before.subscriptions.dom().contains(id));
        assert(before.subscriptions.contains_key(id));
    }
    lemma_fewer_slots(after.subscriptions, before.subscriptions);
    if after.subscriptions.dom() == before.subscriptions.dom() {
        lemma_same_slots(after.subscriptions, before.subscriptions);
    }
}

/// A subscription takes one place and as many slots as it asks for, within the
/// limits, and no identifier that was in use.
pub proof fn lemma_subscription_takes_its_slots(
    before: BurstView,
    key: BurstKey,
    capacity: usize,
    result: Result<BurstSubscription, BurstSubscriptionError>,
    after: BurstView,
)
    requires
        before.consistent(),
        admitted(before, key, capacity, result, after),
        result is Ok,
    ensures
        !before.subscriptions.contains_key(result->Ok_0.number()),
        after.subscriptions.contains_key(result->Ok_0.number()),
        after.subscriptions.len() == before.subscriptions.len() + 1,
        after.subscriptions.len() <= before.config.maximum_subscriptions,
        reserved_slots(after.subscriptions) == reserved_slots(before.subscriptions) + capacity,
        reserved_slots(after.subscriptions) <= before.config.maximum_buffered_deliveries,
{
    let id = result->Ok_0.number();
    assert(!before.subscriptions.contains_key(id));
    lemma_reserved_slots(after.subscriptions, id);
    assert(after.subscriptions.remove(id) =~= before.subscriptions);
}

/// A subscription that ends, by itself or because its receiver is found to be
/// gone while all others stay, gives its place and its slots back.
pub proof fn lemma_subscription_is_given_back(
    before: BurstView,
    key: BurstKey,
    capacity: usize,
    queue: QueueView,
    later: BurstView,
)
    requires
        before.consistent(),
        before.next_id < u64::MAX,
    ensures
        before.subscribing(key, capacity, queue).unsubscribing(
            (before.next_id + 1) as u64,
        ).subscriptions == before.subscriptions,
        swept(before.subscribing(key, capacity, queue), later) && later.subscriptions.dom()
            == before.subscriptions.dom() ==> later.subscriptions.len()
            == before.subscriptions.len() && reserved_slots(later.subscriptions) == reserved_slots(
            before.subscriptions,
        ),
{
    let id = (before.next_id + 1) as u64;
    let between = before.subscribing(key, capacity, queue);
    assert(!before.subscriptions.contains_key(id));
    assert(between.unsubscribing(id).subscriptions =~= before.subscriptions);
    if swept(between, later) && later.subscriptions.dom() == before.subscriptions.dom() {
        assert forall|other: u64| #[trigger] later.subscriptions.contains_key(other) implies
            later.subscriptions[other].capacity == before.subscriptions[other].capacity by {
            assert(before.subscriptions.dom().contains(other));
            assert(between.subscriptions.contains_key(other));
        }
        lemma_same_slots(later.subscriptions, before.subscriptions);
    }
}

proof fn lemma_filter_others(order: Seq<u128>, key: u128)
    requires
        order.no_duplicates(),
    ensures
        ({
            let kept = without_key(order, key);
            &&& kept.no_duplicates()
            &&& forall|other: u128| #[trigger]
                kept.contains(other) <==> order.contains(other) && other != key
            &&& kept.len() <= order.len()
            &&& order.contains(key) ==> kept.len() < order.len()
        }),
    decreases order.len(),
{
    reveal(Seq::filter);
    let kept = without_key(order, key);
    if order.len() > 0 {
        let rest = order.drop_last();
        let before = without_key(rest, key);
        let last = order.last();
        assert(rest.no_duplicates());
        lemma_filter_others(rest, key);
        assert forall|other: u128| #[trigger] order.contains(other) <==> rest.contains(other)
            || other == last by {
            if rest.contains(other) {
                let at = choose|at: int| 0 <= at < rest.len() && rest[at] == other;
                assert(order[at] == other);
            }
            assert(order[order.len() - 1] == last);
            if order.contains(other) && other != last {
                let at = choose|at: int| 0 <= at < order.len() && order[at] == other;
                assert(rest[at] == other);
            }
        }
        assert(!rest.contains(last)) by {
            if rest.contains(last) {
                let at = choose|at: int| 0 <= at < rest.len() && rest[at] == last;
                assert(order[at] == order[order.len() - 1]);
            }
        }
        if last != key {
            assert(kept =~= before.push(last));
            assert(!before.contains(last));
            assert forall|first: int, second: int| 0 <= first < second < kept.len() implies
                kept[first] != kept[second] by {
                if second == before.len() {
                    assert(before.contains(before[first]));
                }
            }
            assert forall|other: u128| #[trigger] kept.contains(other) <==> order.contains(other)
                && other != key by {
                if before.contains(other) {
                    let at = choose|at: int| 0 <= at < before.len() && before[at] == other;
                    assert(kept[at] == other);
                }
                assert(kept[before.len() as int] == last);
                if kept.contains(other) && other != last {
                    let at = choose|at: int| 0 <= at < kept.len() && kept[at] == other;
                    assert(before[at] == other);
                }
            }
        } else {
            assert(kept =~= before);
        }
    }
}

proof fn lemma_forgetting_is_consistent(hub: BurstView, key: u128)
    requires
        hub.consistent(),
    ensures
        hub.forgetting(key).consistent(),
{
    lemma_filter_others(hub.order, key);
    let after = hub.forgetting(key);
    assert forall|other: u128| after.order.to_set().contains(other)
        == after.fingerprints.dom().contains(other) by {
        assert(after.order.contains(other) <==> hub.order.contains(other) && other != key);
        assert(hub.order.to_set().contains(other) == hub.fingerprints.dom().contains(other));
    }
    assert(after.order.to_set() =~= after.fingerprints.dom());
}

proof fn lemma_remembering_is_consistent(hub: BurstView, reply: ReplyView, now: Duration)
    requires
        hub.consistent(),
    ensures
        hub.remembering(reply, now).consistent(),
{
    let key = BurstView::message_key(reply).number();
    let after = hub.remembering(reply, now);
    lemma_filter_others(hub.order, key);
    let base = if hub.fingerprints.contains_key(key) {
        hub.forgetting(key).order
    } else if hub.order.len() == hub.config.maximum_tracked_keys {
        hub.order.drop_first()
    } else {
        hub.order
    };
    assert(hub.order.to_set().contains(key) == hub.fingerprints.dom().contains(key));
    assert(hub.fingerprints.contains_key(key) ==> hub.order.contains(key));
    assert(!base.contains(key)) by {
        if base.contains(key) && !hub.fingerprints.contains_key(key) {
            let at = choose|at: int| 0 <= at < base.len() && base[at] == key;
            if hub.order.len() == hub.config.maximum_tracked_keys {
                assert(hub.order[at + 1] == key);
            }
            assert(hub.order.contains(key));
        }
    }
    assert(after.order =~= base.push(key));
    assert forall|first: int, second: int| 0 <= first < second < after.order.len() implies
        after.order[first] != after.order[second] by {
        if second == base.len() {
            assert(base.contains(base[first]));
        } else {
            assert(base.no_duplicates());
        }
    }
    assert forall|other: u128| after.order.to_set().contains(other)
        == after.fingerprints.dom().contains(other) by {
        assert(hub.order.to_set().contains(other) == hub.fingerprints.dom().contains(other));
        if base.contains(other) {
            let at = choose|at: int| 0 <= at < base.len() && base[at] == other;
            assert(after.order[at] == other);
        }
        assert(after.order[base.len() as int] == key);
        if after.order.contains(other) && other != key {
            let at = choose|at: int| 0 <= at < after.order.len() && after.order[at] == other;
            assert(base[at] == other);
            assert(base.contains(other));
        }
        if !hub.fingerprints.contains_key(key) && hub.order.len()
            == hub.config.maximum_tracked_keys {
            let oldest = hub.order[0];
            if base.contains(other) {
                let at = choose|at: int| 0 <= at < base.len() && base[at] == other;
                assert(hub.order[at + 1] == other);
                assert(hub.order[at + 1] != hub.order[0]);
                assert(hub.order.contains(other));
            }
            if hub.order.contains(other) && other != oldest {
                let at = choose|at: int| 0 <= at < hub.order.len() && hub.order[at] == other;
                assert(base[at - 1] == other);
            }
        }
    }
    assert(after.order.to_set() =~= after.fingerprints.dom());
}

} // verus!
