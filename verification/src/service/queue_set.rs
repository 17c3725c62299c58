//! Independently bounded queues and the scheduler that serves them.

use std::collections::{BTreeMap, VecDeque};

use vstd::prelude::*;

use crate::ordered::{find, holds, put, KeySet};

verus! {

/// Maximum capacity of one request queue.
pub const MAXIMUM_QUEUE_CAPACITY: usize = 1_048_576;

/// Maximum total capacity reserved by all queues of one link.
pub const MAXIMUM_TOTAL_QUEUE_CAPACITY: usize = 1_048_576;

/// Maximum number of independently scheduled queues on one physical link.
pub const MAXIMUM_LINK_QUEUES: usize = 256;

/// Stable application-defined identifier of one queue.
#[derive(Debug, Clone, Copy, PartialEq, Eq, PartialOrd, Ord, Hash, Structural)]
pub struct QueueId(pub u16);

impl Default for QueueId {
    /// Identifier used by the default one-queue configuration.
    fn default() -> (id: Self)
        ensures
            id == QueueId(0),
    {
        QueueId(0)
    }
}

impl QueueId {
    /// Creates an identifier without allocating or registering global names.
    pub fn new(value: u16) -> (id: Self)
        ensures
            id == QueueId(value),
    {
        QueueId(value)
    }

    /// Returns the numeric representation.
    pub fn get(self) -> (value: u16)
        ensures
            value == self.0,
    {
        self.0
    }
}

impl From<u16> for QueueId {
    fn from(value: u16) -> (id: Self) {
        QueueId(value)
    }
}

impl vstd::std_specs::convert::FromSpecImpl<u16> for QueueId {
    open spec fn obeys_from_spec() -> bool {
        true
    }

    open spec fn from_spec(value: u16) -> Self {
        QueueId(value)
    }
}

/// Number of requests that a weighted queue may send in a row.
#[derive(Debug, Clone, Copy, PartialEq, Eq, Structural)]
pub struct QueueWeight {
    count: u16,
}

impl QueueWeight {
    #[verifier::type_invariant]
    spec fn positive(self) -> bool {
        self.count > 0
    }

    /// The number of requests.
    pub closed spec fn value(self) -> u16 {
        self.count
    }

    /// Creates a weight, unless it is zero.
    pub fn new(count: u16) -> (weight: Option<Self>)
        ensures
            match weight {
                Some(weight) => count > 0 && weight.value() == count,
                None => count == 0,
            },
    {
        if count == 0 {
            None
        } else {
            Some(QueueWeight { count })
        }
    }

    /// The smallest weight.
    pub fn one() -> (weight: Self)
        ensures
            weight.value() == 1,
    {
        QueueWeight { count: 1 }
    }

    /// Returns the number of requests.
    pub fn get(self) -> (count: u16)
        ensures
            count == self.value(),
            count > 0,
    {
        proof {
            use_type_invariant(&self);
        }
        self.count
    }

    /// Two weights of one number are the same.
    pub proof fn lemma_value_is_injective(left: Self, right: Self)
        requires
            left.value() == right.value(),
        ensures
            left == right,
    {
    }
}

/// Scheduling policy of one queue.
#[derive(Debug, Clone, Copy, PartialEq, Eq, Structural)]
pub enum QueuePriority {
    /// Starvation-free weighted rotation among all ready weighted queues.
    Weighted(QueueWeight),
    /// Absolute priority over every weighted queue. Larger ranks are selected first.
    ///
    /// Strict queues of equal rank rotate fairly. A continuously ready strict queue can
    /// intentionally starve weighted queues, so this mode must be selected explicitly.
    Strict(u16),
}

impl QueuePriority {
    /// The policy as one word: the weight, or the rank below a set top bit.
    pub open spec fn word(self) -> u32 {
        match self {
            QueuePriority::Weighted(weight) => weight.value() as u32,
            QueuePriority::Strict(rank) => (0x8000_0000 + rank) as u32,
        }
    }

    /// Whether this is a weighted priority with a quota.
    pub open spec fn weighs(self, quota: u16) -> bool {
        self matches QueuePriority::Weighted(weight) && weight.value() == quota
    }

    /// Creates a starvation-free weighted priority.
    pub fn weighted(weight: u16) -> (result: Result<Self, QueueConfigError>)
        ensures
            if weight == 0 {
                result == Err::<Self, QueueConfigError>(QueueConfigError::ZeroWeight)
            } else {
                result matches Ok(priority) && priority.weighs(weight)
            },
    {
        match QueueWeight::new(weight) {
            Some(weight) => Ok(QueuePriority::Weighted(weight)),
            None => Err(QueueConfigError::ZeroWeight),
        }
    }

    /// Creates an absolute priority. Larger ranks win over smaller strict ranks.
    pub fn strict(rank: u16) -> (priority: Self)
        ensures
            priority == QueuePriority::Strict(rank),
    {
        QueuePriority::Strict(rank)
    }

    /// Returns the weighted quota, or `None` for an absolute priority.
    pub fn weight(self) -> (weight: Option<u16>)
        ensures
            weight == match self {
                QueuePriority::Weighted(weight) => Some(weight.value()),
                QueuePriority::Strict(_) => None,
            },
    {
        match self {
            QueuePriority::Weighted(weight) => Some(weight.get()),
            QueuePriority::Strict(_) => None,
        }
    }

    /// Returns the strict rank, or `None` for a weighted priority.
    pub fn strict_rank(self) -> (rank: Option<u16>)
        ensures
            rank == match self {
                QueuePriority::Weighted(_) => None,
                QueuePriority::Strict(rank) => Some(rank),
            },
    {
        match self {
            QueuePriority::Weighted(_) => None,
            QueuePriority::Strict(rank) => Some(rank),
        }
    }

    /// Packs the policy into one word.
    pub fn encode(self) -> (word: u32)
        ensures
            word == self.word(),
    {
        match self {
            QueuePriority::Weighted(weight) => weight.get() as u32,
            QueuePriority::Strict(rank) => 0x8000_0000 + rank as u32,
        }
    }

    /// Unpacks a policy from one word. A word without a weight stands for the
    /// smallest one.
    pub fn decode(value: u32) -> (priority: Self)
        ensures
            match priority {
                QueuePriority::Strict(rank) => value >= 0x8000_0000 && rank == value % 0x1_0000,
                QueuePriority::Weighted(weight) => value < 0x8000_0000 && weight.value() == if value
                    % 0x1_0000 == 0 {
                    1
                } else {
                    (value % 0x1_0000) as u16
                },
            },
            forall|other: QueuePriority| #[trigger]
                other.word() == value && (other matches QueuePriority::Weighted(weight)
                    ==> weight.value() > 0) ==> priority == other,
    {
        let lower: u16 = (value % 0x1_0000) as u16;
        if value >= 0x8000_0000 {
            QueuePriority::Strict(lower)
        } else {
            let weight = match QueueWeight::new(lower) {
                Some(weight) => weight,
                None => QueueWeight::one(),
            };
            QueuePriority::Weighted(weight)
        }
    }
}

impl Default for QueuePriority {
    fn default() -> (priority: Self)
        ensures
            priority.weighs(1),
    {
        QueuePriority::Weighted(QueueWeight::one())
    }
}

/// Validated configuration of one independently bounded queue.
#[derive(Debug, Clone, Copy, PartialEq, Eq, Structural)]
pub struct QueueConfig {
    id: QueueId,
    capacity: usize,
    priority: QueuePriority,
}

impl QueueConfig {
    #[verifier::type_invariant]
    spec fn bounded(self) -> bool {
        0 < self.capacity <= MAXIMUM_QUEUE_CAPACITY
    }

    /// The queue identifier.
    pub closed spec fn name(self) -> QueueId {
        self.id
    }

    /// The capacity.
    pub closed spec fn room(self) -> usize {
        self.capacity
    }

    /// The initial scheduling policy.
    pub closed spec fn policy(self) -> QueuePriority {
        self.priority
    }

    /// What is wrong with a capacity, if anything.
    pub open spec fn violation(id: QueueId, capacity: usize) -> Option<QueueConfigError> {
        if capacity == 0 {
            Some(QueueConfigError::ZeroCapacity(id))
        } else if capacity > MAXIMUM_QUEUE_CAPACITY {
            Some(QueueConfigError::CapacityLimit { queue: id, capacity })
        } else {
            None
        }
    }

    /// Creates a queue participating in starvation-free weighted scheduling.
    pub fn weighted(id: QueueId, capacity: usize, weight: u16) -> (result: Result<
        Self,
        QueueConfigError,
    >)
        ensures
            if weight == 0 {
                result == Err::<Self, QueueConfigError>(QueueConfigError::ZeroWeight)
            } else {
                match QueueConfig::violation(id, capacity) {
                    Some(error) => result == Err::<Self, QueueConfigError>(error),
                    None => result matches Ok(config) && config.name() == id && config.room()
                        == capacity && config.policy().weighs(weight),
                }
            },
    {
        let priority = QueuePriority::weighted(weight)?;
        QueueConfig::new(id, capacity, priority)
    }

    /// Creates a queue with absolute priority over weighted queues.
    pub fn strict(id: QueueId, capacity: usize, rank: u16) -> (result: Result<
        Self,
        QueueConfigError,
    >)
        ensures
            match QueueConfig::violation(id, capacity) {
                Some(error) => result == Err::<Self, QueueConfigError>(error),
                None => result matches Ok(config) && config.name() == id && config.room()
                    == capacity && config.policy() == QueuePriority::Strict(rank),
            },
    {
        QueueConfig::new(id, capacity, QueuePriority::strict(rank))
    }

    /// Creates a queue with an explicit scheduling policy.
    pub fn new(id: QueueId, capacity: usize, priority: QueuePriority) -> (result: Result<
        Self,
        QueueConfigError,
    >)
        ensures
            match QueueConfig::violation(id, capacity) {
                Some(error) => result == Err::<Self, QueueConfigError>(error),
                None => result matches Ok(config) && config.name() == id && config.room()
                    == capacity && config.policy() == priority,
            },
    {
        if capacity == 0 {
            return Err(QueueConfigError::ZeroCapacity(id));
        }
        if capacity > MAXIMUM_QUEUE_CAPACITY {
            return Err(QueueConfigError::CapacityLimit { queue: id, capacity });
        }
        Ok(QueueConfig { id, capacity, priority })
    }

    /// Returns the queue identifier.
    pub fn id(self) -> (id: QueueId)
        ensures
            id == self.name(),
    {
        self.id
    }

    /// Returns the independently enforced capacity.
    pub fn capacity(self) -> (capacity: usize)
        ensures
            capacity == self.room(),
            0 < capacity <= MAXIMUM_QUEUE_CAPACITY,
    {
        proof {
            use_type_invariant(&self);
        }
        self.capacity
    }

    /// Returns the initial scheduling policy.
    pub fn priority(self) -> (priority: QueuePriority)
        ensures
            priority == self.policy(),
    {
        self.priority
    }
}

/// Invalid queue layout.
#[derive(Debug, Clone, Copy, PartialEq, Eq, Structural)]
pub enum QueueConfigError {
    /// Every queue must admit at least one request.
    ZeroCapacity(QueueId),
    /// One queue is too large for the runtime safety bound.
    CapacityLimit {
        /// Invalid queue.
        queue: QueueId,
        /// Requested capacity.
        capacity: usize,
    },
    /// A zero weighted quota would prevent progress.
    ZeroWeight,
    /// The same identifier was configured more than once.
    DuplicateId(QueueId),
    /// A link must contain at least one queue.
    Empty,
    /// One link contains too many scheduler classes.
    TooManyQueues,
    /// Aggregate bounded capacity is excessive.
    TotalCapacity(usize),
    /// The selected default queue does not exist in the layout.
    MissingDefault(QueueId),
}

/// Runtime state of one configured queue.
#[derive(Debug, Clone, Copy, PartialEq, Eq, Structural)]
pub struct QueueSnapshot {
    /// Queue identifier.
    pub id: QueueId,
    /// Fixed queue capacity.
    pub capacity: usize,
    /// Requests currently occupying this queue.
    pub queued: usize,
    /// Current scheduling policy.
    pub priority: QueuePriority,
}

/// Error from selecting or reconfiguring one queue.
#[derive(Debug, Clone, Copy, PartialEq, Eq, Structural)]
pub enum QueueError {
    /// The identifier is not part of this link.
    Unknown(QueueId),
    /// A zero weighted quota would prevent progress.
    ZeroWeight,
}

/// Combined capacity of the first queues of a layout.
pub open spec fn reserved(layout: Seq<QueueConfig>, count: int) -> nat
    decreases count,
{
    if count <= 0 {
        0
    } else {
        reserved(layout, count - 1) + layout[count - 1].room() as nat
    }
}

/// Whether an identifier is taken by one of the first queues of a layout.
pub open spec fn taken(layout: Seq<QueueConfig>, count: int, id: QueueId) -> bool {
    exists|index: int| 0 <= index < count && (#[trigger] layout[index]).name() == id
}

/// What is wrong with a layout from a position on, if anything: an identifier
/// that was taken before, or one queue too many for the total capacity.
pub open spec fn queues_violation(layout: Seq<QueueConfig>, from: int) -> Option<QueueConfigError>
    decreases layout.len() - from,
{
    if from >= layout.len() {
        None
    } else if taken(layout, from, layout[from].name()) {
        Some(QueueConfigError::DuplicateId(layout[from].name()))
    } else if reserved(layout, from + 1) > MAXIMUM_TOTAL_QUEUE_CAPACITY {
        Some(QueueConfigError::TotalCapacity(reserved(layout, from + 1) as usize))
    } else {
        queues_violation(layout, from + 1)
    }
}

/// What is wrong with a layout, if anything.
pub open spec fn layout_violation(layout: Seq<QueueConfig>, default: QueueId) -> Option<
    QueueConfigError,
> {
    if layout.len() == 0 {
        Some(QueueConfigError::Empty)
    } else if layout.len() > MAXIMUM_LINK_QUEUES {
        Some(QueueConfigError::TooManyQueues)
    } else if queues_violation(layout, 0) is Some {
        queues_violation(layout, 0)
    } else if !taken(layout, layout.len() as int, default) {
        Some(QueueConfigError::MissingDefault(default))
    } else {
        None
    }
}

/// Whether the queues of a layout have different identifiers.
pub open spec fn distinct(layout: Seq<QueueConfig>) -> bool {
    forall|first: int, second: int|
        0 <= first < second < layout.len() ==> (#[trigger] layout[first]).name() != (
        #[trigger] layout[second]).name()
}

/// The queues of a valid layout have different identifiers.
pub proof fn lemma_valid_layout_is_distinct(layout: Seq<QueueConfig>, default: QueueId)
    requires
        layout_violation(layout, default) is None,
    ensures
        distinct(layout),
{
    assert forall|first: int, second: int| 0 <= first < second < layout.len() implies (
    #[trigger] layout[first]).name() != (#[trigger] layout[second]).name() by {
        lemma_no_later_violation(layout, 0, second);
        assert(!taken(layout, second, layout[second].name()));
    }
}

proof fn lemma_no_later_violation(layout: Seq<QueueConfig>, from: int, index: int)
    requires
        queues_violation(layout, from) is None,
        0 <= from <= index < layout.len(),
    ensures
        !taken(layout, index, layout[index].name()),
    decreases index - from,
{
    if from < index {
        lemma_no_later_violation(layout, from + 1, index);
    }
}

pub(crate) fn validate_layout(layout: &Vec<QueueConfig>, default: QueueId) -> (result: Result<
    (),
    QueueConfigError,
>)
    ensures
        result == match layout_violation(layout@, default) {
            Some(error) => Err::<(), QueueConfigError>(error),
            None => Ok(()),
        },
{
    if layout.len() == 0 {
        return Err(QueueConfigError::Empty);
    }
    if layout.len() > MAXIMUM_LINK_QUEUES {
        return Err(QueueConfigError::TooManyQueues);
    }
    let mut ids: KeySet<u16> = BTreeMap::new();
    let mut total: usize = 0;
    let mut index: usize = 0;
    while index < layout.len()
        invariant
            index <= layout@.len(),
            layout@.len() <= MAXIMUM_LINK_QUEUES,
            layout@.len() > 0,
            queues_violation(layout@, 0) == queues_violation(layout@, index as int),
            total == reserved(layout@, index as int),
            total <= MAXIMUM_TOTAL_QUEUE_CAPACITY,
            forall|value: u16| #[trigger]
                ids@.contains_key(value) <==> taken(layout@, index as int, QueueId(value)),
        decreases layout@.len() - index,
    {
        let config: QueueConfig = layout[index];
        let id: QueueId = config.id();
        let ghost before = ids@;
        if holds(&ids, id.0) {
            return Err(QueueConfigError::DuplicateId(id));
        }
        put(&mut ids, id.0, ());
        let capacity: usize = config.capacity();
        total = total + capacity;
        if total > MAXIMUM_TOTAL_QUEUE_CAPACITY {
            return Err(QueueConfigError::TotalCapacity(total));
        }
        assert forall|value: u16| #[trigger]
            ids@.contains_key(value) <==> taken(layout@, index + 1, QueueId(value)) by {
            if taken(layout@, index as int, QueueId(value)) {
                let at = choose|at: int|
                    0 <= at < index && (#[trigger] layout@[at]).name() == QueueId(value);
                assert(0 <= at < index + 1 && layout@[at].name() == QueueId(value));
            }
            assert(layout@[index as int].name() == id);
            if taken(layout@, index + 1, QueueId(value)) && value != id.0 {
                let at = choose|at: int|
                    0 <= at < index + 1 && (#[trigger] layout@[at]).name() == QueueId(value);
                assert(0 <= at < index && layout@[at].name() == QueueId(value));
            }
        }
        index += 1;
    }
    if !holds(&ids, default.0) {
        return Err(QueueConfigError::MissingDefault(default));
    }
    Ok(())
}

/// Why an item was not taken by a queue.
#[derive(Debug, Clone, Copy, PartialEq, Eq, Structural)]
pub enum QueuePushError {
    /// The queue is full.
    Full,
    /// Nothing is taken any more.
    Closed,
    /// No room came free in time.
    Deadline,
    /// There is no such queue.
    Unknown(QueueId),
}

/// What one queue holds.
#[verifier::ext_equal]
pub struct SlotView<T> {
    /// Queue identifier.
    pub id: QueueId,
    /// Fixed queue capacity.
    pub capacity: usize,
    /// Current scheduling policy.
    pub priority: QueuePriority,
    /// Items that were taken and are not finished.
    pub queued: nat,
    /// Items that wait, the next one first.
    pub entries: Seq<T>,
}

impl<T> SlotView<T> {
    /// Whether an item waits in a weighted queue.
    pub open spec fn ready_weighted(self) -> bool {
        self.priority is Weighted && self.entries.len() > 0
    }

    /// Whether an item waits in a strict queue of a rank.
    pub open spec fn ready_strict(self, rank: u16) -> bool {
        self.priority == QueuePriority::Strict(rank) && self.entries.len() > 0
    }

    /// Requests that the queue may send in a row.
    pub open spec fn quota(self) -> nat {
        match self.priority {
            QueuePriority::Weighted(weight) => weight.value() as nat,
            QueuePriority::Strict(_) => 0,
        }
    }
}

/// Where the rotation stands.
#[derive(Debug, Clone, Copy, PartialEq, Eq, Structural)]
pub struct QueueCursor {
    /// Position of the weighted queue that is served.
    pub weighted_index: usize,
    /// Requests that it has sent in a row.
    pub weighted_used: u16,
    /// Position of the strict queue that was served last.
    pub strict_index: usize,
}

impl QueueCursor {
    /// A rotation at its start.
    pub fn new() -> (cursor: Self)
        ensures
            cursor == (QueueCursor { weighted_index: 0, weighted_used: 0, strict_index: 0 }),
    {
        QueueCursor { weighted_index: 0, weighted_used: 0, strict_index: 0 }
    }
}

/// The position some steps ahead in a ring.
pub open spec fn ahead(position: int, steps: int, size: int) -> int {
    if position + steps < size {
        position + steps
    } else {
        position + steps - size
    }
}

/// The greatest rank of a strict queue with unfinished items among the first.
pub open spec fn top_rank<T>(slots: Seq<SlotView<T>>, count: int) -> Option<u16>
    decreases count,
{
    if count <= 0 {
        None
    } else {
        let before = top_rank(slots, count - 1);
        match slots[count - 1].priority {
            QueuePriority::Strict(rank) => if slots[count - 1].queued > 0 && (before is None
                || before->0 < rank) {
                Some(rank)
            } else {
                before
            },
            QueuePriority::Weighted(_) => before,
        }
    }
}

/// The first strict queue of a rank with a waiting item, from some steps ahead
/// of the one served last up to that one itself.
pub open spec fn strict_turn<T>(
    slots: Seq<SlotView<T>>,
    position: int,
    rank: u16,
    steps: int,
) -> Option<int>
    decreases slots.len() + 1 - steps,
{
    if steps > slots.len() {
        None
    } else if slots[ahead(position, steps, slots.len() as int)].ready_strict(rank) {
        Some(ahead(position, steps, slots.len() as int))
    } else {
        strict_turn(slots, position, rank, steps + 1)
    }
}

/// The first weighted queue with a waiting item, from some steps ahead of a
/// position up to the one just behind it.
pub open spec fn weighted_turn<T>(
    slots: Seq<SlotView<T>>,
    position: int,
    steps: int,
) -> Option<int>
    decreases slots.len() - steps,
{
    if steps >= slots.len() {
        None
    } else if slots[ahead(position, steps, slots.len() as int)].ready_weighted() {
        Some(ahead(position, steps, slots.len() as int))
    } else {
        weighted_turn(slots, position, steps + 1)
    }
}

/// The strict queue that is served next, and the rotation afterwards.
pub open spec fn next_strict<T>(slots: Seq<SlotView<T>>, cursor: QueueCursor) -> Option<
    (int, QueueCursor),
> {
    match top_rank(slots, slots.len() as int) {
        None => None,
        Some(rank) => match strict_turn(slots, cursor.strict_index as int, rank, 1) {
            None => None,
            Some(index) => Some((index, QueueCursor { strict_index: index as usize, ..cursor })),
        },
    }
}

/// The weighted queue that is served next, and the rotation afterwards: the
/// current one while its quota lasts, else the next one that is ready, else
/// the current one again.
pub open spec fn next_weighted<T>(slots: Seq<SlotView<T>>, cursor: QueueCursor) -> Option<
    (int, QueueCursor),
> {
    let current = slots[cursor.weighted_index as int];
    if slots.len() == 0 {
        None
    } else if current.ready_weighted() && cursor.weighted_used < current.quota() {
        Some(
            (
                cursor.weighted_index as int,
                QueueCursor { weighted_used: (cursor.weighted_used + 1) as u16, ..cursor },
            ),
        )
    } else {
        match weighted_turn(slots, cursor.weighted_index as int, 1) {
            Some(index) => Some(
                (
                    index,
                    QueueCursor { weighted_index: index as usize, weighted_used: 1, ..cursor },
                ),
            ),
            None => if current.ready_weighted() {
                Some(
                    (
                        cursor.weighted_index as int,
                        QueueCursor { weighted_used: current.quota() as u16, ..cursor },
                    ),
                )
            } else {
                None
            },
        }
    }
}

/// The queue that is served next, and the rotation afterwards.
pub open spec fn next_turn<T>(slots: Seq<SlotView<T>>, cursor: QueueCursor) -> Option<
    (int, QueueCursor),
> {
    match next_strict(slots, cursor) {
        Some(turn) => Some(turn),
        None => next_weighted(slots, cursor),
    }
}

/// Whether a rotation stands at positions that exist.
pub open spec fn on_ring<T>(slots: Seq<SlotView<T>>, cursor: QueueCursor) -> bool {
    cursor.weighted_index < slots.len() && cursor.strict_index < slots.len()
}

/// What a set of queues holds.
#[verifier::ext_equal]
pub struct QueueSetView<T> {
    /// Queues in scheduling order.
    pub slots: Seq<SlotView<T>>,
    /// Whether every client is gone.
    pub input_closed: bool,
    /// Whether nothing is taken any more.
    pub runner_closed: bool,
}

impl<T> QueueSetView<T> {
    /// The position of a queue, if there is one.
    pub open spec fn position(self, id: QueueId) -> Option<int> {
        if exists|index: int| 0 <= index < self.slots.len() && (#[trigger] self.slots[index]).id
            == id {
            Some(
                choose|index: int| 0 <= index < self.slots.len() && (
                #[trigger] self.slots[index]).id == id,
            )
        } else {
            None
        }
    }

    /// Whether there is a queue.
    pub open spec fn has(self, id: QueueId) -> bool {
        self.position(id) is Some
    }

    /// The queue with an identifier.
    pub open spec fn slot(self, id: QueueId) -> SlotView<T> {
        self.slots[self.position(id)->0]
    }

    /// The set with one queue changed.
    pub open spec fn with_slot(self, id: QueueId, slot: SlotView<T>) -> QueueSetView<T> {
        QueueSetView { slots: self.slots.update(self.position(id)->0, slot), ..self }
    }

    /// The set with the scheduling policy of one queue changed.
    pub open spec fn with_priority(self, id: QueueId, priority: QueuePriority) -> QueueSetView<T> {
        self.with_slot(id, SlotView { priority, ..self.slot(id) })
    }

    /// No identifier occurs twice, and no queue holds more than its capacity.
    pub open spec fn consistent(self) -> bool {
        &&& self.slots.len() <= MAXIMUM_LINK_QUEUES
        &&& forall|first: int, second: int|
            0 <= first < second < self.slots.len() ==> (#[trigger] self.slots[first]).id != (
            #[trigger] self.slots[second]).id
        &&& forall|index: int|
            0 <= index < self.slots.len() ==> (#[trigger] self.slots[index]).entries.len()
                <= self.slots[index].queued <= self.slots[index].capacity
                <= MAXIMUM_QUEUE_CAPACITY
    }

    /// Why an item is not taken, if it is not.
    pub open spec fn refusal(self, id: QueueId) -> Option<QueuePushError> {
        if !self.has(id) {
            Some(QueuePushError::Unknown(id))
        } else if self.runner_closed {
            Some(QueuePushError::Closed)
        } else if self.slot(id).queued >= self.slot(id).capacity {
            Some(QueuePushError::Full)
        } else {
            None
        }
    }

    /// The set after an item was taken.
    pub open spec fn pushing(self, id: QueueId, item: T) -> QueueSetView<T> {
        let slot = self.slot(id);
        self.with_slot(
            id,
            SlotView { queued: slot.queued + 1, entries: slot.entries.push(item), ..slot },
        )
    }

    /// The set after the next item of the queue at a position left it.
    pub open spec fn popping(self, index: int) -> QueueSetView<T> {
        let slot = self.slots[index];
        QueueSetView {
            slots: self.slots.update(
                index,
                SlotView { entries: slot.entries.drop_first(), ..slot },
            ),
            ..self
        }
    }

    /// The set after an item that had left a queue came back to its front.
    pub open spec fn returning(self, id: QueueId, item: T) -> QueueSetView<T> {
        let slot = self.slot(id);
        self.with_slot(id, SlotView { entries: seq![item] + slot.entries, ..slot })
    }

    /// The set after an item that had left a queue was finished.
    pub open spec fn finishing(self, id: QueueId) -> QueueSetView<T> {
        let slot = self.slot(id);
        self.with_slot(id, SlotView { queued: (slot.queued - 1) as nat, ..slot })
    }

    /// Items that left a queue and are not finished.
    pub open spec fn in_flight(self, id: QueueId) -> int {
        self.slot(id).queued - self.slot(id).entries.len()
    }

    /// Unfinished items of the first queues.
    pub open spec fn pending(self, count: int) -> nat
        decreases count,
    {
        if count <= 0 {
            0
        } else {
            self.pending(count - 1) + self.slots[count - 1].queued
        }
    }
}

#[derive(Debug)]
struct QueueSlot<T> {
    id: QueueId,
    capacity: usize,
    priority: QueuePriority,
    queued: usize,
    entries: VecDeque<T>,
}

impl<T> QueueSlot<T> {
    spec fn as_view(self) -> SlotView<T> {
        SlotView {
            id: self.id,
            capacity: self.capacity,
            priority: self.priority,
            queued: self.queued as nat,
            entries: self.entries@,
        }
    }

    fn new(config: QueueConfig) -> (slot: Self)
        ensures
            slot.as_view() == (SlotView {
                id: config.name(),
                capacity: config.room(),
                priority: config.policy(),
                queued: 0,
                entries: Seq::<T>::empty(),
            }),
            slot.capacity <= MAXIMUM_QUEUE_CAPACITY,
    {
        QueueSlot {
            id: config.id(),
            capacity: config.capacity(),
            priority: config.priority(),
            queued: 0,
            entries: VecDeque::new(),
        }
    }

    fn snapshot(&self) -> (snapshot: QueueSnapshot)
        ensures
            snapshot.id == self.id,
            snapshot.capacity == self.capacity,
            snapshot.queued == self.queued,
            snapshot.priority == self.priority,
    {
        QueueSnapshot {
            id: self.id,
            capacity: self.capacity,
            queued: self.queued,
            priority: self.priority,
        }
    }
}

/// Independently bounded queues in scheduling order.
#[derive(Debug)]
pub struct QueueSet<T> {
    slots: Vec<QueueSlot<T>>,
    indices: BTreeMap<u16, usize>,
    input_closed: bool,
    runner_closed: bool,
}

impl<T> View for QueueSet<T> {
    type V = QueueSetView<T>;

    closed spec fn view(&self) -> QueueSetView<T> {
        QueueSetView {
            slots: Seq::new(self.slots@.len(), |index: int| self.slots@[index].as_view()),
            input_closed: self.input_closed,
            runner_closed: self.runner_closed,
        }
    }
}

/// The queue at a position is the one with its identifier.
pub proof fn lemma_position<T>(set: QueueSetView<T>, index: int)
    requires
        set.consistent(),
        0 <= index < set.slots.len(),
    ensures
        set.position(set.slots[index].id) == Some(index),
{
    let id = set.slots[index].id;
    let found = choose|found: int|
        0 <= found < set.slots.len() && (#[trigger] set.slots[found]).id == id;
    if found < index {
        assert(set.slots[found].id != set.slots[index].id);
    } else if index < found {
        assert(set.slots[index].id != set.slots[found].id);
    }
}

impl<T> QueueSet<T> {
    /// No queue holds more than its capacity, and every identifier leads to
    /// its queue.
    pub closed spec fn well_formed(&self) -> bool {
        &&& self@.consistent()
        &&& forall|value: u16| #[trigger]
            self.indices@.contains_key(value) ==> self.indices@[value] < self.slots@.len()
                && self.slots@[self.indices@[value] as int].id == QueueId(value)
        &&& forall|index: int|
            0 <= index < self.slots@.len() ==> self.indices@.contains_key(
                (#[trigger] self.slots@[index]).id.0,
            )
    }

    /// No queue holds more than its capacity, and no identifier occurs twice.
    pub proof fn lemma_consistent(&self)
        requires
            self.well_formed(),
        ensures
            self@.consistent(),
    {
    }

    /// Creates the queues of a layout.
    pub fn new(layout: &Vec<QueueConfig>) -> (set: Self)
        requires
            distinct(layout@),
            layout@.len() <= MAXIMUM_LINK_QUEUES,
        ensures
            set.well_formed(),
            set@ == (QueueSetView {
                slots: Seq::new(
                    layout@.len(),
                    |index: int|
                        SlotView {
                            id: layout@[index].name(),
                            capacity: layout@[index].room(),
                            priority: layout@[index].policy(),
                            queued: 0nat,
                            entries: Seq::<T>::empty(),
                        },
                ),
                input_closed: false,
                runner_closed: false,
            }),
    {
        let mut slots: Vec<QueueSlot<T>> = Vec::new();
        let mut indices: BTreeMap<u16, usize> = BTreeMap::new();
        let mut index: usize = 0;
        while index < layout.len()
            invariant
                index <= layout@.len(),
                distinct(layout@),
                slots@.len() == index,
                forall|at: int|
                    0 <= at < index ==> (#[trigger] slots@[at]).as_view() == (SlotView {
                        id: layout@[at].name(),
                        capacity: layout@[at].room(),
                        priority: layout@[at].policy(),
                        queued: 0nat,
                        entries: Seq::<T>::empty(),
                    }) && slots@[at].capacity <= MAXIMUM_QUEUE_CAPACITY,
                forall|value: u16| #[trigger]
                    indices@.contains_key(value) ==> indices@[value] < index
                        && slots@[indices@[value] as int].id == QueueId(value),
                forall|at: int|
                    0 <= at < index ==> indices@.contains_key((#[trigger] slots@[at]).id.0),
            decreases layout@.len() - index,
        {
            let config: QueueConfig = layout[index];
            let slot: QueueSlot<T> = QueueSlot::new(config);
            assert forall|at: int| 0 <= at < index implies (#[trigger] slots@[at]).id
                != slot.id by {
                assert(layout@[at].name() != layout@[index as int].name());
                assert(slots@[at].as_view().id == layout@[at].name());
            }
            put(&mut indices, slot.id.0, index);
            slots.push(slot);
            index += 1;
        }
        let set = QueueSet { slots, indices, input_closed: false, runner_closed: false };
        assert forall|first: int, second: int| 0 <= first < second < set@.slots.len() implies (
        #[trigger] set@.slots[first]).id != (#[trigger] set@.slots[second]).id by {
            assert(layout@[first].name() != layout@[second].name());
        }
        assert(set@.slots =~= Seq::new(
            layout@.len(),
            |index: int|
                SlotView {
                    id: layout@[index].name(),
                    capacity: layout@[index].room(),
                    priority: layout@[index].policy(),
                    queued: 0nat,
                    entries: Seq::<T>::empty(),
                },
        ));
        set
    }

    fn index_of(&self, id: QueueId) -> (index: Option<usize>)
        requires
            self.well_formed(),
        ensures
            match index {
                Some(index) => index < self.slots@.len() && self@.position(id) == Some(
                    index as int,
                ) && self.slots@[index as int].id == id,
                None => self@.position(id) is None,
            },
    {
        match find(&self.indices, id.0) {
            Some(index) => {
                proof {
                    assert(self@.slots[*index as int].id == id);
                    lemma_position(self@, *index as int);
                }
                Some(*index)
            },
            None => {
                assert(self@.position(id) is None) by {
                    if exists|index: int| 0 <= index < self@.slots.len() && (
                    #[trigger] self@.slots[index]).id == id {
                        let index = choose|index: int| 0 <= index < self@.slots.len() && (
                        #[trigger] self@.slots[index]).id == id;
                        assert(self.indices@.contains_key(self.slots@[index].id.0));
                    }
                }
                None
            },
        }
    }

    /// Reports whether there is a queue.
    pub fn contains(&self, id: QueueId) -> (found: bool)
        requires
            self.well_formed(),
        ensures
            found == self@.has(id),
    {
        self.index_of(id).is_some()
    }

    /// Returns the scheduling policy of a queue.
    pub fn priority(&self, id: QueueId) -> (result: Result<QueuePriority, QueueError>)
        requires
            self.well_formed(),
        ensures
            result == if self@.has(id) {
                Ok::<QueuePriority, QueueError>(self@.slot(id).priority)
            } else {
                Err(QueueError::Unknown(id))
            },
    {
        match self.index_of(id) {
            Some(index) => Ok(self.slots[index].priority),
            None => Err(QueueError::Unknown(id)),
        }
    }

    /// Replaces the scheduling policy of a queue. The next scheduling decision
    /// observes it.
    pub fn set_priority(&mut self, id: QueueId, priority: QueuePriority) -> (result: Result<
        (),
        QueueError,
    >)
        requires
            old(self).well_formed(),
        ensures
            final(self).well_formed(),
            if old(self)@.has(id) {
                result == Ok::<(), QueueError>(()) && final(self)@ == old(self)@.with_priority(
                    id,
                    priority,
                )
            } else {
                result == Err::<(), QueueError>(QueueError::Unknown(id))
                    && final(self)@ == old(self)@
            },
    {
        match self.index_of(id) {
            Some(index) => {
                let ghost before = *old(self);
                let slot = &mut self.slots[index];
                slot.priority = priority;
                proof {
                    self.lemma_changed_slot(before, index as int);
                }
                assert(self@ =~= before@.with_priority(id, priority));
                Ok(())
            },
            None => Err(QueueError::Unknown(id)),
        }
    }

    /// Gives a queue a starvation-free weighted quota.
    pub fn set_weight(&mut self, id: QueueId, weight: u16) -> (result: Result<(), QueueError>)
        requires
            old(self).well_formed(),
        ensures
            final(self).well_formed(),
            if weight == 0 {
                result == Err::<(), QueueError>(QueueError::ZeroWeight)
                    && final(self)@ == old(self)@
            } else if !old(self)@.has(id) {
                result == Err::<(), QueueError>(QueueError::Unknown(id))
                    && final(self)@ == old(self)@
            } else {
                &&& result == Ok::<(), QueueError>(())
                &&& exists|priority: QueuePriority| #[trigger]
                    final(self)@ == old(self)@.with_priority(id, priority)
                        && priority.weighs(weight)
            },
    {
        match QueuePriority::weighted(weight) {
            Ok(priority) => self.set_priority(id, priority),
            Err(_) => Err(QueueError::ZeroWeight),
        }
    }

    /// Returns the state of a queue.
    pub fn snapshot(&self, id: QueueId) -> (result: Result<QueueSnapshot, QueueError>)
        requires
            self.well_formed(),
        ensures
            if self@.has(id) {
                result matches Ok(snapshot) && snapshot.id == id && snapshot.capacity
                    == self@.slot(id).capacity && snapshot.queued == self@.slot(id).queued
                    && snapshot.priority == self@.slot(id).priority
            } else {
                result == Err::<QueueSnapshot, QueueError>(QueueError::Unknown(id))
            },
    {
        match self.index_of(id) {
            Some(index) => Ok(self.slots[index].snapshot()),
            None => Err(QueueError::Unknown(id)),
        }
    }

    /// Returns the state of every queue in scheduling order.
    pub fn snapshots(&self) -> (snapshots: Vec<QueueSnapshot>)
        ensures
            snapshots@.len() == self@.slots.len(),
            forall|index: int|
                0 <= index < snapshots@.len() ==> (#[trigger] snapshots@[index]).id
                    == self@.slots[index].id && snapshots@[index].capacity
                    == self@.slots[index].capacity && snapshots@[index].queued
                    == self@.slots[index].queued && snapshots@[index].priority
                    == self@.slots[index].priority,
    {
        let mut snapshots: Vec<QueueSnapshot> = Vec::new();
        let mut index: usize = 0;
        while index < self.slots.len()
            invariant
                index <= self.slots@.len(),
                snapshots@.len() == index,
                forall|at: int|
                    0 <= at < index ==> (#[trigger] snapshots@[at]).id == self@.slots[at].id
                        && snapshots@[at].capacity == self@.slots[at].capacity
                        && snapshots@[at].queued == self@.slots[at].queued
                        && snapshots@[at].priority == self@.slots[at].priority,
            decreases self.slots@.len() - index,
        {
            snapshots.push(self.slots[index].snapshot());
            index += 1;
        }
        snapshots
    }

    /// Returns the number of unfinished items of all queues.
    pub fn pending_total(&self) -> (total: usize)
        requires
            self.well_formed(),
        ensures
            total == self@.pending(self@.slots.len() as int),
    {
        let mut total: usize = 0;
        let mut index: usize = 0;
        while index < self.slots.len()
            invariant
                index <= self.slots@.len(),
                self.well_formed(),
                total == self@.pending(index as int),
                total <= index * MAXIMUM_QUEUE_CAPACITY,
            decreases self.slots@.len() - index,
        {
            assert(self@.slots[index as int].queued <= MAXIMUM_QUEUE_CAPACITY);
            total = total + self.slots[index].queued;
            index += 1;
        }
        total
    }

    /// Tells why an item is not taken, if it is not.
    pub fn push_refusal(&self, id: QueueId) -> (refusal: Option<QueuePushError>)
        requires
            self.well_formed(),
        ensures
            refusal == self@.refusal(id),
    {
        match self.index_of(id) {
            None => Some(QueuePushError::Unknown(id)),
            Some(index) => if self.runner_closed {
                Some(QueuePushError::Closed)
            } else if self.slots[index].queued >= self.slots[index].capacity {
                Some(QueuePushError::Full)
            } else {
                None
            },
        }
    }

    /// Takes an item without waiting for room.
    pub fn try_push(&mut self, id: QueueId, item: T) -> (result: Result<(), QueuePushError>)
        requires
            old(self).well_formed(),
        ensures
            final(self).well_formed(),
            match old(self)@.refusal(id) {
                Some(error) => result == Err::<(), QueuePushError>(error)
                    && final(self)@ == old(self)@,
                None => result == Ok::<(), QueuePushError>(())
                    && final(self)@ == old(self)@.pushing(id, item),
            },
    {
        if let Some(error) = self.push_refusal(id) {
            return Err(error);
        }
        if let Some(index) = self.index_of(id) {
            let ghost before = *old(self);
            assert(before@.slots[index as int].capacity <= MAXIMUM_QUEUE_CAPACITY);
            let slot = &mut self.slots[index];
            slot.queued = slot.queued + 1;
            slot.entries.push_back(item);
            proof {
                assert(before@.slots[index as int].entries.len() <= before@.slots[index as int].queued);
                self.lemma_changed_slot(before, index as int);
            }
            assert(self@ =~= before@.pushing(id, item));
        }
        Ok(())
    }

    fn pop_at(&mut self, index: usize) -> (item: Option<T>)
        requires
            old(self).well_formed(),
            index < old(self)@.slots.len(),
        ensures
            final(self).well_formed(),
            match item {
                Some(item) => old(self)@.slots[index as int].entries.len() > 0
                    && item == old(self)@.slots[index as int].entries[0]
                    && final(self)@ == old(self)@.popping(
                    index as int,
                ),
                None => old(self)@.slots[index as int].entries.len() == 0
                    && final(self)@ == old(self)@,
            },
    {
        let ghost before = *old(self);
        let slot = &mut self.slots[index];
        let item = slot.entries.pop_front();
        proof {
            assert(before@.slots[index as int].entries.len() <= before@.slots[index as int].queued
                <= before@.slots[index as int].capacity);
            self.lemma_changed_slot(before, index as int);
            if item is Some {
                assert(self@ =~= before@.popping(index as int));
            } else {
                assert(self@ =~= before@);
            }
        }
        item
    }

    fn best_rank(&self) -> (rank: Option<u16>)
        ensures
            rank == top_rank(self@.slots, self@.slots.len() as int),
    {
        let mut rank: Option<u16> = None;
        let mut index: usize = 0;
        while index < self.slots.len()
            invariant
                index <= self.slots@.len(),
                rank == top_rank(self@.slots, index as int),
            decreases self.slots@.len() - index,
        {
            if let QueuePriority::Strict(candidate) = self.slots[index].priority {
                if self.slots[index].queued > 0 {
                    match rank {
                        None => {
                            rank = Some(candidate);
                        },
                        Some(best) => if best < candidate {
                            rank = Some(candidate);
                        },
                    }
                }
            }
            index += 1;
        }
        rank
    }

    fn strict_index(&self, position: usize, rank: u16) -> (index: Option<usize>)
        requires
            position < self@.slots.len(),
            self@.slots.len() <= MAXIMUM_LINK_QUEUES,
        ensures
            match index {
                Some(index) => index < self@.slots.len() && strict_turn(
                    self@.slots,
                    position as int,
                    rank,
                    1,
                ) == Some(index as int) && self@.slots[index as int].ready_strict(rank),
                None => strict_turn(self@.slots, position as int, rank, 1) is None,
            },
    {
        let size: usize = self.slots.len();
        let mut steps: usize = 1;
        while steps <= size
            invariant
                1 <= steps <= size + 1,
                size == self@.slots.len(),
                size <= MAXIMUM_LINK_QUEUES,
                position < size,
                strict_turn(self@.slots, position as int, rank, 1) == strict_turn(
                    self@.slots,
                    position as int,
                    rank,
                    steps as int,
                ),
            decreases size + 1 - steps,
        {
            let index: usize = if position + steps < size {
                position + steps
            } else {
                position + steps - size
            };
            let ready = match self.slots[index].priority {
                QueuePriority::Strict(found) => found == rank && self.slots[index].entries.len()
                    > 0,
                QueuePriority::Weighted(_) => false,
            };
            assert(ready == self@.slots[index as int].ready_strict(rank));
            if ready {
                return Some(index);
            }
            steps += 1;
        }
        None
    }

    fn is_ready_weighted(&self, index: usize) -> (ready: bool)
        requires
            index < self@.slots.len(),
        ensures
            ready == self@.slots[index as int].ready_weighted(),
    {
        match self.slots[index].priority {
            QueuePriority::Weighted(_) => self.slots[index].entries.len() > 0,
            QueuePriority::Strict(_) => false,
        }
    }

    fn weighted_index(&self, position: usize) -> (index: Option<usize>)
        requires
            position < self@.slots.len(),
            self@.slots.len() <= MAXIMUM_LINK_QUEUES,
        ensures
            match index {
                Some(index) => index < self@.slots.len() && weighted_turn(
                    self@.slots,
                    position as int,
                    1,
                ) == Some(index as int) && self@.slots[index as int].ready_weighted(),
                None => weighted_turn(self@.slots, position as int, 1) is None,
            },
    {
        let size: usize = self.slots.len();
        let mut steps: usize = 1;
        while steps < size
            invariant
                1 <= steps,
                size == self@.slots.len(),
                size <= MAXIMUM_LINK_QUEUES,
                position < size,
                weighted_turn(self@.slots, position as int, 1) == weighted_turn(
                    self@.slots,
                    position as int,
                    steps as int,
                ),
            decreases size - steps,
        {
            let index: usize = if position + steps < size {
                position + steps
            } else {
                position + steps - size
            };
            if self.is_ready_weighted(index) {
                return Some(index);
            }
            steps += 1;
        }
        None
    }

    fn turn(&self, cursor: QueueCursor) -> (turn: Option<(usize, QueueCursor)>)
        requires
            self.well_formed(),
            on_ring(self@.slots, cursor) || self@.slots.len() == 0,
        ensures
            match turn {
                Some((index, after)) => index < self@.slots.len() && next_turn(
                    self@.slots,
                    cursor,
                ) == Some((index as int, after)) && self@.slots[index as int].entries.len() > 0
                    && on_ring(self@.slots, after),
                None => next_turn(self@.slots, cursor) is None,
            },
    {
        if self.slots.len() == 0 {
            assert(top_rank(self@.slots, 0) is None);
            return None;
        }
        if let Some(rank) = self.best_rank() {
            if let Some(index) = self.strict_index(cursor.strict_index, rank) {
                return Some((index, QueueCursor { strict_index: index, ..cursor }));
            }
        }
        let current: usize = cursor.weighted_index;
        let quota: u16 = match self.slots[current].priority.weight() {
            Some(weight) => weight,
            None => 0,
        };
        assert(quota as nat == self@.slots[current as int].quota());
        if self.is_ready_weighted(current) && cursor.weighted_used < quota {
            let used: u16 = cursor.weighted_used + 1;
            return Some((current, QueueCursor { weighted_used: used, ..cursor }));
        }
        if let Some(index) = self.weighted_index(current) {
            return Some(
                (index, QueueCursor { weighted_index: index, weighted_used: 1, ..cursor }),
            );
        }
        if self.is_ready_weighted(current) {
            return Some((current, QueueCursor { weighted_used: quota, ..cursor }));
        }
        None
    }

    /// Takes out the item that is served next.
    pub fn pop_scheduled(&mut self, cursor: &mut QueueCursor) -> (item: Option<(QueueId, T)>)
        requires
            old(self).well_formed(),
            on_ring(old(self)@.slots, *old(cursor)) || old(self)@.slots.len() == 0,
        ensures
            final(self).well_formed(),
            on_ring(final(self)@.slots, *final(cursor)) || final(self)@.slots.len() == 0,
            match next_turn(old(self)@.slots, *old(cursor)) {
                Some((index, after)) => {
                    let slot = old(self)@.slots[index];
                    &&& 0 <= index < old(self)@.slots.len()
                    &&& slot.entries.len() > 0
                    &&& item == Some((slot.id, slot.entries[0]))
                    &&& final(self)@ == old(self)@.popping(index)
                    &&& *final(cursor) == after
                },
                None => item is None && final(self)@ == old(self)@
                    && *final(cursor) == *old(cursor),
            },
    {
        match self.turn(*cursor) {
            None => None,
            Some((index, after)) => {
                let id: QueueId = self.slots[index].id;
                match self.pop_at(index) {
                    Some(item) => {
                        *cursor = after;
                        Some((id, item))
                    },
                    None => None,
                }
            },
        }
    }

    /// Takes out the next item of one queue.
    pub fn pop_from(&mut self, id: QueueId) -> (item: Option<T>)
        requires
            old(self).well_formed(),
        ensures
            final(self).well_formed(),
            if old(self)@.has(id) && old(self)@.slot(id).entries.len() > 0 {
                item == Some(old(self)@.slot(id).entries[0]) && final(self)@ == old(self)@.popping(
                    old(self)@.position(id)->0,
                )
            } else {
                item is None && final(self)@ == old(self)@
            },
    {
        match self.index_of(id) {
            Some(index) => self.pop_at(index),
            None => None,
        }
    }

    /// Puts an item that had left a queue back to its front.
    pub fn push_front(&mut self, id: QueueId, item: T)
        requires
            old(self).well_formed(),
            old(self)@.has(id) ==> old(self)@.in_flight(id) > 0,
        ensures
            final(self).well_formed(),
            final(self)@ == if old(self)@.has(id) {
                old(self)@.returning(id, item)
            } else {
                old(self)@
            },
    {
        if let Some(index) = self.index_of(id) {
            let ghost before = *old(self);
            let slot = &mut self.slots[index];
            slot.entries.push_front(item);
            proof {
                assert(before@.slots[index as int].queued <= before@.slots[index as int].capacity);
                self.lemma_changed_slot(before, index as int);
            }
            assert(self@ =~= before@.returning(id, item));
        }
    }

    /// Gives back the room of an item that had left a queue.
    pub fn finish_entry(&mut self, id: QueueId)
        requires
            old(self).well_formed(),
            old(self)@.has(id) ==> old(self)@.in_flight(id) > 0,
        ensures
            final(self).well_formed(),
            final(self)@ == if old(self)@.has(id) {
                old(self)@.finishing(id)
            } else {
                old(self)@
            },
    {
        if let Some(index) = self.index_of(id) {
            let ghost before = *old(self);
            let slot = &mut self.slots[index];
            slot.queued = slot.queued - 1;
            proof {
                assert(before@.slots[index as int].queued <= before@.slots[index as int].capacity);
                self.lemma_changed_slot(before, index as int);
            }
            assert(self@ =~= before@.finishing(id));
        }
    }

    /// Reports whether every client is gone.
    pub fn input_closed(&self) -> (closed: bool)
        ensures
            closed == self@.input_closed,
    {
        self.input_closed
    }

    /// Takes over that every client is gone.
    pub fn close_input(&mut self)
        requires
            old(self).well_formed(),
        ensures
            final(self).well_formed(),
            final(self)@ == (QueueSetView { input_closed: true, ..old(self)@ }),
    {
        self.input_closed = true;
    }

    /// Ends the taking of items.
    pub fn close_runner(&mut self)
        requires
            old(self).well_formed(),
        ensures
            final(self).well_formed(),
            final(self)@ == (QueueSetView { runner_closed: true, ..old(self)@ }),
    {
        self.runner_closed = true;
    }

    proof fn lemma_changed_slot(&self, before: Self, index: int)
        requires
            before.well_formed(),
            0 <= index < before.slots@.len(),
            self.indices == before.indices,
            self.slots@ == before.slots@.update(index, self.slots@[index]),
            self.slots@[index].id == before.slots@[index].id,
            self.slots@[index].capacity == before.slots@[index].capacity,
            self.slots@[index].entries@.len() <= self.slots@[index].queued
                <= self.slots@[index].capacity,
        ensures
            self.well_formed(),
    {
        assert forall|at: int| 0 <= at < self.slots@.len() implies (#[trigger] self.slots@[at]).id
            == before.slots@[at].id by {}
        assert forall|first: int, second: int| 0 <= first < second < self@.slots.len() implies (
        #[trigger] self@.slots[first]).id != (#[trigger] self@.slots[second]).id by {
            assert(before@.slots[first].id != before@.slots[second].id);
        }
        assert forall|at: int| 0 <= at < self@.slots.len() implies (
        #[trigger] self@.slots[at]).entries.len() <= self@.slots[at].queued
            <= self@.slots[at].capacity <= MAXIMUM_QUEUE_CAPACITY by {
            assert(before@.slots[at].entries.len() <= before@.slots[at].queued
                <= before@.slots[at].capacity <= MAXIMUM_QUEUE_CAPACITY);
        }
        assert forall|at: int| 0 <= at < self.slots@.len() implies self.indices@.contains_key(
            (#[trigger] self.slots@[at]).id.0,
        ) by {
            assert(before.indices@.contains_key(before.slots@[at].id.0));
        }
    }
}

/// Whether every queue counts exactly the items that wait in it.
pub open spec fn settled<T>(slots: Seq<SlotView<T>>) -> bool {
    forall|index: int|
        0 <= index < slots.len() ==> (#[trigger] slots[index]).queued == slots[index].entries.len()
}

proof fn lemma_top_rank<T>(slots: Seq<SlotView<T>>, count: int, index: int)
    requires
        0 <= index < count <= slots.len(),
        slots[index].queued > 0,
        slots[index].priority is Strict,
    ensures
        top_rank(slots, count) is Some,
        top_rank(slots, count)->0 >= slots[index].priority->Strict_0,
    decreases count,
{
    if index < count - 1 {
        lemma_top_rank(slots, count - 1, index);
    }
}

proof fn lemma_top_rank_is_held<T>(slots: Seq<SlotView<T>>, count: int) -> (index: int)
    requires
        0 <= count <= slots.len(),
        top_rank(slots, count) is Some,
    ensures
        0 <= index < count,
        slots[index].priority == QueuePriority::Strict(top_rank(slots, count)->0),
        slots[index].queued > 0,
    decreases count,
{
    if top_rank(slots, count - 1) == top_rank(slots, count) {
        lemma_top_rank_is_held(slots, count - 1)
    } else {
        count - 1
    }
}

proof fn lemma_strict_turn_finds<T>(
    slots: Seq<SlotView<T>>,
    position: int,
    rank: u16,
    steps: int,
    wanted: int,
)
    requires
        0 <= position < slots.len(),
        1 <= steps <= wanted <= slots.len(),
        slots[ahead(position, wanted, slots.len() as int)].ready_strict(rank),
    ensures
        strict_turn(slots, position, rank, steps) is Some,
        ({
            let index = strict_turn(slots, position, rank, steps)->0;
            &&& 0 <= index < slots.len()
            &&& slots[index].ready_strict(rank)
            &&& wanted < slots.len() ==> index != position
        }),
    decreases wanted - steps,
{
    if !slots[ahead(position, steps, slots.len() as int)].ready_strict(rank) {
        lemma_strict_turn_finds(slots, position, rank, steps + 1, wanted);
    }
}

/// While an item waits in a strict queue, a strict queue of the greatest such
/// rank is served, and no weighted one.
pub proof fn lemma_strict_goes_first<T>(
    slots: Seq<SlotView<T>>,
    cursor: QueueCursor,
    index: int,
)
    requires
        on_ring(slots, cursor),
        settled(slots),
        0 <= index < slots.len(),
        slots[index].priority is Strict,
        slots[index].entries.len() > 0,
    ensures
        next_turn(slots, cursor) matches Some((served, _)) && 0 <= served < slots.len()
            && slots[served].entries.len() > 0 && (slots[served].priority matches
            QueuePriority::Strict(rank) && rank >= slots[index].priority->Strict_0),
{
    lemma_top_rank(slots, slots.len() as int, index);
    let rank = top_rank(slots, slots.len() as int)->0;
    let holder = lemma_top_rank_is_held(slots, slots.len() as int);
    let position = cursor.strict_index as int;
    let steps = if holder > position {
        holder - position
    } else {
        holder - position + slots.len()
    };
    assert(ahead(position, steps, slots.len() as int) == holder);
    lemma_strict_turn_finds(slots, position, rank, 1, steps);
}

/// Strict queues of one rank take turns: the one that was served last is not
/// served again while another of the greatest rank has an item waiting.
pub proof fn lemma_equal_ranks_take_turns<T>(
    slots: Seq<SlotView<T>>,
    cursor: QueueCursor,
    index: int,
)
    requires
        on_ring(slots, cursor),
        settled(slots),
        0 <= index < slots.len(),
        index != cursor.strict_index,
        top_rank(slots, slots.len() as int) matches Some(rank) && slots[index].ready_strict(rank),
    ensures
        next_turn(slots, cursor) matches Some((served, _)) && served != cursor.strict_index
            && slots[served].priority == slots[index].priority,
{
    let rank = top_rank(slots, slots.len() as int)->0;
    let position = cursor.strict_index as int;
    let steps = if index > position {
        index - position
    } else {
        index - position + slots.len()
    };
    assert(ahead(position, steps, slots.len() as int) == index);
    lemma_strict_turn_finds(slots, position, rank, 1, steps);
}

/// Steps ahead from one position of a ring to another.
pub open spec fn steps_to(position: int, wanted: int, size: int) -> int {
    if wanted > position {
        wanted - position
    } else {
        wanted - position + size
    }
}

/// Combined quota of the queues from some steps ahead of a position up to a
/// number of steps, which is left out.
pub open spec fn quota_ahead<T>(
    slots: Seq<SlotView<T>>,
    position: int,
    steps: int,
    end: int,
) -> nat
    decreases end - steps,
{
    if steps >= end {
        0
    } else {
        slots[ahead(position, steps, slots.len() as int)].quota() + quota_ahead(
            slots,
            position,
            steps + 1,
            end,
        )
    }
}

/// How many items other weighted queues can send before a queue is served:
/// what is left of the current quota, and the quotas of those in between.
pub open spec fn weighted_wait<T>(
    slots: Seq<SlotView<T>>,
    cursor: QueueCursor,
    wanted: int,
) -> nat {
    let current = cursor.weighted_index as int;
    let quota = slots[current].quota();
    if current == wanted && cursor.weighted_used < quota {
        0
    } else {
        (if current != wanted && cursor.weighted_used < quota {
            (quota - cursor.weighted_used) as nat
        } else {
            0
        }) + quota_ahead(
            slots,
            current,
            1,
            steps_to(current, wanted, slots.len() as int),
        )
    }
}

proof fn lemma_quota_moves<T>(
    slots: Seq<SlotView<T>>,
    position: int,
    moved: int,
    steps: int,
    end: int,
)
    requires
        0 <= position < slots.len(),
        1 <= moved < slots.len(),
        0 <= steps,
        moved + end <= slots.len(),
    ensures
        quota_ahead(slots, ahead(position, moved, slots.len() as int), steps, end) == quota_ahead(
            slots,
            position,
            moved + steps,
            moved + end,
        ),
    decreases end - steps,
{
    if steps < end {
        lemma_quota_moves(slots, position, moved, steps + 1, end);
        let size = slots.len() as int;
        assert(ahead(ahead(position, moved, size), steps, size) == ahead(
            position,
            moved + steps,
            size,
        ));
    }
}

proof fn lemma_quota_from<T>(
    slots: Seq<SlotView<T>>,
    position: int,
    from: int,
    to: int,
    end: int,
)
    requires
        from <= to <= end,
    ensures
        quota_ahead(slots, position, from, end) >= quota_ahead(slots, position, to, end),
    decreases to - from,
{
    if from < to {
        lemma_quota_from(slots, position, from + 1, to, end);
    }
}

proof fn lemma_weighted_turn_finds<T>(
    slots: Seq<SlotView<T>>,
    position: int,
    steps: int,
    wanted: int,
) -> (found: int)
    requires
        0 <= position < slots.len(),
        1 <= steps <= wanted < slots.len(),
        slots[ahead(position, wanted, slots.len() as int)].ready_weighted(),
    ensures
        steps <= found <= wanted,
        weighted_turn(slots, position, steps) == Some(ahead(position, found, slots.len() as int)),
        slots[ahead(position, found, slots.len() as int)].ready_weighted(),
    decreases wanted - steps,
{
    if slots[ahead(position, steps, slots.len() as int)].ready_weighted() {
        steps
    } else {
        lemma_weighted_turn_finds(slots, position, steps + 1, wanted)
    }
}

/// No weighted queue starves. While an item waits in a weighted queue, every
/// weighted turn either serves that queue or brings its turn closer: what the
/// others can still send before it shrinks, whatever they hold.
pub proof fn lemma_weighted_queues_do_not_starve<T>(
    slots: Seq<SlotView<T>>,
    cursor: QueueCursor,
    wanted: int,
)
    requires
        on_ring(slots, cursor),
        0 <= wanted < slots.len(),
        slots.len() <= MAXIMUM_LINK_QUEUES,
        slots[wanted].ready_weighted(),
        forall|index: int|
            0 <= index < slots.len() && (#[trigger] slots[index]).priority is Weighted
                ==> slots[index].quota() > 0,
    ensures
        next_weighted(slots, cursor) matches Some((served, after)) && (served == wanted
            || weighted_wait(slots, after, wanted) < weighted_wait(slots, cursor, wanted)),
{
    let size = slots.len() as int;
    let current = cursor.weighted_index as int;
    let quota = slots[current].quota();
    if slots[current].ready_weighted() && cursor.weighted_used < quota {
        // The current queue goes on.
    } else if current == wanted {
        // Another ready queue comes first, and its quota lies on the way.
        let turn = weighted_turn(slots, current, 1);
        if let Some(index) = turn {
            let found = lemma_turn_is_ahead(slots, current, 1);
            lemma_wait_after_move(slots, cursor, wanted, found);
        }
    } else {
        let steps = steps_to(current, wanted, size);
        assert(ahead(current, steps, size) == wanted);
        let found = lemma_weighted_turn_finds(slots, current, 1, steps);
        if ahead(current, found, size) != wanted {
            lemma_wait_after_move(slots, cursor, wanted, found);
        }
    }
}

proof fn lemma_turn_is_ahead<T>(slots: Seq<SlotView<T>>, position: int, steps: int) -> (found: int)
    requires
        0 <= position < slots.len(),
        1 <= steps,
        weighted_turn(slots, position, steps) is Some,
    ensures
        steps <= found < slots.len(),
        weighted_turn(slots, position, steps) == Some(ahead(position, found, slots.len() as int)),
        slots[ahead(position, found, slots.len() as int)].ready_weighted(),
    decreases slots.len() - steps,
{
    if slots[ahead(position, steps, slots.len() as int)].ready_weighted() {
        steps
    } else {
        lemma_turn_is_ahead(slots, position, steps + 1)
    }
}

proof fn lemma_wait_after_move<T>(
    slots: Seq<SlotView<T>>,
    cursor: QueueCursor,
    wanted: int,
    found: int,
)
    requires
        on_ring(slots, cursor),
        0 <= wanted < slots.len(),
        1 <= found < steps_to(cursor.weighted_index as int, wanted, slots.len() as int),
        slots[ahead(cursor.weighted_index as int, found, slots.len() as int)].quota() > 0,
        cursor.weighted_index != wanted || cursor.weighted_used >= slots[wanted].quota(),
        slots.len() <= MAXIMUM_LINK_QUEUES,
    ensures
        weighted_wait(
            slots,
            QueueCursor {
                weighted_index: ahead(
                    cursor.weighted_index as int,
                    found,
                    slots.len() as int,
                ) as usize,
                weighted_used: 1,
                ..cursor
            },
            wanted,
        ) < weighted_wait(slots, cursor, wanted),
{
    let size = slots.len() as int;
    let current = cursor.weighted_index as int;
    let steps = steps_to(current, wanted, size);
    let moved = ahead(current, found, size);
    assert(moved != wanted);
    assert(steps_to(moved, wanted, size) == steps - found);
    lemma_quota_moves(slots, current, found, 1, steps - found);
    lemma_quota_from(slots, current, 1, found, steps);
    assert(quota_ahead(slots, current, found, steps) == slots[moved].quota() + quota_ahead(
        slots,
        current,
        found + 1,
        steps,
    ));
}

/// A queue never takes more than its capacity, and an item that it does not
/// take leaves it as it was.
pub proof fn lemma_full_queue_refuses<T>(set: QueueSetView<T>, id: QueueId, item: T)
    requires
        set.consistent(),
        set.has(id),
    ensures
        set.slot(id).queued == set.slot(id).capacity ==> set.refusal(id) is Some,
        set.refusal(id) is None ==> set.pushing(id, item).slot(id).queued <= set.pushing(
            id,
            item,
        ).slot(id).capacity,
{
    let index = set.position(id)->0;
    if set.refusal(id) is None {
        let after = set.pushing(id, item);
        assert(after.slots[index].id == id);
        assert forall|at: int| 0 <= at < after.slots.len() && (#[trigger] after.slots[at]).id
            == id implies at == index by {
            if at != index {
                assert(after.slots[at] == set.slots[at]);
                if at < index {
                    assert(set.slots[at].id != set.slots[index].id);
                } else {
                    assert(set.slots[index].id != set.slots[at].id);
                }
            }
        }
        assert(after.position(id) == Some(index));
    }
}

/// What an accepted request does to its queue: it stands behind the others of
/// that queue, one place is taken, and no other queue changes.
pub proof fn lemma_push_appends<T>(set: QueueSetView<T>, at: int, item: T, other: int)
    requires
        set.consistent(),
        0 <= at < set.slots.len(),
        0 <= other < set.slots.len(),
        other != at,
    ensures
        ({
            let id = set.slots[at].id;
            let after = set.pushing(id, item);
            &&& after.slots.len() == set.slots.len()
            &&& after.slots[other] == set.slots[other]
            &&& after.slots[at].id == id
            &&& after.slots[at].entries.len() == set.slots[at].entries.len() + 1
            &&& after.slots[at].entries.last() == item
            &&& forall|i: int|
                0 <= i < set.slots[at].entries.len() ==> after.slots[at].entries[i]
                    == #[trigger] set.slots[at].entries[i]
            &&& after.slots[at].queued == set.slots[at].queued + 1
            &&& after.slots[at].capacity == set.slots[at].capacity
            &&& after.slots[at].priority == set.slots[at].priority
            &&& after.input_closed == set.input_closed
            &&& after.runner_closed == set.runner_closed
        }),
{
    lemma_position(set, at);
}

/// Taking a request from a queue takes the oldest and keeps its place; putting
/// it back undoes this, and finishing it gives up the place. No other queue
/// changes.
pub proof fn lemma_taken_request_is_the_oldest<T>(set: QueueSetView<T>, at: int, other: int)
    requires
        set.consistent(),
        0 <= at < set.slots.len(),
        0 <= other < set.slots.len(),
        other != at,
        set.slots[at].entries.len() > 0,
    ensures
        ({
            let id = set.slots[at].id;
            let oldest = set.slots[at].entries[0];
            let after = set.popping(at);
            &&& after.slots[at].entries == set.slots[at].entries.subrange(
                1,
                set.slots[at].entries.len() as int,
            )
            &&& after.slots[at].queued == set.slots[at].queued
            &&& after.slots[other] == set.slots[other]
            &&& after.returning(id, oldest) == set
            &&& after.finishing(id).slots[at].queued == set.slots[at].queued - 1
            &&& after.finishing(id).slots[at].entries == after.slots[at].entries
            &&& after.finishing(id).slots[other] == set.slots[other]
        }),
{
    let id = set.slots[at].id;
    let after = set.popping(at);
    lemma_position(set, at);
    assert(after.consistent());
    lemma_position(after, at);
    let entries = set.slots[at].entries;
    assert(seq![entries[0]] + entries.drop_first() =~= entries);
    assert(after.returning(id, entries[0]).slots =~= set.slots);
}

/// A request is taken up exactly when its queue exists, the runner is there
/// and the queue has a place left.
pub proof fn lemma_push_is_accepted<T>(set: QueueSetView<T>, at: int, id: QueueId)
    requires
        set.consistent(),
        0 <= at < set.slots.len(),
    ensures
        set.refusal(set.slots[at].id) is None <==> !set.runner_closed && set.slots[at].queued
            < set.slots[at].capacity,
        set.runner_closed ==> set.refusal(set.slots[at].id) == Some(QueuePushError::Closed),
        !set.runner_closed && set.slots[at].queued == set.slots[at].capacity ==> set.refusal(
            set.slots[at].id,
        ) == Some(QueuePushError::Full),
        (forall|index: int|
            0 <= index < set.slots.len() ==> (#[trigger] set.slots[index]).id != id) <==> set.refusal(
            id,
        ) == Some(QueuePushError::Unknown(id)),
{
    lemma_position(set, at);
}

/// A weighted queue that has its turn keeps it until it has used its weight;
/// then the turn passes on, if another weighted queue has work, and to the
/// nearest such queue behind it in the order of the ring.
pub proof fn lemma_weight_is_used_up<T>(slots: Seq<SlotView<T>>, cursor: QueueCursor)
    requires
        on_ring(slots, cursor),
        slots.len() <= MAXIMUM_LINK_QUEUES,
    ensures
        ({
            let at = cursor.weighted_index as int;
            let ready = slots[at].priority is Weighted && slots[at].entries.len() > 0;
            &&& (ready && cursor.weighted_used < slots[at].quota() ==> (next_weighted(
                slots,
                cursor,
            ) matches Some((served, after)) && served == at && after.weighted_index == at
                && after.weighted_used == cursor.weighted_used + 1 && after.strict_index
                == cursor.strict_index))
            &&& (!(ready && cursor.weighted_used < slots[at].quota()) ==> match next_weighted(
                slots,
                cursor,
            ) {
                Some((served, after)) => 0 <= served < slots.len()
                    && slots[served].priority is Weighted && slots[served].entries.len() > 0
                    && after.weighted_index == served && (served != at ==> after.weighted_used == 1)
                    && forall|steps: int|
                    0 < steps < steps_to(at, served, slots.len() as int) ==> !(
                    #[trigger] slots[ahead(at, steps, slots.len() as int)]).ready_weighted(),
                None => forall|index: int|
                    0 <= index < slots.len() ==> !((#[trigger] slots[index]).priority is Weighted
                        && slots[index].entries.len() > 0),
            })
        }),
{
    let at = cursor.weighted_index as int;
    lemma_weighted_turn_is_nearest(slots, at, 1);
    if next_weighted(slots, cursor) is None {
        assert forall|index: int| 0 <= index < slots.len() implies !((
        #[trigger] slots[index]).priority is Weighted && slots[index].entries.len() > 0) by {
            if index != at {
                let steps = steps_to(at, index, slots.len() as int);
                assert(ahead(at, steps, slots.len() as int) == index);
                assert(!slots[ahead(at, steps, slots.len() as int)].ready_weighted());
            }
        }
    }
}

proof fn lemma_weighted_turn_is_nearest<T>(slots: Seq<SlotView<T>>, position: int, steps: int)
    requires
        0 <= position < slots.len(),
        1 <= steps,
    ensures
        match weighted_turn(slots, position, steps) {
            Some(served) => 0 <= served < slots.len() && served != position
                && slots[served].ready_weighted() && steps <= steps_to(
                position,
                served,
                slots.len() as int,
            ) < slots.len() && forall|between: int|
                steps <= between < steps_to(position, served, slots.len() as int) ==> !(
                #[trigger] slots[ahead(position, between, slots.len() as int)]).ready_weighted(),
            None => forall|between: int|
                steps <= between < slots.len() ==> !(#[trigger] slots[ahead(
                    position,
                    between,
                    slots.len() as int,
                )]).ready_weighted(),
        },
    decreases slots.len() - steps,
{
    if steps < slots.len() && !slots[ahead(
        position,
        steps,
        slots.len() as int,
    )].ready_weighted() {
        lemma_weighted_turn_is_nearest(slots, position, steps + 1);
    }
}

/// What is served next holds work. While a strict queue of the highest rank
/// among those with requests has work, a strict queue of that rank is served;
/// the turn among weighted queues stays where it was.
pub proof fn lemma_served_queue_has_work<T>(slots: Seq<SlotView<T>>, cursor: QueueCursor)
    requires
        on_ring(slots, cursor),
        slots.len() <= MAXIMUM_LINK_QUEUES,
    ensures
        next_turn(slots, cursor) matches Some((served, after)) ==> 0 <= served < slots.len()
            && slots[served].entries.len() > 0 && (slots[served].priority is Strict
            ==> after.strict_index == served && after.weighted_index == cursor.weighted_index
            && after.weighted_used == cursor.weighted_used && forall|index: int|
            0 <= index < slots.len() && (#[trigger] slots[index]).queued > 0
                && slots[index].priority is Strict ==> slots[index].priority->Strict_0
                <= slots[served].priority->Strict_0) && (slots[served].priority is Weighted
            ==> after.strict_index == cursor.strict_index),
{
    lemma_weight_is_used_up(slots, cursor);
    if let Some(rank) = top_rank(slots, slots.len() as int) {
        lemma_strict_turn_serves(slots, cursor.strict_index as int, rank, 1);
        assert forall|index: int|
            0 <= index < slots.len() && (#[trigger] slots[index]).queued > 0
                && slots[index].priority is Strict implies slots[index].priority->Strict_0
            <= rank by {
            lemma_top_rank(slots, slots.len() as int, index);
        }
    }
}

proof fn lemma_strict_turn_serves<T>(
    slots: Seq<SlotView<T>>,
    position: int,
    rank: u16,
    steps: int,
)
    requires
        0 <= position < slots.len(),
        1 <= steps,
    ensures
        strict_turn(slots, position, rank, steps) matches Some(served) ==> 0 <= served
            < slots.len() && slots[served].ready_strict(rank),
    decreases slots.len() + 1 - steps,
{
    if steps <= slots.len() {
        lemma_strict_turn_serves(slots, position, rank, steps + 1);
    }
}

proof fn lemma_reserved_grows(layout: Seq<QueueConfig>, from: int, to: int)
    requires
        0 <= from <= to <= layout.len(),
    ensures
        reserved(layout, from) <= reserved(layout, to),
    decreases to - from,
{
    if from < to {
        lemma_reserved_grows(layout, from, to - 1);
    }
}

proof fn lemma_queues_are_valid(layout: Seq<QueueConfig>, from: int)
    requires
        0 <= from <= layout.len(),
        distinct(layout),
        reserved(layout, layout.len() as int) <= MAXIMUM_TOTAL_QUEUE_CAPACITY,
    ensures
        queues_violation(layout, from) is None,
    decreases layout.len() - from,
{
    if from < layout.len() {
        lemma_reserved_grows(layout, from + 1, layout.len() as int);
        lemma_queues_are_valid(layout, from + 1);
    }
}

proof fn lemma_valid_queues_fit(layout: Seq<QueueConfig>, from: int)
    requires
        0 <= from < layout.len(),
        queues_violation(layout, from) is None,
    ensures
        reserved(layout, layout.len() as int) <= MAXIMUM_TOTAL_QUEUE_CAPACITY,
    decreases layout.len() - from,
{
    if from + 1 < layout.len() {
        lemma_valid_queues_fit(layout, from + 1);
    }
}

/// A layout is accepted exactly when it has at least one queue and no more
/// than allowed, no two queues share a name, the places of all together are
/// within the limit, and one of them is the default.
pub proof fn lemma_valid_layout(layout: Seq<QueueConfig>, default: QueueId)
    ensures
        layout_violation(layout, default) is None <==> 1 <= layout.len() <= MAXIMUM_LINK_QUEUES
            && (forall|first: int, second: int|
            0 <= first < second < layout.len() ==> (#[trigger] layout[first]).name() != (
            #[trigger] layout[second]).name()) && reserved(layout, layout.len() as int)
            <= MAXIMUM_TOTAL_QUEUE_CAPACITY && exists|index: int|
            0 <= index < layout.len() && (#[trigger] layout[index]).name() == default,
        forall|count: int|
            0 <= count < layout.len() ==> #[trigger] reserved(layout, count + 1) == reserved(
                layout,
                count,
            ) + layout[count].room(),
{
    if layout_violation(layout, default) is None {
        lemma_valid_layout_is_distinct(layout, default);
        lemma_valid_queues_fit(layout, 0);
    }
    if distinct(layout) && reserved(layout, layout.len() as int) <= MAXIMUM_TOTAL_QUEUE_CAPACITY {
        lemma_queues_are_valid(layout, 0);
    }
}

} // verus!
