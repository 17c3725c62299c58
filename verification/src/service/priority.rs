//! Two queues for service and ordinary requests of one link.

use vstd::prelude::*;

use crate::service::queue_set::{
    QueueConfig, QueueConfigError, QueueId, QueuePriority, MAXIMUM_QUEUE_CAPACITY,
};

verus! {

/// Whom a request serves.
#[derive(Debug, Clone, Copy, PartialEq, Eq, Structural)]
pub enum Priority {
    /// Identification, discovery and recovery.
    Service,
    /// Everything else.
    Normal,
}

impl Priority {
    /// The queue of the requests on a link that tells them apart.
    pub open spec fn lane(self) -> QueueId {
        match self {
            Priority::Service => QueueId(1),
            Priority::Normal => QueueId(0),
        }
    }

    /// Returns the queue of the requests on a link that tells them apart.
    pub fn queue(self) -> (queue: QueueId)
        ensures
            queue == self.lane(),
    {
        match self {
            Priority::Service => QueueId::new(1),
            Priority::Normal => QueueId::new(0),
        }
    }
}

/// How many service requests may go before an ordinary one.
#[derive(Debug, Clone, Copy, PartialEq, Eq, Structural)]
pub struct QueueScheduling {
    service_weight: u8,
}

/// A service weight that is not accepted.
#[derive(Debug, Clone, Copy, PartialEq, Eq, Structural)]
pub enum QueueSchedulingError {
    /// Service requests would never be sent.
    ZeroWeight,
}

impl QueueScheduling {
    #[verifier::type_invariant]
    spec fn positive(self) -> bool {
        self.service_weight > 0
    }

    /// Service requests in a row.
    pub closed spec fn quota(self) -> u8 {
        self.service_weight
    }

    /// Service and ordinary requests take turns.
    pub fn equal() -> (scheduling: Self)
        ensures
            scheduling.quota() == 1,
    {
        QueueScheduling { service_weight: 1 }
    }

    /// The largest preference that still serves ordinary requests.
    pub fn maximum_service() -> (scheduling: Self)
        ensures
            scheduling.quota() == 255,
    {
        QueueScheduling { service_weight: 255 }
    }

    /// A preference of the caller's choice.
    pub fn custom(service_weight: u8) -> (result: Result<Self, QueueSchedulingError>)
        ensures
            if service_weight == 0 {
                result == Err::<Self, QueueSchedulingError>(QueueSchedulingError::ZeroWeight)
            } else {
                result matches Ok(scheduling) && scheduling.quota() == service_weight
            },
    {
        if service_weight == 0 {
            return Err(QueueSchedulingError::ZeroWeight);
        }
        Ok(QueueScheduling { service_weight })
    }

    /// Returns the number of service requests in a row.
    pub fn service_weight(self) -> (weight: u8)
        ensures
            weight == self.quota(),
            weight > 0,
    {
        proof {
            use_type_invariant(&self);
        }
        self.service_weight
    }
}

/// What is wrong with the capacities, if anything.
pub open spec fn capacity_violation(service_capacity: usize, normal_capacity: usize) -> Option<
    QueueConfigError,
> {
    if QueueConfig::violation(QueueId(1), service_capacity) is Some {
        QueueConfig::violation(QueueId(1), service_capacity)
    } else {
        QueueConfig::violation(QueueId(0), normal_capacity)
    }
}

/// Lays out the service queue and the ordinary one.
pub fn priority_queues(
    service_capacity: usize,
    normal_capacity: usize,
    scheduling: QueueScheduling,
) -> (result: Result<Vec<QueueConfig>, QueueConfigError>)
    ensures
        match capacity_violation(service_capacity, normal_capacity) {
            Some(error) => result == Err::<Vec<QueueConfig>, QueueConfigError>(error),
            None => result matches Ok(layout) && layout@.len() == 2 && layout@[0].name()
                == Priority::Service.lane() && layout@[0].room() == service_capacity
                && layout@[0].policy().weighs(scheduling.quota() as u16) && layout@[1].name()
                == Priority::Normal.lane() && layout@[1].room() == normal_capacity
                && layout@[1].policy().weighs(1),
        },
{
    let service = QueueConfig::weighted(
        Priority::Service.queue(),
        service_capacity,
        scheduling.service_weight() as u16,
    )?;
    let normal = QueueConfig::weighted(Priority::Normal.queue(), normal_capacity, 1)?;
    let mut layout: Vec<QueueConfig> = Vec::new();
    layout.push(service);
    layout.push(normal);
    Ok(layout)
}

/// Service and ordinary requests wait in queues of their own, each with its
/// own capacity; for one ordinary request up to the given number of service
/// requests is served.
pub proof fn lemma_priority_queues(
    service_capacity: usize,
    normal_capacity: usize,
    scheduling: QueueScheduling,
    result: Result<Vec<QueueConfig>, QueueConfigError>,
)
    requires
        call_ensures(priority_queues, (service_capacity, normal_capacity, scheduling), result),
    ensures
        Priority::Service.lane() != Priority::Normal.lane(),
        Priority::Normal.lane().0 == 0,
        result is Ok <==> 0 < service_capacity <= MAXIMUM_QUEUE_CAPACITY && 0 < normal_capacity
            <= MAXIMUM_QUEUE_CAPACITY,
        result matches Ok(layout) ==> layout@.len() == 2 && layout@[0].name()
            == Priority::Service.lane() && layout@[1].name() == Priority::Normal.lane()
            && layout@[0].room() == service_capacity && layout@[1].room() == normal_capacity,
        result matches Ok(layout) ==> layout@[0].policy() matches QueuePriority::Weighted(weight)
            && weight.value() == scheduling.quota(),
        result matches Ok(layout) ==> layout@[1].policy() matches QueuePriority::Weighted(weight)
            && weight.value() == 1,
{
}

} // verus!
