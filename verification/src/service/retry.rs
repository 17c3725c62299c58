//! Retry limits and deadlines of one exchange.

use vstd::prelude::*;

use crate::time::{Duration, MAXIMUM_NANOSECONDS};

verus! {

/// Hard upper bound in nanoseconds for any per-request timeout or retry delay.
pub const MAXIMUM_RETRY_DURATION: u128 = 86_400_000_000_000;

/// Independent retry limits for one exchange.
#[derive(Debug, Clone, Copy, PartialEq, Eq, Structural)]
pub struct RetryPolicy {
    /// Retries after a complete request was sent but no response arrived.
    pub transport_retries: u8,
    /// Retries after a transient device rejection.
    pub busy_retries: u8,
    /// Polls after a delayed-response indication from the device.
    pub delayed_response_polls: u8,
    /// Delay before polling a transient device state again.
    pub retry_delay: Duration,
    /// Timeout for one response.
    pub response_timeout: Duration,
    /// End-to-end deadline from enqueue to result.
    pub total_timeout: Duration,
}

impl Default for RetryPolicy {
    fn default() -> (policy: Self)
        ensures
            policy == RetryPolicy::standard(),
    {
        RetryPolicy {
            transport_retries: 1,
            busy_retries: 2,
            delayed_response_polls: 8,
            retry_delay: Duration::from_millis(50),
            response_timeout: Duration::from_millis(1600),
            total_timeout: Duration::from_secs(8),
        }
    }
}

/// The point in time some span later, if the clock can show it.
pub open spec fn later(now: Duration, span: Duration) -> Option<Duration> {
    if now.nanos + span.nanos > MAXIMUM_NANOSECONDS {
        None
    } else {
        Some(Duration { nanos: (now.nanos + span.nanos) as u128 })
    }
}

/// Returns the point in time some span later, if the clock can show it.
pub fn deadline_after(now: Duration, span: Duration) -> (deadline: Option<Duration>)
    ensures
        deadline == later(now, span),
{
    if now.nanos > MAXIMUM_NANOSECONDS || span.nanos > MAXIMUM_NANOSECONDS - now.nanos {
        None
    } else {
        Some(Duration { nanos: now.nanos + span.nanos })
    }
}

impl RetryPolicy {
    /// The limits of a request that sets none.
    pub open spec fn standard() -> RetryPolicy {
        RetryPolicy {
            transport_retries: 1,
            busy_retries: 2,
            delayed_response_polls: 8,
            retry_delay: Duration { nanos: 50_000_000 },
            response_timeout: Duration { nanos: 1_600_000_000 },
            total_timeout: Duration { nanos: 8_000_000_000 },
        }
    }

    /// What is wrong with the limits, if anything.
    pub open spec fn violation(self) -> Option<RetryPolicyError> {
        if self.response_timeout.nanos == 0 {
            Some(RetryPolicyError::ResponseTimeout)
        } else if self.total_timeout.nanos == 0 {
            Some(RetryPolicyError::TotalTimeout)
        } else {
            None
        }
    }

    /// What is wrong with the limits at a point in time, if anything.
    pub open spec fn runtime_violation(self, now: Duration) -> Option<RetryPolicyError> {
        if self.violation() is Some {
            self.violation()
        } else if self.response_timeout.nanos > MAXIMUM_RETRY_DURATION {
            Some(RetryPolicyError::ResponseTimeoutLimit)
        } else if self.total_timeout.nanos > MAXIMUM_RETRY_DURATION {
            Some(RetryPolicyError::TotalTimeoutLimit)
        } else if self.retry_delay.nanos > MAXIMUM_RETRY_DURATION {
            Some(RetryPolicyError::RetryDelayLimit)
        } else if later(now, self.response_timeout) is None {
            Some(RetryPolicyError::ResponseDeadlineOverflow)
        } else if later(now, self.total_timeout) is None {
            Some(RetryPolicyError::DeadlineOverflow)
        } else if later(now, self.retry_delay) is None {
            Some(RetryPolicyError::RetryDelayOverflow)
        } else {
            None
        }
    }

    /// Creates a policy with no automatic repeats or delayed-response polling.
    pub fn single_attempt(response_timeout: Duration, total_timeout: Duration) -> (policy: Self)
        ensures
            policy == (RetryPolicy {
                transport_retries: 0,
                busy_retries: 0,
                delayed_response_polls: 0,
                retry_delay: Duration { nanos: 0 },
                response_timeout,
                total_timeout,
            }),
    {
        RetryPolicy {
            transport_retries: 0,
            busy_retries: 0,
            delayed_response_polls: 0,
            retry_delay: Duration::zero(),
            response_timeout,
            total_timeout,
        }
    }

    /// Verifies that both timeout layers can make forward progress.
    pub fn validate(&self) -> (result: Result<(), RetryPolicyError>)
        ensures
            result == match self.violation() {
                Some(error) => Err::<(), RetryPolicyError>(error),
                None => Ok::<(), RetryPolicyError>(()),
            },
    {
        if self.response_timeout.is_zero() {
            return Err(RetryPolicyError::ResponseTimeout);
        }
        if self.total_timeout.is_zero() {
            return Err(RetryPolicyError::TotalTimeout);
        }
        Ok(())
    }

    /// Verifies that every configured duration fits the runtime clock, which
    /// shows `now`.
    pub fn validate_runtime(&self, now: Duration) -> (result: Result<(), RetryPolicyError>)
        ensures
            result == match self.runtime_violation(now) {
                Some(error) => Err::<(), RetryPolicyError>(error),
                None => Ok::<(), RetryPolicyError>(()),
            },
    {
        self.validate()?;
        if self.response_timeout.nanos > MAXIMUM_RETRY_DURATION {
            return Err(RetryPolicyError::ResponseTimeoutLimit);
        }
        if self.total_timeout.nanos > MAXIMUM_RETRY_DURATION {
            return Err(RetryPolicyError::TotalTimeoutLimit);
        }
        if self.retry_delay.nanos > MAXIMUM_RETRY_DURATION {
            return Err(RetryPolicyError::RetryDelayLimit);
        }
        if deadline_after(now, self.response_timeout).is_none() {
            return Err(RetryPolicyError::ResponseDeadlineOverflow);
        }
        if deadline_after(now, self.total_timeout).is_none() {
            return Err(RetryPolicyError::DeadlineOverflow);
        }
        if deadline_after(now, self.retry_delay).is_none() {
            return Err(RetryPolicyError::RetryDelayOverflow);
        }
        Ok(())
    }

    /// Sets retries after an uncertain no-response result.
    pub fn with_transport_retries(self, retries: u8) -> (policy: Self)
        ensures
            policy == (RetryPolicy { transport_retries: retries, ..self }),
    {
        RetryPolicy { transport_retries: retries, ..self }
    }

    /// Sets retries after a Busy response.
    pub fn with_busy_retries(self, retries: u8) -> (policy: Self)
        ensures
            policy == (RetryPolicy { busy_retries: retries, ..self }),
    {
        RetryPolicy { busy_retries: retries, ..self }
    }

    /// Sets polls after a delayed-response indication.
    pub fn with_delayed_response_polls(self, polls: u8) -> (policy: Self)
        ensures
            policy == (RetryPolicy { delayed_response_polls: polls, ..self }),
    {
        RetryPolicy { delayed_response_polls: polls, ..self }
    }

    /// Sets the pause between transient device states.
    pub fn with_retry_delay(self, delay: Duration) -> (policy: Self)
        ensures
            policy == (RetryPolicy { retry_delay: delay, ..self }),
    {
        RetryPolicy { retry_delay: delay, ..self }
    }

    /// Sets the maximum wait for one response.
    pub fn with_response_timeout(self, timeout: Duration) -> (policy: Self)
        ensures
            policy == (RetryPolicy { response_timeout: timeout, ..self }),
    {
        RetryPolicy { response_timeout: timeout, ..self }
    }

    /// Sets the complete queue-and-exchange deadline.
    pub fn with_total_timeout(self, timeout: Duration) -> (policy: Self)
        ensures
            policy == (RetryPolicy { total_timeout: timeout, ..self }),
    {
        RetryPolicy { total_timeout: timeout, ..self }
    }
}

/// Invalid retry or deadline settings.
#[derive(Debug, Clone, Copy, PartialEq, Eq, Structural)]
pub enum RetryPolicyError {
    /// An individual exchange must have time to receive a response.
    ResponseTimeout,
    /// Queue waiting and exchange execution need a nonzero total budget.
    TotalTimeout,
    /// The requested total deadline cannot be represented by the runtime clock.
    DeadlineOverflow,
    /// The requested per-response deadline cannot be represented by the runtime clock.
    ResponseDeadlineOverflow,
    /// The retry pause cannot be represented by the runtime clock.
    RetryDelayOverflow,
    /// A response wait cannot reserve the serialized link for longer than the hard bound.
    ResponseTimeoutLimit,
    /// An end-to-end request cannot remain queued or in flight beyond the hard bound.
    TotalTimeoutLimit,
    /// A transient retry delay cannot reserve a request beyond the hard bound.
    RetryDelayLimit,
}

impl RetryPolicyError {
    /// The diagnostic text of the error.
    pub open spec fn text(self) -> Seq<char> {
        match self {
            RetryPolicyError::ResponseTimeout => "response_timeout must be greater than zero"@,
            RetryPolicyError::TotalTimeout => "total_timeout must be greater than zero"@,
            RetryPolicyError::DeadlineOverflow =>
            "total_timeout is too large for the runtime clock"@,
            RetryPolicyError::ResponseDeadlineOverflow =>
            "response_timeout is too large for the runtime clock"@,
            RetryPolicyError::RetryDelayOverflow =>
            "retry_delay is too large for the runtime clock"@,
            RetryPolicyError::ResponseTimeoutLimit =>
            "response_timeout exceeds the supported 24-hour limit"@,
            RetryPolicyError::TotalTimeoutLimit =>
            "total_timeout exceeds the supported 24-hour limit"@,
            RetryPolicyError::RetryDelayLimit =>
            "retry_delay exceeds the supported 24-hour limit"@,
        }
    }

    /// Renders the error for a diagnostic.
    pub fn message(&self) -> (message: String)
        ensures
            message@ == self.text(),
    {
        let text = match self {
            RetryPolicyError::ResponseTimeout => "response_timeout must be greater than zero",
            RetryPolicyError::TotalTimeout => "total_timeout must be greater than zero",
            RetryPolicyError::DeadlineOverflow =>
            "total_timeout is too large for the runtime clock",
            RetryPolicyError::ResponseDeadlineOverflow =>
            "response_timeout is too large for the runtime clock",
            RetryPolicyError::RetryDelayOverflow =>
            "retry_delay is too large for the runtime clock",
            RetryPolicyError::ResponseTimeoutLimit =>
            "response_timeout exceeds the supported 24-hour limit",
            RetryPolicyError::TotalTimeoutLimit =>
            "total_timeout exceeds the supported 24-hour limit",
            RetryPolicyError::RetryDelayLimit =>
            "retry_delay exceeds the supported 24-hour limit",
        };
        String::from_str(text)
    }
}

/// The limits of a request that sets none are accepted while the clock can
/// show the next eight seconds.
pub proof fn lemma_standard_policy_is_valid(now: Duration)
    requires
        now.nanos + 8_000_000_000 <= MAXIMUM_NANOSECONDS,
    ensures
        RetryPolicy::standard().runtime_violation(now) is None,
{
}

} // verus!
