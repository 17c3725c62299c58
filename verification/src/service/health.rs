//! Outage suppression and adaptive timing of one device.

use vstd::prelude::*;

use crate::catalog::OperationSafety;
use crate::counters::counted;
use crate::nonzero::NonZeroU8;
use crate::operation::CommandCode;
use crate::service::event::ExchangeError;
use crate::service::policy::registered_safety;
use crate::service::retry::{deadline_after, later, RetryPolicy, MAXIMUM_RETRY_DURATION};
use crate::service::session::{DeviceSession, SessionError, SessionView};
use crate::time::{capped, Duration};

verus! {

/// Bounds used to derive a shorter read-only response timeout from successful exchanges.
#[derive(Debug, Clone, Copy, PartialEq, Eq, Structural)]
pub struct AdaptiveTiming {
    /// Smallest response timeout selected by adaptation.
    pub minimum: Duration,
    /// Largest response timeout selected by adaptation.
    pub maximum: Duration,
    /// Safety margin added to the learned response duration.
    pub margin: Duration,
}

impl Default for AdaptiveTiming {
    fn default() -> (timing: Self)
        ensures
            timing == AdaptiveTiming::standard(),
    {
        AdaptiveTiming {
            minimum: Duration::from_millis(100),
            maximum: Duration::from_secs(5),
            margin: Duration::from_millis(50),
        }
    }
}

impl AdaptiveTiming {
    /// The bounds of a session that sets none.
    pub open spec fn standard() -> AdaptiveTiming {
        AdaptiveTiming {
            minimum: Duration { nanos: 100_000_000 },
            maximum: Duration { nanos: 5_000_000_000 },
            margin: Duration { nanos: 50_000_000 },
        }
    }

    /// What is wrong with the bounds, if anything.
    pub open spec fn violation(self) -> Option<DeviceHealthConfigError> {
        if self.minimum.nanos == 0 || self.maximum.nanos == 0 {
            Some(DeviceHealthConfigError::ZeroAdaptiveTimeout)
        } else if self.minimum.nanos > self.maximum.nanos {
            Some(DeviceHealthConfigError::AdaptiveOrder)
        } else if self.maximum.nanos > MAXIMUM_RETRY_DURATION || self.margin.nanos
            > MAXIMUM_RETRY_DURATION {
            Some(DeviceHealthConfigError::AdaptiveLimit)
        } else {
            None
        }
    }

    /// The timeout that a learned duration suggests.
    pub open spec fn suggested(self, learned: Duration) -> Duration {
        let candidate = capped(learned.nanos + self.margin.nanos);
        if candidate < self.minimum.nanos {
            self.minimum
        } else if candidate > self.maximum.nanos {
            self.maximum
        } else {
            Duration { nanos: candidate }
        }
    }

    /// Validates progress and hard resource bounds.
    pub fn validate(self) -> (result: Result<(), DeviceHealthConfigError>)
        ensures
            result == match self.violation() {
                Some(error) => Err::<(), DeviceHealthConfigError>(error),
                None => Ok::<(), DeviceHealthConfigError>(()),
            },
    {
        if self.minimum.is_zero() || self.maximum.is_zero() {
            return Err(DeviceHealthConfigError::ZeroAdaptiveTimeout);
        }
        if self.minimum.nanos > self.maximum.nanos {
            return Err(DeviceHealthConfigError::AdaptiveOrder);
        }
        if self.maximum.nanos > MAXIMUM_RETRY_DURATION || self.margin.nanos
            > MAXIMUM_RETRY_DURATION {
            return Err(DeviceHealthConfigError::AdaptiveLimit);
        }
        Ok(())
    }

    /// Sets the smallest adaptive response timeout.
    pub fn with_minimum(self, minimum: Duration) -> (timing: Self)
        ensures
            timing == (AdaptiveTiming { minimum, ..self }),
    {
        AdaptiveTiming { minimum, ..self }
    }

    /// Sets the largest adaptive response timeout.
    pub fn with_maximum(self, maximum: Duration) -> (timing: Self)
        ensures
            timing == (AdaptiveTiming { maximum, ..self }),
    {
        AdaptiveTiming { maximum, ..self }
    }

    /// Sets the margin added to a learned duration.
    pub fn with_margin(self, margin: Duration) -> (timing: Self)
        ensures
            timing == (AdaptiveTiming { margin, ..self }),
    {
        AdaptiveTiming { margin, ..self }
    }
}

/// Health, cooldown, and optional read-only adaptation settings.
#[derive(Debug, Clone, Copy, PartialEq, Eq, Structural)]
pub struct DeviceHealthOptions {
    /// Consecutive transport failures required before cooldown begins.
    pub failure_threshold: NonZeroU8,
    /// Period during which ordinary calls fail locally without occupying the link queue.
    pub cooldown: Duration,
    /// Read-only adaptive timing, or `None` to keep caller timeouts unchanged.
    pub adaptive: Option<AdaptiveTiming>,
}

impl Default for DeviceHealthOptions {
    fn default() -> (options: Self)
        ensures
            options.failure_threshold.count() == 3,
            options.cooldown.nanos == 10_000_000_000,
            options.adaptive == Some(AdaptiveTiming::standard()),
            options.violation() is None,
    {
        DeviceHealthOptions {
            failure_threshold: NonZeroU8::three(),
            cooldown: Duration::from_secs(10),
            adaptive: Some(AdaptiveTiming::default()),
        }
    }
}

impl DeviceHealthOptions {
    /// What is wrong with the settings, if anything.
    pub open spec fn violation(self) -> Option<DeviceHealthConfigError> {
        if self.cooldown.nanos > MAXIMUM_RETRY_DURATION {
            Some(DeviceHealthConfigError::CooldownLimit)
        } else {
            match self.adaptive {
                Some(adaptive) => adaptive.violation(),
                None => None,
            }
        }
    }

    /// Validates every duration before a managed session is created.
    pub fn validate(self) -> (result: Result<(), DeviceHealthConfigError>)
        ensures
            result == match self.violation() {
                Some(error) => Err::<(), DeviceHealthConfigError>(error),
                None => Ok::<(), DeviceHealthConfigError>(()),
            },
    {
        if self.cooldown.nanos > MAXIMUM_RETRY_DURATION {
            return Err(DeviceHealthConfigError::CooldownLimit);
        }
        if let Some(adaptive) = self.adaptive {
            adaptive.validate()?;
        }
        Ok(())
    }

    /// Sets the number of consecutive transport failures that opens cooldown.
    pub fn with_failure_threshold(self, failure_threshold: NonZeroU8) -> (options: Self)
        ensures
            options == (DeviceHealthOptions { failure_threshold, ..self }),
    {
        DeviceHealthOptions { failure_threshold, ..self }
    }

    /// Sets cooldown duration; zero disables the waiting period while preserving counters.
    pub fn with_cooldown(self, cooldown: Duration) -> (options: Self)
        ensures
            options == (DeviceHealthOptions { cooldown, ..self }),
    {
        DeviceHealthOptions { cooldown, ..self }
    }

    /// Enables or disables adaptive read-only timing.
    pub fn with_adaptive(self, adaptive: Option<AdaptiveTiming>) -> (options: Self)
        ensures
            options == (DeviceHealthOptions { adaptive, ..self }),
    {
        DeviceHealthOptions { adaptive, ..self }
    }
}

/// Invalid health or adaptive timing configuration.
#[derive(Debug, Clone, Copy, PartialEq, Eq, Structural)]
pub enum DeviceHealthConfigError {
    /// Adaptive timing cannot make progress with a zero bound.
    ZeroAdaptiveTimeout,
    /// The minimum adaptive timeout is greater than its maximum.
    AdaptiveOrder,
    /// An adaptive duration exceeds the global per-request safety bound.
    AdaptiveLimit,
    /// Cooldown exceeds the global per-request safety bound.
    CooldownLimit,
}

/// Point-in-time summary of one managed device session.
#[derive(Debug, Clone, Copy, PartialEq, Eq, Structural)]
pub struct DeviceHealthSnapshot {
    /// Logical operations completed successfully.
    pub successes: u64,
    /// Logical operations that returned a final error.
    pub failures: u64,
    /// Consecutive failures that indicate a transport outage.
    pub consecutive_transport_failures: u32,
    /// Number of times the failure threshold opened cooldown.
    pub cooldown_activations: u64,
    /// Calls rejected locally while cooldown was active.
    pub cooldown_rejections: u64,
    /// Remaining cooldown duration.
    pub cooldown_remaining: Duration,
    /// Smoothed successful duration used for read-only adaptation.
    pub learned_response: Option<Duration>,
    /// Read-only operations started with a learned short timeout.
    pub adaptive_attempts: u64,
    /// Adaptive attempts that timed out and used their conservative retry budget.
    pub adaptive_fallbacks: u64,
}

impl Default for DeviceHealthSnapshot {
    fn default() -> (snapshot: Self)
        ensures
            snapshot == (DeviceHealthSnapshot {
                successes: 0,
                failures: 0,
                consecutive_transport_failures: 0,
                cooldown_activations: 0,
                cooldown_rejections: 0,
                cooldown_remaining: Duration { nanos: 0 },
                learned_response: None,
                adaptive_attempts: 0,
                adaptive_fallbacks: 0,
            }),
    {
        DeviceHealthSnapshot {
            successes: 0,
            failures: 0,
            consecutive_transport_failures: 0,
            cooldown_activations: 0,
            cooldown_rejections: 0,
            cooldown_remaining: Duration::zero(),
            learned_response: None,
            adaptive_attempts: 0,
            adaptive_fallbacks: 0,
        }
    }
}

/// Error returned by a managed device operation.
#[derive(Debug, Clone, PartialEq, Eq)]
pub enum ManagedSessionError {
    /// Cooldown rejected an ordinary call before it occupied queue capacity.
    CoolingDown {
        /// Remaining wait at the time of rejection.
        remaining: Duration,
    },
    /// Only a command registered by the library as read-only may bypass cooldown.
    UnsafeProbe {
        /// Rejected logical command number.
        command: u16,
    },
    /// Device-session or exchange failure.
    Session(SessionError),
}

/// Whether the registry calls a command read-only.
pub open spec fn reads_only(command: CommandCode) -> bool {
    registered_safety(command) == Some(OperationSafety::ReadOnly)
}

fn registered_read_only(command: CommandCode) -> (read_only: bool)
    ensures
        read_only == reads_only(command),
{
    match crate::catalog::command_descriptor(command) {
        Some(entry) => entry.safety == OperationSafety::ReadOnly,
        None => false,
    }
}

/// Whether an error is the silence of the device.
pub open spec fn is_silence(error: SessionError) -> bool {
    error == SessionError::Exchange(ExchangeError::ResponseTimeout)
}

fn is_response_timeout(error: &SessionError) -> (silent: bool)
    ensures
        silent == is_silence(*error),
{
    match error {
        SessionError::Exchange(ExchangeError::ResponseTimeout) => true,
        _ => false,
    }
}

/// Whether an error says that the device cannot be reached.
pub open spec fn is_outage(error: SessionError) -> bool {
    match error {
        SessionError::Exchange(error) => match error {
            ExchangeError::ResponseTimeout => true,
            ExchangeError::SendTimeout => true,
            ExchangeError::Channel(_) => true,
            ExchangeError::RunnerStopped => true,
            _ => false,
        },
        _ => false,
    }
}

fn is_transport_outage(error: &SessionError) -> (outage: bool)
    ensures
        outage == is_outage(*error),
{
    match error {
        SessionError::Exchange(error) => match error {
            ExchangeError::ResponseTimeout => true,
            ExchangeError::SendTimeout => true,
            ExchangeError::Channel(_) => true,
            ExchangeError::RunnerStopped => true,
            _ => false,
        },
        _ => false,
    }
}

/// A duration that takes over a quarter of a new sample.
pub open spec fn smoothed(previous: Option<Duration>, sample: Duration) -> Duration {
    match previous {
        None => sample,
        Some(previous) => {
            let average = (previous.nanos * 3 + sample.nanos) / 4;
            Duration {
                nanos: if average > u64::MAX {
                    u64::MAX as u128
                } else {
                    average as u128
                },
            }
        },
    }
}

fn smoothed_duration(previous: Option<Duration>, sample: Duration) -> (duration: Duration)
    ensures
        duration == smoothed(previous, sample),
{
    match previous {
        None => sample,
        Some(previous) => {
            let limit: u128 = u128::MAX / 8;
            if previous.nanos > limit || sample.nanos > limit {
                return Duration { nanos: u64::MAX as u128 };
            }
            let average: u128 = (previous.nanos * 3 + sample.nanos) / 4;
            Duration {
                nanos: if average > u64::MAX as u128 {
                    u64::MAX as u128
                } else {
                    average
                },
            }
        },
    }
}

/// What is learned lies between what was known and the new sample, where both
/// fit 64 bits of nanoseconds.
pub proof fn lemma_smoothing_stays_between(previous: Duration, sample: Duration)
    requires
        previous.nanos <= u64::MAX,
        sample.nanos <= u64::MAX,
    ensures
        ({
            let learned = smoothed(Some(previous), sample).nanos;
            &&& previous.nanos <= sample.nanos ==> previous.nanos <= learned <= sample.nanos
            &&& sample.nanos <= previous.nanos ==> sample.nanos <= learned <= previous.nanos
        }),
{
}

/// What is known of the health of a device.
#[derive(Debug, Clone, Copy, PartialEq, Eq, Structural)]
pub struct HealthState {
    /// Operations completed.
    pub successes: u64,
    /// Operations failed.
    pub failures: u64,
    /// Failures in a row that indicate an outage.
    pub consecutive_transport_failures: u32,
    /// How often cooldown began.
    pub cooldown_activations: u64,
    /// Calls rejected during cooldown.
    pub cooldown_rejections: u64,
    /// End of the cooldown.
    pub cooldown_until: Option<Duration>,
    /// Smoothed duration of an exchange.
    pub learned_response: Option<Duration>,
    /// Attempts with a learned timeout.
    pub adaptive_attempts: u64,
    /// Attempts with a learned timeout that were repeated.
    pub adaptive_fallbacks: u64,
}

/// A counter that stays at its largest value.
pub open spec fn counted32(counter: u32) -> u32 {
    if counter == u32::MAX {
        u32::MAX
    } else {
        (counter + 1) as u32
    }
}

impl HealthState {
    /// The state of a device of which nothing is known.
    pub open spec fn unknown() -> HealthState {
        HealthState {
            successes: 0,
            failures: 0,
            consecutive_transport_failures: 0,
            cooldown_activations: 0,
            cooldown_rejections: 0,
            cooldown_until: None,
            learned_response: None,
            adaptive_attempts: 0,
            adaptive_fallbacks: 0,
        }
    }

    /// How long the cooldown lasts.
    pub open spec fn remaining(self, now: Duration) -> Duration {
        match self.cooldown_until {
            Some(until) => if until.nanos > now.nanos {
                Duration { nanos: (until.nanos - now.nanos) as u128 }
            } else {
                Duration { nanos: 0 }
            },
            None => Duration { nanos: 0 },
        }
    }

    /// The state without a cooldown that is over.
    pub open spec fn refreshed(self, now: Duration) -> HealthState {
        if self.remaining(now).nanos == 0 {
            HealthState { cooldown_until: None, ..self }
        } else {
            self
        }
    }

    /// The state after a call.
    pub open spec fn called(self, now: Duration, bypass: bool) -> HealthState {
        if bypass {
            self
        } else if self.remaining(now).nanos == 0 {
            self.refreshed(now)
        } else {
            HealthState { cooldown_rejections: counted(self.cooldown_rejections, 1), ..self }
        }
    }

    /// The state after a success.
    pub open spec fn succeeding(
        self,
        options: DeviceHealthOptions,
        elapsed: Duration,
        command: CommandCode,
    ) -> HealthState {
        HealthState {
            successes: counted(self.successes, 1),
            consecutive_transport_failures: 0,
            cooldown_until: None,
            learned_response: if reads_only(command) && options.adaptive is Some {
                Some(smoothed(self.learned_response, elapsed))
            } else {
                self.learned_response
            },
            ..self
        }
    }

    /// The state after a failure.
    pub open spec fn failing(
        self,
        options: DeviceHealthOptions,
        error: SessionError,
        now: Duration,
    ) -> HealthState {
        let counted_failure = HealthState { failures: counted(self.failures, 1), ..self };
        if !is_outage(error) {
            HealthState {
                consecutive_transport_failures: 0,
                cooldown_until: None,
                ..counted_failure
            }
        } else {
            let outages = counted32(self.consecutive_transport_failures);
            let missed = HealthState {
                consecutive_transport_failures: outages,
                ..counted_failure
            };
            if outages >= options.failure_threshold.count() {
                HealthState {
                    cooldown_activations: if self.remaining(now).nanos > 0 {
                        self.cooldown_activations
                    } else {
                        counted(self.cooldown_activations, 1)
                    },
                    cooldown_until: later(now, options.cooldown),
                    ..missed
                }
            } else {
                missed
            }
        }
    }

    /// The timeout of a first quick attempt, where one is made: for commands
    /// that only read, with a repeat to spare.
    pub open spec fn quick_timeout(
        self,
        options: DeviceHealthOptions,
        command: CommandCode,
        policy: RetryPolicy,
    ) -> Option<Duration> {
        if policy.transport_retries == 0 || !reads_only(command) || options.adaptive is None
            || self.learned_response is None {
            None
        } else {
            let candidate = options.adaptive->0.suggested(self.learned_response->0);
            if candidate.nanos < policy.response_timeout.nanos {
                Some(candidate)
            } else {
                None
            }
        }
    }

    /// The state after outages one after the other at given times.
    pub open spec fn missing(
        self,
        options: DeviceHealthOptions,
        times: Seq<Duration>,
    ) -> HealthState
        decreases times.len(),
    {
        if times.len() == 0 {
            self
        } else {
            self.missing(options, times.drop_last()).failing(
                options,
                SessionError::Exchange(ExchangeError::ResponseTimeout),
                times.last(),
            )
        }
    }
}

/// The policy of a first quick attempt.
pub open spec fn quick_policy(policy: RetryPolicy, timeout: Duration) -> RetryPolicy {
    RetryPolicy { transport_retries: 0, response_timeout: timeout, ..policy }
}

/// The policy of the attempt that follows a quick one, with the time that is left.
pub open spec fn patient_policy(policy: RetryPolicy, remaining: Duration) -> RetryPolicy {
    RetryPolicy {
        transport_retries: if policy.transport_retries == 0 {
            0
        } else {
            (policy.transport_retries - 1) as u8
        },
        response_timeout: if policy.response_timeout.nanos <= remaining.nanos {
            policy.response_timeout
        } else {
            remaining
        },
        total_timeout: remaining,
        ..policy
    }
}

/// Cooldown begins with the failure that reaches the threshold and not before;
/// ordinary calls are then rejected until it ends.
pub proof fn lemma_cooldown_opens_at_the_threshold(
    options: DeviceHealthOptions,
    times: Seq<Duration>,
)
    requires
        0 < times.len() <= options.failure_threshold.count(),
    ensures
        ({
            let state = HealthState::unknown().missing(options, times);
            &&& state.consecutive_transport_failures == times.len()
            &&& times.len() < options.failure_threshold.count() ==> state.cooldown_until is None
                && state.cooldown_activations == 0
            &&& times.len() == options.failure_threshold.count() ==> state.cooldown_activations
                == 1 && state.cooldown_until == later(times.last(), options.cooldown)
        }),
    decreases times.len(),
{
    if times.len() > 1 {
        lemma_cooldown_opens_at_the_threshold(options, times.drop_last());
    } else {
        assert(HealthState::unknown().missing(options, times.drop_last())
            == HealthState::unknown());
    }
}

/// A success, or a failure that is no outage, ends the cooldown and the count
/// of outages.
pub proof fn lemma_answer_ends_cooldown(
    state: HealthState,
    options: DeviceHealthOptions,
    elapsed: Duration,
    command: CommandCode,
    error: SessionError,
    now: Duration,
)
    requires
        !is_outage(error),
    ensures
        state.succeeding(options, elapsed, command).cooldown_until is None,
        state.succeeding(options, elapsed, command).consecutive_transport_failures == 0,
        state.failing(options, error, now).cooldown_until is None,
        state.failing(options, error, now).consecutive_transport_failures == 0,
{
}

/// A quick attempt is never made for a command that changes the device, it
/// waits less long than the caller allows, and the repeat that may follow it
/// keeps to the caller's budget.
pub proof fn lemma_quick_attempt_is_safe(
    state: HealthState,
    options: DeviceHealthOptions,
    command: CommandCode,
    policy: RetryPolicy,
    remaining: Duration,
)
    requires
        remaining.nanos <= policy.total_timeout.nanos,
    ensures
        state.quick_timeout(options, command, policy) matches Some(timeout) ==> {
            &&& reads_only(command)
            &&& timeout.nanos < policy.response_timeout.nanos
            &&& quick_policy(policy, timeout).transport_retries + 1 + patient_policy(
                policy,
                remaining,
            ).transport_retries == policy.transport_retries
        },
        patient_policy(policy, remaining).response_timeout.nanos <= policy.response_timeout.nanos,
        patient_policy(policy, remaining).total_timeout.nanos <= policy.total_timeout.nanos,
{
}

/// How a managed operation starts.
#[derive(Debug, Clone, Copy, PartialEq, Eq, Structural)]
pub enum ManagedStart {
    /// One attempt with the caller's policy.
    Plain(RetryPolicy),
    /// A quick attempt with a learned timeout.
    Quick(RetryPolicy),
}

/// What follows a quick attempt.
#[derive(Debug)]
pub enum QuickStep<T> {
    /// The operation is over.
    Finished(Result<T, ManagedSessionError>),
    /// The operation is repeated with the time that is left.
    Repeat(RetryPolicy),
}

/// Device session with bounded outage suppression and conservative read-only adaptation.
#[derive(Debug)]
pub struct ManagedDeviceSession {
    session: DeviceSession,
    options: DeviceHealthOptions,
    state: HealthState,
}

impl ManagedDeviceSession {
    /// What is known of the device.
    pub closed spec fn health(&self) -> HealthState {
        self.state
    }

    /// The settings.
    pub closed spec fn settings(&self) -> DeviceHealthOptions {
        self.options
    }

    /// The session.
    pub closed spec fn device(&self) -> SessionView {
        self.session@
    }

    /// Creates a managed session after validating all limits.
    pub fn new(session: DeviceSession, options: DeviceHealthOptions) -> (result: Result<
        Self,
        DeviceHealthConfigError,
    >)
        ensures
            match options.violation() {
                Some(error) => result == Err::<Self, DeviceHealthConfigError>(error),
                None => result matches Ok(managed) && managed.device() == session@
                    && managed.settings() == options && managed.health() == HealthState::unknown(),
            },
    {
        options.validate()?;
        Ok(ManagedDeviceSession::from_valid_options(session, options))
    }

    /// Creates a managed session with conservative defaults.
    pub fn with_defaults(session: DeviceSession) -> (managed: Self)
        ensures
            managed.device() == session@,
            managed.settings().failure_threshold.count() == 3,
            managed.settings().cooldown.nanos == 10_000_000_000,
            managed.settings().adaptive == Some(AdaptiveTiming::standard()),
            managed.health() == HealthState::unknown(),
    {
        ManagedDeviceSession::from_valid_options(session, DeviceHealthOptions::default())
    }

    fn from_valid_options(session: DeviceSession, options: DeviceHealthOptions) -> (managed: Self)
        ensures
            managed.device() == session@,
            managed.settings() == options,
            managed.health() == HealthState::unknown(),
    {
        ManagedDeviceSession {
            session,
            options,
            state: HealthState {
                successes: 0,
                failures: 0,
                consecutive_transport_failures: 0,
                cooldown_activations: 0,
                cooldown_rejections: 0,
                cooldown_until: None,
                learned_response: None,
                adaptive_attempts: 0,
                adaptive_fallbacks: 0,
            },
        }
    }

    /// Returns the underlying identified session.
    pub fn session(&self) -> (session: &DeviceSession)
        ensures
            session@ == self.device(),
    {
        &self.session
    }

    /// Returns validated health settings.
    pub fn options(&self) -> (options: DeviceHealthOptions)
        ensures
            options == self.settings(),
    {
        self.options
    }

    /// Returns current health counters and remaining cooldown.
    pub fn snapshot(&mut self, now: Duration) -> (snapshot: DeviceHealthSnapshot)
        ensures
            final(self).device() == old(self).device(),
            final(self).settings() == old(self).settings(),
            final(self).health() == old(self).health().refreshed(now),
            snapshot == (DeviceHealthSnapshot {
                successes: old(self).health().successes,
                failures: old(self).health().failures,
                consecutive_transport_failures: old(self).health().consecutive_transport_failures,
                cooldown_activations: old(self).health().cooldown_activations,
                cooldown_rejections: old(self).health().cooldown_rejections,
                cooldown_remaining: old(self).health().remaining(now),
                learned_response: old(self).health().learned_response,
                adaptive_attempts: old(self).health().adaptive_attempts,
                adaptive_fallbacks: old(self).health().adaptive_fallbacks,
            }),
    {
        let remaining = match self.state.cooldown_until {
            Some(until) => until.saturating_sub(now),
            None => Duration::zero(),
        };
        if remaining.is_zero() {
            self.state.cooldown_until = None;
        }
        DeviceHealthSnapshot {
            successes: self.state.successes,
            failures: self.state.failures,
            consecutive_transport_failures: self.state.consecutive_transport_failures,
            cooldown_activations: self.state.cooldown_activations,
            cooldown_rejections: self.state.cooldown_rejections,
            cooldown_remaining: remaining,
            learned_response: self.state.learned_response,
            adaptive_attempts: self.state.adaptive_attempts,
            adaptive_fallbacks: self.state.adaptive_fallbacks,
        }
    }

    /// Starts an operation unless cooldown is active.
    pub fn execute(&mut self, command: CommandCode, policy: RetryPolicy, now: Duration) -> (result:
        Result<ManagedStart, ManagedSessionError>)
        ensures
            final(self).device() == old(self).device(),
            final(self).settings() == old(self).settings(),
            begun(
                old(self).health(),
                old(self).settings(),
                command,
                policy,
                now,
                false,
                result,
                final(self).health(),
            ),
    {
        self.execute_inner(command, policy, now, false)
    }

    /// Starts an operation during cooldown too, where the library registers
    /// its command as read-only.
    pub fn probe(&mut self, command: CommandCode, policy: RetryPolicy, now: Duration) -> (result:
        Result<ManagedStart, ManagedSessionError>)
        ensures
            final(self).device() == old(self).device(),
            final(self).settings() == old(self).settings(),
            if reads_only(command) {
                begun(
                    old(self).health(),
                    old(self).settings(),
                    command,
                    policy,
                    now,
                    true,
                    result,
                    final(self).health(),
                )
            } else {
                &&& result == Err::<ManagedStart, ManagedSessionError>(
                    ManagedSessionError::UnsafeProbe { command: command.0 },
                )
                &&& final(self).health() == old(self).health()
            },
    {
        if !registered_read_only(command) {
            return Err(ManagedSessionError::UnsafeProbe { command: command.get() });
        }
        self.execute_inner(command, policy, now, true)
    }

    fn execute_inner(
        &mut self,
        command: CommandCode,
        policy: RetryPolicy,
        now: Duration,
        bypass_cooldown: bool,
    ) -> (result: Result<ManagedStart, ManagedSessionError>)
        ensures
            final(self).device() == old(self).device(),
            final(self).settings() == old(self).settings(),
            begun(
                old(self).health(),
                old(self).settings(),
                command,
                policy,
                now,
                bypass_cooldown,
                result,
                final(self).health(),
            ),
    {
        self.check_cooldown(bypass_cooldown, now)?;
        match self.adaptive_timeout(command, policy) {
            None => Ok(ManagedStart::Plain(policy)),
            Some(timeout) => {
                self.state.adaptive_attempts = self.state.adaptive_attempts.saturating_add(1);
                Ok(
                    ManagedStart::Quick(
                        RetryPolicy { transport_retries: 0, response_timeout: timeout, ..policy },
                    ),
                )
            },
        }
    }

    fn adaptive_timeout(&self, command: CommandCode, policy: RetryPolicy) -> (timeout: Option<
        Duration,
    >)
        ensures
            timeout == self.health().quick_timeout(self.settings(), command, policy),
    {
        if policy.transport_retries == 0 || !registered_read_only(command) {
            return None;
        }
        let adaptive = self.options.adaptive?;
        let learned = self.state.learned_response?;
        let sum = learned.saturating_add(adaptive.margin);
        let candidate = if sum.nanos < adaptive.minimum.nanos {
            adaptive.minimum
        } else if sum.nanos > adaptive.maximum.nanos {
            adaptive.maximum
        } else {
            sum
        };
        if candidate.nanos < policy.response_timeout.nanos {
            Some(candidate)
        } else {
            None
        }
    }

    fn check_cooldown(&mut self, bypass: bool, now: Duration) -> (result: Result<
        (),
        ManagedSessionError,
    >)
        ensures
            final(self).device() == old(self).device(),
            final(self).settings() == old(self).settings(),
            final(self).health() == old(self).health().called(now, bypass),
            result == if !bypass && old(self).health().remaining(now).nanos > 0 {
                Err::<(), ManagedSessionError>(
                    ManagedSessionError::CoolingDown {
                        remaining: old(self).health().remaining(now),
                    },
                )
            } else {
                Ok::<(), ManagedSessionError>(())
            },
    {
        if bypass {
            return Ok(());
        }
        let remaining = match self.state.cooldown_until {
            None => {
                return Ok(());
            },
            Some(until) => until.saturating_sub(now),
        };
        if remaining.is_zero() {
            self.state.cooldown_until = None;
            return Ok(());
        }
        self.state.cooldown_rejections = self.state.cooldown_rejections.saturating_add(1);
        Err(ManagedSessionError::CoolingDown { remaining })
    }

    /// Takes over the result of an operation after its last attempt.
    pub fn finish<T>(
        &mut self,
        result: Result<T, SessionError>,
        elapsed: Duration,
        command: CommandCode,
        now: Duration,
    ) -> (outcome: Result<T, ManagedSessionError>)
        ensures
            final(self).device() == old(self).device(),
            final(self).settings() == old(self).settings(),
            match result {
                Ok(value) => outcome == Ok::<T, ManagedSessionError>(value) && final(self).health()
                    == old(self).health().succeeding(old(self).settings(), elapsed, command),
                Err(error) => outcome == Err::<T, ManagedSessionError>(
                    ManagedSessionError::Session(error),
                ) && final(self).health() == old(self).health().failing(
                    old(self).settings(),
                    error,
                    now,
                ),
            },
    {
        match result {
            Ok(value) => {
                self.record_success(elapsed, command);
                Ok(value)
            },
            Err(error) => {
                self.record_failure(&error, now);
                Err(ManagedSessionError::Session(error))
            },
        }
    }

    /// Takes over the result of a quick attempt. After silence the operation
    /// is repeated with what is left of the caller's time.
    pub fn settle_quick<T>(
        &mut self,
        result: Result<T, SessionError>,
        policy: RetryPolicy,
        attempt_elapsed: Duration,
        operation_elapsed: Duration,
        command: CommandCode,
        now: Duration,
    ) -> (step: QuickStep<T>)
        ensures
            final(self).device() == old(self).device(),
            final(self).settings() == old(self).settings(),
            match result {
                Ok(value) => {
                    &&& step == QuickStep::Finished(Ok::<T, ManagedSessionError>(value))
                    &&& final(self).health() == old(self).health().succeeding(
                        old(self).settings(),
                        attempt_elapsed,
                        command,
                    )
                },
                Err(error) => if is_silence(error) && operation_elapsed.nanos
                    < policy.total_timeout.nanos {
                    &&& step == QuickStep::<T>::Repeat(
                        patient_policy(
                            policy,
                            Duration {
                                nanos: (policy.total_timeout.nanos - operation_elapsed.nanos) as
                                    u128,
                            },
                        ),
                    )
                    &&& final(self).health() == (HealthState {
                        adaptive_fallbacks: counted(old(self).health().adaptive_fallbacks, 1),
                        ..old(self).health()
                    })
                } else {
                    &&& step == QuickStep::Finished(
                        Err::<T, ManagedSessionError>(ManagedSessionError::Session(error)),
                    )
                    &&& final(self).health() == old(self).health().failing(
                        old(self).settings(),
                        error,
                        now,
                    )
                },
            },
    {
        match result {
            Ok(value) => {
                self.record_success(attempt_elapsed, command);
                QuickStep::Finished(Ok(value))
            },
            Err(error) => {
                if is_response_timeout(&error) {
                    let remaining = policy.total_timeout.saturating_sub(operation_elapsed);
                    if !remaining.is_zero() {
                        self.state.adaptive_fallbacks = self.state.adaptive_fallbacks.saturating_add(
                            1,
                        );
                        return QuickStep::Repeat(
                            RetryPolicy {
                                transport_retries: policy.transport_retries.saturating_sub(1),
                                response_timeout: policy.response_timeout.shorter(remaining),
                                total_timeout: remaining,
                                ..policy
                            },
                        );
                    }
                }
                self.record_failure(&error, now);
                QuickStep::Finished(Err(ManagedSessionError::Session(error)))
            },
        }
    }

    fn record_success(&mut self, elapsed: Duration, command: CommandCode)
        ensures
            final(self).device() == old(self).device(),
            final(self).settings() == old(self).settings(),
            final(self).health() == old(self).health().succeeding(
                old(self).settings(),
                elapsed,
                command,
            ),
    {
        self.state.successes = self.state.successes.saturating_add(1);
        self.state.consecutive_transport_failures = 0;
        self.state.cooldown_until = None;
        if registered_read_only(command) && self.options.adaptive.is_some() {
            self.state.learned_response = Some(
                smoothed_duration(self.state.learned_response, elapsed),
            );
        }
    }

    fn record_failure(&mut self, error: &SessionError, now: Duration)
        ensures
            final(self).device() == old(self).device(),
            final(self).settings() == old(self).settings(),
            final(self).health() == old(self).health().failing(
                old(self).settings(),
                *error,
                now,
            ),
    {
        self.state.failures = self.state.failures.saturating_add(1);
        if is_transport_outage(error) {
            self.state.consecutive_transport_failures =
            self.state.consecutive_transport_failures.saturating_add(1);
            if self.state.consecutive_transport_failures >= self.options.failure_threshold.get()
                as u32 {
                let already_active = match self.state.cooldown_until {
                    Some(until) => until.nanos > now.nanos,
                    None => false,
                };
                if !already_active {
                    self.state.cooldown_activations = self.state.cooldown_activations.saturating_add(
                        1,
                    );
                }
                self.state.cooldown_until = deadline_after(now, self.options.cooldown);
            }
        } else {
            self.state.consecutive_transport_failures = 0;
            self.state.cooldown_until = None;
        }
    }
}

/// What the start of an operation does and says.
pub open spec fn begun(
    before: HealthState,
    options: DeviceHealthOptions,
    command: CommandCode,
    policy: RetryPolicy,
    now: Duration,
    bypass: bool,
    result: Result<ManagedStart, ManagedSessionError>,
    after: HealthState,
) -> bool {
    let called = before.called(now, bypass);
    if !bypass && before.remaining(now).nanos > 0 {
        &&& result == Err::<ManagedStart, ManagedSessionError>(
            ManagedSessionError::CoolingDown { remaining: before.remaining(now) },
        )
        &&& after == called
    } else {
        match called.quick_timeout(options, command, policy) {
            None => {
                &&& result == Ok::<ManagedStart, ManagedSessionError>(ManagedStart::Plain(policy))
                &&& after == called
            },
            Some(timeout) => {
                &&& result == Ok::<ManagedStart, ManagedSessionError>(
                    ManagedStart::Quick(quick_policy(policy, timeout)),
                )
                &&& after == (HealthState {
                    adaptive_attempts: counted(called.adaptive_attempts, 1),
                    ..called
                })
            },
        }
    }
}

impl DeviceSession {
    /// Wraps this identified session with validated health and adaptive timing settings.
    pub fn managed(self, options: DeviceHealthOptions) -> (result: Result<
        ManagedDeviceSession,
        DeviceHealthConfigError,
    >)
        ensures
            match options.violation() {
                Some(error) => result == Err::<ManagedDeviceSession, DeviceHealthConfigError>(
                    error,
                ),
                None => result matches Ok(managed) && managed.device() == self@
                    && managed.settings() == options && managed.health() == HealthState::unknown(),
            },
    {
        ManagedDeviceSession::new(self, options)
    }

    /// Wraps this identified session with conservative health defaults.
    pub fn managed_with_defaults(self) -> (managed: ManagedDeviceSession)
        ensures
            managed.device() == self@,
            managed.settings().failure_threshold.count() == 3,
            managed.settings().cooldown.nanos == 10_000_000_000,
            managed.settings().adaptive == Some(AdaptiveTiming::standard()),
            managed.health() == HealthState::unknown(),
    {
        ManagedDeviceSession::with_defaults(self)
    }
}

/// The learned response time moves a quarter of the way to each new sample,
/// and the first sample is taken as it is.
pub proof fn lemma_learned_time(previous: Duration, sample: Duration)
    requires
        previous.nanos <= u64::MAX,
        sample.nanos <= u64::MAX,
    ensures
        smoothed(None, sample) == sample,
        4 * smoothed(Some(previous), sample).nanos <= 3 * previous.nanos + sample.nanos < 4
            * smoothed(Some(previous), sample).nanos + 4,
{
}

/// A quick attempt waits for the learned time and the margin, but never less
/// than the minimum nor more than the maximum.
pub proof fn lemma_suggested_time(timing: AdaptiveTiming, learned: Duration)
    requires
        timing.violation() is None,
        learned.nanos + timing.margin.nanos <= crate::time::MAXIMUM_NANOSECONDS,
    ensures
        timing.minimum.nanos <= timing.suggested(learned).nanos <= timing.maximum.nanos,
        timing.minimum.nanos <= learned.nanos + timing.margin.nanos <= timing.maximum.nanos
            ==> timing.suggested(learned).nanos == learned.nanos + timing.margin.nanos,
        learned.nanos + timing.margin.nanos < timing.minimum.nanos ==> timing.suggested(learned)
            == timing.minimum,
        learned.nanos + timing.margin.nanos > timing.maximum.nanos ==> timing.suggested(learned)
            == timing.maximum,
{
}

/// A call is turned away exactly while the cooldown lasts, and told how long
/// that is; turning it away counts as a rejection. Without a cooldown, or once
/// it is over, calls go through.
pub proof fn lemma_cooldown_rejects(
    before: HealthState,
    options: DeviceHealthOptions,
    command: CommandCode,
    policy: RetryPolicy,
    now: Duration,
    result: Result<ManagedStart, ManagedSessionError>,
    after: HealthState,
)
    requires
        begun(before, options, command, policy, now, false, result, after),
    ensures
        result is Err <==> (before.cooldown_until matches Some(until) && now.nanos < until.nanos),
        before.cooldown_until matches Some(until) ==> now.nanos < until.nanos ==> result == Err::<
            ManagedStart,
            ManagedSessionError,
        >(
            ManagedSessionError::CoolingDown {
                remaining: Duration { nanos: (until.nanos - now.nanos) as u128 },
            },
        ) && (before.cooldown_rejections < u64::MAX ==> after.cooldown_rejections
            == before.cooldown_rejections + 1) && after.cooldown_until == before.cooldown_until,
        result is Ok ==> after.cooldown_rejections == before.cooldown_rejections
            && after.cooldown_until is None,
        after.successes == before.successes,
        after.failures == before.failures,
        after.consecutive_transport_failures == before.consecutive_transport_failures,
        after.learned_response == before.learned_response,
{
}

/// A probe is not held up by a cooldown and leaves it as it is.
pub proof fn lemma_probe_ignores_cooldown(
    before: HealthState,
    options: DeviceHealthOptions,
    command: CommandCode,
    policy: RetryPolicy,
    now: Duration,
    result: Result<ManagedStart, ManagedSessionError>,
    after: HealthState,
)
    requires
        begun(before, options, command, policy, now, true, result, after),
    ensures
        result is Ok,
        after.cooldown_until == before.cooldown_until,
        after.cooldown_rejections == before.cooldown_rejections,
{
}

/// A quick attempt is made exactly for a registered reading command that may
/// be repeated, with adaptive timing and a learned time, if it waits less than
/// the policy says. It is not repeated itself and counts as an adaptive
/// attempt; otherwise the policy is used as it is.
pub proof fn lemma_quick_attempt(
    before: HealthState,
    options: DeviceHealthOptions,
    command: CommandCode,
    policy: RetryPolicy,
    now: Duration,
    bypass: bool,
    start: ManagedStart,
    after: HealthState,
)
    requires
        begun(before, options, command, policy, now, bypass, Ok(start), after),
    ensures
        match start {
            ManagedStart::Quick(quick) => policy.transport_retries > 0 && registered_safety(command)
                == Some(OperationSafety::ReadOnly) && (options.adaptive matches Some(timing) && (
            before.learned_response matches Some(learned) && quick.response_timeout
                == timing.suggested(learned))) && quick.response_timeout.nanos
                < policy.response_timeout.nanos && quick.transport_retries == 0
                && quick.busy_retries == policy.busy_retries && quick.delayed_response_polls
                == policy.delayed_response_polls && quick.retry_delay == policy.retry_delay
                && quick.total_timeout == policy.total_timeout && (before.adaptive_attempts
                < u64::MAX ==> after.adaptive_attempts == before.adaptive_attempts + 1),
            ManagedStart::Plain(plain) => plain == policy && after.adaptive_attempts
                == before.adaptive_attempts && (policy.transport_retries == 0 || registered_safety(
                command,
            ) != Some(OperationSafety::ReadOnly) || options.adaptive is None
                || before.learned_response is None || options.adaptive->0.suggested(
                before.learned_response->0,
            ).nanos >= policy.response_timeout.nanos),
        },
{
}

/// What a success leaves behind: one more success, no run of failures and no
/// cooldown; the time is learned from registered reading commands only, and
/// only with adaptive timing.
pub proof fn lemma_success_is_recorded(
    state: HealthState,
    options: DeviceHealthOptions,
    elapsed: Duration,
    command: CommandCode,
)
    ensures
        ({
            let after = state.succeeding(options, elapsed, command);
            let learns = options.adaptive is Some && registered_safety(command) == Some(
                OperationSafety::ReadOnly,
            );
            &&& state.successes < u64::MAX ==> after.successes == state.successes + 1
            &&& after.failures == state.failures
            &&& after.cooldown_activations == state.cooldown_activations
            &&& !learns ==> after.learned_response == state.learned_response
            &&& learns && state.learned_response is None ==> after.learned_response == Some(
                elapsed,
            )
            &&& learns && state.learned_response is Some ==> after.learned_response is Some
        }),
{
}

/// What a failure leaves behind: one more failure. Silence, a send timeout, a
/// broken channel and a stopped runner extend the run of outages by one, and
/// from the threshold on the device is left alone until the cooldown has passed
/// from now; entering it counts once. Every other error shows that the device
/// is there: it ends the run and the cooldown.
pub proof fn lemma_failure_is_recorded(
    state: HealthState,
    options: DeviceHealthOptions,
    error: SessionError,
    now: Duration,
)
    requires
        now.nanos + options.cooldown.nanos <= crate::time::MAXIMUM_NANOSECONDS,
        state.consecutive_transport_failures < u32::MAX,
        state.failures < u64::MAX,
        state.cooldown_activations < u64::MAX,
    ensures
        ({
            let after = state.failing(options, error, now);
            let outage = error matches SessionError::Exchange(cause) && (cause is ResponseTimeout
                || cause is SendTimeout || cause is Channel || cause is RunnerStopped);
            let cooling = state.cooldown_until matches Some(until) && now.nanos < until.nanos;
            let run = state.consecutive_transport_failures + 1;
            &&& after.failures == state.failures + 1
            &&& after.successes == state.successes
            &&& after.learned_response == state.learned_response
            &&& !outage ==> after.consecutive_transport_failures == 0 && after.cooldown_until is None
                && after.cooldown_activations == state.cooldown_activations
            &&& outage ==> after.consecutive_transport_failures == run
            &&& outage && run < options.failure_threshold.count() ==> after.cooldown_until
                == state.cooldown_until && after.cooldown_activations == state.cooldown_activations
            &&& outage && run >= options.failure_threshold.count() ==> (
            after.cooldown_until matches Some(until) && until.nanos == now.nanos
                + options.cooldown.nanos) && after.cooldown_activations
                == state.cooldown_activations + if cooling {
                0int
            } else {
                1int
            }
        }),
{
}

/// After a silent quick attempt the rest of the time is left for the ordinary
/// attempts, of which the quick one has used one.
pub proof fn lemma_patient_attempts(policy: RetryPolicy, remaining: Duration)
    ensures
        ({
            let patient = patient_policy(policy, remaining);
            &&& policy.transport_retries > 0 ==> patient.transport_retries
                == policy.transport_retries - 1
            &&& policy.transport_retries == 0 ==> patient.transport_retries == 0
            &&& patient.total_timeout == remaining
            &&& patient.response_timeout.nanos <= remaining.nanos
            &&& patient.response_timeout == policy.response_timeout || patient.response_timeout
                == remaining
            &&& policy.response_timeout.nanos <= remaining.nanos ==> patient.response_timeout
                == policy.response_timeout
            &&& patient.busy_retries == policy.busy_retries
            &&& patient.delayed_response_polls == policy.delayed_response_polls
            &&& patient.retry_delay == policy.retry_delay
        }),
{
}

/// Learned timeouts are bounded by two times in their order, above zero and at
/// most a day; the margin and the pause of a failing device are at most a day
/// too.
pub proof fn lemma_health_settings(options: DeviceHealthOptions)
    ensures
        options.violation() is None <==> options.cooldown.nanos <= 24 * 3600 * 1_000_000_000 && (
        options.adaptive matches Some(adaptive) ==> 0 < adaptive.minimum.nanos
            <= adaptive.maximum.nanos <= 24 * 3600 * 1_000_000_000 && adaptive.margin.nanos <= 24
            * 3600 * 1_000_000_000),
        AdaptiveTiming::standard().violation() is None,
{
}

/// After a quick attempt only silence is followed by a patient one, only while
/// there is time left, and with no more than that time. An answer counts as a
/// success and any other end as a failure.
pub proof fn lemma_quick_attempt_ends<T>(
    session: &mut ManagedDeviceSession,
    result: Result<T, SessionError>,
    policy: RetryPolicy,
    attempt_elapsed: Duration,
    operation_elapsed: Duration,
    command: CommandCode,
    now: Duration,
    step: QuickStep<T>,
)
    requires
        call_ensures(
            ManagedDeviceSession::settle_quick::<T>,
            (session, result, policy, attempt_elapsed, operation_elapsed, command, now),
            step,
        ),
    ensures
        step is Repeat <==> (result matches Err(error) && is_silence(error)
            && operation_elapsed.nanos < policy.total_timeout.nanos),
        step matches QuickStep::Repeat(patient) ==> patient.total_timeout.nanos
            <= policy.total_timeout.nanos - operation_elapsed.nanos,
        result matches Ok(value) ==> step == QuickStep::Finished(
            Ok::<T, ManagedSessionError>(value),
        ) && final(session).health() == old(session).health().succeeding(
            old(session).settings(),
            attempt_elapsed,
            command,
        ),
        result is Err && !(step is Repeat) ==> final(session).health()
            == old(session).health().failing(old(session).settings(), result->Err_0, now),
        final(session).settings() == old(session).settings(),
{
}

} // verus!
