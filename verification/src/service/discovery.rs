//! Search for devices along a line profile.

use std::collections::BTreeMap;

use vstd::prelude::*;

use crate::bytes::copy_bytes;
use crate::nonzero::NonZeroU8;
use crate::operation::identity::identity_of;
use crate::operation::{
    CommandCode, DeviceIdentity, DeviceReply, IdentityView, Operation,
    OperationError, ReadDeviceIdentity, ReplyView, Request, RequestView,
};
use crate::ordered::{find, holds, lookup, put, size, KeySet};
use crate::profile::{
    AddressTiming, AddressTimings, LineProfile, ModuleWindow, ProfileError,
    MAXIMUM_PROFILE_DURATION,
};
use crate::service::burst::{address_number, number_of_address};
use crate::service::event::ExchangeError;
use crate::service::priority::Priority;
use crate::service::retry::{RetryPolicy, RetryPolicyError};
use crate::time::{capped, Duration};
use crate::wire::{Address, Master};

verus! {

/// Maximum number of short-address preamble hints retained for both masters.
pub const MAXIMUM_DISCOVERY_HINTS: usize = 128;

/// One identified device.
#[derive(Debug, Clone, PartialEq, Eq)]
pub struct DiscoveredDevice {
    /// Profile module through which the response was received.
    pub module: u16,
    /// Physical link address.
    pub address: Address,
    /// Command 0 response.
    pub identity: DeviceIdentity,
}

/// What a discovered device is, with the identification as its view.
#[verifier::ext_equal]
pub struct DiscoveredView {
    pub module: u16,
    pub address: Address,
    pub identity: IdentityView,
}

impl View for DiscoveredDevice {
    type V = DiscoveredView;

    open spec fn view(&self) -> DiscoveredView {
        DiscoveredView {
            module: self.module,
            address: self.address,
            identity: self.identity@,
        }
    }
}

/// Result of scanning a complete profile.
#[derive(Debug)]
pub struct DiscoveryReport {
    /// Number of address-level discovery requests, excluding internal retries.
    pub attempts: usize,
    /// Number of first probes that used a previously learned preamble count.
    pub hinted_attempts: usize,
    /// Number of hinted probes that timed out and used the conservative fallback.
    pub hint_fallbacks: usize,
    /// Number of completed discovery passes.
    pub passes_completed: u8,
    /// Discovered devices.
    pub devices: Vec<DiscoveredDevice>,
    /// Per-address errors other than an ordinary missing response.
    pub errors: Vec<(Address, ExchangeError)>,
}

/// What a report holds, with its lists as sequences.
#[verifier::ext_equal]
pub struct ReportView {
    pub attempts: int,
    pub hinted_attempts: int,
    pub hint_fallbacks: int,
    pub passes_completed: u8,
    pub devices: Seq<DiscoveredView>,
    pub errors: Seq<(Address, ExchangeError)>,
}

/// The views of a list of devices.
pub open spec fn device_views(devices: Seq<DiscoveredDevice>) -> Seq<DiscoveredView> {
    devices.map_values(|device: DiscoveredDevice| device@)
}

impl View for DiscoveryReport {
    type V = ReportView;

    open spec fn view(&self) -> ReportView {
        ReportView {
            attempts: self.attempts as int,
            hinted_attempts: self.hinted_attempts as int,
            hint_fallbacks: self.hint_fallbacks as int,
            passes_completed: self.passes_completed,
            devices: device_views(self.devices@),
            errors: self.errors@,
        }
    }
}

impl ReportView {
    /// A report before anything was sent.
    pub open spec fn empty() -> ReportView {
        ReportView {
            attempts: 0,
            hinted_attempts: 0,
            hint_fallbacks: 0,
            passes_completed: 0,
            devices: Seq::empty(),
            errors: Seq::empty(),
        }
    }

    /// Whether a device was identified at an address.
    pub open spec fn identified(self, address: Address) -> bool {
        exists|index: int|
            0 <= index < self.devices.len() && (#[trigger] self.devices[index]).address == address
    }
}

impl Default for DiscoveryReport {
    fn default() -> (report: Self)
        ensures
            report@ == ReportView::empty(),
    {
        let report = DiscoveryReport {
            attempts: 0,
            hinted_attempts: 0,
            hint_fallbacks: 0,
            passes_completed: 0,
            devices: Vec::new(),
            errors: Vec::new(),
        };
        assert(report@ =~= ReportView::empty());
        report
    }
}

/// Bounded, untrusted performance hints learned from earlier live identification.
///
/// A hint changes only the first preamble count. Discovery never treats it as
/// proof that a device exists and retries with the conservative profile value
/// when the hinted probe does not answer.
#[derive(Debug, Clone, PartialEq, Eq)]
pub struct DiscoveryHints {
    preambles: BTreeMap<u64, u8>,
}

impl View for DiscoveryHints {
    type V = Map<u64, u8>;

    closed spec fn view(&self) -> Map<u64, u8> {
        self.preambles@
    }
}

impl Default for DiscoveryHints {
    fn default() -> (hints: Self)
        ensures
            hints@ == Map::<u64, u8>::empty(),
    {
        DiscoveryHints::new()
    }
}

/// Why a hint is not taken, if it is not.
pub open spec fn hint_error(hints: Map<u64, u8>, address: Address, preambles: u8) -> Option<
    DiscoveryHintError,
> {
    if address is Unique {
        Some(DiscoveryHintError::UniqueAddress)
    } else if !(2 <= preambles <= 40) {
        Some(DiscoveryHintError::Preambles(preambles))
    } else if !hints.contains_key(address_number(address)) && hints.len()
        >= MAXIMUM_DISCOVERY_HINTS {
        Some(DiscoveryHintError::Limit(MAXIMUM_DISCOVERY_HINTS))
    } else {
        None
    }
}

impl DiscoveryHints {
    /// Creates an empty hint set.
    pub fn new() -> (hints: Self)
        ensures
            hints@ == Map::<u64, u8>::empty(),
    {
        DiscoveryHints { preambles: BTreeMap::new() }
    }

    /// Adds or replaces one validated short-address hint.
    pub fn insert(&mut self, address: Address, preambles: u8) -> (result: Result<
        (),
        DiscoveryHintError,
    >)
        ensures
            match hint_error(old(self)@, address, preambles) {
                Some(error) => result == Err::<(), DiscoveryHintError>(error) && final(self)@
                    == old(self)@,
                None => result == Ok::<(), DiscoveryHintError>(())
                    && final(self)@ == old(self)@.insert(address_number(address), preambles),
            },
    {
        if address.polling_node().is_none() {
            return Err(DiscoveryHintError::UniqueAddress);
        }
        if preambles < 2 || preambles > 40 {
            return Err(DiscoveryHintError::Preambles(preambles));
        }
        let key: u64 = number_of_address(address);
        if !holds(&self.preambles, key) && size(&self.preambles) >= MAXIMUM_DISCOVERY_HINTS {
            return Err(DiscoveryHintError::Limit(MAXIMUM_DISCOVERY_HINTS));
        }
        put(&mut self.preambles, key, preambles);
        Ok(())
    }

    /// Returns a validated hint for one short address.
    pub fn get(&self, address: Address) -> (preambles: Option<u8>)
        ensures
            preambles == lookup(self@, address_number(address)),
    {
        match find(&self.preambles, number_of_address(address)) {
            Some(preambles) => Some(*preambles),
            None => None,
        }
    }

    /// Returns the number of retained hints.
    pub fn len(&self) -> (count: usize)
        ensures
            count == self@.len(),
    {
        size(&self.preambles)
    }

    /// Reports whether no hints are retained.
    pub fn is_empty(&self) -> (empty: bool)
        ensures
            empty == (self@.len() == 0),
    {
        size(&self.preambles) == 0
    }
}

/// Invalid or resource-amplifying discovery hint.
#[derive(Debug, Clone, Copy, PartialEq, Eq, Structural)]
pub enum DiscoveryHintError {
    /// Discovery hints are meaningful only for short polling addresses.
    UniqueAddress,
    /// A hinted preamble count is outside the practical profile range.
    Preambles(u8),
    /// The hint set already covers every supported short address and master.
    Limit(usize),
}

/// Controls repeated discovery without changing the physical line profile.
#[derive(Debug, Clone, PartialEq, Eq)]
pub struct DiscoveryOptions {
    /// Maximum passes; addresses already identified are skipped in later passes.
    pub passes: NonZeroU8,
    /// Whom the discovery requests serve.
    pub priority: Priority,
    /// Retry counts and delay; response and total timeouts are adapted to the line profile.
    pub retry: RetryPolicy,
    /// Delay between incomplete passes; no delay is applied after all addresses respond.
    pub pass_delay: Duration,
    /// Untrusted first-probe preamble hints with conservative fallback.
    pub preamble_hints: DiscoveryHints,
}

impl Default for DiscoveryOptions {
    fn default() -> (options: Self)
        ensures
            options.passes.count() == 1,
            options.priority == Priority::Service,
            options.retry == RetryPolicy::standard(),
            options.pass_delay.nanos == 0,
            options.preamble_hints@ == Map::<u64, u8>::empty(),
    {
        DiscoveryOptions {
            passes: NonZeroU8::one(),
            priority: Priority::Service,
            retry: RetryPolicy::default(),
            pass_delay: Duration::zero(),
            preamble_hints: DiscoveryHints::new(),
        }
    }
}

impl DiscoveryOptions {
    /// Sets the maximum number of passes.
    pub fn with_passes(self, passes: NonZeroU8) -> (options: Self)
        ensures
            options == (DiscoveryOptions { passes, ..self }),
    {
        DiscoveryOptions { passes, ..self }
    }

    /// Sets whom every discovery probe serves.
    pub fn with_priority(self, priority: Priority) -> (options: Self)
        ensures
            options == (DiscoveryOptions { priority, ..self }),
    {
        DiscoveryOptions { priority, ..self }
    }

    /// Sets retry counts and transient-state pacing.
    pub fn with_retry(self, retry: RetryPolicy) -> (options: Self)
        ensures
            options == (DiscoveryOptions { retry, ..self }),
    {
        DiscoveryOptions { retry, ..self }
    }

    /// Sets the pause before retrying addresses missing from an earlier pass.
    pub fn with_pass_delay(self, pass_delay: Duration) -> (options: Self)
        ensures
            options == (DiscoveryOptions { pass_delay, ..self }),
    {
        DiscoveryOptions { pass_delay, ..self }
    }

    /// Supplies bounded hints learned from earlier live responses.
    pub fn with_preamble_hints(self, preamble_hints: DiscoveryHints) -> (options: Self)
        ensures
            options == (DiscoveryOptions { preamble_hints, ..self }),
    {
        DiscoveryOptions { preamble_hints, ..self }
    }
}

/// Invalid discovery or line settings.
#[derive(Debug, Clone, Copy, PartialEq, Eq)]
pub enum DiscoveryError {
    /// The physical line profile is invalid.
    Profile(ProfileError),
    /// Retry settings cannot make progress.
    Retry(RetryPolicyError),
    /// A pass delay is too large for a practical line profile.
    PassDelay(Duration),
}

/// The policy of a probe: its timeout fits the line, and its whole time fits
/// every attempt and wait that it may take.
pub open spec fn probe_policy(base: RetryPolicy, response_timeout: Duration, repeats: bool) -> RetryPolicy {
    let transport_retries = if repeats {
        base.transport_retries
    } else {
        0
    };
    let attempts = 1 + transport_retries + base.busy_retries + base.delayed_response_polls;
    let waits = base.busy_retries + base.delayed_response_polls;
    RetryPolicy {
        transport_retries,
        response_timeout,
        total_timeout: Duration {
            nanos: capped(
                capped(response_timeout.nanos * attempts) + capped(base.retry_delay.nanos * waits),
            ),
        },
        ..base
    }
}

fn discovery_retry(base: RetryPolicy, response_timeout: Duration, allow_transport_retries: bool) -> (policy:
    RetryPolicy)
    ensures
        policy == probe_policy(base, response_timeout, allow_transport_retries),
{
    let transport_retries: u8 = if allow_transport_retries {
        base.transport_retries
    } else {
        0
    };
    let transient_waits: u32 = base.busy_retries as u32 + base.delayed_response_polls as u32;
    let maximum_attempts: u32 = 1 + transport_retries as u32 + transient_waits;
    RetryPolicy {
        transport_retries,
        response_timeout,
        total_timeout: response_timeout.saturating_mul(maximum_attempts).saturating_add(
            base.retry_delay.saturating_mul(transient_waits),
        ),
        ..base
    }
}

/// An address that is searched, and the module that leads to it.
pub type Target = (u16, Address);

/// Whether an address is among targets.
pub open spec fn targeted(targets: Seq<Target>, address: Address) -> bool {
    exists|index: int| 0 <= index < targets.len() && (#[trigger] targets[index]).1 == address
}

/// The targets after the first local addresses of a module: those that exist
/// and were not there before.
pub open spec fn module_targets(
    before: Seq<Target>,
    module: ModuleWindow,
    locals: Seq<u8>,
    master: Master,
) -> Seq<Target>
    decreases locals.len(),
{
    if locals.len() == 0 {
        before
    } else {
        let found = module_targets(before, module, locals.drop_last(), master);
        match module.physical(locals.last()) {
            None => found,
            Some(node) => {
                let address = Address::Polling { node, master };
                if targeted(found, address) {
                    found
                } else {
                    found.push((module.module, address))
                }
            },
        }
    }
}

/// The local addresses of a module in ascending order.
pub open spec fn local_addresses(module: ModuleWindow) -> Seq<u8> {
    Seq::new(
        (if module.polling.first <= module.polling.last {
            module.polling.last - module.polling.first + 1
        } else {
            0
        }) as nat,
        |i: int| (module.polling.first + i) as u8,
    )
}

/// The targets of modules in the order in which they are scanned.
pub open spec fn line_targets(modules: Seq<ModuleWindow>, master: Master) -> Seq<Target>
    decreases modules.len(),
{
    if modules.len() == 0 {
        Seq::empty()
    } else {
        module_targets(
            line_targets(modules.drop_last(), master),
            modules.last(),
            local_addresses(modules.last()),
            master,
        )
    }
}

/// Where a search stands.
#[derive(Debug, Clone, Copy, PartialEq, Eq, Structural)]
pub enum Phase {
    /// The line has to settle.
    Settling,
    /// The next address is looked for.
    Scanning,
    /// The pause before the next address is over.
    Paused,
    /// The delay of the next address itself is over.
    Delayed,
    /// A hinted probe had no answer.
    Fallback,
    /// A probe is on its way; whether it was hinted.
    Waiting(bool),
    /// The search is over.
    Finished,
}

/// What a search does next.
#[derive(Debug)]
pub enum DiscoveryStep {
    /// Wait.
    Sleep(Duration),
    /// Send a request and report its result.
    Probe(ProbeRequest),
    /// Nothing any more.
    Finished,
}

/// A request of a search.
#[derive(Debug)]
pub struct ProbeRequest {
    /// The request.
    pub request: Request,
    /// Bytes sent immediately before it.
    pub prefix: Vec<u8>,
    /// Whom it serves.
    pub priority: Priority,
    /// Its retry limits.
    pub retry: RetryPolicy,
}

/// What a search does next, with the request as its view.
#[verifier::ext_equal]
pub enum StepView {
    Sleep(Duration),
    Probe { request: RequestView, prefix: Seq<u8>, priority: Priority, retry: RetryPolicy },
    Finished,
}

impl View for DiscoveryStep {
    type V = StepView;

    open spec fn view(&self) -> StepView {
        match self {
            DiscoveryStep::Sleep(span) => StepView::Sleep(*span),
            DiscoveryStep::Probe(probe) => StepView::Probe {
                request: probe.request@,
                prefix: probe.prefix@,
                priority: probe.priority,
                retry: probe.retry,
            },
            DiscoveryStep::Finished => StepView::Finished,
        }
    }
}

/// The fixed part of a search.
#[verifier::ext_equal]
pub struct PlanView {
    /// Addresses in scan order.
    pub targets: Seq<Target>,
    /// Delay before the first probe.
    pub settle: Duration,
    /// Timeout of a probe while nothing was found.
    pub first_response: Duration,
    /// Timeout of other probes.
    pub steady_response: Duration,
    /// Delay between addresses.
    pub interval: Duration,
    /// Preambles of a probe without a hint.
    pub conservative: u8,
    /// Number of passes.
    pub passes: u8,
    /// Whom the probes serve.
    pub priority: Priority,
    /// Retry limits.
    pub retry: RetryPolicy,
    /// Delay between passes.
    pub pass_delay: Duration,
    /// Hints.
    pub hints: Map<u64, u8>,
    /// Timing of single addresses.
    pub timings: Map<u32, AddressTiming>,
}

/// The timing of an address, where it has its own.
pub open spec fn own_timing(timings: Map<u32, AddressTiming>, address: Address) -> Option<
    AddressTiming,
> {
    match address {
        Address::Polling { node, .. } => lookup(timings, node as u32),
        Address::Unique { .. } => None,
    }
}

/// What a search holds.
#[verifier::ext_equal]
pub struct DiscoveryView {
    /// Fixed part.
    pub plan: PlanView,
    /// Report so far.
    pub report: ReportView,
    /// Bytes that go before the next probe.
    pub wake: Seq<u8>,
    /// Pass.
    pub pass: u8,
    /// Position in the pass.
    pub index: int,
    /// Whether the pass has sent a probe.
    pub probed: bool,
    /// Where the search stands.
    pub phase: Phase,
}

/// The first position at which no device was identified.
pub open spec fn next_open(targets: Seq<Target>, report: ReportView, index: int) -> int
    decreases targets.len() - index,
{
    if 0 <= index < targets.len() && report.identified(targets[index].1) {
        next_open(targets, report, index + 1)
    } else {
        index
    }
}

impl DiscoveryView {
    /// The hint for the current address, where it is used: in the first pass,
    /// and below the conservative count.
    pub open spec fn hint(self) -> Option<u8> {
        let preambles = lookup(self.plan.hints, address_number(self.plan.targets[self.index].1));
        if self.pass == 0 && preambles is Some && preambles->0 < self.plan.conservative {
            preambles
        } else {
            None
        }
    }

    /// How long the current address is waited for before its probe.
    pub open spec fn delay(self) -> Duration {
        match own_timing(self.plan.timings, self.plan.targets[self.index].1) {
            Some(timing) => timing.delay_before_probe,
            None => Duration { nanos: 0 },
        }
    }

    /// The timeout of a probe: the one of the address, else the first one
    /// while nothing was found and no hint is used, else the steady one.
    pub open spec fn timeout(self, hinted: bool) -> Duration {
        match own_timing(self.plan.timings, self.plan.targets[self.index].1) {
            Some(AddressTiming { response_timeout: Some(timeout), .. }) => timeout,
            _ => if hinted || self.report.devices.len() > 0 {
                self.plan.steady_response
            } else {
                self.plan.first_response
            },
        }
    }

    /// The search after it sent a probe.
    pub open spec fn probing(self, hint: Option<u8>) -> (DiscoveryView, StepView) {
        let address = self.plan.targets[self.index].1;
        let preambles = match hint {
            Some(preambles) => preambles,
            None => self.plan.conservative,
        };
        (
            DiscoveryView {
                report: ReportView {
                    attempts: self.report.attempts + 1,
                    hinted_attempts: if hint is Some {
                        self.report.hinted_attempts + 1
                    } else {
                        self.report.hinted_attempts
                    },
                    ..self.report
                },
                wake: Seq::empty(),
                phase: Phase::Waiting(hint is Some),
                ..self
            },
            StepView::Probe {
                request: RequestView {
                    preambles,
                    ..RequestView::plain(address, CommandCode(0), Seq::empty())
                },
                prefix: self.wake,
                priority: self.plan.priority,
                retry: probe_policy(self.plan.retry, self.timeout(hint is Some), hint is None),
            },
        )
    }

    /// What the search does next, and where it stands then.
    pub open spec fn advance(self) -> (DiscoveryView, StepView)
        decreases
                (if self.phase is Settling {
                    1int
                } else {
                    0int
                }),
                self.plan.passes - self.pass,
    {
        let open = next_open(self.plan.targets, self.report, self.index);
        let ended = DiscoveryView {
            report: ReportView { passes_completed: (self.pass + 1) as u8, ..self.report },
            index: open,
            ..self
        };
        match self.phase {
            Phase::Settling => {
                let settled = DiscoveryView { phase: Phase::Scanning, ..self };
                if self.plan.settle.nanos > 0 {
                    (settled, StepView::Sleep(self.plan.settle))
                } else {
                    settled.advance()
                }
            },
            Phase::Fallback => self.probing(None),
            Phase::Scanning | Phase::Paused | Phase::Delayed => if open
                >= self.plan.targets.len() {
                if self.report.devices.len() >= self.plan.targets.len() || self.pass + 1
                    >= self.plan.passes {
                    (DiscoveryView { phase: Phase::Finished, ..ended }, StepView::Finished)
                } else {
                    let next = DiscoveryView {
                        pass: (self.pass + 1) as u8,
                        index: 0,
                        probed: false,
                        phase: Phase::Scanning,
                        ..ended
                    };
                    if self.plan.pass_delay.nanos > 0 {
                        (next, StepView::Sleep(self.plan.pass_delay))
                    } else {
                        next.advance()
                    }
                }
            } else if self.probed && self.plan.interval.nanos > 0 && self.phase
                == Phase::Scanning {
                (
                    DiscoveryView { index: open, phase: Phase::Paused, ..self },
                    StepView::Sleep(self.plan.interval),
                )
            } else {
                let at = DiscoveryView { index: open, ..self };
                if at.delay().nanos > 0 && self.phase != Phase::Delayed {
                    (
                        DiscoveryView { phase: Phase::Delayed, ..at },
                        StepView::Sleep(at.delay()),
                    )
                } else {
                    let probed = DiscoveryView { probed: true, ..at };
                    probed.probing(probed.hint())
                }
            },
            Phase::Waiting(_) => (self, StepView::Finished),
            Phase::Finished => (self, StepView::Finished),
        }
    }

    /// The search with the current address left behind.
    pub open spec fn moving_on(self) -> DiscoveryView {
        DiscoveryView { index: self.index + 1, phase: Phase::Scanning, ..self }
    }

    /// The search after a probe failed.
    pub open spec fn after_error(self, error: ExchangeError) -> DiscoveryView {
        if error is ResponseTimeout || error is Deadline {
            if self.phase == Phase::Waiting(true) {
                DiscoveryView {
                    report: ReportView {
                        hint_fallbacks: self.report.hint_fallbacks + 1,
                        ..self.report
                    },
                    phase: Phase::Fallback,
                    ..self
                }
            } else {
                self.moving_on()
            }
        } else {
            DiscoveryView {
                report: ReportView {
                    errors: self.report.errors.push((self.plan.targets[self.index].1, error)),
                    ..self.report
                },
                ..self.moving_on()
            }
        }
    }

    /// The search after a probe was answered.
    pub open spec fn after_reply(self, reply: ReplyView) -> DiscoveryView {
        match identified_by(reply) {
            Ok(identity) => DiscoveryView {
                report: ReportView {
                    devices: self.report.devices.push(
                        DiscoveredView {
                            module: self.plan.targets[self.index].0,
                            address: self.plan.targets[self.index].1,
                            identity,
                        },
                    ),
                    ..self.report
                },
                ..self.moving_on()
            },
            Err(error) => DiscoveryView {
                report: ReportView {
                    errors: self.report.errors.push(
                        (self.plan.targets[self.index].1, ExchangeError::Operation(error)),
                    ),
                    ..self.report
                },
                ..self.moving_on()
            },
        }
    }

    /// The position exists where a probe is on its way, and the counters stay
    /// within what the passes allow.
    pub open spec fn sound(self) -> bool {
        &&& self.plan.targets.len() <= 64
        &&& 0 <= self.index <= self.plan.targets.len()
        &&& self.pass < self.plan.passes
        &&& (self.phase is Waiting || self.phase is Fallback) ==> self.index
            < self.plan.targets.len() && !self.report.identified(self.plan.targets[self.index].1)
        &&& 0 <= self.report.hinted_attempts <= self.report.attempts
        &&& 0 <= self.report.hint_fallbacks <= self.report.attempts
        &&& self.report.attempts <= 128 * self.pass + 2 * self.index + match self.phase {
            Phase::Fallback => 1int,
            Phase::Waiting(true) => 1int,
            Phase::Waiting(false) => 2int,
            _ => 0int,
        }
        &&& self.phase == Phase::Waiting(true) ==> self.report.hint_fallbacks
            < self.report.attempts
    }
}

/// The identification in a reply, or what is wrong with it.
pub open spec fn identified_by(reply: ReplyView) -> Result<IdentityView, OperationError> {
    match reply.status_error(CommandCode(0)) {
        Some(error) => Err(error),
        None => identity_of(reply.data),
    }
}

proof fn lemma_next_open(targets: Seq<Target>, report: ReportView, index: int)
    requires
        0 <= index <= targets.len(),
    ensures
        index <= next_open(targets, report, index) <= targets.len(),
        next_open(targets, report, index) < targets.len() ==> !report.identified(
            targets[next_open(targets, report, index)].1,
        ),
    decreases targets.len() - index,
{
    if index < targets.len() && report.identified(targets[index].1) {
        lemma_next_open(targets, report, index + 1);
    }
}

proof fn lemma_advance_is_sound(search: DiscoveryView)
    requires
        search.sound(),
        !(search.phase is Waiting),
    ensures
        search.advance().0.sound(),
    decreases
            (if search.phase is Settling {
                1int
            } else {
                0int
            }),
            search.plan.passes - search.pass,
{
    let open = next_open(search.plan.targets, search.report, search.index);
    lemma_next_open(search.plan.targets, search.report, search.index);
    match search.phase {
        Phase::Settling => {
            let settled = DiscoveryView { phase: Phase::Scanning, ..search };
            lemma_advance_is_sound(settled);
        },
        Phase::Scanning | Phase::Paused | Phase::Delayed => {
            if open >= search.plan.targets.len() && !(search.report.devices.len()
                >= search.plan.targets.len() || search.pass + 1 >= search.plan.passes) {
                let next = DiscoveryView {
                    report: ReportView {
                        passes_completed: (search.pass + 1) as u8,
                        ..search.report
                    },
                    pass: (search.pass + 1) as u8,
                    index: 0,
                    probed: false,
                    phase: Phase::Scanning,
                    ..search
                };
                lemma_advance_is_sound(next);
            }
        },
        _ => {},
    }
}

/// An address at which a device was identified is never probed again.
pub proof fn lemma_identified_address_is_skipped(search: DiscoveryView)
    requires
        search.sound(),
        !(search.phase is Waiting),
    ensures
        search.advance().1 matches StepView::Probe { request, .. } ==> !search.report.identified(
            request.address,
        ),
    decreases
            (if search.phase is Settling {
                1int
            } else {
                0int
            }),
            search.plan.passes - search.pass,
{
    let open = next_open(search.plan.targets, search.report, search.index);
    lemma_next_open(search.plan.targets, search.report, search.index);
    match search.phase {
        Phase::Settling => {
            lemma_identified_address_is_skipped(
                DiscoveryView { phase: Phase::Scanning, ..search },
            );
        },
        Phase::Scanning | Phase::Paused | Phase::Delayed => {
            if open >= search.plan.targets.len() && !(search.report.devices.len()
                >= search.plan.targets.len() || search.pass + 1 >= search.plan.passes) {
                let report = ReportView {
                    passes_completed: (search.pass + 1) as u8,
                    ..search.report
                };
                let next = DiscoveryView {
                    report,
                    pass: (search.pass + 1) as u8,
                    index: 0,
                    probed: false,
                    phase: Phase::Scanning,
                    ..search
                };
                lemma_identified_address_is_skipped(next);
                if let StepView::Probe { request, .. } = next.advance().1 {
                    assert(report.devices == search.report.devices);
                    if search.report.identified(request.address) {
                        let at = choose|at: int|
                            0 <= at < search.report.devices.len() && (
                            #[trigger] search.report.devices[at]).address == request.address;
                        assert(report.devices[at].address == request.address);
                    }
                }
            }
        },
        _ => {},
    }
}

/// A hint is not trusted: after silence the same address is probed again with
/// the conservative preamble count, and only then left behind.
pub proof fn lemma_silent_hint_falls_back(search: DiscoveryView, error: ExchangeError)
    requires
        search.sound(),
        search.phase == Phase::Waiting(true),
        error is ResponseTimeout || error is Deadline,
    ensures
        ({
            let silent = search.after_error(error);
            &&& silent.sound()
            &&& silent.report.errors == search.report.errors
            &&& silent.advance().1 matches StepView::Probe { request, .. } && request.address
                == search.plan.targets[search.index].1 && request.preambles
                == search.plan.conservative
            &&& silent.advance().0.after_error(error).index == search.index + 1
        }),
{
}

/// A search never sends more than two probes per address and pass, of at most
/// 64 addresses.
pub proof fn lemma_probes_are_bounded(search: DiscoveryView)
    requires
        search.sound(),
    ensures
        search.report.attempts <= 128 * search.plan.passes,
{
}

/// An address without a timing of its own is probed without a delay and with
/// the timeouts of the line.
pub proof fn lemma_other_addresses_keep_line_timing(search: DiscoveryView, hinted: bool)
    requires
        own_timing(search.plan.timings, search.plan.targets[search.index].1) is None,
    ensures
        search.delay().nanos == 0,
        search.timeout(hinted) == search.plan.steady_response || search.timeout(hinted)
            == search.plan.first_response,
{
}

/// The line is woken once: only the first probe carries the prefix.
pub proof fn lemma_wakes_once(search: DiscoveryView)
    requires
        !(search.phase is Waiting),
    ensures
        search.advance().1 is Probe ==> search.advance().0.wake.len() == 0,
        search.advance().1 matches StepView::Probe { prefix, .. } ==> prefix == search.wake,
    decreases
            (if search.phase is Settling {
                1int
            } else {
                0int
            }),
            search.plan.passes - search.pass,
{
    match search.phase {
        Phase::Settling => {
            lemma_wakes_once(DiscoveryView { phase: Phase::Scanning, ..search });
        },
        Phase::Scanning | Phase::Paused | Phase::Delayed => {
            let open = next_open(search.plan.targets, search.report, search.index);
            if open >= search.plan.targets.len() && !(search.report.devices.len()
                >= search.plan.targets.len() || search.pass + 1 >= search.plan.passes) {
                lemma_wakes_once(
                    DiscoveryView {
                        report: ReportView {
                            passes_completed: (search.pass + 1) as u8,
                            ..search.report
                        },
                        pass: (search.pass + 1) as u8,
                        index: 0,
                        probed: false,
                        phase: Phase::Scanning,
                        ..search
                    },
                );
            }
        },
        _ => {},
    }
}

/// A search for devices: what to send or wait for next, and what the answers mean.
#[derive(Debug)]
pub struct Discovery {
    targets: Vec<Target>,
    settle: Duration,
    first_response: Duration,
    steady_response: Duration,
    interval: Duration,
    conservative: u8,
    options: DiscoveryOptions,
    timings: AddressTimings,
    report: DiscoveryReport,
    wake: Vec<u8>,
    pass: u8,
    index: usize,
    probed: bool,
    phase: Phase,
}

impl View for Discovery {
    type V = DiscoveryView;

    closed spec fn view(&self) -> DiscoveryView {
        DiscoveryView {
            plan: PlanView {
                targets: self.targets@,
                settle: self.settle,
                first_response: self.first_response,
                steady_response: self.steady_response,
                interval: self.interval,
                conservative: self.conservative,
                passes: self.options.passes.count(),
                priority: self.options.priority,
                retry: self.options.retry,
                pass_delay: self.options.pass_delay,
                hints: self.options.preamble_hints@,
                timings: self.timings@,
            },
            report: self.report@,
            wake: self.wake@,
            pass: self.pass,
            index: self.index as int,
            probed: self.probed,
            phase: self.phase,
        }
    }
}

/// The search along a profile before anything was sent.
pub open spec fn fresh_search(
    profile: LineProfile,
    master: Master,
    options: DiscoveryOptions,
    timings: Map<u32, AddressTiming>,
) -> DiscoveryView {
    DiscoveryView {
        plan: PlanView {
            targets: line_targets(profile.modules@, master),
            settle: profile.timing.connect_settle,
            first_response: profile.timing.first_response,
            steady_response: profile.timing.steady_response,
            interval: profile.timing.scan_interval,
            conservative: profile.discovery_preambles,
            passes: options.passes.count(),
            priority: options.priority,
            retry: options.retry,
            pass_delay: options.pass_delay,
            hints: options.preamble_hints@,
            timings,
        },
        report: ReportView::empty(),
        wake: profile.wake_prefix@,
        pass: 0,
        index: 0,
        probed: false,
        phase: Phase::Settling,
    }
}

/// Prepares a scan of modules in order while applying confirmed address offsets.
pub fn discover_line(profile: &LineProfile, master: Master) -> (result: Result<
    Discovery,
    ProfileError,
>)
    ensures
        match profile.violation() {
            Some(error) => result == Err::<Discovery, ProfileError>(error),
            None => result matches Ok(search) && search@.sound() && exists|options:
                DiscoveryOptions|
                options.passes.count() == 1 && options.priority == Priority::Service
                    && options.retry == RetryPolicy::standard() && options.pass_delay.nanos == 0
                    && options.preamble_hints@ == Map::<u64, u8>::empty() && search@
                    == #[trigger] fresh_search(*profile, master, options, Map::empty()),
        },
{
    profile.validate()?;
    Ok(Discovery::begin(profile, master, DiscoveryOptions::default(), AddressTimings::new()))
}

/// What a search with explicit settings is, or why there is none.
pub open spec fn searches(
    result: Result<Discovery, DiscoveryError>,
    profile: LineProfile,
    master: Master,
    options: DiscoveryOptions,
    timings: Map<u32, AddressTiming>,
) -> bool {
    if profile.violation() is Some {
        result == Err::<Discovery, DiscoveryError>(DiscoveryError::Profile(profile.violation()->0))
    } else if options.retry.violation() is Some {
        result == Err::<Discovery, DiscoveryError>(
            DiscoveryError::Retry(options.retry.violation()->0),
        )
    } else if options.pass_delay.nanos > MAXIMUM_PROFILE_DURATION {
        result == Err::<Discovery, DiscoveryError>(DiscoveryError::PassDelay(options.pass_delay))
    } else {
        result matches Ok(search) && search@.sound() && search@ == fresh_search(
            profile,
            master,
            options,
            timings,
        )
    }
}

/// Prepares repeated scans of a line with explicit priority and retry settings.
pub fn discover_line_with_options(
    profile: &LineProfile,
    master: Master,
    options: DiscoveryOptions,
) -> (result: Result<Discovery, DiscoveryError>)
    ensures
        searches(result, *profile, master, options, Map::empty()),
{
    discover_line_with_address_timings(profile, master, options, AddressTimings::new())
}

/// Prepares repeated scans of a line in which single addresses have a timing
/// of their own.
pub fn discover_line_with_address_timings(
    profile: &LineProfile,
    master: Master,
    options: DiscoveryOptions,
    timings: AddressTimings,
) -> (result: Result<Discovery, DiscoveryError>)
    ensures
        searches(result, *profile, master, options, timings@),
{
    if let Err(error) = profile.validate() {
        return Err(DiscoveryError::Profile(error));
    }
    if let Err(error) = options.retry.validate() {
        return Err(DiscoveryError::Retry(error));
    }
    if options.pass_delay.nanos > MAXIMUM_PROFILE_DURATION {
        return Err(DiscoveryError::PassDelay(options.pass_delay));
    }
    Ok(Discovery::begin(profile, master, options, timings))
}

spec fn polled(targets: Seq<Target>, node: u8, master: Master) -> bool {
    targeted(targets, Address::Polling { node, master })
}

/// Whether seen nodes are exactly those of the targets, which are all different.
spec fn seen_nodes(seen: Map<u8, ()>, targets: Seq<Target>, master: Master) -> bool {
    &&& seen.dom().finite()
    &&& seen.len() == targets.len()
    &&& forall|node: u8| #[trigger]
        seen.contains_key(node) ==> node <= 63
    &&& forall|node: u8|
        seen.contains_key(node) <==> #[trigger] polled(targets, node, master)
}

proof fn lemma_few_nodes(nodes: Set<u8>, limit: int)
    requires
        nodes.finite(),
        0 <= limit <= 256,
        forall|node: u8| #[trigger] nodes.contains(node) ==> node < limit,
    ensures
        nodes.len() <= limit,
    decreases limit,
{
    if limit == 0 {
        if nodes.len() > 0 {
            let node = nodes.choose();
            assert(nodes.contains(node));
        }
    } else {
        let last = (limit - 1) as u8;
        let rest = nodes.remove(last);
        assert forall|node: u8| #[trigger] rest.contains(node) implies node < limit - 1 by {
            assert(nodes.contains(node));
        }
        lemma_few_nodes(rest, limit - 1);
    }
}

fn scan_targets(modules: &Vec<ModuleWindow>, master: Master) -> (targets: Vec<Target>)
    ensures
        targets@ == line_targets(modules@, master),
        targets@.len() <= 64,
{
    let mut targets: Vec<Target> = Vec::new();
    let mut seen: KeySet<u8> = BTreeMap::new();
    let mut index: usize = 0;
    assert(modules@.take(0).len() == 0);
    while index < modules.len()
        invariant
            index <= modules@.len(),
            targets@ == line_targets(modules@.take(index as int), master),
            seen_nodes(seen@, targets@, master),
        decreases modules@.len() - index,
    {
        let module: ModuleWindow = modules[index];
        let locals = module.polling.iter();
        let ghost before = targets@;
        let mut position: usize = 0;
        assert(locals@ =~= local_addresses(module));
        assert(locals@.take(0).len() == 0);
        while position < locals.len()
            invariant
                position <= locals@.len(),
                targets@ == module_targets(before, module, locals@.take(position as int), master),
                seen_nodes(seen@, targets@, master),
            decreases locals@.len() - position,
        {
            let local: u8 = locals[position];
            assert(locals@.take(position + 1).drop_last() =~= locals@.take(position as int));
            assert(locals@.take(position + 1).last() == local);
            if let Some(node) = LineProfile::shifted_address(module, local) {
                if let Ok(address) = Address::polling(node, master) {
                    let ghost found = targets@;
                    let ghost found_nodes = seen@;
                    assert(seen@.contains_key(node) <==> polled(found, node, master));
                    if !holds(&seen, node) {
                        put(&mut seen, node, ());
                        targets.push((module.module, address));
                        proof {
                            let now = targets@;
                            assert forall|other: u8|
                                seen@.contains_key(other) <==> #[trigger] polled(
                                    now,
                                    other,
                                    master,
                                ) by {
                                assert(polled(found, other, master) == found_nodes.contains_key(
                                    other,
                                ));
                                let wanted = Address::Polling { node: other, master };
                                if targeted(found, wanted) {
                                    let at = choose|at: int|
                                        0 <= at < found.len() && (#[trigger] found[at]).1
                                            == wanted;
                                    assert(now[at].1 == wanted);
                                }
                                assert(now[found.len() as int].1 == address);
                                if targeted(now, wanted) && other != node {
                                    let at = choose|at: int|
                                        0 <= at < now.len() && (#[trigger] now[at]).1 == wanted;
                                    assert(found[at].1 == wanted);
                                }
                            }
                        }
                    }
                }
            }
            position += 1;
        }
        index += 1;
        assert(locals@.take(position as int) =~= local_addresses(module));
        assert(modules@.take(index as int).drop_last() =~= modules@.take(index - 1));
    }
    assert(modules@.take(index as int) =~= modules@);
    proof {
        lemma_few_nodes(seen@.dom(), 64);
    }
    targets
}

impl Discovery {
    fn begin(
        profile: &LineProfile,
        master: Master,
        options: DiscoveryOptions,
        timings: AddressTimings,
    ) -> (search: Self)
        requires
            profile.violation() is None,
        ensures
            search@.sound(),
            search@ == fresh_search(*profile, master, options, timings@),
    {
        let targets = scan_targets(&profile.modules, master);
        let count: u8 = options.passes.get();
        let search = Discovery {
            targets,
            settle: profile.timing.connect_settle,
            first_response: profile.timing.first_response,
            steady_response: profile.timing.steady_response,
            interval: profile.timing.scan_interval,
            conservative: profile.discovery_preambles,
            options,
            timings,
            report: DiscoveryReport::default(),
            wake: copy_bytes(&profile.wake_prefix),
            pass: 0,
            index: 0,
            probed: false,
            phase: Phase::Settling,
        };
        assert(search@ =~= fresh_search(*profile, master, options, timings@));
        assert(count > 0);
        search
    }

    fn is_identified(&self, address: Address) -> (identified: bool)
        ensures
            identified == self@.report.identified(address),
    {
        let mut index: usize = 0;
        while index < self.report.devices.len()
            invariant
                index <= self.report.devices@.len(),
                forall|at: int|
                    0 <= at < index ==> (#[trigger] self.report.devices@[at]).address != address,
            decreases self.report.devices@.len() - index,
        {
            if self.report.devices[index].address == address {
                assert(self@.report.devices[index as int].address == address);
                return true;
            }
            index += 1;
        }
        assert(!self@.report.identified(address)) by {
            if self@.report.identified(address) {
                let at = choose|at: int|
                    0 <= at < self@.report.devices.len() && (
                    #[trigger] self@.report.devices[at]).address == address;
                assert(self.report.devices@[at].address == address);
            }
        }
        false
    }

    fn open_index(&self) -> (open: usize)
        requires
            self@.index <= self@.plan.targets.len(),
        ensures
            open == next_open(self@.plan.targets, self@.report, self@.index),
            open <= self@.plan.targets.len(),
    {
        let mut open: usize = self.index;
        while open < self.targets.len() && self.is_identified(self.targets[open].1)
            invariant
                open <= self.targets@.len(),
                next_open(self@.plan.targets, self@.report, self@.index) == next_open(
                    self@.plan.targets,
                    self@.report,
                    open as int,
                ),
            decreases self.targets@.len() - open,
        {
            open += 1;
        }
        open
    }

    fn probe(&mut self, hint: Option<u8>) -> (step: DiscoveryStep)
        requires
            old(self)@.index < old(self)@.plan.targets.len(),
            old(self)@.report.attempts < 100_000,
            0 <= old(self)@.report.hinted_attempts <= old(self)@.report.attempts,
        ensures
            (final(self)@, step@) == old(self)@.probing(hint),
    {
        let address = self.targets[self.index].1;
        let preambles: u8 = match hint {
            Some(preambles) => preambles,
            None => self.conservative,
        };
        if hint.is_some() {
            self.report.hinted_attempts = self.report.hinted_attempts + 1;
        }
        self.report.attempts = self.report.attempts + 1;
        let response_timeout = self.response_timeout(address, hint.is_some());
        let retry = discovery_retry(self.options.retry, response_timeout, hint.is_none());
        let request = Request::new(address, 0u8, Vec::new()).with_preambles(preambles);
        let mut prefix: Vec<u8> = Vec::new();
        std::mem::swap(&mut prefix, &mut self.wake);
        self.phase = Phase::Waiting(hint.is_some());
        let step = DiscoveryStep::Probe(
            ProbeRequest { request, prefix, priority: self.options.priority, retry },
        );
        assert(self@ =~= old(self)@.probing(hint).0);
        assert(step@ =~= old(self)@.probing(hint).1);
        step
    }

    fn address_timing(&self, address: Address) -> (timing: Option<AddressTiming>)
        ensures
            timing == own_timing(self@.plan.timings, address),
    {
        match address.polling_node() {
            Some(node) => self.timings.get(node),
            None => None,
        }
    }

    fn response_timeout(&self, address: Address, hinted: bool) -> (timeout: Duration)
        requires
            self@.index < self@.plan.targets.len(),
            address == self@.plan.targets[self@.index].1,
        ensures
            timeout == self@.timeout(hinted),
    {
        if let Some(timing) = self.address_timing(address) {
            if let Some(timeout) = timing.response_timeout {
                return timeout;
            }
        }
        if hinted || self.report.devices.len() > 0 {
            self.steady_response
        } else {
            self.first_response
        }
    }

    fn delay_before_probe(&self) -> (delay: Duration)
        requires
            self@.index < self@.plan.targets.len(),
        ensures
            delay == self@.delay(),
    {
        match self.address_timing(self.targets[self.index].1) {
            Some(timing) => timing.delay_before_probe,
            None => Duration::zero(),
        }
    }

    /// Tells what to do next: wait, send a probe, or nothing any more.
    pub fn next_step(&mut self) -> (step: DiscoveryStep)
        requires
            old(self)@.sound(),
            !(old(self)@.phase is Waiting),
        ensures
            final(self)@.sound(),
            (final(self)@, step@) == old(self)@.advance(),
        decreases
                (if old(self)@.phase is Settling {
                    1int
                } else {
                    0int
                }),
                old(self)@.plan.passes - old(self)@.pass,
    {
        let ghost before = self@;
        proof {
            lemma_advance_is_sound(before);
            lemma_next_open(before.plan.targets, before.report, before.index);
        }
        match self.phase {
            Phase::Settling => {
                self.phase = Phase::Scanning;
                if !self.settle.is_zero() {
                    return DiscoveryStep::Sleep(self.settle);
                }
                assert(self@ =~= (DiscoveryView { phase: Phase::Scanning, ..before }));
                self.next_step()
            },
            Phase::Fallback => self.probe(None),
            Phase::Scanning | Phase::Paused | Phase::Delayed => {
                let open: usize = self.open_index();
                self.index = open;
                if open >= self.targets.len() {
                    self.report.passes_completed = self.pass + 1;
                    let passes: u8 = self.options.passes.get();
                    if self.report.devices.len() >= self.targets.len() || self.pass + 1
                        >= passes {
                        self.phase = Phase::Finished;
                        return DiscoveryStep::Finished;
                    }
                    self.pass = self.pass + 1;
                    self.index = 0;
                    self.probed = false;
                    self.phase = Phase::Scanning;
                    if !self.options.pass_delay.is_zero() {
                        return DiscoveryStep::Sleep(self.options.pass_delay);
                    }
                    return self.next_step();
                }
                if self.probed && !self.interval.is_zero() && self.phase == Phase::Scanning {
                    self.phase = Phase::Paused;
                    return DiscoveryStep::Sleep(self.interval);
                }
                let delay = self.delay_before_probe();
                if !delay.is_zero() && self.phase != Phase::Delayed {
                    self.phase = Phase::Delayed;
                    return DiscoveryStep::Sleep(delay);
                }
                self.probed = true;
                let hint = self.usable_hint();
                self.probe(hint)
            },
            Phase::Waiting(_) => DiscoveryStep::Finished,
            Phase::Finished => DiscoveryStep::Finished,
        }
    }

    fn usable_hint(&self) -> (hint: Option<u8>)
        requires
            self@.index < self@.plan.targets.len(),
        ensures
            hint == self@.hint(),
    {
        if self.pass != 0 {
            return None;
        }
        match self.options.preamble_hints.get(self.targets[self.index].1) {
            Some(preambles) => if preambles < self.conservative {
                Some(preambles)
            } else {
                None
            },
            None => None,
        }
    }

    /// Takes over the result of a probe.
    pub fn answer(&mut self, result: Result<DeviceReply, ExchangeError>)
        requires
            old(self)@.sound(),
            old(self)@.phase is Waiting,
        ensures
            final(self)@.sound(),
            final(self)@ == match result {
                Ok(reply) => old(self)@.after_reply(reply@),
                Err(error) => old(self)@.after_error(error),
            },
    {
        let ghost before = self@;
        let (module, address) = self.targets[self.index];
        match result {
            Ok(reply) => {
                match ReadDeviceIdentity.decode_reply(&reply) {
                    Ok(identity) => {
                        let device = DiscoveredDevice { module, address, identity };
                        let ghost view = device@;
                        self.report.devices.push(device);
                        assert(self@.report.devices =~= before.report.devices.push(view));
                    },
                    Err(error) => {
                        self.report.errors.push((address, ExchangeError::Operation(error)));
                    },
                }
                self.index = self.index + 1;
                self.phase = Phase::Scanning;
                assert(self@ =~= before.after_reply(reply@));
            },
            Err(error) => {
                let silent = match &error {
                    ExchangeError::ResponseTimeout => true,
                    ExchangeError::Deadline => true,
                    _ => false,
                };
                let ghost found = error;
                if silent && self.phase == Phase::Waiting(true) {
                    self.report.hint_fallbacks = self.report.hint_fallbacks + 1;
                    self.phase = Phase::Fallback;
                } else {
                    if !silent {
                        self.report.errors.push((address, error));
                    }
                    self.index = self.index + 1;
                    self.phase = Phase::Scanning;
                }
                assert(self@ =~= before.after_error(found));
            },
        }
    }

    /// Returns the report so far.
    pub fn report(&self) -> (report: &DiscoveryReport)
        ensures
            report@ == self@.report,
    {
        &self.report
    }

    /// Gives the report away.
    pub fn into_report(self) -> (report: DiscoveryReport)
        ensures
            report@ == self@.report,
    {
        self.report
    }
}

} // verus!
