//! Validated settings for a physical link and transparent gateway.

use std::collections::BTreeMap;

use vstd::prelude::*;

use crate::bytes::copy_bytes;
use crate::ordered::{ascending_keys, find, keys_of, put, size};
use crate::strings::{blank, byte_length, is_blank, text_bytes};
use crate::time::Duration;

verus! {

/// Largest retained link-profile name.
pub const MAXIMUM_PROFILE_NAME_BYTES: usize = 256;

/// Largest possible number of non-overlapping translated short-address modules.
pub const MAXIMUM_PROFILE_MODULES: usize = 64;

/// Largest accepted individual link-profile duration, in nanoseconds.
pub const MAXIMUM_PROFILE_DURATION: u128 = 86_400_000_000_000;

/// Largest gateway wake-up prefix retained by a profile.
pub const MAXIMUM_PROFILE_WAKE_PREFIX: usize = 256;

/// Largest possible number of per-address timing overrides on one HART line.
pub const MAXIMUM_ADDRESS_TIMING_OVERRIDES: usize = 64;

/// Short-address range for one discovery segment.
#[derive(Debug, Clone, Copy, PartialEq, Eq, Structural)]
pub struct PollingWindow {
    /// Inclusive first address.
    pub first: u8,
    /// Inclusive last address.
    pub last: u8,
}

impl PollingWindow {
    /// A range within `0..=63`.
    pub open spec fn valid(self) -> bool {
        self.first <= self.last <= 63
    }

    /// Creates a validated range within `0..=63`.
    pub fn new(first: u8, last: u8) -> (result: Result<Self, ProfileError>)
        ensures
            result == if first <= last <= 63 {
                Ok(PollingWindow { first, last })
            } else {
                Err(ProfileError::PollingWindow { first, last })
            },
    {
        if first > last || last > 63 {
            return Err(ProfileError::PollingWindow { first, last });
        }
        Ok(PollingWindow { first, last })
    }

    /// Returns the addresses in the range, in ascending order.
    pub fn iter(self) -> (addresses: Vec<u8>)
        ensures
            addresses@ == Seq::new(
                (if self.first <= self.last {
                    self.last - self.first + 1
                } else {
                    0
                }) as nat,
                |i: int| (self.first + i) as u8,
            ),
    {
        let mut addresses: Vec<u8> = Vec::new();
        let mut next: u16 = self.first as u16;
        while next <= self.last as u16
            invariant
                self.first <= next,
                next <= 256,
                self.first <= self.last ==> next <= self.last + 1,
                self.first > self.last ==> next == self.first,
                addresses@ == Seq::new((next - self.first) as nat, |i: int| (self.first + i) as u8),
            decreases 256 - next,
        {
            addresses.push(next as u8);
            next += 1;
            assert(addresses@ =~= Seq::new(
                (next - self.first) as nat,
                |i: int| (self.first + i) as u8,
            ));
        }
        addresses
    }
}

/// Address window of one physical multiplexer module.
#[derive(Debug, Clone, Copy, PartialEq, Eq, Structural)]
pub struct ModuleWindow {
    /// Module number used in reports.
    pub module: u16,
    /// Addresses accessible through the module.
    pub polling: PollingWindow,
    /// Offset applied by the gateway to local addresses.
    pub address_shift: i8,
}

impl ModuleWindow {
    /// The physical address of a local one, where there is one.
    pub open spec fn physical(self, local: u8) -> Option<u8> {
        let shifted = local + self.address_shift;
        if self.polling.first <= local <= self.polling.last && 0 <= shifted <= 63 {
            Some(shifted as u8)
        } else {
            None
        }
    }

    /// Whether some local address of the module is the given physical one.
    pub open spec fn reaches(self, address: int) -> bool {
        &&& 0 <= address <= 63
        &&& self.polling.first <= address - self.address_shift <= self.polling.last
    }

    /// Creates an unshifted module window.
    pub fn new(module: u16, polling: PollingWindow) -> (window: Self)
        ensures
            window == (ModuleWindow { module, polling, address_shift: 0 }),
    {
        ModuleWindow { module, polling, address_shift: 0 }
    }

    /// Applies a confirmed gateway address translation.
    pub fn with_address_shift(self, address_shift: i8) -> (window: Self)
        ensures
            window == (ModuleWindow { address_shift, ..self }),
    {
        ModuleWindow { address_shift, ..self }
    }
}

/// A module reaches an address exactly where one of its local addresses is
/// translated to it.
pub proof fn lemma_reaches_is_translation(module: ModuleWindow, address: u8)
    ensures
        module.reaches(address as int) <==> exists|local: u8|
            #[trigger] module.physical(local) == Some(address),
{
    if module.reaches(address as int) {
        let local = (address - module.address_shift) as u8;
        assert(module.physical(local) == Some(address));
    }
}

/// Timing policy for initial and subsequent requests.
#[derive(Debug, Clone, Copy, PartialEq, Eq, Structural)]
pub struct TimingProfile {
    /// Delay after opening a TCP or serial channel.
    pub connect_settle: Duration,
    /// Timeout for the first device response.
    pub first_response: Duration,
    /// Timeout after successful identification.
    pub steady_response: Duration,
    /// Delay between addresses during discovery.
    pub scan_interval: Duration,
}

impl Default for TimingProfile {
    fn default() -> (timing: Self)
        ensures
            timing.connect_settle.nanos == 500_000_000,
            timing.first_response.nanos == 5_000_000_000,
            timing.steady_response.nanos == 1_600_000_000,
            timing.scan_interval.nanos == 100_000_000,
    {
        TimingProfile {
            connect_settle: Duration::from_millis(500),
            first_response: Duration::from_secs(5),
            steady_response: Duration::from_millis(1600),
            scan_interval: Duration::from_millis(100),
        }
    }
}

/// A span beyond the longest that a profile may hold.
pub open spec fn too_long(span: Duration) -> bool {
    span.nanos > MAXIMUM_PROFILE_DURATION
}

impl TimingProfile {
    /// What is wrong with the timing, if anything.
    pub open spec fn violation(self) -> Option<ProfileError> {
        if self.first_response.nanos == 0 || self.steady_response.nanos == 0 {
            Some(ProfileError::ZeroTimeout)
        } else if too_long(self.connect_settle) {
            Some(ProfileError::Duration(self.connect_settle))
        } else if too_long(self.first_response) {
            Some(ProfileError::Duration(self.first_response))
        } else if too_long(self.steady_response) {
            Some(ProfileError::Duration(self.steady_response))
        } else if too_long(self.scan_interval) {
            Some(ProfileError::Duration(self.scan_interval))
        } else {
            None
        }
    }

    /// Validates response progress and rejects impractically large durations.
    pub fn validate(self) -> (result: Result<(), ProfileError>)
        ensures
            result == match self.violation() {
                Some(error) => Err(error),
                None => Ok(()),
            },
    {
        if self.first_response.is_zero() || self.steady_response.is_zero() {
            return Err(ProfileError::ZeroTimeout);
        }
        if self.connect_settle.nanos > MAXIMUM_PROFILE_DURATION {
            return Err(ProfileError::Duration(self.connect_settle));
        }
        if self.first_response.nanos > MAXIMUM_PROFILE_DURATION {
            return Err(ProfileError::Duration(self.first_response));
        }
        if self.steady_response.nanos > MAXIMUM_PROFILE_DURATION {
            return Err(ProfileError::Duration(self.steady_response));
        }
        if self.scan_interval.nanos > MAXIMUM_PROFILE_DURATION {
            return Err(ProfileError::Duration(self.scan_interval));
        }
        Ok(())
    }

    /// Sets the delay after transport connection.
    pub fn with_connect_settle(self, duration: Duration) -> (timing: Self)
        ensures
            timing == (TimingProfile { connect_settle: duration, ..self }),
    {
        TimingProfile { connect_settle: duration, ..self }
    }

    /// Sets the response timeout used before any device is identified.
    pub fn with_first_response(self, duration: Duration) -> (timing: Self)
        ensures
            timing == (TimingProfile { first_response: duration, ..self }),
    {
        TimingProfile { first_response: duration, ..self }
    }

    /// Sets the response timeout used after the line has responded.
    pub fn with_steady_response(self, duration: Duration) -> (timing: Self)
        ensures
            timing == (TimingProfile { steady_response: duration, ..self }),
    {
        TimingProfile { steady_response: duration, ..self }
    }

    /// Sets the pacing delay between discovery probes.
    pub fn with_scan_interval(self, duration: Duration) -> (timing: Self)
        ensures
            timing == (TimingProfile { scan_interval: duration, ..self }),
    {
        TimingProfile { scan_interval: duration, ..self }
    }
}

/// Optional discovery timing changes for one physical polling address.
///
/// The delay is applied before probing this address on every discovery pass.
/// A response timeout, when present, replaces both the initial and steady
/// line-wide response timeout only for this address.
#[derive(Debug, Clone, Copy, PartialEq, Eq, Structural)]
pub struct AddressTiming {
    /// Additional delay before transmitting Command 0 to this address.
    pub delay_before_probe: Duration,
    /// Address-specific response timeout, or the line-wide timeout when absent.
    pub response_timeout: Option<Duration>,
}

impl Default for AddressTiming {
    fn default() -> (timing: Self)
        ensures
            timing.delay_before_probe.nanos == 0,
            timing.response_timeout is None,
    {
        AddressTiming::new()
    }
}

impl AddressTiming {
    /// What is wrong with the override, if anything.
    pub open spec fn violation(self) -> Option<AddressTimingError> {
        if self.response_timeout matches Some(timeout) && timeout.nanos == 0 {
            Some(AddressTimingError::ZeroTimeout)
        } else if too_long(self.delay_before_probe) {
            Some(AddressTimingError::Duration(self.delay_before_probe))
        } else {
            match self.response_timeout {
                Some(timeout) => if too_long(timeout) {
                    Some(AddressTimingError::Duration(timeout))
                } else {
                    None
                },
                None => None,
            }
        }
    }

    /// Creates an override that initially leaves the line-wide timing unchanged.
    pub fn new() -> (timing: Self)
        ensures
            timing.delay_before_probe.nanos == 0,
            timing.response_timeout is None,
    {
        AddressTiming { delay_before_probe: Duration::zero(), response_timeout: None }
    }

    /// Sets an additional delay before probing the address.
    pub fn with_delay_before_probe(self, delay: Duration) -> (timing: Self)
        ensures
            timing == (AddressTiming { delay_before_probe: delay, ..self }),
    {
        AddressTiming { delay_before_probe: delay, ..self }
    }

    /// Replaces the response timeout for this address.
    pub fn with_response_timeout(self, timeout: Duration) -> (timing: Self)
        ensures
            timing == (AddressTiming { response_timeout: Some(timeout), ..self }),
    {
        AddressTiming { response_timeout: Some(timeout), ..self }
    }

    fn validate(self) -> (result: Result<(), AddressTimingError>)
        ensures
            result == match self.violation() {
                Some(error) => Err(error),
                None => Ok(()),
            },
    {
        if let Some(timeout) = self.response_timeout {
            if timeout.is_zero() {
                return Err(AddressTimingError::ZeroTimeout);
            }
        }
        if self.delay_before_probe.nanos > MAXIMUM_PROFILE_DURATION {
            return Err(AddressTimingError::Duration(self.delay_before_probe));
        }
        if let Some(timeout) = self.response_timeout {
            if timeout.nanos > MAXIMUM_PROFILE_DURATION {
                return Err(AddressTimingError::Duration(timeout));
            }
        }
        Ok(())
    }
}

/// Invalid per-address discovery timing.
#[derive(Debug, Clone, Copy, PartialEq, Eq, Structural)]
pub enum AddressTimingError {
    /// The polling address is outside the short-address range.
    PollingAddress(u8),
    /// A configured response timeout is zero.
    ZeroTimeout,
    /// A timing value is too large for a bounded discovery campaign.
    Duration(Duration),
}

/// Validated per-address discovery timing overrides.
///
/// Keys are physical polling addresses after applying a module address shift.
/// Missing addresses continue to use [`TimingProfile`].
#[derive(Debug, Clone, PartialEq, Eq)]
pub struct AddressTimings {
    values: BTreeMap<u32, AddressTiming>,
}

impl View for AddressTimings {
    type V = Map<u32, AddressTiming>;

    closed spec fn view(&self) -> Map<u32, AddressTiming> {
        self.values@
    }
}

impl Default for AddressTimings {
    fn default() -> (timings: Self)
        ensures
            timings@ == Map::<u32, AddressTiming>::empty(),
    {
        AddressTimings::new()
    }
}

/// What keeps an override from being added, if anything.
pub open spec fn override_violation(polling_address: u8, timing: AddressTiming) -> Option<
    AddressTimingError,
> {
    if polling_address >= MAXIMUM_ADDRESS_TIMING_OVERRIDES {
        Some(AddressTimingError::PollingAddress(polling_address))
    } else {
        timing.violation()
    }
}

impl AddressTimings {
    /// Every override is for a short address and usable.
    pub open spec fn well_formed(&self) -> bool {
        forall|address: u32| #[trigger]
            self@.contains_key(address) ==> address <= 63 && self@[address].violation() is None
    }

    /// Creates an empty set that does not change discovery timing.
    pub fn new() -> (timings: Self)
        ensures
            timings@ == Map::<u32, AddressTiming>::empty(),
            timings.well_formed(),
    {
        AddressTimings { values: BTreeMap::new() }
    }

    /// Adds or replaces timing for one physical polling address.
    pub fn insert(&mut self, polling_address: u8, timing: AddressTiming) -> (result: Result<
        (),
        AddressTimingError,
    >)
        ensures
            match override_violation(polling_address, timing) {
                Some(error) => result == Err::<(), AddressTimingError>(error) && final(self)@
                    == old(self)@,
                None => result is Ok && final(self)@ == old(self)@.insert(
                    polling_address as u32,
                    timing,
                ),
            },
            old(self).well_formed() ==> final(self).well_formed(),
    {
        if polling_address as usize >= MAXIMUM_ADDRESS_TIMING_OVERRIDES {
            return Err(AddressTimingError::PollingAddress(polling_address));
        }
        timing.validate()?;
        put(&mut self.values, polling_address as u32, timing);
        Ok(())
    }

    /// Adds one override and returns the updated set.
    pub fn with(self, polling_address: u8, timing: AddressTiming) -> (result: Result<
        Self,
        AddressTimingError,
    >)
        ensures
            match override_violation(polling_address, timing) {
                Some(error) => result == Err::<Self, AddressTimingError>(error),
                None => result matches Ok(timings) && timings@ == self@.insert(
                    polling_address as u32,
                    timing,
                ) && (self.well_formed() ==> timings.well_formed()),
            },
    {
        let mut timings = self;
        timings.insert(polling_address, timing)?;
        Ok(timings)
    }

    /// Returns timing configured for one physical polling address.
    pub fn get(&self, polling_address: u8) -> (timing: Option<AddressTiming>)
        ensures
            timing == if self@.contains_key(polling_address as u32) {
                Some(self@[polling_address as u32])
            } else {
                None
            },
    {
        let key: u32 = polling_address as u32;
        match find(&self.values, key) {
            Some(timing) => Some(*timing),
            None => None,
        }
    }

    /// Returns physical polling addresses and their timing overrides, in
    /// ascending order of the addresses.
    pub fn iter(&self) -> (entries: Vec<(u8, AddressTiming)>)
        requires
            self.well_formed(),
        ensures
            entries@.len() == self@.len(),
            forall|i: int, j: int|
                0 <= i < j < entries@.len() ==> (#[trigger] entries@[i]).0 < (
                #[trigger] entries@[j]).0,
            forall|i: int|
                0 <= i < entries@.len() ==> self@.contains_key((#[trigger] entries@[i]).0 as u32)
                    && self@[entries@[i].0 as u32] == entries@[i].1,
    {
        let keys = keys_of(&self.values);
        let mut entries: Vec<(u8, AddressTiming)> = Vec::new();
        let mut index: usize = 0;
        while index < keys.len()
            invariant
                index <= keys@.len(),
                self.well_formed(),
                ascending_keys(keys@, self@),
                entries@.len() == index,
                forall|i: int|
                    0 <= i < index ==> (#[trigger] entries@[i]).0 == keys@[i] && self@[keys@[i]]
                        == entries@[i].1,
            decreases keys@.len() - index,
        {
            let key: u32 = keys[index];
            assert(self@.contains_key(keys@[index as int]));
            if let Some(timing) = find(&self.values, key) {
                entries.push((key as u8, *timing));
            }
            index += 1;
        }
        entries
    }

    /// Returns the number of overridden polling addresses.
    pub fn len(&self) -> (count: usize)
        ensures
            count == self@.len(),
    {
        size(&self.values)
    }

    /// Reports whether line-wide timing is used for every address.
    pub fn is_empty(&self) -> (empty: bool)
        ensures
            empty == (self@.len() == 0),
    {
        self.len() == 0
    }
}

/// Complete profile of one physical link.
#[derive(Debug)]
pub struct LineProfile {
    /// Local link name.
    pub name: String,
    /// Timing settings.
    pub timing: TimingProfile,
    /// Order in which address windows are scanned.
    pub modules: Vec<ModuleWindow>,
    /// Preamble count used before Command 0 succeeds.
    pub discovery_preambles: u8,
    /// Additional wake-up bytes sent to a transparent gateway.
    pub wake_prefix: Vec<u8>,
}

/// The last of the first `count` modules that reaches an address.
pub open spec fn owner(modules: Seq<ModuleWindow>, count: int, address: int) -> Option<u16>
    decreases count,
{
    if count <= 0 {
        None
    } else if modules[count - 1].reaches(address) {
        Some(modules[count - 1].module)
    } else {
        owner(modules, count - 1, address)
    }
}

/// The first address at or after `from` that a module shares with an earlier one.
pub open spec fn overlap(modules: Seq<ModuleWindow>, index: int, from: int) -> Option<
    (u8, u16),
>
    decreases 64 - from,
{
    if from > 63 {
        None
    } else if modules[index].reaches(from) && owner(modules, index, from) is Some {
        Some((from as u8, owner(modules, index, from)->0))
    } else {
        overlap(modules, index, from + 1)
    }
}

/// What is wrong with one module among the others, if anything.
pub open spec fn module_violation(modules: Seq<ModuleWindow>, index: int) -> Option<ProfileError> {
    let current = modules[index];
    if !current.polling.valid() {
        Some(
            ProfileError::PollingWindow {
                first: current.polling.first,
                last: current.polling.last,
            },
        )
    } else if exists|later: int|
        index < later < modules.len() && (#[trigger] modules[later]).module == current.module {
        Some(ProfileError::DuplicateModule(current.module))
    } else {
        match overlap(modules, index, 0) {
            Some((address, first_module)) => Some(
                ProfileError::AddressOverlap {
                    address,
                    first_module,
                    second_module: current.module,
                },
            ),
            None => if forall|address: int| !#[trigger] current.reaches(address) {
                Some(ProfileError::UnreachableModule(current.module))
            } else {
                None
            },
        }
    }
}

/// What is wrong with the modules from a position on, if anything.
pub open spec fn modules_violation(modules: Seq<ModuleWindow>, from: int) -> Option<ProfileError>
    decreases modules.len() - from,
{
    if from >= modules.len() {
        None
    } else {
        match module_violation(modules, from) {
            Some(error) => Some(error),
            None => modules_violation(modules, from + 1),
        }
    }
}

/// The modules of a valid profile have distinct numbers, and no two of them
/// reach the same physical address.
pub proof fn lemma_valid_modules_are_disjoint(
    modules: Seq<ModuleWindow>,
    first: int,
    second: int,
    address: int,
)
    requires
        modules_violation(modules, 0) is None,
        0 <= first < second < modules.len(),
    ensures
        modules[first].module != modules[second].module,
        !(modules[first].reaches(address) && modules[second].reaches(address)),
{
    lemma_no_module_violation(modules, 0, first);
    lemma_no_module_violation(modules, 0, second);
    if modules[first].reaches(address) && modules[second].reaches(address) {
        lemma_owner_exists(modules, second, first, address);
        lemma_no_overlap(modules, second, 0, address);
    }
}

proof fn lemma_no_module_violation(modules: Seq<ModuleWindow>, from: int, index: int)
    requires
        0 <= from <= index < modules.len(),
        modules_violation(modules, from) is None,
    ensures
        module_violation(modules, index) is None,
    decreases index - from,
{
    if from < index {
        lemma_no_module_violation(modules, from + 1, index);
    }
}

proof fn lemma_owner_exists(modules: Seq<ModuleWindow>, count: int, index: int, address: int)
    requires
        0 <= index < count,
        modules[index].reaches(address),
    ensures
        owner(modules, count, address) is Some,
    decreases count,
{
    if index < count - 1 {
        lemma_owner_exists(modules, count - 1, index, address);
    }
}

proof fn lemma_no_overlap(modules: Seq<ModuleWindow>, index: int, from: int, address: int)
    requires
        0 <= from <= address <= 63,
        overlap(modules, index, from) is None,
    ensures
        !(modules[index].reaches(address) && owner(modules, index, address) is Some),
    decreases address - from,
{
    if from < address {
        lemma_no_overlap(modules, index, from + 1, address);
    }
}

impl LineProfile {
    /// What is wrong with the profile, if anything.
    pub open spec fn violation(self) -> Option<ProfileError> {
        if blank(self.name@) {
            Some(ProfileError::EmptyName)
        } else if text_bytes(self.name@).len() > MAXIMUM_PROFILE_NAME_BYTES {
            Some(ProfileError::NameLength(text_bytes(self.name@).len() as usize))
        } else if self.discovery_preambles < 2 || self.discovery_preambles > 40 {
            Some(ProfileError::Preambles(self.discovery_preambles))
        } else if self.wake_prefix@.len() > MAXIMUM_PROFILE_WAKE_PREFIX {
            Some(ProfileError::WakePrefix(self.wake_prefix@.len() as usize))
        } else if self.timing.violation() is Some {
            self.timing.violation()
        } else if self.modules@.len() == 0 {
            Some(ProfileError::NoModules)
        } else if self.modules@.len() > MAXIMUM_PROFILE_MODULES {
            Some(ProfileError::ModuleLimit(self.modules@.len() as usize))
        } else {
            modules_violation(self.modules@, 0)
        }
    }

    /// Starts a profile with default timings and no modules.
    pub fn new(name: String) -> (profile: Self)
        ensures
            profile.name == name,
            profile.timing.connect_settle.nanos == 500_000_000,
            profile.timing.first_response.nanos == 5_000_000_000,
            profile.timing.steady_response.nanos == 1_600_000_000,
            profile.timing.scan_interval.nanos == 100_000_000,
            profile.modules@ == Seq::<ModuleWindow>::empty(),
            profile.discovery_preambles == 20,
            profile.wake_prefix@ == Seq::<u8>::empty(),
    {
        LineProfile {
            name,
            timing: TimingProfile::default(),
            modules: Vec::new(),
            discovery_preambles: 20,
            wake_prefix: Vec::new(),
        }
    }

    /// Creates a common single-segment profile without address translation.
    pub fn single_segment(name: String, polling: PollingWindow) -> (profile: Self)
        ensures
            profile.name == name,
            profile.timing.connect_settle.nanos == 500_000_000,
            profile.timing.first_response.nanos == 5_000_000_000,
            profile.timing.steady_response.nanos == 1_600_000_000,
            profile.timing.scan_interval.nanos == 100_000_000,
            profile.modules@ == seq![ModuleWindow { module: 1, polling, address_shift: 0 }],
            profile.discovery_preambles == 20,
            profile.wake_prefix@ == Seq::<u8>::empty(),
    {
        LineProfile::new(name).with_module(ModuleWindow::new(1, polling))
    }

    /// Replaces timing settings.
    pub fn with_timing(self, timing: TimingProfile) -> (profile: Self)
        ensures
            profile == (LineProfile { timing, ..self }),
    {
        LineProfile { timing, ..self }
    }

    /// Appends one gateway or multiplexer module.
    pub fn with_module(self, module: ModuleWindow) -> (profile: Self)
        ensures
            profile.modules@ == self.modules@.push(module),
            profile == (LineProfile { modules: profile.modules, ..self }),
    {
        let mut modules = self.modules;
        modules.push(module);
        LineProfile { modules, ..self }
    }

    /// Replaces every gateway or multiplexer module.
    pub fn with_modules(self, modules: Vec<ModuleWindow>) -> (profile: Self)
        ensures
            profile == (LineProfile { modules, ..self }),
    {
        LineProfile { modules, ..self }
    }

    /// Sets the conservative preamble count used before identification.
    pub fn with_discovery_preambles(self, preambles: u8) -> (profile: Self)
        ensures
            profile == (LineProfile { discovery_preambles: preambles, ..self }),
    {
        LineProfile { discovery_preambles: preambles, ..self }
    }

    /// Sets bytes transmitted once before the first discovery request.
    pub fn with_wake_prefix(self, prefix: Vec<u8>) -> (profile: Self)
        ensures
            profile == (LineProfile { wake_prefix: prefix, ..self }),
    {
        LineProfile { wake_prefix: prefix, ..self }
    }

    /// Validates ranges, overlaps, and practical timing limits.
    pub fn validate(&self) -> (result: Result<(), ProfileError>)
        ensures
            result == match self.violation() {
                Some(error) => Err(error),
                None => Ok(()),
            },
    {
        if is_blank(&self.name) {
            return Err(ProfileError::EmptyName);
        }
        let length: usize = byte_length(&self.name);
        if length > MAXIMUM_PROFILE_NAME_BYTES {
            return Err(ProfileError::NameLength(length));
        }
        if self.discovery_preambles < 2 || self.discovery_preambles > 40 {
            return Err(ProfileError::Preambles(self.discovery_preambles));
        }
        if self.wake_prefix.len() > MAXIMUM_PROFILE_WAKE_PREFIX {
            return Err(ProfileError::WakePrefix(self.wake_prefix.len()));
        }
        self.timing.validate()?;
        if self.modules.is_empty() {
            return Err(ProfileError::NoModules);
        }
        if self.modules.len() > MAXIMUM_PROFILE_MODULES {
            return Err(ProfileError::ModuleLimit(self.modules.len()));
        }
        validate_modules(&self.modules)
    }

    /// Returns the physical address after applying a confirmed module offset.
    pub fn shifted_address(module: ModuleWindow, local: u8) -> (address: Option<u8>)
        ensures
            address == module.physical(local),
    {
        if local < module.polling.first || local > module.polling.last {
            return None;
        }
        let shifted: i16 = local as i16 + module.address_shift as i16;
        if shifted >= 0 && shifted <= 63 {
            Some(shifted as u8)
        } else {
            None
        }
    }
}

impl Clone for LineProfile {
    fn clone(&self) -> (copy: Self)
        ensures
            copy.name@ == self.name@,
            copy.timing == self.timing,
            copy.modules@ == self.modules@,
            copy.discovery_preambles == self.discovery_preambles,
            copy.wake_prefix@ == self.wake_prefix@,
    {
        LineProfile {
            name: self.name.clone(),
            timing: self.timing,
            modules: vstd::slice::slice_to_vec(&self.modules),
            discovery_preambles: self.discovery_preambles,
            wake_prefix: copy_bytes(&self.wake_prefix),
        }
    }
}

fn validate_modules(modules: &Vec<ModuleWindow>) -> (result: Result<(), ProfileError>)
    ensures
        result == match modules_violation(modules@, 0) {
            Some(error) => Err(error),
            None => Ok(()),
        },
{
    let mut owners: Vec<Option<u16>> = Vec::new();
    owners.resize(64, None);
    let mut index: usize = 0;
    while index < modules.len()
        invariant
            index <= modules@.len(),
            owners@.len() == 64,
            forall|address: int|
                0 <= address <= 63 ==> #[trigger] owners@[address] == owner(
                    modules@,
                    index as int,
                    address,
                ),
            modules_violation(modules@, 0) == modules_violation(modules@, index as int),
        decreases modules@.len() - index,
    {
        let current = modules[index];
        PollingWindow::new(current.polling.first, current.polling.last)?;
        if numbered_again(modules, index) {
            return Err(ProfileError::DuplicateModule(current.module));
        }
        claim_addresses(modules, index, &mut owners)?;
        index += 1;
    }
    Ok(())
}

fn numbered_again(modules: &Vec<ModuleWindow>, index: usize) -> (again: bool)
    requires
        index < modules@.len(),
    ensures
        again == exists|later: int|
            index < later < modules@.len() && (#[trigger] modules@[later]).module
                == modules@[index as int].module,
{
    let number: u16 = modules[index].module;
    let total: usize = modules.len();
    let mut later: usize = index + 1;
    while later < total
        invariant
            index < later <= total,
            total == modules@.len(),
            number == modules@[index as int].module,
            forall|i: int| index < i < later ==> (#[trigger] modules@[i]).module != number,
        decreases modules@.len() - later,
    {
        if modules[later].module == number {
            return true;
        }
        later += 1;
    }
    false
}

/// Records which module reaches each physical address.
fn claim_addresses(
    modules: &Vec<ModuleWindow>,
    index: usize,
    owners: &mut Vec<Option<u16>>,
) -> (result: Result<(), ProfileError>)
    requires
        index < modules@.len(),
        modules@[index as int].polling.valid(),
        !exists|later: int|
            index < later < modules@.len() && (#[trigger] modules@[later]).module
                == modules@[index as int].module,
        old(owners)@.len() == 64,
        forall|address: int|
            0 <= address <= 63 ==> #[trigger] old(owners)@[address] == owner(
                modules@,
                index as int,
                address,
            ),
    ensures
        result == match module_violation(modules@, index as int) {
            Some(error) => Err(error),
            None => Ok(()),
        },
        final(owners)@.len() == 64,
        result is Ok ==> forall|address: int|
            0 <= address <= 63 ==> #[trigger] final(owners)@[address] == owner(
                modules@,
                index + 1,
                address,
            ),
{
    let current = modules[index];
    let mut reachable = false;
    let mut address: usize = 0;
    let ghost before = owners@;
    while address < 64
        invariant
            address <= 64,
            index < modules@.len(),
            current == modules@[index as int],
            current.polling.valid(),
            !exists|later: int|
                index < later < modules@.len() && (#[trigger] modules@[later]).module
                    == current.module,
            before.len() == 64,
            owners@.len() == 64,
            forall|a: int|
                0 <= a <= 63 ==> #[trigger] before[a] == owner(modules@, index as int, a),
            forall|a: int| address <= a <= 63 ==> #[trigger] owners@[a] == before[a],
            forall|a: int|
                0 <= a < address ==> #[trigger] owners@[a] == owner(modules@, index + 1, a),
            reachable == exists|a: int| a < address && #[trigger] current.reaches(a),
            overlap(modules@, index as int, 0) == overlap(modules@, index as int, address as int),
        decreases 64 - address,
    {
        let local: i16 = address as i16 - current.address_shift as i16;
        if local >= current.polling.first as i16 && local <= current.polling.last as i16 {
            assert(current.reaches(address as int));
            reachable = true;
            if let Some(first_module) = owners[address] {
                assert(before[address as int] == owner(modules@, index as int, address as int));
                return Err(
                    ProfileError::AddressOverlap {
                        address: address as u8,
                        first_module,
                        second_module: current.module,
                    },
                );
            }
            owners.set(address, Some(current.module));
        } else {
            assert(!current.reaches(address as int));
        }
        address += 1;
    }
    if !reachable {
        assert forall|a: int| !#[trigger] current.reaches(a) by {
            if a < 64 {
            }
        }
        return Err(ProfileError::UnreachableModule(current.module));
    }
    Ok(())
}

/// Link-profile error.
#[derive(Debug, Clone, Copy, PartialEq, Eq, Structural)]
pub enum ProfileError {
    /// The name is empty.
    EmptyName,
    /// The retained profile name is implausibly large.
    NameLength(usize),
    /// A short-address range is invalid.
    PollingWindow {
        /// Range start.
        first: u8,
        /// Range end.
        last: u8,
    },
    /// The preamble count is outside the practical limit.
    Preambles(u8),
    /// The wake-up prefix is too large.
    WakePrefix(usize),
    /// A required timeout is zero.
    ZeroTimeout,
    /// A timing value is too large for a bounded link campaign.
    Duration(Duration),
    /// A profile must expose at least one discovery segment.
    NoModules,
    /// A line cannot expose more non-overlapping translated short addresses.
    ModuleLimit(usize),
    /// A module number is duplicated.
    DuplicateModule(u16),
    /// Address translation moved the complete window outside `0..=63`.
    UnreachableModule(u16),
    /// Two declared modules map to the same physical polling address.
    AddressOverlap {
        /// Conflicting physical address.
        address: u8,
        /// First module in declaration order.
        first_module: u16,
        /// Later conflicting module.
        second_module: u16,
    },
}

/// Whether the polling address of a device lies behind a module.
pub open spec fn behind(module: ModuleWindow, address: int) -> bool {
    &&& 0 <= address <= 63
    &&& module.polling.first + module.address_shift <= address
    &&& address <= module.polling.last + module.address_shift
}

/// Whether a module is in order beside those before it: its window is within
/// the polling addresses, its number is its own, some address lies behind it,
/// and none that lies behind another.
pub open spec fn proper_module(modules: Seq<ModuleWindow>, index: int) -> bool {
    &&& modules[index].polling.first <= modules[index].polling.last
    &&& modules[index].polling.last <= 63
    &&& forall|earlier: int|
        0 <= earlier < index ==> (#[trigger] modules[earlier]).module != modules[index].module
    &&& exists|address: int| #[trigger] behind(modules[index], address)
    &&& forall|earlier: int, address: int|
        #![trigger behind(modules[earlier], address)]
        0 <= earlier < index ==> !(behind(modules[earlier], address) && behind(
            modules[index],
            address,
        ))
}

proof fn lemma_owner_is_earlier(modules: Seq<ModuleWindow>, count: int, address: int) -> (index: int)
    requires
        owner(modules, count, address) is Some,
    ensures
        0 <= index < count,
        modules[index].reaches(address),
    decreases count,
{
    if modules[count - 1].reaches(address) {
        count - 1
    } else {
        lemma_owner_is_earlier(modules, count - 1, address)
    }
}

proof fn lemma_overlap_is_shared(modules: Seq<ModuleWindow>, index: int, from: int)
    requires
        0 <= from,
        forall|earlier: int, address: int|
            #![trigger behind(modules[earlier], address)]
            0 <= earlier < index ==> !(behind(modules[earlier], address) && behind(
                modules[index],
                address,
            )),
    ensures
        overlap(modules, index, from) is None,
    decreases 64 - from,
{
    if from <= 63 {
        if modules[index].reaches(from) && owner(modules, index, from) is Some {
            let earlier = lemma_owner_is_earlier(modules, index, from);
            assert(behind(modules[earlier], from));
        }
        lemma_overlap_is_shared(modules, index, from + 1);
    }
}

proof fn lemma_proper_modules(modules: Seq<ModuleWindow>, from: int)
    requires
        0 <= from <= modules.len(),
        forall|index: int| 0 <= index < modules.len() ==> #[trigger] proper_module(modules, index),
    ensures
        modules_violation(modules, from) is None,
    decreases modules.len() - from,
{
    if from < modules.len() {
        assert(proper_module(modules, from));
        lemma_overlap_is_shared(modules, from, 0);
        let address = choose|address: int| #[trigger] behind(modules[from], address);
        assert(modules[from].reaches(address));
        assert forall|later: int| from < later < modules.len() implies (
        #[trigger] modules[later]).module != modules[from].module by {
            assert(proper_module(modules, later));
        }
        lemma_proper_modules(modules, from + 1);
    }
}

/// A profile is accepted exactly when it has a name within the limit, 2 to 40
/// preambles, a wake prefix within the limit, times that are valid, and between
/// one and the largest number of modules, all in order.
pub proof fn lemma_valid_profile(profile: LineProfile)
    ensures
        profile.violation() is None <==> !blank(profile.name@) && text_bytes(profile.name@).len()
            <= 256 && 2 <= profile.discovery_preambles <= 40 && profile.wake_prefix@.len() <= 256
            && profile.timing.violation() is None && 1 <= profile.modules@.len() <= 64 && forall|
            index: int,
        |
            0 <= index < profile.modules@.len() ==> #[trigger] proper_module(
                profile.modules@,
                index,
            ),
{
    let modules = profile.modules@;
    if modules_violation(modules, 0) is None {
        assert forall|index: int| 0 <= index < modules.len() implies #[trigger] proper_module(
            modules,
            index,
        ) by {
            lemma_no_module_violation(modules, 0, index);
            let address = choose|address: int| #[trigger] modules[index].reaches(address);
            assert(behind(modules[index], address));
            assert forall|earlier: int| 0 <= earlier < index implies (
            #[trigger] modules[earlier]).module != modules[index].module by {
                lemma_valid_modules_are_disjoint(modules, earlier, index, 0);
            }
            assert forall|earlier: int, address: int|
                #![trigger behind(modules[earlier], address)]
                0 <= earlier < index implies !(behind(modules[earlier], address) && behind(
                modules[index],
                address,
            )) by {
                lemma_valid_modules_are_disjoint(modules, earlier, index, address);
            }
        }
    }
    if forall|index: int|
        0 <= index < modules.len() ==> #[trigger] proper_module(modules, index) {
        lemma_proper_modules(modules, 0);
    }
}

/// Times are valid exactly when both response times are more than zero and none
/// is longer than a day. An override is valid exactly for a polling address,
/// with a response time that is not zero where it has one, and within a day.
pub proof fn lemma_valid_times(timing: TimingProfile, address: u8, own: AddressTiming)
    ensures
        timing.violation() is None <==> 0 < timing.first_response.nanos <= 86_400_000_000_000 && 0
            < timing.steady_response.nanos <= 86_400_000_000_000 && timing.connect_settle.nanos
            <= 86_400_000_000_000 && timing.scan_interval.nanos <= 86_400_000_000_000,
        override_violation(address, own) is None <==> address <= 63 && own.delay_before_probe.nanos
            <= 86_400_000_000_000 && (own.response_timeout matches Some(timeout) ==> 0
            < timeout.nanos <= 86_400_000_000_000),
{
}

/// A local address of the window of a module is shifted, if it stays a polling
/// address; no other local address leads anywhere.
pub proof fn lemma_shifted_addresses(module: ModuleWindow, local: u8)
    ensures
        module.physical(local) matches Some(node) ==> node == local + module.address_shift && behind(
            module,
            node as int,
        ),
        module.physical(local) is Some <==> module.polling.first <= local <= module.polling.last
            && 0 <= local + module.address_shift <= 63,
{
}

/// An overlap is reported with the lowest address that the module shares with
/// an earlier one, with the number of such an earlier module first.
pub proof fn lemma_reported_overlap(modules: Seq<ModuleWindow>, index: int, from: int)
    requires
        0 <= from,
        0 <= index < modules.len(),
    ensures
        overlap(modules, index, from) matches Some((address, number)) ==> from <= address <= 63
            && behind(modules[index], address as int) && exists|earlier: int|
            0 <= earlier < index && (#[trigger] modules[earlier]).module == number && behind(
                modules[earlier],
                address as int,
            ),
        overlap(modules, index, from) matches Some((address, _)) ==> forall|
            earlier: int,
            lower: int,
        |
            #![trigger behind(modules[earlier], lower)]
            0 <= earlier < index && from <= lower < address ==> !(behind(modules[earlier], lower)
                && behind(modules[index], lower)),
        module_violation(modules, index) matches Some(ProfileError::AddressOverlap {
            address,
            first_module,
            second_module,
        }) ==> second_module == modules[index].module && overlap(modules, index, 0) == Some(
            (address, first_module),
        ),
        module_violation(modules, index) matches Some(ProfileError::DuplicateModule(number))
            ==> number == modules[index].module,
        module_violation(modules, index) matches Some(ProfileError::UnreachableModule(number))
            ==> number == modules[index].module,
        module_violation(modules, index) matches Some(ProfileError::PollingWindow { first, last })
            ==> first == modules[index].polling.first && last == modules[index].polling.last && (
        first > last || last > 63),
    decreases 64 - from,
{
    if from <= 63 {
        if modules[index].reaches(from) && owner(modules, index, from) is Some {
            lemma_owner_number(modules, index, from);
        } else {
            lemma_reported_overlap(modules, index, from + 1);
            assert forall|earlier: int|
                0 <= earlier < index implies !(#[trigger] behind(modules[earlier], from) && behind(
                modules[index],
                from,
            )) by {
                if behind(modules[earlier], from) {
                    lemma_owner_exists(modules, index, earlier, from);
                }
            }
        }
    }
}

proof fn lemma_owner_number(modules: Seq<ModuleWindow>, count: int, address: int)
    requires
        owner(modules, count, address) is Some,
    ensures
        exists|index: int|
            0 <= index < count && Some((#[trigger] modules[index]).module) == owner(
                modules,
                count,
                address,
            ) && behind(modules[index], address),
    decreases count,
{
    if modules[count - 1].reaches(address) {
        assert(behind(modules[count - 1], address));
        assert(Some(modules[count - 1].module) == owner(modules, count, address));
    } else {
        lemma_owner_number(modules, count - 1, address);
        let found = choose|index: int|
            0 <= index < count - 1 && Some((#[trigger] modules[index]).module) == owner(
                modules,
                count - 1,
                address,
            ) && behind(modules[index], address);
        assert(Some(modules[found].module) == owner(modules, count, address));
    }
}

/// A window is made of two addresses up to 63 in their order, and lists every
/// address between them once, in ascending order.
pub proof fn lemma_window_lists_its_addresses(
    first: u8,
    last: u8,
    created: Result<PollingWindow, ProfileError>,
    window: PollingWindow,
    addresses: Vec<u8>,
    address: u8,
)
    requires
        call_ensures(PollingWindow::new, (first, last), created),
        call_ensures(PollingWindow::iter, (window,), addresses),
    ensures
        created is Ok <==> first <= last && last <= 63,
        created matches Ok(made) ==> made.first == first && made.last == last,
        created matches Err(error) ==> error == (ProfileError::PollingWindow { first, last }),
        addresses@.contains(address) <==> window.first <= address <= window.last,
        forall|i: int, j: int|
            0 <= i < j < addresses@.len() ==> #[trigger] addresses@[i] < #[trigger] addresses@[j],
{
    if window.first <= address <= window.last {
        assert(addresses@[address - window.first] == address);
    }
}

/// A timing of one address is kept for that address and leaves the others; one
/// that is not valid changes nothing.
pub proof fn lemma_own_timing_is_kept(
    timings: &mut AddressTimings,
    address: u8,
    timing: AddressTiming,
    result: Result<(), AddressTimingError>,
    other: u32,
)
    requires
        call_ensures(AddressTimings::insert, (timings, address, timing), result),
        other != address,
    ensures
        result is Ok <==> address <= 63 && timing.violation() is None,
        result is Err ==> final(timings)@ == old(timings)@,
        result is Ok ==> final(timings)@.contains_key(address as u32)
            && final(timings)@[address as u32] == timing,
        final(timings)@.contains_key(other) <==> old(timings)@.contains_key(other),
        old(timings)@.contains_key(other) ==> final(timings)@[other] == old(timings)@[other],
{
}

} // verus!
