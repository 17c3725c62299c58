//! Deterministic in-memory link and a simple field device.

use std::collections::VecDeque;

use vstd::prelude::*;

use crate::operation::ReplyView;
use crate::bytes::{
    append_bytes, append_queue, be16, be24, be32, copy_bytes, copy_range, drain_front, from_be16,
    join16, push16, push24, push32,
};
use crate::channel::ChannelError;
use crate::float::Float32;
use crate::operation::diagnostics::{AdditionalStatus, ReadAdditionalStatus};
use crate::operation::identity::{identity_of, required_length, IdentityView};
use crate::operation::laws::{
    lemma_information_is_the_bytes, lemma_loop_signal_round_trip, lemma_primary_value_round_trip,
};
use crate::operation::process::{LoopSignal, PrimaryValue, ReadLoopSignal, ReadPrimaryValue};
use crate::operation::{Operation, OperationError};
use crate::time::Duration;
use crate::wire::{Address, DecodeEvent, EventView, Frame, FrameKind, FrameView};

verus! {

/// Hard upper bound for each in-memory channel queue.
pub const MAXIMUM_EMULATOR_CHANNEL_CAPACITY: usize = 65_536;

/// Hard upper bound for noise prepended to one emulated transmission.
pub const MAXIMUM_EMULATOR_NOISE_PREFIX: usize = 1024 * 1024;

/// Hard upper bound for a direct transmission through the emulator.
pub const MAXIMUM_EMULATOR_TRANSMISSION_BYTES: usize = 1024 * 1024;

/// Hard upper bound in nanoseconds for an artificial per-fragment delay.
pub const MAXIMUM_EMULATOR_LATENCY: u128 = 86_400_000_000_000;

/// Controlled faults applied to the next transmission.
#[derive(Debug, Clone, PartialEq, Eq)]
pub struct FaultPlan {
    /// Drop the next transmission completely.
    pub drop_next: bool,
    /// Echo the transmission back to its sender.
    pub echo: bool,
    /// Corrupt the checksum of the next transmission.
    pub corrupt_next: bool,
    /// Insert unrelated bytes before the next transmission.
    pub noise_prefix: Vec<u8>,
    /// Split the transmission into chunks no larger than the specified size.
    pub fragment_size: Option<usize>,
    /// Artificial delay applied to each chunk.
    pub latency: Duration,
}

/// What a fault plan holds, with the noise as a sequence.
#[verifier::ext_equal]
pub struct PlanView {
    pub drop_next: bool,
    pub echo: bool,
    pub corrupt_next: bool,
    pub noise_prefix: Seq<u8>,
    pub fragment_size: Option<usize>,
    pub latency: Duration,
}

impl View for FaultPlan {
    type V = PlanView;

    open spec fn view(&self) -> PlanView {
        PlanView {
            drop_next: self.drop_next,
            echo: self.echo,
            corrupt_next: self.corrupt_next,
            noise_prefix: self.noise_prefix@,
            fragment_size: self.fragment_size,
            latency: self.latency,
        }
    }
}

/// Bytes cut into chunks of one size, the last one possibly shorter.
pub open spec fn chunked(bytes: Seq<u8>, size: nat) -> Seq<Seq<u8>>
    decreases bytes.len(),
{
    if size == 0 || bytes.len() == 0 {
        Seq::empty()
    } else if bytes.len() <= size {
        seq![bytes]
    } else {
        seq![bytes.take(size as int)] + chunked(bytes.skip(size as int), size)
    }
}

/// The chunks one after the other are the bytes again.
pub proof fn lemma_chunks_join_to_the_bytes(bytes: Seq<u8>, size: nat)
    requires
        size > 0,
    ensures
        chunked(bytes, size).flatten() == bytes,
    decreases bytes.len(),
{
    let chunks = chunked(bytes, size);
    if bytes.len() == 0 {
        assert(chunks.flatten() =~= bytes);
    } else if bytes.len() <= size {
        assert(chunks.drop_first() =~= Seq::<Seq<u8>>::empty());
        assert(chunks.flatten() == chunks.first() + chunks.drop_first().flatten());
        assert(chunks.flatten() =~= bytes);
    } else {
        let rest = bytes.skip(size as int);
        lemma_chunks_join_to_the_bytes(rest, size);
        assert(chunks.drop_first() =~= chunked(rest, size));
        assert(chunks.flatten() == chunks.first() + chunks.drop_first().flatten());
        assert(bytes =~= bytes.take(size as int) + rest);
    }
}

impl PlanView {
    /// A plan without faults.
    pub open spec fn none() -> PlanView {
        PlanView {
            drop_next: false,
            echo: false,
            corrupt_next: false,
            noise_prefix: Seq::empty(),
            fragment_size: None,
            latency: Duration { nanos: 0 },
        }
    }

    /// What is wrong with the plan, if anything.
    pub open spec fn violation(self) -> Option<ChannelError> {
        if self.noise_prefix.len() > MAXIMUM_EMULATOR_NOISE_PREFIX {
            Some(ChannelError::Configuration("emulator noise prefix exceeds the supported limit"))
        } else if self.fragment_size == Some(0usize) {
            Some(ChannelError::Configuration("emulator fragment size must be greater than zero"))
        } else if self.latency.nanos > MAXIMUM_EMULATOR_LATENCY {
            Some(ChannelError::Configuration("emulator latency exceeds the supported limit"))
        } else {
            None
        }
    }

    /// The closest plan without anything wrong.
    pub open spec fn sanitized(self) -> PlanView {
        PlanView {
            noise_prefix: if self.noise_prefix.len() > MAXIMUM_EMULATOR_NOISE_PREFIX {
                self.noise_prefix.take(MAXIMUM_EMULATOR_NOISE_PREFIX as int)
            } else {
                self.noise_prefix
            },
            fragment_size: if self.fragment_size == Some(0usize) {
                Some(1)
            } else {
                self.fragment_size
            },
            latency: if self.latency.nanos > MAXIMUM_EMULATOR_LATENCY {
                Duration { nanos: MAXIMUM_EMULATOR_LATENCY }
            } else {
                self.latency
            },
            ..self
        }
    }

    /// The plan with its faults of the next transmission used up.
    pub open spec fn spent(self) -> PlanView {
        PlanView { drop_next: false, corrupt_next: false, noise_prefix: Seq::empty(), ..self }
    }

    /// What a transmission puts on the line.
    pub open spec fn on_the_line(self, bytes: Seq<u8>) -> Seq<u8> {
        let output = self.noise_prefix + bytes;
        if self.corrupt_next && output.len() > 0 {
            output.update(output.len() - 1, output.last() ^ 1)
        } else {
            output
        }
    }

    /// The chunks in which a transmission leaves.
    pub open spec fn fragments(self, bytes: Seq<u8>) -> Seq<Seq<u8>> {
        if self.drop_next {
            Seq::empty()
        } else {
            chunked(
                self.on_the_line(bytes),
                match self.fragment_size {
                    Some(size) => if size == 0 {
                        1
                    } else {
                        size as nat
                    },
                    None => if bytes.len() == 0 {
                        1
                    } else {
                        bytes.len()
                    },
                },
            )
        }
    }
}

/// A sanitized plan has nothing wrong, and a plan with nothing wrong is kept.
pub proof fn lemma_sanitized_plan_is_valid(plan: PlanView)
    ensures
        plan.sanitized().violation() is None,
        plan.violation() is None ==> plan.sanitized() == plan,
{
    if plan.violation() is None {
        assert(plan.sanitized() =~= plan);
    }
}

/// A plan without faults transmits the bytes as they are.
pub proof fn lemma_faultless_plan_is_transparent(plan: PlanView, bytes: Seq<u8>)
    requires
        !plan.drop_next,
        !plan.corrupt_next,
        plan.noise_prefix.len() == 0,
    ensures
        plan.fragments(bytes).flatten() == bytes,
{
    assert(plan.on_the_line(bytes) =~= bytes);
    let size: nat = match plan.fragment_size {
        Some(size) => if size == 0 {
            1
        } else {
            size as nat
        },
        None => if bytes.len() == 0 {
            1
        } else {
            bytes.len()
        },
    };
    lemma_chunks_join_to_the_bytes(bytes, size);
}

impl Default for FaultPlan {
    fn default() -> (plan: Self)
        ensures
            plan@ == PlanView::none(),
    {
        FaultPlan {
            drop_next: false,
            echo: false,
            corrupt_next: false,
            noise_prefix: Vec::new(),
            fragment_size: None,
            latency: Duration::zero(),
        }
    }
}

/// What one transmission does.
#[derive(Debug, PartialEq, Eq)]
pub struct Transmission {
    /// Bytes that come back to the sender first.
    pub echo: Option<Vec<u8>>,
    /// Chunks that go to the peer.
    pub fragments: Vec<Vec<u8>>,
    /// Delay before each chunk.
    pub latency: Duration,
}

/// The views of chunks.
pub open spec fn chunk_views(chunks: Seq<Vec<u8>>) -> Seq<Seq<u8>> {
    Seq::new(chunks.len(), |index: int| chunks[index]@)
}

fn chunks_of(bytes: &[u8], size: usize) -> (chunks: Vec<Vec<u8>>)
    requires
        size > 0,
    ensures
        chunk_views(chunks@) == chunked(bytes@, size as nat),
{
    let mut chunks: Vec<Vec<u8>> = Vec::new();
    let total: usize = bytes.len();
    let mut start: usize = 0;
    assert(bytes@.skip(0) =~= bytes@);
    assert(chunked(bytes@, size as nat) =~= chunk_views(chunks@) + chunked(
        bytes@.skip(0),
        size as nat,
    ));
    while start < total
        invariant
            start <= total,
            total == bytes@.len(),
            size > 0,
            chunked(bytes@, size as nat) == chunk_views(chunks@) + chunked(
                bytes@.skip(start as int),
                size as nat,
            ),
        decreases total - start,
    {
        let ghost before = chunks@;
        let ghost rest = bytes@.skip(start as int);
        let end: usize = if total - start <= size {
            total
        } else {
            start + size
        };
        let chunk = copy_range(bytes, start, end);
        proof {
            let taken = chunk@;
            if total - start <= size {
                assert(taken =~= rest);
                assert(bytes@.skip(end as int).len() == 0);
                assert(chunked(rest, size as nat) =~= seq![taken] + chunked(
                    bytes@.skip(end as int),
                    size as nat,
                ));
            } else {
                assert(taken =~= rest.take(size as int));
                assert(rest.skip(size as int) =~= bytes@.skip(end as int));
            }
        }
        chunks.push(chunk);
        assert(chunk_views(chunks@) =~= chunk_views(before) + seq![chunk@]);
        assert(chunked(bytes@, size as nat) =~= chunk_views(chunks@) + chunked(
            bytes@.skip(end as int),
            size as nat,
        ));
        start = end;
    }
    assert(bytes@.skip(start as int).len() == 0);
    assert(chunk_views(chunks@) =~= chunked(bytes@, size as nat));
    chunks
}

impl FaultPlan {
    /// Adds byte-exact noise before the next transmission.
    pub fn with_noise_prefix(self, noise: Vec<u8>) -> (plan: Self)
        ensures
            plan@ == (PlanView { noise_prefix: noise@, ..self@ }),
    {
        FaultPlan { noise_prefix: noise, ..self }
    }

    /// Splits transmissions into chunks of at most this size.
    pub fn with_fragment_size(self, fragment_size: usize) -> (plan: Self)
        ensures
            plan@ == (PlanView { fragment_size: Some(fragment_size), ..self@ }),
    {
        FaultPlan { fragment_size: Some(fragment_size), ..self }
    }

    /// Adds an artificial delay before every fragment.
    pub fn with_latency(self, latency: Duration) -> (plan: Self)
        ensures
            plan@ == (PlanView { latency, ..self@ }),
    {
        FaultPlan { latency, ..self }
    }

    /// Rejects fault settings that could amplify resources or make no progress.
    pub fn validate(&self) -> (result: Result<(), ChannelError>)
        ensures
            result == match self@.violation() {
                Some(error) => Err::<(), ChannelError>(error),
                None => Ok(()),
            },
    {
        if self.noise_prefix.len() > MAXIMUM_EMULATOR_NOISE_PREFIX {
            return Err(
                ChannelError::Configuration("emulator noise prefix exceeds the supported limit"),
            );
        }
        if let Some(size) = self.fragment_size {
            if size == 0 {
                return Err(
                    ChannelError::Configuration("emulator fragment size must be greater than zero"),
                );
            }
        }
        if self.latency.nanos > MAXIMUM_EMULATOR_LATENCY {
            return Err(ChannelError::Configuration("emulator latency exceeds the supported limit"));
        }
        Ok(())
    }

    fn sanitize(&mut self)
        ensures
            final(self)@ == old(self)@.sanitized(),
    {
        if self.noise_prefix.len() > MAXIMUM_EMULATOR_NOISE_PREFIX {
            self.noise_prefix.truncate(MAXIMUM_EMULATOR_NOISE_PREFIX);
        }
        if let Some(size) = self.fragment_size {
            if size == 0 {
                self.fragment_size = Some(1);
            }
        }
        if self.latency.nanos > MAXIMUM_EMULATOR_LATENCY {
            self.latency = Duration { nanos: MAXIMUM_EMULATOR_LATENCY };
        }
        assert(self@ =~= old(self)@.sanitized());
    }

    /// Decides what a transmission does, and uses up the faults of the next
    /// transmission.
    pub fn transmit(&mut self, bytes: &[u8]) -> (result: Result<Transmission, ChannelError>)
        ensures
            if bytes@.len() > MAXIMUM_EMULATOR_TRANSMISSION_BYTES {
                result == Err::<Transmission, ChannelError>(
                    ChannelError::Configuration(
                        "emulator transmission exceeds the supported limit",
                    ),
                ) && final(self)@ == old(self)@
            } else {
                &&& final(self)@ == old(self)@.spent()
                &&& result matches Ok(transmission)
                &&& transmission.latency == old(self)@.latency
                &&& chunk_views(transmission.fragments@) == old(self)@.fragments(bytes@)
                &&& match transmission.echo {
                    Some(echo) => old(self)@.echo && echo@ == bytes@,
                    None => !old(self)@.echo,
                }
            },
    {
        let length: usize = bytes.len();
        if length > MAXIMUM_EMULATOR_TRANSMISSION_BYTES {
            return Err(
                ChannelError::Configuration("emulator transmission exceeds the supported limit"),
            );
        }
        let ghost before = self@;
        let drop_next = self.drop_next;
        let corrupt_next = self.corrupt_next;
        let mut output: Vec<u8> = Vec::new();
        append_bytes(&mut output, &self.noise_prefix);
        append_bytes(&mut output, bytes);
        self.drop_next = false;
        self.corrupt_next = false;
        self.noise_prefix = Vec::new();
        assert(self@ =~= before.spent());
        let echo = if self.echo {
            Some(copy_bytes(bytes))
        } else {
            None
        };
        if drop_next {
            let fragments: Vec<Vec<u8>> = Vec::new();
            assert(chunk_views(fragments@) =~= before.fragments(bytes@));
            return Ok(Transmission { echo, fragments, latency: self.latency });
        }
        assert(output@ =~= before.noise_prefix + bytes@);
        let total: usize = output.len();
        if corrupt_next && total > 0 {
            let checksum: u8 = output[total - 1] ^ 0x01;
            output.set(total - 1, checksum);
        }
        assert(output@ =~= before.on_the_line(bytes@));
        let size: usize = match self.fragment_size {
            Some(size) => if size == 0 {
                1
            } else {
                size
            },
            None => if length == 0 {
                1
            } else {
                length
            },
        };
        Ok(Transmission { echo, fragments: chunks_of(&output, size), latency: self.latency })
    }
}

/// Queue length of an in-memory link whose capacity is moved into the
/// supported range.
pub fn channel_capacity(capacity: usize) -> (effective: usize)
    ensures
        effective == if capacity == 0 {
            1
        } else if capacity > MAXIMUM_EMULATOR_CHANNEL_CAPACITY {
            MAXIMUM_EMULATOR_CHANNEL_CAPACITY
        } else {
            capacity
        },
{
    if capacity == 0 {
        1
    } else if capacity > MAXIMUM_EMULATOR_CHANNEL_CAPACITY {
        MAXIMUM_EMULATOR_CHANNEL_CAPACITY
    } else {
        capacity
    }
}

/// Queue length of an in-memory link whose capacity must be in the supported range.
pub fn try_channel_capacity(capacity: usize) -> (result: Result<usize, ChannelError>)
    ensures
        result == if capacity == 0 {
            Err::<usize, ChannelError>(
                ChannelError::Configuration("emulator channel capacity must be greater than zero"),
            )
        } else if capacity > MAXIMUM_EMULATOR_CHANNEL_CAPACITY {
            Err(
                ChannelError::Configuration(
                    "emulator channel capacity exceeds the supported limit",
                ),
            )
        } else {
            Ok(capacity)
        },
{
    if capacity == 0 {
        return Err(
            ChannelError::Configuration("emulator channel capacity must be greater than zero"),
        );
    }
    if capacity > MAXIMUM_EMULATOR_CHANNEL_CAPACITY {
        return Err(
            ChannelError::Configuration("emulator channel capacity exceeds the supported limit"),
        );
    }
    Ok(capacity)
}

/// State of one endpoint of a bidirectional in-memory link: what it has
/// received and not read yet, and its fault plan.
#[derive(Debug)]
pub struct MemoryEndpoint {
    remainder: VecDeque<u8>,
    faults: FaultPlan,
}

impl Default for MemoryEndpoint {
    fn default() -> (endpoint: Self)
        ensures
            endpoint.unread() == Seq::<u8>::empty(),
            endpoint.plan() == PlanView::none(),
    {
        MemoryEndpoint { remainder: VecDeque::new(), faults: FaultPlan::default() }
    }
}

impl MemoryEndpoint {
    /// Received bytes that were not read yet.
    pub closed spec fn unread(&self) -> Seq<u8> {
        self.remainder@
    }

    /// The fault plan.
    pub closed spec fn plan(&self) -> PlanView {
        self.faults@
    }

    /// Replaces the fault plan for this direction.
    pub fn set_faults(&mut self, plan: FaultPlan)
        ensures
            final(self).unread() == old(self).unread(),
            final(self).plan() == plan@.sanitized(),
    {
        let mut plan = plan;
        plan.sanitize();
        self.faults = plan;
    }

    /// Replaces the fault plan after rejecting unsafe limits.
    pub fn try_set_faults(&mut self, plan: FaultPlan) -> (result: Result<(), ChannelError>)
        ensures
            final(self).unread() == old(self).unread(),
            match plan@.violation() {
                Some(error) => result == Err::<(), ChannelError>(error) && final(self).plan()
                    == old(self).plan(),
                None => result == Ok::<(), ChannelError>(()) && final(self).plan() == plan@,
            },
    {
        plan.validate()?;
        self.faults = plan;
        Ok(())
    }

    /// Decides what a transmission from this endpoint does.
    pub fn transmit(&mut self, bytes: &[u8]) -> (result: Result<Transmission, ChannelError>)
        ensures
            final(self).unread() == old(self).unread(),
            if bytes@.len() > MAXIMUM_EMULATOR_TRANSMISSION_BYTES {
                result == Err::<Transmission, ChannelError>(
                    ChannelError::Configuration(
                        "emulator transmission exceeds the supported limit",
                    ),
                ) && final(self).plan() == old(self).plan()
            } else {
                &&& final(self).plan() == old(self).plan().spent()
                &&& result matches Ok(transmission)
                &&& transmission.latency == old(self).plan().latency
                &&& chunk_views(transmission.fragments@) == old(self).plan().fragments(bytes@)
                &&& match transmission.echo {
                    Some(echo) => old(self).plan().echo && echo@ == bytes@,
                    None => !old(self).plan().echo,
                }
            },
    {
        self.faults.transmit(bytes)
    }

    /// Takes over a chunk from the peer.
    pub fn deliver(&mut self, fragment: &[u8])
        ensures
            final(self).plan() == old(self).plan(),
            final(self).unread() == old(self).unread() + fragment@,
    {
        append_queue(&mut self.remainder, fragment);
    }

    /// Reads at most `capacity` bytes, or nothing while nothing was received.
    pub fn receive(&mut self, capacity: usize) -> (result: Result<Option<Vec<u8>>, ChannelError>)
        ensures
            final(self).plan() == old(self).plan(),
            if capacity == 0 {
                result == Err::<Option<Vec<u8>>, ChannelError>(
                    ChannelError::Configuration("memory-channel receive buffer cannot be empty"),
                ) && final(self).unread() == old(self).unread()
            } else if old(self).unread().len() == 0 {
                result == Ok::<Option<Vec<u8>>, ChannelError>(None)
                    && final(self).unread() == old(self).unread()
            } else {
                let count = if capacity <= old(self).unread().len() {
                    capacity as int
                } else {
                    old(self).unread().len() as int
                };
                &&& result matches Ok(Some(chunk))
                &&& chunk@ == old(self).unread().take(count)
                &&& final(self).unread() == old(self).unread().skip(count)
            },
    {
        if capacity == 0 {
            return Err(ChannelError::Configuration("memory-channel receive buffer cannot be empty"));
        }
        if self.remainder.len() == 0 {
            return Ok(None);
        }
        let count: usize = if capacity <= self.remainder.len() {
            capacity
        } else {
            self.remainder.len()
        };
        Ok(Some(drain_front(&mut self.remainder, count)))
    }
}

/// Identity of a simple emulated device.
#[derive(Debug, Clone, Copy, PartialEq, Eq, Structural)]
pub struct EmulatedIdentity {
    /// Manufacturer identifier.
    pub manufacturer_id: u16,
    /// Expanded device type.
    pub device_type: u16,
    /// Required request preamble count.
    pub request_preambles: u8,
    /// Universal-command revision.
    pub universal_revision: u8,
    /// Device revision.
    pub device_revision: u8,
    /// Software revision.
    pub software_revision: u8,
    /// Hardware revision.
    pub hardware_revision: u8,
    /// Physical-signal code.
    pub physical_signaling: u8,
    /// Capability flags.
    pub flags: u8,
    /// Unique part of the address.
    pub device_id: u32,
    /// Response preamble count.
    pub response_preambles: u8,
    /// Maximum number of device variables.
    pub maximum_device_variables: u8,
    /// Configuration-change counter.
    pub configuration_change_counter: u16,
    /// Extended status.
    pub extended_status: u8,
    /// Private-label distributor.
    pub private_label_distributor: u16,
    /// Device profile.
    pub device_profile: u8,
}

impl EmulatedIdentity {
    /// The bytes behind the response identifier: from HART 7 on the expanded
    /// device type, before that the manufacturer and the type of one byte each.
    pub open spec fn type_bytes(self) -> Seq<u8> {
        if self.universal_revision >= 7 {
            be16(self.device_type)
        } else {
            seq![(self.manufacturer_id % 256) as u8, (self.device_type % 256) as u8]
        }
    }

    /// The identification data of Command 0.
    pub open spec fn payload(self) -> Seq<u8> {
        let common = seq![0xfeu8] + self.type_bytes() + seq![
            self.request_preambles,
            self.universal_revision,
            self.device_revision,
            self.software_revision,
            ((self.hardware_revision % 32) * 8 + self.physical_signaling % 8) as u8,
            self.flags,
        ] + be24(self.device_id);
        let sixth = if self.universal_revision >= 6 {
            seq![self.response_preambles, self.maximum_device_variables] + be16(
                self.configuration_change_counter,
            ) + seq![self.extended_status]
        } else {
            Seq::empty()
        };
        let seventh = if self.universal_revision >= 7 {
            be16(self.manufacturer_id) + be16(self.private_label_distributor) + seq![
                self.device_profile,
            ]
        } else {
            Seq::empty()
        };
        common + sixth + seventh
    }

    /// The 14-bit expanded device type of the long address.
    pub open spec fn address_type(self) -> u16 {
        if self.universal_revision >= 7 {
            self.device_type % 0x4000
        } else {
            ((self.manufacturer_id % 64) * 256 + self.device_type % 256) as u16
        }
    }
}

/// Minimal mutable device state for integration testing.
#[derive(Debug, PartialEq, Eq)]
pub struct EmulatedDevice {
    /// Device address.
    pub address: Address,
    /// Identification data.
    pub identity: EmulatedIdentity,
    /// Primary-variable unit.
    pub primary_unit: u8,
    /// Primary variable.
    pub primary_value: Float32,
    /// Loop current.
    pub loop_current: Float32,
    /// Percent of range.
    pub percent: Float32,
    /// Device status.
    pub status: u8,
    /// Additional status flags.
    pub additional_status: Vec<u8>,
}

impl EmulatedDevice {
    /// Whether the device is addressed: by its own address, or by the long
    /// address of its identity from either master.
    pub open spec fn addressed(&self, address: Address) -> bool {
        address == self.address || (self.identity.device_id <= 0xff_ffff && address
            == (Address::Unique {
            expanded_type: self.identity.address_type(),
            device_id: self.identity.device_id,
            master: address.master_part(),
        }))
    }

    /// The logical command that a frame requests.
    pub open spec fn requested(request: FrameView) -> u16 {
        if request.wire_command == 31 && request.payload.len() >= 2 {
            from_be16(request.payload[0], request.payload[1])
        } else {
            request.wire_command as u16
        }
    }

    /// The data with which a command is answered.
    pub open spec fn reply_data(&self, command: u16) -> Seq<u8> {
        if command == 0 {
            self.identity.payload()
        } else if command == 1 {
            seq![self.primary_unit] + be32(self.primary_value.bits)
        } else if command == 2 {
            be32(self.loop_current.bits) + be32(self.percent.bits)
        } else if command == 48 {
            self.additional_status@
        } else {
            Seq::empty()
        }
    }

    /// The response code with which a command is answered.
    pub open spec fn reply_code(command: u16) -> u8 {
        if command == 0 || command == 1 || command == 2 || command == 48 {
            0
        } else {
            64
        }
    }

    /// The response to a request.
    pub open spec fn response(&self, request: FrameView) -> FrameView {
        let command = EmulatedDevice::requested(request);
        let expanded = request.wire_command == 31 && request.payload.len() >= 2;
        FrameView {
            preambles: if self.identity.response_preambles < 2 {
                2
            } else {
                self.identity.response_preambles
            },
            kind: FrameKind::Response,
            physical_layer: request.physical_layer,
            address: request.address,
            expansion: request.expansion,
            wire_command: request.wire_command,
            payload: seq![EmulatedDevice::reply_code(command), self.status] + (if expanded {
                be16(command)
            } else {
                Seq::empty()
            }) + self.reply_data(command),
            repair: None,
        }
    }

    /// Whether an event is a request to this device.
    pub open spec fn served(&self, event: EventView) -> bool {
        event matches EventView::Frame(request) && request.kind is Request && self.addressed(
            request.address,
        )
    }

    /// Answers an event of the line: with the bytes of a response where it is
    /// a request to this device, with nothing where it is not.
    pub fn serve(&self, event: &DecodeEvent) -> (result: Result<Option<Vec<u8>>, ChannelError>)
        ensures
            if !self.served(event@) {
                result == Ok::<Option<Vec<u8>>, ChannelError>(None)
            } else {
                let response = self.response(event@->Frame_0);
                if response.encode_error() is Some {
                    result == Err::<Option<Vec<u8>>, ChannelError>(
                        ChannelError::Configuration("emulator generated an invalid frame"),
                    )
                } else {
                    result matches Ok(Some(bytes)) && bytes@ == response.encoded()
                }
            },
    {
        match event {
            DecodeEvent::Rejected(_) => Ok(None),
            DecodeEvent::Frame(request) => {
                if request.kind != FrameKind::Request || !self.accepts_address(request.address) {
                    return Ok(None);
                }
                let response = self.respond(request);
                match response.encode() {
                    Ok(bytes) => Ok(Some(bytes)),
                    Err(_) => Err(
                        ChannelError::Configuration("emulator generated an invalid frame"),
                    ),
                }
            },
        }
    }

    fn accepts_address(&self, address: Address) -> (accepted: bool)
        ensures
            accepted == self.addressed(address),
    {
        if address == self.address {
            return true;
        }
        let address_device_type: u16 = if self.identity.universal_revision >= 7 {
            self.identity.device_type % 0x4000
        } else {
            (self.identity.manufacturer_id % 64) * 256 + self.identity.device_type % 256
        };
        match Address::unique(address_device_type, self.identity.device_id, address.master()) {
            Ok(expected) => expected == address,
            Err(_) => false,
        }
    }

    fn respond(&self, request: &Frame) -> (response: Frame)
        ensures
            response@ == self.response(request@),
    {
        let expanded = request.wire_command == 31 && request.payload.len() >= 2;
        let logical: u16 = if expanded {
            join16(request.payload[0], request.payload[1])
        } else {
            request.wire_command as u16
        };
        let data: Vec<u8> = match logical {
            0 => self.identity_payload(),
            1 => {
                let mut data: Vec<u8> = Vec::new();
                data.push(self.primary_unit);
                push32(&mut data, self.primary_value.to_bits());
                assert(data@ =~= self.reply_data(logical));
                data
            },
            2 => {
                let mut data: Vec<u8> = Vec::new();
                push32(&mut data, self.loop_current.to_bits());
                push32(&mut data, self.percent.to_bits());
                assert(data@ =~= self.reply_data(logical));
                data
            },
            48 => copy_bytes(&self.additional_status),
            _ => Vec::new(),
        };
        assert(data@ =~= self.reply_data(logical));
        let response_code: u8 = match logical {
            0 | 1 | 2 | 48 => 0,
            _ => 64,
        };
        let mut payload: Vec<u8> = Vec::new();
        payload.push(response_code);
        payload.push(self.status);
        if expanded {
            push16(&mut payload, logical);
        }
        append_bytes(&mut payload, &data);
        assert(payload@ =~= self.response(request@).payload);
        Frame {
            preambles: if self.identity.response_preambles < 2 {
                2
            } else {
                self.identity.response_preambles
            },
            kind: FrameKind::Response,
            physical_layer: request.physical_layer,
            address: request.address,
            expansion: copy_bytes(&request.expansion),
            wire_command: request.wire_command,
            payload,
            repair: None,
        }
    }

    fn identity_payload(&self) -> (payload: Vec<u8>)
        ensures
            payload@ == self.identity.payload(),
    {
        let mut payload: Vec<u8> = Vec::new();
        payload.push(0xfe);
        if self.identity.universal_revision >= 7 {
            push16(&mut payload, self.identity.device_type);
        } else {
            payload.push((self.identity.manufacturer_id % 256) as u8);
            payload.push((self.identity.device_type % 256) as u8);
        }
        payload.push(self.identity.request_preambles);
        payload.push(self.identity.universal_revision);
        payload.push(self.identity.device_revision);
        payload.push(self.identity.software_revision);
        payload.push(
            (self.identity.hardware_revision % 32) * 8 + self.identity.physical_signaling % 8,
        );
        payload.push(self.identity.flags);
        push24(&mut payload, self.identity.device_id);
        if self.identity.universal_revision >= 6 {
            payload.push(self.identity.response_preambles);
            payload.push(self.identity.maximum_device_variables);
            push16(&mut payload, self.identity.configuration_change_counter);
            payload.push(self.identity.extended_status);
        }
        if self.identity.universal_revision >= 7 {
            push16(&mut payload, self.identity.manufacturer_id);
            push16(&mut payload, self.identity.private_label_distributor);
            payload.push(self.identity.device_profile);
        }
        assert(payload@ =~= self.identity.payload());
        payload
    }
}

/// The identification that the emulated device sends decodes to its identity.
/// Before HART 7 it has one byte for the manufacturer and one for the type.
pub proof fn lemma_emulated_identity_decodes(identity: EmulatedIdentity)
    requires
        identity.request_preambles != 0,
    ensures
        ({
            let revision = identity.universal_revision;
            identity_of(identity.payload()) == Ok::<IdentityView, crate::operation::OperationError>(
                IdentityView {
                    response_identifier: 0xfe,
                    manufacturer_id: if revision >= 7 {
                        identity.manufacturer_id
                    } else {
                        identity.manufacturer_id % 256
                    },
                    device_type: if revision >= 7 {
                        identity.device_type
                    } else {
                        identity.device_type % 256
                    },
                    request_preambles: identity.request_preambles,
                    universal_revision: revision,
                    device_revision: identity.device_revision,
                    software_revision: identity.software_revision,
                    hardware_revision: identity.hardware_revision % 32,
                    physical_signaling: identity.physical_signaling % 8,
                    flags: identity.flags,
                    device_id: identity.device_id % 0x100_0000,
                    response_preambles: if revision >= 6 {
                        Some(identity.response_preambles)
                    } else {
                        None
                    },
                    maximum_device_variables: if revision >= 6 {
                        Some(identity.maximum_device_variables)
                    } else {
                        None
                    },
                    configuration_change_counter: if revision >= 6 {
                        Some(identity.configuration_change_counter)
                    } else {
                        None
                    },
                    extended_status: if revision >= 6 {
                        Some(identity.extended_status)
                    } else {
                        None
                    },
                    private_label_distributor: if revision >= 7 {
                        Some(identity.private_label_distributor)
                    } else {
                        None
                    },
                    device_profile: if revision >= 7 {
                        Some(identity.device_profile)
                    } else {
                        None
                    },
                    extension: Seq::empty(),
                },
            )
        }),
{
    let data = identity.payload();
    crate::bytes::lemma_be16_round_trip(identity.device_type, 0, 0);
    crate::bytes::lemma_be16_round_trip(identity.configuration_change_counter, 0, 0);
    crate::bytes::lemma_be16_round_trip(identity.manufacturer_id, 0, 0);
    crate::bytes::lemma_be16_round_trip(identity.private_label_distributor, 0, 0);
    crate::bytes::lemma_be24_round_trip(identity.device_id, 0, 0, 0);
    assert(data[1] == identity.type_bytes()[0]);
    assert(data[2] == identity.type_bytes()[1]);
    assert(data[9] == be24(identity.device_id)[0]);
    assert(data[10] == be24(identity.device_id)[1]);
    assert(data[11] == be24(identity.device_id)[2]);
    if identity.universal_revision >= 6 {
        assert(data[14] == be16(identity.configuration_change_counter)[0]);
        assert(data[15] == be16(identity.configuration_change_counter)[1]);
    }
    if identity.universal_revision >= 7 {
        assert(data[17] == be16(identity.manufacturer_id)[0]);
        assert(data[18] == be16(identity.manufacturer_id)[1]);
        assert(data[19] == be16(identity.private_label_distributor)[0]);
        assert(data[20] == be16(identity.private_label_distributor)[1]);
    }
    assert(data.skip(required_length(identity.universal_revision)) =~= Seq::<u8>::empty());
}

/// The emulated device accepts requests to the long address that its own
/// identification gives.
pub proof fn lemma_reported_address_is_accepted(
    device: &EmulatedDevice,
    master: crate::wire::Master,
)
    requires
        device.identity.request_preambles != 0,
        device.identity.device_id <= 0xff_ffff,
    ensures
        identity_of(device.identity.payload()) matches Ok(identity)
            && identity.long_address(master) matches Ok(address) && device.addressed(address),
{
    lemma_emulated_identity_decodes(device.identity);
}

/// The response to a request is a reply to its logical command: it comes from
/// the address that was asked, with the status of the device, and with data
/// where the command is one that the device implements.
pub proof fn lemma_response_is_the_reply(device: &EmulatedDevice, request: FrameView)
    requires
        request.kind is Request,
        request.wire_command == 31 ==> request.payload.len() >= 2,
    ensures
        ({
            let response = device.response(request);
            let command = EmulatedDevice::requested(request);
            let known = command == 0 || command == 1 || command == 2 || command == 48;
            &&& response.kind is Response
            &&& response.preambles >= 2
            &&& response.address == request.address
            &&& response.expansion == request.expansion
            &&& response.physical_layer == request.physical_layer
            &&& response.wire_command == request.wire_command
            &&& request.wire_command == 31 ==> command == from_be16(
                request.payload[0],
                request.payload[1],
            )
            &&& request.wire_command != 31 ==> command == request.wire_command
            &&& ReplyView::of_frame(response) matches Ok(reply) && reply.command.0 == command
                && reply.device_status == device.status && reply.response_code == (if known {
                0u8
            } else {
                64u8
            }) && (!known ==> reply.data.len() == 0) && reply.data == device.reply_data(command)
        }),
{
    let command = EmulatedDevice::requested(request);
    let response = device.response(request);
    crate::bytes::lemma_be16_round_trip(command, 0, 0);
    let reply = ReplyView::of_frame(response);
    assert(reply is Ok);
    if request.wire_command == 31 {
        assert(response.payload[2] == be16(command)[0]);
        assert(response.payload[3] == be16(command)[1]);
        assert(reply->Ok_0.data =~= device.reply_data(command));
    } else {
        assert(reply->Ok_0.data =~= device.reply_data(command));
    }
}

/// Faults act as they say: a dropped transmission leaves no fragment; a
/// corrupted one differs in the lowest bit of its last byte and nowhere else;
/// noise comes first. All but the echo, the fragment size and the latency act
/// once.
pub proof fn lemma_faults(plan: PlanView, bytes: Seq<u8>)
    ensures
        plan.drop_next ==> plan.fragments(bytes).len() == 0,
        !plan.corrupt_next ==> plan.on_the_line(bytes) == plan.noise_prefix + bytes,
        plan.corrupt_next && bytes.len() > 0 ==> ({
            let line = plan.on_the_line(bytes);
            let clean = plan.noise_prefix + bytes;
            &&& line.len() == clean.len()
            &&& forall|i: int| 0 <= i < line.len() - 1 ==> line[i] == clean[i]
            &&& line.last() != clean.last()
            &&& line.last() / 2 == clean.last() / 2
        }),
        plan.spent().spent() == plan.spent(),
        !plan.spent().drop_next,
        !plan.spent().corrupt_next,
        plan.spent().noise_prefix.len() == 0,
        plan.spent().echo == plan.echo,
        plan.spent().fragment_size == plan.fragment_size,
        plan.spent().latency == plan.latency,
{
    if plan.corrupt_next && bytes.len() > 0 {
        lemma_lowest_bit((plan.noise_prefix + bytes).last());
    }
}

proof fn lemma_lowest_bit(byte: u8)
    by (bit_vector)
    ensures
        byte ^ 1 != byte,
        (byte ^ 1) / 2 == byte / 2,
{
}

/// Every fragment has the given size but the last, which may be shorter, and
/// none is empty.
pub proof fn lemma_fragment_sizes(bytes: Seq<u8>, size: nat, index: int)
    requires
        size > 0,
        0 <= index < chunked(bytes, size).len(),
    ensures
        0 < chunked(bytes, size)[index].len() <= size,
        index < chunked(bytes, size).len() - 1 ==> chunked(bytes, size)[index].len() == size,
        chunked(bytes, size)[index] == bytes.subrange(
            index * size,
            index * size + chunked(bytes, size)[index].len(),
        ),
        index * size + chunked(bytes, size)[index].len() <= bytes.len(),
    decreases bytes.len(),
{
    if bytes.len() > size {
        let rest = bytes.skip(size as int);
        let chunks = chunked(bytes, size);
        if index > 0 {
            lemma_fragment_sizes(rest, size, index - 1);
            let chunk = chunks[index];
            assert(chunk == chunked(rest, size)[index - 1]);
            assert((index - 1) * size + size == index * size) by (nonlinear_arith);
            assert(chunk =~= bytes.subrange(index * size, index * size + chunk.len()));
        } else {
            assert(0 * size == 0) by (nonlinear_arith);
            assert(chunks[0] =~= bytes.subrange(0, size as int));
        }
    } else {
        assert(index == 0);
        assert(0 * size == 0) by (nonlinear_arith);
        assert(bytes.subrange(0, bytes.len() as int) =~= bytes);
    }
}

/// A device answers requests to its own address and, from either master, to the
/// long address that its identity gives; it answers no other address and no
/// frame that is not a request.
pub proof fn lemma_device_answers_its_addresses(device: &EmulatedDevice, frame: FrameView)
    ensures
        device.served(EventView::Frame(frame)) <==> frame.kind is Request && (frame.address
            == device.address || (frame.address matches Address::Unique {
            expanded_type,
            device_id,
            ..
        } && device.identity.device_id <= 0xff_ffff && device_id == device.identity.device_id
            && expanded_type == device.identity.address_type())),
        forall|error: crate::wire::WireError| !device.served(EventView::Rejected(error)),
{
}

/// What a device sends for its values is read back as its values.
pub proof fn lemma_emulated_values_are_read(
    device: &EmulatedDevice,
    reply: ReplyView,
    primary: Result<PrimaryValue, OperationError>,
    signal: Result<LoopSignal, OperationError>,
    status: Result<AdditionalStatus, OperationError>,
)
    requires
        reply.response_code == EmulatedDevice::reply_code(reply.command.0),
        reply.data == device.reply_data(reply.command.0),
        ReadPrimaryValue.decodes(reply, primary),
        ReadLoopSignal.decodes(reply, signal),
        ReadAdditionalStatus.decodes(reply, status),
    ensures
        reply.command.0 == 1 ==> (primary matches Ok(value) && value.unit == device.primary_unit
            && value.value == device.primary_value),
        reply.command.0 == 2 ==> (signal matches Ok(value) && value.milliamps
            == device.loop_current && value.percent == device.percent),
        reply.command.0 == 48 ==> (status matches Ok(value) && value.bytes@
            == device.additional_status@),
{
    lemma_primary_value_round_trip(
        reply,
        PrimaryValue { unit: device.primary_unit, value: device.primary_value },
        primary,
    );
    lemma_loop_signal_round_trip(
        reply,
        LoopSignal { milliamps: device.loop_current, percent: device.percent },
        signal,
    );
    lemma_information_is_the_bytes(reply, Err(OperationError::TrailingBytes(0)), status);
}

/// An endpoint hands out what it received in order, never more than fits, and
/// keeps the rest.
pub proof fn lemma_endpoint_reads_in_order(
    endpoint: &mut MemoryEndpoint,
    capacity: usize,
    result: Result<Option<Vec<u8>>, ChannelError>,
)
    requires
        call_ensures(MemoryEndpoint::receive, (endpoint, capacity), result),
    ensures
        result is Err <==> capacity == 0,
        result matches Ok(None) ==> old(endpoint).unread().len() == 0,
        result matches Ok(Some(bytes)) ==> 0 < bytes@.len() <= capacity && bytes@
            + final(endpoint).unread() == old(endpoint).unread() && (bytes@.len() == capacity
            || final(endpoint).unread().len() == 0),
        !(result matches Ok(Some(_))) ==> final(endpoint).unread() == old(endpoint).unread(),
        final(endpoint).plan() == old(endpoint).plan(),
{
    if let Ok(Some(bytes)) = result {
        assert(bytes@ + final(endpoint).unread() =~= old(endpoint).unread());
    }
}

} // verus!
