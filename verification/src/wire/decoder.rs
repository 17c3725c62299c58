use vstd::prelude::*;

use crate::bytes::copy_range;
use crate::counters::counted;
use crate::wire::address::Address;
use crate::wire::frame::{Frame, FrameKind, FrameRepair, FrameView, PhysicalLayer, WireError};
use crate::wire::{xor_all, xor_checksum};

verus! {

/// Hard upper bound for an incomplete streaming-decoder tail.
pub const MAXIMUM_DECODE_BUFFER_CAPACITY: usize = 16 * 1024 * 1024;

/// Largest number of frame or rejection events produced by one input fragment.
pub const MAXIMUM_DECODE_EVENTS_PER_PUSH: usize = 4096;

/// Strictly bounded compatibility policy for a confirmed gateway behavior.
#[derive(Debug, Clone, Copy, PartialEq, Eq, Structural)]
pub enum ChecksumPolicy {
    /// Reject every checksum mismatch.
    Strict,
    /// Allow only explicitly listed hardware distortions.
    KnownGateway {
        /// Allow alteration of the reserved `0x10` delimiter bit.
        delimiter_bit: bool,
        /// Allow a checksum calculated before the specified short address was rewritten.
        checksum_source_node: Option<u8>,
    },
}

impl Default for ChecksumPolicy {
    fn default() -> (policy: Self)
        ensures
            policy == ChecksumPolicy::Strict,
    {
        ChecksumPolicy::Strict
    }
}

impl ChecksumPolicy {
    /// Whether an altered reserved delimiter bit is accepted.
    pub open spec fn repairs_delimiter(self) -> bool {
        self matches ChecksumPolicy::KnownGateway { delimiter_bit, .. } && delimiter_bit
    }

    /// The short address whose rewriting is accepted, if any.
    pub open spec fn rewritten_from(self) -> Option<u8> {
        match self {
            ChecksumPolicy::KnownGateway { checksum_source_node: Some(node), .. } => if node
                <= 63 {
                Some(node)
            } else {
                None
            },
            _ => None,
        }
    }

    fn allow_delimiter_repair(self) -> (allowed: bool)
        ensures
            allowed == self.repairs_delimiter(),
    {
        match self {
            ChecksumPolicy::Strict => false,
            ChecksumPolicy::KnownGateway { delimiter_bit, .. } => delimiter_bit,
        }
    }
}

/// Streaming decoder limits.
#[derive(Debug, Clone, Copy, PartialEq, Eq, Structural)]
pub struct DecodeLimits {
    /// Maximum number of buffered bytes between calls.
    pub buffer_capacity: usize,
    /// Minimum number of preambles required to recognize a frame.
    pub minimum_preambles: u8,
    /// Checksum and known-distortion policy.
    pub checksum_policy: ChecksumPolicy,
}

impl Default for DecodeLimits {
    fn default() -> (limits: Self)
        ensures
            limits == (DecodeLimits {
                buffer_capacity: 4096,
                minimum_preambles: 2,
                checksum_policy: ChecksumPolicy::Strict,
            }),
    {
        DecodeLimits {
            buffer_capacity: 4096,
            minimum_preambles: 2,
            checksum_policy: ChecksumPolicy::Strict,
        }
    }
}

impl DecodeLimits {
    /// The limits that a decoder can work with.
    pub open spec fn usable(self) -> bool {
        &&& 1 <= self.buffer_capacity <= MAXIMUM_DECODE_BUFFER_CAPACITY
        &&& self.minimum_preambles >= 1
    }

    /// The nearest limits that a decoder can work with.
    pub open spec fn clamped(self) -> DecodeLimits {
        DecodeLimits {
            buffer_capacity: if self.buffer_capacity == 0 {
                1
            } else if self.buffer_capacity > MAXIMUM_DECODE_BUFFER_CAPACITY {
                MAXIMUM_DECODE_BUFFER_CAPACITY
            } else {
                self.buffer_capacity
            },
            minimum_preambles: if self.minimum_preambles == 0 {
                1
            } else {
                self.minimum_preambles
            },
            checksum_policy: self.checksum_policy,
        }
    }

    /// What is wrong with the limits, if anything.
    pub open spec fn violation(self) -> Option<DecodeLimitsError> {
        if self.buffer_capacity == 0 {
            Some(DecodeLimitsError::EmptyBuffer)
        } else if self.buffer_capacity > MAXIMUM_DECODE_BUFFER_CAPACITY {
            Some(DecodeLimitsError::BufferLimit(self.buffer_capacity))
        } else if self.minimum_preambles == 0 {
            Some(DecodeLimitsError::NoPreambles)
        } else {
            match self.checksum_policy {
                ChecksumPolicy::KnownGateway { checksum_source_node: Some(node), .. } => if node
                    > 63 {
                    Some(DecodeLimitsError::ChecksumSourceNode(node))
                } else {
                    None
                },
                _ => None,
            }
        }
    }

    /// Sets the maximum retained incomplete stream tail.
    pub fn with_buffer_capacity(self, buffer_capacity: usize) -> (limits: Self)
        ensures
            limits == (DecodeLimits { buffer_capacity, ..self }),
    {
        DecodeLimits { buffer_capacity, ..self }
    }

    /// Sets the minimum preamble run required before a delimiter.
    pub fn with_minimum_preambles(self, minimum_preambles: u8) -> (limits: Self)
        ensures
            limits == (DecodeLimits { minimum_preambles, ..self }),
    {
        DecodeLimits { minimum_preambles, ..self }
    }

    /// Sets the checksum acceptance policy.
    pub fn with_checksum_policy(self, checksum_policy: ChecksumPolicy) -> (limits: Self)
        ensures
            limits == (DecodeLimits { checksum_policy, ..self }),
    {
        DecodeLimits { checksum_policy, ..self }
    }

    /// Validates direct decoder resource and compatibility settings.
    pub fn validate(self) -> (result: Result<(), DecodeLimitsError>)
        ensures
            result == match self.violation() {
                Some(error) => Err(error),
                None => Ok(()),
            },
    {
        if self.buffer_capacity == 0 {
            return Err(DecodeLimitsError::EmptyBuffer);
        }
        if self.buffer_capacity > MAXIMUM_DECODE_BUFFER_CAPACITY {
            return Err(DecodeLimitsError::BufferLimit(self.buffer_capacity));
        }
        if self.minimum_preambles == 0 {
            return Err(DecodeLimitsError::NoPreambles);
        }
        if let ChecksumPolicy::KnownGateway { checksum_source_node: Some(node), .. } =
            self.checksum_policy {
            if node > 63 {
                return Err(DecodeLimitsError::ChecksumSourceNode(node));
            }
        }
        Ok(())
    }
}

/// Invalid direct streaming-decoder configuration.
#[derive(Debug, Clone, Copy, PartialEq, Eq, Structural)]
pub enum DecodeLimitsError {
    /// No bytes could be retained between fragments.
    EmptyBuffer,
    /// The requested retained tail is implausibly large.
    BufferLimit(usize),
    /// A preamble-free candidate policy is not accepted by validated construction.
    NoPreambles,
    /// A known gateway source node must fit a short HART address.
    ChecksumSourceNode(u8),
}

/// Streaming decoder counters.
#[derive(Debug, Clone, Copy, PartialEq, Eq, Structural)]
pub struct DecodeStatistics {
    /// Successfully decoded frames.
    pub frames: u64,
    /// Discarded unrelated bytes.
    pub discarded_bytes: u64,
    /// Frames with an invalid checksum.
    pub checksum_failures: u64,
    /// Bytes removed because of the memory limit.
    pub overflow_bytes: u64,
    /// Frames accepted only through the explicit compatibility policy.
    pub repaired_frames: u64,
    /// Input batches truncated after producing too many individual events.
    pub event_limit_hits: u64,
}

impl Default for DecodeStatistics {
    fn default() -> (statistics: Self)
        ensures
            statistics == DecodeStatistics::zero(),
    {
        DecodeStatistics {
            frames: 0,
            discarded_bytes: 0,
            checksum_failures: 0,
            overflow_bytes: 0,
            repaired_frames: 0,
            event_limit_hits: 0,
        }
    }
}

impl DecodeStatistics {
    /// Counters of a decoder that has seen nothing.
    pub open spec fn zero() -> DecodeStatistics {
        DecodeStatistics {
            frames: 0,
            discarded_bytes: 0,
            checksum_failures: 0,
            overflow_bytes: 0,
            repaired_frames: 0,
            event_limit_hits: 0,
        }
    }
}

/// Result produced while advancing the streaming decoder.
#[derive(Debug, PartialEq, Eq)]
pub enum DecodeEvent {
    /// A complete validated frame was received.
    Frame(Frame),
    /// A damaged frame was found; the decoder continued searching.
    Rejected(WireError),
}

/// What an event holds, with the frame as its view.
#[verifier::ext_equal]
pub enum EventView {
    Frame(FrameView),
    Rejected(WireError),
}

impl View for DecodeEvent {
    type V = EventView;

    open spec fn view(&self) -> EventView {
        match self {
            DecodeEvent::Frame(frame) => EventView::Frame(frame@),
            DecodeEvent::Rejected(error) => EventView::Rejected(*error),
        }
    }
}

impl Clone for DecodeEvent {
    fn clone(&self) -> (copy: Self)
        ensures
            copy@ == self@,
    {
        match self {
            DecodeEvent::Frame(frame) => DecodeEvent::Frame(frame.clone()),
            DecodeEvent::Rejected(error) => DecodeEvent::Rejected(*error),
        }
    }
}

/// The views of a list of events.
pub open spec fn event_views(events: Seq<DecodeEvent>) -> Seq<EventView> {
    events.map_values(|event: DecodeEvent| event@)
}

/// Number of preamble bytes that directly precede a position.
pub open spec fn preamble_run(bytes: Seq<u8>, index: int) -> nat
    decreases index,
{
    if index <= 0 || bytes[index - 1] != 0xff {
        0
    } else {
        1 + preamble_run(bytes, index - 1)
    }
}

/// Whether a byte can stand for a delimiter under a policy.
pub open spec fn possible_delimiter(byte: u8, policy: ChecksumPolicy) -> bool {
    FrameKind::of_delimiter(byte) is Some || (policy.repairs_delimiter()
        && FrameKind::of_delimiter(byte ^ 0x10) is Some)
}

/// Whether a frame may start with the delimiter at a position.
pub open spec fn candidate(bytes: Seq<u8>, index: int, limits: DecodeLimits) -> bool {
    &&& possible_delimiter(bytes[index], limits.checksum_policy)
    &&& preamble_run(bytes, index) >= limits.minimum_preambles
}

/// The first position at or after `from` where a frame may start.
pub open spec fn first_candidate(bytes: Seq<u8>, from: int, limits: DecodeLimits) -> Option<int>
    decreases bytes.len() - from,
{
    if from >= bytes.len() {
        None
    } else if candidate(bytes, from, limits) {
        Some(from)
    } else {
        first_candidate(bytes, from + 1, limits)
    }
}

/// At most 255 preambles are kept in front of a frame.
pub open spec fn kept_preambles(run: nat) -> nat {
    if run > 255 {
        255
    } else {
        run
    }
}

/// What the decoder does next with the buffered bytes.
#[verifier::ext_equal]
pub enum StepView {
    NoCandidate,
    NeedMore,
    Discard(nat),
    Rejected { error: WireError, consumed: nat, checksum_failure: bool },
    Frame { frame: FrameView, consumed: nat },
}

/// A repair of the short address that explains a checksum difference.
pub open spec fn address_repair(
    policy: ChecksumPolicy,
    received: u8,
    expected: u8,
    actual: u8,
) -> Option<FrameRepair> {
    match policy.rewritten_from() {
        Some(source) => {
            let reconstructed = received ^ expected ^ actual;
            if reconstructed & 0xc0 == received & 0xc0 && reconstructed & 0x3f == source {
                Some(FrameRepair::ShortAddressRewrite { checksum_source_node: source })
            } else {
                None
            }
        },
        None => None,
    }
}

/// The delimiter as the frame layout reads it, with the reserved bit restored
/// where the policy allows that.
pub open spec fn effective_delimiter(byte: u8, policy: ChecksumPolicy) -> u8 {
    if FrameKind::of_delimiter(byte) is None && policy.repairs_delimiter()
        && FrameKind::of_delimiter(byte ^ 0x10) is Some {
        byte ^ 0x10
    } else {
        byte
    }
}

/// Reads the frame whose delimiter stands at `start`, after `start` preambles.
pub open spec fn frame_at(bytes: Seq<u8>, start: int, policy: ChecksumPolicy) -> StepView {
    let delimiter = effective_delimiter(bytes[start], policy);
    let long = delimiter & 0x80 != 0;
    let address_len = if long {
        5int
    } else {
        1int
    };
    let expansion_len = ((delimiter >> 5) & 0x03) as int;
    let command = start + 1 + address_len + expansion_len;
    let payload = command + 2;
    let end = payload + bytes[command + 1];
    if bytes.len() <= command + 1 || bytes.len() <= end {
        StepView::NeedMore
    } else {
        let expected = xor_all(bytes.subrange(start, end));
        let actual = bytes[end];
        let delimiter_explains = policy.repairs_delimiter() && expected ^ 0x10 == actual;
        let address_explains = if expected != actual && !delimiter_explains && !long {
            address_repair(policy, bytes[start + 1], expected, actual)
        } else {
            None
        };
        if expected != actual && !delimiter_explains && address_explains is None {
            StepView::Rejected {
                error: WireError::Checksum { expected, actual },
                consumed: (start + 1) as nat,
                checksum_failure: true,
            }
        } else {
            match FrameKind::of_delimiter(delimiter) {
                None => StepView::Rejected {
                    error: WireError::Delimiter(delimiter),
                    consumed: (start + 1) as nat,
                    checksum_failure: false,
                },
                Some(kind) => StepView::Frame {
                    frame: FrameView {
                        preambles: start as u8,
                        kind,
                        physical_layer: PhysicalLayer::of_delimiter(delimiter),
                        address: Address::parsed(
                            bytes.subrange(start + 1, bytes.len() as int),
                            long,
                        )->Ok_0,
                        expansion: bytes.subrange(start + 1 + address_len, command),
                        wire_command: bytes[command],
                        payload: bytes.subrange(payload, end),
                        repair: if address_explains is Some {
                            address_explains
                        } else if delimiter_explains || delimiter != bytes[start] {
                            Some(FrameRepair::DelimiterBit)
                        } else {
                            None
                        },
                    },
                    consumed: (end + 1) as nat,
                },
            }
        }
    }
}

/// What the decoder does next with the buffered bytes.
pub open spec fn step(bytes: Seq<u8>, limits: DecodeLimits) -> StepView {
    match first_candidate(bytes, 0, limits) {
        None => StepView::NoCandidate,
        Some(index) => {
            let kept = kept_preambles(preamble_run(bytes, index));
            if index > kept {
                StepView::Discard((index - kept) as nat)
            } else {
                frame_at(bytes, index, limits.checksum_policy)
            }
        },
    }
}

/// Buffered bytes and counters of a decoder.
#[verifier::ext_equal]
pub struct DecoderState {
    pub buffered: Seq<u8>,
    pub statistics: DecodeStatistics,
}

impl DecoderState {
    /// The state after the first `count` bytes were dropped as unrelated.
    pub open spec fn discarded(self, count: nat) -> DecoderState {
        DecoderState {
            buffered: self.buffered.skip(count as int),
            statistics: DecodeStatistics {
                discarded_bytes: counted(self.statistics.discarded_bytes, count),
                ..self.statistics
            },
        }
    }

    /// The state after everything but a possible preamble was dropped.
    pub open spec fn trimmed(self) -> DecoderState {
        let length = self.buffered.len();
        self.discarded((length - kept_preambles(preamble_run(self.buffered, length as int))) as nat)
    }

    /// The state after one damaged or complete frame, and what was found.
    pub open spec fn next(self, limits: DecodeLimits) -> (DecoderState, Option<EventView>)
        decreases self.buffered.len(),
    {
        match step(self.buffered, limits) {
            StepView::NoCandidate => (self.trimmed(), None),
            StepView::NeedMore => (self, None),
            StepView::Discard(count) => if 0 < count <= self.buffered.len() {
                self.discarded(count).next(limits)
            } else {
                (self, None)
            },
            StepView::Rejected { error, consumed, checksum_failure } => {
                let noted = DecoderState {
                    statistics: DecodeStatistics {
                        checksum_failures: counted(
                            self.statistics.checksum_failures,
                            if checksum_failure {
                                1
                            } else {
                                0
                            },
                        ),
                        ..self.statistics
                    },
                    ..self
                };
                (noted.discarded(consumed), Some(EventView::Rejected(error)))
            },
            StepView::Frame { frame, consumed } => (
                DecoderState {
                    buffered: self.buffered.skip(consumed as int),
                    statistics: DecodeStatistics {
                        frames: counted(self.statistics.frames, 1),
                        repaired_frames: counted(
                            self.statistics.repaired_frames,
                            if frame.repair is Some {
                                1
                            } else {
                                0
                            },
                        ),
                        ..self.statistics
                    },
                },
                Some(EventView::Frame(frame)),
            ),
        }
    }

    /// The state after at most `room` events, and those events in order.
    pub open spec fn drained(self, limits: DecodeLimits, room: nat) -> (
        DecoderState,
        Seq<EventView>,
    )
        decreases room,
    {
        if room == 0 {
            (self, seq![])
        } else {
            let (after, event) = self.next(limits);
            match event {
                None => (after, seq![]),
                Some(event) => {
                    let (last, events) = after.drained(limits, (room - 1) as nat);
                    (last, seq![event] + events)
                },
            }
        }
    }

    /// The state after a fragment was added under the memory limit: the newest
    /// bytes stay, and the ones that had to leave are counted.
    pub open spec fn appended(self, limits: DecodeLimits, fragment: Seq<u8>) -> DecoderState {
        let whole = self.buffered + fragment;
        if whole.len() <= limits.buffer_capacity {
            DecoderState { buffered: whole, ..self }
        } else {
            let overflow = (whole.len() - limits.buffer_capacity) as nat;
            DecoderState {
                buffered: whole.skip(overflow as int),
                statistics: DecodeStatistics {
                    overflow_bytes: counted(self.statistics.overflow_bytes, overflow),
                    ..self.statistics
                },
            }
        }
    }

    /// The state after a fragment was pushed, and the events it completed.
    pub open spec fn pushed(self, limits: DecodeLimits, fragment: Seq<u8>) -> (
        DecoderState,
        Seq<EventView>,
    ) {
        let (last, events) = self.appended(limits, fragment).drained(
            limits,
            MAXIMUM_DECODE_EVENTS_PER_PUSH as nat,
        );
        if events.len() == MAXIMUM_DECODE_EVENTS_PER_PUSH && last.buffered.len() > 0 {
            let hit = DecoderState {
                statistics: DecodeStatistics {
                    event_limit_hits: counted(last.statistics.event_limit_hits, 1),
                    ..last.statistics
                },
                ..last
            };
            (hit.trimmed(), events)
        } else {
            (last, events)
        }
    }
}

/// Decoder that accepts arbitrary transport-stream fragments.
#[derive(Debug, Clone)]
pub struct FrameDecoder {
    bytes: Vec<u8>,
    limits: DecodeLimits,
    statistics: DecodeStatistics,
}

enum DecoderStep {
    NoCandidate,
    NeedMore,
    Discard(usize),
    Rejected { error: WireError, consumed: usize, checksum_failure: bool },
    Frame { frame: Frame, consumed: usize },
}

impl DecoderStep {
    spec fn view(self) -> StepView {
        match self {
            DecoderStep::NoCandidate => StepView::NoCandidate,
            DecoderStep::NeedMore => StepView::NeedMore,
            DecoderStep::Discard(count) => StepView::Discard(count as nat),
            DecoderStep::Rejected { error, consumed, checksum_failure } => StepView::Rejected {
                error,
                consumed: consumed as nat,
                checksum_failure,
            },
            DecoderStep::Frame { frame, consumed } => StepView::Frame {
                frame: frame@,
                consumed: consumed as nat,
            },
        }
    }
}

impl View for FrameDecoder {
    type V = DecoderState;

    closed spec fn view(&self) -> DecoderState {
        DecoderState { buffered: self.bytes@, statistics: self.statistics }
    }
}

impl FrameDecoder {
    /// The effective limits.
    pub closed spec fn effective_limits(&self) -> DecodeLimits {
        self.limits
    }

    /// The decoder can work with its limits and keeps to its memory bound.
    pub open spec fn well_formed(&self) -> bool {
        &&& self.effective_limits().usable()
        &&& self@.buffered.len() <= self.effective_limits().buffer_capacity
    }

    /// Creates a decoder with the specified memory limit.
    pub fn new(limits: DecodeLimits) -> (decoder: Self)
        ensures
            decoder.well_formed(),
            decoder.effective_limits() == limits.clamped(),
            decoder@ == (DecoderState {
                buffered: seq![],
                statistics: DecodeStatistics::zero(),
            }),
    {
        let buffer_capacity: usize = if limits.buffer_capacity == 0 {
            1
        } else if limits.buffer_capacity > MAXIMUM_DECODE_BUFFER_CAPACITY {
            MAXIMUM_DECODE_BUFFER_CAPACITY
        } else {
            limits.buffer_capacity
        };
        let minimum_preambles: u8 = if limits.minimum_preambles == 0 {
            1
        } else {
            limits.minimum_preambles
        };
        FrameDecoder {
            bytes: Vec::new(),
            limits: DecodeLimits {
                buffer_capacity,
                minimum_preambles,
                checksum_policy: limits.checksum_policy,
            },
            statistics: DecodeStatistics::default(),
        }
    }

    /// Creates a decoder after rejecting invalid limits instead of clamping them.
    pub fn try_new(limits: DecodeLimits) -> (result: Result<Self, DecodeLimitsError>)
        ensures
            match limits.violation() {
                Some(error) => result == Err::<Self, DecodeLimitsError>(error),
                None => result matches Ok(decoder) && decoder.well_formed()
                    && decoder.effective_limits() == limits && decoder@ == (DecoderState {
                    buffered: seq![],
                    statistics: DecodeStatistics::zero(),
                }),
            },
    {
        match limits.validate() {
            Err(error) => Err(error),
            Ok(()) => Ok(FrameDecoder::new(limits)),
        }
    }

    /// Returns the effective decoder limits.
    pub fn limits(&self) -> (limits: DecodeLimits)
        ensures
            limits == self.effective_limits(),
    {
        self.limits
    }

    /// Adds a fragment and returns all completed events.
    pub fn push(&mut self, fragment: &[u8]) -> (events: Vec<DecodeEvent>)
        requires
            old(self).well_formed(),
        ensures
            final(self).well_formed(),
            final(self).effective_limits() == old(self).effective_limits(),
            (final(self)@, event_views(events@)) == old(self)@.pushed(
                old(self).effective_limits(),
                fragment@,
            ),
    {
        self.append_bounded(fragment);
        let mut events: Vec<DecodeEvent> = Vec::new();
        let ghost start = self@;
        let mut open = true;
        assert(event_views(events@) =~= seq![]);
        assert(event_views(events@) + start.drained(
            self.limits,
            MAXIMUM_DECODE_EVENTS_PER_PUSH as nat,
        ).1 =~= start.drained(self.limits, MAXIMUM_DECODE_EVENTS_PER_PUSH as nat).1);
        while open && events.len() < MAXIMUM_DECODE_EVENTS_PER_PUSH
            invariant
                self.well_formed(),
                self.limits == old(self).limits,
                events@.len() <= MAXIMUM_DECODE_EVENTS_PER_PUSH,
                start == old(self)@.appended(self.limits, fragment@),
                ({
                    let room = (MAXIMUM_DECODE_EVENTS_PER_PUSH - events@.len()) as nat;
                    let rest = self@.drained(self.limits, room);
                    let whole = start.drained(
                        self.limits,
                        MAXIMUM_DECODE_EVENTS_PER_PUSH as nat,
                    );
                    if open {
                        &&& whole.0 == rest.0
                        &&& whole.1 == event_views(events@) + rest.1
                    } else {
                        &&& whole.0 == self@
                        &&& whole.1 == event_views(events@)
                    }
                }),
            decreases
                    (if open {
                        1int
                    } else {
                        0int
                    }) + MAXIMUM_DECODE_EVENTS_PER_PUSH - events@.len(),
        {
            let ghost before = self@;
            let ghost found = event_views(events@);
            match self.next_event() {
                Some(event) => {
                    let ghost rest = self@.drained(
                        self.limits,
                        (MAXIMUM_DECODE_EVENTS_PER_PUSH - events@.len() - 1) as nat,
                    ).1;
                    events.push(event);
                    assert(event_views(events@) =~= found.push(event@));
                    assert(found + (seq![event@] + rest) =~= found.push(event@) + rest);
                },
                None => {
                    open = false;
                    assert(found + Seq::<EventView>::empty() =~= found);
                },
            }
        }
        assert(open ==> event_views(events@) + Seq::<EventView>::empty() =~= event_views(events@));
        if events.len() == MAXIMUM_DECODE_EVENTS_PER_PUSH && !self.bytes.is_empty() {
            self.statistics.event_limit_hits = self.statistics.event_limit_hits.saturating_add(1);
            self.retain_possible_preambles();
        }
        events
    }

    /// Returns accumulated counters.
    pub fn statistics(&self) -> (statistics: DecodeStatistics)
        ensures
            statistics == self@.statistics,
    {
        self.statistics
    }

    /// Returns the number of incomplete buffered bytes.
    pub fn buffered_len(&self) -> (length: usize)
        ensures
            length == self@.buffered.len(),
    {
        self.bytes.len()
    }

    /// Removes the incomplete stream tail.
    pub fn clear(&mut self)
        ensures
            final(self).effective_limits() == old(self).effective_limits(),
            final(self)@ == (DecoderState { buffered: seq![], ..old(self)@ }),
            old(self).well_formed() ==> final(self).well_formed(),
    {
        self.bytes.clear();
    }

    fn append_bounded(&mut self, fragment: &[u8])
        requires
            old(self).well_formed(),
        ensures
            final(self).well_formed(),
            final(self).limits == old(self).limits,
            final(self)@ == old(self)@.appended(old(self).limits, fragment@),
    {
        let capacity: usize = self.limits.buffer_capacity;
        let buffered: usize = self.bytes.len();
        let ghost whole = self.bytes@ + fragment@;
        let room: usize = capacity - buffered;
        if fragment.len() <= room {
            crate::bytes::append_bytes(&mut self.bytes, fragment);
            return ;
        }
        let overflow: usize = fragment.len() - room;
        let from_buffer: usize = if overflow < buffered {
            overflow
        } else {
            buffered
        };
        let mut kept = self.bytes.split_off(from_buffer);
        let from_fragment: usize = overflow - from_buffer;
        let tail = vstd::slice::slice_subrange(fragment, from_fragment, fragment.len());
        crate::bytes::append_bytes(&mut kept, tail);
        assert(kept@ =~= whole.skip(overflow as int));
        self.bytes = kept;
        self.statistics.overflow_bytes = self.statistics.overflow_bytes.saturating_add(
            overflow as u64,
        );
    }

    fn next_event(&mut self) -> (event: Option<DecodeEvent>)
        requires
            old(self).well_formed(),
        ensures
            final(self).well_formed(),
            final(self).limits == old(self).limits,
            ({
                let (after, expected) = old(self)@.next(old(self).limits);
                &&& final(self)@ == after
                &&& match event {
                    Some(found) => expected == Some(found@),
                    None => expected is None,
                }
            }),
    {
        let ghost goal = old(self)@.next(old(self).limits);
        loop
            invariant
                self.well_formed(),
                self.limits == old(self).limits,
                self@.next(self.limits) == goal,
                goal == old(self)@.next(old(self).limits),
            decreases self.bytes@.len(),
        {
            let found = FrameDecoder::analyze(&self.bytes, self.limits);
            match found {
                DecoderStep::NoCandidate => {
                    self.retain_possible_preambles();
                    return None;
                },
                DecoderStep::NeedMore => {
                    return None;
                },
                DecoderStep::Discard(count) => {
                    self.discard(count);
                },
                DecoderStep::Rejected { error, consumed, checksum_failure } => {
                    if checksum_failure {
                        self.statistics.checksum_failures =
                        self.statistics.checksum_failures.saturating_add(1);
                    }
                    self.discard(consumed);
                    return Some(DecodeEvent::Rejected(error));
                },
                DecoderStep::Frame { frame, consumed } => {
                    let ghost whole = self.bytes@;
                    let rest = self.bytes.split_off(consumed);
                    assert(rest@ =~= whole.skip(consumed as int));
                    self.bytes = rest;
                    self.statistics.frames = self.statistics.frames.saturating_add(1);
                    if frame.repair.is_some() {
                        self.statistics.repaired_frames =
                        self.statistics.repaired_frames.saturating_add(1);
                    }
                    return Some(DecodeEvent::Frame(frame));
                },
            }
        }
    }

    fn analyze(bytes: &Vec<u8>, limits: DecodeLimits) -> (found: DecoderStep)
        requires
            bytes@.len() <= MAXIMUM_DECODE_BUFFER_CAPACITY,
            limits.usable(),
        ensures
            found.view() == step(bytes@, limits),
            match found {
                DecoderStep::Discard(count) => 0 < count <= bytes@.len(),
                DecoderStep::Rejected { consumed, .. } => 0 < consumed <= bytes@.len(),
                DecoderStep::Frame { consumed, .. } => 0 < consumed <= bytes@.len(),
                _ => true,
            },
    {
        let (start, run): (usize, usize) = match FrameDecoder::find_candidate(bytes, limits) {
            None => {
                return DecoderStep::NoCandidate;
            },
            Some(found) => found,
        };
        let kept: usize = if run > 255 {
            255
        } else {
            run
        };
        if start > kept {
            return DecoderStep::Discard(start - kept);
        }
        let policy = limits.checksum_policy;
        let received: u8 = bytes[start];
        let mut delimiter: u8 = received;
        if FrameKind::from_delimiter(delimiter).is_none() && policy.allow_delimiter_repair()
            && FrameKind::from_delimiter(delimiter ^ 0x10).is_some() {
            delimiter = delimiter ^ 0x10;
        }
        let ghost effective = effective_delimiter(received, policy);
        let long = delimiter & 0x80 != 0;
        let address_len: usize = if long {
            5
        } else {
            1
        };
        proof {
            lemma_expansion_bits(delimiter);
        }
        let expansion_len: usize = ((delimiter >> 5) & 0x03) as usize;
        let command: usize = start + 1 + address_len + expansion_len;
        if bytes.len() <= command + 1 {
            return DecoderStep::NeedMore;
        }
        let payload: usize = command + 2;
        let end: usize = payload + bytes[command + 1] as usize;
        if bytes.len() <= end {
            return DecoderStep::NeedMore;
        }
        let expected: u8 = xor_checksum(bytes, start, end);
        let actual: u8 = bytes[end];
        let delimiter_explains = policy.allow_delimiter_repair() && expected ^ 0x10 == actual;
        let address_explains = if expected != actual && !delimiter_explains && !long {
            FrameDecoder::short_address_repair(policy, bytes[start + 1], expected, actual)
        } else {
            None
        };
        if expected != actual && !delimiter_explains && address_explains.is_none() {
            return DecoderStep::Rejected {
                error: WireError::Checksum { expected, actual },
                consumed: start + 1,
                checksum_failure: true,
            };
        }
        let repair = if address_explains.is_some() {
            address_explains
        } else if delimiter_explains || delimiter != received {
            Some(FrameRepair::DelimiterBit)
        } else {
            None
        };
        let address = match Address::read_from(bytes, start + 1, long) {
            Ok(address) => address,
            Err(error) => {
                return DecoderStep::Rejected {
                    error,
                    consumed: end + 1,
                    checksum_failure: false,
                };
            },
        };
        let kind = match FrameKind::from_delimiter(delimiter) {
            Some(kind) => kind,
            None => {
                return DecoderStep::Rejected {
                    error: WireError::Delimiter(delimiter),
                    consumed: start + 1,
                    checksum_failure: false,
                };
            },
        };
        DecoderStep::Frame {
            frame: Frame {
                preambles: start as u8,
                kind,
                physical_layer: PhysicalLayer::from_delimiter(delimiter),
                address,
                expansion: copy_range(bytes, start + 1 + address_len, command),
                wire_command: bytes[command],
                payload: copy_range(bytes, payload, end),
                repair,
            },
            consumed: end + 1,
        }
    }

    /// The first delimiter after enough preambles, and the length of its run.
    fn find_candidate(bytes: &Vec<u8>, limits: DecodeLimits) -> (found: Option<(usize, usize)>)
        ensures
            match found {
                Some((index, run)) => {
                    &&& index < bytes@.len()
                    &&& first_candidate(bytes@, 0, limits) == Some(index as int)
                    &&& run == preamble_run(bytes@, index as int)
                },
                None => first_candidate(bytes@, 0, limits) is None,
            },
    {
        let mut index: usize = 0;
        let mut run: usize = 0;
        while index < bytes.len()
            invariant
                index <= bytes@.len(),
                run == preamble_run(bytes@, index as int),
                run <= index,
                first_candidate(bytes@, 0, limits) == first_candidate(
                    bytes@,
                    index as int,
                    limits,
                ),
            decreases bytes@.len() - index,
        {
            let byte: u8 = bytes[index];
            if run >= limits.minimum_preambles as usize && FrameDecoder::is_possible_delimiter(
                byte,
                limits.checksum_policy,
            ) {
                return Some((index, run));
            }
            if byte == 0xff {
                run += 1;
            } else {
                run = 0;
            }
            index += 1;
        }
        None
    }

    fn retain_possible_preambles(&mut self)
        requires
            old(self).well_formed(),
        ensures
            final(self).well_formed(),
            final(self).limits == old(self).limits,
            final(self)@ == old(self)@.trimmed(),
    {
        let length: usize = self.bytes.len();
        let mut keep: usize = 0;
        proof {
            lemma_run_bound(self.bytes@, length as int);
        }
        while keep < 255 && keep < length && self.bytes[length - keep - 1] == 0xff
            invariant
                keep <= 255,
                keep <= length,
                length == self.bytes@.len(),
                preamble_run(self.bytes@, length as int) == keep + preamble_run(
                    self.bytes@,
                    length - keep,
                ),
            decreases length - keep,
        {
            keep += 1;
        }
        self.discard(length - keep);
    }

    fn discard(&mut self, count: usize)
        requires
            old(self).well_formed(),
            count <= old(self).bytes@.len(),
        ensures
            final(self).well_formed(),
            final(self).limits == old(self).limits,
            final(self)@ == old(self)@.discarded(count as nat),
    {
        let rest = self.bytes.split_off(count);
        self.bytes = rest;
        self.statistics.discarded_bytes = self.statistics.discarded_bytes.saturating_add(
            count as u64,
        );
        assert(self@.buffered =~= old(self)@.buffered.skip(count as int));
    }

    fn is_possible_delimiter(byte: u8, policy: ChecksumPolicy) -> (possible: bool)
        ensures
            possible == possible_delimiter(byte, policy),
    {
        FrameKind::from_delimiter(byte).is_some() || (policy.allow_delimiter_repair()
            && FrameKind::from_delimiter(byte ^ 0x10).is_some())
    }

    fn short_address_repair(
        policy: ChecksumPolicy,
        received_address: u8,
        expected: u8,
        actual: u8,
    ) -> (repair: Option<FrameRepair>)
        ensures
            repair == address_repair(policy, received_address, expected, actual),
    {
        let source: u8 = match policy {
            ChecksumPolicy::KnownGateway { checksum_source_node: Some(source), .. } => source,
            _ => {
                return None;
            },
        };
        if source > 63 {
            return None;
        }
        let reconstructed: u8 = received_address ^ expected ^ actual;
        if reconstructed & 0xc0 == received_address & 0xc0 && reconstructed & 0x3f == source {
            Some(FrameRepair::ShortAddressRewrite { checksum_source_node: source })
        } else {
            None
        }
    }
}

impl Default for FrameDecoder {
    fn default() -> (decoder: Self)
        ensures
            decoder.well_formed(),
            decoder.effective_limits() == (DecodeLimits {
                buffer_capacity: 4096,
                minimum_preambles: 2,
                checksum_policy: ChecksumPolicy::Strict,
            }),
            decoder@ == (DecoderState {
                buffered: seq![],
                statistics: DecodeStatistics::zero(),
            }),
    {
        FrameDecoder::new(DecodeLimits::default())
    }
}

proof fn lemma_expansion_bits(delimiter: u8)
    by (bit_vector)
    ensures
        (delimiter >> 5) & 0x03 <= 3,
{
}

proof fn lemma_run_bound(bytes: Seq<u8>, index: int)
    requires
        0 <= index,
    ensures
        preamble_run(bytes, index) <= index,
    decreases index,
{
    if index > 0 && bytes[index - 1] == 0xff {
        lemma_run_bound(bytes, index - 1);
    }
}

} // verus!
