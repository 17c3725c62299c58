//! Byte-exact channel recording and deterministic scenario replay.

use std::collections::VecDeque;

use vstd::prelude::*;

use crate::bytes::{
    append_bytes, append_queue, copy_bytes, copy_range, drain_front, le16, le32, push_le16, push_le32,
    same_bytes,
};
use crate::channel::ChannelError;
use crate::counters::counted;
use crate::time::Duration;

verus! {

/// Default upper bound for retained capture payload bytes.
pub const DEFAULT_MAXIMUM_TRACE_BYTES: usize = 16 * 1024 * 1024;

/// Hard upper bound for retained trace payload bytes.
pub const MAXIMUM_TRACE_BYTES: usize = 256 * 1024 * 1024;

/// Hard upper bound for retained trace chunk metadata.
pub const MAXIMUM_TRACE_RECORDS: usize = 1_048_576;

/// Default upper bound for steps retained by one replay channel.
pub const DEFAULT_MAXIMUM_REPLAY_STEPS: usize = 65_536;

/// Default upper bound for payload bytes retained by one replay channel.
pub const DEFAULT_MAXIMUM_REPLAY_BYTES: usize = 16 * 1024 * 1024;

/// Hard upper bound for replay step metadata.
pub const MAXIMUM_REPLAY_STEPS: usize = 1_048_576;

/// Hard upper bound for replay payload bytes.
pub const MAXIMUM_REPLAY_BYTES: usize = 256 * 1024 * 1024;

/// Independent limits for a byte-exact capture.
#[derive(Debug, Clone, Copy, PartialEq, Eq, Structural)]
pub struct TraceLimits {
    /// Maximum number of retained chunks.
    pub maximum_records: usize,
    /// Maximum combined payload size of retained chunks.
    pub maximum_bytes: usize,
}

impl Default for TraceLimits {
    fn default() -> (limits: Self)
        ensures
            limits.maximum_records == 4096,
            limits.maximum_bytes == DEFAULT_MAXIMUM_TRACE_BYTES,
    {
        TraceLimits { maximum_records: 4096, maximum_bytes: DEFAULT_MAXIMUM_TRACE_BYTES }
    }
}

/// A number moved into a range.
pub open spec fn clamped(value: usize, least: usize, most: usize) -> usize {
    if value < least {
        least
    } else if value > most {
        most
    } else {
        value
    }
}

fn clamp(value: usize, least: usize, most: usize) -> (result: usize)
    ensures
        result == clamped(value, least, most),
{
    if value < least {
        least
    } else if value > most {
        most
    } else {
        value
    }
}

impl TraceLimits {
    /// What is wrong with the limits, if anything.
    pub open spec fn violation(self) -> Option<TraceLimitsError> {
        if self.maximum_records == 0 || self.maximum_bytes == 0 {
            Some(TraceLimitsError::ZeroLimit)
        } else if self.maximum_records > MAXIMUM_TRACE_RECORDS {
            Some(TraceLimitsError::RecordLimit(self.maximum_records))
        } else if self.maximum_bytes > MAXIMUM_TRACE_BYTES {
            Some(TraceLimitsError::ByteLimit(self.maximum_bytes))
        } else {
            None
        }
    }

    /// The closest limits that a recorder works with.
    pub open spec fn effective(self) -> TraceLimits {
        TraceLimits {
            maximum_records: clamped(self.maximum_records, 1, MAXIMUM_TRACE_RECORDS),
            maximum_bytes: clamped(self.maximum_bytes, 1, MAXIMUM_TRACE_BYTES),
        }
    }

    /// Sets the retained chunk-count limit.
    pub fn with_maximum_records(self, maximum_records: usize) -> (limits: Self)
        ensures
            limits == (TraceLimits { maximum_records, ..self }),
    {
        TraceLimits { maximum_records, ..self }
    }

    /// Sets the aggregate retained payload-byte limit.
    pub fn with_maximum_bytes(self, maximum_bytes: usize) -> (limits: Self)
        ensures
            limits == (TraceLimits { maximum_bytes, ..self }),
    {
        TraceLimits { maximum_bytes, ..self }
    }

    /// Validates strict recorder resource limits.
    pub fn validate(self) -> (result: Result<(), TraceLimitsError>)
        ensures
            result == match self.violation() {
                Some(error) => Err::<(), TraceLimitsError>(error),
                None => Ok(()),
            },
    {
        if self.maximum_records == 0 || self.maximum_bytes == 0 {
            return Err(TraceLimitsError::ZeroLimit);
        }
        if self.maximum_records > MAXIMUM_TRACE_RECORDS {
            return Err(TraceLimitsError::RecordLimit(self.maximum_records));
        }
        if self.maximum_bytes > MAXIMUM_TRACE_BYTES {
            return Err(TraceLimitsError::ByteLimit(self.maximum_bytes));
        }
        Ok(())
    }
}

/// Invalid strict trace recorder limits.
#[derive(Debug, Clone, Copy, PartialEq, Eq, Structural)]
pub enum TraceLimitsError {
    /// A recorder limit would prevent all progress.
    ZeroLimit,
    /// The requested record count is implausibly large.
    RecordLimit(usize),
    /// The requested retained payload size is implausibly large.
    ByteLimit(usize),
}

/// Direction of a recorded chunk.
#[derive(Debug, Clone, Copy, PartialEq, Eq, Structural)]
pub enum TraceDirection {
    /// From the host application to the link.
    Outbound,
    /// From the link to the host application.
    Inbound,
}

/// One chunk with its host-system timestamp.
#[derive(Debug, Clone, PartialEq, Eq)]
pub struct TraceRecord {
    /// Direction.
    pub direction: TraceDirection,
    /// Capture time since the Unix epoch.
    pub timestamp: Duration,
    /// Unmodified bytes.
    pub bytes: Vec<u8>,
}

/// Combined payload size of records.
pub open spec fn payload(records: Seq<TraceRecord>) -> nat
    decreases records.len(),
{
    if records.len() == 0 {
        0
    } else {
        records[0].bytes@.len() + payload(records.drop_first())
    }
}

proof fn lemma_payload_push(records: Seq<TraceRecord>, record: TraceRecord)
    ensures
        payload(records.push(record)) == payload(records) + record.bytes@.len(),
    decreases records.len(),
{
    reveal_with_fuel(payload, 2);
    if records.len() == 0 {
        assert(records.push(record).drop_first() =~= Seq::<TraceRecord>::empty());
    } else {
        assert(records.push(record).drop_first() =~= records.drop_first().push(record));
        lemma_payload_push(records.drop_first(), record);
    }
}

proof fn lemma_payload_split(records: Seq<TraceRecord>, count: nat)
    requires
        count <= records.len(),
    ensures
        payload(records) == payload(records.take(count as int)) + payload(
            records.skip(count as int),
        ),
    decreases count,
{
    if count == 0 {
        assert(records.skip(0) =~= records);
        assert(records.take(0).len() == 0);
    } else {
        let rest = records.drop_first();
        lemma_payload_split(rest, (count - 1) as nat);
        assert(records.take(count as int).drop_first() =~= rest.take(count - 1));
        assert(records.skip(count as int) =~= rest.skip(count - 1));
    }
}

proof fn lemma_payload_bounds_each(records: Seq<TraceRecord>, index: int)
    requires
        0 <= index < records.len(),
    ensures
        records[index].bytes@.len() <= payload(records),
    decreases records.len(),
{
    if index > 0 {
        lemma_payload_bounds_each(records.drop_first(), index - 1);
    }
}

/// Whether a chunk of some size fits beside records.
pub open spec fn has_room(records: Seq<TraceRecord>, limits: TraceLimits, size: nat) -> bool {
    records.len() < limits.maximum_records && payload(records) + size <= limits.maximum_bytes
}

/// How many of the oldest records leave before a chunk of some size fits.
pub open spec fn evicted(records: Seq<TraceRecord>, limits: TraceLimits, size: nat) -> nat
    decreases records.len(),
{
    if records.len() == 0 || has_room(records, limits, size) {
        0
    } else {
        1 + evicted(records.drop_first(), limits, size)
    }
}

/// What a recorder holds.
#[verifier::ext_equal]
pub struct TraceState {
    /// Retained records, the oldest first.
    pub records: Seq<TraceRecord>,
    /// Effective limits.
    pub limits: TraceLimits,
    /// Evicted or rejected records.
    pub dropped_records: u64,
    /// Combined payload size of evicted or rejected records.
    pub dropped_bytes: u64,
}

impl TraceState {
    /// A recorder that holds nothing.
    pub open spec fn fresh(limits: TraceLimits) -> TraceState {
        TraceState {
            records: Seq::empty(),
            limits: limits.effective(),
            dropped_records: 0,
            dropped_bytes: 0,
        }
    }

    /// The recorder after a record was offered.
    pub open spec fn pushed(self, record: TraceRecord) -> TraceState {
        let size = record.bytes@.len();
        if size > self.limits.maximum_bytes {
            TraceState {
                dropped_records: counted(self.dropped_records, 1),
                dropped_bytes: counted(self.dropped_bytes, size),
                ..self
            }
        } else {
            let count = evicted(self.records, self.limits, size);
            TraceState {
                records: self.records.skip(count as int).push(record),
                dropped_records: counted(self.dropped_records, count),
                dropped_bytes: counted(
                    self.dropped_bytes,
                    payload(self.records.take(count as int)),
                ),
                ..self
            }
        }
    }
}

/// No more records leave than must: the chunk fits beside those that stay,
/// and would not beside any more of them.
pub proof fn lemma_eviction_is_least(records: Seq<TraceRecord>, limits: TraceLimits, size: nat)
    requires
        limits.violation() is None,
        size <= limits.maximum_bytes,
    ensures
        evicted(records, limits, size) <= records.len(),
        has_room(records.skip(evicted(records, limits, size) as int), limits, size),
        forall|fewer: int|
            0 <= fewer < evicted(records, limits, size) ==> !has_room(
                #[trigger] records.skip(fewer),
                limits,
                size,
            ),
    decreases records.len(),
{
    if records.len() == 0 || has_room(records, limits, size) {
        assert(records.skip(0) =~= records);
    } else {
        let rest = records.drop_first();
        let count = evicted(rest, limits, size);
        lemma_eviction_is_least(rest, limits, size);
        assert(records.skip(count as int + 1) =~= rest.skip(count as int));
        assert forall|fewer: int| 0 <= fewer < count + 1 implies !has_room(
            #[trigger] records.skip(fewer),
            limits,
            size,
        ) by {
            if fewer == 0 {
                assert(records.skip(0) =~= records);
            } else {
                assert(records.skip(fewer) =~= rest.skip(fewer - 1));
            }
        }
    }
}

/// Every payload byte that was offered is retained or counted as dropped, as
/// long as the counter does not stand at its largest value.
pub proof fn lemma_bytes_are_accounted(state: TraceState, record: TraceRecord)
    requires
        state.limits.violation() is None,
        state.pushed(record).dropped_bytes < u64::MAX,
    ensures
        payload(state.pushed(record).records) + state.pushed(record).dropped_bytes == payload(
            state.records,
        ) + state.dropped_bytes + record.bytes@.len(),
{
    let size = record.bytes@.len();
    if size <= state.limits.maximum_bytes {
        let count = evicted(state.records, state.limits, size);
        lemma_eviction_is_least(state.records, state.limits, size);
        lemma_payload_split(state.records, count);
        lemma_payload_push(state.records.skip(count as int), record);
    }
}

/// Whether a chunk was added to a record.
pub open spec fn noted(
    before: TraceState,
    direction: TraceDirection,
    timestamp: Duration,
    bytes: Seq<u8>,
    after: TraceState,
) -> bool {
    exists|record: TraceRecord|
        record.direction == direction && record.timestamp == timestamp && record.bytes@ == bytes
            && after == #[trigger] before.pushed(record)
}

/// Bounded exchange recorder.
#[derive(Debug, Clone)]
pub struct Trace {
    records: VecDeque<TraceRecord>,
    limits: TraceLimits,
    retained_bytes: usize,
    dropped_records: u64,
    dropped_bytes: u64,
}

impl View for Trace {
    type V = TraceState;

    closed spec fn view(&self) -> TraceState {
        TraceState {
            records: self.records@,
            limits: self.limits,
            dropped_records: self.dropped_records,
            dropped_bytes: self.dropped_bytes,
        }
    }
}

impl Trace {
    /// The limits are usable and kept, and the retained size is the combined
    /// size of the retained records.
    pub closed spec fn well_formed(&self) -> bool {
        &&& self.limits.violation() is None
        &&& self.records@.len() <= self.limits.maximum_records
        &&& payload(self.records@) <= self.limits.maximum_bytes
        &&& self.retained_bytes == payload(self.records@)
    }

    /// A recorder never holds more than its limits allow.
    pub proof fn lemma_limits_are_kept(&self)
        requires
            self.well_formed(),
        ensures
            self@.limits.violation() is None,
            self@.records.len() <= self@.limits.maximum_records,
            payload(self@.records) <= self@.limits.maximum_bytes,
    {
    }

    /// Creates a recorder that evicts the oldest records when full.
    pub fn new(maximum_records: usize) -> (trace: Self)
        ensures
            trace.well_formed(),
            trace@ == TraceState::fresh(
                TraceLimits { maximum_records, maximum_bytes: DEFAULT_MAXIMUM_TRACE_BYTES },
            ),
    {
        Trace::with_limits(TraceLimits::default().with_maximum_records(maximum_records))
    }

    /// Creates a recorder with independent chunk-count and payload-byte limits.
    pub fn with_limits(limits: TraceLimits) -> (trace: Self)
        ensures
            trace.well_formed(),
            trace@ == TraceState::fresh(limits),
    {
        Trace {
            records: VecDeque::new(),
            limits: TraceLimits {
                maximum_records: clamp(limits.maximum_records, 1, MAXIMUM_TRACE_RECORDS),
                maximum_bytes: clamp(limits.maximum_bytes, 1, MAXIMUM_TRACE_BYTES),
            },
            retained_bytes: 0,
            dropped_records: 0,
            dropped_bytes: 0,
        }
    }

    /// Creates a recorder after rejecting invalid limits instead of clamping them.
    pub fn try_with_limits(limits: TraceLimits) -> (result: Result<Self, TraceLimitsError>)
        ensures
            match limits.violation() {
                Some(error) => result == Err::<Self, TraceLimitsError>(error),
                None => result matches Ok(trace) && trace.well_formed() && trace@
                    == TraceState::fresh(limits) && trace@.limits == limits,
            },
    {
        limits.validate()?;
        Ok(Trace::with_limits(limits))
    }

    /// Adds a record.
    pub fn push(&mut self, record: TraceRecord)
        requires
            old(self).well_formed(),
        ensures
            final(self).well_formed(),
            final(self)@ == old(self)@.pushed(record),
    {
        let record_bytes: usize = record.bytes.len();
        if record_bytes > self.limits.maximum_bytes {
            self.note_dropped(record_bytes);
            return;
        }
        let ghost before = *old(self);
        let ghost size = record.bytes@.len();
        let ghost mut count: nat = 0;
        assert(before.records@.skip(0) =~= before.records@);
        assert(before.records@.take(0).len() == 0);
        while self.records.len() >= self.limits.maximum_records || self.retained_bytes
            > self.limits.maximum_bytes - record_bytes
            invariant
                before.well_formed(),
                self.limits == before.limits,
                size == record_bytes,
                record_bytes <= self.limits.maximum_bytes,
                count <= before.records@.len(),
                self.records@ == before.records@.skip(count as int),
                self.retained_bytes == payload(self.records@),
                payload(self.records@) <= self.limits.maximum_bytes,
                self.records@.len() <= self.limits.maximum_records,
                evicted(before.records@, self.limits, size) == count + evicted(
                    self.records@,
                    self.limits,
                    size,
                ),
                self.dropped_records == counted(before.dropped_records, count),
                self.dropped_bytes == counted(
                    before.dropped_bytes,
                    payload(before.records@.take(count as int)),
                ),
            decreases self.records@.len(),
        {
            let ghost current = self.records@;
            assert(current.len() > 0);
            match self.records.pop_front() {
                None => {
                    proof {
                        assert(false);
                    }
                    return;
                },
                Some(gone) => {
                    let gone_bytes: usize = gone.bytes.len();
                    assert(self.records@ =~= current.drop_first());
                    assert(gone == before.records@[count as int]);
                    assert(before.records@.skip(count as int + 1) =~= current.drop_first());
                    proof {
                        let taken = before.records@.take(count as int);
                        assert(before.records@.take(count as int + 1) =~= taken.push(gone));
                        lemma_payload_push(taken, gone);
                        count = count + 1;
                    }
                    self.retained_bytes = self.retained_bytes - gone_bytes;
                    self.note_dropped(gone_bytes);
                },
            }
        }
        proof {
            lemma_payload_push(self.records@, record);
        }
        self.retained_bytes = self.retained_bytes + record_bytes;
        self.records.push_back(record);
        assert(self@ =~= before@.pushed(record));
    }

    /// Adds a chunk captured at a point in time since the Unix epoch.
    pub fn record(&mut self, direction: TraceDirection, timestamp: Duration, bytes: &[u8])
        requires
            old(self).well_formed(),
        ensures
            final(self).well_formed(),
            noted(old(self)@, direction, timestamp, bytes@, final(self)@),
    {
        let record = TraceRecord { direction, timestamp, bytes: copy_bytes(bytes) };
        let ghost given = record;
        self.push(record);
        assert(old(self)@.pushed(given) == self@);
    }

    /// Adds the filled part of a receive buffer, and refuses a fill count that
    /// the buffer cannot hold.
    pub fn record_received(&mut self, timestamp: Duration, buffer: &[u8], count: usize) -> (result:
        Result<usize, ChannelError>)
        requires
            old(self).well_formed(),
        ensures
            final(self).well_formed(),
            if count > buffer@.len() {
                result == Err::<usize, ChannelError>(
                    ChannelError::Configuration(
                        "recorded channel returned more bytes than the receive buffer can hold",
                    ),
                ) && final(self)@ == old(self)@
            } else {
                result == Ok::<usize, ChannelError>(count) && noted(
                    old(self)@,
                    TraceDirection::Inbound,
                    timestamp,
                    buffer@.take(count as int),
                    final(self)@,
                )
            },
    {
        if count > buffer.len() {
            return Err(
                ChannelError::Configuration(
                    "recorded channel returned more bytes than the receive buffer can hold",
                ),
            );
        }
        let record = TraceRecord {
            direction: TraceDirection::Inbound,
            timestamp,
            bytes: copy_range(buffer, 0, count),
        };
        let ghost given = record;
        assert(given.bytes@ =~= buffer@.take(count as int));
        self.push(record);
        assert(old(self)@.pushed(given) == self@);
        Ok(count)
    }

    /// Returns records in chronological order.
    pub fn records(&self) -> (records: Vec<&TraceRecord>)
        ensures
            records@.len() == self@.records.len(),
            forall|i: int| 0 <= i < records@.len() ==> *#[trigger] records@[i] == self@.records[i],
    {
        let mut records: Vec<&TraceRecord> = Vec::new();
        let mut index: usize = 0;
        while index < self.records.len()
            invariant
                index <= self.records@.len(),
                records@.len() == index,
                forall|i: int| 0 <= i < index ==> *#[trigger] records@[i] == self.records@[i],
            decreases self.records@.len() - index,
        {
            records.push(&self.records[index]);
            index += 1;
        }
        records
    }

    /// Returns the number of evicted old records.
    pub fn dropped(&self) -> (count: u64)
        ensures
            count == self@.dropped_records,
    {
        self.dropped_records
    }

    /// Returns the number of payload bytes currently retained.
    pub fn retained_bytes(&self) -> (bytes: usize)
        requires
            self.well_formed(),
        ensures
            bytes == payload(self@.records),
    {
        self.retained_bytes
    }

    /// Returns the combined payload size of evicted or rejected records.
    pub fn dropped_bytes(&self) -> (bytes: u64)
        ensures
            bytes == self@.dropped_bytes,
    {
        self.dropped_bytes
    }

    /// Returns the effective capture limits.
    pub fn limits(&self) -> (limits: TraceLimits)
        ensures
            limits == self@.limits,
    {
        self.limits
    }

    /// Produces PCAP-NG with the USER0 link type.
    pub fn to_pcapng(&self) -> (output: Vec<u8>)
        requires
            self.well_formed(),
        ensures
            output@ == pcapng(self@.records),
    {
        let mut output: Vec<u8> = Vec::new();
        write_section_header(&mut output);
        write_interface(&mut output);
        let mut index: usize = 0;
        assert(self.records@.take(0).len() == 0);
        while index < self.records.len()
            invariant
                index <= self.records@.len(),
                self.well_formed(),
                output@ == section_header() + interface_block() + packet_blocks(
                    self.records@.take(index as int),
                ),
            decreases self.records@.len() - index,
        {
            proof {
                lemma_payload_bounds_each(self.records@, index as int);
                let next = self.records@.take(index + 1);
                assert(next.drop_last() =~= self.records@.take(index as int));
            }
            write_packet(&mut output, &self.records[index]);
            index += 1;
            assert(output@ =~= section_header() + interface_block() + packet_blocks(
                self.records@.take(index as int),
            ));
        }
        assert(self.records@.take(index as int) =~= self.records@);
        output
    }

    fn note_dropped(&mut self, bytes: usize)
        ensures
            final(self).records == old(self).records,
            final(self).limits == old(self).limits,
            final(self).retained_bytes == old(self).retained_bytes,
            final(self).dropped_records == counted(old(self).dropped_records, 1),
            final(self).dropped_bytes == counted(old(self).dropped_bytes, bytes as nat),
    {
        self.dropped_records = self.dropped_records.saturating_add(1);
        self.dropped_bytes = self.dropped_bytes.saturating_add(bytes as u64);
    }
}

/// The block that opens a capture file: byte-order magic, version 1.0 and an
/// unknown section length.
pub open spec fn section_header() -> Seq<u8> {
    le32(0x0a0d_0d0a) + le32(28) + le32(0x1a2b_3c4d) + le16(1) + le16(0) + le32(0xffff_ffff) + le32(
        0xffff_ffff,
    ) + le32(28)
}

/// The block of the one interface: link type USER0 and a snapshot length.
pub open spec fn interface_block() -> Seq<u8> {
    le32(1) + le32(20) + le16(147) + le16(0) + le32(65_535) + le32(20)
}

/// The captured packet: a direction byte and the chunk.
pub open spec fn packet_data(record: TraceRecord) -> Seq<u8> {
    seq![
        match record.direction {
            TraceDirection::Outbound => 0u8,
            TraceDirection::Inbound => 1u8,
        },
    ] + record.bytes@
}

/// Microseconds of a capture time, held at the largest 64-bit number.
pub open spec fn capture_microseconds(timestamp: Duration) -> u64 {
    if timestamp.nanos / 1_000 > u64::MAX {
        u64::MAX
    } else {
        (timestamp.nanos / 1_000) as u64
    }
}

/// A length rounded up to a multiple of four.
pub open spec fn padded(length: nat) -> nat {
    (length + 3) / 4 * 4
}

/// The enhanced packet block of a record.
pub open spec fn packet_block(record: TraceRecord) -> Seq<u8> {
    let data = packet_data(record);
    let total = (32 + padded(data.len())) as u32;
    let time = capture_microseconds(record.timestamp);
    le32(6) + le32(total) + le32(0) + le32((time / 0x1_0000_0000) as u32) + le32(
        (time % 0x1_0000_0000) as u32,
    ) + le32(data.len() as u32) + le32(data.len() as u32) + data + Seq::new(
        (padded(data.len()) - data.len()) as nat,
        |i: int| 0u8,
    ) + le32(total)
}

/// The packet blocks of records, in order.
pub open spec fn packet_blocks(records: Seq<TraceRecord>) -> Seq<u8>
    decreases records.len(),
{
    if records.len() == 0 {
        Seq::empty()
    } else {
        packet_blocks(records.drop_last()) + packet_block(records.last())
    }
}

/// The capture file of records.
pub open spec fn pcapng(records: Seq<TraceRecord>) -> Seq<u8> {
    section_header() + interface_block() + packet_blocks(records)
}

/// The block of a packet is a whole number of 32-bit words long, as long as
/// both of its length fields say.
#[verifier::spinoff_prover]
#[verifier::rlimit(60)]
pub proof fn lemma_packet_block_length(record: TraceRecord)
    requires
        record.bytes@.len() <= MAXIMUM_TRACE_BYTES,
    ensures
        packet_block(record).len() == 32 + padded(record.bytes@.len() + 1),
        packet_block(record).len() % 4 == 0,
        packet_block(record).subrange(4, 8) == le32(packet_block(record).len() as u32),
        packet_block(record).skip(packet_block(record).len() - 4) == le32(
            packet_block(record).len() as u32,
        ),
{
    let data = packet_data(record);
    let total = (32 + padded(data.len())) as u32;
    let time = capture_microseconds(record.timestamp);
    let padding = Seq::new((padded(data.len()) - data.len()) as nat, |i: int| 0u8);
    lemma_framed_words(
        le32(6),
        le32(total),
        le32(0),
        le32((time / 0x1_0000_0000) as u32),
        le32((time % 0x1_0000_0000) as u32),
        le32(data.len() as u32),
        data,
        padding,
    );
}

proof fn lemma_framed_words(
    kind: Seq<u8>,
    total: Seq<u8>,
    interface: Seq<u8>,
    high: Seq<u8>,
    low: Seq<u8>,
    length: Seq<u8>,
    data: Seq<u8>,
    padding: Seq<u8>,
)
    requires
        kind.len() == 4,
        total.len() == 4,
        interface.len() == 4,
        high.len() == 4,
        low.len() == 4,
        length.len() == 4,
    ensures
        ({
            let block = kind + total + interface + high + low + length + length + data + padding
                + total;
            &&& block.len() == 32 + data.len() + padding.len()
            &&& block.subrange(4, 8) == total
            &&& block.skip(block.len() - 4) == total
        }),
{
    let block = kind + total + interface + high + low + length + length + data + padding + total;
    assert(block.subrange(4, 8) =~= total);
    assert(block.skip(block.len() - 4) =~= total);
}

fn write_section_header(output: &mut Vec<u8>)
    ensures
        final(output)@ == old(output)@ + section_header(),
{
    push_le32(output, 0x0a0d_0d0a);
    push_le32(output, 28);
    push_le32(output, 0x1a2b_3c4d);
    push_le16(output, 1);
    push_le16(output, 0);
    push_le32(output, 0xffff_ffff);
    push_le32(output, 0xffff_ffff);
    push_le32(output, 28);
    assert(output@ =~= old(output)@ + section_header());
}

fn write_interface(output: &mut Vec<u8>)
    ensures
        final(output)@ == old(output)@ + interface_block(),
{
    push_le32(output, 1);
    push_le32(output, 20);
    push_le16(output, 147);
    push_le16(output, 0);
    push_le32(output, 65_535);
    push_le32(output, 20);
    assert(output@ =~= old(output)@ + interface_block());
}

#[verifier::spinoff_prover]
#[verifier::rlimit(40)]
fn write_packet(output: &mut Vec<u8>, record: &TraceRecord)
    requires
        record.bytes@.len() <= MAXIMUM_TRACE_BYTES,
    ensures
        final(output)@ == old(output)@ + packet_block(*record),
{
    let mut packet: Vec<u8> = Vec::new();
    packet.push(
        match record.direction {
            TraceDirection::Outbound => 0,
            TraceDirection::Inbound => 1,
        },
    );
    append_bytes(&mut packet, &record.bytes);
    assert(packet@ =~= packet_data(*record));
    let length: usize = packet.len();
    let padded_length: usize = (length + 3) / 4 * 4;
    let total: u32 = (32 + padded_length) as u32;
    let microseconds: u128 = record.timestamp.as_micros();
    let timestamp: u64 = if microseconds > u64::MAX as u128 {
        u64::MAX
    } else {
        microseconds as u64
    };
    push_le32(output, 6);
    push_le32(output, total);
    push_le32(output, 0);
    push_le32(output, (timestamp / 0x1_0000_0000) as u32);
    push_le32(output, (timestamp % 0x1_0000_0000) as u32);
    push_le32(output, length as u32);
    push_le32(output, length as u32);
    append_bytes(output, &packet);
    let ghost filled = output@;
    let mut padding: usize = length;
    while padding < padded_length
        invariant
            length <= padding <= padded_length,
            output@ == filled + Seq::new((padding - length) as nat, |i: int| 0u8),
        decreases padded_length - padding,
    {
        output.push(0);
        padding += 1;
        assert(output@ =~= filled + Seq::new((padding - length) as nat, |i: int| 0u8));
    }
    push_le32(output, total);
    assert(output@ =~= old(output)@ + packet_block(*record));
}

/// Channel together with the record of its incoming and outgoing chunks.
#[derive(Debug)]
pub struct RecordingChannel<C> {
    inner: C,
    trace: Trace,
}

impl<C> RecordingChannel<C> {
    /// The channel.
    pub closed spec fn channel(&self) -> C {
        self.inner
    }

    /// What was recorded.
    pub closed spec fn recorded(&self) -> TraceState {
        self.trace@
    }

    /// The record keeps to its limits.
    pub closed spec fn well_formed(&self) -> bool {
        self.trace.well_formed()
    }

    /// Wraps a channel with a recorder of a number of chunks.
    pub fn new(inner: C, maximum_records: usize) -> (channel: Self)
        ensures
            channel.well_formed(),
            channel.channel() == inner,
            channel.recorded() == TraceState::fresh(
                (TraceLimits {
                    maximum_records,
                    maximum_bytes: DEFAULT_MAXIMUM_TRACE_BYTES,
                }).effective(),
            ),
    {
        RecordingChannel::with_limits(
            inner,
            TraceLimits::default().with_maximum_records(maximum_records),
        )
    }

    /// Wraps a channel with independent capture record and byte limits.
    pub fn with_limits(inner: C, limits: TraceLimits) -> (channel: Self)
        ensures
            channel.well_formed(),
            channel.channel() == inner,
            channel.recorded() == TraceState::fresh(limits.effective()),
    {
        RecordingChannel { inner, trace: Trace::with_limits(limits) }
    }

    /// Wraps a channel after rejecting invalid recorder limits.
    pub fn try_with_limits(inner: C, limits: TraceLimits) -> (result: Result<
        Self,
        TraceLimitsError,
    >)
        ensures
            match limits.violation() {
                Some(error) => result == Err::<Self, TraceLimitsError>(error),
                None => result matches Ok(channel) && channel.well_formed() && channel.channel()
                    == inner && channel.recorded() == TraceState::fresh(limits.effective()),
            },
    {
        limits.validate()?;
        Ok(RecordingChannel::with_limits(inner, limits))
    }

    /// Hands out the channel.
    pub fn inner_mut(&mut self) -> (inner: &mut C)
        requires
            old(self).well_formed(),
        ensures
            *inner == old(self).channel(),
            final(self).channel() == *final(inner),
            final(self).recorded() == old(self).recorded(),
            final(self).well_formed(),
    {
        &mut self.inner
    }

    /// Returns what was recorded.
    pub fn trace(&self) -> (trace: &Trace)
        ensures
            trace@ == self.recorded(),
            self.well_formed() ==> trace.well_formed(),
    {
        &self.trace
    }

    /// Records a chunk that the channel has sent.
    pub fn sent(&mut self, timestamp: Duration, bytes: &[u8])
        requires
            old(self).well_formed(),
        ensures
            final(self).well_formed(),
            final(self).channel() == old(self).channel(),
            noted(
                old(self).recorded(),
                TraceDirection::Outbound,
                timestamp,
                bytes@,
                final(self).recorded(),
            ),
    {
        self.trace.record(TraceDirection::Outbound, timestamp, bytes);
    }

    /// Records a chunk that the channel has received, and refuses a fill count
    /// that the buffer cannot hold.
    pub fn received(&mut self, timestamp: Duration, buffer: &[u8], count: usize) -> (result: Result<
        usize,
        ChannelError,
    >)
        requires
            old(self).well_formed(),
        ensures
            final(self).well_formed(),
            final(self).channel() == old(self).channel(),
            if count > buffer@.len() {
                result == Err::<usize, ChannelError>(
                    ChannelError::Configuration(
                        "recorded channel returned more bytes than the receive buffer can hold",
                    ),
                ) && final(self).recorded() == old(self).recorded()
            } else {
                result == Ok::<usize, ChannelError>(count) && noted(
                    old(self).recorded(),
                    TraceDirection::Inbound,
                    timestamp,
                    buffer@.take(count as int),
                    final(self).recorded(),
                )
            },
    {
        self.trace.record_received(timestamp, buffer, count)
    }
}

/// One step in a replayable scenario.
#[derive(Debug, Clone, PartialEq, Eq)]
pub enum ReplayStep {
    /// Require an exact outgoing sequence.
    Expect(Vec<u8>),
    /// Return an incoming chunk.
    Provide(Vec<u8>),
    /// Return a transport error.
    Fail,
}

impl ReplayStep {
    /// Payload size of the step.
    pub open spec fn size(self) -> nat {
        match self {
            ReplayStep::Expect(bytes) => bytes@.len(),
            ReplayStep::Provide(bytes) => bytes@.len(),
            ReplayStep::Fail => 0,
        }
    }

    fn payload_bytes(&self) -> (bytes: usize)
        ensures
            bytes == self.size(),
    {
        match self {
            ReplayStep::Expect(bytes) => bytes.len(),
            ReplayStep::Provide(bytes) => bytes.len(),
            ReplayStep::Fail => 0,
        }
    }
}

/// Combined payload size of steps.
pub open spec fn scenario_bytes(steps: Seq<ReplayStep>) -> nat
    decreases steps.len(),
{
    if steps.len() == 0 {
        0
    } else {
        scenario_bytes(steps.drop_last()) + steps.last().size()
    }
}

proof fn lemma_scenario_prefix(steps: Seq<ReplayStep>, count: int)
    requires
        0 <= count <= steps.len(),
    ensures
        scenario_bytes(steps.take(count)) <= scenario_bytes(steps),
    decreases steps.len(),
{
    if count < steps.len() {
        assert(steps.drop_last().take(count) =~= steps.take(count));
        lemma_scenario_prefix(steps.drop_last(), count);
    } else {
        assert(steps.take(count) =~= steps);
    }
}

/// Independent construction limits for a deterministic replay scenario.
#[derive(Debug, Clone, Copy, PartialEq, Eq, Structural)]
pub struct ReplayLimits {
    /// Maximum number of retained scenario steps.
    pub maximum_steps: usize,
    /// Maximum combined payload size of all steps.
    pub maximum_bytes: usize,
}

impl Default for ReplayLimits {
    fn default() -> (limits: Self)
        ensures
            limits.maximum_steps == DEFAULT_MAXIMUM_REPLAY_STEPS,
            limits.maximum_bytes == DEFAULT_MAXIMUM_REPLAY_BYTES,
    {
        ReplayLimits {
            maximum_steps: DEFAULT_MAXIMUM_REPLAY_STEPS,
            maximum_bytes: DEFAULT_MAXIMUM_REPLAY_BYTES,
        }
    }
}

impl ReplayLimits {
    /// What is wrong with the limits, if anything.
    pub open spec fn violation(self) -> Option<ReplayBuildError> {
        if self.maximum_steps == 0 || self.maximum_bytes == 0 {
            Some(ReplayBuildError::ZeroLimit)
        } else if self.maximum_steps > MAXIMUM_REPLAY_STEPS {
            Some(ReplayBuildError::StepLimit(self.maximum_steps))
        } else if self.maximum_bytes > MAXIMUM_REPLAY_BYTES {
            Some(ReplayBuildError::ByteLimit(self.maximum_bytes))
        } else {
            None
        }
    }

    /// Whether a prefix of a scenario is the first that breaks a limit, and
    /// how: one step too many, or a payload over the byte limit.
    pub open spec fn broken_by(
        self,
        steps: Seq<ReplayStep>,
        count: nat,
        error: ReplayBuildError,
    ) -> bool {
        &&& count < steps.len()
        &&& count <= self.maximum_steps
        &&& scenario_bytes(steps.take(count as int)) <= self.maximum_bytes
        &&& if count == self.maximum_steps {
            error == ReplayBuildError::ScenarioSteps(self.maximum_steps)
        } else {
            scenario_bytes(steps.take(count as int + 1)) > self.maximum_bytes && error
                == ReplayBuildError::ScenarioBytes(self.maximum_bytes)
        }
    }

    /// Whether a scenario keeps the limits.
    pub open spec fn admits(self, steps: Seq<ReplayStep>) -> bool {
        steps.len() <= self.maximum_steps && scenario_bytes(steps) <= self.maximum_bytes
    }

    /// Sets the scenario step-count limit.
    pub fn with_maximum_steps(self, maximum_steps: usize) -> (limits: Self)
        ensures
            limits == (ReplayLimits { maximum_steps, ..self }),
    {
        ReplayLimits { maximum_steps, ..self }
    }

    /// Sets the aggregate scenario payload-byte limit.
    pub fn with_maximum_bytes(self, maximum_bytes: usize) -> (limits: Self)
        ensures
            limits == (ReplayLimits { maximum_bytes, ..self }),
    {
        ReplayLimits { maximum_bytes, ..self }
    }

    /// Validates replay construction limits.
    pub fn validate(self) -> (result: Result<(), ReplayBuildError>)
        ensures
            result == match self.violation() {
                Some(error) => Err::<(), ReplayBuildError>(error),
                None => Ok(()),
            },
    {
        if self.maximum_steps == 0 || self.maximum_bytes == 0 {
            return Err(ReplayBuildError::ZeroLimit);
        }
        if self.maximum_steps > MAXIMUM_REPLAY_STEPS {
            return Err(ReplayBuildError::StepLimit(self.maximum_steps));
        }
        if self.maximum_bytes > MAXIMUM_REPLAY_BYTES {
            return Err(ReplayBuildError::ByteLimit(self.maximum_bytes));
        }
        Ok(())
    }
}

/// Invalid replay limits or a scenario that exceeds them.
#[derive(Debug, Clone, Copy, PartialEq, Eq, Structural)]
pub enum ReplayBuildError {
    /// A construction limit would prevent useful scenarios.
    ZeroLimit,
    /// The configured step count exceeds the hard safety bound.
    StepLimit(usize),
    /// The configured payload budget exceeds the hard safety bound.
    ByteLimit(usize),
    /// The supplied scenario contains too many steps.
    ScenarioSteps(usize),
    /// The supplied scenario retains too many payload bytes.
    ScenarioBytes(usize),
}

/// What is left of a scenario.
#[verifier::ext_equal]
pub struct ReplayState {
    /// Steps still to come.
    pub steps: Seq<ReplayStep>,
    /// Provided bytes that were not read yet.
    pub pending: Seq<u8>,
}

impl ReplayState {
    /// The state after a write, and its result.
    pub open spec fn sent(self, bytes: Seq<u8>) -> (ReplayState, Result<(), ChannelError>) {
        if self.steps.len() == 0 {
            (self, Err(ChannelError::Closed))
        } else {
            (
                ReplayState { steps: self.steps.drop_first(), ..self },
                match self.steps[0] {
                    ReplayStep::Expect(expected) => if expected@ == bytes {
                        Ok(())
                    } else {
                        Err(
                            ChannelError::Configuration(
                                "outgoing bytes do not match the scenario",
                            ),
                        )
                    },
                    _ => Err(
                        ChannelError::Configuration("scenario expected a read, not a write"),
                    ),
                },
            )
        }
    }

    /// The state in which a read finds bytes, or why it finds none.
    pub open spec fn loaded(self) -> (ReplayState, Option<ChannelError>) {
        if self.pending.len() > 0 {
            (self, None)
        } else if self.steps.len() == 0 {
            (self, Some(ChannelError::Closed))
        } else {
            let rest = ReplayState { steps: self.steps.drop_first(), ..self };
            match self.steps[0] {
                ReplayStep::Provide(bytes) => (ReplayState { pending: bytes@, ..rest }, None),
                ReplayStep::Fail => (
                    rest,
                    Some(ChannelError::Configuration("scheduled read failure")),
                ),
                ReplayStep::Expect(_) => (
                    rest,
                    Some(ChannelError::Configuration("scenario expected a write, not a read")),
                ),
            }
        }
    }
}

/// Channel that executes a predefined scenario.
#[derive(Debug)]
pub struct ReplayChannel {
    steps: VecDeque<ReplayStep>,
    pending: VecDeque<u8>,
}

impl View for ReplayChannel {
    type V = ReplayState;

    closed spec fn view(&self) -> ReplayState {
        ReplayState { steps: self.steps@, pending: self.pending@ }
    }
}

impl ReplayChannel {
    /// Creates a replay channel with bounded default limits.
    pub fn new(steps: Vec<ReplayStep>) -> (result: Result<Self, ReplayBuildError>)
        ensures
            ({
                let limits = ReplayLimits {
                    maximum_steps: DEFAULT_MAXIMUM_REPLAY_STEPS,
                    maximum_bytes: DEFAULT_MAXIMUM_REPLAY_BYTES,
                };
                match result {
                    Ok(channel) => limits.admits(steps@) && channel@ == (ReplayState {
                        steps: steps@,
                        pending: Seq::empty(),
                    }),
                    Err(error) => !limits.admits(steps@) && exists|count: nat|
                        limits.broken_by(steps@, count, error),
                }
            }),
    {
        ReplayChannel::with_limits(steps, ReplayLimits::default())
    }

    /// Creates a replay channel after validating the complete scenario.
    ///
    /// Steps are looked at in order, and none behind the first that breaks a limit.
    pub fn with_limits(steps: Vec<ReplayStep>, limits: ReplayLimits) -> (result: Result<
        Self,
        ReplayBuildError,
    >)
        ensures
            match limits.violation() {
                Some(error) => result == Err::<Self, ReplayBuildError>(error),
                None => match result {
                    Ok(channel) => limits.admits(steps@) && channel@ == (ReplayState {
                        steps: steps@,
                        pending: Seq::empty(),
                    }),
                    Err(error) => !limits.admits(steps@) && exists|count: nat|
                        limits.broken_by(steps@, count, error),
                },
            },
    {
        limits.validate()?;
        let ghost given = steps@;
        let mut retained_bytes: usize = 0;
        let mut bounded: VecDeque<ReplayStep> = VecDeque::new();
        assert(given.take(0).len() == 0);
        for step in iterator: steps
            invariant
                limits.violation() is None,
                iterator.seq() == given,
                bounded@ == given.take(iterator.index() as int),
                bounded@.len() <= limits.maximum_steps,
                retained_bytes == scenario_bytes(bounded@),
                retained_bytes <= limits.maximum_bytes,
        {
            let ghost count = bounded@.len();
            if bounded.len() >= limits.maximum_steps {
                assert(limits.broken_by(
                    given,
                    count,
                    ReplayBuildError::ScenarioSteps(limits.maximum_steps),
                ));
                return Err(ReplayBuildError::ScenarioSteps(limits.maximum_steps));
            }
            let step_bytes: usize = step.payload_bytes();
            proof {
                assert(given.take(count as int + 1).drop_last() =~= bounded@);
                assert(given.take(count as int + 1).last() == step);
                lemma_scenario_prefix(given, count as int + 1);
            }
            if step_bytes > limits.maximum_bytes - retained_bytes {
                assert(limits.broken_by(
                    given,
                    count,
                    ReplayBuildError::ScenarioBytes(limits.maximum_bytes),
                ));
                return Err(ReplayBuildError::ScenarioBytes(limits.maximum_bytes));
            }
            retained_bytes = retained_bytes + step_bytes;
            bounded.push_back(step);
            assert(bounded@ =~= given.take(count as int + 1));
        }
        assert(bounded@ =~= given);
        Ok(ReplayChannel { steps: bounded, pending: VecDeque::new() })
    }

    /// Reports whether the complete scenario was consumed.
    pub fn is_complete(&self) -> (complete: bool)
        ensures
            complete == (self@.steps.len() == 0 && self@.pending.len() == 0),
    {
        self.steps.len() == 0 && self.pending.len() == 0
    }

    /// Writes a chunk that the scenario must expect next.
    pub fn send(&mut self, bytes: &[u8]) -> (result: Result<(), ChannelError>)
        ensures
            final(self)@ == old(self)@.sent(bytes@).0,
            result == old(self)@.sent(bytes@).1,
    {
        let ghost before = self@;
        let result = match self.steps.pop_front() {
            Some(ReplayStep::Expect(expected)) => if same_bytes(&expected, bytes) {
                Ok(())
            } else {
                Err(ChannelError::Configuration("outgoing bytes do not match the scenario"))
            },
            Some(_) => Err(ChannelError::Configuration("scenario expected a read, not a write")),
            None => Err(ChannelError::Closed),
        };
        assert(self@ =~= before.sent(bytes@).0);
        result
    }

    /// Reads at most `capacity` bytes that the scenario provides.
    pub fn receive(&mut self, capacity: usize) -> (result: Result<Vec<u8>, ChannelError>)
        ensures
            if capacity == 0 {
                final(self)@ == old(self)@ && result == Err::<Vec<u8>, ChannelError>(
                    ChannelError::Configuration("replay receive buffer cannot be empty"),
                )
            } else {
                match old(self)@.loaded() {
                    (state, Some(error)) => final(self)@ == state && result == Err::<
                        Vec<u8>,
                        ChannelError,
                    >(error),
                    (state, None) => {
                        let count = if capacity <= state.pending.len() {
                            capacity as int
                        } else {
                            state.pending.len() as int
                        };
                        &&& result matches Ok(chunk)
                        &&& chunk@ == state.pending.take(count)
                        &&& final(self)@ == (ReplayState {
                            pending: state.pending.skip(count),
                            ..state
                        })
                    },
                }
            },
    {
        if capacity == 0 {
            return Err(ChannelError::Configuration("replay receive buffer cannot be empty"));
        }
        let ghost before = self@;
        if self.pending.len() == 0 {
            match self.steps.pop_front() {
                Some(ReplayStep::Provide(bytes)) => {
                    assert(self.steps@ =~= before.steps.drop_first());
                    append_queue(&mut self.pending, &bytes);
                    assert(self.pending@ =~= bytes@);
                },
                Some(ReplayStep::Fail) => {
                    assert(self.steps@ =~= before.steps.drop_first());
                    return Err(ChannelError::Configuration("scheduled read failure"));
                },
                Some(ReplayStep::Expect(_)) => {
                    assert(self.steps@ =~= before.steps.drop_first());
                    return Err(
                        ChannelError::Configuration("scenario expected a write, not a read"),
                    );
                },
                None => return Err(ChannelError::Closed),
            }
        }
        let ghost state = before.loaded().0;
        assert(self@ =~= state);
        let count: usize = if capacity <= self.pending.len() {
            capacity
        } else {
            self.pending.len()
        };
        Ok(drain_front(&mut self.pending, count))
    }
}

/// A record that fits is kept behind the others, for which the oldest leave;
/// the ones that stay keep their order. A record that can never fit changes
/// nothing but the counts. Every record that is not kept is counted.
pub proof fn lemma_newest_record_is_kept(state: TraceState, record: TraceRecord)
    requires
        state.limits.violation() is None,
        state.dropped_records + state.records.len() < u64::MAX,
    ensures
        ({
            let after = state.pushed(record);
            let gone = state.records.len() + 1 - after.records.len();
            &&& record.bytes@.len() <= state.limits.maximum_bytes ==> after.records.len() > 0
                && after.records.last() == record && 0 <= gone <= state.records.len()
                && after.records.take(after.records.len() - 1) == state.records.skip(gone)
                && after.records.len() <= state.limits.maximum_records && payload(after.records)
                <= state.limits.maximum_bytes && after.dropped_records == state.dropped_records
                + gone
            &&& record.bytes@.len() > state.limits.maximum_bytes ==> after.records == state.records
                && after.dropped_records == state.dropped_records + 1
            &&& after.limits == state.limits
        }),
{
    let size = record.bytes@.len();
    if size <= state.limits.maximum_bytes {
        lemma_eviction_is_least(state.records, state.limits, size);
        let count = evicted(state.records, state.limits, size);
        let rest = state.records.skip(count as int);
        lemma_payload_push(rest, record);
        assert(rest.push(record).take(rest.len() as int) =~= rest);
    }
}

proof fn lemma_word(value: u32, before: Seq<u8>, after: Seq<u8>)
    ensures
        word_of(before + le32(value) + after, before.len() as int) == value,
{
    let bytes = before + le32(value) + after;
    let at = before.len() as int;
    assert(bytes[at] == le32(value)[0]);
    assert(bytes[at + 1] == le32(value)[1]);
    assert(bytes[at + 2] == le32(value)[2]);
    assert(bytes[at + 3] == le32(value)[3]);
    crate::bytes::lemma_be32_round_trip(value, 0, 0, 0, 0);
}

/// What the block of a record holds, in little-endian words: kind 6, the time
/// in microseconds with its upper half first, the captured and the original
/// length, both one more than the bytes of the record; then the direction, 0
/// for sent and 1 for received, the bytes, and zeros up to a whole word.
#[verifier::spinoff_prover]
#[verifier::rlimit(40)]
pub proof fn lemma_packet_block_fields(record: TraceRecord)
    requires
        record.bytes@.len() <= MAXIMUM_TRACE_BYTES,
        record.timestamp.nanos / 1_000 <= u64::MAX,
    ensures
        ({
            let block = packet_block(record);
            let length = record.bytes@.len() + 1;
            &&& word_of(block, 0) == 6
            &&& word_of(block, 12) * 0x1_0000_0000 + word_of(block, 16) == record.timestamp.nanos
                / 1_000
            &&& word_of(block, 20) == length
            &&& word_of(block, 24) == length
            &&& block[28] == (if record.direction is Inbound {
                1u8
            } else {
                0u8
            })
            &&& block.subrange(29, 28int + length) == record.bytes@
            &&& forall|i: int| 28 + length <= i < block.len() - 4 ==> block[i] == 0
        }),
{
    let block = packet_block(record);
    let data = packet_data(record);
    let total = (32 + padded(data.len())) as u32;
    let time = capture_microseconds(record.timestamp);
    let high = (time / 0x1_0000_0000) as u32;
    let low = (time % 0x1_0000_0000) as u32;
    let length = data.len() as u32;
    let padding = Seq::new((padded(data.len()) - data.len()) as nat, |i: int| 0u8);
    let tail = data + padding + le32(total);
    assert(block =~= Seq::<u8>::empty() + le32(6) + (le32(total) + le32(0) + le32(high) + le32(low)
        + le32(length) + le32(length) + tail));
    lemma_word(
        6,
        Seq::empty(),
        le32(total) + le32(0) + le32(high) + le32(low) + le32(length) + le32(length) + tail,
    );
    let first = le32(6) + le32(total) + le32(0);
    assert(block =~= first + le32(high) + (le32(low) + le32(length) + le32(length) + tail));
    lemma_word(high, first, le32(low) + le32(length) + le32(length) + tail);
    let second = first + le32(high);
    assert(block =~= second + le32(low) + (le32(length) + le32(length) + tail));
    lemma_word(low, second, le32(length) + le32(length) + tail);
    let third = second + le32(low);
    assert(block =~= third + le32(length) + (le32(length) + tail));
    lemma_word(length, third, le32(length) + tail);
    let fourth = third + le32(length);
    assert(block =~= fourth + le32(length) + tail);
    lemma_word(length, fourth, tail);
    let fifth = fourth + le32(length);
    assert(fifth.len() == 28);
    assert(block =~= fifth + tail);
    assert forall|i: int| 0 <= i < data.len() implies block[28 + i] == data[i] by {
        assert(tail[i] == data[i]);
    }
    assert(block[28] == data[0]);
    assert(block.subrange(29, 28int + data.len()) =~= record.bytes@) by {
        assert forall|i: int| 0 <= i < record.bytes@.len() implies block[29 + i]
            == record.bytes@[i] by {
            assert(block[28 + (i + 1)] == data[i + 1]);
        }
    }
    assert forall|i: int| 28 + data.len() <= i < block.len() - 4 implies block[i] == 0 by {
        assert(tail[i - 28] == padding[i - 28 - data.len()]);
    }
}

/// The number in four little-endian bytes.
pub open spec fn word_of(bytes: Seq<u8>, at: int) -> int {
    bytes[at] + bytes[at + 1] * 0x100 + bytes[at + 2] * 0x1_0000 + bytes[at + 3] * 0x100_0000
}

/// A capture holds the records in their order: each adds its block behind what
/// was there, and without records only the two header blocks remain.
#[verifier::spinoff_prover]
#[verifier::rlimit(60)]
pub proof fn lemma_capture_grows_by_blocks(records: Seq<TraceRecord>, record: TraceRecord)
    ensures
        pcapng(records.push(record)) == pcapng(records) + packet_block(record),
        pcapng(Seq::empty()).len() == 48,
        pcapng(records).take(48) == pcapng(Seq::empty()),
        pcapng(records).subrange(0, 4) == seq![0x0au8, 0x0d, 0x0d, 0x0a],
{
    assert(records.push(record).drop_last() =~= records);
    let head = section_header() + interface_block();
    assert(head + (packet_blocks(records) + packet_block(record)) =~= (head + packet_blocks(
        records,
    )) + packet_block(record));
    assert(head + Seq::<u8>::empty() =~= head);
    assert(section_header().len() == 28);
    assert(interface_block().len() == 20);
    assert(head.len() == 48);
    assert(packet_blocks(Seq::<TraceRecord>::empty()) =~= Seq::<u8>::empty());
    assert((head + packet_blocks(records)).take(48) =~= head);
    assert(pcapng(records).subrange(0, 4) =~= seq![0x0au8, 0x0d, 0x0d, 0x0a]);
}

/// A replayed write succeeds exactly when the scenario expects these bytes
/// next; a replayed read hands out what the scenario provides next. Each uses
/// up one step of the scenario, a read only once all that was provided before
/// is read.
pub proof fn lemma_replay_follows_the_scenario(state: ReplayState, bytes: Seq<u8>)
    ensures
        state.sent(bytes).1 is Ok <==> state.steps.len() > 0 && (state.steps[0] matches
            ReplayStep::Expect(expected) && expected@ == bytes),
        state.steps.len() > 0 ==> state.sent(bytes).0.steps == state.steps.skip(1),
        state.sent(bytes).0.pending == state.pending,
        state.steps.len() == 0 ==> state.sent(bytes).0 == state,
        state.pending.len() > 0 ==> state.loaded() == (state, None::<ChannelError>),
        state.pending.len() == 0 && state.steps.len() > 0 ==> state.loaded().0.steps
            == state.steps.skip(1) && match state.steps[0] {
            ReplayStep::Provide(provided) => state.loaded().0.pending == provided@
                && state.loaded().1 is None,
            _ => state.loaded().0.pending.len() == 0 && state.loaded().1 is Some,
        },
        state.pending.len() == 0 && state.steps.len() == 0 ==> state.loaded().1 == Some(
            ChannelError::Closed,
        ),
{
    if state.steps.len() > 0 {
        assert(state.steps.drop_first() =~= state.steps.skip(1));
    }
}

/// A capture begins with a section header in little-endian order of unknown
/// length and with one interface of the first private link type.
#[verifier::spinoff_prover]
#[verifier::rlimit(60)]
pub proof fn lemma_capture_headers(records: Seq<TraceRecord>)
    ensures
        pcapng(records).len() >= 48,
        word_of(pcapng(records), 0) == 0x0a0d_0d0a,
        word_of(pcapng(records), 4) == 28,
        word_of(pcapng(records), 8) == 0x1a2b_3c4d,
        word_of(pcapng(records), 12) == 1,
        word_of(pcapng(records), 16) == 0xffff_ffff,
        word_of(pcapng(records), 20) == 0xffff_ffff,
        word_of(pcapng(records), 24) == 28,
        word_of(pcapng(records), 28) == 1,
        word_of(pcapng(records), 32) == 20,
        word_of(pcapng(records), 36) == 147,
        word_of(pcapng(records), 40) == 65_535,
        word_of(pcapng(records), 44) == 20,
{
    let bytes = pcapng(records);
    assert(section_header().len() == 28);
    assert(interface_block().len() == 20);
    assert forall|i: int| 0 <= i < 28 implies bytes[i] == section_header()[i] by {}
    assert forall|i: int| 28 <= i < 48 implies bytes[i] == interface_block()[i - 28] by {}
}

/// A trace keeps at least one record and one byte and at most its fixed
/// maxima; limits that are valid are kept as they are.
pub proof fn lemma_trace_limits(limits: TraceLimits)
    ensures
        limits.violation() is None <==> 1 <= limits.maximum_records <= 1_048_576 && 1
            <= limits.maximum_bytes <= 268_435_456,
        limits.effective().violation() is None,
        limits.violation() is None ==> limits.effective() == limits,
        limits.maximum_records == 0 ==> limits.effective().maximum_records == 1,
        limits.maximum_bytes == 0 ==> limits.effective().maximum_bytes == 1,
        limits.maximum_records > 1_048_576 ==> limits.effective().maximum_records == 1_048_576,
        limits.maximum_bytes > 268_435_456 ==> limits.effective().maximum_bytes == 268_435_456,
        TraceState::fresh(limits).records.len() == 0,
        TraceState::fresh(limits).dropped_records == 0,
        TraceState::fresh(limits).dropped_bytes == 0,
{
}

/// The size of a scenario is the number of bytes that its steps hold; a step
/// that fails holds none.
pub proof fn lemma_scenario_size(steps: Seq<ReplayStep>, step: ReplayStep, limits: ReplayLimits)
    ensures
        scenario_bytes(Seq::empty()) == 0,
        scenario_bytes(steps.push(step)) == scenario_bytes(steps) + match step {
            ReplayStep::Expect(bytes) => bytes@.len(),
            ReplayStep::Provide(bytes) => bytes@.len(),
            ReplayStep::Fail => 0,
        },
        limits.admits(steps) <==> steps.len() <= limits.maximum_steps && scenario_bytes(steps)
            <= limits.maximum_bytes,
        limits.violation() is None <==> 1 <= limits.maximum_steps <= 1_048_576 && 1
            <= limits.maximum_bytes <= 268_435_456,
{
    assert(steps.push(step).drop_last() =~= steps);
}

/// A replayed read hands out what is pending, in order and never more than
/// fits, and keeps the rest for the next read.
pub proof fn lemma_replayed_bytes_are_read_in_order(
    channel: &mut ReplayChannel,
    capacity: usize,
    result: Result<Vec<u8>, ChannelError>,
)
    requires
        call_ensures(ReplayChannel::receive, (channel, capacity), result),
    ensures
        capacity == 0 ==> result is Err && final(channel)@ == old(channel)@,
        old(channel)@.pending.len() > 0 && capacity > 0 ==> (result matches Ok(bytes) && 0
            < bytes@.len() <= capacity && bytes@ + final(channel)@.pending
            == old(channel)@.pending && final(channel)@.steps == old(channel)@.steps),
        result matches Ok(bytes) ==> bytes@.len() <= capacity,
        result matches Ok(bytes) ==> final(channel)@.pending.len() > 0 ==> bytes@.len()
            == capacity,
        old(channel)@.pending.len() == 0 && old(channel)@.steps.len() > 0 && capacity > 0 ==> (
        old(channel)@.steps[0] matches ReplayStep::Provide(provided) ==> (result matches Ok(bytes)
            && bytes@ + final(channel)@.pending == provided@)),
{
    if let Ok(bytes) = result {
        let pending = old(channel)@.loaded().0.pending;
        assert(bytes@ + final(channel)@.pending =~= pending);
    }
}

/// Received bytes are recorded as far as they were received; a count beyond
/// the buffer is refused and recorded nowhere.
pub proof fn lemma_received_bytes_are_recorded(
    trace: &mut Trace,
    timestamp: Duration,
    buffer: &[u8],
    count: usize,
    result: Result<usize, ChannelError>,
)
    requires
        call_ensures(Trace::record_received, (trace, timestamp, buffer, count), result),
        count <= old(trace)@.limits.maximum_bytes,
    ensures
        result is Ok <==> count <= buffer@.len(),
        result matches Ok(read) ==> read == count,
        result is Err ==> final(trace)@ == old(trace)@,
        result is Ok ==> {
            let records = final(trace)@.records;
            &&& records.len() > 0
            &&& records.last().direction is Inbound
            &&& records.last().timestamp == timestamp
            &&& records.last().bytes@ == buffer@.take(count as int)
        },
{
}

} // verus!
