//! What the bytes of an accepted frame look like, and which damage is noticed.

use vstd::prelude::*;

use crate::wire::address::Address;
use crate::wire::decoder::{
    candidate, effective_delimiter, first_candidate, frame_at, preamble_run, step,
    ChecksumPolicy, DecodeLimits, DecoderState, EventView, StepView,
};
use crate::wire::frame::{FrameKind, FrameRepair, FrameView};
use crate::wire::xor_all;

verus! {

proof fn lemma_xor_bytes(sum: u8, left: u8, right: u8)
    by (bit_vector)
    ensures
        (sum ^ left) ^ right == (sum ^ right) ^ left,
        (sum ^ left) ^ left == sum,
        sum ^ 0 == sum,
        sum ^ left == 0 <==> sum == left,
        sum ^ left == sum ^ right <==> left == right,
        sum ^ (left ^ right) == (sum ^ left) ^ right,
{
}

/// Replacing one byte changes the exclusive-or of all by the difference of the
/// two, so it changes it whenever the two differ.
pub proof fn lemma_xor_of_a_changed_byte(bytes: Seq<u8>, index: int, byte: u8)
    requires
        0 <= index < bytes.len(),
    ensures
        xor_all(bytes.update(index, byte)) == (xor_all(bytes) ^ bytes[index]) ^ byte,
        xor_all(bytes.update(index, byte)) == xor_all(bytes) <==> byte == bytes[index],
    decreases bytes.len(),
{
    let changed = bytes.update(index, byte);
    let rest = bytes.drop_last();
    let last = bytes.len() - 1;
    if index == last {
        assert(changed.drop_last() =~= rest);
        lemma_xor_bytes(xor_all(rest), bytes[index], byte);
    } else {
        lemma_xor_of_a_changed_byte(rest, index, byte);
        assert(changed.drop_last() =~= rest.update(index, byte));
        lemma_xor_bytes(xor_all(rest), bytes.last(), bytes[index]);
        lemma_xor_bytes(xor_all(rest) ^ bytes[index], bytes.last(), byte);
    }
    lemma_xor_bytes(xor_all(bytes), bytes[index], byte);
    lemma_xor_bytes(xor_all(bytes) ^ bytes[index], byte, bytes[index]);
}

proof fn lemma_preambles_before(bytes: Seq<u8>, index: int)
    requires
        0 <= index <= bytes.len(),
    ensures
        preamble_run(bytes, index) <= index,
        forall|i: int| index - preamble_run(bytes, index) <= i < index ==> bytes[i] == 0xff,
    decreases index,
{
    if index > 0 && bytes[index - 1] == 0xff {
        lemma_preambles_before(bytes, index - 1);
    }
}

proof fn lemma_candidate_found(bytes: Seq<u8>, from: int, limits: DecodeLimits)
    requires
        0 <= from,
    ensures
        first_candidate(bytes, from, limits) matches Some(index) ==> from <= index < bytes.len()
            && candidate(bytes, index, limits),
    decreases bytes.len() - from,
{
    if from < bytes.len() && !candidate(bytes, from, limits) {
        lemma_candidate_found(bytes, from + 1, limits);
    }
}

proof fn lemma_expansion_length(delimiter: u8)
    by (bit_vector)
    ensures
        (delimiter >> 5) & 0x03 <= 3,
{
}

/// How many bytes an address takes.
pub open spec fn address_length(address: Address) -> int {
    if address is Unique {
        5
    } else {
        1
    }
}

/// A frame is accepted only behind enough preambles, and it is made of the
/// bytes at the head of the buffer: the preambles, the delimiter, the address,
/// the header extension, the command, the length, as many payload bytes, and
/// the checksum. With strict checking the exclusive-or of everything behind the
/// preambles is zero, and nothing is repaired.
#[verifier::spinoff_prover]
#[verifier::rlimit(40)]
pub proof fn lemma_accepted_frame(
    bytes: Seq<u8>,
    limits: DecodeLimits,
    frame: FrameView,
    consumed: nat,
)
    requires
        step(bytes, limits) == (StepView::Frame { frame, consumed }),
    ensures
        ({
            let start = frame.preambles as int;
            let header = start + 1 + address_length(frame.address) + frame.expansion.len();
            &&& consumed <= bytes.len()
            &&& consumed == header + 2 + frame.payload.len() + 1
            &&& start >= limits.minimum_preambles
            &&& forall|i: int| 0 <= i < start ==> bytes[i] == 0xff
            &&& frame.expansion == bytes.subrange(header - frame.expansion.len(), header)
            &&& frame.wire_command == bytes[header]
            &&& frame.payload.len() == bytes[header + 1]
            &&& frame.payload == bytes.subrange(header + 2, consumed - 1)
            &&& limits.checksum_policy is Strict ==> frame.repair is None && xor_all(
                bytes.subrange(start, consumed as int),
            ) == 0
        }),
{
    lemma_candidate_found(bytes, 0, limits);
    let start = first_candidate(bytes, 0, limits)->0;
    lemma_preambles_before(bytes, start);
    let delimiter = effective_delimiter(bytes[start], limits.checksum_policy);
    lemma_expansion_length(delimiter);
    assert(start == preamble_run(bytes, start));
    assert(frame.preambles == start);
    let end = consumed - 1;
    if limits.checksum_policy is Strict {
        let whole = bytes.subrange(start, consumed as int);
        assert(whole.drop_last() =~= bytes.subrange(start, end));
        lemma_xor_bytes(xor_all(whole.drop_last()), whole.last(), 0);
    }
}

/// A frame is repaired only as the policy of a known gateway allows. A repair
/// of the address belongs to a short address and to the one node that the
/// gateway is known to have computed the checksum for: with that node in place
/// of the received one, the checksum is right.
#[verifier::spinoff_prover]
#[verifier::rlimit(40)]
pub proof fn lemma_repair_is_allowed(
    bytes: Seq<u8>,
    limits: DecodeLimits,
    frame: FrameView,
    consumed: nat,
)
    requires
        step(bytes, limits) == (StepView::Frame { frame, consumed }),
    ensures
        frame.repair matches Some(FrameRepair::DelimiterBit) ==> (limits.checksum_policy matches
            ChecksumPolicy::KnownGateway { delimiter_bit, .. } && delimiter_bit),
        frame.repair matches Some(FrameRepair::ShortAddressRewrite { checksum_source_node })
            ==> checksum_source_node <= 63 && frame.address is Polling && (
        limits.checksum_policy matches ChecksumPolicy::KnownGateway {
            checksum_source_node: Some(node),
            ..
        } && node == checksum_source_node) && ({
            let start = frame.preambles as int;
            let original = (bytes[start + 1] & 0xc0) | checksum_source_node;
            xor_all(
                bytes.subrange(start, consumed as int).update(1, original),
            ) == 0
        }),
{
    lemma_candidate_found(bytes, 0, limits);
    let start = first_candidate(bytes, 0, limits)->0;
    lemma_preambles_before(bytes, start);
    let delimiter = effective_delimiter(bytes[start], limits.checksum_policy);
    lemma_expansion_length(delimiter);
    assert(frame.preambles == start);
    if let Some(FrameRepair::ShortAddressRewrite { checksum_source_node }) = frame.repair {
        let end = consumed - 1;
        let whole = bytes.subrange(start, consumed as int);
        let checked = bytes.subrange(start, end);
        assert(whole.drop_last() =~= checked);
        let expected = xor_all(checked);
        let actual = bytes[end];
        let received = bytes[start + 1];
        let original = (received & 0xc0) | checksum_source_node;
        lemma_rebuilt_byte(received, expected, actual, checksum_source_node);
        lemma_xor_of_a_changed_byte(whole, 1, original);
        assert(whole[1] == received);
        assert(xor_all(whole) == expected ^ actual);
        lemma_rebuilt_sum(received, expected, actual, original);
    }
}

proof fn lemma_rebuilt_byte(received: u8, expected: u8, actual: u8, node: u8)
    by (bit_vector)
    ensures
        (received ^ expected ^ actual) & 0xc0 == received & 0xc0 && (received ^ expected ^ actual)
            & 0x3f == node ==> (received & 0xc0) | node == received ^ expected ^ actual,
{
}

proof fn lemma_rebuilt_sum(received: u8, expected: u8, actual: u8, original: u8)
    by (bit_vector)
    ensures
        original == received ^ expected ^ actual ==> ((expected ^ actual) ^ received) ^ original
            == 0,
{
}

/// Damage to one byte is noticed: where strict checking accepts the bytes of a
/// frame, it rejects them with any single byte of the extension, the command,
/// the payload or the checksum changed.
#[verifier::spinoff_prover]
#[verifier::rlimit(60)]
pub proof fn lemma_changed_byte_is_noticed(bytes: Seq<u8>, start: int, index: int, byte: u8)
    requires
        0 <= start < bytes.len(),
        frame_at(bytes, start, ChecksumPolicy::Strict) is Frame,
        ({
            let frame = frame_at(bytes, start, ChecksumPolicy::Strict)->frame;
            let consumed = frame_at(bytes, start, ChecksumPolicy::Strict)->Frame_consumed;
            let header = start + 1 + address_length(frame.address) + frame.expansion.len();
            start + 1 <= index < consumed && index != header + 1
        }),
        byte != bytes[index],
    ensures
        frame_at(bytes.update(index, byte), start, ChecksumPolicy::Strict) matches
            StepView::Rejected { error, consumed, checksum_failure } && error is Checksum
            && consumed == start + 1 && checksum_failure,
{
    let consumed = frame_at(bytes, start, ChecksumPolicy::Strict)->Frame_consumed;
    let frame = frame_at(bytes, start, ChecksumPolicy::Strict)->frame;
    let delimiter = bytes[start];
    lemma_expansion_length(delimiter);
    let damaged = bytes.update(index, byte);
    let end = consumed - 1;
    let header = start + 1 + address_length(frame.address) + frame.expansion.len();
    assert(damaged[start] == delimiter);
    assert(damaged[header + 1] == bytes[header + 1]);
    if index < end {
        assert(damaged.subrange(start, end) =~= bytes.subrange(start, end).update(
            index - start,
            byte,
        ));
        lemma_xor_of_a_changed_byte(bytes.subrange(start, end), index - start, byte);
        assert(damaged[end] == bytes[end]);
    } else {
        assert(damaged.subrange(start, end) =~= bytes.subrange(start, end));
    }
}

proof fn lemma_delimiter_sum(base: u8, layer: u8, long: u8, expansion: u8)
    by (bit_vector)
    requires
        base == 1 || base == 2 || base == 6,
        layer == 0 || layer == 8,
        long == 0 || long == 0x80,
        expansion <= 3,
    ensures
        (base | layer | long | (expansion << 5)) == base + layer + long + 32 * expansion,
{
}

proof fn lemma_address_sum(master: u8, burst: u8, low: u8)
    by (bit_vector)
    requires
        master == 0 || master == 0x80,
        burst == 0 || burst == 0x40,
        low <= 63,
    ensures
        (master | burst | low) == master + burst + low,
        low & 0x3f == low,
{
}

/// How a frame is encoded. The preambles come first. The delimiter adds up the
/// kind, 8 for phase-shift keying, 128 for a long address and 32 for each byte
/// of the extension. The first address byte adds up 128 for the primary master,
/// 64 for a burst message and the node or the upper six bits of the type. The
/// last byte makes the exclusive-or of everything behind the preambles zero.
pub proof fn lemma_encoded_bytes(frame: FrameView)
    requires
        frame.canonical(),
    ensures
        ({
            let bytes = frame.encoded();
            let start = frame.preambles as int;
            let header = start + 1 + address_length(frame.address) + frame.expansion.len();
            let kind = match frame.kind {
                FrameKind::Request => 2int,
                FrameKind::Response => 6int,
                FrameKind::Burst => 1int,
            };
            let layer = if frame.physical_layer is Psk {
                8int
            } else {
                0int
            };
            let burst = if frame.kind is Burst {
                64int
            } else {
                0int
            };
            &&& bytes.len() == header + 2 + frame.payload.len() + 1
            &&& forall|i: int| 0 <= i < start ==> bytes[i] == 0xff
            &&& match frame.address {
                Address::Polling { node, master } => bytes[start] == kind + layer + 32
                    * frame.expansion.len() && bytes[start + 1] == (if master is Primary {
                    128int
                } else {
                    0int
                }) + burst + node,
                Address::Unique { expanded_type, device_id, master } => bytes[start] == kind + layer
                    + 128 + 32 * frame.expansion.len() && bytes[start + 1] == (
                if master is Primary {
                    128int
                } else {
                    0int
                }) + burst + expanded_type / 256 && bytes[start + 2] == expanded_type % 256
                    && bytes[start + 3] * 65536 + bytes[start + 4] * 256 + bytes[start + 5]
                    == device_id,
            }
            &&& bytes.subrange(header - frame.expansion.len(), header) == frame.expansion
            &&& bytes[header] == frame.wire_command
            &&& bytes[header + 1] == frame.payload.len()
            &&& bytes.subrange(header + 2, bytes.len() - 1) == frame.payload
            &&& xor_all(bytes.skip(start)) == 0
        }),
{
    let bytes = frame.encoded();
    let start = frame.preambles as int;
    let checked = frame.checked_bytes();
    let header = start + 1 + address_length(frame.address) + frame.expansion.len();
    let address = frame.address.wire_bytes(frame.kind is Burst);
    lemma_delimiter_sum(
        frame.kind.base(),
        frame.physical_layer.bit(),
        if frame.address.long() {
            0x80u8
        } else {
            0u8
        },
        frame.expansion.len() as u8,
    );
    match frame.address {
        Address::Polling { node, master } => {
            lemma_address_sum(
                master.bit(),
                crate::wire::address::burst_bit(frame.kind is Burst),
                node,
            );
        },
        Address::Unique { expanded_type, device_id, master } => {
            lemma_address_sum(
                master.bit(),
                crate::wire::address::burst_bit(frame.kind is Burst),
                (expanded_type / 256) as u8,
            );
            crate::bytes::lemma_be24_round_trip(device_id, 0, 0, 0);
            let number = crate::bytes::be24(device_id);
            assert(address[2] == number[0] && address[3] == number[1] && address[4] == number[2]);
        },
    }
    assert forall|i: int| 0 <= i < address.len() implies bytes[start + 1 + i] == address[i] by {
        assert(checked[1 + i] == address[i]);
        assert(bytes[start + 1 + i] == checked[1 + i]);
    }
    assert(bytes[start + 1] == address[0]);
    assert(bytes[start] == checked[0]);
    assert(bytes.subrange(header - frame.expansion.len(), header) =~= frame.expansion);
    assert(bytes.subrange(header + 2, bytes.len() - 1) =~= frame.payload);
    let tail = bytes.skip(start);
    assert(tail.drop_last() =~= checked);
    assert(tail.last() == xor_all(checked));
    lemma_xor_bytes(xor_all(checked), xor_all(checked), 0);
}

/// One decoded event accounts for every byte that leaves the buffer: a frame
/// counts as one and takes its own bytes, everything else is counted as
/// discarded; a checksum failure counts as one of these.
pub proof fn lemma_bytes_are_counted(state: DecoderState, limits: DecodeLimits)
    requires
        state.statistics.frames < u64::MAX,
        state.statistics.checksum_failures < u64::MAX,
        state.statistics.repaired_frames < u64::MAX,
        state.statistics.discarded_bytes + state.buffered.len() <= u64::MAX,
    ensures
        ({
            let (after, event) = state.next(limits);
            let left = state.buffered.len() - after.buffered.len();
            let discarded = after.statistics.discarded_bytes - state.statistics.discarded_bytes;
            &&& 0 <= discarded <= left
            &&& after.buffered == state.buffered.skip(left)
            &&& after.statistics.overflow_bytes == state.statistics.overflow_bytes
            &&& after.statistics.event_limit_hits == state.statistics.event_limit_hits
            &&& match event {
                Some(EventView::Frame(frame)) => after.statistics.frames == state.statistics.frames
                    + 1 && after.statistics.checksum_failures == state.statistics.checksum_failures
                    && left == discarded + frame.preambles + 1 + address_length(frame.address)
                    + frame.expansion.len() + 2 + frame.payload.len() + 1
                    && after.statistics.repaired_frames == state.statistics.repaired_frames + (
                if frame.repair is Some {
                    1int
                } else {
                    0int
                }),
                Some(EventView::Rejected(error)) => after.statistics.frames
                    == state.statistics.frames && left == discarded && left > 0
                    && after.statistics.repaired_frames == state.statistics.repaired_frames
                    && after.statistics.checksum_failures == state.statistics.checksum_failures + (
                if error is Checksum {
                    1int
                } else {
                    0int
                }),
                None => after.statistics.frames == state.statistics.frames && left == discarded
                    && after.statistics.checksum_failures == state.statistics.checksum_failures
                    && after.statistics.repaired_frames == state.statistics.repaired_frames,
            }
        }),
    decreases state.buffered.len(),
{
    lemma_candidate_found(state.buffered, 0, limits);
    let length = state.buffered.len() as int;
    lemma_preambles_before(state.buffered, length);
    match step(state.buffered, limits) {
        StepView::Discard(count) => {
            let start = first_candidate(state.buffered, 0, limits)->0;
            assert(0 < count <= state.buffered.len());
            let rest = state.discarded(count);
            lemma_bytes_are_counted(rest, limits);
            let after = rest.next(limits).0;
            let left = rest.buffered.len() - after.buffered.len();
            assert(after.buffered =~= state.buffered.skip(count + left));
        },
        StepView::Frame { frame, consumed } => {
            lemma_accepted_frame(state.buffered, limits, frame, consumed);
        },
        StepView::NeedMore => {
            assert(state.buffered.skip(0) =~= state.buffered);
        },
        _ => {},
    }
}

/// The buffer keeps the newest bytes up to its capacity, and what falls out of
/// it is counted.
pub proof fn lemma_buffer_is_bounded(state: DecoderState, limits: DecodeLimits, fragment: Seq<u8>)
    requires
        state.statistics.overflow_bytes + state.buffered.len() + fragment.len() <= u64::MAX,
    ensures
        ({
            let after = state.appended(limits, fragment);
            let whole = state.buffered + fragment;
            let lost = after.statistics.overflow_bytes - state.statistics.overflow_bytes;
            &&& after.buffered.len() <= limits.buffer_capacity
            &&& lost >= 0
            &&& lost > 0 ==> after.buffered.len() == limits.buffer_capacity
            &&& after.buffered == whole.skip(lost)
            &&& after.statistics.discarded_bytes == state.statistics.discarded_bytes
            &&& after.statistics.frames == state.statistics.frames
        }),
{
    let whole = state.buffered + fragment;
    assert(whole.skip(0) =~= whole);
}

/// Limits are accepted exactly when the buffer holds between one byte and
/// sixteen mebibytes, at least one preamble is asked for and a repaired node is
/// a polling address. Limits that are not checked are brought into that range.
pub proof fn lemma_decode_limits(limits: DecodeLimits)
    ensures
        limits.violation() is None <==> 1 <= limits.buffer_capacity <= 16_777_216
            && limits.minimum_preambles >= 1 && !(limits.checksum_policy matches
            ChecksumPolicy::KnownGateway { checksum_source_node: Some(node), .. } && node > 63),
        1 <= limits.clamped().buffer_capacity <= 16_777_216,
        limits.clamped().minimum_preambles >= 1,
        1 <= limits.buffer_capacity <= 16_777_216 && limits.minimum_preambles >= 1
            ==> limits.clamped() == limits,
        limits.clamped().checksum_policy == limits.checksum_policy,
        limits.clamped().clamped() == limits.clamped(),
{
}

} // verus!
