//! Canonical HART frame representation and streaming decoder.

use vstd::prelude::*;

pub mod acceptance;
pub mod address;
pub mod decoder;
pub mod frame;
pub mod laws;

pub use address::{burst_bit, lemma_address_round_trip, Address, Master};
pub use decoder::{
    event_views, ChecksumPolicy, DecodeEvent, DecodeLimits, DecodeLimitsError, DecodeStatistics, DecoderState,
    EventView, FrameDecoder, MAXIMUM_DECODE_BUFFER_CAPACITY, MAXIMUM_DECODE_EVENTS_PER_PUSH,
};
pub use laws::{
    lemma_encode_decode_round_trip, lemma_fragments_are_irrelevant, lemma_preamble_is_no_delimiter,
};
pub use frame::{
    Frame, FrameKind, FrameRepair, FrameView, PhysicalLayer, WireError, MAX_ENCODED_FRAME_SIZE,
};

verus! {

/// Exclusive-or of all bytes.
pub open spec fn xor_all(bytes: Seq<u8>) -> u8
    decreases bytes.len(),
{
    if bytes.len() == 0 {
        0
    } else {
        xor_all(bytes.drop_last()) ^ bytes.last()
    }
}

pub(crate) fn xor_checksum(bytes: &[u8], from: usize, to: usize) -> (sum: u8)
    requires
        from <= to <= bytes@.len(),
    ensures
        sum == xor_all(bytes@.subrange(from as int, to as int)),
{
    let mut sum: u8 = 0;
    let mut index: usize = from;
    while index < to
        invariant
            from <= index <= to <= bytes@.len(),
            sum == xor_all(bytes@.subrange(from as int, index as int)),
        decreases to - index,
    {
        sum = sum ^ bytes[index];
        index += 1;
        assert(bytes@.subrange(from as int, index as int).drop_last() =~= bytes@.subrange(
            from as int,
            index - 1,
        ));
    }
    sum
}

} // verus!
