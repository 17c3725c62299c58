//! Byte-sequence helpers shared by the codecs.

use std::collections::VecDeque;

use vstd::prelude::*;

verus! {

/// The two big-endian bytes of a 16-bit number.
pub open spec fn be16(value: u16) -> Seq<u8> {
    seq![(value / 256) as u8, (value % 256) as u8]
}

/// The three big-endian bytes of the low 24 bits of a number.
pub open spec fn be24(value: u32) -> Seq<u8> {
    seq![((value / 65536) % 256) as u8, ((value / 256) % 256) as u8, (value % 256) as u8]
}

/// The four big-endian bytes of a 32-bit number.
pub open spec fn be32(value: u32) -> Seq<u8> {
    seq![
        (value / 16777216) as u8,
        ((value / 65536) % 256) as u8,
        ((value / 256) % 256) as u8,
        (value % 256) as u8,
    ]
}

/// The two little-endian bytes of a 16-bit number.
pub open spec fn le16(value: u16) -> Seq<u8> {
    seq![(value % 256) as u8, (value / 256) as u8]
}

/// The four little-endian bytes of a 32-bit number.
pub open spec fn le32(value: u32) -> Seq<u8> {
    seq![
        (value % 256) as u8,
        ((value / 256) % 256) as u8,
        ((value / 65536) % 256) as u8,
        (value / 16777216) as u8,
    ]
}

/// The number written by two big-endian bytes.
pub open spec fn from_be16(high: u8, low: u8) -> u16 {
    (high * 256 + low) as u16
}

/// The number written by three big-endian bytes.
pub open spec fn from_be24(high: u8, middle: u8, low: u8) -> u32 {
    (high * 65536 + middle * 256 + low) as u32
}

/// The number written by four big-endian bytes.
pub open spec fn from_be32(first: u8, second: u8, third: u8, fourth: u8) -> u32 {
    (first * 16777216 + second * 65536 + third * 256 + fourth) as u32
}

/// Reading back two written bytes gives the number again, and so does
/// writing the number that two bytes stand for.
pub proof fn lemma_be16_round_trip(value: u16, high: u8, low: u8)
    ensures
        from_be16(be16(value)[0], be16(value)[1]) == value,
        be16(from_be16(high, low)) == seq![high, low],
{
}

/// Reading back three written bytes gives the low 24 bits of the number again.
pub proof fn lemma_be24_round_trip(value: u32, high: u8, middle: u8, low: u8)
    ensures
        from_be24(be24(value)[0], be24(value)[1], be24(value)[2]) == value % 16777216,
        be24(from_be24(high, middle, low)) == seq![high, middle, low],
{
    lemma_split32(value);
    lemma_join32(0, high, middle, low);
    assert(be24(from_be24(high, middle, low)) =~= seq![high, middle, low]);
}

/// Reading back four written bytes gives the number again.
pub proof fn lemma_be32_round_trip(value: u32, first: u8, second: u8, third: u8, fourth: u8)
    ensures
        from_be32(be32(value)[0], be32(value)[1], be32(value)[2], be32(value)[3]) == value,
        be32(from_be32(first, second, third, fourth)) == seq![first, second, third, fourth],
{
    lemma_split32(value);
    lemma_join32(first, second, third, fourth);
    assert(be32(from_be32(first, second, third, fourth)) =~= seq![first, second, third, fourth]);
}

proof fn lemma_split32(value: u32)
    by (bit_vector)
    ensures
        (value / 16777216) * 16777216 + ((value / 65536) % 256) * 65536 + ((value / 256) % 256)
            * 256 + value % 256 == value,
        ((value / 65536) % 256) * 65536 + ((value / 256) % 256) * 256 + value % 256 == value
            % 16777216,
        value / 16777216 < 256,
{
}

proof fn lemma_join32(first: u8, second: u8, third: u8, fourth: u8)
    by (bit_vector)
    ensures
        ({
            let joined = (first * 16777216 + second * 65536 + third * 256 + fourth) as u32;
            &&& joined / 16777216 == first
            &&& (joined / 65536) % 256 == second
            &&& (joined / 256) % 256 == third
            &&& joined % 256 == fourth
        }),
{
}

pub(crate) fn join16(high: u8, low: u8) -> (value: u16)
    ensures
        value == from_be16(high, low),
{
    high as u16 * 256 + low as u16
}

pub(crate) fn join24(high: u8, middle: u8, low: u8) -> (value: u32)
    ensures
        value == from_be24(high, middle, low),
        value <= 0xff_ffff,
{
    high as u32 * 65536 + middle as u32 * 256 + low as u32
}

pub(crate) fn join32(first: u8, second: u8, third: u8, fourth: u8) -> (value: u32)
    ensures
        value == from_be32(first, second, third, fourth),
{
    first as u32 * 16777216 + second as u32 * 65536 + third as u32 * 256 + fourth as u32
}

pub(crate) fn push16(output: &mut Vec<u8>, value: u16)
    ensures
        final(output)@ == old(output)@ + be16(value),
{
    output.push((value / 256) as u8);
    output.push((value % 256) as u8);
    assert(output@ =~= old(output)@ + be16(value));
}

pub(crate) fn push24(output: &mut Vec<u8>, value: u32)
    ensures
        final(output)@ == old(output)@ + be24(value),
{
    output.push(((value / 65536) % 256) as u8);
    output.push(((value / 256) % 256) as u8);
    output.push((value % 256) as u8);
    assert(output@ =~= old(output)@ + be24(value));
}

pub(crate) fn push32(output: &mut Vec<u8>, value: u32)
    ensures
        final(output)@ == old(output)@ + be32(value),
{
    output.push((value / 16777216) as u8);
    output.push(((value / 65536) % 256) as u8);
    output.push(((value / 256) % 256) as u8);
    output.push((value % 256) as u8);
    assert(output@ =~= old(output)@ + be32(value));
}

pub(crate) fn push_le16(output: &mut Vec<u8>, value: u16)
    ensures
        final(output)@ == old(output)@ + le16(value),
{
    output.push((value % 256) as u8);
    output.push((value / 256) as u8);
    assert(output@ =~= old(output)@ + le16(value));
}

pub(crate) fn push_le32(output: &mut Vec<u8>, value: u32)
    ensures
        final(output)@ == old(output)@ + le32(value),
{
    output.push((value % 256) as u8);
    output.push(((value / 256) % 256) as u8);
    output.push(((value / 65536) % 256) as u8);
    output.push((value / 16777216) as u8);
    assert(output@ =~= old(output)@ + le32(value));
}

pub(crate) fn append_bytes(output: &mut Vec<u8>, bytes: &[u8])
    ensures
        final(output)@ == old(output)@ + bytes@,
{
    output.extend_from_slice(bytes);
    assert(output@ =~= old(output)@ + bytes@);
}

pub(crate) fn copy_range(bytes: &[u8], from: usize, to: usize) -> (copy: Vec<u8>)
    requires
        from <= to <= bytes@.len(),
    ensures
        copy@ == bytes@.subrange(from as int, to as int),
{
    let part = vstd::slice::slice_subrange(bytes, from, to);
    vstd::slice::slice_to_vec(part)
}

pub(crate) fn copy_bytes(bytes: &[u8]) -> (copy: Vec<u8>)
    ensures
        copy@ == bytes@,
{
    vstd::slice::slice_to_vec(bytes)
}

pub(crate) fn same_bytes(left: &[u8], right: &[u8]) -> (same: bool)
    ensures
        same == (left@ == right@),
{
    if left.len() != right.len() {
        return false;
    }
    let mut index: usize = 0;
    while index < left.len()
        invariant
            index <= left@.len(),
            left@.len() == right@.len(),
            forall|i: int| 0 <= i < index ==> left@[i] == right@[i],
        decreases left@.len() - index,
    {
        if left[index] != right[index] {
            return false;
        }
        index += 1;
    }
    assert(left@ =~= right@);
    true
}

pub(crate) fn contains_byte(bytes: &[u8], wanted: u8) -> (found: bool)
    ensures
        found == bytes@.contains(wanted),
{
    let mut index: usize = 0;
    while index < bytes.len()
        invariant
            index <= bytes@.len(),
            forall|i: int| 0 <= i < index ==> bytes@[i] != wanted,
        decreases bytes@.len() - index,
    {
        if bytes[index] == wanted {
            return true;
        }
        index += 1;
    }
    false
}

pub(crate) fn append_queue(pending: &mut VecDeque<u8>, bytes: &[u8])
    ensures
        final(pending)@ == old(pending)@ + bytes@,
{
    let mut index: usize = 0;
    assert(pending@ =~= old(pending)@ + bytes@.take(0));
    while index < bytes.len()
        invariant
            index <= bytes@.len(),
            pending@ == old(pending)@ + bytes@.take(index as int),
        decreases bytes@.len() - index,
    {
        pending.push_back(bytes[index]);
        index += 1;
        assert(pending@ =~= old(pending)@ + bytes@.take(index as int));
    }
    assert(bytes@.take(index as int) =~= bytes@);
}

pub(crate) fn drain_front(pending: &mut VecDeque<u8>, count: usize) -> (chunk: Vec<u8>)
    requires
        count <= old(pending)@.len(),
    ensures
        chunk@ == old(pending)@.take(count as int),
        final(pending)@ == old(pending)@.skip(count as int),
{
    let ghost before = pending@;
    let mut chunk: Vec<u8> = Vec::new();
    assert(before.skip(0) =~= before);
    while chunk.len() < count
        invariant
            count <= before.len(),
            chunk@.len() <= count,
            chunk@ == before.take(chunk@.len() as int),
            pending@ == before.skip(chunk@.len() as int),
        decreases count - chunk@.len(),
    {
        let ghost taken = chunk@.len() as int;
        if let Some(byte) = pending.pop_front() {
            chunk.push(byte);
            assert(chunk@ =~= before.take(taken + 1));
            assert(pending@ =~= before.skip(taken + 1));
        }
    }
    chunk
}

} // verus!
