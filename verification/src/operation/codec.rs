use vstd::prelude::*;

use crate::bytes::{
    append_bytes, be16, be24, be32, from_be16, from_be24, from_be32, join16, join24, join32,
    push16, push24, push32,
};
use crate::float::Float32;
use crate::operation::OperationError;

verus! {

/// Sequential writer for values in network byte order.
#[derive(Debug)]
pub struct PayloadWriter {
    bytes: Vec<u8>,
}

impl View for PayloadWriter {
    type V = Seq<u8>;

    closed spec fn view(&self) -> Seq<u8> {
        self.bytes@
    }
}

impl Default for PayloadWriter {
    fn default() -> (writer: Self)
        ensures
            writer@ == Seq::<u8>::empty(),
    {
        PayloadWriter { bytes: Vec::new() }
    }
}

impl Clone for PayloadWriter {
    fn clone(&self) -> (copy: Self)
        ensures
            copy@ == self@,
    {
        PayloadWriter { bytes: crate::bytes::copy_bytes(&self.bytes) }
    }
}

impl PayloadWriter {
    /// Creates an empty writer.
    pub fn new() -> (writer: Self)
        ensures
            writer@ == Seq::<u8>::empty(),
    {
        PayloadWriter { bytes: Vec::new() }
    }

    /// Appends one byte.
    pub fn u8(&mut self, value: u8)
        ensures
            final(self)@ == old(self)@.push(value),
    {
        self.bytes.push(value);
    }

    /// Appends a 16-bit integer in network byte order.
    pub fn u16(&mut self, value: u16)
        ensures
            final(self)@ == old(self)@ + be16(value),
    {
        push16(&mut self.bytes, value);
    }

    /// Appends a 24-bit integer in network byte order.
    pub fn u24(&mut self, value: u32) -> (result: Result<(), OperationError>)
        ensures
            value > 0xff_ffff ==> result == Err::<(), OperationError>(
                OperationError::InvalidValue("24-bit integer"),
            ) && final(self)@ == old(self)@,
            value <= 0xff_ffff ==> result is Ok && final(self)@ == old(self)@ + be24(value),
    {
        if value > 0x00ff_ffff {
            return Err(OperationError::InvalidValue("24-bit integer"));
        }
        push24(&mut self.bytes, value);
        Ok(())
    }

    /// Appends a 32-bit integer in network byte order.
    pub fn u32(&mut self, value: u32)
        ensures
            final(self)@ == old(self)@ + be32(value),
    {
        push32(&mut self.bytes, value);
    }

    /// Appends a floating-point value in network byte order.
    pub fn float32(&mut self, value: Float32)
        ensures
            final(self)@ == old(self)@ + be32(value.bits),
    {
        push32(&mut self.bytes, value.bits);
    }

    /// Appends an unchanged byte sequence.
    pub fn bytes(&mut self, value: &[u8])
        ensures
            final(self)@ == old(self)@ + value@,
    {
        append_bytes(&mut self.bytes, value);
    }

    /// Finishes writing and returns the data.
    pub fn finish(self) -> (bytes: Vec<u8>)
        ensures
            bytes@ == self@,
    {
        self.bytes
    }
}

/// Sequential reader for values in network byte order.
#[derive(Debug, Clone, Copy)]
pub struct PayloadReader<'a> {
    bytes: &'a [u8],
    offset: usize,
}

/// The error of a field that is not complete.
pub open spec fn truncated<T>(field: &'static str, offset: int) -> Result<T, OperationError> {
    Err(OperationError::Truncated { field, offset: offset as usize })
}

impl<'a> PayloadReader<'a> {
    /// All data, read and unread.
    pub closed spec fn data(&self) -> Seq<u8> {
        self.bytes@
    }

    /// How many bytes were read.
    pub closed spec fn read(&self) -> int {
        self.offset as int
    }

    /// The cursor stands within the data.
    pub open spec fn well_formed(&self) -> bool {
        0 <= self.read() <= self.data().len() <= usize::MAX
    }

    /// The reader after `count` more bytes of the same data.
    pub open spec fn advanced(&self, from: &Self, count: int) -> bool {
        &&& self.data() == from.data()
        &&& self.read() == from.read() + count
        &&& self.well_formed()
    }

    /// Whether `count` more bytes can be read.
    pub open spec fn holds(&self, count: int) -> bool {
        self.read() + count <= self.data().len()
    }

    /// The unread byte at a distance from the cursor.
    pub open spec fn peek(&self, distance: int) -> u8 {
        self.data()[self.read() + distance]
    }

    /// Creates a cursor at the beginning of the data.
    pub fn new(bytes: &'a [u8]) -> (reader: Self)
        ensures
            reader.data() == bytes@,
            reader.read() == 0,
            reader.well_formed(),
    {
        let length: usize = bytes.len();
        let reader = PayloadReader { bytes, offset: 0 };
        assert(reader.data().len() == length);
        reader
    }

    /// Returns the current position.
    pub fn position(&self) -> (position: usize)
        ensures
            position == self.read(),
    {
        self.offset
    }

    /// Returns the number of unread bytes.
    pub fn remaining(&self) -> (count: usize)
        requires
            self.well_formed(),
        ensures
            count == self.data().len() - self.read(),
    {
        self.bytes.len() - self.offset
    }

    /// Reads one byte.
    pub fn u8(&mut self, field: &'static str) -> (result: Result<u8, OperationError>)
        requires
            old(self).well_formed(),
        ensures
            if old(self).holds(1) {
                result == Ok::<u8, OperationError>(old(self).peek(0)) && final(self).advanced(
                    old(self),
                    1,
                )
            } else {
                result == truncated::<u8>(field, old(self).read()) && final(self).advanced(
                    old(self),
                    0,
                )
            },
    {
        if self.offset >= self.bytes.len() {
            return Err(OperationError::Truncated { field, offset: self.offset });
        }
        let value: u8 = self.bytes[self.offset];
        self.offset += 1;
        Ok(value)
    }

    /// Reads a 16-bit integer.
    pub fn u16(&mut self, field: &'static str) -> (result: Result<u16, OperationError>)
        requires
            old(self).well_formed(),
        ensures
            if old(self).holds(2) {
                result == Ok::<u16, OperationError>(
                    from_be16(old(self).peek(0), old(self).peek(1)),
                ) && final(self).advanced(old(self), 2)
            } else {
                result == truncated::<u16>(field, old(self).read()) && final(self).advanced(
                    old(self),
                    0,
                )
            },
    {
        let bytes = self.bytes(2, field)?;
        Ok(join16(bytes[0], bytes[1]))
    }

    /// Reads a 24-bit integer.
    pub fn u24(&mut self, field: &'static str) -> (result: Result<u32, OperationError>)
        requires
            old(self).well_formed(),
        ensures
            if old(self).holds(3) {
                result == Ok::<u32, OperationError>(
                    from_be24(old(self).peek(0), old(self).peek(1), old(self).peek(2)),
                ) && final(self).advanced(old(self), 3)
            } else {
                result == truncated::<u32>(field, old(self).read()) && final(self).advanced(
                    old(self),
                    0,
                )
            },
    {
        let bytes = self.bytes(3, field)?;
        Ok(join24(bytes[0], bytes[1], bytes[2]))
    }

    /// Reads a 32-bit integer.
    pub fn u32(&mut self, field: &'static str) -> (result: Result<u32, OperationError>)
        requires
            old(self).well_formed(),
        ensures
            if old(self).holds(4) {
                result == Ok::<u32, OperationError>(
                    from_be32(
                        old(self).peek(0),
                        old(self).peek(1),
                        old(self).peek(2),
                        old(self).peek(3),
                    ),
                ) && final(self).advanced(old(self), 4)
            } else {
                result == truncated::<u32>(field, old(self).read()) && final(self).advanced(
                    old(self),
                    0,
                )
            },
    {
        let bytes = self.bytes(4, field)?;
        Ok(join32(bytes[0], bytes[1], bytes[2], bytes[3]))
    }

    /// Reads a floating-point value.
    pub fn float32(&mut self, field: &'static str) -> (result: Result<Float32, OperationError>)
        requires
            old(self).well_formed(),
        ensures
            if old(self).holds(4) {
                result == Ok::<Float32, OperationError>(
                    Float32 {
                        bits: from_be32(
                            old(self).peek(0),
                            old(self).peek(1),
                            old(self).peek(2),
                            old(self).peek(3),
                        ),
                    },
                ) && final(self).advanced(old(self), 4)
            } else {
                result == truncated::<Float32>(field, old(self).read()) && final(self).advanced(
                    old(self),
                    0,
                )
            },
    {
        let bits = self.u32(field)?;
        Ok(Float32 { bits })
    }

    /// Reads the specified number of bytes.
    pub fn bytes(&mut self, length: usize, field: &'static str) -> (result: Result<
        &'a [u8],
        OperationError,
    >)
        requires
            old(self).well_formed(),
        ensures
            if old(self).holds(length as int) {
                result matches Ok(bytes) && bytes@ == old(self).data().subrange(
                    old(self).read(),
                    old(self).read() + length,
                ) && final(self).advanced(old(self), length as int)
            } else {
                result == truncated::<&'a [u8]>(field, old(self).read()) && final(self).advanced(
                    old(self),
                    0,
                )
            },
    {
        if length > self.bytes.len() - self.offset {
            return Err(OperationError::Truncated { field, offset: self.offset });
        }
        let end: usize = self.offset + length;
        let value = vstd::slice::slice_subrange(self.bytes, self.offset, end);
        self.offset = end;
        Ok(value)
    }

    /// Returns the entire unread tail.
    pub fn rest(&mut self) -> (bytes: &'a [u8])
        requires
            old(self).well_formed(),
        ensures
            bytes@ == old(self).data().skip(old(self).read()),
            final(self).data() == old(self).data(),
            final(self).read() == old(self).data().len(),
            final(self).well_formed(),
    {
        let rest = vstd::slice::slice_subrange(self.bytes, self.offset, self.bytes.len());
        assert(rest@ =~= self.bytes@.skip(self.offset as int));
        self.offset = self.bytes.len();
        rest
    }

    /// Verifies that all data was consumed.
    pub fn finish(self) -> (result: Result<(), OperationError>)
        requires
            self.well_formed(),
        ensures
            result == if self.read() == self.data().len() {
                Ok(())
            } else {
                Err(OperationError::TrailingBytes((self.data().len() - self.read()) as usize))
            },
    {
        if self.remaining() == 0 {
            Ok(())
        } else {
            Err(OperationError::TrailingBytes(self.remaining()))
        }
    }
}

/// What a writer has written in 16, 24 or 32 bits, a reader reads back.
pub proof fn lemma_codec_round_trip(short: u16, medium: u32, long: u32)
    requires
        medium <= 0xff_ffff,
    ensures
        from_be16(be16(short)[0], be16(short)[1]) == short,
        from_be24(be24(medium)[0], be24(medium)[1], be24(medium)[2]) == medium,
        from_be32(be32(long)[0], be32(long)[1], be32(long)[2], be32(long)[3]) == long,
{
    crate::bytes::lemma_be16_round_trip(short, 0, 0);
    crate::bytes::lemma_be24_round_trip(medium, 0, 0, 0);
    crate::bytes::lemma_be32_round_trip(long, 0, 0, 0, 0);
}

} // verus!
