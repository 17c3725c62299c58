//! Transfer of application data in bounded sequential blocks.

use vstd::prelude::*;

use crate::bytes::{append_bytes, copy_range};

verus! {

/// Largest transfer representable by 65,536 maximum-size blocks.
pub const MAXIMUM_TRANSFER_BYTES: usize = 65_536 * 251;

/// One sequential application-transfer block.
#[derive(Debug, PartialEq, Eq)]
pub struct TransferBlock {
    /// Zero-based number.
    pub sequence: u16,
    /// Last-block marker.
    pub last: bool,
    /// Data without the service header.
    pub data: Vec<u8>,
}

/// What a block holds, with its data as a sequence.
#[verifier::ext_equal]
pub struct BlockView {
    pub sequence: u16,
    pub last: bool,
    pub data: Seq<u8>,
}

impl View for TransferBlock {
    type V = BlockView;

    open spec fn view(&self) -> BlockView {
        BlockView { sequence: self.sequence, last: self.last, data: self.data@ }
    }
}

impl Clone for TransferBlock {
    fn clone(&self) -> (copy: Self)
        ensures
            copy@ == self@,
    {
        TransferBlock {
            sequence: self.sequence,
            last: self.last,
            data: copy_range(&self.data, 0, self.data.len()),
        }
    }
}

/// Block-transfer progress state.
#[derive(Debug, Clone, Copy, PartialEq, Eq, Structural)]
pub struct TransferProgress {
    /// Next expected number.
    pub next_sequence: u16,
    /// Number of acknowledged bytes.
    pub transferred_bytes: usize,
    /// Whether the transfer is complete.
    pub complete: bool,
}

/// Block-transfer state error.
#[derive(Debug, Clone, Copy, PartialEq, Eq, Structural)]
pub enum TransferError {
    /// Invalid block size.
    BlockSize(usize),
    /// A received block exceeds the application payload space.
    BlockDataSize(usize),
    /// A non-final block must advance the retained payload.
    EmptyIntermediateBlock,
    /// A block number does not match the expected number.
    OutOfOrder {
        /// Expected number.
        expected: u16,
        /// Received number.
        actual: u16,
    },
    /// The total memory limit was exceeded.
    Limit,
    /// The transfer is already complete.
    AlreadyComplete,
    /// The final block has not arrived yet.
    Incomplete,
    /// The 16-bit block-number space was exhausted.
    SequenceSpace,
}

/// Number of blocks that data takes: at least one.
pub open spec fn blocks_needed(length: int, block_size: int) -> int {
    if length <= 1 {
        1
    } else {
        (length - 1) / block_size + 1
    }
}

/// Where a block starts.
pub open spec fn block_start(block_size: int, index: int) -> int {
    index * block_size
}

/// Where a block ends.
pub open spec fn block_end(length: int, block_size: int, index: int) -> int {
    if block_start(block_size, index) + block_size < length {
        block_start(block_size, index) + block_size
    } else {
        length
    }
}

/// A block of some data.
pub open spec fn block_of(source: Seq<u8>, block_size: int, index: int) -> BlockView {
    let end = block_end(source.len() as int, block_size, index);
    BlockView {
        sequence: index as u16,
        last: end == source.len(),
        data: source.subrange(block_start(block_size, index), end),
    }
}

/// The blocks of some data.
pub open spec fn blocks_of(source: Seq<u8>, block_size: int) -> Seq<BlockView> {
    Seq::new(
        blocks_needed(source.len() as int, block_size) as nat,
        |index: int| block_of(source, block_size, index),
    )
}

proof fn lemma_block_bounds(length: int, block_size: int, index: int)
    requires
        0 <= length,
        1 <= block_size,
        0 <= index < blocks_needed(length, block_size),
    ensures
        0 <= block_start(block_size, index) <= block_end(length, block_size, index) <= length,
        block_end(length, block_size, index) - block_start(block_size, index) <= block_size,
        block_end(length, block_size, index) == length <==> index + 1 == blocks_needed(
            length,
            block_size,
        ),
        index + 1 < blocks_needed(length, block_size) ==> block_end(length, block_size, index)
            == block_start(block_size, index + 1),
        length > 0 ==> block_start(block_size, index) < block_end(length, block_size, index),
{
    let start = block_start(block_size, index);
    assert(0 <= start) by (nonlinear_arith)
        requires
            0 <= index,
            1 <= block_size,
            start == index * block_size,
    ;
    assert(block_start(block_size, index + 1) == start + block_size) by (nonlinear_arith)
        requires
            start == index * block_size,
            block_start(block_size, index + 1) == (index + 1) * block_size,
    ;
    if length > 1 {
        let quotient = (length - 1) / block_size;
        vstd::arithmetic::div_mod::lemma_fundamental_div_mod(length - 1, block_size);
        vstd::arithmetic::div_mod::lemma_mod_bound(length - 1, block_size);
        let remainder = (length - 1) % block_size;
        assert(length - 1 == block_size * quotient + remainder);
        assert(start <= block_size * quotient) by (nonlinear_arith)
            requires
                index <= quotient,
                1 <= block_size,
                start == index * block_size,
        ;
        if index < quotient {
            assert(start + block_size <= block_size * quotient) by (nonlinear_arith)
                requires
                    index + 1 <= quotient,
                    1 <= block_size,
                    start == index * block_size,
            ;
        } else {
            assert(start == block_size * quotient) by (nonlinear_arith)
                requires
                    index == quotient,
                    start == index * block_size,
            ;
        }
    } else {
        assert(start == 0) by (nonlinear_arith)
            requires
                index == 0,
                start == index * block_size,
        ;
    }
}

/// Splits source data into bounded sequential blocks.
#[derive(Debug, Clone)]
pub struct BlockSender<'a> {
    source: &'a [u8],
    block_size: usize,
    offset: usize,
    sequence: u16,
    complete: bool,
}

/// What a sender holds.
#[verifier::ext_equal]
pub struct SenderView {
    /// Data to send.
    pub source: Seq<u8>,
    /// Bytes of a block.
    pub block_size: usize,
    /// Blocks sent.
    pub sent: nat,
}

impl SenderView {
    /// Number of blocks.
    pub open spec fn total(self) -> int {
        blocks_needed(self.source.len() as int, self.block_size as int)
    }

    /// How far the sender is.
    pub open spec fn progress(self) -> TransferProgress {
        TransferProgress {
            next_sequence: if self.sent == self.total() {
                (self.sent - 1) as u16
            } else {
                self.sent as u16
            },
            transferred_bytes: if self.sent == 0 {
                0
            } else {
                block_end(
                    self.source.len() as int,
                    self.block_size as int,
                    self.sent - 1,
                ) as usize
            },
            complete: self.sent == self.total(),
        }
    }
}

impl<'a> BlockSender<'a> {
    /// What is sent.
    pub closed spec fn state(&self) -> SenderView {
        SenderView {
            source: self.source@,
            block_size: self.block_size,
            sent: if self.complete {
                (self.sequence + 1) as nat
            } else {
                self.sequence as nat
            },
        }
    }

    /// The position is that of the next block, and every block has a number.
    pub closed spec fn well_formed(&self) -> bool {
        &&& 1 <= self.block_size <= 251
        &&& self.source@.len() <= MAXIMUM_TRANSFER_BYTES
        &&& self.state().total() <= 65_536
        &&& if self.complete {
            self.sequence + 1 == self.state().total() && self.offset == self.source@.len()
        } else {
            self.sequence < self.state().total() && self.offset == block_start(
                self.block_size as int,
                self.sequence as int,
            )
        }
    }

    /// Creates a sender with a block size in `1..=251`.
    pub fn new(source: &'a [u8], block_size: usize) -> (result: Result<Self, TransferError>)
        ensures
            if !(1 <= block_size <= 251) {
                result == Err::<Self, TransferError>(TransferError::BlockSize(block_size))
            } else if source@.len() > MAXIMUM_TRANSFER_BYTES {
                result == Err::<Self, TransferError>(TransferError::Limit)
            } else if blocks_needed(source@.len() as int, block_size as int) > 65_536 {
                result == Err::<Self, TransferError>(TransferError::SequenceSpace)
            } else {
                result matches Ok(sender) && sender.well_formed() && sender.state() == (SenderView {
                    source: source@,
                    block_size,
                    sent: 0,
                })
            },
    {
        if block_size < 1 || block_size > 251 {
            return Err(TransferError::BlockSize(block_size));
        }
        let length: usize = source.len();
        if length > MAXIMUM_TRANSFER_BYTES {
            return Err(TransferError::Limit);
        }
        let required_blocks: usize = if length <= 1 {
            1
        } else {
            proof {
                vstd::arithmetic::div_mod::lemma_div_is_ordered_by_denominator(
                    length - 1,
                    1,
                    block_size as int,
                );
            }
            (length - 1) / block_size + 1
        };
        if required_blocks > 65_536 {
            return Err(TransferError::SequenceSpace);
        }
        let sender = BlockSender { source, block_size, offset: 0, sequence: 0, complete: false };
        proof {
            lemma_block_bounds(length as int, block_size as int, 0);
        }
        Ok(sender)
    }

    /// Returns the next block. An empty source produces one final empty block.
    pub fn next_block(&mut self) -> (result: Result<Option<TransferBlock>, TransferError>)
        requires
            old(self).well_formed(),
        ensures
            final(self).well_formed(),
            if old(self).state().sent == old(self).state().total() {
                result == Ok::<Option<TransferBlock>, TransferError>(None) && final(self).state()
                    == old(self).state()
            } else {
                result matches Ok(Some(block)) && block@ == block_of(
                    old(self).state().source,
                    old(self).state().block_size as int,
                    old(self).state().sent as int,
                ) && final(self).state() == (SenderView {
                    sent: old(self).state().sent + 1,
                    ..old(self).state()
                })
            },
    {
        if self.complete {
            return Ok(None);
        }
        let length: usize = self.source.len();
        proof {
            lemma_block_bounds(length as int, self.block_size as int, self.sequence as int);
            if self.sequence + 1 < self.state().total() {
                lemma_block_bounds(
                    length as int,
                    self.block_size as int,
                    self.sequence + 1,
                );
            }
        }
        let end: usize = if length - self.offset > self.block_size {
            self.offset + self.block_size
        } else {
            length
        };
        let last = end == length;
        let block = TransferBlock {
            sequence: self.sequence,
            last,
            data: copy_range(self.source, self.offset, end),
        };
        self.offset = end;
        self.complete = last;
        if !last {
            if self.sequence == u16::MAX {
                return Err(TransferError::SequenceSpace);
            }
            self.sequence = self.sequence + 1;
        }
        Ok(Some(block))
    }

    /// Returns the sender state.
    pub fn progress(&self) -> (progress: TransferProgress)
        requires
            self.well_formed(),
        ensures
            progress == self.state().progress(),
    {
        proof {
            let length = self.source@.len() as int;
            let size = self.block_size as int;
            lemma_block_bounds(length, size, self.sequence as int);
            if self.sequence > 0 {
                lemma_block_bounds(length, size, self.sequence - 1);
            }
            assert(0 * size == 0) by (nonlinear_arith);
            assert(block_start(size, 0) == 0);
        }
        TransferProgress {
            next_sequence: self.sequence,
            transferred_bytes: self.offset,
            complete: self.complete,
        }
    }
}

/// What a receiver holds.
#[verifier::ext_equal]
pub struct ReceiverView {
    /// Bytes received.
    pub bytes: Seq<u8>,
    /// Most bytes that are kept.
    pub maximum: usize,
    /// Number of the next block.
    pub next: u16,
    /// Whether the last block was received.
    pub complete: bool,
}

impl ReceiverView {
    /// A receiver that has received nothing.
    pub open spec fn fresh(maximum: usize) -> ReceiverView {
        ReceiverView { bytes: Seq::empty(), maximum, next: 0, complete: false }
    }

    /// Why a block is not taken, if it is not.
    pub open spec fn rejection(self, block: BlockView) -> Option<TransferError> {
        if self.complete {
            Some(TransferError::AlreadyComplete)
        } else if block.data.len() > 251 {
            Some(TransferError::BlockDataSize(block.data.len() as usize))
        } else if block.data.len() == 0 && !block.last {
            Some(TransferError::EmptyIntermediateBlock)
        } else if block.sequence != self.next {
            Some(TransferError::OutOfOrder { expected: self.next, actual: block.sequence })
        } else if self.bytes.len() + block.data.len() > self.maximum {
            Some(TransferError::Limit)
        } else {
            None
        }
    }

    /// Whether the numbers are used up by a block that others would have to follow.
    pub open spec fn exhausted_by(self, block: BlockView) -> bool {
        !block.last && self.next == u16::MAX
    }

    /// The receiver after it took a block.
    pub open spec fn accepting(self, block: BlockView) -> ReceiverView {
        ReceiverView {
            bytes: self.bytes + block.data,
            complete: block.last,
            next: if block.last || self.exhausted_by(block) {
                self.next
            } else {
                (self.next + 1) as u16
            },
            ..self
        }
    }

    /// How far the receiver is.
    pub open spec fn progress(self) -> TransferProgress {
        TransferProgress {
            next_sequence: self.next,
            transferred_bytes: self.bytes.len() as usize,
            complete: self.complete,
        }
    }
}

/// Receiver that enforces ordering and a total memory limit.
#[derive(Debug, Clone)]
pub struct BlockReceiver {
    bytes: Vec<u8>,
    maximum_bytes: usize,
    next_sequence: u16,
    complete: bool,
}

impl View for BlockReceiver {
    type V = ReceiverView;

    closed spec fn view(&self) -> ReceiverView {
        ReceiverView {
            bytes: self.bytes@,
            maximum: self.maximum_bytes,
            next: self.next_sequence,
            complete: self.complete,
        }
    }
}

impl BlockReceiver {
    /// No more bytes are kept than allowed.
    pub closed spec fn well_formed(&self) -> bool {
        self.bytes@.len() <= self.maximum_bytes <= MAXIMUM_TRANSFER_BYTES
    }

    /// A receiver never keeps more bytes than its limit.
    pub proof fn lemma_limit_is_kept(&self)
        requires
            self.well_formed(),
        ensures
            self@.bytes.len() <= self@.maximum <= MAXIMUM_TRANSFER_BYTES,
    {
    }

    /// Creates an empty receiver.
    pub fn new(maximum_bytes: usize) -> (receiver: Self)
        ensures
            receiver.well_formed(),
            receiver@ == ReceiverView::fresh(
                if maximum_bytes > MAXIMUM_TRANSFER_BYTES {
                    MAXIMUM_TRANSFER_BYTES
                } else {
                    maximum_bytes
                },
            ),
    {
        BlockReceiver {
            bytes: Vec::new(),
            maximum_bytes: if maximum_bytes > MAXIMUM_TRANSFER_BYTES {
                MAXIMUM_TRANSFER_BYTES
            } else {
                maximum_bytes
            },
            next_sequence: 0,
            complete: false,
        }
    }

    /// Creates a receiver after rejecting an implausible aggregate byte limit.
    pub fn try_new(maximum_bytes: usize) -> (result: Result<Self, TransferError>)
        ensures
            if maximum_bytes > MAXIMUM_TRANSFER_BYTES {
                result == Err::<Self, TransferError>(TransferError::Limit)
            } else {
                result matches Ok(receiver) && receiver.well_formed() && receiver@
                    == ReceiverView::fresh(maximum_bytes)
            },
    {
        if maximum_bytes > MAXIMUM_TRANSFER_BYTES {
            return Err(TransferError::Limit);
        }
        Ok(BlockReceiver::new(maximum_bytes))
    }

    /// Returns the effective aggregate byte limit.
    pub fn maximum_bytes(&self) -> (maximum: usize)
        ensures
            maximum == self@.maximum,
    {
        self.maximum_bytes
    }

    /// Accepts the next block or returns the exact rejection reason. The data
    /// of a block that uses up the numbers is kept, though it is reported.
    pub fn accept(&mut self, block: &TransferBlock) -> (result: Result<
        TransferProgress,
        TransferError,
    >)
        requires
            old(self).well_formed(),
        ensures
            final(self).well_formed(),
            match old(self)@.rejection(block@) {
                Some(error) => result == Err::<TransferProgress, TransferError>(error)
                    && final(self)@ == old(self)@,
                None => {
                    &&& final(self)@ == old(self)@.accepting(block@)
                    &&& result == if old(self)@.exhausted_by(block@) {
                        Err::<TransferProgress, TransferError>(TransferError::SequenceSpace)
                    } else {
                        Ok::<TransferProgress, TransferError>(final(self)@.progress())
                    }
                },
            },
    {
        if self.complete {
            return Err(TransferError::AlreadyComplete);
        }
        let length: usize = block.data.len();
        if length > 251 {
            return Err(TransferError::BlockDataSize(length));
        }
        if length == 0 && !block.last {
            return Err(TransferError::EmptyIntermediateBlock);
        }
        if block.sequence != self.next_sequence {
            return Err(
                TransferError::OutOfOrder {
                    expected: self.next_sequence,
                    actual: block.sequence,
                },
            );
        }
        if length > self.maximum_bytes - self.bytes.len() {
            return Err(TransferError::Limit);
        }
        append_bytes(&mut self.bytes, &block.data);
        self.complete = block.last;
        if !block.last {
            if self.next_sequence == u16::MAX {
                return Err(TransferError::SequenceSpace);
            }
            self.next_sequence = self.next_sequence + 1;
        }
        Ok(self.progress())
    }

    /// Returns the receiver state.
    pub fn progress(&self) -> (progress: TransferProgress)
        requires
            self.well_formed(),
        ensures
            progress == self@.progress(),
    {
        TransferProgress {
            next_sequence: self.next_sequence,
            transferred_bytes: self.bytes.len(),
            complete: self.complete,
        }
    }

    /// Extracts data only after the final block has arrived.
    pub fn finish(self) -> (result: Result<Vec<u8>, TransferError>)
        ensures
            if self@.complete {
                result matches Ok(bytes) && bytes@ == self@.bytes
            } else {
                result == Err::<Vec<u8>, TransferError>(TransferError::Incomplete)
            },
    {
        if self.complete {
            Ok(self.bytes)
        } else {
            Err(TransferError::Incomplete)
        }
    }
}

/// The receiver after it was offered blocks one after the other, if it took all of them.
pub open spec fn accepting_all(receiver: ReceiverView, blocks: Seq<BlockView>) -> Option<
    ReceiverView,
>
    decreases blocks.len(),
{
    if blocks.len() == 0 {
        Some(receiver)
    } else {
        match accepting_all(receiver, blocks.drop_last()) {
            None => None,
            Some(before) => if before.rejection(blocks.last()) is Some || before.exhausted_by(
                blocks.last(),
            ) {
                None
            } else {
                Some(before.accepting(blocks.last()))
            },
        }
    }
}

proof fn lemma_first_blocks_arrive(source: Seq<u8>, block_size: int, maximum: usize, count: int)
    requires
        1 <= block_size <= 251,
        blocks_needed(source.len() as int, block_size) <= 65_536,
        source.len() <= maximum,
        0 <= count <= blocks_needed(source.len() as int, block_size),
    ensures
        accepting_all(
            ReceiverView::fresh(maximum),
            blocks_of(source, block_size).take(count),
        ) == Some(
            ReceiverView {
                bytes: if count == 0 {
                    Seq::empty()
                } else {
                    source.take(block_end(source.len() as int, block_size, count - 1))
                },
                maximum,
                next: if count == blocks_needed(source.len() as int, block_size) {
                    (count - 1) as u16
                } else {
                    count as u16
                },
                complete: count == blocks_needed(source.len() as int, block_size),
            },
        ),
    decreases count,
{
    let length = source.len() as int;
    let blocks = blocks_of(source, block_size);
    if count == 0 {
        assert(blocks.take(0).len() == 0);
        lemma_block_bounds(length, block_size, 0);
    } else {
        lemma_first_blocks_arrive(source, block_size, maximum, count - 1);
        lemma_block_bounds(length, block_size, count - 1);
        assert(blocks.take(count).drop_last() =~= blocks.take(count - 1));
        assert(blocks.take(count).last() == block_of(source, block_size, count - 1));
        let block = block_of(source, block_size, count - 1);
        let end = block_end(length, block_size, count - 1);
        if count == 1 {
            assert(block_start(block_size, 0) == 0);
            assert(Seq::<u8>::empty() + block.data =~= source.take(end));
        } else {
            lemma_block_bounds(length, block_size, count - 2);
            let start = block_start(block_size, count - 1);
            assert(source.take(start) + block.data =~= source.take(end));
        }
    }
}

/// A receiver that is offered the blocks of some data in order, and may keep
/// that many bytes, takes all of them and ends with the data.
pub proof fn lemma_transfer_round_trip(source: Seq<u8>, block_size: int, maximum: usize)
    requires
        1 <= block_size <= 251,
        blocks_needed(source.len() as int, block_size) <= 65_536,
        source.len() <= maximum,
    ensures
        accepting_all(
            ReceiverView::fresh(maximum),
            blocks_of(source, block_size),
        ) matches Some(receiver) && receiver.complete && receiver.bytes == source,
{
    let blocks = blocks_of(source, block_size);
    let count = blocks_needed(source.len() as int, block_size);
    lemma_block_count(source.len() as int, block_size);
    lemma_first_blocks_arrive(source, block_size, maximum, count);
    assert(blocks.take(count) =~= blocks);
    lemma_block_bounds(source.len() as int, block_size, count - 1);
    assert(source.take(source.len() as int) =~= source);
}

proof fn lemma_block_count(length: int, block_size: int)
    requires
        0 <= length,
        1 <= block_size,
    ensures
        blocks_needed(length, block_size) >= 1,
{
    if length > 1 {
        vstd::arithmetic::div_mod::lemma_div_pos_is_pos(length - 1, block_size);
    }
}

/// A block with another number than the next one changes nothing.
pub proof fn lemma_out_of_order_is_rejected(receiver: ReceiverView, block: BlockView)
    requires
        block.sequence != receiver.next,
    ensures
        receiver.rejection(block) is Some,
{
}

/// A transfer is cut into blocks of the given size, numbered from zero, of
/// which the last may be shorter and alone is marked as the last; their bytes
/// in a row are the source. Nothing is sent as one empty block.
pub proof fn lemma_blocks_cut_the_source(source: Seq<u8>, block_size: int, index: int)
    requires
        1 <= block_size,
        0 <= index < blocks_needed(source.len() as int, block_size) <= 65_536,
    ensures
        ({
            let blocks = blocks_of(source, block_size);
            let block = blocks[index];
            &&& block.sequence == index
            &&& (block.last <==> index == blocks.len() - 1)
            &&& (!block.last ==> block.data.len() == block_size)
            &&& block.data.len() <= block_size
            &&& (source.len() > 0 ==> block.data.len() > 0)
            &&& (source.len() == 0 ==> blocks.len() == 1)
            &&& forall|i: int|
                0 <= i < block.data.len() ==> #[trigger] block.data[i] == source[index * block_size
                    + i]
            &&& (block.last ==> index * block_size + block.data.len() == source.len())
        }),
{
    lemma_block_bounds(source.len() as int, block_size, index);
}

/// A block is taken up exactly while the transfer is not complete, if it is the
/// next one, has at most 251 bytes, is not empty unless it is the last, and
/// keeps to the limit. Its bytes follow those before it, and the last block
/// completes the transfer.
pub proof fn lemma_block_is_accepted(receiver: ReceiverView, block: BlockView)
    ensures
        receiver.rejection(block) is None <==> !receiver.complete && block.sequence
            == receiver.next && block.data.len() <= 251 && (block.last || block.data.len() > 0)
            && receiver.bytes.len() + block.data.len() <= receiver.maximum,
        receiver.accepting(block).bytes.take(receiver.bytes.len() as int) == receiver.bytes,
        receiver.accepting(block).bytes.skip(receiver.bytes.len() as int) == block.data,
        receiver.accepting(block).complete <==> block.last,
        receiver.accepting(block).maximum == receiver.maximum,
        !block.last && receiver.next < u16::MAX ==> receiver.accepting(block).next == receiver.next
            + 1,
        receiver.complete ==> receiver.rejection(block) == Some(TransferError::AlreadyComplete),
{
    let bytes = receiver.accepting(block).bytes;
    assert(bytes.take(receiver.bytes.len() as int) =~= receiver.bytes);
    assert(bytes.skip(receiver.bytes.len() as int) =~= block.data);
}

} // verus!
