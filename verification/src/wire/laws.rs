//! What holds of encoding and of streaming decoding taken together.

use vstd::prelude::*;

use crate::counters::counted;
use crate::wire::address::{lemma_address_round_trip, Address};
use crate::wire::decoder::{
    candidate, first_candidate, frame_at, kept_preambles, possible_delimiter,
    preamble_run, step, ChecksumPolicy, DecodeLimits, DecodeStatistics, DecoderState, EventView,
    StepView, MAXIMUM_DECODE_EVENTS_PER_PUSH,
};
use crate::wire::frame::{lemma_delimiter_round_trip, FrameView};
use crate::wire::xor_all;

verus! {

proof fn lemma_preamble_byte()
    by (bit_vector)
    ensures
        0xffu8 & 0x1f == 0x1f,
        (0xffu8 ^ 0x10) & 0x1f == 0x0f,
{
}

/// A preamble byte is never taken for a delimiter.
pub proof fn lemma_preamble_is_no_delimiter(policy: ChecksumPolicy)
    ensures
        !possible_delimiter(0xff, policy),
{
    lemma_preamble_byte();
}

proof fn lemma_first_candidate_is(
    bytes: Seq<u8>,
    from: int,
    target: int,
    limits: DecodeLimits,
)
    requires
        0 <= from <= target < bytes.len(),
        forall|i: int| from <= i < target ==> !candidate(bytes, i, limits),
        candidate(bytes, target, limits),
    ensures
        first_candidate(bytes, from, limits) == Some(target),
    decreases target - from,
{
    if from < target {
        assert(!candidate(bytes, from, limits));
        lemma_first_candidate_is(bytes, from + 1, target, limits);
    }
}

proof fn lemma_no_candidate(bytes: Seq<u8>, from: int, limits: DecodeLimits)
    requires
        0 <= from <= bytes.len(),
        forall|i: int| from <= i < bytes.len() ==> !candidate(bytes, i, limits),
    ensures
        first_candidate(bytes, from, limits) is None,
    decreases bytes.len() - from,
{
    if from < bytes.len() {
        assert(!candidate(bytes, from, limits));
        lemma_no_candidate(bytes, from + 1, limits);
    }
}

/// What the search result says about the positions before it.
proof fn lemma_first_candidate_meaning(bytes: Seq<u8>, from: int, limits: DecodeLimits)
    requires
        0 <= from <= bytes.len(),
    ensures
        match first_candidate(bytes, from, limits) {
            Some(index) => {
                &&& from <= index < bytes.len()
                &&& candidate(bytes, index, limits)
                &&& forall|i: int| from <= i < index ==> !#[trigger] candidate(bytes, i, limits)
            },
            None => forall|i: int|
                from <= i < bytes.len() ==> !#[trigger] candidate(bytes, i, limits),
        },
    decreases bytes.len() - from,
{
    if from < bytes.len() && !candidate(bytes, from, limits) {
        lemma_first_candidate_meaning(bytes, from + 1, limits);
    }
}

proof fn lemma_run_of_preambles(bytes: Seq<u8>, index: int)
    requires
        0 <= index <= bytes.len(),
        forall|i: int| 0 <= i < index ==> bytes[i] == 0xff,
    ensures
        preamble_run(bytes, index) == index,
    decreases index,
{
    if index > 0 {
        lemma_run_of_preambles(bytes, index - 1);
    }
}

proof fn lemma_run_bound(bytes: Seq<u8>, index: int)
    requires
        0 <= index,
    ensures
        preamble_run(bytes, index) <= index,
    decreases index,
{
    if index > 0 && bytes[index - 1] == 0xff {
        lemma_run_bound(bytes, index - 1);
    }
}

proof fn lemma_run_of_prefix(bytes: Seq<u8>, more: Seq<u8>, index: int)
    requires
        index <= bytes.len(),
    ensures
        preamble_run(bytes + more, index) == preamble_run(bytes, index),
    decreases index,
{
    if index > 0 {
        lemma_run_of_prefix(bytes, more, index - 1);
    }
}

/// The decoder finds exactly the encoded frame at the head of its bytes.
#[verifier::spinoff_prover]
#[verifier::rlimit(60)]
proof fn lemma_step_on_encoded(frame: FrameView, rest: Seq<u8>, limits: DecodeLimits)
    requires
        frame.canonical(),
        limits.usable(),
        frame.preambles >= limits.minimum_preambles,
    ensures
        step(frame.encoded() + rest, limits) == (StepView::Frame {
            frame,
            consumed: frame.encoded().len(),
        }),
{
    let bytes = frame.encoded() + rest;
    let start = frame.preambles as int;
    let policy = limits.checksum_policy;
    let burst = frame.kind is Burst;
    let address = frame.address.wire_bytes(burst);
    let delimiter = frame.delimiter_value();
    let checked = frame.checked_bytes();
    lemma_delimiter_round_trip(
        frame.kind,
        frame.physical_layer,
        frame.address.long(),
        frame.expansion.len(),
    );
    lemma_preamble_is_no_delimiter(policy);
    assert forall|i: int| 0 <= i < start implies bytes[i] == 0xff by {}
    lemma_run_of_preambles(bytes, start);
    assert(bytes[start] == checked[0]);
    assert(bytes[start] == delimiter);
    assert forall|i: int| 0 <= i < start implies !candidate(bytes, i, limits) by {
        assert(bytes[i] == 0xff);
    }
    lemma_first_candidate_is(bytes, 0, start, limits);
    let long = frame.address.long();
    let address_len: int = if long {
        5
    } else {
        1
    };
    assert(address.len() == address_len);
    let command = start + 1 + address_len + frame.expansion.len();
    let payload = command + 2;
    let end = payload + frame.payload.len();
    assert(checked.len() == end - start);
    assert(bytes[command] == checked[command - start]);
    assert(checked[command - start] == frame.wire_command);
    assert(bytes[command + 1] == checked[command + 1 - start]);
    assert(checked[command + 1 - start] == frame.payload.len() as u8);
    assert(bytes.subrange(start, end) =~= checked);
    assert(bytes[end] == xor_all(checked));
    assert(bytes.subrange(start + 1 + address_len, command) =~= frame.expansion);
    assert(bytes.subrange(payload, end) =~= frame.payload);
    let after = bytes.subrange(start + 1 + address_len, bytes.len() as int);
    assert(bytes.subrange(start + 1, bytes.len() as int) =~= address + after);
    lemma_address_round_trip(frame.address, burst, after);
    lemma_no_repair(policy, xor_all(checked));
    assert(frame_at(bytes, start, policy) == (StepView::Frame {
        frame,
        consumed: frame.encoded().len(),
    }));
}

proof fn lemma_no_repair(policy: ChecksumPolicy, sum: u8)
    ensures
        sum ^ 0x10 != sum,
{
    assert(sum ^ 0x10 != sum) by (bit_vector);
}

proof fn lemma_step_on_nothing(limits: DecodeLimits)
    ensures
        step(Seq::<u8>::empty(), limits) == StepView::NoCandidate,
{
}

/// Encoding and decoding are inverse: a decoder that waits for a new frame
/// turns the encoding of a canonical frame into that frame and nothing else,
/// drops no byte, and waits again.
pub proof fn lemma_encode_decode_round_trip(
    state: DecoderState,
    frame: FrameView,
    limits: DecodeLimits,
)
    requires
        state.buffered.len() == 0,
        frame.canonical(),
        limits.usable(),
        frame.preambles >= limits.minimum_preambles,
        frame.encoded().len() <= limits.buffer_capacity,
    ensures
        state.pushed(limits, frame.encoded()).1 == seq![EventView::Frame(frame)],
        state.pushed(limits, frame.encoded()).0 == (DecoderState {
            buffered: seq![],
            statistics: DecodeStatistics {
                frames: counted(state.statistics.frames, 1),
                ..state.statistics
            },
        }),
{
    let bytes = frame.encoded();
    let room = MAXIMUM_DECODE_EVENTS_PER_PUSH as nat;
    let filled = state.appended(limits, bytes);
    assert(filled.buffered =~= bytes);
    assert(bytes + Seq::<u8>::empty() =~= bytes);
    lemma_step_on_encoded(frame, Seq::empty(), limits);
    let (after, event) = filled.next(limits);
    assert(event == Some(EventView::Frame(frame)));
    assert(after.buffered =~= Seq::<u8>::empty());
    lemma_step_on_nothing(limits);
    let (last, none) = after.next(limits);
    assert(none is None);
    assert(last.buffered =~= Seq::<u8>::empty());
    assert(last == after);
    assert(after.drained(limits, (room - 1) as nat).1 =~= seq![]);
    assert(filled.drained(limits, room).1 =~= seq![EventView::Frame(frame)]);
}

/// The same state with more bytes behind the buffered ones.
pub open spec fn extended(state: DecoderState, more: Seq<u8>) -> DecoderState {
    DecoderState { buffered: state.buffered + more, ..state }
}

proof fn lemma_first_candidate_of_prefix(
    bytes: Seq<u8>,
    more: Seq<u8>,
    from: int,
    limits: DecodeLimits,
)
    requires
        0 <= from <= bytes.len(),
        first_candidate(bytes, from, limits) is Some,
    ensures
        first_candidate(bytes + more, from, limits) == first_candidate(bytes, from, limits),
    decreases bytes.len() - from,
{
    lemma_run_of_prefix(bytes, more, from);
    assert((bytes + more)[from] == bytes[from]);
    if !candidate(bytes, from, limits) {
        lemma_first_candidate_of_prefix(bytes, more, from + 1, limits);
    }
}

/// Bytes that arrive later change nothing about what has been decided.
proof fn lemma_step_of_prefix(bytes: Seq<u8>, more: Seq<u8>, limits: DecodeLimits)
    requires
        !(step(bytes, limits) is NoCandidate),
        !(step(bytes, limits) is NeedMore),
    ensures
        step(bytes + more, limits) == step(bytes, limits),
{
    let whole = bytes + more;
    lemma_first_candidate_meaning(bytes, 0, limits);
    lemma_first_candidate_of_prefix(bytes, more, 0, limits);
    let start = first_candidate(bytes, 0, limits)->0;
    lemma_run_of_prefix(bytes, more, start);
    let kept = kept_preambles(preamble_run(bytes, start));
    if start <= kept {
        let policy = limits.checksum_policy;
        let delimiter = crate::wire::decoder::effective_delimiter(bytes[start], policy);
        let long = delimiter & 0x80 != 0;
        let address_len = if long {
            5int
        } else {
            1int
        };
        let expansion_len = ((delimiter >> 5) & 0x03) as int;
        let command = start + 1 + address_len + expansion_len;
        let end = command + 2 + bytes[command + 1];
        assert(whole[start] == bytes[start]);
        assert(whole[start + 1] == bytes[start + 1]);
        assert(whole[command] == bytes[command]);
        assert(whole[command + 1] == bytes[command + 1]);
        assert(whole[end] == bytes[end]);
        assert(whole.subrange(start, end) =~= bytes.subrange(start, end));
        assert(whole.subrange(start + 1 + address_len, command) =~= bytes.subrange(
            start + 1 + address_len,
            command,
        ));
        assert(whole.subrange(command + 2, end) =~= bytes.subrange(command + 2, end));
        let old_tail = bytes.subrange(start + 1, bytes.len() as int);
        let new_tail = whole.subrange(start + 1, whole.len() as int);
        assert(new_tail =~= old_tail + more);
        assert(Address::parsed(new_tail, long) == Address::parsed(old_tail, long));
    }
}

proof fn lemma_step_consumes(bytes: Seq<u8>, limits: DecodeLimits)
    ensures
        match step(bytes, limits) {
            StepView::Discard(count) => 0 < count <= bytes.len(),
            StepView::Rejected { consumed, .. } => 0 < consumed <= bytes.len(),
            StepView::Frame { consumed, .. } => 0 < consumed <= bytes.len(),
            _ => true,
        },
{
    lemma_first_candidate_meaning(bytes, 0, limits);
}

proof fn lemma_discard_extended(state: DecoderState, more: Seq<u8>, count: nat)
    requires
        count <= state.buffered.len(),
    ensures
        extended(state, more).discarded(count) == extended(state.discarded(count), more),
{
    assert(extended(state, more).discarded(count).buffered =~= extended(
        state.discarded(count),
        more,
    ).buffered);
}

/// An event that is already complete does not depend on later bytes.
proof fn lemma_event_of_prefix(state: DecoderState, more: Seq<u8>, limits: DecodeLimits)
    requires
        state.next(limits).1 is Some,
    ensures
        extended(state, more).next(limits) == (
            extended(state.next(limits).0, more),
            state.next(limits).1,
        ),
    decreases state.buffered.len(),
{
    lemma_step_consumes(state.buffered, limits);
    lemma_step_of_prefix(state.buffered, more, limits);
    match step(state.buffered, limits) {
        StepView::Discard(count) => {
            lemma_discard_extended(state, more, count);
            lemma_event_of_prefix(state.discarded(count), more, limits);
        },
        StepView::Rejected { error, consumed, checksum_failure } => {
            assert(extended(state, more).next(limits).0.buffered =~= extended(
                state.next(limits).0,
                more,
            ).buffered);
        },
        StepView::Frame { frame, consumed } => {
            assert(extended(state, more).next(limits).0.buffered =~= extended(
                state.next(limits).0,
                more,
            ).buffered);
        },
        _ => {},
    }
}

/// The preamble run before a later byte, seen with and without the bytes that
/// trimming drops.
proof fn lemma_run_after_trim(bytes: Seq<u8>, more: Seq<u8>, dropped: int, index: int)
    requires
        dropped == bytes.len() - kept_preambles(preamble_run(bytes, bytes.len() as int)),
        0 <= dropped,
        bytes.len() <= index <= bytes.len() + more.len(),
    ensures
        ({
            let whole = bytes + more;
            let run = preamble_run(whole, index);
            let trimmed_run = preamble_run(whole.skip(dropped), index - dropped);
            &&& kept_preambles(run) == kept_preambles(trimmed_run)
            &&& run >= 255 ==> trimmed_run >= 255
            &&& run < 255 ==> run == trimmed_run
        }),
    decreases index,
{
    let whole = bytes + more;
    let short = whole.skip(dropped);
    if index > bytes.len() {
        assert(short[index - dropped - 1] == whole[index - 1]);
        if whole[index - 1] == 0xff {
            lemma_run_after_trim(bytes, more, dropped, index - 1);
        }
    } else {
        let length = bytes.len() as int;
        lemma_run_of_prefix(bytes, more, length);
        let kept = kept_preambles(preamble_run(bytes, length)) as int;
        lemma_run_bytes(bytes, length);
        assert forall|i: int| 0 <= i < kept implies short[i] == 0xff by {
            assert(short[i] == bytes[dropped + i]);
        }
        lemma_run_of_preambles(short, kept);
    }
}

proof fn lemma_run_bytes(bytes: Seq<u8>, index: int)
    requires
        0 <= index <= bytes.len(),
    ensures
        preamble_run(bytes, index) <= index,
        forall|i: int| index - preamble_run(bytes, index) <= i < index ==> bytes[i] == 0xff,
    decreases index,
{
    if index > 0 && bytes[index - 1] == 0xff {
        lemma_run_bytes(bytes, index - 1);
    }
}

/// Trimming a buffer without a candidate changes nothing for later bytes.
#[verifier::spinoff_prover]
#[verifier::rlimit(60)]
proof fn lemma_trim_then_extend(state: DecoderState, more: Seq<u8>, limits: DecodeLimits)
    requires
        limits.usable(),
        step(state.buffered, limits) is NoCandidate,
    ensures
        extended(state, more).next(limits) == extended(state.trimmed(), more).next(limits),
{
    let bytes = state.buffered;
    let length = bytes.len() as int;
    lemma_run_bound(bytes, length);
    let kept = kept_preambles(preamble_run(bytes, length)) as int;
    let dropped = length - kept;
    let whole = bytes + more;
    let short = whole.skip(dropped);
    let long_state = extended(state, more);
    let short_state = extended(state.trimmed(), more);
    lemma_discard_extended(state, more, dropped as nat);
    assert(short_state == long_state.discarded(dropped as nat));
    assert(short_state.buffered =~= short);
    if dropped == 0 {
        assert(short_state.buffered =~= long_state.buffered);
        assert(short_state == long_state);
    } else {
        lemma_first_candidate_meaning(bytes, 0, limits);
        lemma_first_candidate_meaning(whole, 0, limits);
        lemma_preamble_is_no_delimiter(limits.checksum_policy);
        lemma_run_bytes(bytes, length);
        assert forall|i: int| 0 <= i < length implies !candidate(whole, i, limits) by {
            lemma_run_of_prefix(bytes, more, i);
            assert(!candidate(bytes, i, limits));
            assert(whole[i] == bytes[i]);
        }
        assert forall|i: int| 0 <= i < kept implies !candidate(short, i, limits) by {
            assert(short[i] == bytes[dropped + i]);
        }
        assert forall|i: int| length <= i < whole.len() implies candidate(whole, i, limits)
            == candidate(short, i - dropped, limits) by {
            lemma_run_after_trim(bytes, more, dropped, i);
            assert(short[i - dropped] == whole[i]);
        }
        match first_candidate(whole, 0, limits) {
            Some(index) => {
                assert(index >= length) by {
                    if index < length {
                        assert(!candidate(whole, index, limits));
                    }
                }
                assert forall|i: int| 0 <= i < index - dropped implies !candidate(
                    short,
                    i,
                    limits,
                ) by {
                    if i >= kept {
                        assert(!candidate(whole, i + dropped, limits));
                    }
                }
                assert(candidate(short, index - dropped, limits));
                lemma_first_candidate_is(short, 0, index - dropped, limits);
                lemma_run_after_trim(bytes, more, dropped, index);
                lemma_run_bound(short, index - dropped);
                let held = kept_preambles(preamble_run(whole, index)) as int;
                assert(step(whole, limits) == StepView::Discard((index - held) as nat));
                let first = long_state.discarded((index - held) as nat);
                assert(long_state.next(limits) == first.next(limits));
                if index - dropped > held {
                    let second = short_state.discarded((index - dropped - held) as nat);
                    assert(short_state.next(limits) == second.next(limits));
                    assert(first.buffered =~= second.buffered);
                    assert(first == second);
                } else {
                    assert(first == short_state);
                }
            },
            None => {
                assert forall|i: int| 0 <= i < short.len() implies !candidate(
                    short,
                    i,
                    limits,
                ) by {
                    if i >= kept {
                        assert(!candidate(whole, i + dropped, limits));
                    }
                }
                lemma_no_candidate(short, 0, limits);
                lemma_run_after_trim(bytes, more, dropped, whole.len() as int);
                lemma_run_bound(short, short.len() as int);
                assert(long_state.trimmed().buffered =~= short_state.trimmed().buffered);
                assert(long_state.trimmed() == short_state.trimmed());
            },
        }
    }
}

/// Where no event is complete yet, waiting does not change what comes next.
proof fn lemma_wait_then_extend(state: DecoderState, more: Seq<u8>, limits: DecodeLimits)
    requires
        limits.usable(),
        state.next(limits).1 is None,
    ensures
        extended(state, more).next(limits) == extended(state.next(limits).0, more).next(limits),
    decreases state.buffered.len(),
{
    lemma_step_consumes(state.buffered, limits);
    match step(state.buffered, limits) {
        StepView::Discard(count) => {
            lemma_step_of_prefix(state.buffered, more, limits);
            lemma_discard_extended(state, more, count);
            lemma_wait_then_extend(state.discarded(count), more, limits);
        },
        StepView::NoCandidate => {
            lemma_trim_then_extend(state, more, limits);
        },
        _ => {},
    }
}

proof fn lemma_drained_then_extend(
    state: DecoderState,
    more: Seq<u8>,
    limits: DecodeLimits,
    room: nat,
)
    requires
        limits.usable(),
        extended(state, more).drained(limits, room).1.len() < room,
    ensures
        ({
            let (first, events) = state.drained(limits, room);
            let (last, rest) = extended(first, more).drained(
                limits,
                (room - events.len()) as nat,
            );
            &&& events.len() < room
            &&& extended(state, more).drained(limits, room) == (last, events + rest)
        }),
    decreases room,
{
    let (after, event) = state.next(limits);
    let whole = extended(state, more).drained(limits, room);
    match event {
        Some(event) => {
            lemma_event_of_prefix(state, more, limits);
            let deeper = extended(after, more).drained(limits, (room - 1) as nat);
            assert(whole.1 == seq![event] + deeper.1);
            lemma_drained_then_extend(after, more, limits, (room - 1) as nat);
            let (first, events) = after.drained(limits, (room - 1) as nat);
            let rest = extended(first, more).drained(limits, (room - 1 - events.len()) as nat).1;
            assert(seq![event] + (events + rest) =~= (seq![event] + events) + rest);
        },
        None => {
            lemma_wait_then_extend(state, more, limits);
            let rest = extended(after, more).drained(limits, room);
            assert(rest == whole);
            assert(Seq::<EventView>::empty() + rest.1 =~= rest.1);
        },
    }
}

proof fn lemma_drained_with_more_room(
    state: DecoderState,
    limits: DecodeLimits,
    room: nat,
    larger: nat,
)
    requires
        room <= larger,
        state.drained(limits, room).1.len() < room,
    ensures
        state.drained(limits, larger) == state.drained(limits, room),
    decreases room,
{
    let (after, event) = state.next(limits);
    if event is Some {
        lemma_drained_with_more_room(after, limits, (room - 1) as nat, (larger - 1) as nat);
    }
}

proof fn lemma_next_shrinks(state: DecoderState, limits: DecodeLimits)
    ensures
        state.next(limits).0.buffered.len() <= state.buffered.len(),
    decreases state.buffered.len(),
{
    lemma_step_consumes(state.buffered, limits);
    lemma_run_bound(state.buffered, state.buffered.len() as int);
    match step(state.buffered, limits) {
        StepView::Discard(count) => {
            lemma_next_shrinks(state.discarded(count), limits);
        },
        _ => {},
    }
}

proof fn lemma_drained_shrinks(state: DecoderState, limits: DecodeLimits, room: nat)
    ensures
        state.drained(limits, room).0.buffered.len() <= state.buffered.len(),
    decreases room,
{
    if room > 0 {
        lemma_next_shrinks(state, limits);
        let (after, event) = state.next(limits);
        if event is Some {
            lemma_drained_shrinks(after, limits, (room - 1) as nat);
        }
    }
}

/// Where a transport cuts the stream does not matter: two fragments pushed one
/// after the other give the events, the counters and the buffered tail of the
/// same bytes pushed at once, as long as neither the memory limit nor the
/// event limit is reached.
pub proof fn lemma_fragments_are_irrelevant(
    state: DecoderState,
    first: Seq<u8>,
    second: Seq<u8>,
    limits: DecodeLimits,
)
    requires
        limits.usable(),
        state.buffered.len() + first.len() + second.len() <= limits.buffer_capacity,
        state.pushed(limits, first + second).1.len() < MAXIMUM_DECODE_EVENTS_PER_PUSH,
    ensures
        ({
            let (middle, before) = state.pushed(limits, first);
            let (last, after) = middle.pushed(limits, second);
            state.pushed(limits, first + second) == (last, before + after)
        }),
{
    let room = MAXIMUM_DECODE_EVENTS_PER_PUSH as nat;
    let opened = state.appended(limits, first);
    let whole = state.appended(limits, first + second);
    assert(whole.buffered =~= extended(opened, second).buffered);
    assert(whole == extended(opened, second));
    lemma_drained_then_extend(opened, second, limits, room);
    lemma_drained_shrinks(opened, limits, room);
    let (middle, before) = opened.drained(limits, room);
    assert(state.pushed(limits, first) == (middle, before));
    assert(middle.appended(limits, second) == extended(middle, second));
    lemma_drained_with_more_room(
        extended(middle, second),
        limits,
        (room - before.len()) as nat,
        room,
    );
}

} // verus!
