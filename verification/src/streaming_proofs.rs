//! What holds of the decoder on a stream: how it is cut into chunks does not
//! matter.

use crate::buffer::u16_from_be;
use crate::framing::{
    decode_spec, magic, on_code, on_length, on_payload, on_request_code, valid_max_payload,
    DecodeState, Decoded,
};
use crate::framing_proofs::lemma_request_round_trip;
use crate::message::{Request, Status};
use crate::streaming::{drain, feed, lemma_decode_consumes, on_the_wire, Drained};
use vstd::prelude::*;

verus! {

/// What a call of the decoder would have yielded, had `more` been appended
/// to its input: a decoder that needed more input goes on with it, and one
/// that handed out an item leaves it untouched.
pub open spec fn resumed(max_payload: usize, decoded: Decoded, more: Seq<u8>) -> Decoded {
    if decoded.item == Ok::<Option<Request>, Status>(None) {
        decode_spec(max_payload, decoded.state, decoded.rest + more)
    } else {
        Decoded { rest: decoded.rest + more, ..decoded }
    }
}

/// Waiting for a payload resumes with input that arrives later.
proof fn lemma_payload_resumes(max_payload: usize, length: usize, input: Seq<u8>, more: Seq<u8>)
    ensures
        on_payload(length, input + more) == resumed(max_payload, on_payload(length, input), more),
{
    if input.len() >= length {
        assert((input + more).take(length as int) =~= input.take(length as int));
        assert((input + more).skip(length as int) =~= input.skip(length as int) + more);
    }
}

/// Acting on a request code resumes with input that arrives later.
proof fn lemma_request_code_resumes(
    max_payload: usize,
    length: usize,
    code: u16,
    input: Seq<u8>,
    more: Seq<u8>,
)
    ensures
        on_request_code(length, code, input + more) == resumed(
            max_payload,
            on_request_code(length, code, input),
            more,
        ),
{
    lemma_payload_resumes(max_payload, length, input, more);
}

/// Waiting for a request code resumes with input that arrives later.
proof fn lemma_code_resumes(max_payload: usize, length: usize, input: Seq<u8>, more: Seq<u8>)
    ensures
        on_code(length, input + more) == resumed(max_payload, on_code(length, input), more),
{
    if input.len() >= 2 {
        assert((input + more).skip(2) =~= input.skip(2) + more);
        lemma_request_code_resumes(
            max_payload,
            length,
            u16_from_be(input[0], input[1]),
            input.skip(2),
            more,
        );
    }
}

/// Waiting for a payload length resumes with input that arrives later.
proof fn lemma_length_resumes(max_payload: usize, input: Seq<u8>, more: Seq<u8>)
    ensures
        on_length(max_payload, input + more) == resumed(
            max_payload,
            on_length(max_payload, input),
            more,
        ),
{
    if input.len() >= 2 {
        assert((input + more).skip(2) =~= input.skip(2) + more);
        let length = u16_from_be(input[0], input[1]);
        if length <= max_payload {
            lemma_code_resumes(max_payload, length as usize, input.skip(2), more);
        }
    }
}

/// Input that arrives later does not change what the decoder has done
/// already: decoding `input` and `more` at once gives what decoding `input`
/// gives, resumed with `more`.
pub proof fn lemma_decode_resumes(
    max_payload: usize,
    state: DecodeState,
    input: Seq<u8>,
    more: Seq<u8>,
)
    ensures
        decode_spec(max_payload, state, input + more) == resumed(
            max_payload,
            decode_spec(max_payload, state, input),
            more,
        ),
    decreases input.len(),
{
    match state {
        DecodeState::AwaitMagic => {
            if input.len() >= 4 {
                assert((input + more).take(4) =~= input.take(4));
                if input.take(4) == magic() {
                    assert((input + more).skip(4) =~= input.skip(4) + more);
                    lemma_length_resumes(max_payload, input.skip(4), more);
                } else {
                    assert((input + more).skip(1) =~= input.skip(1) + more);
                    lemma_decode_resumes(max_payload, state, input.skip(1), more);
                }
            }
        },
        DecodeState::AwaitLength => {
            lemma_length_resumes(max_payload, input, more);
        },
        DecodeState::AwaitRequestCode { length } => {
            lemma_code_resumes(max_payload, length, input, more);
        },
        DecodeState::AwaitPayload { length } => {
            lemma_payload_resumes(max_payload, length, input, more);
        },
    }
}

/// Draining the decoder on `first + second` hands out what draining it on
/// `first` hands out, followed by what draining it on the leftover and
/// `second` hands out.
pub proof fn lemma_drain_in_two(
    max_payload: usize,
    state: DecodeState,
    first: Seq<u8>,
    second: Seq<u8>,
)
    ensures
        ({
            let a = drain(max_payload, state, first);
            let b = drain(max_payload, a.state, a.rest + second);
            drain(max_payload, state, first + second) == (Drained {
                items: a.items + b.items,
                ..b
            })
        }),
    decreases first.len(), (if state is AwaitPayload { 1nat } else { 0nat }),
{
    let decoded = decode_spec(max_payload, state, first);
    let a = drain(max_payload, state, first);
    let b = drain(max_payload, a.state, a.rest + second);
    lemma_decode_resumes(max_payload, state, first, second);
    lemma_decode_consumes(max_payload, state, first);
    if decoded.item == Ok::<Option<Request>, Status>(None) {
        assert(a.items + b.items =~= b.items);
        lemma_drain_same_decode(
            max_payload,
            state,
            first + second,
            decoded.state,
            decoded.rest + second,
        );
    } else {
        lemma_drain_in_two(max_payload, decoded.state, decoded.rest, second);
        let later = drain(max_payload, decoded.state, decoded.rest);
        let whole = drain(max_payload, decoded.state, decoded.rest + second);
        assert(whole.items == later.items + b.items);
        match decoded.item {
            Ok(Some(request)) => {
                assert(seq![Ok::<Request, Status>(request)] + (later.items + b.items) =~= (seq![
                    Ok::<Request, Status>(request),
                ] + later.items) + b.items);
            },
            Ok(None) => {},
            Err(status) => {
                assert(seq![Err::<Request, Status>(status)] + (later.items + b.items) =~= (seq![
                    Err::<Request, Status>(status),
                ] + later.items) + b.items);
            },
        }
    }
}

/// Two configurations on which one call of the decoder yields the same
/// drain to the same.
proof fn lemma_drain_same_decode(
    max_payload: usize,
    state: DecodeState,
    input: Seq<u8>,
    other_state: DecodeState,
    other_input: Seq<u8>,
)
    requires
        decode_spec(max_payload, state, input) == decode_spec(
            max_payload,
            other_state,
            other_input,
        ),
    ensures
        drain(max_payload, state, input) == drain(max_payload, other_state, other_input),
{
}

/// A drained decoder needs more input: draining it again hands out nothing
/// and leaves it as it is.
pub proof fn lemma_drained_is_settled(max_payload: usize, state: DecodeState, input: Seq<u8>)
    ensures
        ({
            let a = drain(max_payload, state, input);
            drain(max_payload, a.state, a.rest) == (Drained { items: Seq::empty(), ..a })
        }),
{
    let a = drain(max_payload, state, input);
    let b = drain(max_payload, a.state, a.rest);
    lemma_drain_in_two(max_payload, state, input, Seq::empty());
    assert(input + Seq::<u8>::empty() =~= input);
    assert(a.rest + Seq::<u8>::empty() =~= a.rest);
    assert((a.items + b.items).len() == a.items.len());
    assert(b.items =~= Seq::empty());
}

/// Feeding a settled decoder chunk by chunk hands out what draining it on
/// the chunks joined together hands out, and leaves it in the same state
/// with the same input pending.
pub proof fn lemma_feed_is_drain(
    max_payload: usize,
    state: DecodeState,
    pending: Seq<u8>,
    chunks: Seq<Seq<u8>>,
)
    requires
        drain(max_payload, state, pending) == (Drained {
            state,
            rest: pending,
            items: Seq::empty(),
        }),
    ensures
        feed(max_payload, state, pending, chunks) == drain(
            max_payload,
            state,
            pending + chunks.flatten(),
        ),
    decreases chunks.len(),
{
    if chunks.len() == 0 {
        assert(chunks.flatten() =~= Seq::<u8>::empty());
        assert(pending + chunks.flatten() =~= pending);
    } else {
        let first = drain(max_payload, state, pending + chunks[0]);
        let others = chunks.skip(1);
        lemma_drained_is_settled(max_payload, state, pending + chunks[0]);
        lemma_feed_is_drain(max_payload, first.state, first.rest, others);
        lemma_drain_in_two(max_payload, state, pending + chunks[0], others.flatten());
        assert(chunks.flatten() =~= chunks[0] + others.flatten()) by {
            assert(others =~= chunks.drop_first());
            assert(chunks.first() == chunks[0]);
        }
        assert(pending + chunks.flatten() =~= (pending + chunks[0]) + others.flatten());
    }
}

/// Requests put on the wire one after the other are read back as they were
/// and in their order: a decoder that starts at the magic header hands out
/// exactly these requests, consumes every byte, and waits for the next magic
/// header.
pub proof fn lemma_requests_round_trip(max_payload: usize, requests: Seq<Request>)
    requires
        valid_max_payload(max_payload),
        forall|i: int| 0 <= i < requests.len() ==> (#[trigger] requests[i]).fits(max_payload),
    ensures
        drain(max_payload, DecodeState::AwaitMagic, on_the_wire(requests)) == (Drained {
            state: DecodeState::AwaitMagic,
            rest: Seq::empty(),
            items: requests.map_values(|request: Request| Ok::<Request, Status>(request)),
        }),
    decreases requests.len(),
{
    let handed_out = requests.map_values(|request: Request| Ok::<Request, Status>(request));
    let drained = drain(max_payload, DecodeState::AwaitMagic, on_the_wire(requests));
    if requests.len() == 0 {
        assert(drained.items =~= handed_out);
    } else {
        let later = requests.skip(1);
        assert forall|i: int| 0 <= i < later.len() implies (#[trigger] later[i]).fits(
            max_payload,
        ) by {
            assert(later[i] == requests[i + 1]);
        }
        lemma_request_round_trip(max_payload, requests[0], on_the_wire(later));
        lemma_requests_round_trip(max_payload, later);
        let rest = drain(max_payload, DecodeState::AwaitMagic, on_the_wire(later));
        assert(drained.items == seq![Ok::<Request, Status>(requests[0])] + rest.items);
        assert(drained.items =~= handed_out);
    }
}

/// However a byte stream is cut into chunks, a decoder that starts at the
/// magic header hands out the same items in the same order, and ends in the
/// same state with the same input pending.
pub proof fn lemma_chunking_is_irrelevant(
    max_payload: usize,
    chunks: Seq<Seq<u8>>,
    other_chunks: Seq<Seq<u8>>,
)
    requires
        chunks.flatten() == other_chunks.flatten(),
    ensures
        feed(max_payload, DecodeState::AwaitMagic, Seq::empty(), chunks) == feed(
            max_payload,
            DecodeState::AwaitMagic,
            Seq::empty(),
            other_chunks,
        ),
{
    let nothing = Seq::<u8>::empty();
    lemma_feed_is_drain(max_payload, DecodeState::AwaitMagic, nothing, chunks);
    lemma_feed_is_drain(max_payload, DecodeState::AwaitMagic, nothing, other_chunks);
    assert(nothing + chunks.flatten() =~= nothing + other_chunks.flatten());
}

} // verus!
