//! The decoder on a stream: what it hands out when it is run until it needs
//! more input, and when input arrives in pieces.

use crate::framing::{decode_spec, magic, packet, DecodeState};
use crate::message::{Request, Status};
use vstd::prelude::*;

verus! {

/// What the decoder leaves behind and what it has handed out after it was
/// called until it needed more input.
pub struct Drained {
    pub state: DecodeState,
    pub rest: Seq<u8>,
    pub items: Seq<Result<Request, Status>>,
}

/// A call of the decoder never lengthens its input, and a call that hands
/// out an item shortens it, unless the decoder was waiting for a payload.
pub proof fn lemma_decode_consumes(max_payload: usize, state: DecodeState, input: Seq<u8>)
    ensures
        decode_spec(max_payload, state, input).rest.len() <= input.len(),
        decode_spec(max_payload, state, input).item != Ok::<Option<Request>, Status>(None) ==> {
            &&& decode_spec(max_payload, state, input).state == DecodeState::AwaitMagic
            &&& !(state is AwaitPayload) ==> decode_spec(max_payload, state, input).rest.len()
                < input.len()
        },
    decreases input.len(),
{
    if state is AwaitMagic && input.len() >= 4 && input.take(4) != magic() {
        lemma_decode_consumes(max_payload, state, input.skip(1));
    }
}

/// The decoder called on `input` again and again, from `state`, until it
/// needs more input.
pub open spec fn drain(max_payload: usize, state: DecodeState, input: Seq<u8>) -> Drained
    decreases input.len(), (if state is AwaitPayload { 1nat } else { 0nat }),
{
    proof {
        lemma_decode_consumes(max_payload, state, input);
    }
    let decoded = decode_spec(max_payload, state, input);
    match decoded.item {
        Ok(None) => Drained { state: decoded.state, rest: decoded.rest, items: Seq::empty() },
        Ok(Some(request)) => {
            let later = drain(max_payload, decoded.state, decoded.rest);
            Drained { items: seq![Ok(request)] + later.items, ..later }
        },
        Err(status) => {
            let later = drain(max_payload, decoded.state, decoded.rest);
            Drained { items: seq![Err(status)] + later.items, ..later }
        },
    }
}

/// The decoder fed with `chunks` one after the other: each chunk is appended
/// to what was left of the chunks before it, and the decoder is drained.
pub open spec fn feed(
    max_payload: usize,
    state: DecodeState,
    pending: Seq<u8>,
    chunks: Seq<Seq<u8>>,
) -> Drained
    decreases chunks.len(),
{
    if chunks.len() == 0 {
        Drained { state, rest: pending, items: Seq::empty() }
    } else {
        let first = drain(max_payload, state, pending + chunks[0]);
        let later = feed(max_payload, first.state, first.rest, chunks.skip(1));
        Drained { items: first.items + later.items, ..later }
    }
}

/// The bytes of the packets of `requests`, one after the other.
pub open spec fn on_the_wire(requests: Seq<Request>) -> Seq<u8>
    decreases requests.len(),
{
    if requests.len() == 0 {
        Seq::empty()
    } else {
        packet(requests[0].code(), requests[0].payload()) + on_the_wire(requests.skip(1))
    }
}

} // verus!
