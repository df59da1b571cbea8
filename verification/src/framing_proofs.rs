//! What holds of the wire format: a well-formed packet is read back as what
//! was put into it.

use crate::buffer::{u16_from_be, u16_to_be};
use crate::framing::{
    decode_spec, emit, is_rest_of, magic, magic_at, on_code, on_length, on_payload,
    on_request_code, packet, progress, valid_max_payload, DecodeState, Decoded,
};
use crate::message::{Request, Status};
use vstd::prelude::*;

verus! {

/// Reading back the big-endian encoding of a number gives the number.
pub proof fn lemma_u16_round_trip(n: u16)
    ensures
        u16_to_be(n).len() == 2,
        u16_from_be(u16_to_be(n)[0], u16_to_be(n)[1]) == n,
{
}

/// A packet is eight bytes longer than its payload.
pub proof fn lemma_packet_len(code: u16, payload: Seq<u8>)
    ensures
        packet(code, payload).len() == 8 + payload.len(),
{
}

/// A decoder that waits for a magic header and finds a packet whose payload
/// is within bounds reads the packet's code and acts on it: it consumes the
/// header and goes on as the code demands, with the payload and whatever
/// follows the packet as its input.
pub proof fn lemma_packet_decodes(max_payload: usize, code: u16, payload: Seq<u8>, rest: Seq<u8>)
    requires
        valid_max_payload(max_payload),
        payload.len() <= max_payload,
    ensures
        decode_spec(max_payload, DecodeState::AwaitMagic, packet(code, payload) + rest)
            == on_request_code(payload.len() as usize, code, payload + rest),
{
    let length = payload.len() as u16;
    let input = packet(code, payload) + rest;
    assert(length == payload.len());
    lemma_u16_round_trip(length);
    lemma_u16_round_trip(code);
    assert(input.take(4) =~= magic());
    let after_magic = input.skip(4);
    assert(after_magic =~= u16_to_be(length) + u16_to_be(code) + payload + rest);
    assert(after_magic[0] == u16_to_be(length)[0] && after_magic[1] == u16_to_be(length)[1]);
    let after_length = after_magic.skip(2);
    assert(after_length =~= u16_to_be(code) + payload + rest);
    assert(after_length[0] == u16_to_be(code)[0] && after_length[1] == u16_to_be(code)[1]);
    assert(after_length.skip(2) =~= payload + rest);
    assert(on_code(length as usize, after_length) == on_request_code(
        length as usize,
        code,
        payload + rest,
    ));
    assert(on_length(max_payload, after_magic) == on_code(length as usize, after_length));
}

/// The packet of a status is eight bytes long unless the status is a
/// success, whose packet is eight bytes longer than the payload it carries.
pub proof fn lemma_status_packet_len(status: Status)
    ensures
        packet(status.code(), status.payload()).len() == (match status {
            Status::Success(payload) => 8 + payload.len(),
            _ => 8,
        }),
{
}

/// A request put on the wire is read back as it was: the decoder consumes
/// exactly the request's packet, hands out the request, and waits for the
/// next magic header with the bytes after the packet untouched.
pub proof fn lemma_request_round_trip(max_payload: usize, request: Request, rest: Seq<u8>)
    requires
        valid_max_payload(max_payload),
        request.fits(max_payload),
    ensures
        decode_spec(
            max_payload,
            DecodeState::AwaitMagic,
            packet(request.code(), request.payload()) + rest,
        ) == emit(Ok(Some(request)), rest),
        (packet(request.code(), request.payload()) + rest).len() - rest.len() == 8
            + request.payload().len(),
{
    let payload = request.payload();
    lemma_packet_decodes(max_payload, request.code(), payload, rest);
    assert((payload + rest).take(payload.len() as int) =~= payload);
    assert((payload + rest).skip(payload.len() as int) =~= rest);
}

/// A status put on the wire by the encoder has the shape of a packet, so a
/// decoder reads its header back in full: it consumes the eight bytes of the
/// header, takes the status code for a request code, and leaves the payload
/// in its input.
pub proof fn lemma_status_header_round_trip(max_payload: usize, status: Status, rest: Seq<u8>)
    requires
        valid_max_payload(max_payload),
        status.payload().len() <= max_payload,
    ensures
        decode_spec(
            max_payload,
            DecodeState::AwaitMagic,
            packet(status.code(), status.payload()) + rest,
        ) == emit(
            if status.code() == 1 {
                Ok(Some(Request::Ping))
            } else if status.code() == 2 {
                Ok(Some(Request::GetStats))
            } else if status.code() == 3 {
                Ok(Some(Request::ResetStats))
            } else {
                Err(Status::UnsupportedRequestType)
            },
            status.payload() + rest,
        ),
{
    lemma_packet_decodes(max_payload, status.code(), status.payload(), rest);
}

/// The decoder only moves forward inside a packet, and it remembers the
/// length it has read. It starts over at the magic header when it hands out
/// a request or an error, and only then.
pub proof fn lemma_decode_moves_forward(max_payload: usize, state: DecodeState, input: Seq<u8>)
    ensures
        ({
            let decoded = decode_spec(max_payload, state, input);
            if decoded.item == Ok::<Option<Request>, Status>(None) {
                &&& progress(state) <= progress(decoded.state)
                &&& state matches DecodeState::AwaitRequestCode { length }
                    ==> decoded.state == state || decoded.state == (DecodeState::AwaitPayload {
                    length,
                })
                &&& state is AwaitPayload ==> decoded.state == state
            } else {
                decoded.state == DecodeState::AwaitMagic
            }
        }),
    decreases input.len(),
{
    if state is AwaitMagic && input.len() >= 4 && input.take(4) != magic() {
        lemma_decode_moves_forward(max_payload, state, input.skip(1));
    }
}

/// A decoder that looks for a magic header skips exactly the bytes before
/// the first one in its input, and goes on with what follows that header.
pub proof fn lemma_resync_finds_first_magic(max_payload: usize, input: Seq<u8>, at: int)
    requires
        magic_at(input, at),
        forall|before: int| 0 <= before < at ==> !magic_at(input, before),
    ensures
        decode_spec(max_payload, DecodeState::AwaitMagic, input) == on_length(
            max_payload,
            input.skip(at + 4),
        ),
    decreases at,
{
    assert(input.take(4) =~= input.subrange(0, 4));
    if at == 0 {
        assert(magic_at(input, 0));
    } else {
        assert(!magic_at(input, 0));
        let tail = input.skip(1);
        assert(tail.subrange(at - 1, at + 3) =~= input.subrange(at, at + 4));
        assert forall|before: int| 0 <= before < at - 1 implies !magic_at(tail, before) by {
            assert(tail.subrange(before, before + 4) =~= input.subrange(before + 1, before + 5));
            assert(!magic_at(input, before + 1));
        }
        lemma_resync_finds_first_magic(max_payload, tail, at - 1);
        assert(tail.skip(at - 1 + 4) =~= input.skip(at + 4));
    }
}

/// A decoder that looks for a magic header in input that holds none drops
/// all but the last three bytes, which may be the start of one, and waits.
pub proof fn lemma_resync_without_magic(max_payload: usize, input: Seq<u8>)
    requires
        forall|at: int| !magic_at(input, at),
    ensures
        decode_spec(max_payload, DecodeState::AwaitMagic, input) == (Decoded {
            state: DecodeState::AwaitMagic,
            rest: if input.len() < 4 {
                input
            } else {
                input.skip(input.len() - 3)
            },
            item: Ok(None),
        }),
    decreases input.len(),
{
    if input.len() >= 4 {
        assert(input.take(4) =~= input.subrange(0, 4));
        assert(!magic_at(input, 0));
        let tail = input.skip(1);
        assert forall|at: int| !magic_at(tail, at) by {
            if 0 <= at && at + 4 <= tail.len() {
                assert(tail.subrange(at, at + 4) =~= input.subrange(at + 1, at + 5));
                assert(!magic_at(input, at + 1));
            }
        }
        lemma_resync_without_magic(max_payload, tail);
        if tail.len() >= 4 {
            assert(tail.skip(tail.len() - 3) =~= input.skip(input.len() - 3));
        } else {
            assert(tail =~= input.skip(input.len() - 3));
        }
    }
}

/// A decoder whose remembered length lies within the payload bound hands
/// out only requests that fit the bound: a compress request carries at
/// least one byte and no more than the bound allows.
pub proof fn lemma_decoded_request_fits(max_payload: usize, state: DecodeState, input: Seq<u8>)
    requires
        state.fits(max_payload),
    ensures
        decode_spec(max_payload, state, input).item matches Ok(Some(request)) ==> request.fits(
            max_payload,
        ),
    decreases input.len(),
{
    if state is AwaitMagic && input.len() >= 4 && input.take(4) != magic() {
        lemma_decoded_request_fits(max_payload, state, input.skip(1));
    }
}

/// The decoder keeps the length it remembers within the payload bound.
pub proof fn lemma_decode_keeps_fit(max_payload: usize, state: DecodeState, input: Seq<u8>)
    requires
        state.fits(max_payload),
    ensures
        decode_spec(max_payload, state, input).state.fits(max_payload),
    decreases input.len(),
{
    if state is AwaitMagic && input.len() >= 4 && input.take(4) != magic() {
        lemma_decode_keeps_fit(max_payload, state, input.skip(1));
    }
}

/// What is left of the end of an input is left of the input.
proof fn lemma_rest_of_skip(rest: Seq<u8>, input: Seq<u8>, taken: int)
    requires
        0 <= taken <= input.len(),
        is_rest_of(rest, input.skip(taken)),
    ensures
        is_rest_of(rest, input),
{
    assert(input.skip(taken).skip(input.len() - taken - rest.len()) =~= input.skip(
        input.len() - rest.len(),
    ));
}

/// Waiting for a payload takes bytes from the front only.
proof fn lemma_payload_rest(length: usize, input: Seq<u8>)
    ensures
        is_rest_of(on_payload(length, input).rest, input),
{
    assert(input.skip(0) =~= input);
}

/// Waiting for a request code takes bytes from the front only.
proof fn lemma_code_rest(length: usize, input: Seq<u8>)
    ensures
        is_rest_of(on_code(length, input).rest, input),
{
    assert(input.skip(0) =~= input);
    if input.len() >= 2 {
        let after = input.skip(2);
        assert(after.skip(0) =~= after);
        lemma_payload_rest(length, after);
        lemma_rest_of_skip(on_code(length, input).rest, input, 2);
    }
}

/// Waiting for a payload length takes bytes from the front only.
proof fn lemma_length_rest(max_payload: usize, input: Seq<u8>)
    ensures
        is_rest_of(on_length(max_payload, input).rest, input),
{
    assert(input.skip(0) =~= input);
    if input.len() >= 2 {
        let after = input.skip(2);
        assert(after.skip(0) =~= after);
        lemma_code_rest(u16_from_be(input[0], input[1]) as usize, after);
        lemma_rest_of_skip(on_length(max_payload, input).rest, input, 2);
    }
}

/// The decoder takes bytes from the front of its input only: what it leaves
/// is the end of what it was given.
pub proof fn lemma_decode_rest(max_payload: usize, state: DecodeState, input: Seq<u8>)
    ensures
        is_rest_of(decode_spec(max_payload, state, input).rest, input),
    decreases input.len(),
{
    let rest = decode_spec(max_payload, state, input).rest;
    assert(input.skip(0) =~= input);
    match state {
        DecodeState::AwaitMagic => {
            if input.len() >= 4 {
                if input.take(4) == magic() {
                    lemma_length_rest(max_payload, input.skip(4));
                    lemma_rest_of_skip(rest, input, 4);
                } else {
                    lemma_decode_rest(max_payload, state, input.skip(1));
                    lemma_rest_of_skip(rest, input, 1);
                }
            }
        },
        DecodeState::AwaitLength => {
            lemma_length_rest(max_payload, input);
        },
        DecodeState::AwaitRequestCode { length } => {
            lemma_code_rest(length, input);
        },
        DecodeState::AwaitPayload { length } => {
            lemma_payload_rest(length, input);
        },
    }
}

} // verus!
