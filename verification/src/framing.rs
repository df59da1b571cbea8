//! The wire format and the decoder's state machine, as mathematics.
//!
//! A packet is the magic header, a big-endian 16-bit payload length, a
//! big-endian 16-bit code, and the payload. [`decode_spec`] says what one call
//! of the decoder does to its state and its input.

use crate::buffer::{u16_from_be, u16_to_be};
use crate::message::{Request, Status};
use vstd::prelude::*;

verus! {

/// Where the decoder stands inside a packet.
#[derive(Debug, Clone, Copy, PartialEq, Eq)]
pub enum DecodeState {
    /// Looking for the magic header.
    AwaitMagic,
    /// The magic header was seen; the payload length comes next.
    AwaitLength,
    /// The payload length is known; the request code comes next.
    AwaitRequestCode { length: usize },
    /// A compress request was announced; its payload comes next.
    AwaitPayload { length: usize },
}

/// What one call of the decoder yields: the state it leaves behind, the input
/// it did not consume, and the item it hands out. `Ok(None)` stands for a
/// decoder that needs more input.
pub struct Decoded {
    pub state: DecodeState,
    pub rest: Seq<u8>,
    pub item: Result<Option<Request>, Status>,
}

/// The four bytes every packet starts with: ASCII `STRY`.
pub open spec fn magic() -> Seq<u8> {
    seq![0x53u8, 0x54u8, 0x52u8, 0x59u8]
}

/// Whether the magic header stands at position `at` of `input`.
pub open spec fn magic_at(input: Seq<u8>, at: int) -> bool {
    &&& 0 <= at
    &&& at + 4 <= input.len()
    &&& input.subrange(at, at + 4) == magic()
}

/// Whether `rest` is what is left of `input` once some bytes were taken
/// from its front.
pub open spec fn is_rest_of(rest: Seq<u8>, input: Seq<u8>) -> bool {
    &&& rest.len() <= input.len()
    &&& rest == input.skip(input.len() - rest.len())
}

/// The smallest payload bound a codec may be built with.
pub const MIN_MAX_PAYLOAD: usize = 4096;

/// The bound that a codec's payload bound must stay under.
pub const MAX_PAYLOAD_LIMIT: usize = 32768;

/// Whether a codec may be built with this payload bound.
pub open spec fn valid_max_payload(max_payload: usize) -> bool {
    MIN_MAX_PAYLOAD <= max_payload < MAX_PAYLOAD_LIMIT
}

impl DecodeState {
    /// Whether the length this state carries is one that the decoder can have
    /// accepted under the payload bound `max_payload`.
    pub open spec fn fits(self, max_payload: usize) -> bool {
        match self {
            DecodeState::AwaitMagic => true,
            DecodeState::AwaitLength => true,
            DecodeState::AwaitRequestCode { length } => length <= max_payload,
            DecodeState::AwaitPayload { length } => 0 < length <= max_payload,
        }
    }
}

/// How far into a packet a decoder in this state has come.
pub open spec fn progress(state: DecodeState) -> nat {
    match state {
        DecodeState::AwaitMagic => 0,
        DecodeState::AwaitLength => 1,
        DecodeState::AwaitRequestCode { .. } => 2,
        DecodeState::AwaitPayload { .. } => 3,
    }
}

impl Request {
    /// Whether a decoder with the payload bound `max_payload` can hand this
    /// request out: a compress request carries between one and
    /// `max_payload` bytes.
    pub open spec fn fits(self, max_payload: usize) -> bool {
        self matches Request::Compress(payload) ==> 0 < payload.len() <= max_payload
    }
}

/// The longest payload whose length the 16-bit length field can hold.
pub const MAX_PACKET_PAYLOAD: usize = 0xffff;

/// Whether a payload of this length can be put into a packet: the length
/// field must be able to hold it.
pub open spec fn fits_packet(len: nat) -> bool {
    len <= MAX_PACKET_PAYLOAD
}

/// The packet that carries `code` and `payload`: the magic header, the
/// payload's length, the code, and the payload. It is meant for payloads
/// whose length the length field can hold.
pub open spec fn packet(code: u16, payload: Seq<u8>) -> Seq<u8>
    recommends
        fits_packet(payload.len()),
{
    magic() + u16_to_be(payload.len() as u16) + u16_to_be(code) + payload
}

/// The decoder hands out `item`, keeps `rest` for the next packet and starts
/// over at the magic header.
pub open spec fn emit(item: Result<Option<Request>, Status>, rest: Seq<u8>) -> Decoded {
    Decoded { state: DecodeState::AwaitMagic, rest, item }
}

/// What the decoder does once the magic header is behind it.
pub open spec fn on_length(max_payload: usize, input: Seq<u8>) -> Decoded {
    if input.len() < 2 {
        Decoded { state: DecodeState::AwaitLength, rest: input, item: Ok(None) }
    } else {
        let length = u16_from_be(input[0], input[1]);
        if length > max_payload {
            emit(Err(Status::MessageTooLarge), input.skip(2))
        } else {
            on_code(length as usize, input.skip(2))
        }
    }
}

/// What the decoder does while it waits for the request code.
pub open spec fn on_code(length: usize, input: Seq<u8>) -> Decoded {
    if input.len() < 2 {
        Decoded { state: DecodeState::AwaitRequestCode { length }, rest: input, item: Ok(None) }
    } else {
        on_request_code(length, u16_from_be(input[0], input[1]), input.skip(2))
    }
}

/// What the decoder does once the request code is read, given the payload
/// length announced before it and the input that follows the code.
pub open spec fn on_request_code(length: usize, code: u16, rest: Seq<u8>) -> Decoded {
    if code == 1 || code == 2 || code == 3 {
        if length != 0 {
            emit(Err(Status::NonEmptyBuffer), rest)
        } else if code == 1 {
            emit(Ok(Some(Request::Ping)), rest)
        } else if code == 2 {
            emit(Ok(Some(Request::GetStats)), rest)
        } else {
            emit(Ok(Some(Request::ResetStats)), rest)
        }
    } else if code == 4 {
        if length == 0 {
            emit(Err(Status::EmptyBuffer), rest)
        } else {
            on_payload(length, rest)
        }
    } else {
        emit(Err(Status::UnsupportedRequestType), rest)
    }
}

/// What the decoder does while it waits for `length` bytes of payload.
pub open spec fn on_payload(length: usize, input: Seq<u8>) -> Decoded {
    if input.len() < length {
        Decoded { state: DecodeState::AwaitPayload { length }, rest: input, item: Ok(None) }
    } else {
        emit(Ok(Some(Request::Compress(input.take(length as int)))), input.skip(length as int))
    }
}

/// One call of the decoder on `input`, starting in `state`.
///
/// While it looks for the magic header the decoder drops one byte at a time
/// until the next four bytes are the header or fewer than four are left. From
/// there it reads length, code and payload, stopping as soon as input runs
/// out, a request is complete, or the packet is found to be in error.
pub open spec fn decode_spec(max_payload: usize, state: DecodeState, input: Seq<u8>) -> Decoded
    decreases input.len(),
{
    match state {
        DecodeState::AwaitMagic => {
            if input.len() < 4 {
                Decoded { state: DecodeState::AwaitMagic, rest: input, item: Ok(None) }
            } else if input.take(4) == magic() {
                on_length(max_payload, input.skip(4))
            } else {
                decode_spec(max_payload, DecodeState::AwaitMagic, input.skip(1))
            }
        },
        DecodeState::AwaitLength => on_length(max_payload, input),
        DecodeState::AwaitRequestCode { length } => on_code(length, input),
        DecodeState::AwaitPayload { length } => on_payload(length, input),
    }
}

} // verus!
