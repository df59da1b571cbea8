//! The packet codec: a streaming decoder for requests and an encoder for
//! statuses, with a count of the bytes that passed through each.

use crate::buffer::{as_slice, buffer_bytes, can_grow, get_u16, put, put_u16};
use crate::counters::{add_bytes, counted};
use crate::framing::{
    decode_spec, fits_packet, is_rest_of, magic, packet, valid_max_payload, DecodeState,
    MAX_PACKET_PAYLOAD, MAX_PAYLOAD_LIMIT, MIN_MAX_PAYLOAD,
};
use crate::framing_proofs::{lemma_decode_rest, lemma_decoded_request_fits};
use crate::message::{Request, RequestCode, Status, StatusCode};
use bytes::{Buf, BytesMut};
use vstd::prelude::*;

verus! {

/// Decoder and encoder for one connection.
pub struct PacketCodec {
    max_payload_len: usize,
    state: DecodeState,
    received: u64,
    sent: u64,
}

/// What a [`PacketCodec`] stands for.
pub struct Codec {
    /// The largest payload length the decoder accepts.
    pub max_payload: usize,
    /// Where the decoder stands inside a packet.
    pub state: DecodeState,
    /// The bytes the decoder has consumed.
    pub received: u64,
    /// The bytes the encoder has written.
    pub sent: u64,
}

impl Codec {
    /// The codec after its decoder was called on `input`: the decoder's state
    /// is the one [`decode_spec`] gives, and every byte the decoder took from
    /// the input is counted as received.
    pub open spec fn decoded(self, input: Seq<u8>) -> Codec {
        let decoded = decode_spec(self.max_payload, self.state, input);
        Codec {
            state: decoded.state,
            received: counted(self.received, (input.len() - decoded.rest.len()) as nat),
            ..self
        }
    }

    /// The codec after its encoder has written `status`: every byte of the
    /// status's packet is counted as sent.
    pub open spec fn encoded(self, status: Status) -> Codec {
        Codec {
            sent: counted(self.sent, packet(status.code(), status.payload()).len()),
            ..self
        }
    }
}

/// What a decoded item stands for.
pub open spec fn item_view(item: Result<Option<RequestCode>, StatusCode>) -> Result<
    Option<Request>,
    Status,
> {
    match item {
        Ok(Some(request)) => Ok(Some(request@)),
        Ok(None) => Ok(None),
        Err(status) => Err(status@),
    }
}

impl View for PacketCodec {
    type V = Codec;

    closed spec fn view(&self) -> Codec {
        Codec {
            max_payload: self.max_payload_len,
            state: self.state,
            received: self.received,
            sent: self.sent,
        }
    }
}

/// Tells whether a codec may be built with this payload bound.
pub fn is_valid_max_payload(max_payload: usize) -> (valid: bool)
    ensures
        valid == valid_max_payload(max_payload),
{
    MIN_MAX_PAYLOAD <= max_payload && max_payload < MAX_PAYLOAD_LIMIT
}

/// Whether the encoder may be called on `status` with a buffer of `len`
/// bytes: the length field can hold the payload's length, and the buffer
/// can grow by the packet.
pub open spec fn encodable(status: Status, len: nat) -> bool {
    &&& fits_packet(status.payload().len())
    &&& can_grow(len, 8 + status.payload().len())
}

/// Tells whether the encoder may be called on `item` and `dst`.
pub fn can_encode(item: &StatusCode, dst: &BytesMut) -> (allowed: bool)
    ensures
        allowed == encodable(item@, buffer_bytes(*dst).len()),
{
    let payload_len = match item {
        StatusCode::Success(payload) => payload.len(),
        _ => 0,
    };
    let limit = isize::MAX as usize - 8;
    payload_len <= MAX_PACKET_PAYLOAD && dst.len() <= limit && payload_len <= limit - dst.len()
}

/// The magic header as the encoder writes it.
pub const MAGIC_HEADER: [u8; 4] = [0x53, 0x54, 0x52, 0x59];

/// Tells whether the first four bytes are the magic header.
fn starts_with_magic(bytes: &[u8]) -> (found: bool)
    requires
        bytes@.len() >= 4,
    ensures
        found == (bytes@.take(4) == magic()),
{
    let found = bytes[0] == MAGIC_HEADER[0] && bytes[1] == MAGIC_HEADER[1] && bytes[2]
        == MAGIC_HEADER[2] && bytes[3] == MAGIC_HEADER[3];
    proof {
        let head = bytes@.take(4);
        if found {
            assert(head =~= magic());
        } else {
            assert(head[0] == bytes@[0] && head[1] == bytes@[1] && head[2] == bytes@[2] && head[3]
                == bytes@[3]);
        }
    }
    found
}

impl PacketCodec {
    #[verifier::type_invariant]
    spec fn well_formed(self) -> bool {
        &&& valid_max_payload(self.max_payload_len)
        &&& self.state.fits(self.max_payload_len)
    }

    /// A codec that accepts payloads of up to `max_payload` bytes. It waits
    /// for a magic header and has counted nothing.
    pub fn new_with_max_payload(max_payload: usize) -> (codec: PacketCodec)
        requires
            valid_max_payload(max_payload),
        ensures
            codec@ == (Codec {
                max_payload,
                state: DecodeState::AwaitMagic,
                received: 0,
                sent: 0,
            }),
    {
        PacketCodec {
            max_payload_len: max_payload,
            state: DecodeState::AwaitMagic,
            received: 0,
            sent: 0,
        }
    }

    /// The bytes received and the bytes sent since the counters were last
    /// reset.
    pub fn get_stats(&self) -> (stats: (u64, u64))
        ensures
            stats == (self@.received, self@.sent),
    {
        (self.received, self.sent)
    }

    /// Sets both counters to zero.
    pub fn reset_stats(&mut self)
        ensures
            final(self)@ == (Codec { received: 0, sent: 0, ..old(self)@ }),
    {
        proof {
            use_type_invariant(&*self);
        }
        self.received = 0;
        self.sent = 0;
    }

    /// Consumes a prefix of `src` and hands out the next request, a protocol
    /// error, or `Ok(None)` when more input is needed.
    ///
    /// State, remaining input and item are those of [`decode_spec`]. Every
    /// byte taken from `src` is counted as received, the bytes skipped while
    /// looking for a magic header included.
    pub fn decode(&mut self, src: &mut BytesMut) -> (item: Result<Option<RequestCode>, StatusCode>)
        ensures
            ({
                let decoded = decode_spec(
                    old(self)@.max_payload,
                    old(self)@.state,
                    buffer_bytes(*old(src)),
                );
                &&& item_view(item) == decoded.item
                &&& buffer_bytes(*final(src)) == decoded.rest
                &&& is_rest_of(decoded.rest, buffer_bytes(*old(src)))
                &&& final(self)@ == old(self)@.decoded(buffer_bytes(*old(src)))
                &&& final(self)@.state.fits(final(self)@.max_payload)
                &&& item matches Ok(Some(request)) ==> request@.fits(final(self)@.max_payload)
            }),
    {
        let ghost goal = decode_spec(self.max_payload_len, self.state, buffer_bytes(*src));
        let ghost offered = buffer_bytes(*src).len();
        let ghost counter = self.received;
        proof {
            use_type_invariant(&*self);
            lemma_decode_rest(self.max_payload_len, self.state, buffer_bytes(*src));
            lemma_decoded_request_fits(self.max_payload_len, self.state, buffer_bytes(*src));
        }
        loop
            invariant
                is_rest_of(goal.rest, buffer_bytes(*old(src))),
                goal.item matches Ok(Some(request)) ==> request.fits(old(self).max_payload_len),
                goal == decode_spec(
                    old(self).max_payload_len,
                    old(self).state,
                    buffer_bytes(*old(src)),
                ),
                offered == buffer_bytes(*old(src)).len(),
                counter == old(self).received,
                decode_spec(self.max_payload_len, self.state, buffer_bytes(*src)) == goal,
                buffer_bytes(*src).len() <= offered,
                self.received == counted(counter, (offered - buffer_bytes(*src).len()) as nat),
                self.sent == old(self).sent,
                self.max_payload_len == old(self).max_payload_len,
            decreases buffer_bytes(*src).len(),
        {
            proof {
                use_type_invariant(&*self);
            }
            match self.state {
                DecodeState::AwaitMagic => {
                    if src.len() < 4 {
                        return Ok(None);
                    }
                    let index: usize = if starts_with_magic(as_slice(src)) {
                        self.state = DecodeState::AwaitLength;
                        4
                    } else {
                        1
                    };
                    src.advance(index);
                    self.received = add_bytes(self.received, index);
                },
                DecodeState::AwaitLength => {
                    if src.len() < 2 {
                        return Ok(None);
                    }
                    let length = get_u16(src) as usize;
                    self.received = add_bytes(self.received, 2);
                    if length > self.max_payload_len {
                        self.state = DecodeState::AwaitMagic;
                        return Err(StatusCode::MessageTooLarge);
                    }
                    self.state = DecodeState::AwaitRequestCode { length };
                },
                DecodeState::AwaitRequestCode { length } => {
                    if src.len() < 2 {
                        return Ok(None);
                    }
                    self.state = DecodeState::AwaitMagic;
                    let code = get_u16(src);
                    self.received = add_bytes(self.received, 2);
                    if code == 1 || code == 2 || code == 3 {
                        if length != 0 {
                            return Err(StatusCode::NonEmptyBuffer);
                        }
                        if code == 1 {
                            return Ok(Some(RequestCode::Ping));
                        }
                        if code == 2 {
                            return Ok(Some(RequestCode::GetStats));
                        }
                        return Ok(Some(RequestCode::ResetStats));
                    }
                    if code != 4 {
                        return Err(StatusCode::UnsupportedRequestType);
                    }
                    if length == 0 {
                        return Err(StatusCode::EmptyBuffer);
                    }
                    self.state = DecodeState::AwaitPayload { length };
                    if src.len() <= isize::MAX as usize - length {
                        src.reserve(length);
                    }
                },
                DecodeState::AwaitPayload { length } => {
                    if src.len() < length {
                        return Ok(None);
                    }
                    let payload = src.split_to(length);
                    self.state = DecodeState::AwaitMagic;
                    self.received = add_bytes(self.received, length);
                    return Ok(Some(RequestCode::Compress(payload)));
                },
            }
        }
    }

    /// Appends to `dst` the packet that carries `item`: the magic header, the
    /// payload length, the status code, and the payload of a `Success`.
    /// Every byte appended is counted as sent.
    ///
    /// The payload must be one whose length the length field can hold;
    /// [`can_encode`] tells.
    pub fn encode(&mut self, item: StatusCode, dst: &mut BytesMut) -> (done: Result<(), StatusCode>)
        requires
            encodable(item@, buffer_bytes(*old(dst)).len()),
        ensures
            done is Ok,
            buffer_bytes(*final(dst)) == buffer_bytes(*old(dst)) + packet(
                item@.code(),
                item@.payload(),
            ),
            final(self)@ == old(self)@.encoded(item@),
    {
        proof {
            use_type_invariant(&*self);
        }
        let ghost before = buffer_bytes(*dst);
        dst.reserve(MAGIC_HEADER.len() + 4);
        put(dst, &MAGIC_HEADER);

        let (payload_len, status_code, payload): (usize, u16, Option<BytesMut>) = match item {
            StatusCode::Success(payload) => (payload.len(), 0, Some(payload)),
            StatusCode::UnknownError => (0, 1, None),
            StatusCode::MessageTooLarge => (0, 2, None),
            StatusCode::UnsupportedRequestType => (0, 3, None),
            StatusCode::EmptyBuffer => (0, 33, None),
            StatusCode::NonEmptyBuffer => (0, 34, None),
            StatusCode::NonAscii => (0, 35, None),
            StatusCode::NonAlphabetic => (0, 36, None),
            StatusCode::NonLowerCase => (0, 37, None),
            StatusCode::IoError(_) => (0, 1, None),
        };

        put_u16(dst, payload_len as u16);
        put_u16(dst, status_code);

        if let Some(payload) = payload {
            dst.reserve(payload.len());
            put(dst, as_slice(&payload));
        }
        proof {
            assert(buffer_bytes(*dst) =~= before + packet(item@.code(), item@.payload()));
        }
        self.sent = add_bytes(self.sent, 8 + payload_len);
        Ok(())
    }

    /// The largest payload length the decoder accepts. It is always one a
    /// codec may be built with.
    pub fn max_payload(&self) -> (max_payload: usize)
        ensures
            max_payload == self@.max_payload,
            valid_max_payload(max_payload),
            self@.state.fits(max_payload),
    {
        proof {
            use_type_invariant(self);
        }
        self.max_payload_len
    }
}

} // verus!
