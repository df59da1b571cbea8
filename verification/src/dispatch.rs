//! The connection dispatcher: what the service answers to each item the
//! decoder hands out, and what that does to the connection's counters.

use crate::buffer::{buffer_bytes, put_u32, put_u8, u32_to_be};
use crate::compress::{Compressor, Counters};
use crate::counters::counted;
use crate::encoding::{compress_spec, is_digit, is_lowercase};
use crate::encoding_proofs::{
    lemma_compressed_is_plain, lemma_compressed_is_short, lemma_first_error_kinds,
    lemma_no_error_is_lowercase,
};
use crate::framing::{fits_packet, packet, valid_max_payload, DecodeState};
use crate::framing_proofs::lemma_request_round_trip;
use crate::message::{Request, RequestCode, Status, StatusCode};
use crate::packet::{Codec, PacketCodec};
use bytes::BytesMut;
use vstd::prelude::*;

verus! {

/// What the connection does next.
#[derive(Debug, PartialEq)]
pub enum Action {
    /// Send the status and wait for the next request.
    Reply(StatusCode),
    /// Send the status if the transport still allows it, then close.
    ReplyAndClose(StatusCode),
    /// Close the connection.
    Close,
}

/// What an [`Action`] stands for.
pub enum Step {
    Reply(Status),
    ReplyAndClose(Status),
    Close,
}

impl View for Action {
    type V = Step;

    open spec fn view(&self) -> Step {
        match *self {
            Action::Reply(status) => Step::Reply(status@),
            Action::ReplyAndClose(status) => Step::ReplyAndClose(status@),
            Action::Close => Step::Close,
        }
    }
}

/// What an event on the connection stands for: `None` for a closed
/// connection, otherwise the item the decoder handed out.
pub open spec fn event_view(event: Option<Result<RequestCode, StatusCode>>) -> Option<
    Result<Request, Status>,
> {
    match event {
        None => None,
        Some(Ok(request)) => Some(Ok(request@)),
        Some(Err(status)) => Some(Err(status@)),
    }
}

/// A counter as it is reported in 32 bits: the counter, or the largest
/// 32-bit value once the counter exceeds it.
pub open spec fn saturated(counter: u64) -> u32 {
    if counter > u32::MAX {
        u32::MAX
    } else {
        counter as u32
    }
}

/// The share of the bytes that went into compression that came out of it, in
/// percent and rounded down; zero when nothing went in.
pub open spec fn ratio(before: u64, after: u64) -> u8
    recommends
        after <= before,
{
    if before == 0 {
        0
    } else {
        (after * 100 / before as int) as u8
    }
}

/// The nine bytes of a statistics report: bytes received, bytes sent, each
/// in 32 bits, and the compression ratio.
pub open spec fn stats_body(codec: Codec, counters: Counters) -> Seq<u8> {
    u32_to_be(saturated(codec.received)) + u32_to_be(saturated(codec.sent)) + seq![
        ratio(counters.before, counters.after),
    ]
}

/// The connection after an event: codec, compressor counters, and what to
/// do next.
pub struct Served {
    pub codec: Codec,
    pub counters: Counters,
    pub step: Step,
}

/// What the dispatcher does on an event.
///
/// A closed connection ends the dispatcher. A transport failure is reported
/// and ends it too. Any other error from the decoder is sent back as it is.
/// A ping is acknowledged, a statistics request is answered from the
/// counters, a reset zeroes them, and a compress request is answered with
/// the compressed payload or with the compressor's error.
pub open spec fn serve_spec(
    codec: Codec,
    counters: Counters,
    event: Option<Result<Request, Status>>,
) -> Served {
    match event {
        None => Served { codec, counters, step: Step::Close },
        Some(Err(Status::IoError(kind))) => Served {
            codec,
            counters,
            step: Step::ReplyAndClose(Status::IoError(kind)),
        },
        Some(Err(status)) => Served { codec, counters, step: Step::Reply(status) },
        Some(Ok(Request::Ping)) => Served {
            codec,
            counters,
            step: Step::Reply(Status::Success(Seq::empty())),
        },
        Some(Ok(Request::GetStats)) => Served {
            codec,
            counters,
            step: Step::Reply(Status::Success(stats_body(codec, counters))),
        },
        Some(Ok(Request::ResetStats)) => Served {
            codec: Codec { received: 0, sent: 0, ..codec },
            counters: Counters { before: 0, after: 0 },
            step: Step::Reply(Status::Success(Seq::empty())),
        },
        Some(Ok(Request::Compress(payload))) => match compress_spec(payload) {
            Ok(coded) => Served {
                codec,
                counters: Counters {
                    before: counted(counters.before, payload.len()),
                    after: counted(counters.after, coded.len()),
                },
                step: Step::Reply(Status::Success(coded)),
            },
            Err(status) => Served { codec, counters, step: Step::Reply(status) },
        },
    }
}

/// The reply to a compress request carries no more bytes than the request
/// did, and lowercase letters and decimal digits only.
pub proof fn lemma_compress_reply_is_short_and_plain(
    codec: Codec,
    counters: Counters,
    payload: Seq<u8>,
)
    ensures
        serve_spec(codec, counters, Some(Ok(Request::Compress(payload)))).step matches Step::Reply(
            Status::Success(coded),
        ) ==> {
            &&& coded.len() <= payload.len()
            &&& forall|i: int|
                0 <= i < coded.len() ==> is_lowercase(#[trigger] coded[i]) || is_digit(coded[i])
        },
{
    if compress_spec(payload) is Ok {
        lemma_no_error_is_lowercase(payload);
        lemma_compressed_is_short(payload);
        lemma_compressed_is_plain(payload);
    } else {
        lemma_first_error_kinds(payload);
    }
}

/// What the dispatcher sends in answer to the decoder can always be put
/// into a packet: the answer to a request that fits the payload bound, and
/// to an error, carries no more bytes than the bound allows.
pub proof fn lemma_reply_fits_packet(
    max_payload: usize,
    codec: Codec,
    counters: Counters,
    event: Option<Result<Request, Status>>,
)
    requires
        valid_max_payload(max_payload),
        event matches Some(Ok(request)) ==> request.fits(max_payload),
        event matches Some(Err(status)) ==> !(status is Success),
    ensures
        ({
            let step = serve_spec(codec, counters, event).step;
            &&& step matches Step::Reply(status) ==> status.payload().len() <= max_payload
                && fits_packet(status.payload().len())
            &&& step matches Step::ReplyAndClose(status) ==> status.payload().len() == 0
        }),
{
    match event {
        Some(Ok(Request::Compress(payload))) => {
            lemma_compressed_is_short(payload);
            lemma_first_error_kinds(payload);
        },
        Some(Ok(Request::GetStats)) => {
            assert(stats_body(codec, counters).len() == 9);
        },
        _ => {},
    }
}

/// Whatever the event, no more bytes have come out of compression than have
/// gone into it, provided that held before.
pub proof fn lemma_counters_stay_ordered(
    codec: Codec,
    counters: Counters,
    event: Option<Result<Request, Status>>,
)
    requires
        counters.after <= counters.before,
    ensures
        serve_spec(codec, counters, event).counters.after <= serve_spec(
            codec,
            counters,
            event,
        ).counters.before,
{
    if let Some(Ok(Request::Compress(payload))) = event {
        lemma_compressed_is_short(payload);
    }
}

/// Every event but the end of the connection is answered with exactly one
/// status, and only a transport failure ends the connection with it.
pub proof fn lemma_every_item_is_answered(
    codec: Codec,
    counters: Counters,
    event: Option<Result<Request, Status>>,
)
    ensures
        event is None <==> serve_spec(codec, counters, event).step is Close,
        event matches Some(Err(Status::IoError(_))) <==> serve_spec(
            codec,
            counters,
            event,
        ).step is ReplyAndClose,
{
}

/// The codec once a request has arrived whole and was answered: its packet
/// decoded, the request served, and the reply encoded.
pub open spec fn exchanged(codec: Codec, counters: Counters, request: Request, rest: Seq<u8>) -> Codec {
    let asked = packet(request.code(), request.payload());
    let served = serve_spec(codec.decoded(asked + rest), counters, Some(Ok(request)));
    match served.step {
        Step::Reply(status) => served.codec.encoded(status),
        Step::ReplyAndClose(status) => served.codec.encoded(status),
        Step::Close => served.codec,
    }
}

/// A request other than a reset, arriving at a codec that waits for a magic
/// header, is answered with one status, and both are counted in full: the
/// codec has then received as many bytes more as the request's packet holds,
/// and sent as many more as the reply's packet holds. A counter that cannot
/// hold the sum stays at its largest value.
pub proof fn lemma_exchange_is_counted(
    codec: Codec,
    counters: Counters,
    request: Request,
    rest: Seq<u8>,
)
    requires
        valid_max_payload(codec.max_payload),
        codec.state == DecodeState::AwaitMagic,
        request.fits(codec.max_payload),
        !(request is ResetStats),
    ensures
        ({
            let asked = packet(request.code(), request.payload());
            let served = serve_spec(codec.decoded(asked + rest), counters, Some(Ok(request)));
            let after = exchanged(codec, counters, request, rest);
            &&& served.step matches Step::Reply(reply)
            &&& after.received == counted(codec.received, asked.len())
            &&& after.sent == counted(codec.sent, packet(reply.code(), reply.payload()).len())
            &&& codec.received + asked.len() <= u64::MAX ==> after.received == codec.received
                + asked.len()
            &&& codec.sent + packet(reply.code(), reply.payload()).len() <= u64::MAX
                ==> after.sent == codec.sent + packet(reply.code(), reply.payload()).len()
        }),
{
    lemma_request_round_trip(codec.max_payload, request, rest);
}

/// After a reset was answered the codec has received nothing and sent the
/// eight bytes of the acknowledgement.
pub proof fn lemma_reset_is_counted(codec: Codec, counters: Counters, rest: Seq<u8>)
    ensures
        exchanged(codec, counters, Request::ResetStats, rest).received == 0,
        exchanged(codec, counters, Request::ResetStats, rest).sent == 8,
{
}

/// The body of a statistics report for this connection.
pub fn stats_report(codec: &PacketCodec, compressor: &Compressor) -> (body: BytesMut)
    ensures
        buffer_bytes(body) == stats_body(codec@, compressor@),
{
    let (received, sent) = codec.get_stats();
    let (before, after) = compressor.get_stats();
    let mut buffer = BytesMut::with_capacity(9);

    put_u32(&mut buffer, if received > u32::MAX as u64 { u32::MAX } else { received as u32 });
    put_u32(&mut buffer, if sent > u32::MAX as u64 { u32::MAX } else { sent as u32 });

    let percent: u8 = if before == 0 {
        0
    } else {
        assert(after * 100 / before as int <= 100) by (nonlinear_arith)
            requires
                0 <= after <= before,
                before > 0,
        ;
        (after as u128 * 100 / before as u128) as u8
    };
    put_u8(&mut buffer, percent);
    proof {
        assert(buffer_bytes(buffer) =~= stats_body(codec@, compressor@));
    }
    buffer
}

/// Answers one event on the connection.
pub fn dispatch(
    codec: &mut PacketCodec,
    compressor: &mut Compressor,
    event: Option<Result<RequestCode, StatusCode>>,
) -> (action: Action)
    ensures
        ({
            let served = serve_spec(old(codec)@, old(compressor)@, event_view(event));
            &&& final(codec)@ == served.codec
            &&& final(compressor)@ == served.counters
            &&& action@ == served.step
        }),
{
    match event {
        None => Action::Close,
        Some(Err(StatusCode::IoError(kind))) => Action::ReplyAndClose(StatusCode::IoError(kind)),
        Some(Err(status)) => Action::Reply(status),
        Some(Ok(RequestCode::Ping)) => Action::Reply(StatusCode::Success(BytesMut::new())),
        Some(Ok(RequestCode::GetStats)) => {
            let body = stats_report(codec, compressor);
            Action::Reply(StatusCode::Success(body))
        },
        Some(Ok(RequestCode::ResetStats)) => {
            codec.reset_stats();
            compressor.reset_stats();
            Action::Reply(StatusCode::Success(BytesMut::new()))
        },
        Some(Ok(RequestCode::Compress(payload))) => match compressor.compress(payload) {
            Ok(compressed) => Action::Reply(StatusCode::Success(compressed)),
            Err(error) => Action::Reply(error),
        },
    }
}

} // verus!
