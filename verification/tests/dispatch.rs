use bytes::{BufMut, BytesMut};
use compression_service::compress::Compressor;
use compression_service::dispatch::{dispatch, stats_report, Action};
use compression_service::message::{RequestCode, StatusCode};
use compression_service::packet::PacketCodec;
use std::io::ErrorKind;

/// One end of a connection, without the socket: bytes written by the client
/// go into `inbound`, bytes for the client come out of `outbound`.
struct Connection {
    codec: PacketCodec,
    compressor: Compressor,
    inbound: BytesMut,
    closed: bool,
}

impl Connection {
    fn new() -> Connection {
        Connection {
            codec: PacketCodec::new_with_max_payload(1 << 14),
            compressor: Compressor::new(),
            inbound: BytesMut::new(),
            closed: false,
        }
    }

    /// The client writes `bytes`; the result is what the service writes back.
    fn write(&mut self, bytes: &[u8]) -> Vec<u8> {
        let mut outbound = BytesMut::new();
        self.inbound.put(bytes);
        while !self.closed {
            let event = match self.codec.decode(&mut self.inbound) {
                Ok(None) => break,
                Ok(Some(request)) => Some(Ok(request)),
                Err(status) => Some(Err(status)),
            };
            match dispatch(&mut self.codec, &mut self.compressor, event) {
                Action::Reply(status) => self.codec.encode(status, &mut outbound).unwrap(),
                Action::ReplyAndClose(status) => {
                    self.codec.encode(status, &mut outbound).unwrap();
                    self.closed = true;
                }
                Action::Close => self.closed = true,
            }
        }
        outbound.to_vec()
    }

    fn request(&mut self, code: u16, payload: &[u8]) -> Vec<u8> {
        let mut packet = BytesMut::with_capacity(8 + payload.len());
        packet.put("STRY".as_bytes());
        packet.put_u16(payload.len() as u16);
        packet.put_u16(code);
        packet.put(payload);
        self.write(&packet)
    }
}

fn fresh() -> (PacketCodec, Compressor) {
    (PacketCodec::new_with_max_payload(1 << 14), Compressor::new())
}

#[test]
fn ping_is_acknowledged() {
    let (mut codec, mut compressor) = fresh();
    assert_eq!(
        dispatch(&mut codec, &mut compressor, Some(Ok(RequestCode::Ping))),
        Action::Reply(StatusCode::Success(BytesMut::new()))
    );
    assert_eq!(codec.get_stats(), (0, 0));
    assert_eq!(compressor.get_stats(), (0, 0));
}

#[test]
fn compress_request_is_answered_with_the_compressed_payload() {
    let (mut codec, mut compressor) = fresh();
    let request = RequestCode::Compress(BytesMut::from("aaaaabbb"));
    assert_eq!(
        dispatch(&mut codec, &mut compressor, Some(Ok(request))),
        Action::Reply(StatusCode::Success(BytesMut::from("5a3b")))
    );
    assert_eq!(compressor.get_stats(), (8, 4));
    assert_eq!(codec.get_stats(), (0, 0));
}

#[test]
fn compress_request_is_answered_with_the_compressors_error() {
    let cases = [
        ("123", StatusCode::NonAlphabetic),
        ("abCD", StatusCode::NonLowerCase),
        ("☺", StatusCode::NonAscii),
        ("", StatusCode::EmptyBuffer),
    ];
    for (payload, status) in cases {
        let (mut codec, mut compressor) = fresh();
        let request = RequestCode::Compress(BytesMut::from(payload));
        assert_eq!(
            dispatch(&mut codec, &mut compressor, Some(Ok(request))),
            Action::Reply(status)
        );
        assert_eq!(compressor.get_stats(), (0, 0));
    }
}

#[test]
fn decoder_errors_are_sent_back_as_they_are() {
    let statuses = [
        || StatusCode::UnknownError,
        || StatusCode::MessageTooLarge,
        || StatusCode::UnsupportedRequestType,
        || StatusCode::EmptyBuffer,
        || StatusCode::NonEmptyBuffer,
        || StatusCode::NonAscii,
        || StatusCode::NonAlphabetic,
        || StatusCode::NonLowerCase,
        || StatusCode::Success(BytesMut::from("x")),
    ];
    for status in statuses {
        let (mut codec, mut compressor) = fresh();
        assert_eq!(
            dispatch(&mut codec, &mut compressor, Some(Err(status()))),
            Action::Reply(status())
        );
    }
}

#[test]
fn transport_error_is_reported_and_ends_the_connection() {
    let (mut codec, mut compressor) = fresh();
    assert_eq!(
        dispatch(
            &mut codec,
            &mut compressor,
            Some(Err(StatusCode::IoError(ErrorKind::BrokenPipe)))
        ),
        Action::ReplyAndClose(StatusCode::IoError(ErrorKind::BrokenPipe))
    );
}

#[test]
fn closed_connection_ends_the_dispatcher() {
    let (mut codec, mut compressor) = fresh();
    assert_eq!(dispatch(&mut codec, &mut compressor, None), Action::Close);
}

#[test]
fn stats_report_of_a_fresh_connection_is_all_zero() {
    let (codec, compressor) = fresh();
    assert_eq!(stats_report(&codec, &compressor), &[0u8; 9][..]);
}

#[test]
fn stats_report_holds_received_sent_and_ratio() {
    let (mut codec, mut compressor) = fresh();
    let mut inbound = BytesMut::from(&b"....STRY\x00\x03\x00\x04aaa"[..]);
    let request = codec.decode(&mut inbound).unwrap().unwrap();
    let mut outbound = BytesMut::new();
    match dispatch(&mut codec, &mut compressor, Some(Ok(request))) {
        Action::Reply(status) => codec.encode(status, &mut outbound).unwrap(),
        other => panic!("unexpected {other:?}"),
    }
    assert_eq!(codec.get_stats(), (15, 10));
    assert_eq!(compressor.get_stats(), (3, 2));
    // 2 of 3 bytes is 66.67 percent, rounded down.
    assert_eq!(
        stats_report(&codec, &compressor),
        &b"\x00\x00\x00\x0f\x00\x00\x00\x0a\x42"[..]
    );
}

#[test]
fn ratio_is_rounded_down() {
    let cases: [(&str, u8); 6] = [
        ("abc", 100),
        ("aaa", 66),
        ("aaaa", 50),
        ("aaaaaaa", 28),
        ("aaaaaaaaaaaa", 25),
        ("aaaaaaaaaaaaaaaaaaaaaaaaaaaaaaaaaaaaaaaaaaaaaaaaaaaaaaaaaaaaaaaaaaaaaaaaaaaaaaaaaaaaaaaaaaaaaaaaaaaaaaaaaaaaa", 3),
    ];
    for (payload, percent) in cases {
        let (codec, mut compressor) = fresh();
        compressor.compress(BytesMut::from(payload)).unwrap();
        let report = stats_report(&codec, &compressor);
        assert_eq!(report[8], percent, "{payload}");
    }
}

#[test]
fn ratio_is_taken_over_all_payloads() {
    let (codec, mut compressor) = fresh();
    for payload in [
        "a",
        "aa",
        "aaa",
        "aaaaabbb",
        "aaaaabbbbbbaaabb",
        "abcdefg",
        "aaaccddddhhhhi",
        "crosssection",
    ] {
        compressor.compress(BytesMut::from(payload)).unwrap();
    }
    assert_eq!(compressor.get_stats(), (63, 44));
    assert_eq!(stats_report(&codec, &compressor)[8], 69);
}

#[test]
fn stats_report_stops_at_the_largest_32_bit_value() {
    let (mut codec, compressor) = fresh();
    // The longest payload a packet can carry, many times over.
    let packet_len = 8 + 0xffff_u64;
    let mut payloads = BytesMut::new();
    let mut outbound = BytesMut::new();
    let mut encode_longest = |codec: &mut PacketCodec| {
        if payloads.len() < 0xffff {
            payloads = BytesMut::from(&vec![b'x'; 0xffff * 256][..]);
        }
        outbound.clear();
        codec
            .encode(StatusCode::Success(payloads.split_to(0xffff)), &mut outbound)
            .unwrap();
    };

    for _ in 0..65529 {
        encode_longest(&mut codec);
    }
    let sent = 65529 * packet_len;
    assert_eq!(codec.get_stats(), (0, sent));
    assert!(sent <= u32::MAX as u64);
    assert_eq!(
        &stats_report(&codec, &compressor)[4..8],
        &(sent as u32).to_be_bytes()
    );

    encode_longest(&mut codec);
    let sent = 65530 * packet_len;
    assert_eq!(codec.get_stats(), (0, sent));
    assert!(sent > u32::MAX as u64);
    assert_eq!(
        stats_report(&codec, &compressor),
        &b"\x00\x00\x00\x00\xff\xff\xff\xff\x00"[..]
    );
}

#[test]
fn get_stats_request_is_answered_with_the_report() {
    let mut connection = Connection::new();
    connection.request(4, b"aaaa");
    let response = connection.request(2, b"");
    // 12 + 8 bytes received, 10 bytes sent, 2 of 4 bytes left.
    assert_eq!(
        response,
        b"STRY\x00\x09\x00\x00\x00\x00\x00\x14\x00\x00\x00\x0a\x32"
    );
}

#[test]
fn reset_stats_request_zeroes_all_counters() {
    let (mut codec, mut compressor) = fresh();
    let mut inbound = BytesMut::from(&b"STRY\x00\x03\x00\x04aaaSTRY\x00\x00\x00\x03"[..]);
    let mut outbound = BytesMut::new();
    let request = codec.decode(&mut inbound).unwrap().unwrap();
    match dispatch(&mut codec, &mut compressor, Some(Ok(request))) {
        Action::Reply(status) => codec.encode(status, &mut outbound).unwrap(),
        other => panic!("unexpected {other:?}"),
    }
    let request = codec.decode(&mut inbound).unwrap().unwrap();
    assert_eq!(request, RequestCode::ResetStats);
    assert_eq!(codec.get_stats(), (19, 10));
    assert_eq!(compressor.get_stats(), (3, 2));
    assert_eq!(
        dispatch(&mut codec, &mut compressor, Some(Ok(request))),
        Action::Reply(StatusCode::Success(BytesMut::new()))
    );
    assert_eq!(codec.get_stats(), (0, 0));
    assert_eq!(compressor.get_stats(), (0, 0));
    assert_eq!(codec.max_payload(), 1 << 14);
}

#[test]
fn counters_grow_by_packet_lengths() {
    let mut connection = Connection::new();
    let exchanges: [(u16, &[u8]); 6] = [
        (1, b""),
        (4, b"aaaaabbb"),
        (4, b"abc"),
        (4, b"ab1"),
        (7, b""),
        (2, b""),
    ];
    let mut received = 0u64;
    let mut sent = 0u64;
    for (code, payload) in exchanges {
        let response = connection.request(code, payload);
        received += 8 + payload.len() as u64;
        sent += response.len() as u64;
        assert_eq!(connection.codec.get_stats(), (received, sent));
    }
}

#[test]
fn every_request_gets_one_response() {
    let mut connection = Connection::new();
    let requests: [(u16, &[u8]); 7] = [
        (1, b""),
        (2, b""),
        (3, b""),
        (4, b"abc"),
        (4, b"ABC"),
        (4, b""),
        (0, b""),
    ];
    for (code, payload) in requests {
        let response = connection.request(code, payload);
        assert_eq!(&response[..4], b"STRY");
        let length = u16::from_be_bytes([response[4], response[5]]) as usize;
        assert_eq!(response.len(), 8 + length);
    }
}

#[test]
fn exchange_ping() {
    assert_eq!(
        Connection::new().write(b"\x53\x54\x52\x59\x00\x00\x00\x01"),
        b"\x53\x54\x52\x59\x00\x00\x00\x00"
    );
}

#[test]
fn exchange_single_letter() {
    assert_eq!(
        Connection::new().write(b"\x53\x54\x52\x59\x00\x01\x00\x04a"),
        b"\x53\x54\x52\x59\x00\x01\x00\x00a"
    );
}

#[test]
fn exchange_three_letters() {
    assert_eq!(
        Connection::new().write(b"\x53\x54\x52\x59\x00\x03\x00\x04aaa"),
        b"\x53\x54\x52\x59\x00\x02\x00\x003a"
    );
}

#[test]
fn exchange_two_runs() {
    assert_eq!(
        Connection::new().write(b"\x53\x54\x52\x59\x00\x08\x00\x04aaaaabbb"),
        b"\x53\x54\x52\x59\x00\x04\x00\x005a3b"
    );
}

#[test]
fn exchange_four_runs() {
    assert_eq!(
        Connection::new().write(b"\x53\x54\x52\x59\x00\x10\x00\x04aaaaabbbbbbaaabb"),
        b"\x53\x54\x52\x59\x00\x08\x00\x005a6b3abb"
    );
}

#[test]
fn exchange_split_write() {
    let mut connection = Connection::new();
    assert_eq!(connection.write(b"STRY\0"), b"");
    assert_eq!(connection.write(b"\x0c\0"), b"");
    assert_eq!(connection.write(b"\x04cross"), b"");
    assert_eq!(connection.write(b"section"), b"STRY\0\x0b\0\0cro3section");
}

#[test]
fn exchange_compress_without_payload() {
    assert_eq!(
        Connection::new().write(b"\x53\x54\x52\x59\x00\x00\x00\x04"),
        b"\x53\x54\x52\x59\x00\x00\x00\x21"
    );
}

#[test]
fn exchange_ping_with_payload() {
    let mut connection = Connection::new();
    assert_eq!(
        connection.write(b"\x53\x54\x52\x59\x00\x05\x00\x01hello"),
        b"\x53\x54\x52\x59\x00\x00\x00\x22"
    );
    // The payload is not consumed; it is skipped while the decoder looks for
    // the next magic header.
    assert_eq!(connection.request(1, b""), b"STRY\0\0\0\0");
}

#[test]
fn exchange_digits() {
    assert_eq!(
        Connection::new().write(b"\x53\x54\x52\x59\x00\x03\x00\x04123"),
        b"\x53\x54\x52\x59\x00\x00\x00\x24"
    );
}

#[test]
fn exchange_message_too_large() {
    let mut connection = Connection::new();
    assert_eq!(
        connection.write(b"STRY\x40\x01\x00\x04"),
        b"STRY\x00\x00\x00\x02"
    );
}

#[test]
fn exchange_unsupported_request() {
    assert_eq!(
        Connection::new().write(b"STRY\x00\x00\x00\x05"),
        b"STRY\x00\x00\x00\x03"
    );
}

#[test]
fn integration_tests() {
    // One connection for the whole sequence, so that the statistics add up.
    let mut stream = Connection::new();

    // test good packets

    // ping
    let response = stream.request(1, &[]);
    assert_eq!(&response, b"STRY\0\0\0\0", "ping failed");

    // compress "a"
    let response = stream.request(4, "a".as_bytes());
    assert_eq!(&response, b"STRY\0\x01\0\0a", "compress 'a' failed");

    // compress "aa"
    let response = stream.request(4, "aa".as_bytes());
    assert_eq!(&response, b"STRY\0\x02\0\0aa", "compress 'aa' failed");

    // compress "aaa"
    let response = stream.request(4, "aaa".as_bytes());
    assert_eq!(&response, b"STRY\0\x02\0\03a", "compress 'aaa' failed");

    // compress "aaaaabbb"
    let response = stream.request(4, "aaaaabbb".as_bytes());
    assert_eq!(
        &response, b"STRY\0\x04\0\05a3b",
        "compress 'aaaaabbb' failed"
    );

    // compress "aaaaabbbbbbaaabb"
    let response = stream.request(4, "aaaaabbbbbbaaabb".as_bytes());
    assert_eq!(
        &response, b"STRY\0\x08\0\05a6b3abb",
        "compress 'aaaaabbbbbbaaabb' failed"
    );

    // compress "abcdefg"
    let response = stream.request(4, "abcdefg".as_bytes());
    assert_eq!(
        &response, b"STRY\0\x07\0\0abcdefg",
        "compress 'abcdefg' failed"
    );

    // compress "aaaccddddhhhhi"
    let response = stream.request(4, "aaaccddddhhhhi".as_bytes());
    assert_eq!(
        &response, b"STRY\0\x09\0\03acc4d4hi",
        "compress 'aaaccddddhhhhi' failed"
    );

    // split packet
    assert!(stream.write("STRY\0".as_bytes()).is_empty());
    assert!(stream.write("\x0c\0".as_bytes()).is_empty());
    assert!(stream.write("\x04cross".as_bytes()).is_empty());
    let response = stream.write("section".as_bytes());
    assert_eq!(
        &response, b"STRY\0\x0b\0\0cro3section",
        "compress 'crosssection' failed"
    );

    // get stats
    let response = stream.request(2, &[]);
    assert_eq!(
        &response, b"STRY\0\x09\0\0\0\0\0\x8f\0\0\0\x74\x45",
        "get stats failed"
    );

    // reset stats
    let response = stream.request(3, &[]);
    assert_eq!(&response, b"STRY\0\0\0\0", "reset stats failed");

    // check get stats again
    let response = stream.request(2, &[]);
    assert_eq!(
        &response, b"STRY\0\x09\0\0\0\0\0\x08\0\0\0\x08\0",
        "get stats failed"
    );

    // test bad packets

    // compress without payload
    let response = stream.request(4, &[]);
    assert_eq!(
        &response, b"STRY\0\0\0\x21",
        "compress without payload did not return EmptyBufer error"
    );

    // ping with payload
    let response = stream.request(1, "hello".as_bytes());
    assert_eq!(
        &response, b"STRY\0\0\0\x22",
        "ping with payload did not return NonEmptyBuffer error"
    );

    // compress "☺"
    let response = stream.request(4, "☺".as_bytes());
    assert_eq!(
        &response, b"STRY\0\0\0\x23",
        "compress '☺' did not return NonAscii error"
    );

    // compress "123"
    let response = stream.request(4, "123".as_bytes());
    assert_eq!(
        &response, b"STRY\0\0\0\x24",
        "compress '123' did not return NonAlphabetic error"
    );

    // compress "abCD"
    let response = stream.request(4, "abCD".as_bytes());
    assert_eq!(
        &response, b"STRY\0\0\0\x25",
        "compress 'abCD' did not return NonLowerCase error"
    );

    // compress "X Æ A-12"
    let response = stream.request(4, "X Æ A-12".as_bytes());
    assert_eq!(
        &response, b"STRY\0\0\0\x25",
        "I think it's pronounced 'Kyle'"
    );
}
