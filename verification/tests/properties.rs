use moq::moq_protocol::codec::{Cursor, Decode, Encode};
use moq::moq_protocol::error::Error as MoqError;
use moq::moq_protocol::params::Parameters;
use moq::moq_protocol::message::subscribe::SubscribeOk;
use moq::moq_protocol::message::{encode_control_message, ControlMessage, MSG_SUBSCRIBE_OK};
use moq::moq_protocol::types::{KeyValuePair, KvValue, Location, ReasonPhrase, SubscriptionFilter};
use moq::moq_protocol::varint::{decode_varint, encode_varint};
use moq::webtransport::capsule::{Capsule, CapsuleParser};
use moq::webtransport::config::Config;
use moq::webtransport::connection::{Connection, Event};
use moq::numeral::{format_hex, format_u16, format_u64, parse_u16};
use moq::webtransport::error::Error;
use moq::webtransport::frame;
use moq::webtransport::h3::frame::{decode_settings, encode_settings, FrameParser, H3Frame};
use moq::webtransport::h3::qpack::{decode_header_block, encode_header_block, huffman_decode};
use moq::webtransport::session::SessionState;
use moq::webtransport::stream::{encode_stream_header, StreamType, WtStream};
use moq::webtransport::varint;

fn peer_control_stream() -> Vec<u8> {
    let settings = vec![
        (frame::SETTINGS_WT_MAX_SESSIONS, 4),
        (frame::SETTINGS_ENABLE_CONNECT_PROTOCOL, 1),
        (frame::SETTINGS_H3_DATAGRAM, 1),
        (frame::SETTINGS_WT_INITIAL_MAX_STREAMS_UNI, 100),
        (frame::SETTINGS_WT_INITIAL_MAX_STREAMS_BIDI, 100),
        (frame::SETTINGS_WT_INITIAL_MAX_DATA, 1_048_576),
    ];
    let mut buf = varint::encode_vec(frame::H3_STREAM_TYPE_CONTROL).unwrap();
    buf.extend_from_slice(&encode_settings(&settings).unwrap());
    buf
}

fn headers_frame(headers: &[(&str, &str)]) -> Vec<u8> {
    let frame = H3Frame {
        frame_type: frame::H3_FRAME_HEADERS,
        payload: encode_header_block(headers),
    };
    let mut buf = Vec::new();
    frame.encode(&mut buf).unwrap();
    buf
}

fn data_frame(payload: &[u8]) -> Vec<u8> {
    let frame = H3Frame {
        frame_type: frame::H3_FRAME_DATA,
        payload: payload.to_vec(),
    };
    let mut buf = Vec::new();
    frame.encode(&mut buf).unwrap();
    buf
}

fn open_client_session() -> (Connection, u64) {
    let mut c = Connection::new(false, Config::default());
    c.initialize().unwrap();
    c.process_stream_data(3, &peer_control_stream(), false).unwrap();
    let (sid, _) = c.connect("example.com", "/wt", None, &[]).unwrap();
    c.process_stream_data(sid, &headers_frame(&[(":status", "200")]), false)
        .unwrap();
    while c.poll_event().is_some() {}
    (c, sid)
}

// --- varints ---

#[test]
fn wt_varint_exact_encodings() {
    assert_eq!(varint::encode_vec(37).unwrap(), vec![0x25]);
    assert_eq!(varint::encode_vec(15293).unwrap(), vec![0x7b, 0xbd]);
    assert_eq!(
        varint::encode_vec(494_878_333).unwrap(),
        vec![0x9d, 0x7f, 0x3e, 0x7d]
    );
    assert_eq!(
        varint::encode_vec(151_288_809_941_952_652).unwrap(),
        vec![0xc2, 0x19, 0x7c, 0x5e, 0xff, 0x14, 0xe8, 0x8c]
    );
    assert_eq!(varint::varint_len(63), 1);
    assert_eq!(varint::varint_len(64), 2);
    assert_eq!(varint::varint_len(16384), 4);
    assert_eq!(varint::varint_len(1_073_741_824), 8);
}

#[test]
fn wt_varint_roundtrip_at_boundaries() {
    for v in [0u64, 63, 64, 16383, 16384, 1_073_741_823, 1_073_741_824, varint::MAX_VARINT] {
        let bytes = varint::encode_vec(v).unwrap();
        let mut with_tail = bytes.clone();
        with_tail.extend_from_slice(&[0xff, 0xee]);
        assert_eq!(varint::decode(&with_tail).unwrap(), (v, bytes.len()));
    }
    assert!(matches!(
        varint::encode_vec(varint::MAX_VARINT + 1),
        Err(Error::VarintOverflow)
    ));
}

#[test]
fn wt_incremental_decoder_matches_decode() {
    for v in [5u64, 300, 70_000, 5_000_000_000] {
        let bytes = varint::encode_vec(v).unwrap();
        let mut dec = varint::VarintDecoder::new();
        let mut got = None;
        for &b in &bytes {
            got = dec.feed(b);
        }
        assert_eq!(got, Some(varint::decode(&bytes).unwrap()));
        assert!(!dec.is_fresh());
        dec.reset();
        assert!(dec.is_fresh());
    }
}

#[test]
fn moq_varint_roundtrip_with_tail() {
    for v in [0u64, 63, 64, 16383, 16384, 1_073_741_823, 1_073_741_824] {
        let mut buf = Vec::new();
        encode_varint(&mut buf, v).unwrap();
        buf.push(0x99);
        let (got, n) = decode_varint(&buf).unwrap();
        assert_eq!(got, v);
        assert_eq!(n, buf.len() - 1);
    }
}

// --- decimal status codes ---

#[test]
fn status_code_formatting() {
    assert_eq!(format_u16(0), "0");
    assert_eq!(format_u16(7), "7");
    assert_eq!(format_u16(200), "200");
    assert_eq!(format_u16(65535), "65535");
}

#[test]
fn status_code_parsing() {
    assert_eq!(parse_u16("200"), Some(200));
    assert_eq!(parse_u16("0"), Some(0));
    assert_eq!(parse_u16("65535"), Some(65535));
    assert_eq!(parse_u16("65536"), None);
    assert_eq!(parse_u16(""), None);
    assert_eq!(parse_u16("2a0"), None);
    assert_eq!(parse_u16("-1"), None);
    for v in [0u16, 9, 10, 99, 100, 403, 1000, 65535] {
        assert_eq!(parse_u16(&format_u16(v)), Some(v));
    }
}

// --- UTF-8 text read off the wire ---

#[test]
fn reason_phrase_decodes_utf8_text() {
    let text = "h\u{e9}llo \u{4e16}\u{754c}";
    let mut buf = Vec::new();
    ReasonPhrase(text.to_string()).encode(&mut buf).unwrap();
    assert_eq!(buf[0] as usize, text.len());
    let mut c = Cursor::new(&buf);
    assert_eq!(ReasonPhrase::decode(&mut c).unwrap(), ReasonPhrase(text.to_string()));
}

#[test]
fn reason_phrase_invalid_utf8_rejected() {
    let buf = [0x02u8, 0xc3, 0x28];
    let mut c = Cursor::new(&buf);
    assert!(matches!(
        ReasonPhrase::decode(&mut c),
        Err(MoqError::ProtocolViolation(_))
    ));
}

#[test]
fn close_capsule_carries_utf8_message() {
    let capsule = Capsule::CloseSession {
        error_code: 7,
        error_message: "adi\u{f3}s".to_string(),
    };
    let mut buf = Vec::new();
    capsule.encode(&mut buf).unwrap();
    let (decoded, n) = Capsule::decode(&buf).unwrap();
    assert_eq!(n, buf.len());
    assert_eq!(decoded, capsule);
}

#[test]
fn close_capsule_message_at_limit() {
    let capsule = Capsule::CloseSession {
        error_code: 1,
        error_message: "y".repeat(1024),
    };
    let mut buf = Vec::new();
    assert!(capsule.encode(&mut buf).is_ok());
    assert_eq!(Capsule::decode(&buf).unwrap().0, capsule);
}

#[test]
fn capsule_decode_short_buffer() {
    let mut buf = Vec::new();
    Capsule::MaxData(1_000_000).encode(&mut buf).unwrap();
    assert!(Capsule::decode(&buf[..buf.len() - 1]).is_err());
    assert!(Capsule::decode(&[]).is_err());
}

// --- HTTP/3 framing and QPACK ---

#[test]
fn empty_settings_roundtrip() {
    let encoded = encode_settings(&[]).unwrap();
    let (frame, n) = H3Frame::decode(&encoded).unwrap();
    assert_eq!(n, encoded.len());
    assert_eq!(frame.frame_type, frame::H3_FRAME_SETTINGS);
    assert!(frame.payload.is_empty());
    assert_eq!(decode_settings(&frame.payload).unwrap(), vec![]);
}

#[test]
fn header_block_roundtrip_literal_names() {
    let headers = vec![
        (":status", "200"),
        ("wt-protocol", "h3"),
        ("x-custom-header", "some value"),
        ("origin", "https://example.com"),
    ];
    let decoded = decode_header_block(&encode_header_block(&headers)).unwrap();
    let expected: Vec<(String, String)> = headers
        .iter()
        .map(|(n, v)| (n.to_string(), v.to_string()))
        .collect();
    assert_eq!(decoded, expected);
}

#[test]
fn huffman_codes_and_invalid_code() {
    // '0' has the 5-bit code 00000; the three trailing bits are left over.
    assert_eq!(huffman_decode(&[0x00]).unwrap(), b"0".to_vec());
    assert_eq!(huffman_decode(&[]).unwrap(), Vec::<u8>::new());
    // Thirty ones spell EOS, which is not a symbol of a string.
    assert!(matches!(
        huffman_decode(&[0xff, 0xff, 0xff, 0xff]),
        Err(Error::QpackError(_))
    ));
}

// --- WebTransport streams and sessions ---

#[test]
fn stream_header_roundtrip_large_session_id() {
    let session_id = 4 * 1_000_000_000u64;
    let header = encode_stream_header(session_id, StreamType::BiDirectional).unwrap();
    let mut stream = WtStream::new_incoming(8, StreamType::BiDirectional);
    assert_eq!(stream.parse_header(&header).unwrap(), header.len());
    assert!(stream.is_header_complete());
    assert_eq!(stream.session_id, session_id);
}

#[test]
fn datagram_roundtrip_empty_and_long_payloads() {
    let (c, sid) = open_client_session();
    for payload in [Vec::new(), vec![0xabu8; 2000]] {
        let d = c.encode_datagram(sid, &payload).unwrap();
        assert_eq!(c.decode_datagram(&d).unwrap(), (sid, payload));
    }
    assert!(matches!(c.decode_datagram(&[]), Err(Error::BufferTooShort)));
    assert!(matches!(
        c.decode_datagram(&[0x01, 0x00]),
        Err(Error::SessionNotFound(4))
    ));
}

#[test]
fn incoming_close_reported_once() {
    let (mut c, sid) = open_client_session();
    let mut capsule = Vec::new();
    Capsule::CloseSession {
        error_code: 9,
        error_message: "bye".to_string(),
    }
    .encode(&mut capsule)
    .unwrap();
    c.process_stream_data(sid, &data_frame(&capsule), false).unwrap();
    let mut closes = 0;
    while let Some(ev) = c.poll_event() {
        if matches!(ev, Event::SessionClosed { .. }) {
            closes += 1;
        }
    }
    assert_eq!(closes, 1);
    c.process_stream_data(sid, &[], true).unwrap();
    assert!(c.poll_event().is_none());
    assert_eq!(c.session_state(sid), Some(SessionState::Closed));
}

#[test]
fn local_close_then_drain_keeps_session_known() {
    let (mut c, sid) = open_client_session();
    let first = c.close_session(sid, 3, "one").unwrap();
    assert_eq!(first.reset_error_code, frame::WT_SESSION_GONE);
    assert_eq!(c.session_state(sid), Some(SessionState::Closed));
    assert!(matches!(
        c.open_uni_stream(sid),
        Err(Error::SessionClosed)
    ));
    assert!(matches!(
        c.drain_session(999),
        Err(Error::SessionNotFound(999))
    ));
}

#[test]
fn connect_without_peer_settings_is_protocol_violation() {
    let mut c = Connection::new(false, Config::default());
    c.initialize().unwrap();
    assert!(matches!(
        c.connect("example.com", "/", None, &[]),
        Err(Error::ProtocolViolation(_))
    ));
}

#[test]
fn session_limit_reached_error() {
    let (mut c, _) = open_client_session();
    for _ in 0..3 {
        c.connect("example.com", "/more", None, &[]).unwrap();
    }
    assert!(matches!(
        c.connect("example.com", "/over", None, &[]),
        Err(Error::SessionLimitReached)
    ));
}

#[test]
fn reset_unknown_stream_reports_stream_not_found() {
    let (c, _) = open_client_session();
    assert!(matches!(
        c.prepare_reset_stream(77, 1),
        Err(Error::StreamNotFound(77))
    ));
}

#[test]
fn error_messages_name_the_error() {
    assert_eq!(Error::BufferTooShort.message(), "buffer too short");
    assert_eq!(Error::SessionNotFound(3).message(), "session not found: 3");
    assert_eq!(
        Error::StreamNotFound(18446744073709551615).message(),
        "stream not found: 18446744073709551615"
    );
    assert_eq!(
        Error::QpackError("bad index".to_string()).message(),
        "QPACK decoding error: bad index"
    );
    assert_eq!(MoqError::BufferTooShort.message(), "buffer too short");
    assert_eq!(
        MoqError::InvalidValue("odd".to_string()).message(),
        "invalid value: odd"
    );
    assert_eq!(
        MoqError::UnknownMessageType(0x20).message(),
        "unknown message type: 0x20"
    );
    assert_eq!(
        MoqError::DuplicateParameter(0).message(),
        "duplicate parameter type: 0x0"
    );
    assert_eq!(
        MoqError::InvalidFilterType(0xabcdef).message(),
        "invalid filter type: 0xabcdef"
    );
    assert_eq!(
        MoqError::ReasonPhraseTooLong(1025).message(),
        "invalid reason phrase: length 1025 exceeds maximum 1024"
    );
}

#[test]
fn numerals_match_std_formatting() {
    for v in [0u64, 9, 10, 255, 4096, 0xdead_beef, u64::MAX] {
        assert_eq!(format_u64(v), format!("{}", v));
        assert_eq!(format_hex(v), format!("{:#x}", v));
    }
}

// --- MoQ parameters ---

#[test]
fn parameters_written_in_key_order() {
    let mut a = Parameters::new();
    a.add_varint(0x20, 5);
    a.add_varint(0x02, 7);
    let mut b = Parameters::new();
    b.add_varint(0x02, 7);
    b.add_varint(0x20, 5);
    let mut ea = Vec::new();
    a.encode(&mut ea).unwrap();
    let mut eb = Vec::new();
    b.encode(&mut eb).unwrap();
    assert_eq!(ea, eb);
    let mut c = Cursor::new(&ea);
    let decoded = Parameters::decode(&mut c).unwrap();
    let mut again = Vec::new();
    decoded.encode(&mut again).unwrap();
    assert_eq!(again, ea);
}

// --- feeding parsers in parts ---

#[test]
fn capsule_parser_split_anywhere_matches_whole() {
    let mut bytes = Vec::new();
    Capsule::MaxStreamsBidi(300).encode(&mut bytes).unwrap();
    Capsule::CloseSession {
        error_code: 5,
        error_message: "done".to_string(),
    }
    .encode(&mut bytes)
    .unwrap();
    Capsule::DataBlocked(70_000).encode(&mut bytes).unwrap();
    let mut whole = CapsuleParser::new();
    let expected: Vec<Capsule> = whole.feed(&bytes).into_iter().map(|r| r.unwrap()).collect();
    assert_eq!(expected.len(), 3);
    for cut in 0..=bytes.len() {
        let mut p = CapsuleParser::new();
        let mut got: Vec<Capsule> = p.feed(&bytes[..cut]).into_iter().map(|r| r.unwrap()).collect();
        got.extend(p.feed(&bytes[cut..]).into_iter().map(|r| r.unwrap()));
        assert_eq!(got, expected, "split at {cut}");
    }
}

#[test]
fn frame_parser_split_anywhere_matches_whole() {
    let frames = vec![
        H3Frame { frame_type: frame::H3_FRAME_HEADERS, payload: vec![1, 2, 3] },
        H3Frame { frame_type: frame::H3_FRAME_DATA, payload: vec![9; 70] },
    ];
    let mut bytes = Vec::new();
    for f in &frames {
        f.encode(&mut bytes).unwrap();
    }
    for cut in 0..=bytes.len() {
        let mut p = FrameParser::new();
        let mut got: Vec<H3Frame> = p.feed(&bytes[..cut]).into_iter().map(|r| r.unwrap()).collect();
        got.extend(p.feed(&bytes[cut..]).into_iter().map(|r| r.unwrap()));
        assert_eq!(got, frames, "split at {cut}");
    }
}

#[test]
fn stream_header_split_anywhere_reads_session_id() {
    let session_id = 1_000_000u64;
    let header = encode_stream_header(session_id, StreamType::UniDirectional).unwrap();
    for cut in 0..header.len() {
        let mut stream = WtStream::new_incoming(2, StreamType::UniDirectional);
        let first = stream.parse_header(&header[..cut]).unwrap();
        assert_eq!(first, cut);
        assert!(!stream.is_header_complete());
        let second = stream.parse_header(&header[cut..]).unwrap();
        assert_eq!(first + second, header.len());
        assert!(stream.is_header_complete());
        assert_eq!(stream.session_id, session_id);
    }
}

#[test]
fn subscription_filter_set_twice_reads_back() {
    let mut p = Parameters::new();
    let f = SubscriptionFilter::AbsoluteRange {
        start: Location { group: 3, object: 4 },
        end_group: 9,
    };
    p.set_subscription_filter(&SubscriptionFilter::LargestObject).unwrap();
    p.set_subscription_filter(&f).unwrap();
    assert_eq!(p.len(), 1);
    assert_eq!(p.get_subscription_filter().unwrap(), Some(f));
}

#[test]
fn largest_object_set_reads_back() {
    let mut p = Parameters::new();
    let l = Location { group: 70000, object: 2 };
    p.set_largest_object(&l).unwrap();
    assert_eq!(p.get_largest_object().unwrap(), Some(l));
}

#[test]
fn reason_phrase_too_long_leaves_buffer() {
    let mut buf = vec![1u8, 2];
    let r = ReasonPhrase("x".repeat(1025)).encode(&mut buf);
    assert_eq!(r, Err(MoqError::ReasonPhraseTooLong(1025)));
    assert_eq!(buf, vec![1u8, 2]);
}

#[test]
fn failed_read_keeps_cursor_position() {
    let data = [0x40u8];
    let mut c = Cursor::new(&data);
    assert!(c.read_varint().is_err());
    assert_eq!(c.position(), 0);
    assert!(c.read_bytes(2).is_err());
    assert_eq!(c.position(), 0);
}

#[test]
fn every_cut_capsule_is_too_short() {
    let caps = [
        Capsule::CloseSession {
            error_code: 7,
            error_message: "bye".to_string(),
        },
        Capsule::MaxData(1 << 20),
        Capsule::DrainSession,
    ];
    for c in caps {
        let mut buf = Vec::new();
        let n = c.encode(&mut buf).unwrap();
        for k in 0..n {
            assert_eq!(Capsule::decode(&buf[..k]), Err(Error::BufferTooShort));
        }
        assert_eq!(Capsule::decode(&buf), Ok((c.clone(), n)));
    }
}

#[test]
fn control_message_encode_passes_payload_error_on() {
    let cases = vec![
        (vec![KeyValuePair { key: 3, value: KvValue::Varint(1) }], "varint value requires even type"),
        (vec![KeyValuePair { key: 2, value: KvValue::Bytes(vec![1]) }], "bytes value requires odd type"),
        (
            vec![
                KeyValuePair { key: 4, value: KvValue::Varint(1) },
                KeyValuePair { key: 2, value: KvValue::Varint(1) },
            ],
            "key-value types must be non-decreasing",
        ),
        (vec![KeyValuePair { key: 1, value: KvValue::Bytes(vec![0; 65536]) }], "value length exceeds 65535"),
    ];
    for (exts, text) in cases {
        let msg = ControlMessage::SubscribeOk(SubscribeOk {
            request_id: 1,
            track_alias: 2,
            parameters: Parameters::new(),
            track_extensions: exts,
        });
        let mut buf = vec![0xAA];
        let r = encode_control_message(&msg, &mut buf);
        assert_eq!(r, Err(MoqError::KeyValueFormattingError(text.to_string())));
        let mut expected = vec![0xAA];
        encode_varint(&mut expected, MSG_SUBSCRIBE_OK).unwrap();
        assert_eq!(buf, expected);
    }
}
