use moq::webtransport::capsule::{Capsule, CapsuleParser};
use moq::webtransport::config::Config;
use moq::webtransport::error::{
    http3_to_webtransport_error, webtransport_to_http3_error, Error,
};
use moq::webtransport::flow_control::FlowController;
use moq::webtransport::frame;
use moq::webtransport::frame::{WT_APP_ERROR_FIRST, WT_APP_ERROR_LAST};
use moq::webtransport::h3::frame::{
    decode_settings, encode_goaway, encode_settings, FrameParser, H3Frame,
};
use moq::webtransport::h3::qpack::{
    decode_header_block, decode_prefix_int, encode_header_block, encode_prefix_int_into,
    huffman_decode,
};
use moq::webtransport::stream::{
    encode_stream_header, is_bidi, is_client_initiated, StreamType, WtStream,
};
use moq::webtransport::varint;
use moq::webtransport::varint::{decode, encode, VarintDecoder, MAX_VARINT};


fn roundtrip(capsule: &Capsule) {
    let mut buf = Vec::new();
    capsule.encode(&mut buf).unwrap();
    let (decoded, consumed) = Capsule::decode(&buf).unwrap();
    assert_eq!(consumed, buf.len());
    assert_eq!(&decoded, capsule);
}

#[test]
fn close_session_roundtrip() {
    roundtrip(&Capsule::CloseSession {
        error_code: 42,
        error_message: "goodbye".into(),
    });
}

#[test]
fn close_session_empty_message() {
    roundtrip(&Capsule::CloseSession {
        error_code: 0,
        error_message: String::new(),
    });
}

#[test]
fn drain_session_roundtrip() {
    roundtrip(&Capsule::DrainSession);
}

#[test]
fn max_streams_roundtrip() {
    roundtrip(&Capsule::MaxStreamsBidi(100));
    roundtrip(&Capsule::MaxStreamsUni(200));
}

#[test]
fn streams_blocked_roundtrip() {
    roundtrip(&Capsule::StreamsBlockedBidi(50));
    roundtrip(&Capsule::StreamsBlockedUni(75));
}

#[test]
fn max_data_roundtrip() {
    roundtrip(&Capsule::MaxData(1_000_000));
}

#[test]
fn data_blocked_roundtrip() {
    roundtrip(&Capsule::DataBlocked(500_000));
}

#[test]
fn close_message_too_long() {
    let capsule = Capsule::CloseSession {
        error_code: 0,
        error_message: "x".repeat(1025),
    };
    let mut buf = Vec::new();
    assert!(matches!(
        capsule.encode(&mut buf),
        Err(Error::CloseMessageTooLong)
    ));
}

#[test]
fn capsule_incremental_parser() {
    let c1 = Capsule::MaxData(42);
    let c2 = Capsule::DrainSession;

    let mut buf = Vec::new();
    c1.encode(&mut buf).unwrap();
    c2.encode(&mut buf).unwrap();

    let mut parser = CapsuleParser::new();

    // Feed one byte at a time
    let mut all_capsules = Vec::new();
    for &b in &buf {
        let results = parser.feed(&[b]);
        for r in results {
            all_capsules.push(r.unwrap());
        }
    }

    assert_eq!(all_capsules.len(), 2);
    assert_eq!(all_capsules[0], c1);
    assert_eq!(all_capsules[1], c2);
}


#[test]
fn default_settings_include_required() {
    let cfg = Config::default();
    let settings = cfg.h3_settings();

    let has = |id: u64| settings.iter().any(|(k, _)| *k == id);
    assert!(has(frame::SETTINGS_WT_MAX_SESSIONS));
    assert!(has(frame::SETTINGS_ENABLE_CONNECT_PROTOCOL));
    assert!(has(frame::SETTINGS_H3_DATAGRAM));
}

#[test]
fn datagrams_disabled_omits_setting() {
    let cfg = Config {
        enable_datagrams: false,
        ..Config::default()
    };
    let settings = cfg.h3_settings();
    let has_dgram = settings
        .iter()
        .any(|(k, _)| *k == frame::SETTINGS_H3_DATAGRAM);
    assert!(!has_dgram);
}


#[test]
fn error_code_roundtrip() {
    // 0 → first codepoint
    assert_eq!(webtransport_to_http3_error(0), WT_APP_ERROR_FIRST);
    let rt = http3_to_webtransport_error(webtransport_to_http3_error(0));
    assert_eq!(rt, Some(0));

    // max → last codepoint
    assert_eq!(webtransport_to_http3_error(0xFFFF_FFFF), WT_APP_ERROR_LAST);
    let rt = http3_to_webtransport_error(webtransport_to_http3_error(0xFFFF_FFFF));
    assert_eq!(rt, Some(0xFFFF_FFFF));
}

#[test]
fn error_code_roundtrip_samples() {
    for n in [0u32, 1, 29, 30, 31, 100, 1000, 0xFFFF, 0xFFFF_FFFF] {
        let h = webtransport_to_http3_error(n);
        assert!(h >= WT_APP_ERROR_FIRST);
        assert!(h <= WT_APP_ERROR_LAST);
        let back = http3_to_webtransport_error(h);
        assert_eq!(back, Some(n), "roundtrip failed for n={n}");
    }
}

#[test]
fn reserved_codepoints_rejected() {
    // codepoints of form 0x1f * N + 0x21 inside the range should return None
    let greased = 0x1f * 0x2b32c4cf33u64 + 0x21;
    if greased >= WT_APP_ERROR_FIRST && greased <= WT_APP_ERROR_LAST {
        assert_eq!(http3_to_webtransport_error(greased), None);
    }
}

#[test]
fn out_of_range_rejected() {
    assert_eq!(http3_to_webtransport_error(0), None);
    assert_eq!(http3_to_webtransport_error(WT_APP_ERROR_FIRST - 1), None);
    assert_eq!(http3_to_webtransport_error(WT_APP_ERROR_LAST + 1), None);
}


#[test]
fn initial_state_allows_nothing_when_enabled() {
    let fc = FlowController::new(10, 10, 1000);
    assert!(!fc.can_open_bidi());
    assert!(!fc.can_open_uni());
    assert!(!fc.can_send(1));
}

#[test]
fn peer_limits_unlock_operations() {
    let mut fc = FlowController::new(10, 10, 1000);
    fc.apply_peer_max_streams_bidi(5).unwrap();
    fc.apply_peer_max_streams_uni(5).unwrap();
    fc.apply_peer_max_data(500).unwrap();

    assert!(fc.can_open_bidi());
    assert!(fc.can_open_uni());
    assert!(fc.can_send(500));
    assert!(!fc.can_send(501));
}

#[test]
fn stream_limit_enforced() {
    let mut fc = FlowController::new(10, 10, 1000);
    fc.apply_peer_max_streams_bidi(2).unwrap();

    assert!(fc.can_open_bidi());
    fc.on_stream_opened_local(true);
    assert!(fc.can_open_bidi());
    fc.on_stream_opened_local(true);
    assert!(!fc.can_open_bidi());
}

#[test]
fn decreasing_max_streams_rejected() {
    let mut fc = FlowController::new(10, 10, 1000);
    fc.apply_peer_max_streams_bidi(10).unwrap();
    assert!(fc.apply_peer_max_streams_bidi(5).is_err());
}

#[test]
fn decreasing_max_data_rejected() {
    let mut fc = FlowController::new(10, 10, 1000);
    fc.apply_peer_max_data(1000).unwrap();
    assert!(fc.apply_peer_max_data(500).is_err());
}

#[test]
fn disabled_flow_control_allows_everything() {
    let fc = FlowController::new(0, 0, 0);
    assert!(!fc.is_enabled());
    assert!(fc.can_open_bidi());
    assert!(fc.can_open_uni());
    assert!(fc.can_send(u64::MAX));
}


#[test]
fn roundtrip_small() {
    let mut buf = [0u8; 8];
    for v in 0..=63u64 {
        let n = encode(v, &mut buf).unwrap();
        assert_eq!(n, 1);
        let (decoded, consumed) = decode(&buf[..n]).unwrap();
        assert_eq!(decoded, v);
        assert_eq!(consumed, 1);
    }
}

#[test]
fn roundtrip_two_byte() {
    let mut buf = [0u8; 8];
    for &v in &[64, 100, 16383] {
        let n = encode(v, &mut buf).unwrap();
        assert_eq!(n, 2);
        let (decoded, consumed) = decode(&buf[..n]).unwrap();
        assert_eq!(decoded, v);
        assert_eq!(consumed, 2);
    }
}

#[test]
fn roundtrip_four_byte() {
    let mut buf = [0u8; 8];
    let v = 1_073_741_823u64;
    let n = encode(v, &mut buf).unwrap();
    assert_eq!(n, 4);
    let (decoded, consumed) = decode(&buf[..n]).unwrap();
    assert_eq!(decoded, v);
    assert_eq!(consumed, 4);
}

#[test]
fn roundtrip_eight_byte() {
    let mut buf = [0u8; 8];
    let v = MAX_VARINT;
    let n = encode(v, &mut buf).unwrap();
    assert_eq!(n, 8);
    let (decoded, consumed) = decode(&buf[..n]).unwrap();
    assert_eq!(decoded, v);
    assert_eq!(consumed, 8);
}

#[test]
fn incremental_decoder() {
    let mut buf = [0u8; 8];
    let v = 16384u64;
    let n = encode(v, &mut buf).unwrap();
    let mut dec = VarintDecoder::new();
    for &b in &buf[..n - 1] {
        assert!(dec.feed(b).is_none());
    }
    let (val, len) = dec.feed(buf[n - 1]).unwrap();
    assert_eq!(val, v);
    assert_eq!(len, n);
}

#[test]
fn overflow_rejected() {
    assert!(matches!(
        encode(MAX_VARINT + 1, &mut [0u8; 8]),
        Err(Error::VarintOverflow)
    ));
}

#[test]
fn short_buffer() {
    assert!(matches!(decode(&[]), Err(Error::BufferTooShort)));
    assert!(matches!(decode(&[0x40]), Err(Error::BufferTooShort)));
}

#[test]
fn rfc_test_vectors() {
    // Known encodings of four values
    let (v, n) = decode(&[0xc2, 0x19, 0x7c, 0x5e, 0xff, 0x14, 0xe8, 0x8c]).unwrap();
    assert_eq!(v, 151_288_809_941_952_652);
    assert_eq!(n, 8);

    let (v, n) = decode(&[0x9d, 0x7f, 0x3e, 0x7d]).unwrap();
    assert_eq!(v, 494_878_333);
    assert_eq!(n, 4);

    let (v, n) = decode(&[0x7b, 0xbd]).unwrap();
    assert_eq!(v, 15293);
    assert_eq!(n, 2);

    let (v, n) = decode(&[0x25]).unwrap();
    assert_eq!(v, 37);
    assert_eq!(n, 1);
}


#[test]
fn settings_roundtrip() {
    let settings = vec![(0x01, 4096), (0x06, 8192), (0x33, 1)];
    let encoded = encode_settings(&settings).unwrap();

    let (frame, consumed) = H3Frame::decode(&encoded).unwrap();
    assert_eq!(consumed, encoded.len());
    assert_eq!(frame.frame_type, frame::H3_FRAME_SETTINGS);

    let decoded = decode_settings(&frame.payload).unwrap();
    assert_eq!(decoded, settings);
}

#[test]
fn frame_roundtrip() {
    let frame = H3Frame {
        frame_type: 0x01,
        payload: vec![1, 2, 3, 4, 5],
    };
    let mut buf = Vec::new();
    frame.encode(&mut buf).unwrap();

    let (decoded, consumed) = H3Frame::decode(&buf).unwrap();
    assert_eq!(consumed, buf.len());
    assert_eq!(decoded, frame);
}

#[test]
fn goaway_encode() {
    let encoded = encode_goaway(4).unwrap();
    let (frame, _) = H3Frame::decode(&encoded).unwrap();
    assert_eq!(frame.frame_type, frame::H3_FRAME_GOAWAY);
    let (stream_id, _) = varint::decode(&frame.payload).unwrap();
    assert_eq!(stream_id, 4);
}

#[test]
fn frame_incremental_parser() {
    let f1 = H3Frame {
        frame_type: 0x04,
        payload: vec![0x33, 0x01],
    };
    let f2 = H3Frame {
        frame_type: 0x00,
        payload: vec![10, 20, 30],
    };

    let mut buf = Vec::new();
    f1.encode(&mut buf).unwrap();
    f2.encode(&mut buf).unwrap();

    let mut parser = FrameParser::new();
    let mut frames = Vec::new();
    for &b in &buf {
        for r in parser.feed(&[b]) {
            frames.push(r.unwrap());
        }
    }

    assert_eq!(frames.len(), 2);
    assert_eq!(frames[0], f1);
    assert_eq!(frames[1], f2);
}


#[test]
fn encode_decode_roundtrip() {
    let headers = vec![
        (":method", "CONNECT"),
        (":protocol", "webtransport"),
        (":scheme", "https"),
        (":authority", "example.com"),
        (":path", "/wt"),
    ];

    let encoded = encode_header_block(&headers);
    let decoded = decode_header_block(&encoded).unwrap();

    assert_eq!(decoded.len(), headers.len());
    for (i, (name, value)) in decoded.iter().enumerate() {
        assert_eq!(name, headers[i].0);
        assert_eq!(value, headers[i].1);
    }
}

#[test]
fn prefix_int_roundtrip() {
    let mut buf = Vec::new();
    for &val in &[0u64, 1, 30, 31, 127, 128, 1000, 65535] {
        buf.clear();
        encode_prefix_int_into(&mut buf, val, 5, 0x00);
        let (decoded, _) = decode_prefix_int(&buf, 5).unwrap();
        assert_eq!(decoded, val, "roundtrip failed for {val}");
    }
}

#[test]
fn static_table_indexed() {
    // Encode manually: indexed field line for :method=CONNECT (index 15)
    // 1 1 001111 = 0xCF
    let data = vec![0x00, 0x00, 0xcf];
    let headers = decode_header_block(&data).unwrap();
    assert_eq!(headers.len(), 1);
    assert_eq!(headers[0].0, ":method");
    assert_eq!(headers[0].1, "CONNECT");
}

#[test]
fn huffman_decode_basic() {
    // Huffman encoding of "www.example.com"
    let huffman_bytes = [
        0xf1, 0xe3, 0xc2, 0xe5, 0xf2, 0x3a, 0x6b, 0xa0, 0xab, 0x90, 0xf4, 0xff,
    ];
    let decoded = huffman_decode(&huffman_bytes).unwrap();
    assert_eq!(String::from_utf8(decoded).unwrap(), "www.example.com");
}


#[test]
fn encode_then_parse_uni() {
    let session_id = 42u64;
    let header = encode_stream_header(session_id, StreamType::UniDirectional).unwrap();

    let mut stream = WtStream::new_incoming(6, StreamType::UniDirectional);
    let consumed = stream.parse_header(&header).unwrap();
    assert_eq!(consumed, header.len());
    assert!(stream.is_header_complete());
    assert_eq!(stream.session_id, session_id);
}

#[test]
fn encode_then_parse_bidi() {
    let session_id = 0u64;
    let header = encode_stream_header(session_id, StreamType::BiDirectional).unwrap();

    let mut stream = WtStream::new_incoming(4, StreamType::BiDirectional);
    let consumed = stream.parse_header(&header).unwrap();
    assert_eq!(consumed, header.len());
    assert!(stream.is_header_complete());
    assert_eq!(stream.session_id, session_id);
}

#[test]
fn incremental_parsing() {
    let session_id = 16384u64;
    let header = encode_stream_header(session_id, StreamType::UniDirectional).unwrap();

    let mut stream = WtStream::new_incoming(6, StreamType::UniDirectional);
    let mut total = 0;
    for &b in &header {
        total += stream.parse_header(&[b]).unwrap();
        if stream.is_header_complete() {
            break;
        }
    }
    assert_eq!(total, header.len());
    assert_eq!(stream.session_id, session_id);
}

#[test]
fn wrong_signal_rejected() {
    // Feed the varint-encoded bidi signal (value 0x41 = 65) to a uni stream.
    // 0x41 as a QUIC varint is 2 bytes: [0x40, 0x41] (top bits 01 = 2-byte).
    let mut stream = WtStream::new_incoming(6, StreamType::UniDirectional);
    let result = stream.parse_header(&[0x40, 0x41]);
    assert!(result.is_err());
}

#[test]
fn stream_id_classification() {
    assert!(is_client_initiated(0));
    assert!(is_client_initiated(4));
    assert!(!is_client_initiated(1));
    assert!(!is_client_initiated(3));

    assert!(is_bidi(0));
    assert!(is_bidi(1));
    assert!(!is_bidi(2));
    assert!(!is_bidi(3));
}

