use moq::webtransport::capsule::Capsule;
use moq::webtransport::config::Config;
use moq::webtransport::connection::{Connection, Event};
use moq::webtransport::frame;
use moq::webtransport::h3::frame as h3frame;
use moq::webtransport::h3::qpack;
use moq::webtransport::h3::PeerSettings;
use moq::webtransport::session::SessionState;
use moq::webtransport::stream;
use moq::webtransport::stream::StreamType;
use moq::webtransport::varint;


fn client_conn() -> Connection {
    Connection::new(false, Config::default())
}

fn server_conn() -> Connection {
    Connection::new(true, Config::default())
}

fn wt_settings() -> Vec<(u64, u64)> {
    vec![
        (frame::SETTINGS_WT_MAX_SESSIONS, 1),
        (frame::SETTINGS_ENABLE_CONNECT_PROTOCOL, 1),
        (frame::SETTINGS_H3_DATAGRAM, 1),
        (frame::SETTINGS_WT_INITIAL_MAX_STREAMS_UNI, 100),
        (frame::SETTINGS_WT_INITIAL_MAX_STREAMS_BIDI, 100),
        (frame::SETTINGS_WT_INITIAL_MAX_DATA, 1_048_576),
    ]
}

fn control_stream_data(settings: &[(u64, u64)]) -> Vec<u8> {
    let mut buf = Vec::new();
    let mut tmp = [0u8; 8];
    let n = varint::encode(frame::H3_STREAM_TYPE_CONTROL, &mut tmp).unwrap();
    buf.extend_from_slice(&tmp[..n]);
    buf.extend_from_slice(&h3frame::encode_settings(settings).unwrap());
    buf
}

fn connect_request_frame(authority: &str, path: &str) -> Vec<u8> {
    let headers = vec![
        (":method", "CONNECT"),
        (":protocol", "webtransport"),
        (":scheme", "https"),
        (":authority", authority),
        (":path", path),
    ];
    let block = qpack::encode_header_block(&headers);
    let frame = h3frame::H3Frame {
        frame_type: frame::H3_FRAME_HEADERS,
        payload: block,
    };
    let mut buf = Vec::new();
    frame.encode(&mut buf).unwrap();
    buf
}

fn response_frame(status: u16) -> Vec<u8> {
    let s = status.to_string();
    let headers = vec![(":status", s.as_str())];
    let block = qpack::encode_header_block(&headers);
    let frame = h3frame::H3Frame {
        frame_type: frame::H3_FRAME_HEADERS,
        payload: block,
    };
    let mut buf = Vec::new();
    frame.encode(&mut buf).unwrap();
    buf
}

fn h3_data_frame(payload: &[u8]) -> Vec<u8> {
    let frame = h3frame::H3Frame {
        frame_type: frame::H3_FRAME_DATA,
        payload: payload.to_vec(),
    };
    let mut buf = Vec::new();
    frame.encode(&mut buf).unwrap();
    buf
}

fn established_server() -> (Connection, u64) {
    let mut s = server_conn();
    s.initialize().unwrap();
    let ctrl = control_stream_data(&wt_settings());
    s.process_stream_data(2, &ctrl, false).unwrap();
    let req = connect_request_frame("example.com", "/wt");
    s.process_stream_data(0, &req, false).unwrap();
    while s.poll_event().is_some() {}
    s.accept_session(0, &[]).unwrap();
    (s, 0)
}

fn feed_peer_settings(c: &mut Connection, stream_id: u64) {
    let ctrl = control_stream_data(&wt_settings());
    c.process_stream_data(stream_id, &ctrl, false).unwrap();
}

fn established_client() -> (Connection, u64) {
    let mut c = client_conn();
    c.initialize().unwrap();
    feed_peer_settings(&mut c, 3);
    let (sid, _) = c.connect("example.com", "/wt", None, &[]).unwrap();
    let resp = response_frame(200);
    c.process_stream_data(sid, &resp, false).unwrap();
    while c.poll_event().is_some() {}
    (c, sid)
}

// === Initialization ===

#[test]
fn init_client_produces_three_uni_streams() {
    let mut c = client_conn();
    let sends = c.initialize().unwrap();
    assert_eq!(sends.len(), 3);
    assert_eq!(sends[0].0, 2);
    assert_eq!(sends[1].0, 6);
    assert_eq!(sends[2].0, 10);
}

#[test]
fn init_server_produces_three_uni_streams() {
    let mut s = server_conn();
    let sends = s.initialize().unwrap();
    assert_eq!(sends.len(), 3);
    assert_eq!(sends[0].0, 3);
    assert_eq!(sends[1].0, 7);
    assert_eq!(sends[2].0, 11);
}

#[test]
fn init_idempotent() {
    let mut c = client_conn();
    c.initialize().unwrap();
    assert!(c.initialize().unwrap().is_empty());
}

// === Client Connect ===

#[test]
fn client_connect_allocates_first_bidi_stream() {
    let mut c = client_conn();
    c.initialize().unwrap();
    feed_peer_settings(&mut c, 3);
    let (sid, data) = c.connect("example.com", "/wt", None, &[]).unwrap();
    assert_eq!(sid, 0);
    assert!(!data.is_empty());
}

#[test]
fn client_connect_session_starts_connecting() {
    let mut c = client_conn();
    c.initialize().unwrap();
    feed_peer_settings(&mut c, 3);
    let (sid, _) = c.connect("example.com", "/wt", None, &[]).unwrap();
    assert_eq!(c.session_state(sid), Some(SessionState::Connecting));
}

#[test]
fn client_multiple_sessions_get_distinct_ids() {
    let mut c = client_conn();
    c.initialize().unwrap();
    let settings = vec![
        (frame::SETTINGS_WT_MAX_SESSIONS, 10),
        (frame::SETTINGS_ENABLE_CONNECT_PROTOCOL, 1),
        (frame::SETTINGS_H3_DATAGRAM, 1),
        (frame::SETTINGS_WT_INITIAL_MAX_STREAMS_UNI, 100),
        (frame::SETTINGS_WT_INITIAL_MAX_STREAMS_BIDI, 100),
        (frame::SETTINGS_WT_INITIAL_MAX_DATA, 1_048_576),
    ];
    let ctrl = control_stream_data(&settings);
    c.process_stream_data(3, &ctrl, false).unwrap();
    let (s1, _) = c.connect("a.com", "/1", None, &[]).unwrap();
    let (s2, _) = c.connect("b.com", "/2", None, &[]).unwrap();
    assert_ne!(s1, s2);
}

// === Server Accept / Reject ===

#[test]
fn server_accept_transitions_to_established() {
    let (s, sid) = established_server();
    assert_eq!(s.session_state(sid), Some(SessionState::Established));
}

#[test]
fn server_accept_unknown_session_errors() {
    let mut s = server_conn();
    s.initialize().unwrap();
    assert!(s.accept_session(999, &[]).is_err());
}

#[test]
fn server_accept_already_established_errors() {
    let (mut s, sid) = established_server();
    assert!(s.accept_session(sid, &[]).is_err());
}

#[test]
fn server_reject_closes_session() {
    let mut s = server_conn();
    s.initialize().unwrap();
    let ctrl = control_stream_data(&wt_settings());
    s.process_stream_data(2, &ctrl, false).unwrap();
    let req = connect_request_frame("example.com", "/wt");
    s.process_stream_data(0, &req, false).unwrap();
    while s.poll_event().is_some() {}
    s.reject_session(0, 403).unwrap();
    assert_eq!(s.session_state(0), Some(SessionState::Closed));
}

// === Stream Operations ===

#[test]
fn open_uni_on_established_session() {
    let (mut s, sid) = established_server();
    let (_, header) = s.open_uni_stream(sid).unwrap();
    assert!(!header.is_empty());
}

#[test]
fn open_bidi_on_established_session() {
    let (mut s, sid) = established_server();
    assert!(s.open_bidi_stream(sid).is_ok());
}

#[test]
fn open_stream_unknown_session_errors() {
    let (mut s, _) = established_server();
    assert!(s.open_uni_stream(999).is_err());
    assert!(s.open_bidi_stream(999).is_err());
}

#[test]
fn open_stream_on_closed_session_errors() {
    let (mut s, sid) = established_server();
    s.close_session(sid, 0, "done").unwrap();
    assert!(s.open_uni_stream(sid).is_err());
}

#[test]
fn flow_control_blocks_excess_uni_streams() {
    let mut s = server_conn();
    s.initialize().unwrap();
    let settings = vec![
        (frame::SETTINGS_WT_MAX_SESSIONS, 1),
        (frame::SETTINGS_ENABLE_CONNECT_PROTOCOL, 1),
        (frame::SETTINGS_H3_DATAGRAM, 1),
        (frame::SETTINGS_WT_INITIAL_MAX_STREAMS_UNI, 1),
        (frame::SETTINGS_WT_INITIAL_MAX_STREAMS_BIDI, 100),
        (frame::SETTINGS_WT_INITIAL_MAX_DATA, 1_048_576),
    ];
    let ctrl = control_stream_data(&settings);
    s.process_stream_data(2, &ctrl, false).unwrap();
    let req = connect_request_frame("example.com", "/wt");
    s.process_stream_data(0, &req, false).unwrap();
    while s.poll_event().is_some() {}
    s.accept_session(0, &[]).unwrap();

    assert!(s.open_uni_stream(0).is_ok());
    assert!(s.open_uni_stream(0).is_err());
}

#[test]
fn check_send_respects_data_limit() {
    let (mut s, sid) = established_server();
    s.register_outgoing_stream(100, sid, StreamType::UniDirectional);
    assert!(s.check_send(100, 1_048_576).is_ok());
    s.on_data_sent(100, 1_048_576);
    assert!(s.check_send(100, 1).is_err());
}

// === Datagrams ===

#[test]
fn datagram_encode_decode_roundtrip() {
    let (s, sid) = established_server();
    let encoded = s.encode_datagram(sid, b"hello").unwrap();
    let (decoded_sid, payload) = s.decode_datagram(&encoded).unwrap();
    assert_eq!(decoded_sid, sid);
    assert_eq!(payload, b"hello");
}

#[test]
fn datagram_unknown_session_errors() {
    let (s, _) = established_server();
    assert!(s.encode_datagram(999, b"x").is_err());
}

// === Session Termination ===

#[test]
fn close_session_produces_h3_data_and_closes() {
    let (mut s, sid) = established_server();
    let result = s.close_session(sid, 42, "bye").unwrap();
    assert!(!result.capsule_data.is_empty());
    assert_eq!(s.session_state(sid), Some(SessionState::Closed));
}

#[test]
fn drain_session_transitions_to_draining() {
    let (mut s, sid) = established_server();
    let data = s.drain_session(sid).unwrap();
    assert!(!data.is_empty());
    assert_eq!(s.session_state(sid), Some(SessionState::Draining));
}

#[test]
fn close_unknown_session_errors() {
    let (mut s, _) = established_server();
    assert!(s.close_session(999, 0, "").is_err());
}

#[test]
fn session_stream_ids_tracks_registered_streams() {
    let (mut s, sid) = established_server();
    assert!(s.session_stream_ids(sid).is_empty());
    s.register_outgoing_stream(100, sid, StreamType::UniDirectional);
    s.register_outgoing_stream(104, sid, StreamType::BiDirectional);
    let ids = s.session_stream_ids(sid);
    assert_eq!(ids.len(), 2);
    assert!(ids.contains(&100));
    assert!(ids.contains(&104));
}

// === H3 Event Processing ===

#[test]
fn server_receives_connect_request_event() {
    let mut s = server_conn();
    s.initialize().unwrap();
    let ctrl = control_stream_data(&wt_settings());
    s.process_stream_data(2, &ctrl, false).unwrap();
    let req = connect_request_frame("example.com", "/wt");
    s.process_stream_data(0, &req, false).unwrap();

    match s.poll_event() {
        Some(Event::SessionRequest {
            session_id,
            authority,
            path,
            ..
        }) => {
            assert_eq!(session_id, 0);
            assert_eq!(authority, "example.com");
            assert_eq!(path, "/wt");
        }
        other => panic!("expected SessionRequest, got {other:?}"),
    }
}

#[test]
fn client_receives_200_establishes_session() {
    let mut c = client_conn();
    c.initialize().unwrap();
    feed_peer_settings(&mut c, 3);
    let (sid, _) = c.connect("example.com", "/wt", None, &[]).unwrap();
    let resp = response_frame(200);
    c.process_stream_data(sid, &resp, false).unwrap();

    assert_eq!(c.session_state(sid), Some(SessionState::Established));
    match c.poll_event() {
        Some(Event::SessionEstablished(id)) => assert_eq!(id, sid),
        other => panic!("expected SessionEstablished, got {other:?}"),
    }
}

#[test]
fn client_receives_rejection_closes_session() {
    let mut c = client_conn();
    c.initialize().unwrap();
    feed_peer_settings(&mut c, 3);
    let (sid, _) = c.connect("example.com", "/wt", None, &[]).unwrap();
    let resp = response_frame(403);
    c.process_stream_data(sid, &resp, false).unwrap();

    assert_eq!(c.session_state(sid), Some(SessionState::Closed));
}

// === Incoming WT Streams ===

#[test]
fn incoming_wt_uni_stream_emits_event() {
    let (mut s, sid) = established_server();
    let mut data = stream::encode_stream_header(sid, StreamType::UniDirectional).unwrap();
    data.extend_from_slice(b"payload");
    // client-initiated uni stream 14 (after 2, 6, 10 used for control/qpack)
    s.process_stream_data(14, &data, false).unwrap();

    match s.poll_event() {
        Some(Event::UniStreamReceived {
            session_id,
            stream_id,
        }) => {
            assert_eq!(session_id, sid);
            assert_eq!(stream_id, 14);
        }
        other => panic!("expected UniStreamReceived, got {other:?}"),
    }
}

#[test]
fn incoming_wt_bidi_stream_emits_event() {
    let (mut s, sid) = established_server();
    let mut data = stream::encode_stream_header(sid, StreamType::BiDirectional).unwrap();
    data.extend_from_slice(b"payload");
    // client-initiated bidi stream 4 (after 0 used for CONNECT)
    s.process_stream_data(4, &data, false).unwrap();

    match s.poll_event() {
        Some(Event::BidiStreamReceived {
            session_id,
            stream_id,
        }) => {
            assert_eq!(session_id, sid);
            assert_eq!(stream_id, 4);
        }
        other => panic!("expected BidiStreamReceived, got {other:?}"),
    }
}

// === Incoming Datagrams ===

#[test]
fn incoming_datagram_emits_event() {
    let (mut s, sid) = established_server();
    let encoded = s.encode_datagram(sid, b"dgram").unwrap();
    s.process_datagram(&encoded).unwrap();

    match s.poll_event() {
        Some(Event::Datagram {
            session_id,
            payload,
        }) => {
            assert_eq!(session_id, sid);
            assert_eq!(payload, b"dgram");
        }
        other => panic!("expected Datagram, got {other:?}"),
    }
}

// === Capsule Processing ===

#[test]
fn incoming_close_capsule_closes_session() {
    let (mut c, sid) = established_client();
    let capsule = Capsule::CloseSession {
        error_code: 42,
        error_message: "goodbye".into(),
    };
    let mut capsule_bytes = Vec::new();
    capsule.encode(&mut capsule_bytes).unwrap();
    let frame_data = h3_data_frame(&capsule_bytes);
    c.process_stream_data(sid, &frame_data, false).unwrap();

    assert_eq!(c.session_state(sid), Some(SessionState::Closed));
    match c.poll_event() {
        Some(Event::SessionClosed {
            session_id,
            error_code,
            reason,
        }) => {
            assert_eq!(session_id, sid);
            assert_eq!(error_code, 42);
            assert_eq!(reason, "goodbye");
        }
        other => panic!("expected SessionClosed, got {other:?}"),
    }
}

#[test]
fn incoming_drain_capsule_transitions_session() {
    let (mut c, sid) = established_client();
    let capsule = Capsule::DrainSession;
    let mut capsule_bytes = Vec::new();
    capsule.encode(&mut capsule_bytes).unwrap();
    let frame_data = h3_data_frame(&capsule_bytes);
    c.process_stream_data(sid, &frame_data, false).unwrap();

    assert_eq!(c.session_state(sid), Some(SessionState::Draining));
    match c.poll_event() {
        Some(Event::SessionDraining(id)) => assert_eq!(id, sid),
        other => panic!("expected SessionDraining, got {other:?}"),
    }
}

#[test]
fn incoming_max_streams_capsule_updates_limit() {
    let (mut c, sid) = established_client();
    let capsule = Capsule::MaxStreamsBidi(200);
    let mut capsule_bytes = Vec::new();
    capsule.encode(&mut capsule_bytes).unwrap();
    let frame_data = h3_data_frame(&capsule_bytes);
    c.process_stream_data(sid, &frame_data, false).unwrap();

    // initial peer limit was 100, now 200 — 101st open should succeed
    for _ in 0..101 {
        assert!(c.open_bidi_stream(sid).is_ok());
    }
}

// === State Queries ===

#[test]
fn session_state_none_for_unknown() {
    let c = client_conn();
    assert_eq!(c.session_state(999), None);
}

#[test]
fn peer_supports_wt_after_settings() {
    let mut c = client_conn();
    c.initialize().unwrap();
    assert!(!c.peer_supports_webtransport());

    let ctrl = control_stream_data(&wt_settings());
    c.process_stream_data(3, &ctrl, false).unwrap();
    assert!(c.peer_supports_webtransport());
}

// === CONNECT Stream FIN ===

#[test]
fn connect_stream_fin_closes_session() {
    let (mut c, sid) = established_client();
    c.process_stream_data(sid, &[], true).unwrap();
    assert_eq!(c.session_state(sid), Some(SessionState::Closed));
}

// === GoAway ===

#[test]
fn goaway_emits_event() {
    let (mut c, _sid) = established_client();
    let goaway = h3frame::encode_goaway(0).unwrap();
    c.process_stream_data(3, &goaway, false).unwrap();
    match c.poll_event() {
        Some(Event::GoAway) => {}
        other => panic!("expected GoAway, got {other:?}"),
    }
}

// ===================================================================
// ===================================================================

// === SETTINGS Gate ===

#[test]
fn rfc_client_connect_before_settings_errors() {
    let mut c = client_conn();
    c.initialize().unwrap();
    // "any WebTransport endpoint MUST wait for the peer's SETTINGS
    // frame before sending or processing any WebTransport traffic."
    assert!(c.connect("example.com", "/wt", None, &[]).is_err());
}

#[test]
fn rfc_server_defers_connect_before_client_settings() {
    let mut s = server_conn();
    s.initialize().unwrap();
    // CONNECT arrives before peer SETTINGS
    let req = connect_request_frame("example.com", "/wt");
    s.process_stream_data(0, &req, false).unwrap();

    // server MUST NOT process WT requests until client SETTINGS received
    assert_eq!(s.session_state(0), None);
    assert!(s.poll_event().is_none());

    // After client SETTINGS arrive, deferred CONNECT is processed
    let ctrl = control_stream_data(&wt_settings());
    s.process_stream_data(2, &ctrl, false).unwrap();
    match s.poll_event() {
        Some(Event::SessionRequest { session_id: 0, .. }) => {}
        other => panic!("expected deferred SessionRequest, got {other:?}"),
    }
}

// === Session ID Validation ===

#[test]
fn rfc_invalid_session_id_server_initiated_bidi() {
    let (mut s, _) = established_server();
    // session_id=1 → server-initiated bidi (1 % 4 = 1), not valid
    // "MUST close the connection with an H3_ID_ERROR"
    let mut data = Vec::new();
    let mut tmp = [0u8; 8];
    let n = varint::encode(frame::WT_UNI_STREAM_TYPE, &mut tmp).unwrap();
    data.extend_from_slice(&tmp[..n]);
    let n = varint::encode(1u64, &mut tmp).unwrap();
    data.extend_from_slice(&tmp[..n]);
    data.extend_from_slice(b"payload");
    assert!(s.process_stream_data(14, &data, false).is_err());
}

#[test]
fn rfc_invalid_session_id_uni_stream() {
    let (mut s, _) = established_server();
    // session_id=2 → client-initiated uni (2 % 4 = 2), not valid
    let mut data = Vec::new();
    let mut tmp = [0u8; 8];
    let n = varint::encode(frame::WT_UNI_STREAM_TYPE, &mut tmp).unwrap();
    data.extend_from_slice(&tmp[..n]);
    let n = varint::encode(2u64, &mut tmp).unwrap();
    data.extend_from_slice(&tmp[..n]);
    data.extend_from_slice(b"payload");
    assert!(s.process_stream_data(14, &data, false).is_err());
}

// === Session Termination ===

#[test]
fn rfc_encode_datagram_after_close_errors() {
    let (mut s, sid) = established_server();
    s.close_session(sid, 0, "bye").unwrap();
    // "MUST NOT send any new datagrams" after session terminated
    assert!(s.encode_datagram(sid, b"data").is_err());
}

#[test]
fn rfc_connect_data_after_close_capsule_errors() {
    let (mut c, sid) = established_client();
    // Receive CLOSE_SESSION capsule from server
    let capsule = Capsule::CloseSession {
        error_code: 0,
        error_message: String::new(),
    };
    let mut capsule_bytes = Vec::new();
    capsule.encode(&mut capsule_bytes).unwrap();
    c.process_stream_data(sid, &h3_data_frame(&capsule_bytes), false)
        .unwrap();
    while c.poll_event().is_some() {}

    // "If any additional stream data is received on the CONNECT stream
    // after receiving a WT_CLOSE_SESSION capsule, the stream MUST be reset
    // with code H3_MESSAGE_ERROR."
    let extra = h3_data_frame(b"extra");
    assert!(c.process_stream_data(sid, &extra, false).is_err());
}

// === Session Count Enforcement ===

#[test]
fn rfc_client_connect_exceeds_max_sessions() {
    let mut c = client_conn();
    c.initialize().unwrap();
    // Peer allows max 1 session via SETTINGS
    let settings = vec![
        (frame::SETTINGS_WT_MAX_SESSIONS, 1),
        (frame::SETTINGS_ENABLE_CONNECT_PROTOCOL, 1),
        (frame::SETTINGS_H3_DATAGRAM, 1),
        (frame::SETTINGS_WT_INITIAL_MAX_STREAMS_UNI, 100),
        (frame::SETTINGS_WT_INITIAL_MAX_STREAMS_BIDI, 100),
        (frame::SETTINGS_WT_INITIAL_MAX_DATA, 1_048_576),
    ];
    let ctrl = control_stream_data(&settings);
    c.process_stream_data(3, &ctrl, false).unwrap();

    // "client MUST NOT open more simultaneous sessions than indicated"
    assert!(c.connect("a.com", "/1", None, &[]).is_ok());
    assert!(c.connect("b.com", "/2", None, &[]).is_err());
}

// === Single Session When Flow Control Disabled ===

#[test]
fn rfc_only_one_session_when_fc_disabled() {
    let cfg = Config {
        initial_max_streams_uni: 0,
        initial_max_streams_bidi: 0,
        initial_max_data: 0,
        ..Config::default()
    };
    let mut c = Connection::new(false, cfg);
    c.initialize().unwrap();
    // Server allows 10 sessions, but has no FC limits → FC disabled
    let settings = vec![
        (frame::SETTINGS_WT_MAX_SESSIONS, 10),
        (frame::SETTINGS_ENABLE_CONNECT_PROTOCOL, 1),
        (frame::SETTINGS_H3_DATAGRAM, 1),
    ];
    let ctrl = control_stream_data(&settings);
    c.process_stream_data(3, &ctrl, false).unwrap();

    // "clients MUST NOT attempt to establish more than one session"
    assert!(c.connect("a.com", "/1", None, &[]).is_ok());
    assert!(c.connect("b.com", "/2", None, &[]).is_err());
}

// ===================================================================
// RESET_STREAM_AT
// ===================================================================

#[test]
fn rfc_reset_stream_returns_header_size_as_reliable_size() {
    let (mut s, sid) = established_server();
    let (_, header) = s.open_uni_stream(sid).unwrap();
    let quic_stream_id = 100;
    s.register_outgoing_stream(quic_stream_id, sid, StreamType::UniDirectional);
    let info = s.prepare_reset_stream(quic_stream_id, 0).unwrap();
    assert_eq!(
        info.h3_error_code,
        moq::webtransport::error::webtransport_to_http3_error(0)
    );
    assert!(info.min_reliable_size <= header.len() as u64);
}

#[test]
fn rfc_reset_stream_maps_app_error_to_h3() {
    let (mut s, sid) = established_server();
    let quic_stream_id = 100;
    s.register_outgoing_stream(quic_stream_id, sid, StreamType::UniDirectional);
    let info = s.prepare_reset_stream(quic_stream_id, 42).unwrap();
    assert_eq!(
        info.h3_error_code,
        moq::webtransport::error::webtransport_to_http3_error(42)
    );
}

#[test]
fn rfc_reset_unknown_stream_errors() {
    let (s, _) = established_server();
    assert!(s.prepare_reset_stream(999, 0).is_err());
}

// ===================================================================
// Priority
// ===================================================================

#[test]
fn rfc_encode_priority_update_for_session() {
    let (c, sid) = established_client();
    let data = c.encode_priority_update(sid, "u=3, i").unwrap();
    assert!(!data.is_empty());
}

#[test]
fn rfc_priority_update_unknown_session_errors() {
    let (c, _) = established_client();
    assert!(c.encode_priority_update(999, "u=3").is_err());
}

// ===================================================================
// 0-RTT
// ===================================================================

#[test]
fn rfc_0rtt_server_rejects_reduced_max_sessions() {
    let mut s = server_conn();
    s.initialize().unwrap();
    s.set_0rtt_settings(PeerSettings {
        wt_max_sessions: Some(5),
        ..PeerSettings::default()
    });
    let settings = vec![
        (frame::SETTINGS_WT_MAX_SESSIONS, 2),
        (frame::SETTINGS_ENABLE_CONNECT_PROTOCOL, 1),
        (frame::SETTINGS_H3_DATAGRAM, 1),
    ];
    let ctrl = control_stream_data(&settings);
    assert!(s.process_stream_data(2, &ctrl, false).is_err());
}

#[test]
fn rfc_0rtt_server_rejects_reduced_fc_limits() {
    let mut s = server_conn();
    s.initialize().unwrap();
    s.set_0rtt_settings(PeerSettings {
        wt_initial_max_streams_bidi: 100,
        wt_initial_max_streams_uni: 100,
        wt_initial_max_data: 1_048_576,
        ..PeerSettings::default()
    });
    let settings = vec![
        (frame::SETTINGS_WT_MAX_SESSIONS, 1),
        (frame::SETTINGS_ENABLE_CONNECT_PROTOCOL, 1),
        (frame::SETTINGS_H3_DATAGRAM, 1),
        (frame::SETTINGS_WT_INITIAL_MAX_STREAMS_BIDI, 50),
        (frame::SETTINGS_WT_INITIAL_MAX_STREAMS_UNI, 100),
        (frame::SETTINGS_WT_INITIAL_MAX_DATA, 1_048_576),
    ];
    let ctrl = control_stream_data(&settings);
    assert!(s.process_stream_data(2, &ctrl, false).is_err());
}

#[test]
fn rfc_0rtt_server_accepts_same_or_higher_limits() {
    let mut s = server_conn();
    s.initialize().unwrap();
    s.set_0rtt_settings(PeerSettings {
        wt_max_sessions: Some(5),
        wt_initial_max_streams_bidi: 100,
        wt_initial_max_streams_uni: 100,
        wt_initial_max_data: 1_048_576,
        ..PeerSettings::default()
    });
    let settings = vec![
        (frame::SETTINGS_WT_MAX_SESSIONS, 10),
        (frame::SETTINGS_ENABLE_CONNECT_PROTOCOL, 1),
        (frame::SETTINGS_H3_DATAGRAM, 1),
        (frame::SETTINGS_WT_INITIAL_MAX_STREAMS_BIDI, 200),
        (frame::SETTINGS_WT_INITIAL_MAX_STREAMS_UNI, 100),
        (frame::SETTINGS_WT_INITIAL_MAX_DATA, 2_000_000),
    ];
    let ctrl = control_stream_data(&settings);
    assert!(s.process_stream_data(2, &ctrl, false).is_ok());
}

// ===================================================================
// Protocol Negotiation
// ===================================================================

#[test]
fn rfc_connect_with_protocols_tracks_offered() {
    let mut c = client_conn();
    c.initialize().unwrap();
    feed_peer_settings(&mut c, 3);
    let (sid, _) = c
        .connect_with_protocols("example.com", "/wt", None, &[], &["h3", "h3-29"])
        .unwrap();
    assert_eq!(
        c.offered_protocols(sid),
        Some(vec!["h3".to_string(), "h3-29".to_string()])
    );
}

#[test]
fn rfc_client_session_established_with_negotiated_protocol() {
    let mut c = client_conn();
    c.initialize().unwrap();
    feed_peer_settings(&mut c, 3);
    let (sid, _) = c
        .connect_with_protocols("example.com", "/wt", None, &[], &["h3", "h3-29"])
        .unwrap();
    let headers = vec![(":status", "200"), ("wt-protocol", "h3")];
    let block = qpack::encode_header_block(&headers);
    let frame = h3frame::H3Frame {
        frame_type: frame::H3_FRAME_HEADERS,
        payload: block,
    };
    let mut buf = Vec::new();
    frame.encode(&mut buf).unwrap();
    c.process_stream_data(sid, &buf, false).unwrap();
    while c.poll_event().is_some() {}
    assert_eq!(c.negotiated_protocol(sid), Some("h3".to_string()));
}

#[test]
fn rfc_client_ignores_server_protocol_not_in_offered_list() {
    let mut c = client_conn();
    c.initialize().unwrap();
    feed_peer_settings(&mut c, 3);
    let (sid, _) = c
        .connect_with_protocols("example.com", "/wt", None, &[], &["h3"])
        .unwrap();
    let headers = vec![(":status", "200"), ("wt-protocol", "unknown-proto")];
    let block = qpack::encode_header_block(&headers);
    let frame = h3frame::H3Frame {
        frame_type: frame::H3_FRAME_HEADERS,
        payload: block,
    };
    let mut buf = Vec::new();
    frame.encode(&mut buf).unwrap();
    c.process_stream_data(sid, &buf, false).unwrap();
    while c.poll_event().is_some() {}
    assert_eq!(c.negotiated_protocol(sid), None);
}

// ===================================================================
// TLS Exporter Context
// ===================================================================

#[test]
fn rfc_exporter_context_serialization() {
    let ctx = Connection::build_exporter_context(0, b"test-label", b"test-context");
    assert_eq!(ctx.len(), 8 + 1 + 10 + 1 + 12);
    assert_eq!(&ctx[0..8], &[0u8; 8]);
    assert_eq!(ctx[8], 10); // label length
    assert_eq!(&ctx[9..19], b"test-label");
    assert_eq!(ctx[19], 12); // context length
    assert_eq!(&ctx[20..32], b"test-context");
}

#[test]
fn rfc_exporter_context_empty_context() {
    let ctx = Connection::build_exporter_context(4, b"label", b"");
    assert_eq!(ctx.len(), 8 + 1 + 5 + 1);
    assert_eq!(&ctx[0..8], &[0u8, 0, 0, 0, 0, 0, 0, 4]);
    assert_eq!(ctx[8], 5);
    assert_eq!(&ctx[9..14], b"label");
    assert_eq!(ctx[14], 0);
}

// ===================================================================
// Blocked Capsule Emission
// ===================================================================

#[test]
fn rfc_streams_blocked_bidi_capsule_emitted() {
    let mut s = server_conn();
    s.initialize().unwrap();
    let settings = vec![
        (frame::SETTINGS_WT_MAX_SESSIONS, 1),
        (frame::SETTINGS_ENABLE_CONNECT_PROTOCOL, 1),
        (frame::SETTINGS_H3_DATAGRAM, 1),
        (frame::SETTINGS_WT_INITIAL_MAX_STREAMS_BIDI, 1),
        (frame::SETTINGS_WT_INITIAL_MAX_STREAMS_UNI, 100),
        (frame::SETTINGS_WT_INITIAL_MAX_DATA, 1_048_576),
    ];
    let ctrl = control_stream_data(&settings);
    s.process_stream_data(2, &ctrl, false).unwrap();
    let req = connect_request_frame("example.com", "/wt");
    s.process_stream_data(0, &req, false).unwrap();
    while s.poll_event().is_some() {}
    s.accept_session(0, &[]).unwrap();

    assert!(s.open_bidi_stream(0).is_ok());
    assert!(s.open_bidi_stream(0).is_err());
    let capsule_data = s.encode_streams_blocked_bidi(0).unwrap();
    assert!(!capsule_data.is_empty());
}

#[test]
fn rfc_streams_blocked_uni_capsule_emitted() {
    let mut s = server_conn();
    s.initialize().unwrap();
    let settings = vec![
        (frame::SETTINGS_WT_MAX_SESSIONS, 1),
        (frame::SETTINGS_ENABLE_CONNECT_PROTOCOL, 1),
        (frame::SETTINGS_H3_DATAGRAM, 1),
        (frame::SETTINGS_WT_INITIAL_MAX_STREAMS_UNI, 1),
        (frame::SETTINGS_WT_INITIAL_MAX_STREAMS_BIDI, 100),
        (frame::SETTINGS_WT_INITIAL_MAX_DATA, 1_048_576),
    ];
    let ctrl = control_stream_data(&settings);
    s.process_stream_data(2, &ctrl, false).unwrap();
    let req = connect_request_frame("example.com", "/wt");
    s.process_stream_data(0, &req, false).unwrap();
    while s.poll_event().is_some() {}
    s.accept_session(0, &[]).unwrap();

    assert!(s.open_uni_stream(0).is_ok());
    assert!(s.open_uni_stream(0).is_err());
    let capsule_data = s.encode_streams_blocked_uni(0).unwrap();
    assert!(!capsule_data.is_empty());
}

#[test]
fn rfc_data_blocked_capsule_emitted() {
    let (mut s, sid) = established_server();
    s.register_outgoing_stream(100, sid, StreamType::UniDirectional);
    s.on_data_sent(100, 1_048_576);
    let capsule_data = s.encode_data_blocked(sid).unwrap();
    assert!(!capsule_data.is_empty());
}

// ===================================================================
// CloseAction
// ===================================================================

#[test]
fn rfc_close_session_returns_streams_to_reset() {
    let (mut s, sid) = established_server();
    s.register_outgoing_stream(100, sid, StreamType::UniDirectional);
    s.register_outgoing_stream(104, sid, StreamType::BiDirectional);
    let result = s.close_session(sid, 0, "bye").unwrap();
    assert!(!result.capsule_data.is_empty());
    assert_eq!(result.streams_to_reset.len(), 2);
    assert!(result.streams_to_reset.contains(&100));
    assert!(result.streams_to_reset.contains(&104));
    assert_eq!(result.reset_error_code, frame::WT_SESSION_GONE);
}

#[test]
fn rfc_close_session_no_streams_returns_empty() {
    let (mut s, sid) = established_server();
    let result = s.close_session(sid, 0, "bye").unwrap();
    assert!(!result.capsule_data.is_empty());
    assert!(result.streams_to_reset.is_empty());
}

