use std::collections::{HashMap, HashSet};

use moq::moq_protocol::error::{RequestErrorCode, SessionError};
use moq::moq_protocol::message::namespace::PublishNamespace;
use moq::moq_protocol::message::publish::PublishDone;
use moq::moq_protocol::message::request::RequestErrorMsg;
use moq::moq_protocol::message::session_control::{Goaway, MaxRequestId, Unsubscribe};
use moq::moq_protocol::message::setup::{ClientSetup, ServerSetup};
use moq::moq_protocol::message::subscribe::{Subscribe, SubscribeOk};
use moq::moq_protocol::message::ControlMessage;
use moq::moq_protocol::params::Parameters;
use moq::moq_protocol::types::{TrackNamespace, TrackNamespacePrefix};
use moq::moq_relay::events::{InputEvent, OutputEvent};
use moq::moq_relay::relay::{Relay, RelayConfig};
use moq::moq_relay::route::{DownstreamSubState, UpstreamSubState};
use moq::moq_relay::session::{Session, SetupState};
use moq::moq_relay::types::{
    prefix_matches_namespace, ControlChannel, EndpointRole, NamespaceKey, RequestId, TrackAlias,
    TrackKey,
};


fn test_config() -> RelayConfig {
    RelayConfig {
        server_setup_parameters: Parameters::new(),
        initial_local_max_request_id_exclusive: RequestId(100),
        initial_peer_max_request_id_exclusive: RequestId(100),
    }
}

fn open_server_session(relay: &mut Relay<u32>, id: u32) {
    relay.on_event(InputEvent::SessionOpened {
        session: id,
        role: EndpointRole::Server,
    });
}

fn open_client_session(relay: &mut Relay<u32>, id: u32) {
    relay.on_event(InputEvent::SessionOpened {
        session: id,
        role: EndpointRole::Client,
    });
}

/// Complete CLIENT_SETUP handshake for a server-role session.
fn complete_setup(relay: &mut Relay<u32>, id: u32) {
    relay.on_event(InputEvent::ControlMessageReceived {
        session: id,
        channel: ControlChannel::ControlStream,
        message: ControlMessage::ClientSetup(ClientSetup {
            parameters: Parameters::new(),
        }),
    });
}

// =======================================================================
// Phase 2a tests (preserved)
// =======================================================================

#[test]
fn session_lifecycle() {
    let mut relay = Relay::new(test_config());
    assert_eq!(relay.session_count(), 0);

    open_server_session(&mut relay, 1);
    assert_eq!(relay.session_count(), 1);
    assert!(relay.session(&1).is_some());

    relay.on_event(InputEvent::SessionClosed { session: 1 });
    assert_eq!(relay.session_count(), 0);
}

#[test]
fn client_setup_produces_server_setup() {
    let mut relay = Relay::new(test_config());
    open_server_session(&mut relay, 1);

    let out = relay.on_event(InputEvent::ControlMessageReceived {
        session: 1,
        channel: ControlChannel::ControlStream,
        message: ControlMessage::ClientSetup(ClientSetup {
            parameters: Parameters::new(),
        }),
    });

    assert_eq!(out.len(), 1);
    match &out[0] {
        OutputEvent::SendControlMessage {
            session,
            channel,
            message,
        } => {
            assert_eq!(*session, 1);
            assert_eq!(*channel, ControlChannel::ControlStream);
            assert!(matches!(message, ControlMessage::ServerSetup(_)));
            if let ControlMessage::ServerSetup(ss) = message {
                let max = ss
                    .parameters
                    .get_varint(moq::moq_protocol::params::PARAM_MAX_REQUEST_ID);
                assert_eq!(max, Some(100));
            }
        }
        _ => panic!("expected SendControlMessage"),
    }

    let sess = relay.session(&1).unwrap();
    assert_eq!(sess.setup, SetupState::SetupComplete);
}

#[test]
fn duplicate_client_setup_rejected() {
    let mut relay = Relay::new(test_config());
    open_server_session(&mut relay, 1);

    relay.on_event(InputEvent::ControlMessageReceived {
        session: 1,
        channel: ControlChannel::ControlStream,
        message: ControlMessage::ClientSetup(ClientSetup {
            parameters: Parameters::new(),
        }),
    });

    let out = relay.on_event(InputEvent::ControlMessageReceived {
        session: 1,
        channel: ControlChannel::ControlStream,
        message: ControlMessage::ClientSetup(ClientSetup {
            parameters: Parameters::new(),
        }),
    });

    assert_eq!(out.len(), 1);
    assert!(matches!(
        &out[0],
        OutputEvent::CloseSession {
            error: SessionError::ProtocolViolation,
            ..
        }
    ));
}

#[test]
fn server_setup_completes_client_session() {
    let mut relay = Relay::new(test_config());
    open_client_session(&mut relay, 1);

    let mut params = Parameters::new();
    params.add_varint(moq::moq_protocol::params::PARAM_MAX_REQUEST_ID, 50);

    let out = relay.on_event(InputEvent::ControlMessageReceived {
        session: 1,
        channel: ControlChannel::ControlStream,
        message: ControlMessage::ServerSetup(ServerSetup { parameters: params }),
    });

    assert!(out.is_empty());
    let sess = relay.session(&1).unwrap();
    assert_eq!(sess.setup, SetupState::SetupComplete);
    assert_eq!(sess.request_ids.peer_max_exclusive, RequestId(50));
}

#[test]
fn max_request_id_increases_limit() {
    let mut relay = Relay::new(test_config());
    open_server_session(&mut relay, 1);

    relay.on_event(InputEvent::ControlMessageReceived {
        session: 1,
        channel: ControlChannel::ControlStream,
        message: ControlMessage::ClientSetup(ClientSetup {
            parameters: Parameters::new(),
        }),
    });

    let out = relay.on_event(InputEvent::ControlMessageReceived {
        session: 1,
        channel: ControlChannel::ControlStream,
        message: ControlMessage::MaxRequestId(MaxRequestId {
            max_request_id: 200,
        }),
    });

    assert!(out.is_empty());
    let sess = relay.session(&1).unwrap();
    assert_eq!(sess.request_ids.peer_max_exclusive, RequestId(201));
}

#[test]
fn max_request_id_decrease_closes_session() {
    let mut relay = Relay::new(test_config());
    open_server_session(&mut relay, 1);

    relay.on_event(InputEvent::ControlMessageReceived {
        session: 1,
        channel: ControlChannel::ControlStream,
        message: ControlMessage::ClientSetup(ClientSetup {
            parameters: Parameters::new(),
        }),
    });

    let out = relay.on_event(InputEvent::ControlMessageReceived {
        session: 1,
        channel: ControlChannel::ControlStream,
        message: ControlMessage::MaxRequestId(MaxRequestId { max_request_id: 10 }),
    });

    assert_eq!(out.len(), 1);
    assert!(matches!(
        &out[0],
        OutputEvent::CloseSession {
            error: SessionError::ProtocolViolation,
            ..
        }
    ));
}

#[test]
fn goaway_handled() {
    let mut relay = Relay::new(test_config());
    open_server_session(&mut relay, 1);

    relay.on_event(InputEvent::ControlMessageReceived {
        session: 1,
        channel: ControlChannel::ControlStream,
        message: ControlMessage::ClientSetup(ClientSetup {
            parameters: Parameters::new(),
        }),
    });

    let out = relay.on_event(InputEvent::ControlMessageReceived {
        session: 1,
        channel: ControlChannel::ControlStream,
        message: ControlMessage::Goaway(Goaway {
            new_session_uri: b"moqt://new.example.com".to_vec(),
        }),
    });

    assert!(out.is_empty());
    let sess = relay.session(&1).unwrap();
    assert!(sess.goaway.received);
    assert_eq!(
        sess.goaway.new_session_uri,
        Some(b"moqt://new.example.com".to_vec())
    );
}

#[test]
fn duplicate_goaway_rejected() {
    let mut relay = Relay::new(test_config());
    open_server_session(&mut relay, 1);

    relay.on_event(InputEvent::ControlMessageReceived {
        session: 1,
        channel: ControlChannel::ControlStream,
        message: ControlMessage::ClientSetup(ClientSetup {
            parameters: Parameters::new(),
        }),
    });

    relay.on_event(InputEvent::ControlMessageReceived {
        session: 1,
        channel: ControlChannel::ControlStream,
        message: ControlMessage::Goaway(Goaway {
            new_session_uri: vec![],
        }),
    });

    let out = relay.on_event(InputEvent::ControlMessageReceived {
        session: 1,
        channel: ControlChannel::ControlStream,
        message: ControlMessage::Goaway(Goaway {
            new_session_uri: vec![],
        }),
    });

    assert_eq!(out.len(), 1);
    assert!(matches!(
        &out[0],
        OutputEvent::CloseSession {
            error: SessionError::ProtocolViolation,
            ..
        }
    ));
}

#[test]
fn message_before_setup_rejected() {
    let mut relay = Relay::new(test_config());
    open_server_session(&mut relay, 1);

    let out = relay.on_event(InputEvent::ControlMessageReceived {
        session: 1,
        channel: ControlChannel::ControlStream,
        message: ControlMessage::Unsubscribe(Unsubscribe { request_id: 0 }),
    });

    assert_eq!(out.len(), 1);
    assert!(matches!(
        &out[0],
        OutputEvent::CloseSession {
            error: SessionError::ProtocolViolation,
            ..
        }
    ));
}

// =======================================================================
// Phase 2b: Subscription routing tests
// =======================================================================

#[test]
fn publish_namespace_indexes_publisher() {
    let mut relay = Relay::new(test_config());
    open_server_session(&mut relay, 1);
    complete_setup(&mut relay, 1);

    let out = relay.on_event(InputEvent::ControlMessageReceived {
        session: 1,
        channel: ControlChannel::ControlStream,
        message: ControlMessage::PublishNamespace(PublishNamespace {
            request_id: 0,
            track_namespace: TrackNamespace::from_strings(&["example.com", "meeting"]).unwrap(),
            parameters: Parameters::new(),
        }),
    });

    // Expect REQUEST_OK
    assert_eq!(out.len(), 1);
    match &out[0] {
        OutputEvent::SendControlMessage { message, .. } => {
            assert!(matches!(message, ControlMessage::RequestOk(ok) if ok.request_id == 0));
        }
        _ => panic!("expected SendControlMessage(RequestOk)"),
    }

    // Verify indexing
    let ns_key =
        NamespaceKey(TrackNamespace::from_strings(&["example.com", "meeting"]).unwrap());
    let pubs = relay.publishers_for_namespace(&ns_key).unwrap();
    assert!(pubs.contains(&1));

    // Session should track its published namespaces
    let sess = relay.session(&1).unwrap();
    assert!(sess.published_namespaces.contains(&ns_key));
}

#[test]
fn subscribe_with_matching_publisher_fanouts_upstream() {
    let mut relay = Relay::new(test_config());

    // Session 1 = publisher (server-role, so peer uses even IDs)
    open_server_session(&mut relay, 1);
    complete_setup(&mut relay, 1);

    // Session 2 = subscriber (server-role)
    open_server_session(&mut relay, 2);
    complete_setup(&mut relay, 2);

    // Publisher registers namespace
    relay.on_event(InputEvent::ControlMessageReceived {
        session: 1,
        channel: ControlChannel::ControlStream,
        message: ControlMessage::PublishNamespace(PublishNamespace {
            request_id: 0,
            track_namespace: TrackNamespace::from_strings(&["example.com"]).unwrap(),
            parameters: Parameters::new(),
        }),
    });

    // Subscriber sends SUBSCRIBE for a track under that namespace
    let out = relay.on_event(InputEvent::ControlMessageReceived {
        session: 2,
        channel: ControlChannel::ControlStream,
        message: ControlMessage::Subscribe(Subscribe {
            request_id: 0,
            track_namespace: TrackNamespace::from_strings(&["example.com", "meeting"]).unwrap(),
            track_name: b"video".to_vec(),
            parameters: Parameters::new(),
        }),
    });

    // Relay should fanout SUBSCRIBE upstream to publisher (session 1)
    assert_eq!(out.len(), 1);
    match &out[0] {
        OutputEvent::SendControlMessage {
            session, message, ..
        } => {
            assert_eq!(*session, 1);
            match message {
                ControlMessage::Subscribe(sub) => {
                    assert_eq!(
                        sub.track_namespace,
                        TrackNamespace::from_strings(&["example.com", "meeting"]).unwrap()
                    );
                    assert_eq!(sub.track_name, b"video");
                    // Request ID allocated by relay (server uses odd: 1)
                    assert_eq!(sub.request_id, 1);
                }
                _ => panic!("expected Subscribe"),
            }
        }
        _ => panic!("expected SendControlMessage"),
    }

    // Verify TrackRoute exists
    let track_key = TrackKey {
        namespace: TrackNamespace::from_strings(&["example.com", "meeting"]).unwrap(),
        name: b"video".to_vec(),
    };
    let route = relay.track_route(&track_key).unwrap();
    assert_eq!(route.downstream_subs.len(), 1);
    assert_eq!(route.upstream_subs.len(), 1);
}

#[test]
fn subscribe_no_publisher_returns_error() {
    let mut relay = Relay::new(test_config());
    open_server_session(&mut relay, 1);
    complete_setup(&mut relay, 1);

    let out = relay.on_event(InputEvent::ControlMessageReceived {
        session: 1,
        channel: ControlChannel::ControlStream,
        message: ControlMessage::Subscribe(Subscribe {
            request_id: 0,
            track_namespace: TrackNamespace::from_strings(&["unknown"]).unwrap(),
            track_name: b"audio".to_vec(),
            parameters: Parameters::new(),
        }),
    });

    assert_eq!(out.len(), 1);
    match &out[0] {
        OutputEvent::SendControlMessage { message, .. } => match message {
            ControlMessage::RequestError(err) => {
                assert_eq!(err.request_id, 0);
                assert_eq!(err.error_code, RequestErrorCode::DoesNotExist.as_u64());
            }
            _ => panic!("expected RequestError"),
        },
        _ => panic!("expected SendControlMessage"),
    }
}

#[test]
fn subscribe_ok_propagates_downstream() {
    let mut relay = Relay::new(test_config());

    // Publisher session 1
    open_server_session(&mut relay, 1);
    complete_setup(&mut relay, 1);

    // Subscriber session 2
    open_server_session(&mut relay, 2);
    complete_setup(&mut relay, 2);

    // Publisher registers namespace
    relay.on_event(InputEvent::ControlMessageReceived {
        session: 1,
        channel: ControlChannel::ControlStream,
        message: ControlMessage::PublishNamespace(PublishNamespace {
            request_id: 0,
            track_namespace: TrackNamespace::from_strings(&["example.com"]).unwrap(),
            parameters: Parameters::new(),
        }),
    });

    // Subscriber subscribes
    relay.on_event(InputEvent::ControlMessageReceived {
        session: 2,
        channel: ControlChannel::ControlStream,
        message: ControlMessage::Subscribe(Subscribe {
            request_id: 0,
            track_namespace: TrackNamespace::from_strings(&["example.com", "room"]).unwrap(),
            track_name: b"video".to_vec(),
            parameters: Parameters::new(),
        }),
    });

    // Publisher sends SUBSCRIBE_OK (for the upstream SUBSCRIBE with request_id=1)
    let out = relay.on_event(InputEvent::ControlMessageReceived {
        session: 1,
        channel: ControlChannel::ControlStream,
        message: ControlMessage::SubscribeOk(SubscribeOk {
            request_id: 1, // relay allocated odd ID
            track_alias: 42,
            parameters: Parameters::new(),
            track_extensions: vec![],
        }),
    });

    // Relay should send SUBSCRIBE_OK downstream to subscriber (session 2)
    assert_eq!(out.len(), 1);
    match &out[0] {
        OutputEvent::SendControlMessage {
            session, message, ..
        } => {
            assert_eq!(*session, 2);
            match message {
                ControlMessage::SubscribeOk(ok) => {
                    assert_eq!(ok.request_id, 0); // the subscriber's own request ID
                    assert!(ok.track_alias > 0);
                }
                _ => panic!("expected SubscribeOk"),
            }
        }
        _ => panic!("expected SendControlMessage"),
    }

    // Verify states
    let track_key = TrackKey {
        namespace: TrackNamespace::from_strings(&["example.com", "room"]).unwrap(),
        name: b"video".to_vec(),
    };
    let route = relay.track_route(&track_key).unwrap();
    let ds = route.downstream_subs.iter().next().unwrap();
    assert_eq!(ds.state, DownstreamSubState::Established);
    let us = route.upstream_subs.iter().next().unwrap();
    assert_eq!(us.state, UpstreamSubState::Established);
}

#[test]
fn request_error_propagates_when_all_upstream_fail() {
    let mut relay = Relay::new(test_config());

    // Publisher session 1
    open_server_session(&mut relay, 1);
    complete_setup(&mut relay, 1);

    // Subscriber session 2
    open_server_session(&mut relay, 2);
    complete_setup(&mut relay, 2);

    // Publisher registers namespace
    relay.on_event(InputEvent::ControlMessageReceived {
        session: 1,
        channel: ControlChannel::ControlStream,
        message: ControlMessage::PublishNamespace(PublishNamespace {
            request_id: 0,
            track_namespace: TrackNamespace::from_strings(&["example.com"]).unwrap(),
            parameters: Parameters::new(),
        }),
    });

    // Subscriber subscribes
    relay.on_event(InputEvent::ControlMessageReceived {
        session: 2,
        channel: ControlChannel::ControlStream,
        message: ControlMessage::Subscribe(Subscribe {
            request_id: 0,
            track_namespace: TrackNamespace::from_strings(&["example.com", "room"]).unwrap(),
            track_name: b"video".to_vec(),
            parameters: Parameters::new(),
        }),
    });

    // Publisher sends REQUEST_ERROR
    let out = relay.on_event(InputEvent::ControlMessageReceived {
        session: 1,
        channel: ControlChannel::ControlStream,
        message: ControlMessage::RequestError(RequestErrorMsg {
            request_id: 1,
            error_code: RequestErrorCode::DoesNotExist.as_u64(),
            retry_interval: 0,
            error_reason: moq::moq_protocol::types::ReasonPhrase("track not found".into()),
        }),
    });

    // Relay should propagate REQUEST_ERROR to subscriber
    assert_eq!(out.len(), 1);
    match &out[0] {
        OutputEvent::SendControlMessage {
            session, message, ..
        } => {
            assert_eq!(*session, 2);
            match message {
                ControlMessage::RequestError(err) => {
                    assert_eq!(err.request_id, 0);
                    assert_eq!(err.error_code, RequestErrorCode::DoesNotExist.as_u64());
                }
                _ => panic!("expected RequestError"),
            }
        }
        _ => panic!("expected SendControlMessage"),
    }

    // Track route should be cleaned up
    let track_key = TrackKey {
        namespace: TrackNamespace::from_strings(&["example.com", "room"]).unwrap(),
        name: b"video".to_vec(),
    };
    assert!(relay.track_route(&track_key).is_none());
}

#[test]
fn unsubscribe_propagates_upstream() {
    let mut relay = Relay::new(test_config());

    // Publisher session 1, Subscriber session 2
    open_server_session(&mut relay, 1);
    complete_setup(&mut relay, 1);
    open_server_session(&mut relay, 2);
    complete_setup(&mut relay, 2);

    // Publisher registers
    relay.on_event(InputEvent::ControlMessageReceived {
        session: 1,
        channel: ControlChannel::ControlStream,
        message: ControlMessage::PublishNamespace(PublishNamespace {
            request_id: 0,
            track_namespace: TrackNamespace::from_strings(&["example.com"]).unwrap(),
            parameters: Parameters::new(),
        }),
    });

    // Subscriber subscribes
    relay.on_event(InputEvent::ControlMessageReceived {
        session: 2,
        channel: ControlChannel::ControlStream,
        message: ControlMessage::Subscribe(Subscribe {
            request_id: 0,
            track_namespace: TrackNamespace::from_strings(&["example.com", "room"]).unwrap(),
            track_name: b"video".to_vec(),
            parameters: Parameters::new(),
        }),
    });

    // Publisher confirms
    relay.on_event(InputEvent::ControlMessageReceived {
        session: 1,
        channel: ControlChannel::ControlStream,
        message: ControlMessage::SubscribeOk(SubscribeOk {
            request_id: 1,
            track_alias: 42,
            parameters: Parameters::new(),
            track_extensions: vec![],
        }),
    });

    // Subscriber unsubscribes
    let out = relay.on_event(InputEvent::ControlMessageReceived {
        session: 2,
        channel: ControlChannel::ControlStream,
        message: ControlMessage::Unsubscribe(Unsubscribe { request_id: 0 }),
    });

    // Relay should send UNSUBSCRIBE upstream to publisher
    assert_eq!(out.len(), 1);
    match &out[0] {
        OutputEvent::SendControlMessage {
            session, message, ..
        } => {
            assert_eq!(*session, 1);
            match message {
                ControlMessage::Unsubscribe(unsub) => {
                    assert_eq!(unsub.request_id, 1);
                }
                _ => panic!("expected Unsubscribe"),
            }
        }
        _ => panic!("expected SendControlMessage"),
    }
}

#[test]
fn publish_done_propagates_downstream() {
    let mut relay = Relay::new(test_config());

    // Publisher 1, Subscriber 2
    open_server_session(&mut relay, 1);
    complete_setup(&mut relay, 1);
    open_server_session(&mut relay, 2);
    complete_setup(&mut relay, 2);

    // Publisher registers
    relay.on_event(InputEvent::ControlMessageReceived {
        session: 1,
        channel: ControlChannel::ControlStream,
        message: ControlMessage::PublishNamespace(PublishNamespace {
            request_id: 0,
            track_namespace: TrackNamespace::from_strings(&["example.com"]).unwrap(),
            parameters: Parameters::new(),
        }),
    });

    // Subscriber subscribes
    relay.on_event(InputEvent::ControlMessageReceived {
        session: 2,
        channel: ControlChannel::ControlStream,
        message: ControlMessage::Subscribe(Subscribe {
            request_id: 0,
            track_namespace: TrackNamespace::from_strings(&["example.com", "room"]).unwrap(),
            track_name: b"video".to_vec(),
            parameters: Parameters::new(),
        }),
    });

    // Publisher confirms
    relay.on_event(InputEvent::ControlMessageReceived {
        session: 1,
        channel: ControlChannel::ControlStream,
        message: ControlMessage::SubscribeOk(SubscribeOk {
            request_id: 1,
            track_alias: 42,
            parameters: Parameters::new(),
            track_extensions: vec![],
        }),
    });

    // Publisher sends PUBLISH_DONE
    let out = relay.on_event(InputEvent::ControlMessageReceived {
        session: 1,
        channel: ControlChannel::ControlStream,
        message: ControlMessage::PublishDone(PublishDone {
            request_id: 1,
            status_code: 2,
            stream_count: 10,
            error_reason: moq::moq_protocol::types::ReasonPhrase("track ended".into()),
        }),
    });

    // Relay should propagate PUBLISH_DONE to subscriber
    assert_eq!(out.len(), 1);
    match &out[0] {
        OutputEvent::SendControlMessage {
            session, message, ..
        } => {
            assert_eq!(*session, 2);
            match message {
                ControlMessage::PublishDone(pd) => {
                    assert_eq!(pd.request_id, 0);
                    assert_eq!(pd.status_code, 2);
                    assert_eq!(pd.stream_count, 10);
                }
                _ => panic!("expected PublishDone"),
            }
        }
        _ => panic!("expected SendControlMessage"),
    }
}

#[test]
fn multiple_subscribers_same_track() {
    let mut relay = Relay::new(test_config());

    // Publisher 1
    open_server_session(&mut relay, 1);
    complete_setup(&mut relay, 1);

    // Subscribers 2, 3
    open_server_session(&mut relay, 2);
    complete_setup(&mut relay, 2);
    open_server_session(&mut relay, 3);
    complete_setup(&mut relay, 3);

    // Publisher registers
    relay.on_event(InputEvent::ControlMessageReceived {
        session: 1,
        channel: ControlChannel::ControlStream,
        message: ControlMessage::PublishNamespace(PublishNamespace {
            request_id: 0,
            track_namespace: TrackNamespace::from_strings(&["example.com"]).unwrap(),
            parameters: Parameters::new(),
        }),
    });

    // First subscriber subscribes
    relay.on_event(InputEvent::ControlMessageReceived {
        session: 2,
        channel: ControlChannel::ControlStream,
        message: ControlMessage::Subscribe(Subscribe {
            request_id: 0,
            track_namespace: TrackNamespace::from_strings(&["example.com", "room"]).unwrap(),
            track_name: b"video".to_vec(),
            parameters: Parameters::new(),
        }),
    });

    // Second subscriber subscribes to same track
    let out = relay.on_event(InputEvent::ControlMessageReceived {
        session: 3,
        channel: ControlChannel::ControlStream,
        message: ControlMessage::Subscribe(Subscribe {
            request_id: 0,
            track_namespace: TrackNamespace::from_strings(&["example.com", "room"]).unwrap(),
            track_name: b"video".to_vec(),
            parameters: Parameters::new(),
        }),
    });

    // Should NOT send another upstream SUBSCRIBE (already have one)
    assert_eq!(out.len(), 0);

    // Verify track route has 2 downstream, 1 upstream
    let track_key = TrackKey {
        namespace: TrackNamespace::from_strings(&["example.com", "room"]).unwrap(),
        name: b"video".to_vec(),
    };
    let route = relay.track_route(&track_key).unwrap();
    assert_eq!(route.downstream_subs.len(), 2);
    assert_eq!(route.upstream_subs.len(), 1);

    // Publisher confirms — both subscribers should get SUBSCRIBE_OK
    let out = relay.on_event(InputEvent::ControlMessageReceived {
        session: 1,
        channel: ControlChannel::ControlStream,
        message: ControlMessage::SubscribeOk(SubscribeOk {
            request_id: 1,
            track_alias: 42,
            parameters: Parameters::new(),
            track_extensions: vec![],
        }),
    });

    assert_eq!(out.len(), 2);
    let sessions: HashSet<u32> = out
        .iter()
        .filter_map(|e| match e {
            OutputEvent::SendControlMessage { session, .. } => Some(*session),
            _ => None,
        })
        .collect();
    assert!(sessions.contains(&2));
    assert!(sessions.contains(&3));
}

#[test]
fn late_subscriber_gets_immediate_subscribe_ok() {
    let mut relay = Relay::new(test_config());

    // Publisher 1, Subscriber 2
    open_server_session(&mut relay, 1);
    complete_setup(&mut relay, 1);
    open_server_session(&mut relay, 2);
    complete_setup(&mut relay, 2);

    // Publisher registers + subscriber subscribes + publisher confirms
    relay.on_event(InputEvent::ControlMessageReceived {
        session: 1,
        channel: ControlChannel::ControlStream,
        message: ControlMessage::PublishNamespace(PublishNamespace {
            request_id: 0,
            track_namespace: TrackNamespace::from_strings(&["example.com"]).unwrap(),
            parameters: Parameters::new(),
        }),
    });
    relay.on_event(InputEvent::ControlMessageReceived {
        session: 2,
        channel: ControlChannel::ControlStream,
        message: ControlMessage::Subscribe(Subscribe {
            request_id: 0,
            track_namespace: TrackNamespace::from_strings(&["example.com", "room"]).unwrap(),
            track_name: b"video".to_vec(),
            parameters: Parameters::new(),
        }),
    });
    relay.on_event(InputEvent::ControlMessageReceived {
        session: 1,
        channel: ControlChannel::ControlStream,
        message: ControlMessage::SubscribeOk(SubscribeOk {
            request_id: 1,
            track_alias: 42,
            parameters: Parameters::new(),
            track_extensions: vec![],
        }),
    });

    // Late subscriber 3 subscribes to same track
    open_server_session(&mut relay, 3);
    complete_setup(&mut relay, 3);

    let out = relay.on_event(InputEvent::ControlMessageReceived {
        session: 3,
        channel: ControlChannel::ControlStream,
        message: ControlMessage::Subscribe(Subscribe {
            request_id: 0,
            track_namespace: TrackNamespace::from_strings(&["example.com", "room"]).unwrap(),
            track_name: b"video".to_vec(),
            parameters: Parameters::new(),
        }),
    });

    // Should get immediate SUBSCRIBE_OK since upstream is already established
    assert_eq!(out.len(), 1);
    match &out[0] {
        OutputEvent::SendControlMessage {
            session, message, ..
        } => {
            assert_eq!(*session, 3);
            assert!(matches!(message, ControlMessage::SubscribeOk(_)));
        }
        _ => panic!("expected SubscribeOk"),
    }
}

#[test]
fn namespace_prefix_matching_works() {
    let mut relay = Relay::new(test_config());

    // Publisher registers "example.com"
    open_server_session(&mut relay, 1);
    complete_setup(&mut relay, 1);

    relay.on_event(InputEvent::ControlMessageReceived {
        session: 1,
        channel: ControlChannel::ControlStream,
        message: ControlMessage::PublishNamespace(PublishNamespace {
            request_id: 0,
            track_namespace: TrackNamespace::from_strings(&["example.com"]).unwrap(),
            parameters: Parameters::new(),
        }),
    });

    // Subscriber subscribes to "example.com/meeting/room1" — should match
    open_server_session(&mut relay, 2);
    complete_setup(&mut relay, 2);

    let out = relay.on_event(InputEvent::ControlMessageReceived {
        session: 2,
        channel: ControlChannel::ControlStream,
        message: ControlMessage::Subscribe(Subscribe {
            request_id: 0,
            track_namespace: TrackNamespace::from_strings(&["example.com", "meeting", "room1"])
                .unwrap(),
            track_name: b"video".to_vec(),
            parameters: Parameters::new(),
        }),
    });

    // Should send upstream SUBSCRIBE to publisher
    assert_eq!(out.len(), 1);
    assert!(matches!(
        &out[0],
        OutputEvent::SendControlMessage {
            session: 1,
            message: ControlMessage::Subscribe(_),
            ..
        }
    ));
}

#[test]
fn session_close_cleans_up_subscriptions() {
    let mut relay = Relay::new(test_config());

    // Publisher 1, Subscriber 2
    open_server_session(&mut relay, 1);
    complete_setup(&mut relay, 1);
    open_server_session(&mut relay, 2);
    complete_setup(&mut relay, 2);

    // Publisher registers
    relay.on_event(InputEvent::ControlMessageReceived {
        session: 1,
        channel: ControlChannel::ControlStream,
        message: ControlMessage::PublishNamespace(PublishNamespace {
            request_id: 0,
            track_namespace: TrackNamespace::from_strings(&["example.com"]).unwrap(),
            parameters: Parameters::new(),
        }),
    });

    // Subscriber subscribes
    relay.on_event(InputEvent::ControlMessageReceived {
        session: 2,
        channel: ControlChannel::ControlStream,
        message: ControlMessage::Subscribe(Subscribe {
            request_id: 0,
            track_namespace: TrackNamespace::from_strings(&["example.com", "room"]).unwrap(),
            track_name: b"video".to_vec(),
            parameters: Parameters::new(),
        }),
    });

    // Publisher confirms
    relay.on_event(InputEvent::ControlMessageReceived {
        session: 1,
        channel: ControlChannel::ControlStream,
        message: ControlMessage::SubscribeOk(SubscribeOk {
            request_id: 1,
            track_alias: 42,
            parameters: Parameters::new(),
            track_extensions: vec![],
        }),
    });

    // Subscriber disconnects
    let out = relay.on_event(InputEvent::SessionClosed { session: 2 });

    // Should send UNSUBSCRIBE upstream to publisher since no downstream subs remain
    assert_eq!(out.len(), 1);
    match &out[0] {
        OutputEvent::SendControlMessage {
            session, message, ..
        } => {
            assert_eq!(*session, 1);
            assert!(matches!(message, ControlMessage::Unsubscribe(_)));
        }
        _ => panic!("expected Unsubscribe"),
    }
}

#[test]
fn publisher_close_cleans_up_namespace_index() {
    let mut relay = Relay::new(test_config());

    open_server_session(&mut relay, 1);
    complete_setup(&mut relay, 1);

    relay.on_event(InputEvent::ControlMessageReceived {
        session: 1,
        channel: ControlChannel::ControlStream,
        message: ControlMessage::PublishNamespace(PublishNamespace {
            request_id: 0,
            track_namespace: TrackNamespace::from_strings(&["example.com"]).unwrap(),
            parameters: Parameters::new(),
        }),
    });

    let ns_key = NamespaceKey(TrackNamespace::from_strings(&["example.com"]).unwrap());
    assert!(relay.publishers_for_namespace(&ns_key).is_some());

    // Publisher disconnects
    relay.on_event(InputEvent::SessionClosed { session: 1 });

    // Namespace index should be cleaned up
    assert!(relay.publishers_for_namespace(&ns_key).is_none());
}

#[test]
fn new_publisher_triggers_upstream_subscribe_for_existing_pending_route() {
    let mut relay = Relay::new(test_config());

    // Subscriber 2 subscribes first (no publishers yet) → gets REQUEST_ERROR
    open_server_session(&mut relay, 2);
    complete_setup(&mut relay, 2);

    let out = relay.on_event(InputEvent::ControlMessageReceived {
        session: 2,
        channel: ControlChannel::ControlStream,
        message: ControlMessage::Subscribe(Subscribe {
            request_id: 0,
            track_namespace: TrackNamespace::from_strings(&["example.com", "room"]).unwrap(),
            track_name: b"video".to_vec(),
            parameters: Parameters::new(),
        }),
    });

    // No publishers → REQUEST_ERROR immediately
    assert_eq!(out.len(), 1);
    assert!(matches!(
        &out[0],
        OutputEvent::SendControlMessage {
            message: ControlMessage::RequestError(_),
            ..
        }
    ));
}

#[test]
fn partial_unsubscribe_does_not_cancel_upstream() {
    let mut relay = Relay::new(test_config());

    // Publisher 1
    open_server_session(&mut relay, 1);
    complete_setup(&mut relay, 1);

    // Subscribers 2, 3
    open_server_session(&mut relay, 2);
    complete_setup(&mut relay, 2);
    open_server_session(&mut relay, 3);
    complete_setup(&mut relay, 3);

    // Publisher registers
    relay.on_event(InputEvent::ControlMessageReceived {
        session: 1,
        channel: ControlChannel::ControlStream,
        message: ControlMessage::PublishNamespace(PublishNamespace {
            request_id: 0,
            track_namespace: TrackNamespace::from_strings(&["example.com"]).unwrap(),
            parameters: Parameters::new(),
        }),
    });

    // Both subscribers subscribe
    relay.on_event(InputEvent::ControlMessageReceived {
        session: 2,
        channel: ControlChannel::ControlStream,
        message: ControlMessage::Subscribe(Subscribe {
            request_id: 0,
            track_namespace: TrackNamespace::from_strings(&["example.com", "room"]).unwrap(),
            track_name: b"video".to_vec(),
            parameters: Parameters::new(),
        }),
    });
    relay.on_event(InputEvent::ControlMessageReceived {
        session: 3,
        channel: ControlChannel::ControlStream,
        message: ControlMessage::Subscribe(Subscribe {
            request_id: 0,
            track_namespace: TrackNamespace::from_strings(&["example.com", "room"]).unwrap(),
            track_name: b"video".to_vec(),
            parameters: Parameters::new(),
        }),
    });

    // Publisher confirms
    relay.on_event(InputEvent::ControlMessageReceived {
        session: 1,
        channel: ControlChannel::ControlStream,
        message: ControlMessage::SubscribeOk(SubscribeOk {
            request_id: 1,
            track_alias: 42,
            parameters: Parameters::new(),
            track_extensions: vec![],
        }),
    });

    // Subscriber 2 unsubscribes — but subscriber 3 still active
    let out = relay.on_event(InputEvent::ControlMessageReceived {
        session: 2,
        channel: ControlChannel::ControlStream,
        message: ControlMessage::Unsubscribe(Unsubscribe { request_id: 0 }),
    });

    // Should NOT send UNSUBSCRIBE upstream since subscriber 3 is still active
    assert!(out.is_empty());

    // Route should still exist
    let track_key = TrackKey {
        namespace: TrackNamespace::from_strings(&["example.com", "room"]).unwrap(),
        name: b"video".to_vec(),
    };
    assert!(relay.track_route(&track_key).is_some());
}


fn server_session(local_max: u64, peer_max: u64) -> Session<u32> {
    Session::new(
        1u32,
        EndpointRole::Server,
        RequestId(local_max),
        RequestId(peer_max),
    )
}

#[test]
fn validate_peer_request_id_sequential() {
    let mut s = server_session(100, 100);
    assert!(s.validate_peer_new_request_id(RequestId(0)).is_ok());
    assert!(s.validate_peer_new_request_id(RequestId(2)).is_ok());
    assert!(s.validate_peer_new_request_id(RequestId(4)).is_ok());
}

#[test]
fn validate_peer_request_id_wrong_parity() {
    let mut s = server_session(100, 100);
    assert_eq!(
        s.validate_peer_new_request_id(RequestId(1)),
        Err(SessionError::InvalidRequestId)
    );
}

#[test]
fn validate_peer_request_id_skip() {
    let mut s = server_session(100, 100);
    assert!(s.validate_peer_new_request_id(RequestId(0)).is_ok());
    assert_eq!(
        s.validate_peer_new_request_id(RequestId(4)),
        Err(SessionError::InvalidRequestId)
    );
}

#[test]
fn validate_peer_request_id_exceeds_max() {
    let mut s = server_session(4, 100);
    assert!(s.validate_peer_new_request_id(RequestId(0)).is_ok());
    assert!(s.validate_peer_new_request_id(RequestId(2)).is_ok());
    assert_eq!(
        s.validate_peer_new_request_id(RequestId(4)),
        Err(SessionError::TooManyRequests)
    );
}

#[test]
fn alloc_local_request_id_server() {
    let mut s = server_session(100, 100);
    assert_eq!(s.alloc_local_request_id(), Some(RequestId(1)));
    assert_eq!(s.alloc_local_request_id(), Some(RequestId(3)));
    assert_eq!(s.alloc_local_request_id(), Some(RequestId(5)));
}

#[test]
fn alloc_local_request_id_blocked() {
    let mut s = server_session(100, 3);
    assert_eq!(s.alloc_local_request_id(), Some(RequestId(1)));
    assert_eq!(s.alloc_local_request_id(), None);
}

#[test]
fn alloc_local_request_id_unblocked_by_max() {
    let mut s = server_session(100, 3);
    assert_eq!(s.alloc_local_request_id(), Some(RequestId(1)));
    assert_eq!(s.alloc_local_request_id(), None);
    assert!(s.on_peer_max_request_id(RequestId(10)).is_ok());
    assert_eq!(s.alloc_local_request_id(), Some(RequestId(3)));
}

#[test]
fn peer_max_request_id_must_increase() {
    let mut s = server_session(100, 10);
    assert_eq!(
        s.on_peer_max_request_id(RequestId(5)),
        Err(SessionError::ProtocolViolation)
    );
    assert_eq!(
        s.on_peer_max_request_id(RequestId(10)),
        Err(SessionError::ProtocolViolation)
    );
    assert!(s.on_peer_max_request_id(RequestId(20)).is_ok());
}

#[test]
fn track_alias_monotonic() {
    let mut s = server_session(100, 100);
    assert_eq!(s.alloc_outbound_track_alias(), TrackAlias(1));
    assert_eq!(s.alloc_outbound_track_alias(), TrackAlias(2));
    assert_eq!(s.alloc_outbound_track_alias(), TrackAlias(3));
}

#[test]
fn bind_inbound_alias_duplicate_rejected() {
    let mut s = server_session(100, 100);
    let track = TrackKey {
        namespace: moq::moq_protocol::types::TrackNamespace::from_strings(&["a"]).unwrap(),
        name: b"v".to_vec(),
    };
    assert!(s.bind_inbound_alias(TrackAlias(1), track.clone()).is_ok());
    let track2 = TrackKey {
        namespace: moq::moq_protocol::types::TrackNamespace::from_strings(&["b"]).unwrap(),
        name: b"v".to_vec(),
    };
    assert_eq!(
        s.bind_inbound_alias(TrackAlias(1), track2),
        Err(SessionError::DuplicateTrackAlias)
    );
}

#[test]
fn client_session_ids() {
    let mut s: Session<u32> =
        Session::new(1u32, EndpointRole::Client, RequestId(100), RequestId(100));
    assert_eq!(s.alloc_local_request_id(), Some(RequestId(0)));
    assert_eq!(s.alloc_local_request_id(), Some(RequestId(2)));
    assert!(s.validate_peer_new_request_id(RequestId(1)).is_ok());
    assert!(s.validate_peer_new_request_id(RequestId(3)).is_ok());
}


#[test]
fn endpoint_role_first_ids() {
    assert_eq!(EndpointRole::Client.local_first_request_id(), RequestId(0));
    assert_eq!(EndpointRole::Client.peer_first_request_id(), RequestId(1));
    assert_eq!(EndpointRole::Server.local_first_request_id(), RequestId(1));
    assert_eq!(EndpointRole::Server.peer_first_request_id(), RequestId(0));
}

#[test]
fn endpoint_role_parity_check() {
    let server = EndpointRole::Server;
    assert!(server.is_valid_peer_request_id(RequestId(0)));
    assert!(server.is_valid_peer_request_id(RequestId(2)));
    assert!(!server.is_valid_peer_request_id(RequestId(1)));
    assert!(!server.is_valid_peer_request_id(RequestId(3)));

    let client = EndpointRole::Client;
    assert!(client.is_valid_peer_request_id(RequestId(1)));
    assert!(client.is_valid_peer_request_id(RequestId(3)));
    assert!(!client.is_valid_peer_request_id(RequestId(0)));
    assert!(!client.is_valid_peer_request_id(RequestId(2)));
}

#[test]
fn prefix_matching() {
    let ns = TrackNamespace::from_strings(&["example.com", "meeting", "room1"]).unwrap();

    let empty_prefix = TrackNamespacePrefix { fields: vec![] };
    assert!(prefix_matches_namespace(&empty_prefix, &ns));

    let one_field = TrackNamespacePrefix {
        fields: vec![b"example.com".to_vec()],
    };
    assert!(prefix_matches_namespace(&one_field, &ns));

    let two_fields = TrackNamespacePrefix {
        fields: vec![b"example.com".to_vec(), b"meeting".to_vec()],
    };
    assert!(prefix_matches_namespace(&two_fields, &ns));

    let exact = TrackNamespacePrefix {
        fields: vec![
            b"example.com".to_vec(),
            b"meeting".to_vec(),
            b"room1".to_vec(),
        ],
    };
    assert!(prefix_matches_namespace(&exact, &ns));

    let too_long = TrackNamespacePrefix {
        fields: vec![
            b"example.com".to_vec(),
            b"meeting".to_vec(),
            b"room1".to_vec(),
            b"extra".to_vec(),
        ],
    };
    assert!(!prefix_matches_namespace(&too_long, &ns));

    let wrong = TrackNamespacePrefix {
        fields: vec![b"other.com".to_vec()],
    };
    assert!(!prefix_matches_namespace(&wrong, &ns));
}

#[test]
fn track_key_hash_equality() {
    let k1 = TrackKey {
        namespace: TrackNamespace::from_strings(&["a", "b"]).unwrap(),
        name: b"video".to_vec(),
    };
    let k2 = TrackKey {
        namespace: TrackNamespace::from_strings(&["a", "b"]).unwrap(),
        name: b"video".to_vec(),
    };
    let k3 = TrackKey {
        namespace: TrackNamespace::from_strings(&["a", "b"]).unwrap(),
        name: b"audio".to_vec(),
    };
    let mut map = HashMap::new();
    map.insert(k1.clone(), 1);
    assert_eq!(map.get(&k2), Some(&1));
    assert_eq!(map.get(&k3), None);
}

#[test]
fn namespace_key_hash_equality() {
    let k1 = NamespaceKey(TrackNamespace::from_strings(&["a", "b"]).unwrap());
    let k2 = NamespaceKey(TrackNamespace::from_strings(&["a", "b"]).unwrap());
    let k3 = NamespaceKey(TrackNamespace::from_strings(&["a", "c"]).unwrap());
    let mut map = HashMap::new();
    map.insert(k1, 1);
    assert_eq!(map.get(&k2), Some(&1));
    assert_eq!(map.get(&k3), None);
}

