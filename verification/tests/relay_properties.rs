use std::collections::HashSet;

use moq::moq_protocol::error::SessionError;
use moq::moq_protocol::message::namespace::PublishNamespace;
use moq::moq_protocol::message::publish::PublishDone;
use moq::moq_protocol::message::request::RequestErrorMsg;
use moq::moq_protocol::message::setup::ClientSetup;
use moq::moq_protocol::message::session_control::Unsubscribe;
use moq::moq_protocol::message::subscribe::{Subscribe, SubscribeOk};
use moq::moq_protocol::message::ControlMessage;
use moq::moq_protocol::params::Parameters;
use moq::moq_protocol::types::{KeyValuePair, KvValue, ReasonPhrase, TrackNamespace};
use moq::moq_relay::events::{InputEvent, OutputEvent};
use moq::moq_relay::relay::{Relay, RelayConfig};
use moq::moq_relay::types::{ControlChannel, EndpointRole, NamespaceKey, RequestId, TrackKey};

fn relay_with_sessions(ids: &[u32]) -> Relay<u32> {
    let mut relay = Relay::new(RelayConfig {
        server_setup_parameters: Parameters::new(),
        initial_local_max_request_id_exclusive: RequestId(100),
        initial_peer_max_request_id_exclusive: RequestId(100),
    });
    for &id in ids {
        relay.on_event(InputEvent::SessionOpened {
            session: id,
            role: EndpointRole::Server,
        });
        relay.on_event(InputEvent::ControlMessageReceived {
            session: id,
            channel: ControlChannel::ControlStream,
            message: ControlMessage::ClientSetup(ClientSetup {
                parameters: Parameters::new(),
            }),
        });
    }
    relay
}

fn send(relay: &mut Relay<u32>, session: u32, message: ControlMessage) -> Vec<OutputEvent<u32>> {
    relay.on_event(InputEvent::ControlMessageReceived {
        session,
        channel: ControlChannel::ControlStream,
        message,
    })
}

fn publish(relay: &mut Relay<u32>, session: u32, request_id: u64, ns: &[&str]) -> Vec<OutputEvent<u32>> {
    send(
        relay,
        session,
        ControlMessage::PublishNamespace(PublishNamespace {
            request_id,
            track_namespace: TrackNamespace::from_strings(ns).unwrap(),
            parameters: Parameters::new(),
        }),
    )
}

fn subscribe(relay: &mut Relay<u32>, session: u32, request_id: u64, ns: &[&str], name: &[u8]) -> Vec<OutputEvent<u32>> {
    send(
        relay,
        session,
        ControlMessage::Subscribe(Subscribe {
            request_id,
            track_namespace: TrackNamespace::from_strings(ns).unwrap(),
            track_name: name.to_vec(),
            parameters: Parameters::new(),
        }),
    )
}

fn subscribe_ok(relay: &mut Relay<u32>, session: u32, request_id: u64, alias: u64) -> Vec<OutputEvent<u32>> {
    send(
        relay,
        session,
        ControlMessage::SubscribeOk(SubscribeOk {
            request_id,
            track_alias: alias,
            parameters: Parameters::new(),
            track_extensions: vec![],
        }),
    )
}

fn is_close(ev: &OutputEvent<u32>, session: u32, error: SessionError) -> bool {
    matches!(ev, OutputEvent::CloseSession { session: s, error: e, .. } if *s == session && *e == error)
}

#[test]
fn subscribe_ok_with_reused_alias_closes_publisher() {
    let mut relay = relay_with_sessions(&[1, 2]);
    publish(&mut relay, 1, 0, &["example.com"]);
    let a = subscribe(&mut relay, 2, 0, &["example.com", "room"], b"video");
    let b = subscribe(&mut relay, 2, 2, &["example.com", "room"], b"audio");
    assert_eq!(a.len(), 1);
    assert_eq!(b.len(), 1);
    assert!(subscribe_ok(&mut relay, 1, 1, 42).len() == 1);
    let out = subscribe_ok(&mut relay, 1, 3, 42);
    assert_eq!(out.len(), 1);
    assert!(is_close(&out[0], 1, SessionError::DuplicateTrackAlias));
}

#[test]
fn subscribe_ok_for_unknown_request_closes_publisher() {
    let mut relay = relay_with_sessions(&[1]);
    let out = subscribe_ok(&mut relay, 1, 99, 7);
    assert_eq!(out.len(), 1);
    assert!(is_close(&out[0], 1, SessionError::ProtocolViolation));
}

#[test]
fn request_error_for_unknown_request_is_ignored() {
    let mut relay = relay_with_sessions(&[1]);
    let out = send(
        &mut relay,
        1,
        ControlMessage::RequestError(RequestErrorMsg {
            request_id: 77,
            error_code: 0x1,
            retry_interval: 0,
            error_reason: ReasonPhrase(String::new()),
        }),
    );
    assert!(out.is_empty());
}

#[test]
fn new_publisher_is_asked_for_waiting_track() {
    let mut relay = relay_with_sessions(&[1, 2, 3]);
    publish(&mut relay, 1, 0, &["example.com"]);
    let up = subscribe(&mut relay, 2, 0, &["example.com", "room"], b"video");
    assert_eq!(up.len(), 1);
    let out = publish(&mut relay, 3, 0, &["example.com", "room"]);
    assert_eq!(out.len(), 2);
    assert!(matches!(
        &out[0],
        OutputEvent::SendControlMessage { session: 3, message: ControlMessage::RequestOk(ok), .. } if ok.request_id == 0
    ));
    match &out[1] {
        OutputEvent::SendControlMessage {
            session: 3,
            channel: ControlChannel::ControlStream,
            message: ControlMessage::Subscribe(sub),
        } => {
            assert_eq!(sub.request_id, 1);
            assert_eq!(
                sub.track_namespace,
                TrackNamespace::from_strings(&["example.com", "room"]).unwrap()
            );
            assert_eq!(sub.track_name, b"video".to_vec());
        }
        other => panic!("expected an upstream SUBSCRIBE, got {other:?}"),
    }
}

#[test]
fn subscribe_fans_out_to_each_publisher_once() {
    let mut relay = relay_with_sessions(&[1, 2, 3]);
    publish(&mut relay, 1, 0, &["example.com"]);
    publish(&mut relay, 3, 0, &["example.com", "room"]);
    let out = subscribe(&mut relay, 2, 0, &["example.com", "room"], b"video");
    assert_eq!(out.len(), 2);
    let targets: HashSet<u32> = out
        .iter()
        .map(|e| match e {
            OutputEvent::SendControlMessage {
                session,
                message: ControlMessage::Subscribe(sub),
                ..
            } => {
                assert_eq!(sub.request_id, 1);
                *session
            }
            other => panic!("expected SUBSCRIBE, got {other:?}"),
        })
        .collect();
    assert_eq!(targets, HashSet::from([1, 3]));
}

#[test]
fn closing_subscriber_unsubscribes_every_leg() {
    let mut relay = relay_with_sessions(&[1, 2, 3]);
    publish(&mut relay, 1, 0, &["example.com"]);
    publish(&mut relay, 3, 0, &["example.com"]);
    subscribe(&mut relay, 2, 0, &["example.com", "room"], b"video");
    let out = relay.on_event(InputEvent::SessionClosed { session: 2 });
    assert_eq!(out.len(), 2);
    let mut targets = HashSet::new();
    for e in &out {
        match e {
            OutputEvent::SendControlMessage {
                session,
                channel: ControlChannel::ControlStream,
                message: ControlMessage::Unsubscribe(u),
            } => {
                assert_eq!(u.request_id, 1);
                targets.insert(*session);
            }
            other => panic!("expected UNSUBSCRIBE, got {other:?}"),
        }
    }
    assert_eq!(targets, HashSet::from([1, 3]));
}

#[test]
fn closing_publisher_withdraws_only_its_namespaces() {
    let mut relay = relay_with_sessions(&[1, 3]);
    publish(&mut relay, 1, 0, &["example.com"]);
    publish(&mut relay, 3, 0, &["example.com"]);
    relay.on_event(InputEvent::SessionClosed { session: 1 });
    let ns = NamespaceKey(TrackNamespace::from_strings(&["example.com"]).unwrap());
    let pubs = relay.publishers_for_namespace(&ns).unwrap();
    assert!(!pubs.contains(&1));
    assert!(pubs.contains(&3));
}

#[test]
fn last_unsubscribe_drops_route_and_forgets_upstream_request() {
    let mut relay = relay_with_sessions(&[1, 2]);
    publish(&mut relay, 1, 0, &["example.com"]);
    subscribe(&mut relay, 2, 0, &["example.com"], b"video");
    let key = TrackKey {
        namespace: TrackNamespace::from_strings(&["example.com"]).unwrap(),
        name: b"video".to_vec(),
    };
    assert!(relay.track_route(&key).is_some());
    let out = send(&mut relay, 2, ControlMessage::Unsubscribe(Unsubscribe { request_id: 0 }));
    assert_eq!(out.len(), 1);
    assert!(relay.track_route(&key).is_none());
    // The upstream request was withdrawn: an answer to it is now a protocol
    // violation of the publisher.
    let late = subscribe_ok(&mut relay, 1, 1, 7);
    assert_eq!(late.len(), 1);
    assert!(is_close(&late[0], 1, SessionError::ProtocolViolation));
}

fn reopen(relay: &mut Relay<u32>, id: u32) {
    relay.on_event(InputEvent::SessionOpened {
        session: id,
        role: EndpointRole::Server,
    });
    send(
        relay,
        id,
        ControlMessage::ClientSetup(ClientSetup {
            parameters: Parameters::new(),
        }),
    );
}

fn close_reason(ev: &OutputEvent<u32>) -> &str {
    match ev {
        OutputEvent::CloseSession { reason, .. } => reason.as_str(),
        other => panic!("expected a close, got {other:?}"),
    }
}

#[test]
fn closing_publisher_forgets_its_upstream_requests() {
    let mut relay = relay_with_sessions(&[1, 2]);
    publish(&mut relay, 1, 0, &["example.com"]);
    let fanout = subscribe(&mut relay, 2, 0, &["example.com"], b"video");
    assert_eq!(fanout.len(), 1);
    relay.on_event(InputEvent::SessionClosed { session: 1 });
    reopen(&mut relay, 1);
    let out = subscribe_ok(&mut relay, 1, 1, 5);
    assert_eq!(out.len(), 1);
    assert!(is_close(&out[0], 1, SessionError::ProtocolViolation));
    assert_eq!(close_reason(&out[0]), "SUBSCRIBE_OK for unknown request ID");
}

#[test]
fn closing_subscriber_forgets_its_requests() {
    let mut relay = relay_with_sessions(&[1, 2]);
    publish(&mut relay, 1, 0, &["example.com"]);
    subscribe(&mut relay, 2, 0, &["example.com"], b"video");
    relay.on_event(InputEvent::SessionClosed { session: 2 });
    reopen(&mut relay, 2);
    let out = send(&mut relay, 2, ControlMessage::Unsubscribe(Unsubscribe { request_id: 0 }));
    assert_eq!(out.len(), 1);
    assert_eq!(close_reason(&out[0]), "UNSUBSCRIBE for unknown request ID");
}

#[test]
fn fanned_out_subscribe_ok_reaches_subscriber_with_extensions() {
    let mut relay = relay_with_sessions(&[1, 2, 3]);
    publish(&mut relay, 1, 0, &["example.com"]);
    publish(&mut relay, 3, 0, &["example.com"]);
    let fanout = subscribe(&mut relay, 2, 0, &["example.com"], b"video");
    assert_eq!(fanout.len(), 2);
    let extensions = vec![KeyValuePair {
        key: 2,
        value: KvValue::Varint(7),
    }];
    let out = send(
        &mut relay,
        3,
        ControlMessage::SubscribeOk(SubscribeOk {
            request_id: 1,
            track_alias: 9,
            parameters: Parameters::new(),
            track_extensions: extensions.clone(),
        }),
    );
    assert_eq!(out.len(), 1);
    match &out[0] {
        OutputEvent::SendControlMessage {
            session,
            channel: ControlChannel::ControlStream,
            message: ControlMessage::SubscribeOk(ok),
        } => {
            assert_eq!(*session, 2);
            assert_eq!(ok.request_id, 0);
            assert_eq!(ok.track_extensions, extensions);
            assert!(ok.parameters.is_empty());
        }
        other => panic!("expected SUBSCRIBE_OK, got {other:?}"),
    }
}

#[test]
fn publish_done_after_subscribe_ok_reaches_subscriber() {
    let mut relay = relay_with_sessions(&[1, 2]);
    publish(&mut relay, 1, 0, &["example.com"]);
    subscribe(&mut relay, 2, 0, &["example.com"], b"video");
    subscribe_ok(&mut relay, 1, 1, 9);
    let out = send(
        &mut relay,
        1,
        ControlMessage::PublishDone(PublishDone {
            request_id: 1,
            status_code: 2,
            stream_count: 5,
            error_reason: ReasonPhrase("track ended".to_string()),
        }),
    );
    assert_eq!(out.len(), 1);
    match &out[0] {
        OutputEvent::SendControlMessage {
            session,
            channel: ControlChannel::ControlStream,
            message: ControlMessage::PublishDone(d),
        } => {
            assert_eq!(*session, 2);
            assert_eq!(d.request_id, 0);
            assert_eq!(d.status_code, 2);
            assert_eq!(d.stream_count, 5);
            assert_eq!(d.error_reason, ReasonPhrase("track ended".to_string()));
        }
        other => panic!("expected PUBLISH_DONE, got {other:?}"),
    }
}

#[test]
fn only_subscriber_leaving_unsubscribes_each_publisher() {
    let mut relay = relay_with_sessions(&[1, 2, 3]);
    publish(&mut relay, 1, 0, &["example.com"]);
    publish(&mut relay, 3, 0, &["example.com"]);
    subscribe(&mut relay, 2, 0, &["example.com"], b"video");
    let out = send(&mut relay, 2, ControlMessage::Unsubscribe(Unsubscribe { request_id: 0 }));
    assert_eq!(out.len(), 2);
    let mut targets = HashSet::new();
    for e in &out {
        match e {
            OutputEvent::SendControlMessage {
                session,
                channel: ControlChannel::ControlStream,
                message: ControlMessage::Unsubscribe(u),
            } => {
                assert_eq!(u.request_id, 1);
                targets.insert(*session);
            }
            other => panic!("expected UNSUBSCRIBE, got {other:?}"),
        }
    }
    assert_eq!(targets, HashSet::from([1, 3]));
}

#[test]
fn closing_one_subscriber_keeps_the_others() {
    let mut relay = relay_with_sessions(&[1, 2, 3, 4]);
    publish(&mut relay, 1, 0, &["example.com"]);
    subscribe(&mut relay, 2, 0, &["example.com", "room"], b"video");
    subscribe(&mut relay, 3, 0, &["example.com", "room"], b"video");
    subscribe(&mut relay, 4, 0, &["example.com", "room"], b"audio");
    let out = relay.on_event(InputEvent::SessionClosed { session: 2 });
    assert!(out.is_empty());
    let video = TrackKey {
        namespace: TrackNamespace::from_strings(&["example.com", "room"]).unwrap(),
        name: b"video".to_vec(),
    };
    let audio = TrackKey {
        namespace: TrackNamespace::from_strings(&["example.com", "room"]).unwrap(),
        name: b"audio".to_vec(),
    };
    let route = relay.track_route(&video).unwrap();
    assert_eq!(route.downstream_subs.len(), 1);
    assert_eq!(route.downstream_subs[0].id.session, 3);
    assert_eq!(route.upstream_subs.len(), 1);
    let route = relay.track_route(&audio).unwrap();
    assert_eq!(route.downstream_subs.len(), 1);
    assert_eq!(route.upstream_subs.len(), 1);
    assert_eq!(relay.track_count(), 2);
}

#[test]
fn closing_sole_publisher_forgets_namespace_keeps_others() {
    let mut relay = relay_with_sessions(&[1, 3]);
    publish(&mut relay, 1, 0, &["example.com"]);
    publish(&mut relay, 3, 0, &["other.org"]);
    relay.on_event(InputEvent::SessionClosed { session: 1 });
    let gone = NamespaceKey(TrackNamespace::from_strings(&["example.com"]).unwrap());
    let kept = NamespaceKey(TrackNamespace::from_strings(&["other.org"]).unwrap());
    assert!(relay.publishers_for_namespace(&gone).is_none());
    assert_eq!(relay.publishers_for_namespace(&kept).unwrap(), &vec![3u32]);
}
