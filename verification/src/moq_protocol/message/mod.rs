//! Control messages: the framing of every message as a type, a 16-bit
//! payload length and the payload, and the dispatch on the type.
pub mod fetch;
pub mod namespace;
pub mod publish;
pub mod request;
pub mod session_control;
pub mod setup;
pub mod subscribe;

use vstd::prelude::*;
use crate::quic_varint::{spec_varint_bytes, spec_max_varint};
use crate::moq_protocol::codec::{
    write_bytes, write_u16, write_varint, Cursor, Decode, Encode, SpecParse, spec_encode_prefixed,
    spec_parse_u16, spec_u16_bytes,
};
use crate::moq_protocol::error::{Error, ErrorKind, Result, protocol_violation};
use crate::moq_protocol::params::{spec_encode_params, spec_parse_params};
use crate::moq_protocol::types::{KvSpec, spec_encode_namespace, spec_parse_namespace_prefix};
use crate::moq_protocol::varint::{spec_encode_varint, spec_parse_varint};
use crate::moq_protocol::codec::{lemma_varint_parse_roundtrip, lemma_prefixed_roundtrip, lemma_skip_concat, lemma_skip_skip, lemma_u16_roundtrip};
use crate::moq_protocol::params::{spec_sort_kvs, law_params_roundtrip};
use crate::moq_protocol::types::{spec_decodable_namespace, spec_decodable_prefix, law_namespace_prefix_roundtrip};
use crate::moq_protocol::message::fetch::{spec_decodable_fetch_type, law_fetch_roundtrip, law_fetch_ok_roundtrip, law_track_status_roundtrip};
use crate::moq_protocol::message::namespace::{law_publish_namespace_roundtrip, law_publish_namespace_cancel_roundtrip, law_subscribe_namespace_roundtrip};
use crate::moq_protocol::message::publish::{law_publish_roundtrip, law_publish_ok_roundtrip, law_publish_done_roundtrip};
use crate::moq_protocol::message::request::{law_request_ok_roundtrip, law_request_error_roundtrip, law_request_update_roundtrip};
use crate::moq_protocol::message::subscribe::{law_subscribe_roundtrip, law_subscribe_ok_roundtrip};
use crate::moq_protocol::message::fetch::{
    Fetch, FetchCancel, FetchOk, TrackStatus, FetchView, FetchOkView, TrackStatusView, spec_encode_fetch,
    spec_parse_fetch, spec_encode_fetch_ok, spec_parse_fetch_ok, spec_encode_track_status,
    spec_parse_track_status,
};
use crate::moq_protocol::message::namespace::{
    Namespace, NamespaceDone, PublishNamespace, PublishNamespaceCancel, PublishNamespaceDone,
    SubscribeNamespace, PublishNamespaceView, PublishNamespaceCancelView, SubscribeNamespaceView,
    spec_encode_publish_namespace, spec_parse_publish_namespace, spec_encode_publish_namespace_cancel,
    spec_parse_publish_namespace_cancel, spec_encode_subscribe_namespace,
    spec_parse_subscribe_namespace,
};
use crate::moq_protocol::message::publish::{
    Publish, PublishDone, PublishOk, PublishView, PublishOkView, PublishDoneView, spec_encode_publish,
    spec_parse_publish, spec_encode_publish_ok, spec_parse_publish_ok, spec_encode_publish_done,
    spec_parse_publish_done,
};
use crate::moq_protocol::message::request::{
    RequestErrorMsg, RequestOk, RequestUpdate, RequestOkView, RequestErrorMsgView, RequestUpdateView,
    spec_encode_request_ok, spec_parse_request_ok, spec_encode_request_error,
    spec_parse_request_error, spec_encode_request_update, spec_parse_request_update,
};
use crate::moq_protocol::message::session_control::{
    Goaway, MaxRequestId, RequestsBlocked, Unsubscribe, spec_parse_goaway,
};
use crate::moq_protocol::message::setup::{ClientSetup, ServerSetup};
use crate::moq_protocol::message::subscribe::{
    Subscribe, SubscribeOk, SubscribeView, SubscribeOkView, spec_encode_subscribe,
    spec_parse_subscribe, spec_encode_subscribe_ok, spec_parse_subscribe_ok,
};

verus! {

/// Control message types known by name.
#[derive(Debug, Clone, Copy, PartialEq, Eq, Structural)]
pub enum MessageTypes {
    ClientSetup,
}

impl MessageTypes {
    /// The message type on the wire.
    pub fn code(&self) -> (r: u64)
        ensures
            r == MSG_CLIENT_SETUP,
    {
        match self {
            MessageTypes::ClientSetup => MSG_CLIENT_SETUP,
        }
    }
}

pub const MSG_CLIENT_SETUP: u64 = 0x20;
pub const MSG_SERVER_SETUP: u64 = 0x21;
pub const MSG_GOAWAY: u64 = 0x10;
pub const MSG_MAX_REQUEST_ID: u64 = 0x15;
pub const MSG_REQUESTS_BLOCKED: u64 = 0x1A;
pub const MSG_REQUEST_OK: u64 = 0x07;
pub const MSG_REQUEST_ERROR: u64 = 0x05;
pub const MSG_SUBSCRIBE: u64 = 0x03;
pub const MSG_SUBSCRIBE_OK: u64 = 0x04;
pub const MSG_REQUEST_UPDATE: u64 = 0x02;
pub const MSG_UNSUBSCRIBE: u64 = 0x0A;
pub const MSG_PUBLISH: u64 = 0x1D;
pub const MSG_PUBLISH_OK: u64 = 0x1E;
pub const MSG_PUBLISH_DONE: u64 = 0x0B;
pub const MSG_FETCH: u64 = 0x16;
pub const MSG_FETCH_OK: u64 = 0x18;
pub const MSG_FETCH_CANCEL: u64 = 0x17;
pub const MSG_TRACK_STATUS: u64 = 0x0D;
pub const MSG_PUBLISH_NAMESPACE: u64 = 0x06;
pub const MSG_NAMESPACE: u64 = 0x08;
pub const MSG_PUBLISH_NAMESPACE_DONE: u64 = 0x09;
pub const MSG_NAMESPACE_DONE: u64 = 0x0E;
pub const MSG_PUBLISH_NAMESPACE_CANCEL: u64 = 0x0C;
pub const MSG_SUBSCRIBE_NAMESPACE: u64 = 0x11;

#[derive(Debug, Clone, PartialEq, Eq)]
pub enum ControlMessage {
    ClientSetup(ClientSetup),
    ServerSetup(ServerSetup),
    Goaway(Goaway),
    MaxRequestId(MaxRequestId),
    RequestsBlocked(RequestsBlocked),
    RequestOk(RequestOk),
    RequestError(RequestErrorMsg),
    Subscribe(Subscribe),
    SubscribeOk(SubscribeOk),
    RequestUpdate(RequestUpdate),
    Unsubscribe(Unsubscribe),
    Publish(Publish),
    PublishOk(PublishOk),
    PublishDone(PublishDone),
    Fetch(Fetch),
    FetchOk(FetchOk),
    FetchCancel(FetchCancel),
    TrackStatus(TrackStatus),
    PublishNamespace(PublishNamespace),
    Namespace(Namespace),
    PublishNamespaceDone(PublishNamespaceDone),
    NamespaceDone(NamespaceDone),
    PublishNamespaceCancel(PublishNamespaceCancel),
    SubscribeNamespace(SubscribeNamespace),
}

/// Mathematical value of a [`ControlMessage`].
pub enum ControlMessageView {
    ClientSetup(Seq<KvSpec>),
    ServerSetup(Seq<KvSpec>),
    Goaway(Seq<u8>),
    MaxRequestId(u64),
    RequestsBlocked(u64),
    RequestOk(RequestOkView),
    RequestError(RequestErrorMsgView),
    Subscribe(SubscribeView),
    SubscribeOk(SubscribeOkView),
    RequestUpdate(RequestUpdateView),
    Unsubscribe(u64),
    Publish(PublishView),
    PublishOk(PublishOkView),
    PublishDone(PublishDoneView),
    Fetch(FetchView),
    FetchOk(FetchOkView),
    FetchCancel(u64),
    TrackStatus(TrackStatusView),
    PublishNamespace(PublishNamespaceView),
    Namespace(Seq<Seq<u8>>),
    PublishNamespaceDone(u64),
    NamespaceDone(Seq<Seq<u8>>),
    PublishNamespaceCancel(PublishNamespaceCancelView),
    SubscribeNamespace(SubscribeNamespaceView),
}

impl View for ControlMessage {
    type V = ControlMessageView;

    open spec fn view(&self) -> ControlMessageView {
        match self {
            ControlMessage::ClientSetup(m) => ControlMessageView::ClientSetup(m@),
            ControlMessage::ServerSetup(m) => ControlMessageView::ServerSetup(m@),
            ControlMessage::Goaway(m) => ControlMessageView::Goaway(m@),
            ControlMessage::MaxRequestId(m) => ControlMessageView::MaxRequestId(m@),
            ControlMessage::RequestsBlocked(m) => ControlMessageView::RequestsBlocked(m@),
            ControlMessage::RequestOk(m) => ControlMessageView::RequestOk(m@),
            ControlMessage::RequestError(m) => ControlMessageView::RequestError(m@),
            ControlMessage::Subscribe(m) => ControlMessageView::Subscribe(m@),
            ControlMessage::SubscribeOk(m) => ControlMessageView::SubscribeOk(m@),
            ControlMessage::RequestUpdate(m) => ControlMessageView::RequestUpdate(m@),
            ControlMessage::Unsubscribe(m) => ControlMessageView::Unsubscribe(m@),
            ControlMessage::Publish(m) => ControlMessageView::Publish(m@),
            ControlMessage::PublishOk(m) => ControlMessageView::PublishOk(m@),
            ControlMessage::PublishDone(m) => ControlMessageView::PublishDone(m@),
            ControlMessage::Fetch(m) => ControlMessageView::Fetch(m@),
            ControlMessage::FetchOk(m) => ControlMessageView::FetchOk(m@),
            ControlMessage::FetchCancel(m) => ControlMessageView::FetchCancel(m@),
            ControlMessage::TrackStatus(m) => ControlMessageView::TrackStatus(m@),
            ControlMessage::PublishNamespace(m) => ControlMessageView::PublishNamespace(m@),
            ControlMessage::Namespace(m) => ControlMessageView::Namespace(m@),
            ControlMessage::PublishNamespaceDone(m) => ControlMessageView::PublishNamespaceDone(m@),
            ControlMessage::NamespaceDone(m) => ControlMessageView::NamespaceDone(m@),
            ControlMessage::PublishNamespaceCancel(m) => ControlMessageView::PublishNamespaceCancel(m@),
            ControlMessage::SubscribeNamespace(m) => ControlMessageView::SubscribeNamespace(m@),
        }
    }
}

/// Wire type of a message.
pub open spec fn spec_message_type(m: ControlMessageView) -> u64 {
    match m {
        ControlMessageView::ClientSetup(_) => MSG_CLIENT_SETUP,
        ControlMessageView::ServerSetup(_) => MSG_SERVER_SETUP,
        ControlMessageView::Goaway(_) => MSG_GOAWAY,
        ControlMessageView::MaxRequestId(_) => MSG_MAX_REQUEST_ID,
        ControlMessageView::RequestsBlocked(_) => MSG_REQUESTS_BLOCKED,
        ControlMessageView::RequestOk(_) => MSG_REQUEST_OK,
        ControlMessageView::RequestError(_) => MSG_REQUEST_ERROR,
        ControlMessageView::Subscribe(_) => MSG_SUBSCRIBE,
        ControlMessageView::SubscribeOk(_) => MSG_SUBSCRIBE_OK,
        ControlMessageView::RequestUpdate(_) => MSG_REQUEST_UPDATE,
        ControlMessageView::Unsubscribe(_) => MSG_UNSUBSCRIBE,
        ControlMessageView::Publish(_) => MSG_PUBLISH,
        ControlMessageView::PublishOk(_) => MSG_PUBLISH_OK,
        ControlMessageView::PublishDone(_) => MSG_PUBLISH_DONE,
        ControlMessageView::Fetch(_) => MSG_FETCH,
        ControlMessageView::FetchOk(_) => MSG_FETCH_OK,
        ControlMessageView::FetchCancel(_) => MSG_FETCH_CANCEL,
        ControlMessageView::TrackStatus(_) => MSG_TRACK_STATUS,
        ControlMessageView::PublishNamespace(_) => MSG_PUBLISH_NAMESPACE,
        ControlMessageView::Namespace(_) => MSG_NAMESPACE,
        ControlMessageView::PublishNamespaceDone(_) => MSG_PUBLISH_NAMESPACE_DONE,
        ControlMessageView::NamespaceDone(_) => MSG_NAMESPACE_DONE,
        ControlMessageView::PublishNamespaceCancel(_) => MSG_PUBLISH_NAMESPACE_CANCEL,
        ControlMessageView::SubscribeNamespace(_) => MSG_SUBSCRIBE_NAMESPACE,
    }
}

/// Payload bytes of a message.
pub open spec fn spec_encode_payload(m: ControlMessageView) -> core::result::Result<Seq<u8>, ErrorKind> {
    match m {
        ControlMessageView::ClientSetup(x) => spec_encode_params(x),
        ControlMessageView::ServerSetup(x) => spec_encode_params(x),
        ControlMessageView::Goaway(x) => spec_encode_prefixed(x),
        ControlMessageView::MaxRequestId(x) => spec_encode_varint(x),
        ControlMessageView::RequestsBlocked(x) => spec_encode_varint(x),
        ControlMessageView::RequestOk(x) => spec_encode_request_ok(x),
        ControlMessageView::RequestError(x) => spec_encode_request_error(x),
        ControlMessageView::Subscribe(x) => spec_encode_subscribe(x),
        ControlMessageView::SubscribeOk(x) => spec_encode_subscribe_ok(x),
        ControlMessageView::RequestUpdate(x) => spec_encode_request_update(x),
        ControlMessageView::Unsubscribe(x) => spec_encode_varint(x),
        ControlMessageView::Publish(x) => spec_encode_publish(x),
        ControlMessageView::PublishOk(x) => spec_encode_publish_ok(x),
        ControlMessageView::PublishDone(x) => spec_encode_publish_done(x),
        ControlMessageView::Fetch(x) => spec_encode_fetch(x),
        ControlMessageView::FetchOk(x) => spec_encode_fetch_ok(x),
        ControlMessageView::FetchCancel(x) => spec_encode_varint(x),
        ControlMessageView::TrackStatus(x) => spec_encode_track_status(x),
        ControlMessageView::PublishNamespace(x) => spec_encode_publish_namespace(x),
        ControlMessageView::Namespace(x) => spec_encode_namespace(x),
        ControlMessageView::PublishNamespaceDone(x) => spec_encode_varint(x),
        ControlMessageView::NamespaceDone(x) => spec_encode_namespace(x),
        ControlMessageView::PublishNamespaceCancel(x) => spec_encode_publish_namespace_cancel(x),
        ControlMessageView::SubscribeNamespace(x) => spec_encode_subscribe_namespace(x),
    }
}

/// Parser of the payload of a message of wire type `t`.
#[verifier::opaque]
pub open spec fn spec_parse_payload(t: u64, p: Seq<u8>) -> SpecParse<ControlMessageView> {
    if t == MSG_CLIENT_SETUP {
        match spec_parse_params(p) {
            Err(k) => Err(k),
            Ok((x, n)) => Ok((ControlMessageView::ClientSetup(x), n)),
        }
    } else if t == MSG_SERVER_SETUP {
        match spec_parse_params(p) {
            Err(k) => Err(k),
            Ok((x, n)) => Ok((ControlMessageView::ServerSetup(x), n)),
        }
    } else if t == MSG_GOAWAY {
        match spec_parse_goaway(p) {
            Err(k) => Err(k),
            Ok((x, n)) => Ok((ControlMessageView::Goaway(x), n)),
        }
    } else if t == MSG_MAX_REQUEST_ID {
        match spec_parse_varint(p) {
            Err(k) => Err(k),
            Ok((x, n)) => Ok((ControlMessageView::MaxRequestId(x), n)),
        }
    } else if t == MSG_REQUESTS_BLOCKED {
        match spec_parse_varint(p) {
            Err(k) => Err(k),
            Ok((x, n)) => Ok((ControlMessageView::RequestsBlocked(x), n)),
        }
    } else if t == MSG_REQUEST_OK {
        match spec_parse_request_ok(p) {
            Err(k) => Err(k),
            Ok((x, n)) => Ok((ControlMessageView::RequestOk(x), n)),
        }
    } else if t == MSG_REQUEST_ERROR {
        match spec_parse_request_error(p) {
            Err(k) => Err(k),
            Ok((x, n)) => Ok((ControlMessageView::RequestError(x), n)),
        }
    } else if t == MSG_SUBSCRIBE {
        match spec_parse_subscribe(p) {
            Err(k) => Err(k),
            Ok((x, n)) => Ok((ControlMessageView::Subscribe(x), n)),
        }
    } else if t == MSG_SUBSCRIBE_OK {
        match spec_parse_subscribe_ok(p) {
            Err(k) => Err(k),
            Ok((x, n)) => Ok((ControlMessageView::SubscribeOk(x), n)),
        }
    } else if t == MSG_REQUEST_UPDATE {
        match spec_parse_request_update(p) {
            Err(k) => Err(k),
            Ok((x, n)) => Ok((ControlMessageView::RequestUpdate(x), n)),
        }
    } else if t == MSG_UNSUBSCRIBE {
        match spec_parse_varint(p) {
            Err(k) => Err(k),
            Ok((x, n)) => Ok((ControlMessageView::Unsubscribe(x), n)),
        }
    } else if t == MSG_PUBLISH {
        match spec_parse_publish(p) {
            Err(k) => Err(k),
            Ok((x, n)) => Ok((ControlMessageView::Publish(x), n)),
        }
    } else if t == MSG_PUBLISH_OK {
        match spec_parse_publish_ok(p) {
            Err(k) => Err(k),
            Ok((x, n)) => Ok((ControlMessageView::PublishOk(x), n)),
        }
    } else if t == MSG_PUBLISH_DONE {
        match spec_parse_publish_done(p) {
            Err(k) => Err(k),
            Ok((x, n)) => Ok((ControlMessageView::PublishDone(x), n)),
        }
    } else if t == MSG_FETCH {
        match spec_parse_fetch(p) {
            Err(k) => Err(k),
            Ok((x, n)) => Ok((ControlMessageView::Fetch(x), n)),
        }
    } else if t == MSG_FETCH_OK {
        match spec_parse_fetch_ok(p) {
            Err(k) => Err(k),
            Ok((x, n)) => Ok((ControlMessageView::FetchOk(x), n)),
        }
    } else if t == MSG_FETCH_CANCEL {
        match spec_parse_varint(p) {
            Err(k) => Err(k),
            Ok((x, n)) => Ok((ControlMessageView::FetchCancel(x), n)),
        }
    } else if t == MSG_TRACK_STATUS {
        match spec_parse_track_status(p) {
            Err(k) => Err(k),
            Ok((x, n)) => Ok((ControlMessageView::TrackStatus(x), n)),
        }
    } else if t == MSG_PUBLISH_NAMESPACE {
        match spec_parse_publish_namespace(p) {
            Err(k) => Err(k),
            Ok((x, n)) => Ok((ControlMessageView::PublishNamespace(x), n)),
        }
    } else if t == MSG_NAMESPACE {
        match spec_parse_namespace_prefix(p) {
            Err(k) => Err(k),
            Ok((x, n)) => Ok((ControlMessageView::Namespace(x), n)),
        }
    } else if t == MSG_PUBLISH_NAMESPACE_DONE {
        match spec_parse_varint(p) {
            Err(k) => Err(k),
            Ok((x, n)) => Ok((ControlMessageView::PublishNamespaceDone(x), n)),
        }
    } else if t == MSG_NAMESPACE_DONE {
        match spec_parse_namespace_prefix(p) {
            Err(k) => Err(k),
            Ok((x, n)) => Ok((ControlMessageView::NamespaceDone(x), n)),
        }
    } else if t == MSG_PUBLISH_NAMESPACE_CANCEL {
        match spec_parse_publish_namespace_cancel(p) {
            Err(k) => Err(k),
            Ok((x, n)) => Ok((ControlMessageView::PublishNamespaceCancel(x), n)),
        }
    } else if t == MSG_SUBSCRIBE_NAMESPACE {
        match spec_parse_subscribe_namespace(p) {
            Err(k) => Err(k),
            Ok((x, n)) => Ok((ControlMessageView::SubscribeNamespace(x), n)),
        }
    } else {
        Err(ErrorKind::UnknownMessageType(t))
    }
}

/// A control message on the wire: its type, the payload length as a
/// big-endian u16, then the payload.
pub open spec fn spec_encode_control(m: ControlMessageView) -> core::result::Result<Seq<u8>, ErrorKind> {
    match spec_encode_payload(m) {
        Err(k) => Err(k),
        Ok(p) => if p.len() > 65535 {
            Err(ErrorKind::MessageTooLong)
        } else {
            Ok(spec_varint_bytes(spec_message_type(m)) + spec_u16_bytes(p.len() as u16) + p)
        },
    }
}

/// Parser of one control message at the start of `s`; the payload must
/// be used up by the message it carries.
pub open spec fn spec_decode_control(s: Seq<u8>) -> SpecParse<ControlMessageView> {
    match spec_parse_varint(s) {
        Err(k) => Err(k),
        Ok((t, n1)) => match spec_parse_u16(s.skip(n1 as int)) {
            Err(k) => Err(k),
            Ok((len, n2)) => if s.len() - (n1 + n2) < len {
                Err(ErrorKind::BufferTooShort)
            } else {
                match spec_parse_payload(t, s.skip((n1 + n2) as int).take(len as int)) {
                    Err(k) => Err(k),
                    Ok((m, used)) => if used != len {
                        Err(ErrorKind::ProtocolViolation)
                    } else {
                        Ok((m, (n1 + n2 + len) as nat))
                    },
                }
            },
        },
    }
}

impl ControlMessage {
    pub fn message_type(&self) -> (r: u64)
        ensures
            r == spec_message_type(self@),
    {
        match self {
            ControlMessage::ClientSetup(_) => MSG_CLIENT_SETUP,
            ControlMessage::ServerSetup(_) => MSG_SERVER_SETUP,
            ControlMessage::Goaway(_) => MSG_GOAWAY,
            ControlMessage::MaxRequestId(_) => MSG_MAX_REQUEST_ID,
            ControlMessage::RequestsBlocked(_) => MSG_REQUESTS_BLOCKED,
            ControlMessage::RequestOk(_) => MSG_REQUEST_OK,
            ControlMessage::RequestError(_) => MSG_REQUEST_ERROR,
            ControlMessage::Subscribe(_) => MSG_SUBSCRIBE,
            ControlMessage::SubscribeOk(_) => MSG_SUBSCRIBE_OK,
            ControlMessage::RequestUpdate(_) => MSG_REQUEST_UPDATE,
            ControlMessage::Unsubscribe(_) => MSG_UNSUBSCRIBE,
            ControlMessage::Publish(_) => MSG_PUBLISH,
            ControlMessage::PublishOk(_) => MSG_PUBLISH_OK,
            ControlMessage::PublishDone(_) => MSG_PUBLISH_DONE,
            ControlMessage::Fetch(_) => MSG_FETCH,
            ControlMessage::FetchOk(_) => MSG_FETCH_OK,
            ControlMessage::FetchCancel(_) => MSG_FETCH_CANCEL,
            ControlMessage::TrackStatus(_) => MSG_TRACK_STATUS,
            ControlMessage::PublishNamespace(_) => MSG_PUBLISH_NAMESPACE,
            ControlMessage::Namespace(_) => MSG_NAMESPACE,
            ControlMessage::PublishNamespaceDone(_) => MSG_PUBLISH_NAMESPACE_DONE,
            ControlMessage::NamespaceDone(_) => MSG_NAMESPACE_DONE,
            ControlMessage::PublishNamespaceCancel(_) => MSG_PUBLISH_NAMESPACE_CANCEL,
            ControlMessage::SubscribeNamespace(_) => MSG_SUBSCRIBE_NAMESPACE,
        }
    }

    fn encode_payload(&self, buf: &mut Vec<u8>) -> (r: Result<()>)
        ensures
            match spec_encode_payload(self@) {
                Ok(b) => r is Ok && final(buf)@ == old(buf)@ + b,
                Err(k) => r matches Err(e) && e.kind() == k,
            },
    {
        match self {
            ControlMessage::ClientSetup(m) => m.encode(buf),
            ControlMessage::ServerSetup(m) => m.encode(buf),
            ControlMessage::Goaway(m) => m.encode(buf),
            ControlMessage::MaxRequestId(m) => m.encode(buf),
            ControlMessage::RequestsBlocked(m) => m.encode(buf),
            ControlMessage::RequestOk(m) => m.encode(buf),
            ControlMessage::RequestError(m) => m.encode(buf),
            ControlMessage::Subscribe(m) => m.encode(buf),
            ControlMessage::SubscribeOk(m) => m.encode(buf),
            ControlMessage::RequestUpdate(m) => m.encode(buf),
            ControlMessage::Unsubscribe(m) => m.encode(buf),
            ControlMessage::Publish(m) => m.encode(buf),
            ControlMessage::PublishOk(m) => m.encode(buf),
            ControlMessage::PublishDone(m) => m.encode(buf),
            ControlMessage::Fetch(m) => m.encode(buf),
            ControlMessage::FetchOk(m) => m.encode(buf),
            ControlMessage::FetchCancel(m) => m.encode(buf),
            ControlMessage::TrackStatus(m) => m.encode(buf),
            ControlMessage::PublishNamespace(m) => m.encode(buf),
            ControlMessage::Namespace(m) => m.encode(buf),
            ControlMessage::PublishNamespaceDone(m) => m.encode(buf),
            ControlMessage::NamespaceDone(m) => m.encode(buf),
            ControlMessage::PublishNamespaceCancel(m) => m.encode(buf),
            ControlMessage::SubscribeNamespace(m) => m.encode(buf),
        }
    }
}

/// Decodes the payload of a message of wire type `msg_type`.
#[verifier::spinoff_prover]
#[verifier::rlimit(80)]
fn decode_payload(msg_type: u64, payload: &mut Cursor<'_>) -> (r: Result<ControlMessage>)
    ensures
        final(payload).data() == old(payload).data(),
        match spec_parse_payload(msg_type, old(payload).rest()) {
            Ok((v, n)) => r matches Ok(x) && x@ == v && n <= old(payload).rest().len()
                && final(payload).rest() == old(payload).rest().skip(n as int),
            Err(k) => r matches Err(e) && e.kind() == k,
        },
{
    reveal(spec_parse_payload);
    if msg_type == MSG_CLIENT_SETUP {
        match ClientSetup::decode(payload) {
            Ok(m) => Ok(ControlMessage::ClientSetup(m)),
            Err(e) => Err(e),
        }
    } else if msg_type == MSG_SERVER_SETUP {
        match ServerSetup::decode(payload) {
            Ok(m) => Ok(ControlMessage::ServerSetup(m)),
            Err(e) => Err(e),
        }
    } else if msg_type == MSG_GOAWAY {
        match Goaway::decode(payload) {
            Ok(m) => Ok(ControlMessage::Goaway(m)),
            Err(e) => Err(e),
        }
    } else if msg_type == MSG_MAX_REQUEST_ID {
        match MaxRequestId::decode(payload) {
            Ok(m) => Ok(ControlMessage::MaxRequestId(m)),
            Err(e) => Err(e),
        }
    } else if msg_type == MSG_REQUESTS_BLOCKED {
        match RequestsBlocked::decode(payload) {
            Ok(m) => Ok(ControlMessage::RequestsBlocked(m)),
            Err(e) => Err(e),
        }
    } else if msg_type == MSG_REQUEST_OK {
        match RequestOk::decode(payload) {
            Ok(m) => Ok(ControlMessage::RequestOk(m)),
            Err(e) => Err(e),
        }
    } else if msg_type == MSG_REQUEST_ERROR {
        match RequestErrorMsg::decode(payload) {
            Ok(m) => Ok(ControlMessage::RequestError(m)),
            Err(e) => Err(e),
        }
    } else if msg_type == MSG_SUBSCRIBE {
        match Subscribe::decode(payload) {
            Ok(m) => Ok(ControlMessage::Subscribe(m)),
            Err(e) => Err(e),
        }
    } else if msg_type == MSG_SUBSCRIBE_OK {
        match SubscribeOk::decode(payload) {
            Ok(m) => Ok(ControlMessage::SubscribeOk(m)),
            Err(e) => Err(e),
        }
    } else if msg_type == MSG_REQUEST_UPDATE {
        match RequestUpdate::decode(payload) {
            Ok(m) => Ok(ControlMessage::RequestUpdate(m)),
            Err(e) => Err(e),
        }
    } else if msg_type == MSG_UNSUBSCRIBE {
        match Unsubscribe::decode(payload) {
            Ok(m) => Ok(ControlMessage::Unsubscribe(m)),
            Err(e) => Err(e),
        }
    } else if msg_type == MSG_PUBLISH {
        match Publish::decode(payload) {
            Ok(m) => Ok(ControlMessage::Publish(m)),
            Err(e) => Err(e),
        }
    } else if msg_type == MSG_PUBLISH_OK {
        match PublishOk::decode(payload) {
            Ok(m) => Ok(ControlMessage::PublishOk(m)),
            Err(e) => Err(e),
        }
    } else if msg_type == MSG_PUBLISH_DONE {
        match PublishDone::decode(payload) {
            Ok(m) => Ok(ControlMessage::PublishDone(m)),
            Err(e) => Err(e),
        }
    } else if msg_type == MSG_FETCH {
        match Fetch::decode(payload) {
            Ok(m) => Ok(ControlMessage::Fetch(m)),
            Err(e) => Err(e),
        }
    } else if msg_type == MSG_FETCH_OK {
        match FetchOk::decode(payload) {
            Ok(m) => Ok(ControlMessage::FetchOk(m)),
            Err(e) => Err(e),
        }
    } else if msg_type == MSG_FETCH_CANCEL {
        match FetchCancel::decode(payload) {
            Ok(m) => Ok(ControlMessage::FetchCancel(m)),
            Err(e) => Err(e),
        }
    } else if msg_type == MSG_TRACK_STATUS {
        match TrackStatus::decode(payload) {
            Ok(m) => Ok(ControlMessage::TrackStatus(m)),
            Err(e) => Err(e),
        }
    } else if msg_type == MSG_PUBLISH_NAMESPACE {
        match PublishNamespace::decode(payload) {
            Ok(m) => Ok(ControlMessage::PublishNamespace(m)),
            Err(e) => Err(e),
        }
    } else if msg_type == MSG_NAMESPACE {
        match Namespace::decode(payload) {
            Ok(m) => Ok(ControlMessage::Namespace(m)),
            Err(e) => Err(e),
        }
    } else if msg_type == MSG_PUBLISH_NAMESPACE_DONE {
        match PublishNamespaceDone::decode(payload) {
            Ok(m) => Ok(ControlMessage::PublishNamespaceDone(m)),
            Err(e) => Err(e),
        }
    } else if msg_type == MSG_NAMESPACE_DONE {
        match NamespaceDone::decode(payload) {
            Ok(m) => Ok(ControlMessage::NamespaceDone(m)),
            Err(e) => Err(e),
        }
    } else if msg_type == MSG_PUBLISH_NAMESPACE_CANCEL {
        match PublishNamespaceCancel::decode(payload) {
            Ok(m) => Ok(ControlMessage::PublishNamespaceCancel(m)),
            Err(e) => Err(e),
        }
    } else if msg_type == MSG_SUBSCRIBE_NAMESPACE {
        match SubscribeNamespace::decode(payload) {
            Ok(m) => Ok(ControlMessage::SubscribeNamespace(m)),
            Err(e) => Err(e),
        }
    } else {
        Err(Error::UnknownMessageType(msg_type))
    }
}

/// Appends a framed control message to `buf`. On an error the type has
/// already been written, and the error is the one the payload's encoder
/// gave, passed on as it is (its kind names it in full: the only encoding
/// error with a text, a key-value formatting error, keeps the rule it
/// names).
pub fn encode_control_message(msg: &ControlMessage, buf: &mut Vec<u8>) -> (r: Result<()>)
    ensures
        match spec_encode_control(msg@) {
            Ok(b) => r is Ok && final(buf)@ == old(buf)@ + b,
            Err(k) => r matches Err(e) && e.kind() == k
                && final(buf)@ == old(buf)@ + spec_varint_bytes(spec_message_type(msg@)),
        },
{
    let t = msg.message_type();
    match write_varint(buf, t) {
        Ok(()) => {},
        Err(e) => return Err(e),
    }
    let ghost mid = buf@;
    let mut payload: Vec<u8> = Vec::new();
    match msg.encode_payload(&mut payload) {
        Ok(()) => {},
        Err(e) => return Err(e),
    }
    assert(payload@ =~= spec_encode_payload(msg@)->Ok_0);
    if payload.len() > 65535 {
        return Err(Error::MessageTooLong);
    }
    write_u16(buf, payload.len() as u16);
    write_bytes(buf, payload.as_slice());
    assert(buf@ =~= old(buf)@ + spec_encode_control(msg@)->Ok_0);
    Ok(())
}

/// Decodes one framed control message from the start of `buf`; returns
/// the message and the number of bytes it took.
pub fn decode_control_message(buf: &[u8]) -> (r: Result<(ControlMessage, usize)>)
    ensures
        match spec_decode_control(buf@) {
            Ok((v, n)) => r matches Ok((m, used)) && m@ == v && used == n,
            Err(k) => r matches Err(e) && e.kind() == k,
        },
{
    let ghost s = buf@;
    let mut outer = Cursor::new(buf);
    let msg_type = match outer.read_varint() {
        Ok(t) => t,
        Err(e) => return Err(e),
    };
    let ghost n1 = spec_parse_varint(s)->Ok_0.1;
    let msg_len = match outer.read_u16() {
        Ok(l) => l as usize,
        Err(e) => return Err(e),
    };
    proof {
        crate::moq_protocol::codec::lemma_parse_varint_len(s);
        assert(s.skip(n1 as int).skip(2) =~= s.skip((n1 + 2) as int));
    }
    if outer.remaining() < msg_len {
        return Err(Error::BufferTooShort);
    }
    let mut payload = match outer.split(msg_len) {
        Ok(p) => p,
        Err(e) => return Err(e),
    };
    let total_consumed = outer.position();
    let msg = match decode_payload(msg_type, &mut payload) {
        Ok(m) => m,
        Err(e) => return Err(e),
    };
    if payload.remaining() != 0 {
        return Err(protocol_violation("trailing bytes in control message payload"));
    }
    Ok((msg, total_consumed))
}

/// What a decoder gives back for a message: the same message with every
/// parameter list in key order.
pub open spec fn spec_normalize(m: ControlMessageView) -> ControlMessageView {
    match m {
        ControlMessageView::ClientSetup(ps) => ControlMessageView::ClientSetup(spec_sort_kvs(ps)),
        ControlMessageView::ServerSetup(ps) => ControlMessageView::ServerSetup(spec_sort_kvs(ps)),
        ControlMessageView::RequestOk(v) => ControlMessageView::RequestOk(
            RequestOkView { request_id: v.request_id, parameters: spec_sort_kvs(v.parameters) }),
        ControlMessageView::Subscribe(v) => ControlMessageView::Subscribe(SubscribeView {
            request_id: v.request_id,
            track_namespace: v.track_namespace,
            track_name: v.track_name,
            parameters: spec_sort_kvs(v.parameters),
        }),
        ControlMessageView::SubscribeOk(v) => ControlMessageView::SubscribeOk(SubscribeOkView {
            request_id: v.request_id,
            track_alias: v.track_alias,
            parameters: spec_sort_kvs(v.parameters),
            track_extensions: v.track_extensions,
        }),
        ControlMessageView::RequestUpdate(v) => ControlMessageView::RequestUpdate(RequestUpdateView {
            request_id: v.request_id,
            existing_request_id: v.existing_request_id,
            parameters: spec_sort_kvs(v.parameters),
        }),
        ControlMessageView::Publish(v) => ControlMessageView::Publish(PublishView {
            request_id: v.request_id,
            track_namespace: v.track_namespace,
            track_name: v.track_name,
            track_alias: v.track_alias,
            parameters: spec_sort_kvs(v.parameters),
            track_extensions: v.track_extensions,
        }),
        ControlMessageView::PublishOk(v) => ControlMessageView::PublishOk(
            PublishOkView { request_id: v.request_id, parameters: spec_sort_kvs(v.parameters) }),
        ControlMessageView::Fetch(v) => ControlMessageView::Fetch(
            FetchView { request_id: v.request_id, fetch_type: v.fetch_type, parameters: spec_sort_kvs(v.parameters) }),
        ControlMessageView::FetchOk(v) => ControlMessageView::FetchOk(FetchOkView {
            request_id: v.request_id,
            end_of_track: v.end_of_track,
            end_location: v.end_location,
            parameters: spec_sort_kvs(v.parameters),
            track_extensions: v.track_extensions,
        }),
        ControlMessageView::TrackStatus(v) => ControlMessageView::TrackStatus(TrackStatusView {
            request_id: v.request_id,
            track_namespace: v.track_namespace,
            track_name: v.track_name,
            parameters: spec_sort_kvs(v.parameters),
        }),
        ControlMessageView::PublishNamespace(v) => ControlMessageView::PublishNamespace(PublishNamespaceView {
            request_id: v.request_id,
            track_namespace: v.track_namespace,
            parameters: spec_sort_kvs(v.parameters),
        }),
        ControlMessageView::SubscribeNamespace(v) => ControlMessageView::SubscribeNamespace(SubscribeNamespaceView {
            request_id: v.request_id,
            track_namespace_prefix: v.track_namespace_prefix,
            subscribe_options: v.subscribe_options,
            parameters: spec_sort_kvs(v.parameters),
        }),
        _ => m,
    }
}

/// What the decoder accepts beyond what the encoder checks: namespaces of
/// 1 to 32 non-empty fields, prefixes of at most 32 non-empty fields, and
/// GOAWAY URIs of at most 8192 bytes.
pub open spec fn spec_decodable_message(m: ControlMessageView) -> bool {
    match m {
        ControlMessageView::Goaway(u) => u.len() <= 8192,
        ControlMessageView::Subscribe(v) => spec_decodable_namespace(v.track_namespace),
        ControlMessageView::Publish(v) => spec_decodable_namespace(v.track_namespace),
        ControlMessageView::TrackStatus(v) => spec_decodable_namespace(v.track_namespace),
        ControlMessageView::PublishNamespace(v) => spec_decodable_namespace(v.track_namespace),
        ControlMessageView::Fetch(v) => spec_decodable_fetch_type(v.fetch_type),
        ControlMessageView::Namespace(fs) => spec_decodable_prefix(fs),
        ControlMessageView::NamespaceDone(fs) => spec_decodable_prefix(fs),
        ControlMessageView::SubscribeNamespace(v) => spec_decodable_prefix(v.track_namespace_prefix),
        _ => true,
    }
}

proof fn lemma_varint_payload(v: u64)
    requires
        spec_encode_varint(v) is Ok,
    ensures
        spec_parse_varint(spec_encode_varint(v)->Ok_0) == Ok::<(u64, nat), ErrorKind>((v, spec_encode_varint(v)->Ok_0.len())),
{
    lemma_varint_parse_roundtrip(v, Seq::empty());
    assert(spec_encode_varint(v)->Ok_0 + Seq::<u8>::empty() =~= spec_encode_varint(v)->Ok_0);
}

#[verifier::rlimit(60)]
proof fn lemma_payload_roundtrip(m: ControlMessageView)
    requires
        spec_encode_payload(m) is Ok,
        spec_decodable_message(m),
    ensures
        spec_parse_payload(spec_message_type(m), spec_encode_payload(m)->Ok_0)
            == Ok::<(ControlMessageView, nat), ErrorKind>((spec_normalize(m), spec_encode_payload(m)->Ok_0.len())),
{
    reveal(spec_parse_payload);
    let e = Seq::<u8>::empty();
    let p = spec_encode_payload(m)->Ok_0;
    assert(p + e =~= p);
    match m {
        ControlMessageView::ClientSetup(x) => law_params_roundtrip(x, e),
        ControlMessageView::ServerSetup(x) => law_params_roundtrip(x, e),
        ControlMessageView::Goaway(x) => lemma_prefixed_roundtrip(x, e),
        ControlMessageView::MaxRequestId(x) => lemma_varint_payload(x),
        ControlMessageView::RequestsBlocked(x) => lemma_varint_payload(x),
        ControlMessageView::RequestOk(x) => law_request_ok_roundtrip(x),
        ControlMessageView::RequestError(x) => law_request_error_roundtrip(x),
        ControlMessageView::Subscribe(x) => law_subscribe_roundtrip(x),
        ControlMessageView::SubscribeOk(x) => law_subscribe_ok_roundtrip(x),
        ControlMessageView::RequestUpdate(x) => law_request_update_roundtrip(x),
        ControlMessageView::Unsubscribe(x) => lemma_varint_payload(x),
        ControlMessageView::Publish(x) => law_publish_roundtrip(x),
        ControlMessageView::PublishOk(x) => law_publish_ok_roundtrip(x),
        ControlMessageView::PublishDone(x) => law_publish_done_roundtrip(x),
        ControlMessageView::Fetch(x) => law_fetch_roundtrip(x),
        ControlMessageView::FetchOk(x) => law_fetch_ok_roundtrip(x),
        ControlMessageView::FetchCancel(x) => lemma_varint_payload(x),
        ControlMessageView::TrackStatus(x) => law_track_status_roundtrip(x),
        ControlMessageView::PublishNamespace(x) => law_publish_namespace_roundtrip(x),
        ControlMessageView::Namespace(x) => law_namespace_prefix_roundtrip(x, e),
        ControlMessageView::PublishNamespaceDone(x) => lemma_varint_payload(x),
        ControlMessageView::NamespaceDone(x) => law_namespace_prefix_roundtrip(x, e),
        ControlMessageView::PublishNamespaceCancel(x) => law_publish_namespace_cancel_roundtrip(x),
        ControlMessageView::SubscribeNamespace(x) => law_subscribe_namespace_roundtrip(x),
    }
}

/// A framed control message that the decoder accepts reads back as the
/// message written, its parameters in key order, whatever bytes follow it;
/// the decoder reports exactly the bytes of the frame as used.
pub proof fn law_control_roundtrip(m: ControlMessageView, rest: Seq<u8>)
    requires
        spec_encode_control(m) is Ok,
        spec_decodable_message(m),
    ensures
        spec_decode_control(spec_encode_control(m)->Ok_0 + rest)
            == Ok::<(ControlMessageView, nat), ErrorKind>((spec_normalize(m), spec_encode_control(m)->Ok_0.len())),
{
    let t = spec_message_type(m);
    let p = spec_encode_payload(m)->Ok_0;
    let a = spec_varint_bytes(t);
    let b = spec_u16_bytes(p.len() as u16);
    let s = spec_encode_control(m)->Ok_0 + rest;
    assert(s =~= a + (b + (p + rest)));
    crate::quic_varint::lemma_varint_roundtrip(t, b + (p + rest));
    crate::quic_varint::lemma_varint_bytes_len(t);
    lemma_skip_concat(a, b + (p + rest));
    lemma_u16_roundtrip(p.len() as u16, p + rest);
    lemma_skip_skip(s, a.len(), 2);
    assert(s.skip((a.len() + 2) as int) =~= p + rest);
    assert((p + rest).take(p.len() as int) =~= p);
    lemma_payload_roundtrip(m);
    assert(spec_parse_varint(s) == Ok::<(u64, nat), ErrorKind>((t, a.len())));
    assert(spec_parse_u16(s.skip(a.len() as int)) == Ok::<(u16, nat), ErrorKind>((p.len() as u16, 2)));
    assert(s.skip((a.len() + 2) as int).take(p.len() as int) == p);
}

} // verus!
