//! What the relay is told and what it asks for in return.
use vstd::prelude::*;
use crate::moq_protocol::error::SessionError;
use crate::moq_protocol::message::ControlMessage;
use crate::moq_protocol::types::{KeyValuePair, Location};
use crate::moq_relay::types::{ControlChannel, EndpointRole, ForwardingPreference, ObjectStatus, RequestId, TrackAlias};

verus! {

#[derive(Debug)]
pub enum InputEvent<S> {
    SessionOpened {
        session: S,
        role: EndpointRole,
    },
    SessionClosed {
        session: S,
    },
    ControlMessageReceived {
        session: S,
        channel: ControlChannel,
        message: ControlMessage,
    },
    /// Object received on a subscription stream.
    SubscriptionObjectReceived {
        session: S,
        track_alias: TrackAlias,
        /// `None` for datagram objects.
        subgroup_id: Option<u64>,
        location: Location,
        forwarding_preference: ForwardingPreference,
        publisher_priority: Option<u8>,
        object_status: ObjectStatus,
        extensions: Vec<KeyValuePair>,
        payload: Vec<u8>,
    },
    FetchObjectReceived {
        session: S,
        fetch_request_id: RequestId,
        subgroup_id: Option<u64>,
        location: Location,
        forwarding_preference: ForwardingPreference,
        publisher_priority: Option<u8>,
        object_status: ObjectStatus,
        extensions: Vec<KeyValuePair>,
        payload: Vec<u8>,
    },
}

#[derive(Debug)]
pub enum OutputEvent<S> {
    SendControlMessage {
        session: S,
        channel: ControlChannel,
        message: ControlMessage,
    },
    CloseSession {
        session: S,
        error: SessionError,
        reason: String,
    },
    /// A relay changes no object property but the track alias.
    SendSubscriptionObject {
        session: S,
        track_alias: TrackAlias,
        subgroup_id: Option<u64>,
        location: Location,
        forwarding_preference: ForwardingPreference,
        publisher_priority: Option<u8>,
        object_status: ObjectStatus,
        extensions: Vec<KeyValuePair>,
        payload: Vec<u8>,
    },
    SendFetchObject {
        session: S,
        downstream_fetch_request_id: RequestId,
        subgroup_id: Option<u64>,
        location: Location,
        forwarding_preference: ForwardingPreference,
        publisher_priority: Option<u8>,
        object_status: ObjectStatus,
        extensions: Vec<KeyValuePair>,
        payload: Vec<u8>,
    },
}

} // verus!
