//! Per-session state of the relay: setup, GOAWAY, request-ID and
//! track-alias bookkeeping.
use vstd::prelude::*;
use crate::moq_protocol::error::SessionError;
use crate::moq_relay::types::{
    EndpointRole, NamespaceKey, NamespacePrefixKey, RequestId, SessionKey, TrackAlias, TrackKey,
};

verus! {

#[derive(Debug, Clone, Copy, PartialEq, Eq, Structural)]
pub enum SetupState {
    AwaitingPeerSetup,
    SetupComplete,
}

#[derive(Debug, Clone, PartialEq, Eq)]
pub struct GoawayState {
    pub received: bool,
    pub sent: bool,
    pub new_session_uri: Option<Vec<u8>>,
}

#[derive(Debug, Clone, PartialEq, Eq)]
pub struct RequestIdState {
    pub peer_next_expected: RequestId,
    pub local_next: RequestId,
    pub local_max_exclusive: RequestId,
    pub peer_max_exclusive: RequestId,
    pub sent_requests_blocked_for: Option<RequestId>,
}

#[derive(Debug, Clone, PartialEq, Eq)]
pub struct TrackAliasState {
    pub next_outbound: TrackAlias,
}

/// Whether `alias` is bound in `m`.
pub open spec fn spec_alias_bound(m: Seq<(TrackAlias, TrackKey)>, alias: TrackAlias) -> bool {
    exists|i: int| 0 <= i < m.len() && (#[trigger] m[i]).0 == alias
}

#[derive(Debug)]
pub struct Session<S> {
    pub id: S,
    pub role: EndpointRole,
    pub setup: SetupState,
    pub goaway: GoawayState,
    pub request_ids: RequestIdState,
    pub aliases: TrackAliasState,
    /// Namespaces this session has published, each once.
    pub published_namespaces: Vec<NamespaceKey>,
    pub subscribed_prefixes: Vec<NamespacePrefixKey>,
    /// Track aliases the peer assigned, each bound once.
    pub inbound_aliases: Vec<(TrackAlias, TrackKey)>,
    pub outbound_aliases: Vec<(TrackKey, TrackAlias)>,
}

impl<S: SessionKey> Session<S> {
    pub fn new(id: S, role: EndpointRole, initial_local_max: RequestId, initial_peer_max: RequestId) -> (r: Self)
        ensures
            r.id == id,
            r.role == role,
            r.setup == SetupState::AwaitingPeerSetup,
            !r.goaway.received && !r.goaway.sent && r.goaway.new_session_uri is None,
            r.request_ids.peer_next_expected.0 == role.spec_peer_first(),
            r.request_ids.local_next.0 == role.spec_local_first(),
            r.request_ids.local_max_exclusive == initial_local_max,
            r.request_ids.peer_max_exclusive == initial_peer_max,
            r.request_ids.sent_requests_blocked_for is None,
            r.aliases.next_outbound.0 == 1,
            r.published_namespaces@.len() == 0,
            r.subscribed_prefixes@.len() == 0,
            r.inbound_aliases@.len() == 0,
            r.outbound_aliases@.len() == 0,
    {
        Session {
            id,
            role,
            setup: SetupState::AwaitingPeerSetup,
            goaway: GoawayState { received: false, sent: false, new_session_uri: None },
            request_ids: RequestIdState {
                peer_next_expected: role.peer_first_request_id(),
                local_next: role.local_first_request_id(),
                local_max_exclusive: initial_local_max,
                peer_max_exclusive: initial_peer_max,
                sent_requests_blocked_for: None,
            },
            aliases: TrackAliasState { next_outbound: TrackAlias(1) },
            published_namespaces: Vec::new(),
            subscribed_prefixes: Vec::new(),
            inbound_aliases: Vec::new(),
            outbound_aliases: Vec::new(),
        }
    }

    /// Whether the peer's new request `id` would be accepted.
    pub open spec fn spec_peer_id_ok(&self, id: RequestId) -> bool {
        &&& id.0 % 2 == self.role.spec_peer_first()
        &&& id == self.request_ids.peer_next_expected
        &&& id.0 < self.request_ids.local_max_exclusive.0
    }

    /// Checks the request ID of a new request from the peer: it must have
    /// the peer's parity, be the next one expected, and be below the limit
    /// this side announced.
    pub fn validate_peer_new_request_id(&mut self, id: RequestId) -> (r: Result<(), SessionError>)
        requires
            old(self).spec_peer_id_ok(id) ==> id.0 + 2 <= u64::MAX,
        ensures
            (id.0 % 2 != old(self).role.spec_peer_first() || id != old(self).request_ids.peer_next_expected)
                ==> r == Err::<(), SessionError>(SessionError::InvalidRequestId) && *final(self) == *old(self),
            (id.0 % 2 == old(self).role.spec_peer_first() && id == old(self).request_ids.peer_next_expected
                && id.0 >= old(self).request_ids.local_max_exclusive.0)
                ==> r == Err::<(), SessionError>(SessionError::TooManyRequests) && *final(self) == *old(self),
            old(self).spec_peer_id_ok(id) ==> r is Ok && *final(self) == (Session {
                request_ids: RequestIdState { peer_next_expected: RequestId((id.0 + 2) as u64), ..old(self).request_ids },
                ..*old(self)
            }),
    {
        if !self.role.is_valid_peer_request_id(id) {
            return Err(SessionError::InvalidRequestId);
        }
        if id != self.request_ids.peer_next_expected {
            return Err(SessionError::InvalidRequestId);
        }
        if id.0 >= self.request_ids.local_max_exclusive.0 {
            return Err(SessionError::TooManyRequests);
        }
        self.request_ids.peer_next_expected = RequestId(id.0 + 2);
        Ok(())
    }

    /// Takes the next local request ID, unless the peer's limit is reached.
    pub fn alloc_local_request_id(&mut self) -> (r: Option<RequestId>)
        requires
            old(self).request_ids.local_next.0 < old(self).request_ids.peer_max_exclusive.0
                ==> old(self).request_ids.local_next.0 + 2 <= u64::MAX,
        ensures
            old(self).request_ids.local_next.0 >= old(self).request_ids.peer_max_exclusive.0
                ==> r is None && *final(self) == *old(self),
            old(self).request_ids.local_next.0 < old(self).request_ids.peer_max_exclusive.0
                ==> r == Some(old(self).request_ids.local_next) && *final(self) == (Session {
                request_ids: RequestIdState {
                    local_next: RequestId((old(self).request_ids.local_next.0 + 2) as u64),
                    ..old(self).request_ids
                },
                ..*old(self)
            }),
    {
        let id = self.request_ids.local_next;
        if id.0 >= self.request_ids.peer_max_exclusive.0 {
            return None;
        }
        self.request_ids.local_next = RequestId(id.0 + 2);
        Some(id)
    }

    /// Raises the peer's request-ID limit; a limit that does not grow is a
    /// protocol violation and changes nothing.
    pub fn on_peer_max_request_id(&mut self, max_exclusive: RequestId) -> (r: Result<(), SessionError>)
        ensures
            max_exclusive.0 <= old(self).request_ids.peer_max_exclusive.0
                ==> r == Err::<(), SessionError>(SessionError::ProtocolViolation) && *final(self) == *old(self),
            max_exclusive.0 > old(self).request_ids.peer_max_exclusive.0 ==> r is Ok && *final(self) == (Session {
                request_ids: RequestIdState {
                    peer_max_exclusive: max_exclusive,
                    sent_requests_blocked_for: None,
                    ..old(self).request_ids
                },
                ..*old(self)
            }),
    {
        if max_exclusive.0 <= self.request_ids.peer_max_exclusive.0 {
            return Err(SessionError::ProtocolViolation);
        }
        self.request_ids.peer_max_exclusive = max_exclusive;
        self.request_ids.sent_requests_blocked_for = None;
        Ok(())
    }

    /// Takes the next outbound track alias.
    pub fn alloc_outbound_track_alias(&mut self) -> (r: TrackAlias)
        requires
            old(self).aliases.next_outbound.0 < u64::MAX,
        ensures
            r == old(self).aliases.next_outbound,
            *final(self) == (Session { aliases: TrackAliasState { next_outbound: TrackAlias((r.0 + 1) as u64) }, ..*old(self) }),
    {
        let a = self.aliases.next_outbound;
        self.aliases.next_outbound = TrackAlias(a.0 + 1);
        a
    }

    /// Binds a track alias chosen by the peer; an alias may be bound once.
    pub fn bind_inbound_alias(&mut self, alias: TrackAlias, track: TrackKey) -> (r: Result<(), SessionError>)
        ensures
            spec_alias_bound(old(self).inbound_aliases@, alias)
                ==> r == Err::<(), SessionError>(SessionError::DuplicateTrackAlias) && *final(self) == *old(self),
            !spec_alias_bound(old(self).inbound_aliases@, alias) ==> r is Ok
                && final(self).inbound_aliases@ == old(self).inbound_aliases@.push((alias, track))
                && *final(self) == (Session { inbound_aliases: final(self).inbound_aliases, ..*old(self) }),
    {
        let mut i: usize = 0;
        while i < self.inbound_aliases.len()
            invariant
                i <= self.inbound_aliases@.len(),
                forall|j: int| 0 <= j < i ==> (#[trigger] self.inbound_aliases@[j]).0 != alias,
            decreases self.inbound_aliases@.len() - i,
        {
            if self.inbound_aliases[i].0 == alias {
                return Err(SessionError::DuplicateTrackAlias);
            }
            i = i + 1;
        }
        self.inbound_aliases.push((alias, track));
        Ok(())
    }
}

} // verus!
