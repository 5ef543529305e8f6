//! The relay's state machine: sessions, published namespaces and
//! per-track subscription routing, driven one input event at a time.
use vstd::prelude::*;
use crate::moq_protocol::error::{RequestErrorCode, SessionError};
use crate::moq_protocol::message::ControlMessage;
use crate::moq_protocol::message::namespace::PublishNamespace;
use crate::moq_protocol::message::publish::PublishDone;
use crate::moq_protocol::message::request::{RequestErrorMsg, RequestOk};
use crate::moq_protocol::message::session_control::{Goaway, MaxRequestId, RequestsBlocked, Unsubscribe};
use crate::moq_protocol::message::setup::{ClientSetup, ServerSetup};
use crate::moq_protocol::message::subscribe::{Subscribe, SubscribeOk};
use crate::moq_protocol::params::{Parameters, PARAM_MAX_REQUEST_ID, spec_get_varint};
use crate::moq_protocol::types::{KvSpec, KvValueSpec, ReasonPhrase, TrackNamespace, fields_prefix, spec_fields_prefix, copy_pairs, spec_kvs_view};
use crate::moq_relay::events::{InputEvent, OutputEvent};
use crate::moq_relay::route::{
    DownstreamSubState, DownstreamSubscription, SubscriptionId, TrackRoute, UpstreamSubState,
    UpstreamSubscriptionLeg, spec_has_established_upstream, spec_leg_of, spec_end_leg, spec_is_pending,
    spec_is_established, spec_leg_active, spec_all_upstream_terminated, spec_done_sel, spec_end_ds,
    spec_no_active_downstream, spec_ups_has, spec_ups_without, lemma_ups_without_has, spec_ds_without_session,
    lemma_ups_without_none, lemma_ups_without_same, lemma_ds_without_session_none, lemma_ups_without_keeps,
    spec_ds_without, lemma_ds_without_none, spec_ds_ids_of_session, lemma_ds_ids_of_session_has,
    spec_first_leg_is, lemma_first_leg_insert, lemma_first_leg_new, spec_ds_is,
    lemma_ups_without_distinct, lemma_ds_without_distinct, lemma_ds_without_session_distinct,
};
use crate::moq_relay::session::{RequestIdState, Session, SetupState, spec_alias_bound};
use crate::first_pos::{spec_first_pos, lemma_first_pos, lemma_first_pos_at, lemma_first_pos_cons, lemma_first_pos_push};
use crate::moq_relay::types::{
    ControlChannel, EndpointRole, NamespaceKey, RequestId, SessionKey, TrackAlias, TrackKey,
};

verus! {

pub struct RelayConfig {
    pub server_setup_parameters: Parameters,
    pub initial_local_max_request_id_exclusive: RequestId,
    pub initial_peer_max_request_id_exclusive: RequestId,
}

pub struct Relay<S> {
    config: RelayConfig,
    sessions: Vec<Session<S>>,
    /// Namespace, and the sessions that published it.
    publishers_by_namespace: Vec<(NamespaceKey, Vec<S>)>,
    /// One route per track.
    tracks: Vec<TrackRoute<S>>,
    /// (publisher session, upstream request ID) to the track it serves, to
    /// find the route of a SUBSCRIBE_OK, REQUEST_ERROR or PUBLISH_DONE.
    upstream_request_index: Vec<(S, RequestId, TrackKey)>,
    /// (subscriber session, downstream request ID) to its track, to find
    /// the route of an UNSUBSCRIBE.
    downstream_request_index: Vec<(S, RequestId, TrackKey)>,
}

/// Whether no two sessions share an ID.
pub open spec fn spec_unique_sessions<S>(ss: Seq<Session<S>>) -> bool {
    forall|i: int, j: int| 0 <= i < ss.len() && 0 <= j < ss.len() && i != j ==> ss[i].id != ss[j].id
}

/// Whether no two routes serve the same track.
pub open spec fn spec_unique_tracks<S>(ts: Seq<TrackRoute<S>>) -> bool {
    forall|i: int, j: int| 0 <= i < ts.len() && 0 <= j < ts.len() && i != j ==> ts[i].track@ != ts[j].track@
}

/// Whether no two downstream subscriptions of route `r` share an ID and
/// no two of its upstream legs lead to the same publisher.
pub open spec fn spec_route_unique<S>(r: TrackRoute<S>) -> bool {
    &&& forall|i: int, j: int| 0 <= i < j < r.downstream_subs@.len()
        ==> (#[trigger] r.downstream_subs@[i]).id != (#[trigger] r.downstream_subs@[j]).id
    &&& forall|i: int, j: int| 0 <= i < j < r.upstream_subs@.len()
        ==> (#[trigger] r.upstream_subs@[i]).publisher_session != (#[trigger] r.upstream_subs@[j]).publisher_session
}

/// A route whose subscriptions and legs keep their IDs and publishers,
/// place by place, stays free of repeats.
proof fn lemma_route_unique_same_ids<S>(a: TrackRoute<S>, b: TrackRoute<S>)
    requires
        spec_route_unique(a),
        b.downstream_subs@.len() == a.downstream_subs@.len(),
        b.upstream_subs@.len() == a.upstream_subs@.len(),
        forall|j: int| 0 <= j < a.downstream_subs@.len() ==> (#[trigger] b.downstream_subs@[j]).id == a.downstream_subs@[j].id,
        forall|j: int| 0 <= j < a.upstream_subs@.len() ==> (#[trigger] b.upstream_subs@[j]).publisher_session == a.upstream_subs@[j].publisher_session,
    ensures
        spec_route_unique(b),
{
    assert forall|i: int, j: int| 0 <= i < j < b.downstream_subs@.len() implies
        (#[trigger] b.downstream_subs@[i]).id != (#[trigger] b.downstream_subs@[j]).id by {
        assert(a.downstream_subs@[i].id != a.downstream_subs@[j].id);
    }
    assert forall|i: int, j: int| 0 <= i < j < b.upstream_subs@.len() implies
        (#[trigger] b.upstream_subs@[i]).publisher_session != (#[trigger] b.upstream_subs@[j]).publisher_session by {
        assert(a.upstream_subs@[i].publisher_session != a.upstream_subs@[j].publisher_session);
    }
}

/// Recording a leg in a route free of repeats keeps it so.
proof fn lemma_route_unique_insert_up<S>(a: TrackRoute<S>, b: TrackRoute<S>, leg: UpstreamSubscriptionLeg<S>)
    requires
        spec_route_unique(a),
        b.downstream_subs@ == a.downstream_subs@,
        b.upstream_subs@ == spec_ups_without(a.upstream_subs@, leg.publisher_session).push(leg),
    ensures
        spec_route_unique(b),
{
    let w = spec_ups_without(a.upstream_subs@, leg.publisher_session);
    lemma_ups_without_distinct(a.upstream_subs@, leg.publisher_session);
    lemma_ups_without_none(a.upstream_subs@, leg.publisher_session);
    let u = b.upstream_subs@;
    assert forall|i: int, j: int| 0 <= i < j < u.len() implies (#[trigger] u[i]).publisher_session != (#[trigger] u[j]).publisher_session by {
        assert(u[i] == w[i]);
        if j < w.len() {
            assert(u[j] == w[j]);
        } else {
            assert(u[j] == leg);
            if w[i].publisher_session == leg.publisher_session {
                assert(spec_ups_has(w, leg.publisher_session));
            }
        }
    }
}

/// Recording a subscription in a route free of repeats keeps it so.
proof fn lemma_route_unique_insert_ds<S>(a: TrackRoute<S>, b: TrackRoute<S>, d: DownstreamSubscription<S>)
    requires
        spec_route_unique(a),
        b.upstream_subs@ == a.upstream_subs@,
        b.downstream_subs@ == spec_ds_without(a.downstream_subs@, d.id).push(d),
    ensures
        spec_route_unique(b),
{
    let w = spec_ds_without(a.downstream_subs@, d.id);
    lemma_ds_without_distinct(a.downstream_subs@, d.id);
    lemma_ds_without_none(a.downstream_subs@, d.id);
    let v = b.downstream_subs@;
    assert forall|i: int, j: int| 0 <= i < j < v.len() implies (#[trigger] v[i]).id != (#[trigger] v[j]).id by {
        assert(v[i] == w[i]);
        if j < w.len() {
            assert(v[j] == w[j]);
        } else {
            assert(v[j] == d);
        }
    }
}

/// Changing only the route at `ti`, keeping it free of repeats, keeps every
/// route free of them.
proof fn lemma_routes_unique_at<S>(a: Seq<TrackRoute<S>>, b: Seq<TrackRoute<S>>, ti: int)
    requires
        forall|t: int| 0 <= t < a.len() ==> #[trigger] spec_route_unique(a[t]),
        b.len() == a.len(),
        0 <= ti < b.len(),
        spec_route_unique(b[ti]),
        forall|t: int| 0 <= t < a.len() && t != ti ==> #[trigger] b[t] == a[t],
    ensures
        forall|t: int| 0 <= t < b.len() ==> #[trigger] spec_route_unique(b[t]),
{
    assert forall|t: int| 0 <= t < b.len() implies #[trigger] spec_route_unique(b[t]) by {
        if t != ti {
            assert(b[t] == a[t]);
        }
    }
}

/// Whether no two publisher entries are for the same namespace.
pub open spec fn spec_unique_namespaces<S>(ps: Seq<(NamespaceKey, Vec<S>)>) -> bool {
    forall|a: int, b: int| 0 <= a < ps.len() && 0 <= b < ps.len() && a != b ==> ps[a].0@ != ps[b].0@
}

/// Request-ID limits that leave room to count on (the limits are below
/// `u64::MAX`, so adding 2 to an ID below them cannot overflow), and track
/// aliases that start at 1.
pub open spec fn spec_session_bounded<S>(s: Session<S>) -> bool {
    &&& s.request_ids.local_max_exclusive.0 < u64::MAX
    &&& s.request_ids.peer_max_exclusive.0 < u64::MAX
    &&& s.aliases.next_outbound.0 >= 1
}

/// A session closure with the given error.
pub open spec fn spec_is_close<S>(e: OutputEvent<S>, session: S, error: SessionError, reason: Seq<char>) -> bool {
    e matches OutputEvent::CloseSession { session: s, error: err, reason: r } && s == session && err == error && r@ == reason
}

impl<S: SessionKey> Relay<S> {
    pub closed spec fn sessions(&self) -> Seq<Session<S>> {
        self.sessions@
    }

    pub closed spec fn tracks(&self) -> Seq<TrackRoute<S>> {
        self.tracks@
    }

    pub closed spec fn publishers(&self) -> Seq<(NamespaceKey, Vec<S>)> {
        self.publishers_by_namespace@
    }

    pub closed spec fn config_params(&self) -> Seq<KvSpec> {
        self.config.server_setup_parameters@
    }

    pub closed spec fn config_local_max(&self) -> RequestId {
        self.config.initial_local_max_request_id_exclusive
    }

    pub closed spec fn config_peer_max(&self) -> RequestId {
        self.config.initial_peer_max_request_id_exclusive
    }

    /// Whether a session with this ID is open.
    pub open spec fn has_session(&self, id: S) -> bool {
        exists|i: int| 0 <= i < self.sessions().len() && (#[trigger] self.sessions()[i]).id == id
    }

    /// The relay's invariant: session IDs are unique, there is one route per
    /// track, and every request-ID limit is below `u64::MAX`.
    pub open spec fn wf(&self) -> bool {
        &&& spec_unique_sessions(self.sessions())
        &&& spec_unique_tracks(self.tracks())
        &&& forall|i: int| 0 <= i < self.sessions().len() ==> spec_session_bounded(#[trigger] self.sessions()[i])
        &&& self.config_local_max().0 < u64::MAX
        &&& self.config_peer_max().0 < u64::MAX
        &&& spec_unique_namespaces(self.publishers())
        &&& forall|t: int| 0 <= t < self.tracks().len() ==> #[trigger] spec_route_unique(self.tracks()[t])
        &&& forall|a: int| 0 <= a < self.publishers().len() ==> (#[trigger] self.publishers()[a]).1@.no_duplicates()
    }

    pub fn new(config: RelayConfig) -> (r: Self)
        requires
            config.initial_local_max_request_id_exclusive.0 < u64::MAX,
            config.initial_peer_max_request_id_exclusive.0 < u64::MAX,
        ensures
            r.wf(),
            r.sessions().len() == 0,
            r.tracks().len() == 0,
            r.publishers().len() == 0,
            r.config_params() == config.server_setup_parameters@,
            r.config_local_max() == config.initial_local_max_request_id_exclusive,
            r.config_peer_max() == config.initial_peer_max_request_id_exclusive,
    {
        Relay {
            config,
            sessions: Vec::new(),
            publishers_by_namespace: Vec::new(),
            tracks: Vec::new(),
            upstream_request_index: Vec::new(),
            downstream_request_index: Vec::new(),
        }
    }

    /// Position of the session `id`.
    fn find_session(&self, id: &S) -> (r: Option<usize>)
        ensures
            r matches Some(i) ==> i < self.sessions@.len() && self.sessions@[i as int].id == *id,
            r is None ==> forall|i: int| 0 <= i < self.sessions@.len() ==> (#[trigger] self.sessions@[i]).id != *id,
    {
        let mut i: usize = 0;
        while i < self.sessions.len()
            invariant
                i <= self.sessions@.len(),
                forall|j: int| 0 <= j < i ==> (#[trigger] self.sessions@[j]).id != *id,
            decreases self.sessions@.len() - i,
        {
            if self.sessions[i].id.key_eq(id) {
                return Some(i);
            }
            i = i + 1;
        }
        None
    }

    pub fn session(&self, id: &S) -> (r: Option<&Session<S>>)
        ensures
            r matches Some(s) ==> s.id == *id && self.sessions().contains(*s),
            r is None <==> !self.has_session(*id),
    {
        match self.find_session(id) {
            Some(i) => {
                assert(self.sessions()[i as int].id == *id);
                Some(&self.sessions[i])
            },
            None => None,
        }
    }

    pub fn session_count(&self) -> (r: usize)
        ensures
            r == self.sessions().len(),
    {
        self.sessions.len()
    }

    /// Position of the route of `key`.
    fn find_track(&self, key: &TrackKey) -> (r: Option<usize>)
        ensures
            r matches Some(i) ==> i < self.tracks@.len() && self.tracks@[i as int].track@ == key@,
            r is None ==> forall|i: int| 0 <= i < self.tracks@.len() ==> (#[trigger] self.tracks@[i]).track@ != key@,
            match r {
                Some(i) => spec_first_pos(self.tracks@, spec_route_of::<S>(key@)) == i,
                None => spec_first_pos(self.tracks@, spec_route_of::<S>(key@)) < 0,
            },
    {
        proof {
            lemma_first_pos(self.tracks@, spec_route_of::<S>(key@));
        }
        let mut i: usize = 0;
        while i < self.tracks.len()
            invariant
                i <= self.tracks@.len(),
                forall|j: int| 0 <= j < i ==> (#[trigger] self.tracks@[j]).track@ != key@,
            decreases self.tracks@.len() - i,
        {
            if self.tracks[i].track.same(key) {
                proof {
                    lemma_first_pos_at(self.tracks@, spec_route_of::<S>(key@), i as int);
                }
                return Some(i);
            }
            i = i + 1;
        }
        None
    }

    pub fn track_route(&self, key: &TrackKey) -> (r: Option<&TrackRoute<S>>)
        ensures
            r matches Some(t) ==> t.track@ == key@ && self.tracks().contains(*t),
            r is None <==> forall|i: int| 0 <= i < self.tracks().len() ==> (#[trigger] self.tracks()[i]).track@ != key@,
    {
        match self.find_track(key) {
            Some(i) => {
                assert(self.tracks()[i as int].track@ == key@);
                Some(&self.tracks[i])
            },
            None => None,
        }
    }

    pub fn track_count(&self) -> (r: usize)
        ensures
            r == self.tracks().len(),
    {
        self.tracks.len()
    }

    /// Position of the publisher set of `ns`.
    fn find_publishers(&self, ns: &NamespaceKey) -> (r: Option<usize>)
        ensures
            r matches Some(i) ==> i < self.publishers_by_namespace@.len() && self.publishers_by_namespace@[i as int].0@ == ns@,
            r is None ==> forall|i: int| 0 <= i < self.publishers_by_namespace@.len()
                ==> (#[trigger] self.publishers_by_namespace@[i]).0@ != ns@,
    {
        let mut i: usize = 0;
        while i < self.publishers_by_namespace.len()
            invariant
                i <= self.publishers_by_namespace@.len(),
                forall|j: int| 0 <= j < i ==> (#[trigger] self.publishers_by_namespace@[j]).0@ != ns@,
            decreases self.publishers_by_namespace@.len() - i,
        {
            if self.publishers_by_namespace[i].0.same(ns) {
                return Some(i);
            }
            i = i + 1;
        }
        None
    }

    /// The sessions that published `ns`.
    pub fn publishers_for_namespace(&self, ns: &NamespaceKey) -> (r: Option<&Vec<S>>)
        ensures
            r matches Some(v) ==> exists|i: int| 0 <= i < self.publishers().len()
                && #[trigger] self.publishers()[i].0@ == ns@ && self.publishers()[i].1 == *v,
            r is None <==> forall|i: int| 0 <= i < self.publishers().len() ==> (#[trigger] self.publishers()[i]).0@ != ns@,
    {
        match self.find_publishers(ns) {
            Some(i) => {
                assert(self.publishers()[i as int].0@ == ns@);
                Some(&self.publishers_by_namespace[i].1)
            },
            None => None,
        }
    }

    // -----------------------------------------------------------------------
    // Session lifecycle
    // -----------------------------------------------------------------------

    /// Whether `s` is how session `id` with role `role` starts: awaiting
    /// setup, with the first request IDs of its role, the given limits, the
    /// first track alias, and nothing published, subscribed or bound.
    pub open spec fn spec_fresh_session(s: Session<S>, id: S, role: EndpointRole, local_max: RequestId, peer_max: RequestId) -> bool {
        &&& s.id == id
        &&& s.role == role
        &&& s.setup == SetupState::AwaitingPeerSetup
        &&& !s.goaway.received && !s.goaway.sent && s.goaway.new_session_uri is None
        &&& s.request_ids.peer_next_expected.0 == role.spec_peer_first()
        &&& s.request_ids.local_next.0 == role.spec_local_first()
        &&& s.request_ids.local_max_exclusive == local_max
        &&& s.request_ids.peer_max_exclusive == peer_max
        &&& s.request_ids.sent_requests_blocked_for is None
        &&& s.aliases.next_outbound.0 == 1
        &&& s.published_namespaces@.len() == 0
        &&& s.subscribed_prefixes@.len() == 0
        &&& s.inbound_aliases@.len() == 0
        &&& s.outbound_aliases@.len() == 0
    }

    /// Whether `post` holds the sessions of `pre` in the same places, those
    /// that `changed` does not pick as they were.
    pub open spec fn spec_sessions_kept(pre: &Self, post: &Self, changed: spec_fn(S) -> bool) -> bool {
        &&& post.sessions().len() == pre.sessions().len()
        &&& forall|i: int| 0 <= i < pre.sessions().len() ==> (#[trigger] post.sessions()[i]).id == pre.sessions()[i].id
        &&& forall|i: int| 0 <= i < pre.sessions().len() && !changed(pre.sessions()[i].id)
            ==> #[trigger] post.sessions()[i] == pre.sessions()[i]
    }

    /// Whether `post` keeps every route of `pre` in its place, all but the
    /// one at `t` as they were, and that one for the same track.
    pub open spec fn spec_route_stays(pre: &Self, post: &Self, t: int) -> bool {
        &&& post.tracks().len() == pre.tracks().len()
        &&& forall|i: int| 0 <= i < pre.tracks().len() && i != t ==> #[trigger] post.tracks()[i] == pre.tracks()[i]
        &&& post.tracks()[t].track == pre.tracks()[t].track
    }

    /// Whether the routes of tracks other than `key` are the same in `pre`
    /// and `post`.
    pub open spec fn spec_routes_kept(pre: &Self, post: &Self, key: (Seq<Seq<u8>>, Seq<u8>)) -> bool {
        spec_tracks_kept(pre.tracks(), post.tracks(), key)
    }

    /// Whether every session other than `x` is open in `post` exactly when
    /// it is in `pre`, and in the same state.
    pub open spec fn spec_others_kept(pre: &Self, post: &Self, x: S) -> bool {
        forall|y: S| #![trigger post.has_session(y)] #![trigger pre.has_session(y)] y != x ==>
            (post.has_session(y) <==> pre.has_session(y))
            && (pre.has_session(y) ==> post.session_state(y) == pre.session_state(y))
    }

    /// What opening `session` leaves: routing and configuration as they were,
    /// the session fresh, and every other session as it was.
    pub open spec fn post_session_opened(pre: &Self, post: &Self, session: S, role: EndpointRole) -> bool {
        &&& post.routing_eq(pre)
        &&& post.has_session(session)
        &&& Self::spec_fresh_session(post.session_state(session), session, role, pre.config_local_max(), pre.config_peer_max())
        &&& Self::spec_others_kept(pre, post, session)
    }

    fn on_session_opened(&mut self, session: S, role: EndpointRole) -> (out: Vec<OutputEvent<S>>)
        requires
            old(self).wf(),
        ensures
            final(self).wf(),
            out@.len() == 0,
            Self::post_session_opened(old(self), final(self), session, role),
    {
        let s = Session::new(session.key_clone(), role, self.config.initial_local_max_request_id_exclusive,
            self.config.initial_peer_max_request_id_exclusive);
        let ghost sv = s;
        match self.find_session(&session) {
            Some(i) => {
                self.sessions.set(i, s);
                assert(self.sessions@[i as int].id == session);
                assert(forall|j: int| 0 <= j < self.sessions@.len() && j != i ==> #[trigger] self.sessions@[j] == old(self).sessions@[j]);
                assert(self.sessions@[i as int] == sv);
            },
            None => {
                self.sessions.push(s);
                assert(self.sessions@[self.sessions@.len() - 1].id == session);
                assert(forall|j: int| 0 <= j < old(self).sessions@.len() ==> #[trigger] self.sessions@[j] == old(self).sessions@[j]);
                assert(self.sessions@[self.sessions@.len() - 1] == sv);
            },
        }
        proof {
            assert forall|i: int| 0 <= i < self.sessions@.len() implies spec_session_bounded(#[trigger] self.sessions@[i]) by {
                if i < old(self).sessions@.len() && self.sessions@[i].id != session {
                    assert(self.sessions@[i] == old(self).sessions@[i]);
                }
            }
            let k = choose|k: int| 0 <= k < self.sessions@.len() && self.sessions@[k].id == session
                && Self::spec_fresh_session(self.sessions@[k], session, role, self.config_local_max(), self.config_peer_max());
            self.lemma_session_index(k);
            assert forall|y: S| #![trigger self.has_session(y)] #![trigger old(self).has_session(y)] y != session implies
                (self.has_session(y) <==> old(self).has_session(y))
                && (old(self).has_session(y) ==> self.session_state(y) == old(self).session_state(y)) by {
                if old(self).has_session(y) {
                    let a = choose|a: int| 0 <= a < old(self).sessions().len() && (#[trigger] old(self).sessions()[a]).id == y;
                    assert(self.sessions@[a] == old(self).sessions@[a]);
                    old(self).lemma_session_index(a);
                    self.lemma_session_index(a);
                }
                if self.has_session(y) {
                    let b = choose|b: int| 0 <= b < self.sessions().len() && (#[trigger] self.sessions()[b]).id == y;
                    assert(b < old(self).sessions@.len() && self.sessions@[b] == old(self).sessions@[b]);
                    assert(old(self).sessions()[b].id == y);
                }
            }
        }
        Vec::new()
    }

    /// Position of the session `id`, when it is open.
    pub open spec fn session_index(&self, id: S) -> int {
        choose|i: int| 0 <= i < self.sessions().len() && (#[trigger] self.sessions()[i]).id == id
    }

    /// The state of the open session `id`.
    pub open spec fn session_state(&self, id: S) -> Session<S> {
        self.sessions()[self.session_index(id)]
    }

    /// Whether the routing state (namespaces, tracks, request indexes) and
    /// the configuration are the same in `self` and `other`.
    pub open spec fn routing_eq(&self, other: &Self) -> bool {
        &&& self.tracks() == other.tracks()
        &&& self.publishers() == other.publishers()
        &&& self.upstream_index() == other.upstream_index()
        &&& self.downstream_index() == other.downstream_index()
        &&& self.config_params() == other.config_params()
        &&& self.config_local_max() == other.config_local_max()
        &&& self.config_peer_max() == other.config_peer_max()
    }

    /// Whether `self` and `other` hold the same state.
    pub open spec fn same_as(&self, other: &Self) -> bool {
        &&& self.routing_eq(other)
        &&& self.sessions() == other.sessions()
    }

    proof fn lemma_session_index(&self, k: int)
        requires
            self.wf(),
            0 <= k < self.sessions().len(),
        ensures
            self.session_index(self.sessions()[k].id) == k,
    {
        let id = self.sessions()[k].id;
        assert(self.sessions()[k].id == id);
        let c = self.session_index(id);
        assert(0 <= c < self.sessions().len() && self.sessions()[c].id == id);
    }

    // -----------------------------------------------------------------------
    // Setup, limits and GOAWAY
    // -----------------------------------------------------------------------

    /// What `handle_client_setup` leaves and answers.
    pub open spec fn post_client_setup(pre: &Self, post: &Self, session: S, channel: ControlChannel, setup: ClientSetup, out: Seq<OutputEvent<S>>) -> bool {
        &&& post.routing_eq(pre)
        &&& {
            let k = pre.session_index(session);
            let s = pre.session_state(session);
            if s.role != EndpointRole::Server || s.setup != SetupState::AwaitingPeerSetup {
                &&& out.len() == 1
                &&& spec_is_close(out[0], session, SessionError::ProtocolViolation, if s.role != EndpointRole::Server {
                    "CLIENT_SETUP received but we are not server"@
                } else {
                    "duplicate CLIENT_SETUP"@
                })
                &&& post.sessions() == pre.sessions()
            } else {
                &&& post.sessions() == pre.sessions().update(k, Session { setup: SetupState::SetupComplete, ..s })
                &&& out.len() == 1
                &&& out[0] matches OutputEvent::SendControlMessage { session: to, channel: ch, message: ControlMessage::ServerSetup(m) }
                &&& to == session && ch == channel
                &&& m.parameters@ == pre.config_params().push(KvSpec {
                    key: PARAM_MAX_REQUEST_ID,
                    value: KvValueSpec::Varint(s.request_ids.local_max_exclusive.0),
                })
            }
        }
    }

    /// What `handle_server_setup` leaves and answers.
    pub open spec fn post_server_setup(pre: &Self, post: &Self, session: S, setup: ServerSetup, out: Seq<OutputEvent<S>>) -> bool {
        &&& post.routing_eq(pre)
        &&& {
            let k = pre.session_index(session);
            let s = pre.session_state(session);
            if s.role != EndpointRole::Client || s.setup != SetupState::AwaitingPeerSetup {
                &&& out.len() == 1
                &&& spec_is_close(out[0], session, SessionError::ProtocolViolation, if s.role != EndpointRole::Client {
                    "SERVER_SETUP received but we are not client"@
                } else {
                    "duplicate SERVER_SETUP"@
                })
                &&& post.sessions() == pre.sessions()
            } else {
                &&& out.len() == 0
                &&& post.sessions() == pre.sessions().update(k, Session {
                    setup: SetupState::SetupComplete,
                    request_ids: RequestIdState {
                        peer_max_exclusive: match spec_get_varint(setup.parameters@, PARAM_MAX_REQUEST_ID) {
                            Some(v) => RequestId(v),
                            None => s.request_ids.peer_max_exclusive,
                        },
                        ..s.request_ids
                    },
                    ..s
                })
            }
        }
    }

    /// What `handle_max_request_id` leaves and answers.
    pub open spec fn post_max_request_id(pre: &Self, post: &Self, session: S, msg: MaxRequestId, out: Seq<OutputEvent<S>>) -> bool {
        &&& post.routing_eq(pre)
        &&& {
            let k = pre.session_index(session);
            let s = pre.session_state(session);
            if msg.max_request_id + 1 <= s.request_ids.peer_max_exclusive.0 {
                &&& out.len() == 1
                &&& spec_is_close(out[0], session, SessionError::ProtocolViolation, "MAX_REQUEST_ID did not increase"@)
                &&& post.sessions() == pre.sessions()
            } else {
                &&& out.len() == 0
                &&& post.sessions() == pre.sessions().update(k, Session {
                    request_ids: RequestIdState {
                        peer_max_exclusive: RequestId((msg.max_request_id + 1) as u64),
                        sent_requests_blocked_for: None,
                        ..s.request_ids
                    },
                    ..s
                })
            }
        }
    }

    /// What `handle_goaway` leaves and answers.
    pub open spec fn post_goaway(pre: &Self, post: &Self, session: S, msg: Goaway, out: Seq<OutputEvent<S>>) -> bool {
        &&& post.routing_eq(pre)
        &&& {
            let k = pre.session_index(session);
            let s = pre.session_state(session);
            if s.goaway.received {
                &&& out.len() == 1
                &&& spec_is_close(out[0], session, SessionError::ProtocolViolation, "duplicate GOAWAY"@)
                &&& post.sessions() == pre.sessions()
            } else {
                &&& out.len() == 0
                &&& post.sessions().len() == pre.sessions().len()
                &&& forall|i: int| 0 <= i < pre.sessions().len() && i != k
                    ==> post.sessions()[i] == pre.sessions()[i]
                &&& post.sessions()[k] == Session { goaway: post.sessions()[k].goaway, ..s }
                &&& post.sessions()[k].goaway.received
                &&& post.sessions()[k].goaway.sent == s.goaway.sent
                &&& match post.sessions()[k].goaway.new_session_uri {
                    None => msg.new_session_uri@.len() == 0,
                    Some(u) => msg.new_session_uri@.len() > 0 && u@ == msg.new_session_uri@,
                }
            }
        }
    }

    /// What `handle_publish_namespace` leaves and answers.
    pub open spec fn post_publish_namespace(pre: &Self, post: &Self, session: S, channel: ControlChannel, msg: PublishNamespace, out: Seq<OutputEvent<S>>) -> bool {
        &&& {
            let s = pre.session_state(session);
            let id = RequestId(msg.request_id);
            if s.setup != SetupState::SetupComplete {
                &&& out.len() == 1
                &&& spec_is_close(out[0], session, SessionError::ProtocolViolation, "PUBLISH_NAMESPACE before setup complete"@)
                &&& *post == *pre
            } else if !s.spec_peer_id_ok(id) {
                &&& out.len() == 1
                &&& spec_is_close(out[0], session, Self::spec_request_id_error(s, id), "invalid request ID in PUBLISH_NAMESPACE"@)
                &&& post.same_as(pre)
            } else {
                &&& out.len() >= 1
                &&& out[0] matches OutputEvent::SendControlMessage { session: to, channel: ch, message: ControlMessage::RequestOk(ok) }
                &&& to == session && ch == channel && ok.request_id == msg.request_id && ok.parameters@.len() == 0
                &&& Self::spec_pn_sound(out, pre.tracks(), pre.tracks().len() as int, msg.track_namespace@, session)
                &&& Self::spec_pn_ids(out, s.request_ids.local_next.0 as int)
                &&& Self::spec_pn_distinct(out)
                &&& Self::spec_pn_complete(out, pre.tracks(), pre.tracks().len() as int, msg.track_namespace@, session,
                    s.request_ids.local_next.0 as int, s.request_ids.peer_max_exclusive.0 as int)
                &&& post.has_session(session)
                &&& post.session_state(session).request_ids.peer_next_expected.0 == msg.request_id + 2
                &&& post.session_state(session).request_ids.local_next.0 == s.request_ids.local_next.0 + 2 * (out.len() - 1)
                &&& Self::spec_session_published(post.session_state(session), msg.track_namespace@)
                &&& post.spec_publisher_of(msg.track_namespace@, session)
                &&& Self::spec_publishers_added(pre.publishers(), post.publishers(), msg.track_namespace@, session)
                &&& Self::spec_sessions_kept(pre, post, |y: S| y == session)
                &&& post.tracks().len() == pre.tracks().len()
                &&& forall|t: int| 0 <= t < pre.tracks().len() ==> (#[trigger] post.tracks()[t]).track == pre.tracks()[t].track
                    && post.tracks()[t].downstream_subs@ == pre.tracks()[t].downstream_subs@
                &&& forall|i: int| 1 <= i < out.len() ==> post.spec_route_has_leg(Self::spec_sub_track(#[trigger] out[i]), session,
                    out[i]->SendControlMessage_message->Subscribe_0.request_id)
            }
        }
    }

    /// Whether the route `r` waits for a SUBSCRIBE to a new publisher
    /// `session` of namespace `ns`: `ns` is a prefix of the track's
    /// namespace, no leg leads to `session` yet, and some downstream
    /// subscription is still pending or established.
    pub open spec fn spec_ns_waits(r: TrackRoute<S>, ns: Seq<Seq<u8>>, session: S) -> bool {
        &&& spec_fields_prefix(ns, r.track.namespace@)
        &&& !spec_ups_has(r.upstream_subs@, session)
        &&& !spec_no_active_downstream(r.downstream_subs@)
    }

    /// Whether `e` is a SUBSCRIBE for one of the first `upto` routes of
    /// `ts` that wait for publisher `session` of `ns`.
    pub open spec fn spec_pn_from(e: OutputEvent<S>, ts: Seq<TrackRoute<S>>, upto: int, ns: Seq<Seq<u8>>, session: S) -> bool {
        exists|t: int| 0 <= t < upto && Self::spec_ns_waits(ts[t], ns, session) && #[trigger] Self::spec_sub_route(e, ts[t], session)
    }

    /// Whether some output after the first is a SUBSCRIBE for route `r`.
    pub open spec fn spec_pn_sent(out: Seq<OutputEvent<S>>, r: TrackRoute<S>, session: S) -> bool {
        exists|i: int| 1 <= i < out.len() && #[trigger] Self::spec_sub_route(out[i], r, session)
    }

    /// Every output after the first is a SUBSCRIBE for one of the first
    /// `upto` routes of `ts` that wait for publisher `session` of `ns`.
    #[verifier::opaque]
    pub open spec fn spec_pn_sound(out: Seq<OutputEvent<S>>, ts: Seq<TrackRoute<S>>, upto: int, ns: Seq<Seq<u8>>, session: S) -> bool {
        forall|i: int| 1 <= i < out.len() ==> #[trigger] Self::spec_pn_from(out[i], ts, upto, ns, session)
    }

    /// The outputs after the first carry consecutive request IDs of one
    /// parity, from `l0`.
    #[verifier::opaque]
    pub open spec fn spec_pn_ids(out: Seq<OutputEvent<S>>, l0: int) -> bool {
        forall|i: int| 1 <= i < out.len()
            ==> (#[trigger] out[i])->SendControlMessage_message->Subscribe_0.request_id == l0 + 2 * (i - 1)
    }

    /// No two outputs after the first ask for the same track.
    #[verifier::opaque]
    pub open spec fn spec_pn_distinct(out: Seq<OutputEvent<S>>) -> bool {
        forall|i: int, j: int| 1 <= i < j < out.len() ==> Self::spec_sub_track(#[trigger] out[i]) != Self::spec_sub_track(#[trigger] out[j])
    }

    /// Each of the first `upto` routes of `ts` that wait for publisher
    /// `session` of `ns` is sent a SUBSCRIBE, unless the request IDs from
    /// `l0` reached the limit `pmax`.
    #[verifier::opaque]
    pub open spec fn spec_pn_complete(out: Seq<OutputEvent<S>>, ts: Seq<TrackRoute<S>>, upto: int, ns: Seq<Seq<u8>>, session: S,
        l0: int, pmax: int) -> bool {
        forall|t: int| 0 <= t < upto && Self::spec_ns_waits(#[trigger] ts[t], ns, session)
            ==> Self::spec_pn_sent(out, ts[t], session) || l0 + 2 * (out.len() - 1) >= pmax
    }

    /// Whether one of the first `upto` routes of `ts` is that of track `key`
    /// and has a pending leg to `x` under request ID `rid`.
    pub open spec fn spec_leg_in(ts: Seq<TrackRoute<S>>, upto: int, key: (Seq<Seq<u8>>, Seq<u8>), x: S, rid: u64) -> bool {
        exists|t: int, l: int| 0 <= t < upto && ts[t].track@ == key
            && 0 <= l < ts[t].upstream_subs@.len()
            && (#[trigger] ts[t].upstream_subs@[l]).publisher_session == x
            && ts[t].upstream_subs@[l].request_id.0 == rid
            && ts[t].upstream_subs@[l].state == UpstreamSubState::Pending
    }

    proof fn lemma_leg_in_keep(ts: Seq<TrackRoute<S>>, ts2: Seq<TrackRoute<S>>, upto: int, upto2: int,
        key: (Seq<Seq<u8>>, Seq<u8>), x: S, rid: u64)
        requires
            Self::spec_leg_in(ts, upto, key, x, rid),
            upto <= upto2,
            upto <= ts2.len(),
            forall|t: int| 0 <= t < upto ==> #[trigger] ts2[t] == ts[t],
        ensures
            Self::spec_leg_in(ts2, upto2, key, x, rid),
    {
        let (t, l) = choose|t: int, l: int| 0 <= t < upto && ts[t].track@ == key
            && 0 <= l < ts[t].upstream_subs@.len()
            && (#[trigger] ts[t].upstream_subs@[l]).publisher_session == x
            && ts[t].upstream_subs@[l].request_id.0 == rid
            && ts[t].upstream_subs@[l].state == UpstreamSubState::Pending;
        assert(ts2[t] == ts[t]);
        assert(ts2[t].upstream_subs@[l] == ts[t].upstream_subs@[l]);
    }

    proof fn lemma_pn_start(out: Seq<OutputEvent<S>>, ts: Seq<TrackRoute<S>>, ns: Seq<Seq<u8>>, session: S, l0: int, pmax: int)
        requires
            out.len() == 1,
        ensures
            Self::spec_pn_sound(out, ts, 0, ns, session),
            Self::spec_pn_ids(out, l0),
            Self::spec_pn_distinct(out),
            Self::spec_pn_complete(out, ts, 0, ns, session, l0, pmax),
    {
        reveal(Relay::spec_pn_sound);
        reveal(Relay::spec_pn_ids);
        reveal(Relay::spec_pn_distinct);
        reveal(Relay::spec_pn_complete);
    }

    /// Passing over route `t` without a SUBSCRIBE.
    proof fn lemma_pn_skip(out: Seq<OutputEvent<S>>, ts: Seq<TrackRoute<S>>, t: int, ns: Seq<Seq<u8>>, session: S, l0: int, pmax: int)
        requires
            0 <= t < ts.len(),
            Self::spec_pn_sound(out, ts, t, ns, session),
            Self::spec_pn_complete(out, ts, t, ns, session, l0, pmax),
            Self::spec_ns_waits(ts[t], ns, session) ==> l0 + 2 * (out.len() - 1) >= pmax,
        ensures
            Self::spec_pn_sound(out, ts, t + 1, ns, session),
            Self::spec_pn_complete(out, ts, t + 1, ns, session, l0, pmax),
    {
        reveal(Relay::spec_pn_sound);
        reveal(Relay::spec_pn_complete);
        assert forall|i: int| 1 <= i < out.len() implies #[trigger] Self::spec_pn_from(out[i], ts, t + 1, ns, session) by {
            assert(Self::spec_pn_from(out[i], ts, t, ns, session));
            let u = choose|u: int| 0 <= u < t && Self::spec_ns_waits(ts[u], ns, session) && #[trigger] Self::spec_sub_route(out[i], ts[u], session);
            assert(Self::spec_sub_route(out[i], ts[u], session));
        }
    }

    /// Sending route `t` its SUBSCRIBE `e`, with the next request ID.
    proof fn lemma_pn_push(out: Seq<OutputEvent<S>>, ts: Seq<TrackRoute<S>>, t: int, ns: Seq<Seq<u8>>, session: S, l0: int, pmax: int,
        e: OutputEvent<S>)
        requires
            0 <= t < ts.len(),
            out.len() >= 1,
            spec_unique_tracks(ts),
            Self::spec_pn_sound(out, ts, t, ns, session),
            Self::spec_pn_ids(out, l0),
            Self::spec_pn_distinct(out),
            Self::spec_pn_complete(out, ts, t, ns, session, l0, pmax),
            Self::spec_ns_waits(ts[t], ns, session),
            Self::spec_sub_route(e, ts[t], session),
            e->SendControlMessage_message->Subscribe_0.request_id == l0 + 2 * (out.len() - 1),
            l0 + 2 * (out.len() - 1) < pmax,
        ensures
            Self::spec_pn_sound(out.push(e), ts, t + 1, ns, session),
            Self::spec_pn_ids(out.push(e), l0),
            Self::spec_pn_distinct(out.push(e)),
            Self::spec_pn_complete(out.push(e), ts, t + 1, ns, session, l0, pmax),
    {
        reveal(Relay::spec_pn_sound);
        reveal(Relay::spec_pn_ids);
        reveal(Relay::spec_pn_distinct);
        reveal(Relay::spec_pn_complete);
        let o = out.push(e);
        assert forall|i: int| 1 <= i < o.len() implies #[trigger] Self::spec_pn_from(o[i], ts, t + 1, ns, session) by {
            if i < out.len() {
                assert(o[i] == out[i]);
                assert(Self::spec_pn_from(out[i], ts, t, ns, session));
                let u = choose|u: int| 0 <= u < t && Self::spec_ns_waits(ts[u], ns, session) && #[trigger] Self::spec_sub_route(out[i], ts[u], session);
                assert(Self::spec_sub_route(o[i], ts[u], session));
            } else {
                assert(Self::spec_sub_route(o[i], ts[t], session));
            }
        }
        assert forall|i: int| 1 <= i < o.len()
            implies (#[trigger] o[i])->SendControlMessage_message->Subscribe_0.request_id == l0 + 2 * (i - 1) by {
            if i < out.len() {
                assert(o[i] == out[i]);
            }
        }
        assert forall|i: int, j: int| 1 <= i < j < o.len() implies Self::spec_sub_track(#[trigger] o[i]) != Self::spec_sub_track(#[trigger] o[j]) by {
            assert(o[i] == out[i]);
            if j < out.len() {
                assert(o[j] == out[j]);
            } else {
                assert(Self::spec_pn_from(out[i], ts, t, ns, session));
                let u = choose|u: int| 0 <= u < t && Self::spec_ns_waits(ts[u], ns, session) && #[trigger] Self::spec_sub_route(out[i], ts[u], session);
                assert(Self::spec_sub_track(out[i]) == ts[u].track@);
                assert(ts[u].track@ != ts[t].track@);
            }
        }
        assert forall|u: int| 0 <= u < t + 1 && Self::spec_ns_waits(#[trigger] ts[u], ns, session)
            implies Self::spec_pn_sent(o, ts[u], session) || l0 + 2 * (o.len() - 1) >= pmax by {
            if u < t {
                if Self::spec_pn_sent(out, ts[u], session) {
                    let i = choose|i: int| 1 <= i < out.len() && #[trigger] Self::spec_sub_route(out[i], ts[u], session);
                    assert(o[i] == out[i]);
                    assert(Self::spec_sub_route(o[i], ts[u], session));
                }
            } else {
                assert(Self::spec_sub_route(o[out.len() as int], ts[u], session));
            }
        }
    }

    /// A SUBSCRIBE for the track of route `r`, to `session` on the control
    /// stream, without parameters.
    pub open spec fn spec_sub_route(e: OutputEvent<S>, r: TrackRoute<S>, session: S) -> bool {
        &&& e matches OutputEvent::SendControlMessage {
            channel: ControlChannel::ControlStream, message: ControlMessage::Subscribe(sub), ..
        }
        &&& e->SendControlMessage_session == session
        &&& Self::spec_sub_track(e) == r.track@
        &&& e->SendControlMessage_message->Subscribe_0.parameters@.len() == 0
    }

    /// The track a SUBSCRIBE asks for.
    pub open spec fn spec_sub_track(e: OutputEvent<S>) -> (Seq<Seq<u8>>, Seq<u8>) {
        (e->SendControlMessage_message->Subscribe_0.track_namespace@, e->SendControlMessage_message->Subscribe_0.track_name@)
    }

    /// What `handle_subscribe` leaves and answers.
    pub open spec fn post_subscribe(pre: &Self, post: &Self, session: S, channel: ControlChannel, msg: Subscribe, out: Seq<OutputEvent<S>>) -> bool {
        &&& post.publishers() == pre.publishers()
        &&& Self::spec_routes_kept(pre, post, (msg.track_namespace@, msg.track_name@))
        &&& Self::spec_sessions_kept(pre, post, |y: S| y == session || pre.spec_publishes_prefix_of(msg.track_namespace@, y))
        &&& {
            let s = pre.session_state(session);
            let id = RequestId(msg.request_id);
            let ns = msg.track_namespace@;
            if s.setup != SetupState::SetupComplete {
                &&& out.len() == 1
                &&& spec_is_close(out[0], session, SessionError::ProtocolViolation, "SUBSCRIBE before setup complete"@)
                &&& *post == *pre
            } else if !s.spec_peer_id_ok(id) {
                &&& out.len() == 1
                &&& spec_is_close(out[0], session, Self::spec_request_id_error(s, id), "invalid request ID in SUBSCRIBE"@)
                &&& post.same_as(pre)
            } else if pre.spec_track_established((ns, msg.track_name@)) {
                &&& out.len() == 1
                &&& out[0] matches OutputEvent::SendControlMessage { session: to, channel: ch, message: ControlMessage::SubscribeOk(ok) }
                &&& to == session && ch == channel && ok.request_id == msg.request_id
                &&& ok.track_alias == s.aliases.next_outbound.0
                &&& ok.parameters@.len() == 0
                &&& spec_kvs_view(ok.track_extensions@) == match pre.tracks()[spec_first_pos(pre.tracks(), spec_route_of::<S>((ns, msg.track_name@)))].track_extensions {
                    Some(v) => spec_kvs_view(v@),
                    None => Seq::empty(),
                }
                &&& post.spec_route_has_ds((ns, msg.track_name@), SubscriptionId { session, request_id: id }, DownstreamSubState::Established)
                &&& Self::spec_ds_added(pre, post, (ns, msg.track_name@), SubscriptionId { session, request_id: id })
                &&& post.spec_route_ups((ns, msg.track_name@)) == pre.spec_route_ups((ns, msg.track_name@))
            } else if forall|x: S| !pre.spec_publishes_prefix_of(ns, x) {
                &&& out.len() == 1
                &&& out[0] matches OutputEvent::SendControlMessage { session: to, channel: ch, message: ControlMessage::RequestError(e) }
                &&& to == session && ch == channel && e.request_id == msg.request_id
                &&& e.error_code == RequestErrorCode::DoesNotExist.spec_code() && e.retry_interval == 0
                &&& e.error_reason.0@ == "no publisher for namespace"@
                &&& !spec_index_has(post.downstream_index(), session, id)
                &&& !post.spec_route_has_ds((ns, msg.track_name@), SubscriptionId { session, request_id: id }, DownstreamSubState::Pending)
                &&& !post.spec_route_has_ds((ns, msg.track_name@), SubscriptionId { session, request_id: id }, DownstreamSubState::Established)
                &&& (forall|t: int| 0 <= t < pre.tracks().len() ==> (#[trigger] pre.tracks()[t]).track@ != (ns, msg.track_name@))
                    ==> post.tracks() == pre.tracks()
            } else {
                let name = msg.track_name@;
                &&& forall|i: int| 0 <= i < out.len() ==> pre.spec_fanout_target(ns, name, (#[trigger] out[i])->SendControlMessage_session)
                    && pre.spec_sub_to(out[i], ns, name)
                &&& forall|i: int, j: int| 0 <= i < j < out.len()
                    ==> (#[trigger] out[i])->SendControlMessage_session != (#[trigger] out[j])->SendControlMessage_session
                &&& forall|x: S| #[trigger] pre.spec_fanout_target(ns, name, x)
                    ==> exists|i: int| 0 <= i < out.len() && (#[trigger] out[i])->SendControlMessage_session == x
                &&& post.spec_route_has_ds((ns, name), SubscriptionId { session, request_id: id }, DownstreamSubState::Pending)
                &&& forall|i: int| 0 <= i < out.len() ==> post.spec_route_has_leg((ns, name), (#[trigger] out[i])->SendControlMessage_session,
                    out[i]->SendControlMessage_message->Subscribe_0.request_id)
                &&& post.spec_route_awaits((ns, name), SubscriptionId { session, request_id: id })
                &&& forall|i: int| 0 <= i < out.len() ==> post.spec_route_first_leg((ns, name), (#[trigger] out[i])->SendControlMessage_session,
                    out[i]->SendControlMessage_message->Subscribe_0.request_id)
                    && spec_index_names(post.upstream_index(), out[i]->SendControlMessage_session,
                        out[i]->SendControlMessage_message->Subscribe_0.request_id, (ns, name))
                &&& forall|y: S| pre.has_session(y) ==> post.has_session(y)
                &&& spec_index_names(post.downstream_index(), session, msg.request_id, (ns, name))
                &&& (forall|t: int| 0 <= t < pre.tracks().len() ==> (#[trigger] pre.tracks()[t]).track@ != (ns, name))
                    ==> post.spec_route_only((ns, name), SubscriptionId { session, request_id: id })
                &&& Self::spec_ds_added(pre, post, (ns, name), SubscriptionId { session, request_id: id })
                &&& post.spec_route_ups((ns, name)).len() == pre.spec_route_ups((ns, name)).len() + out.len()
                &&& post.spec_route_ups((ns, name)).take(pre.spec_route_ups((ns, name)).len() as int) == pre.spec_route_ups((ns, name))
            }
        }
    }

    /// The downstream subscriptions of the route of track `key`; none when
    /// the track has no route.
    pub open spec fn spec_route_ds(&self, key: (Seq<Seq<u8>>, Seq<u8>)) -> Seq<DownstreamSubscription<S>> {
        let t = spec_first_pos(self.tracks(), spec_route_of::<S>(key));
        if t < 0 { Seq::empty() } else { self.tracks()[t].downstream_subs@ }
    }

    /// The upstream legs of the route of track `key`; none when the track
    /// has no route.
    pub open spec fn spec_route_ups(&self, key: (Seq<Seq<u8>>, Seq<u8>)) -> Seq<UpstreamSubscriptionLeg<S>> {
        let t = spec_first_pos(self.tracks(), spec_route_of::<S>(key));
        if t < 0 { Seq::empty() } else { self.tracks()[t].upstream_subs@ }
    }

    /// Whether the route of track `key` in `post` holds the subscriptions of
    /// its route in `pre` other than `id`, in their order, then `id`.
    pub open spec fn spec_ds_added(pre: &Self, post: &Self, key: (Seq<Seq<u8>>, Seq<u8>), id: SubscriptionId<S>) -> bool {
        &&& post.spec_route_ds(key).len() > 0
        &&& post.spec_route_ds(key).drop_last() == spec_ds_without(pre.spec_route_ds(key), id)
        &&& post.spec_route_ds(key).last().id == id
    }

    /// Whether no downstream subscription of the route of track `key` is in
    /// state `st` (or there is no such route).
    pub open spec fn spec_none_in_state(&self, key: (Seq<Seq<u8>>, Seq<u8>), st: DownstreamSubState) -> bool {
        forall|t: int, d: int| 0 <= t < self.tracks().len() && self.tracks()[t].track@ == key
            && 0 <= d < self.tracks()[t].downstream_subs@.len()
            ==> (#[trigger] self.tracks()[t].downstream_subs@[d]).state != st
    }

    /// Whether the route of track `key` holds the downstream subscription
    /// `id` in state `st`.
    pub open spec fn spec_route_has_ds(&self, key: (Seq<Seq<u8>>, Seq<u8>), id: SubscriptionId<S>, st: DownstreamSubState) -> bool {
        exists|t: int, d: int| 0 <= t < self.tracks().len() && self.tracks()[t].track@ == key
            && 0 <= d < self.tracks()[t].downstream_subs@.len()
            && (#[trigger] self.tracks()[t].downstream_subs@[d]).id == id
            && self.tracks()[t].downstream_subs@[d].state == st
    }

    /// Whether the route of track `key` has a pending leg to publisher `x`
    /// under request ID `rid`.
    pub open spec fn spec_route_has_leg(&self, key: (Seq<Seq<u8>>, Seq<u8>), x: S, rid: u64) -> bool {
        exists|t: int, l: int| 0 <= t < self.tracks().len() && self.tracks()[t].track@ == key
            && 0 <= l < self.tracks()[t].upstream_subs@.len()
            && (#[trigger] self.tracks()[t].upstream_subs@[l]).publisher_session == x
            && self.tracks()[t].upstream_subs@[l].request_id.0 == rid
            && self.tracks()[t].upstream_subs@[l].state == UpstreamSubState::Pending
    }

    /// Whether the route of track `key` holds the downstream subscription
    /// `id` waiting for the first SUBSCRIBE_OK.
    pub open spec fn spec_route_awaits(&self, key: (Seq<Seq<u8>>, Seq<u8>), id: SubscriptionId<S>) -> bool {
        exists|t: int, d: int| 0 <= t < self.tracks().len() && self.tracks()[t].track@ == key
            && 0 <= d < self.tracks()[t].downstream_subs@.len()
            && (#[trigger] self.tracks()[t].downstream_subs@[d]).id == id
            && Self::spec_awaits_ok(self.tracks()[t].downstream_subs@[d])
    }

    /// Whether the route of track `key` holds the downstream subscription
    /// `id` and no other.
    pub open spec fn spec_route_only(&self, key: (Seq<Seq<u8>>, Seq<u8>), id: SubscriptionId<S>) -> bool {
        exists|t: int| 0 <= t < self.tracks().len() && (#[trigger] self.tracks()[t]).track@ == key
            && self.tracks()[t].downstream_subs@.len() == 1
            && self.tracks()[t].downstream_subs@[0].id == id
    }

    /// Whether the first leg to `x` of the route of track `key` is pending,
    /// under request ID `rid`.
    pub open spec fn spec_route_first_leg(&self, key: (Seq<Seq<u8>>, Seq<u8>), x: S, rid: u64) -> bool {
        exists|t: int| 0 <= t < self.tracks().len() && (#[trigger] self.tracks()[t]).track@ == key
            && spec_first_leg_is(self.tracks()[t].upstream_subs@, x, rid)
    }

    /// Recording the leg and the request of one more SUBSCRIBE `e` keeps
    /// what the earlier ones recorded.
    proof fn lemma_fanout_record(out0: Seq<OutputEvent<S>>, e: OutputEvent<S>, ups: Seq<UpstreamSubscriptionLeg<S>>,
        leg: UpstreamSubscriptionLeg<S>, idx: Seq<IndexEntry<S>>, tk: TrackKey, key: (Seq<Seq<u8>>, Seq<u8>))
        requires
            leg.state == UpstreamSubState::Pending,
            e->SendControlMessage_session == leg.publisher_session,
            e->SendControlMessage_message->Subscribe_0.request_id == leg.request_id.0,
            tk@ == key,
            forall|i: int| 0 <= i < out0.len() ==> (#[trigger] out0[i])->SendControlMessage_session != leg.publisher_session,
            forall|i: int| 0 <= i < out0.len() ==> #[trigger] spec_first_leg_is(ups, out0[i]->SendControlMessage_session,
                out0[i]->SendControlMessage_message->Subscribe_0.request_id),
            forall|i: int| 0 <= i < out0.len() ==> #[trigger] spec_index_names(idx, out0[i]->SendControlMessage_session,
                out0[i]->SendControlMessage_message->Subscribe_0.request_id, key),
        ensures
            forall|i: int| 0 <= i < out0.push(e).len() ==> #[trigger] spec_first_leg_is(spec_ups_without(ups, leg.publisher_session).push(leg),
                out0.push(e)[i]->SendControlMessage_session, out0.push(e)[i]->SendControlMessage_message->Subscribe_0.request_id),
            forall|i: int| 0 <= i < out0.push(e).len() ==> #[trigger] spec_index_names(
                spec_index_without(idx, leg.publisher_session, leg.request_id).push((leg.publisher_session, leg.request_id, tk)),
                out0.push(e)[i]->SendControlMessage_session, out0.push(e)[i]->SendControlMessage_message->Subscribe_0.request_id, key),
    {
        let o = out0.push(e);
        let x = leg.publisher_session;
        let idx2 = spec_index_without(idx, x, leg.request_id).push((x, leg.request_id, tk));
        assert forall|i: int| 0 <= i < o.len() implies #[trigger] spec_first_leg_is(spec_ups_without(ups, x).push(leg),
            o[i]->SendControlMessage_session, o[i]->SendControlMessage_message->Subscribe_0.request_id) by {
            if i < out0.len() {
                assert(o[i] == out0[i]);
                lemma_first_leg_insert(ups, leg, out0[i]->SendControlMessage_session,
                    out0[i]->SendControlMessage_message->Subscribe_0.request_id);
            } else {
                assert(o[i] == e);
                lemma_first_leg_new(ups, leg);
            }
        }
        assert forall|i: int| 0 <= i < o.len() implies #[trigger] spec_index_names(idx2,
            o[i]->SendControlMessage_session, o[i]->SendControlMessage_message->Subscribe_0.request_id, key) by {
            if i < out0.len() {
                assert(o[i] == out0[i]);
                let y = out0[i]->SendControlMessage_session;
                let r = out0[i]->SendControlMessage_message->Subscribe_0.request_id;
                assert(spec_index_names(idx, y, r, key));
                lemma_index_insert_track(idx, x, leg.request_id, tk, y, RequestId(r));
            } else {
                assert(o[i] == e);
                assert(RequestId(leg.request_id.0) == leg.request_id);
                lemma_index_insert_track(idx, x, leg.request_id, tk, x, leg.request_id);
            }
        }
    }

    /// A SUBSCRIBE for track `(ns, name)` on the control stream of a
    /// publisher, with the next request ID its session had in `self`.
    pub open spec fn spec_sub_to(&self, e: OutputEvent<S>, ns: Seq<Seq<u8>>, name: Seq<u8>) -> bool {
        &&& e matches OutputEvent::SendControlMessage {
            channel: ControlChannel::ControlStream, message: ControlMessage::Subscribe(sub), ..
        }
        &&& e->SendControlMessage_message->Subscribe_0.track_namespace@ == ns
        &&& e->SendControlMessage_message->Subscribe_0.track_name@ == name
        &&& e->SendControlMessage_message->Subscribe_0.parameters@.len() == 0
        &&& e->SendControlMessage_message->Subscribe_0.request_id
            == self.session_state(e->SendControlMessage_session).request_ids.local_next.0
    }

    /// Whether the route of `key` has an upstream leg to `x`.
    pub open spec fn spec_has_leg(&self, key: (Seq<Seq<u8>>, Seq<u8>), x: S) -> bool {
        exists|t: int, l: int| 0 <= t < self.tracks().len() && self.tracks()[t].track@ == key
            && 0 <= l < self.tracks()[t].upstream_subs@.len()
            && (#[trigger] self.tracks()[t].upstream_subs@[l]).publisher_session == x
    }

    /// Whether a SUBSCRIBE for track `(ns, name)` goes to `x`: it published
    /// a non-empty prefix of `ns`, its session is open and may open one more
    /// request, and no leg of the track's route leads to it yet.
    pub open spec fn spec_fanout_target(&self, ns: Seq<Seq<u8>>, name: Seq<u8>, x: S) -> bool {
        &&& self.spec_publishes_prefix_of(ns, x)
        &&& self.has_session(x)
        &&& self.session_state(x).request_ids.local_next.0 < self.session_state(x).request_ids.peer_max_exclusive.0
        &&& !self.spec_has_leg((ns, name), x)
    }

    /// Whether the downstream subscription `d` waits for the upstream
    /// SUBSCRIBE_OK.
    pub open spec fn spec_awaits_ok(d: DownstreamSubscription<S>) -> bool {
        d.state == DownstreamSubState::Pending && d.forward_desired
    }

    /// A SUBSCRIBE_OK passed to the downstream subscription `d`.
    pub open spec fn spec_ok_to(e: OutputEvent<S>, d: DownstreamSubscription<S>, msg: SubscribeOk) -> bool {
        &&& Self::spec_forwarded_ok(e, msg)
        &&& e->SendControlMessage_session == d.id.session
        &&& e->SendControlMessage_message->SubscribeOk_0.request_id == d.id.request_id.0
    }

    /// Whether `e` sends a SUBSCRIBE_OK.
    pub open spec fn spec_is_ok_msg(e: OutputEvent<S>) -> bool {
        e matches OutputEvent::SendControlMessage { message: ControlMessage::SubscribeOk(_), .. }
    }

    /// The track alias a SUBSCRIBE_OK output carries.
    pub open spec fn spec_ok_alias(e: OutputEvent<S>) -> u64 {
        e->SendControlMessage_message->SubscribeOk_0.track_alias
    }

    /// Whether `e` is a SUBSCRIBE_OK to one of the first `upto`
    /// subscriptions of `ds` that waited for it.
    pub open spec fn spec_ok_from(e: OutputEvent<S>, ds: Seq<DownstreamSubscription<S>>, upto: int, msg: SubscribeOk) -> bool {
        exists|j: int| 0 <= j < upto && Self::spec_awaits_ok(ds[j]) && #[trigger] Self::spec_ok_to(e, ds[j], msg)
    }

    /// Whether `out` holds a SUBSCRIBE_OK to `d`.
    pub open spec fn spec_ok_sent(out: Seq<OutputEvent<S>>, d: DownstreamSubscription<S>, msg: SubscribeOk) -> bool {
        exists|i: int| 0 <= i < out.len() && #[trigger] Self::spec_ok_to(out[i], d, msg)
    }

    /// What an upstream SUBSCRIBE_OK makes of the downstream subscription
    /// `d`: one that waited for it, on an open session, becomes
    /// established with an outbound alias; any other stays as it was.
    pub open spec fn spec_ok_applied(&self, d: DownstreamSubscription<S>, e: DownstreamSubscription<S>) -> bool {
        if Self::spec_awaits_ok(d) && self.has_session(d.id.session) {
            &&& e.id == d.id
            &&& e.state == DownstreamSubState::Established
            &&& !e.forward_desired
            &&& e.outbound_alias is Some
        } else {
            e == d
        }
    }

    /// Every output is a SUBSCRIBE_OK to one of the first `upto`
    /// subscriptions of `ds` that waited for it.
    #[verifier::opaque]
    pub open spec fn spec_oks_sound(out: Seq<OutputEvent<S>>, ds: Seq<DownstreamSubscription<S>>, upto: int, msg: SubscribeOk) -> bool {
        forall|i: int| 0 <= i < out.len() ==> #[trigger] Self::spec_ok_from(out[i], ds, upto, msg)
    }

    /// Each of the first `upto` subscriptions of `ds` that waited for the
    /// SUBSCRIBE_OK, and whose session is open in `self`, is sent one.
    #[verifier::opaque]
    pub open spec fn spec_oks_complete(&self, out: Seq<OutputEvent<S>>, ds: Seq<DownstreamSubscription<S>>, upto: int, msg: SubscribeOk) -> bool {
        forall|j: int| 0 <= j < upto && Self::spec_awaits_ok(#[trigger] ds[j]) && self.has_session(ds[j].id.session)
            ==> Self::spec_ok_sent(out, ds[j], msg)
    }

    proof fn lemma_oks_start(&self, ds: Seq<DownstreamSubscription<S>>, msg: SubscribeOk)
        ensures
            Self::spec_oks_sound(Seq::empty(), ds, 0, msg),
            self.spec_oks_complete(Seq::empty(), ds, 0, msg),
    {
        reveal(Relay::spec_oks_sound);
        reveal(Relay::spec_oks_complete);
    }

    /// Passing over subscription `d` that is not sent anything.
    proof fn lemma_oks_skip(&self, out: Seq<OutputEvent<S>>, ds: Seq<DownstreamSubscription<S>>, d: int, msg: SubscribeOk)
        requires
            0 <= d < ds.len(),
            Self::spec_oks_sound(out, ds, d, msg),
            self.spec_oks_complete(out, ds, d, msg),
            !(Self::spec_awaits_ok(ds[d]) && self.has_session(ds[d].id.session)),
        ensures
            Self::spec_oks_sound(out, ds, d + 1, msg),
            self.spec_oks_complete(out, ds, d + 1, msg),
    {
        reveal(Relay::spec_oks_sound);
        reveal(Relay::spec_oks_complete);
        assert forall|i: int| 0 <= i < out.len() implies #[trigger] Self::spec_ok_from(out[i], ds, d + 1, msg) by {
            assert(Self::spec_ok_from(out[i], ds, d, msg));
            let j = choose|j: int| 0 <= j < d && Self::spec_awaits_ok(ds[j]) && #[trigger] Self::spec_ok_to(out[i], ds[j], msg);
            assert(Self::spec_ok_to(out[i], ds[j], msg));
        }
    }

    /// Sending subscription `d` its SUBSCRIBE_OK `e`.
    proof fn lemma_oks_push(&self, out: Seq<OutputEvent<S>>, ds: Seq<DownstreamSubscription<S>>, d: int, msg: SubscribeOk,
        e: OutputEvent<S>)
        requires
            0 <= d < ds.len(),
            Self::spec_oks_sound(out, ds, d, msg),
            self.spec_oks_complete(out, ds, d, msg),
            Self::spec_awaits_ok(ds[d]),
            Self::spec_ok_to(e, ds[d], msg),
        ensures
            Self::spec_oks_sound(out.push(e), ds, d + 1, msg),
            self.spec_oks_complete(out.push(e), ds, d + 1, msg),
    {
        reveal(Relay::spec_oks_sound);
        reveal(Relay::spec_oks_complete);
        let o = out.push(e);
        assert forall|i: int| 0 <= i < o.len() implies #[trigger] Self::spec_ok_from(o[i], ds, d + 1, msg) by {
            if i < out.len() {
                assert(o[i] == out[i]);
                assert(Self::spec_ok_from(out[i], ds, d, msg));
                let j = choose|j: int| 0 <= j < d && Self::spec_awaits_ok(ds[j]) && #[trigger] Self::spec_ok_to(out[i], ds[j], msg);
                assert(Self::spec_ok_to(o[i], ds[j], msg));
            } else {
                assert(Self::spec_ok_to(o[i], ds[d], msg));
            }
        }
        assert forall|j: int| 0 <= j < d + 1 && Self::spec_awaits_ok(#[trigger] ds[j]) && self.has_session(ds[j].id.session)
            implies Self::spec_ok_sent(o, ds[j], msg) by {
            if j < d {
                assert(Self::spec_ok_sent(out, ds[j], msg));
                let i = choose|i: int| 0 <= i < out.len() && #[trigger] Self::spec_ok_to(out[i], ds[j], msg);
                assert(o[i] == out[i]);
                assert(Self::spec_ok_to(o[i], ds[j], msg));
            } else {
                assert(Self::spec_ok_to(o[out.len() as int], ds[j], msg));
            }
        }
    }

    /// Whether no two outputs go to the same session for the same request.
    pub open spec fn spec_ok_targets_distinct(out: Seq<OutputEvent<S>>) -> bool {
        forall|i: int, j: int| 0 <= i < j < out.len() ==>
            (#[trigger] out[i])->SendControlMessage_session != (#[trigger] out[j])->SendControlMessage_session
            || out[i]->SendControlMessage_message->SubscribeOk_0.request_id != out[j]->SendControlMessage_message->SubscribeOk_0.request_id
    }

    proof fn lemma_oks_distinct_push(out: Seq<OutputEvent<S>>, ds: Seq<DownstreamSubscription<S>>, d: int, msg: SubscribeOk,
        e: OutputEvent<S>)
        requires
            0 <= d < ds.len(),
            Self::spec_oks_sound(out, ds, d, msg),
            Self::spec_ok_targets_distinct(out),
            forall|i: int, j: int| 0 <= i < j < ds.len() ==> (#[trigger] ds[i]).id != (#[trigger] ds[j]).id,
            Self::spec_ok_to(e, ds[d], msg),
        ensures
            Self::spec_ok_targets_distinct(out.push(e)),
    {
        reveal(Relay::spec_oks_sound);
        let o = out.push(e);
        assert forall|i: int, j: int| 0 <= i < j < o.len() implies
            (#[trigger] o[i])->SendControlMessage_session != (#[trigger] o[j])->SendControlMessage_session
            || o[i]->SendControlMessage_message->SubscribeOk_0.request_id != o[j]->SendControlMessage_message->SubscribeOk_0.request_id by {
            assert(o[i] == out[i]);
            if j < out.len() {
                assert(o[j] == out[j]);
            } else {
                assert(Self::spec_ok_from(out[i], ds, d, msg));
                let q = choose|q: int| 0 <= q < d && Self::spec_awaits_ok(ds[q]) && #[trigger] Self::spec_ok_to(out[i], ds[q], msg);
                assert(ds[q].id != ds[d].id);
            }
        }
    }

    /// What `handle_subscribe_ok` leaves and answers.
    pub open spec fn post_subscribe_ok(pre: &Self, post: &Self, session: S, msg: SubscribeOk, out: Seq<OutputEvent<S>>) -> bool {
        &&& post.publishers() == pre.publishers()
        &&& Self::post_subscribe_ok_routing(pre, post, session, msg, out)
    }

    /// The routing and session part of `post_subscribe_ok`.
    pub open spec fn post_subscribe_ok_routing(pre: &Self, post: &Self, session: S, msg: SubscribeOk, out: Seq<OutputEvent<S>>) -> bool {
        let s = pre.session_state(session);
        let rid = RequestId(msg.request_id);
        if s.setup != SetupState::SetupComplete {
            &&& out.len() == 1
            &&& spec_is_close(out[0], session, SessionError::ProtocolViolation, "SUBSCRIBE_OK before setup complete"@)
            &&& *post == *pre
        } else {
            match spec_index_track(pre.upstream_index(), session, rid) {
                None => {
                    &&& out.len() == 1
                    &&& spec_is_close(out[0], session, SessionError::ProtocolViolation, "SUBSCRIBE_OK for unknown request ID"@)
                    &&& *post == *pre
                },
                Some(tk) => {
                    let t = spec_first_pos(pre.tracks(), spec_route_of::<S>(tk@));
                    let route = pre.tracks()[t];
                    let l = spec_first_pos(route.upstream_subs@, spec_leg_of(session));
                    if t < 0 || l < 0 || route.upstream_subs@[l].state != UpstreamSubState::Pending {
                        &&& out.len() == 1
                        &&& spec_is_close(out[0], session, SessionError::ProtocolViolation, if t < 0 {
                            "SUBSCRIBE_OK for unknown track"@
                        } else if l < 0 {
                            "SUBSCRIBE_OK from non-upstream session"@
                        } else {
                            "SUBSCRIBE_OK for non-pending upstream leg"@
                        })
                        &&& *post == *pre
                    } else if spec_alias_bound(s.inbound_aliases@, TrackAlias(msg.track_alias)) {
                        &&& out.len() == 1
                        &&& spec_is_close(out[0], session, SessionError::DuplicateTrackAlias, "duplicate track alias in SUBSCRIBE_OK"@)
                        &&& post.sessions() == pre.sessions()
                    } else {
                        let ds = route.downstream_subs@;
                        &&& post.tracks().len() == pre.tracks().len()
                        &&& post.tracks()[t].upstream_subs@.len() == route.upstream_subs@.len()
                        &&& post.tracks()[t].upstream_subs@[l].state == UpstreamSubState::Established
                        &&& post.tracks()[t].upstream_subs@[l].inbound_alias == Some(TrackAlias(msg.track_alias))
                        &&& Self::spec_oks_sound(out, ds, ds.len() as int, msg)
                        &&& pre.spec_oks_complete(out, ds, ds.len() as int, msg)
                        &&& Self::spec_ok_targets_distinct(out)
                        &&& forall|i: int| 0 <= i < out.len() ==> Self::spec_ok_alias(#[trigger] out[i])
                            == pre.session_state(out[i]->SendControlMessage_session).aliases.next_outbound.0
                                + spec_count_to(out, i, out[i]->SendControlMessage_session)
                        &&& forall|x: S| #[trigger] pre.has_session(x) ==> post.session_state(x).aliases.next_outbound.0
                            == pre.session_state(x).aliases.next_outbound.0 + spec_count_to(out, out.len() as int, x)
                        &&& forall|j: int| 0 <= j < ds.len() && Self::spec_awaits_ok(ds[j]) && pre.has_session(ds[j].id.session)
                            ==> exists|i: int| 0 <= i < out.len() && #[trigger] Self::spec_ok_to(out[i], ds[j], msg)
                                && post.tracks()[t].downstream_subs@[j].outbound_alias == Some(TrackAlias(Self::spec_ok_alias(out[i])))
                        &&& post.tracks()[t].downstream_subs@.len() == ds.len()
                        &&& forall|j: int| 0 <= j < ds.len() ==> pre.spec_ok_applied(ds[j], #[trigger] post.tracks()[t].downstream_subs@[j])
                        &&& post.tracks()[t].track == route.track
                        &&& Self::spec_route_stays(pre, post, t)
                        &&& Self::spec_sessions_kept(pre, post, |y: S| y == session
                            || exists|j: int| 0 <= j < ds.len() && (#[trigger] ds[j]).id.session == y)
                        &&& post.has_session(session)
                        &&& spec_alias_bound(post.session_state(session).inbound_aliases@, TrackAlias(msg.track_alias))
                        &&& post.upstream_index() == pre.upstream_index()
                        &&& post.downstream_index() == pre.downstream_index()
                        &&& if msg.track_extensions@.len() > 0 {
                            &&& post.tracks()[t].track_extensions is Some
                            &&& spec_kvs_view(post.tracks()[t].track_extensions->0@) == spec_kvs_view(msg.track_extensions@)
                        } else {
                            post.tracks()[t].track_extensions == route.track_extensions
                        }
                    }
                },
            }
        }
    }

    /// A REQUEST_ERROR passed on to the downstream subscription `d`.
    pub open spec fn spec_err_to(e: OutputEvent<S>, d: DownstreamSubscription<S>, msg: RequestErrorMsg) -> bool {
        &&& Self::spec_forwarded_error(e, msg)
        &&& e->SendControlMessage_session == d.id.session
        &&& e->SendControlMessage_message->RequestError_0.request_id == d.id.request_id.0
    }

    /// Whether `e` is sent to one of the first `upto` subscriptions of `xs`
    /// that `sel` picks.
    pub open spec fn spec_err_from(e: OutputEvent<S>, xs: Seq<DownstreamSubscription<S>>, upto: int, sel: spec_fn(DownstreamSubscription<S>) -> bool, msg: RequestErrorMsg) -> bool {
        exists|j: int| 0 <= j < upto && sel(xs[j]) && #[trigger] Self::spec_err_to(e, xs[j], msg)
    }

    /// Whether `out` holds what is sent to `x`.
    pub open spec fn spec_err_sent(out: Seq<OutputEvent<S>>, x: DownstreamSubscription<S>, msg: RequestErrorMsg) -> bool {
        exists|i: int| 0 <= i < out.len() && #[trigger] Self::spec_err_to(out[i], x, msg)
    }

    /// Every output is sent to one of the first `upto` subscriptions of `xs`
    /// that `sel` picks.
    #[verifier::opaque]
    pub open spec fn spec_err_sound(out: Seq<OutputEvent<S>>, xs: Seq<DownstreamSubscription<S>>, upto: int, sel: spec_fn(DownstreamSubscription<S>) -> bool, msg: RequestErrorMsg) -> bool {
        forall|i: int| 0 <= i < out.len() ==> #[trigger] Self::spec_err_from(out[i], xs, upto, sel, msg)
    }

    /// Each of the first `upto` subscriptions of `xs` that `sel` picks is
    /// sent one.
    #[verifier::opaque]
    pub open spec fn spec_err_complete(out: Seq<OutputEvent<S>>, xs: Seq<DownstreamSubscription<S>>, upto: int, sel: spec_fn(DownstreamSubscription<S>) -> bool, msg: RequestErrorMsg) -> bool {
        forall|j: int| 0 <= j < upto && sel(#[trigger] xs[j]) ==> Self::spec_err_sent(out, xs[j], msg)
    }

    proof fn lemma_err_empty(xs: Seq<DownstreamSubscription<S>>, upto: int, sel: spec_fn(DownstreamSubscription<S>) -> bool, msg: RequestErrorMsg)
        ensures
            Self::spec_err_sound(Seq::empty(), xs, upto, sel, msg),
            Self::spec_err_complete(Seq::empty(), xs, 0, sel, msg),
    {
        reveal(Relay::spec_err_sound);
        reveal(Relay::spec_err_complete);
    }

    proof fn lemma_err_push(out: Seq<OutputEvent<S>>, xs: Seq<DownstreamSubscription<S>>, upto: int, d: int, sel: spec_fn(DownstreamSubscription<S>) -> bool, msg: RequestErrorMsg,
        e: OutputEvent<S>)
        requires
            0 <= d < upto,
            Self::spec_err_sound(out, xs, upto, sel, msg),
            sel(xs[d]),
            Self::spec_err_to(e, xs[d], msg),
        ensures
            Self::spec_err_sound(out.push(e), xs, upto, sel, msg),
            Self::spec_err_sent(out.push(e), xs[d], msg),
    {
        reveal(Relay::spec_err_sound);
        let o = out.push(e);
        assert forall|i: int| 0 <= i < o.len() implies #[trigger] Self::spec_err_from(o[i], xs, upto, sel, msg) by {
            if i < out.len() {
                assert(o[i] == out[i]);
                assert(Self::spec_err_from(out[i], xs, upto, sel, msg));
            } else {
                assert(Self::spec_err_to(o[i], xs[d], msg));
            }
        }
        assert(Self::spec_err_to(o[out.len() as int], xs[d], msg));
    }

    proof fn lemma_err_keep(out: Seq<OutputEvent<S>>, xs: Seq<DownstreamSubscription<S>>, c: int, sel: spec_fn(DownstreamSubscription<S>) -> bool, msg: RequestErrorMsg,
        e: OutputEvent<S>)
        requires
            Self::spec_err_complete(out, xs, c, sel, msg),
        ensures
            Self::spec_err_complete(out.push(e), xs, c, sel, msg),
    {
        reveal(Relay::spec_err_complete);
        let o = out.push(e);
        assert forall|j: int| 0 <= j < c && sel(#[trigger] xs[j]) implies Self::spec_err_sent(o, xs[j], msg) by {
            assert(Self::spec_err_sent(out, xs[j], msg));
            let i = choose|i: int| 0 <= i < out.len() && #[trigger] Self::spec_err_to(out[i], xs[j], msg);
            assert(o[i] == out[i]);
            assert(Self::spec_err_to(o[i], xs[j], msg));
        }
    }

    proof fn lemma_err_step(out: Seq<OutputEvent<S>>, xs: Seq<DownstreamSubscription<S>>, d: int, sel: spec_fn(DownstreamSubscription<S>) -> bool, msg: RequestErrorMsg)
        requires
            0 <= d < xs.len(),
            Self::spec_err_complete(out, xs, d, sel, msg),
            sel(xs[d]) ==> Self::spec_err_sent(out, xs[d], msg),
        ensures
            Self::spec_err_complete(out, xs, d + 1, sel, msg),
    {
        reveal(Relay::spec_err_complete);
    }

    /// Whether no two forwarded REQUEST_ERRORs answer the same request of
    /// the same session.
    pub open spec fn spec_err_targets_distinct(out: Seq<OutputEvent<S>>) -> bool {
        forall|i: int, j: int| 0 <= i < j < out.len() ==>
            (#[trigger] out[i])->SendControlMessage_session != (#[trigger] out[j])->SendControlMessage_session
            || out[i]->SendControlMessage_message->RequestError_0.request_id != out[j]->SendControlMessage_message->RequestError_0.request_id
    }

    proof fn lemma_err_widen(out: Seq<OutputEvent<S>>, xs: Seq<DownstreamSubscription<S>>, d: int, sel: spec_fn(DownstreamSubscription<S>) -> bool, msg: RequestErrorMsg)
        requires
            Self::spec_err_sound(out, xs, d, sel, msg),
        ensures
            Self::spec_err_sound(out, xs, d + 1, sel, msg),
    {
        reveal(Relay::spec_err_sound);
        assert forall|i: int| 0 <= i < out.len() implies #[trigger] Self::spec_err_from(out[i], xs, d + 1, sel, msg) by {
            assert(Self::spec_err_from(out[i], xs, d, sel, msg));
        }
    }

    /// Sending to subscription `d` after the earlier ones keeps the targets
    /// distinct, as the subscriptions' IDs are.
    proof fn lemma_err_distinct_push(out: Seq<OutputEvent<S>>, xs: Seq<DownstreamSubscription<S>>, d: int, sel: spec_fn(DownstreamSubscription<S>) -> bool, msg: RequestErrorMsg,
        e: OutputEvent<S>)
        requires
            0 <= d < xs.len(),
            Self::spec_err_sound(out, xs, d, sel, msg),
            Self::spec_err_targets_distinct(out),
            forall|i: int, j: int| 0 <= i < j < xs.len() ==> (#[trigger] xs[i]).id != (#[trigger] xs[j]).id,
            sel(xs[d]),
            Self::spec_err_to(e, xs[d], msg),
        ensures
            Self::spec_err_sound(out.push(e), xs, d + 1, sel, msg),
            Self::spec_err_sent(out.push(e), xs[d], msg),
            Self::spec_err_targets_distinct(out.push(e)),
    {
        Self::lemma_err_widen(out, xs, d, sel, msg);
        Self::lemma_err_push(out, xs, d + 1, d, sel, msg, e);
        reveal(Relay::spec_err_sound);
        let o = out.push(e);
        assert forall|i: int, j: int| 0 <= i < j < o.len() implies
            (#[trigger] o[i])->SendControlMessage_session != (#[trigger] o[j])->SendControlMessage_session
            || o[i]->SendControlMessage_message->RequestError_0.request_id != o[j]->SendControlMessage_message->RequestError_0.request_id by {
            assert(o[i] == out[i]);
            if j < out.len() {
                assert(o[j] == out[j]);
            } else {
                assert(Self::spec_err_from(out[i], xs, d, sel, msg));
                let q = choose|q: int| 0 <= q < d && sel(xs[q]) && #[trigger] Self::spec_err_to(out[i], xs[q], msg);
                assert(xs[q].id != xs[d].id);
            }
        }
    }

    /// Whether downstream subscription `b` is `a` ended when `a` was
    /// pending, and `a` itself otherwise.
    pub open spec fn spec_pending_ended(a: DownstreamSubscription<S>, b: DownstreamSubscription<S>) -> bool {
        if a.state == DownstreamSubState::Pending {
            &&& b.id == a.id
            &&& b.requested_parameters == a.requested_parameters
            &&& b.forward_desired == a.forward_desired
            &&& b.outbound_alias == a.outbound_alias
            &&& b.state == DownstreamSubState::Terminated
        } else {
            b == a
        }
    }

    /// What `handle_request_error` leaves and answers.
    pub open spec fn post_request_error(pre: &Self, post: &Self, session: S, msg: RequestErrorMsg, out: Seq<OutputEvent<S>>) -> bool {
        &&& post.sessions() == pre.sessions()
        &&& post.publishers() == pre.publishers()
        &&& Self::post_request_error_routing(pre, post, session, msg, out)
    }

    /// The routing part of `post_request_error`.
    pub open spec fn post_request_error_routing(pre: &Self, post: &Self, session: S, msg: RequestErrorMsg, out: Seq<OutputEvent<S>>) -> bool {
        let s = pre.session_state(session);
        let rid = RequestId(msg.request_id);
        if s.setup != SetupState::SetupComplete {
            &&& out.len() == 1
            &&& spec_is_close(out[0], session, SessionError::ProtocolViolation, "REQUEST_ERROR before setup complete"@)
            &&& *post == *pre
        } else {
            match spec_index_track(pre.upstream_index(), session, rid) {
                None => out.len() == 0 && *post == *pre,
                Some(tk) => {
                    let t = spec_first_pos(pre.tracks(), spec_route_of::<S>(tk@));
                    if t < 0 {
                        out.len() == 0 && *post == *pre
                    } else {
                        let route = pre.tracks()[t];
                        let ds = route.downstream_subs@;
                        &&& !spec_index_has(post.upstream_index(), session, rid)
                        &&& if spec_all_upstream_terminated(spec_end_leg(route.upstream_subs@, session)) {
                            &&& Self::spec_err_sound(out, ds, ds.len() as int, spec_is_pending(), msg)
                            &&& Self::spec_err_complete(out, ds, ds.len() as int, spec_is_pending(), msg)
                            &&& Self::spec_err_targets_distinct(out)
                            &&& post.spec_none_in_state(tk@, DownstreamSubState::Pending)
                            &&& if forall|j: int| 0 <= j < ds.len() ==> (#[trigger] ds[j]).state != DownstreamSubState::Established {
                                post.tracks() == pre.tracks().remove(t)
                            } else {
                                &&& Self::spec_route_stays(pre, post, t)
                                &&& post.tracks()[t].upstream_subs@ == spec_end_leg(route.upstream_subs@, session)
                                &&& post.tracks()[t].track_extensions == route.track_extensions
                                &&& post.tracks()[t].downstream_subs@.len() == ds.len()
                                &&& forall|j: int| 0 <= j < ds.len() ==> Self::spec_pending_ended(ds[j], #[trigger] post.tracks()[t].downstream_subs@[j])
                            }
                        } else {
                            &&& out.len() == 0
                            &&& Self::spec_route_stays(pre, post, t)
                            &&& post.tracks()[t].upstream_subs@ == spec_end_leg(route.upstream_subs@, session)
                            &&& post.tracks()[t].track_extensions == route.track_extensions
                            &&& post.tracks()[t].downstream_subs@ == ds
                        }
                    }
                },
            }
        }
    }

    /// An UNSUBSCRIBE for the upstream leg `l`, to its publisher on the
    /// control stream.
    pub open spec fn spec_unsub_to(e: OutputEvent<S>, l: UpstreamSubscriptionLeg<S>) -> bool {
        &&& e matches OutputEvent::SendControlMessage {
            channel: ControlChannel::ControlStream, message: ControlMessage::Unsubscribe(m), ..
        }
        &&& e->SendControlMessage_session == l.publisher_session
        &&& e->SendControlMessage_message->Unsubscribe_0.request_id == l.request_id.0
    }

    /// Whether `e` is sent to one of the first `upto` legs of `xs`
    /// that `sel` picks.
    pub open spec fn spec_unsub_from(e: OutputEvent<S>, xs: Seq<UpstreamSubscriptionLeg<S>>, upto: int, sel: spec_fn(UpstreamSubscriptionLeg<S>) -> bool) -> bool {
        exists|j: int| 0 <= j < upto && sel(xs[j]) && #[trigger] Self::spec_unsub_to(e, xs[j])
    }

    /// Whether `out` holds what is sent to `x`.
    pub open spec fn spec_unsub_sent(out: Seq<OutputEvent<S>>, x: UpstreamSubscriptionLeg<S>) -> bool {
        exists|i: int| 0 <= i < out.len() && #[trigger] Self::spec_unsub_to(out[i], x)
    }

    /// Every output is sent to one of the first `upto` legs of `xs`
    /// that `sel` picks.
    #[verifier::opaque]
    pub open spec fn spec_unsub_sound(out: Seq<OutputEvent<S>>, xs: Seq<UpstreamSubscriptionLeg<S>>, upto: int, sel: spec_fn(UpstreamSubscriptionLeg<S>) -> bool) -> bool {
        forall|i: int| 0 <= i < out.len() ==> #[trigger] Self::spec_unsub_from(out[i], xs, upto, sel)
    }

    /// Each of the first `upto` legs of `xs` that `sel` picks is
    /// sent one.
    #[verifier::opaque]
    pub open spec fn spec_unsub_complete(out: Seq<OutputEvent<S>>, xs: Seq<UpstreamSubscriptionLeg<S>>, upto: int, sel: spec_fn(UpstreamSubscriptionLeg<S>) -> bool) -> bool {
        forall|j: int| 0 <= j < upto && sel(#[trigger] xs[j]) ==> Self::spec_unsub_sent(out, xs[j])
    }

    proof fn lemma_unsub_empty(xs: Seq<UpstreamSubscriptionLeg<S>>, upto: int, sel: spec_fn(UpstreamSubscriptionLeg<S>) -> bool)
        ensures
            Self::spec_unsub_sound(Seq::empty(), xs, upto, sel),
            Self::spec_unsub_complete(Seq::empty(), xs, 0, sel),
    {
        reveal(Relay::spec_unsub_sound);
        reveal(Relay::spec_unsub_complete);
    }

    proof fn lemma_unsub_push(out: Seq<OutputEvent<S>>, xs: Seq<UpstreamSubscriptionLeg<S>>, upto: int, d: int, sel: spec_fn(UpstreamSubscriptionLeg<S>) -> bool,
        e: OutputEvent<S>)
        requires
            0 <= d < upto,
            Self::spec_unsub_sound(out, xs, upto, sel),
            sel(xs[d]),
            Self::spec_unsub_to(e, xs[d]),
        ensures
            Self::spec_unsub_sound(out.push(e), xs, upto, sel),
            Self::spec_unsub_sent(out.push(e), xs[d]),
    {
        reveal(Relay::spec_unsub_sound);
        let o = out.push(e);
        assert forall|i: int| 0 <= i < o.len() implies #[trigger] Self::spec_unsub_from(o[i], xs, upto, sel) by {
            if i < out.len() {
                assert(o[i] == out[i]);
                assert(Self::spec_unsub_from(out[i], xs, upto, sel));
            } else {
                assert(Self::spec_unsub_to(o[i], xs[d]));
            }
        }
        assert(Self::spec_unsub_to(o[out.len() as int], xs[d]));
    }

    proof fn lemma_unsub_keep(out: Seq<OutputEvent<S>>, xs: Seq<UpstreamSubscriptionLeg<S>>, c: int, sel: spec_fn(UpstreamSubscriptionLeg<S>) -> bool,
        e: OutputEvent<S>)
        requires
            Self::spec_unsub_complete(out, xs, c, sel),
        ensures
            Self::spec_unsub_complete(out.push(e), xs, c, sel),
    {
        reveal(Relay::spec_unsub_complete);
        let o = out.push(e);
        assert forall|j: int| 0 <= j < c && sel(#[trigger] xs[j]) implies Self::spec_unsub_sent(o, xs[j]) by {
            assert(Self::spec_unsub_sent(out, xs[j]));
            let i = choose|i: int| 0 <= i < out.len() && #[trigger] Self::spec_unsub_to(out[i], xs[j]);
            assert(o[i] == out[i]);
            assert(Self::spec_unsub_to(o[i], xs[j]));
        }
    }

    proof fn lemma_unsub_step(out: Seq<OutputEvent<S>>, xs: Seq<UpstreamSubscriptionLeg<S>>, d: int, sel: spec_fn(UpstreamSubscriptionLeg<S>) -> bool)
        requires
            0 <= d < xs.len(),
            Self::spec_unsub_complete(out, xs, d, sel),
            sel(xs[d]) ==> Self::spec_unsub_sent(out, xs[d]),
        ensures
            Self::spec_unsub_complete(out, xs, d + 1, sel),
    {
        reveal(Relay::spec_unsub_complete);
    }

    /// Whether no two outputs go to the same session.
    pub open spec fn spec_sessions_distinct(out: Seq<OutputEvent<S>>) -> bool {
        forall|i: int, j: int| 0 <= i < j < out.len() ==>
            (#[trigger] out[i])->SendControlMessage_session != (#[trigger] out[j])->SendControlMessage_session
    }

    /// Whether every output goes to the publisher of one of the first
    /// `upto` legs of `ups`.
    pub open spec fn spec_sent_to_legs(out: Seq<OutputEvent<S>>, ups: Seq<UpstreamSubscriptionLeg<S>>, upto: int) -> bool {
        forall|i: int| 0 <= i < out.len() ==> exists|j: int| 0 <= j < upto
            && (#[trigger] out[i])->SendControlMessage_session == (#[trigger] ups[j]).publisher_session
    }

    proof fn lemma_legs_step(out: Seq<OutputEvent<S>>, ups: Seq<UpstreamSubscriptionLeg<S>>, d: int, e: Option<OutputEvent<S>>)
        requires
            0 <= d < ups.len(),
            Self::spec_sessions_distinct(out),
            Self::spec_sent_to_legs(out, ups, d),
            forall|i: int, j: int| 0 <= i < j < ups.len() ==> (#[trigger] ups[i]).publisher_session != (#[trigger] ups[j]).publisher_session,
            e matches Some(x) ==> x->SendControlMessage_session == ups[d].publisher_session,
        ensures
            ({
                let o = match e { Some(x) => out.push(x), None => out };
                Self::spec_sessions_distinct(o) && Self::spec_sent_to_legs(o, ups, d + 1)
            }),
    {
        let o = match e { Some(x) => out.push(x), None => out };
        assert forall|i: int| 0 <= i < o.len() implies exists|j: int| 0 <= j < d + 1
            && (#[trigger] o[i])->SendControlMessage_session == (#[trigger] ups[j]).publisher_session by {
            if i < out.len() {
                assert(o[i] == out[i]);
                let j = choose|j: int| 0 <= j < d && (#[trigger] out[i])->SendControlMessage_session == (#[trigger] ups[j]).publisher_session;
                assert(o[i]->SendControlMessage_session == ups[j].publisher_session);
            } else {
                assert(o[i]->SendControlMessage_session == ups[d].publisher_session);
            }
        }
        assert forall|i: int, j: int| 0 <= i < j < o.len() implies
            (#[trigger] o[i])->SendControlMessage_session != (#[trigger] o[j])->SendControlMessage_session by {
            assert(o[i] == out[i]);
            if j < out.len() {
                assert(o[j] == out[j]);
            } else {
                let q = choose|q: int| 0 <= q < d && (#[trigger] out[i])->SendControlMessage_session == (#[trigger] ups[q]).publisher_session;
                assert(ups[q].publisher_session != ups[d].publisher_session);
            }
        }
    }

    /// What `handle_unsubscribe` leaves and answers.
    pub open spec fn post_unsubscribe(pre: &Self, post: &Self, session: S, msg: Unsubscribe, out: Seq<OutputEvent<S>>) -> bool {
        &&& post.sessions() == pre.sessions()
        &&& post.publishers() == pre.publishers()
        &&& Self::post_unsubscribe_routing(pre, post, session, msg, out)
    }

    /// The routing part of `post_unsubscribe`.
    pub open spec fn post_unsubscribe_routing(pre: &Self, post: &Self, session: S, msg: Unsubscribe, out: Seq<OutputEvent<S>>) -> bool {
        let s = pre.session_state(session);
        let rid = RequestId(msg.request_id);
        if s.setup != SetupState::SetupComplete {
            &&& out.len() == 1
            &&& spec_is_close(out[0], session, SessionError::ProtocolViolation, "UNSUBSCRIBE before setup complete"@)
            &&& *post == *pre
        } else {
            match spec_index_track(pre.downstream_index(), session, rid) {
                None => {
                    &&& out.len() == 1
                    &&& spec_is_close(out[0], session, SessionError::ProtocolViolation, "UNSUBSCRIBE for unknown request ID"@)
                    &&& *post == *pre
                },
                Some(tk) => {
                    let t = spec_first_pos(pre.tracks(), spec_route_of::<S>(tk@));
                    if t < 0 {
                        out.len() == 0 && *post == *pre
                    } else {
                        let route = pre.tracks()[t];
                        let ups = route.upstream_subs@;
                        let ds1 = spec_end_ds(route.downstream_subs@, SubscriptionId { session, request_id: rid });
                        &&& !spec_index_has(post.downstream_index(), session, rid)
                        &&& if spec_no_active_downstream(ds1) {
                            &&& Self::spec_unsub_sound(out, ups, ups.len() as int, spec_leg_active())
                            &&& Self::spec_unsub_complete(out, ups, ups.len() as int, spec_leg_active())
                            &&& Self::spec_sessions_distinct(out)
                            &&& post.tracks() == pre.tracks().remove(t)
                            &&& forall|l: int| 0 <= l < ups.len() && (spec_leg_active::<S>())(#[trigger] ups[l])
                                ==> !spec_index_has(post.upstream_index(), ups[l].publisher_session, ups[l].request_id)
                        } else {
                            &&& out.len() == 0
                            &&& post.tracks().len() == pre.tracks().len()
                            &&& forall|i: int| 0 <= i < pre.tracks().len() && i != t ==> #[trigger] post.tracks()[i] == pre.tracks()[i]
                            &&& post.tracks()[t].track == route.track
                            &&& post.tracks()[t].downstream_subs@ == ds1
                            &&& post.tracks()[t].upstream_subs@ == ups
                        }
                    }
                },
            }
        }
    }

    /// What `handle_publish_done` leaves and answers.
    pub open spec fn post_publish_done(pre: &Self, post: &Self, session: S, msg: PublishDone, out: Seq<OutputEvent<S>>) -> bool {
        &&& post.sessions() == pre.sessions()
        &&& post.publishers() == pre.publishers()
        &&& Self::post_publish_done_routing(pre, post, session, msg, out)
    }

    /// The routing part of `post_publish_done`.
    pub open spec fn post_publish_done_routing(pre: &Self, post: &Self, session: S, msg: PublishDone, out: Seq<OutputEvent<S>>) -> bool {
        let s = pre.session_state(session);
        let rid = RequestId(msg.request_id);
        if s.setup != SetupState::SetupComplete {
            &&& out.len() == 1
            &&& spec_is_close(out[0], session, SessionError::ProtocolViolation, "PUBLISH_DONE before setup complete"@)
            &&& *post == *pre
        } else {
            match spec_index_track(pre.upstream_index(), session, rid) {
                None => out.len() == 0 && *post == *pre,
                Some(tk) => {
                    let t = spec_first_pos(pre.tracks(), spec_route_of::<S>(tk@));
                    if t < 0 {
                        out.len() == 0 && *post == *pre
                    } else {
                        let route = pre.tracks()[t];
                        let ds = route.downstream_subs@;
                        let all_ended = spec_all_upstream_terminated(spec_end_leg(route.upstream_subs@, session));
                        &&& !spec_index_has(post.upstream_index(), session, rid)
                        &&& Self::spec_done_sound(out, ds, ds.len() as int, spec_done_sel(all_ended), msg)
                        &&& Self::spec_done_complete(out, ds, ds.len() as int, spec_is_established(), msg)
                        &&& all_ended ==> Self::spec_done_complete(out, ds, ds.len() as int, spec_is_pending(), msg)
                        &&& Self::spec_done_targets_distinct(out)
                        &&& post.spec_none_in_state(tk@, DownstreamSubState::Established)
                        &&& all_ended ==> post.spec_none_in_state(tk@, DownstreamSubState::Pending)
                        &&& if (spec_end_leg(route.upstream_subs@, session).len() == 0 || all_ended)
                            && forall|j: int| 0 <= j < ds.len() ==> (#[trigger] ds[j]).state != DownstreamSubState::Pending || all_ended {
                            post.tracks() == pre.tracks().remove(t)
                        } else {
                            &&& Self::spec_route_stays(pre, post, t)
                            &&& post.tracks()[t].upstream_subs@ == spec_end_leg(route.upstream_subs@, session)
                            &&& post.tracks()[t].track_extensions == route.track_extensions
                            &&& post.tracks()[t].downstream_subs@.len() == ds.len()
                            &&& forall|j: int| 0 <= j < ds.len() ==> Self::spec_ds_ended_if(ds[j], #[trigger] post.tracks()[t].downstream_subs@[j],
                                ds[j].state == DownstreamSubState::Established || (all_ended && ds[j].state == DownstreamSubState::Pending))
                        }
                    }
                },
            }
        }
    }

    /// Whether downstream subscription `b` is `a` ended when `ends` holds,
    /// and `a` itself otherwise.
    pub open spec fn spec_ds_ended_if(a: DownstreamSubscription<S>, b: DownstreamSubscription<S>, ends: bool) -> bool {
        if ends {
            &&& b.id == a.id
            &&& b.requested_parameters == a.requested_parameters
            &&& b.forward_desired == a.forward_desired
            &&& b.outbound_alias == a.outbound_alias
            &&& b.state == DownstreamSubState::Terminated
        } else {
            b == a
        }
    }

    fn handle_client_setup(&mut self, session: S, channel: ControlChannel, setup: ClientSetup) -> (out: Vec<OutputEvent<S>>)
        requires
            old(self).wf(),
            old(self).has_session(session),
        ensures
            final(self).wf(),
            Self::post_client_setup(old(self), final(self), session, channel, setup, out@),
    {
        let k = match self.find_session(&session) {
            Some(k) => k,
            None => return Vec::new(),
        };
        proof {
            self.lemma_session_index(k as int);
        }
        if self.sessions[k].role != EndpointRole::Server {
            return close(session, SessionError::ProtocolViolation, "CLIENT_SETUP received but we are not server");
        }
        if self.sessions[k].setup != SetupState::AwaitingPeerSetup {
            return close(session, SessionError::ProtocolViolation, "duplicate CLIENT_SETUP");
        }
        self.sessions[k].setup = SetupState::SetupComplete;
        proof {
            assert(self.sessions@ =~= old(self).sessions@.update(k as int, Session { setup: SetupState::SetupComplete, ..old(self).sessions@[k as int] }));
            lemma_sessions_update_wf(old(self).sessions@, k as int, self.sessions@[k as int]);
        }
        let mut params = self.config.server_setup_parameters.duplicate();
        params.add_varint(PARAM_MAX_REQUEST_ID, self.sessions[k].request_ids.local_max_exclusive.0);
        one(OutputEvent::SendControlMessage {
            session,
            channel,
            message: ControlMessage::ServerSetup(ServerSetup { parameters: params }),
        })
    }

    fn handle_server_setup(&mut self, session: S, setup: ServerSetup) -> (out: Vec<OutputEvent<S>>)
        requires
            old(self).wf(),
            old(self).has_session(session),
            spec_get_varint(setup.parameters@, PARAM_MAX_REQUEST_ID) matches Some(v) ==> v < u64::MAX,
        ensures
            final(self).wf(),
            Self::post_server_setup(old(self), final(self), session, setup, out@),
    {
        let k = match self.find_session(&session) {
            Some(k) => k,
            None => return Vec::new(),
        };
        proof {
            self.lemma_session_index(k as int);
        }
        if self.sessions[k].role != EndpointRole::Client {
            return close(session, SessionError::ProtocolViolation, "SERVER_SETUP received but we are not client");
        }
        if self.sessions[k].setup != SetupState::AwaitingPeerSetup {
            return close(session, SessionError::ProtocolViolation, "duplicate SERVER_SETUP");
        }
        match setup.parameters.get_varint(PARAM_MAX_REQUEST_ID) {
            Some(max) => {
                self.sessions[k].request_ids.peer_max_exclusive = RequestId(max);
            },
            None => {},
        }
        self.sessions[k].setup = SetupState::SetupComplete;
        proof {
            lemma_sessions_update_wf(old(self).sessions@, k as int, self.sessions@[k as int]);
            assert(self.sessions@ =~= old(self).sessions@.update(k as int, self.sessions@[k as int]));
        }
        Vec::new()
    }

    fn handle_max_request_id(&mut self, session: S, msg: MaxRequestId) -> (out: Vec<OutputEvent<S>>)
        requires
            old(self).wf(),
            old(self).has_session(session),
            msg.max_request_id < u64::MAX - 1,
        ensures
            final(self).wf(),
            Self::post_max_request_id(old(self), final(self), session, msg, out@),
    {
        let k = match self.find_session(&session) {
            Some(k) => k,
            None => return Vec::new(),
        };
        proof {
            self.lemma_session_index(k as int);
        }
        let new_exclusive = RequestId(msg.max_request_id + 1);
        match self.sessions[k].on_peer_max_request_id(new_exclusive) {
            Ok(()) => {
                proof {
                    lemma_sessions_update_wf(old(self).sessions@, k as int, self.sessions@[k as int]);
                    assert(self.sessions@ =~= old(self).sessions@.update(k as int, self.sessions@[k as int]));
                }
                Vec::new()
            },
            Err(err) => {
                proof {
                    assert(self.sessions@ =~= old(self).sessions@);
                }
                close(session, err, "MAX_REQUEST_ID did not increase")
            },
        }
    }

    /// Whether every session can take the track aliases one event may
    /// allocate: one per downstream subscription of a route.
    pub closed spec fn alias_room(&self) -> bool {
        &&& forall|i: int| 0 <= i < self.sessions@.len() ==> (#[trigger] self.sessions@[i]).aliases.next_outbound.0 < u64::MAX
        &&& forall|i: int, j: int| 0 <= i < self.sessions@.len() && 0 <= j < self.tracks@.len()
            ==> (#[trigger] self.sessions@[i]).aliases.next_outbound.0 + (#[trigger] self.tracks@[j]).downstream_subs@.len() < u64::MAX
    }

    // -----------------------------------------------------------------------
    // Subscription routing
    // -----------------------------------------------------------------------

    /// The sessions that published a non-empty prefix of `track_ns`,
    /// each once.
    fn match_publishers_for_namespace(&self, track_ns: &TrackNamespace) -> (r: Vec<S>)
        ensures
            forall|x: S| r@.contains(x) <==> self.spec_publishes_prefix_of(track_ns@, x),
            r@.no_duplicates(),
    {
        let mut result: Vec<S> = Vec::new();
        let mut i: usize = 0;
        while i < self.publishers_by_namespace.len()
            invariant
                i <= self.publishers_by_namespace@.len(),
                result@.no_duplicates(),
                forall|x: S| result@.contains(x) <==> self.spec_publishes_upto(track_ns@, i as int, x),
            decreases self.publishers_by_namespace@.len() - i,
        {
            let entry = &self.publishers_by_namespace[i];
            if entry.0.0.fields.len() > 0 && fields_prefix(&entry.0.0.fields, &track_ns.fields) {
                let mut j: usize = 0;
                while j < entry.1.len()
                    invariant
                        i < self.publishers_by_namespace@.len(),
                        *entry == self.publishers_by_namespace@[i as int],
                        entry.0@.len() > 0 && spec_fields_prefix(entry.0@, track_ns@),
                        j <= entry.1@.len(),
                        result@.no_duplicates(),
                        forall|x: S| result@.contains(x) <==> self.spec_publishes_upto(track_ns@, i as int, x)
                            || (exists|b: int| 0 <= b < j && #[trigger] entry.1@[b] == x),
                    decreases entry.1@.len() - j,
                {
                    let x = &entry.1[j];
                    let ghost before = result@;
                    if !contains_key(&result, x) {
                        result.push(x.key_clone());
                    }
                    proof {
                        assert forall|y: S| result@.contains(y) <==> self.spec_publishes_upto(track_ns@, i as int, y)
                            || (exists|b: int| 0 <= b < j + 1 && #[trigger] entry.1@[b] == y) by {
                            if y == entry.1@[j as int] {
                                if !before.contains(y) {
                                    assert(result@[result@.len() - 1] == y);
                                }
                            } else {
                                if result@.contains(y) {
                                    let t = choose|t: int| 0 <= t < result@.len() && result@[t] == y;
                                    if t < before.len() {
                                        assert(before[t] == y);
                                    }
                                }
                                if before.contains(y) {
                                    let t = choose|t: int| 0 <= t < before.len() && before[t] == y;
                                    assert(result@[t] == y);
                                }
                                if exists|b: int| 0 <= b < j + 1 && #[trigger] entry.1@[b] == y {
                                    let b = choose|b: int| 0 <= b < j + 1 && #[trigger] entry.1@[b] == y;
                                    assert(b < j);
                                }
                            }
                        }
                    }
                    j = j + 1;
                }
                proof {
                    assert forall|y: S| result@.contains(y) <==> self.spec_publishes_upto(track_ns@, i + 1, y) by {
                        if exists|b: int| 0 <= b < j && #[trigger] entry.1@[b] == y {
                            let b = choose|b: int| 0 <= b < j && #[trigger] entry.1@[b] == y;
                            assert(self.publishers_by_namespace@[i as int].1@[b] == y);
                        }
                        if self.spec_publishes_upto(track_ns@, i + 1, y) && !self.spec_publishes_upto(track_ns@, i as int, y) {
                            let (a, b) = choose|a: int, b: int| 0 <= a < i + 1
                                && 0 <= b < self.publishers_by_namespace@[a].1@.len()
                                && self.publishers_by_namespace@[a].0@.len() > 0
                                && spec_fields_prefix(self.publishers_by_namespace@[a].0@, track_ns@)
                                && #[trigger] self.publishers_by_namespace@[a].1@[b] == y;
                            assert(a == i);
                            assert(entry.1@[b] == y);
                        }
                    }
                }
            } else {
                proof {
                    assert forall|y: S| self.spec_publishes_upto(track_ns@, i + 1, y) ==> self.spec_publishes_upto(track_ns@, i as int, y) by {
                        if self.spec_publishes_upto(track_ns@, i + 1, y) {
                            let (a, b) = choose|a: int, b: int| 0 <= a < i + 1
                                && 0 <= b < self.publishers_by_namespace@[a].1@.len()
                                && self.publishers_by_namespace@[a].0@.len() > 0
                                && spec_fields_prefix(self.publishers_by_namespace@[a].0@, track_ns@)
                                && #[trigger] self.publishers_by_namespace@[a].1@[b] == y;
                            assert(a != i);
                        }
                    }
                }
            }
            i = i + 1;
        }
        result
    }

    /// Whether session `x` is among the publishers, before position `i`, of
    /// a non-empty prefix of `ns`.
    pub open spec fn spec_publishes_upto(&self, ns: Seq<Seq<u8>>, i: int, x: S) -> bool {
        exists|a: int, b: int| 0 <= a < i
            && 0 <= b < self.publishers()[a].1@.len()
            && self.publishers()[a].0@.len() > 0
            && spec_fields_prefix(self.publishers()[a].0@, ns)
            && #[trigger] self.publishers()[a].1@[b] == x
    }

    /// Whether session `x` published a non-empty prefix of `ns`.
    pub open spec fn spec_publishes_prefix_of(&self, ns: Seq<Seq<u8>>, x: S) -> bool {
        self.spec_publishes_upto(ns, self.publishers().len() as int, x)
    }

    /// Whether `post` lists the publishers of `pre` with `session` added to
    /// those of namespace `ns`: every other entry in its place as it was,
    /// the entry of `ns` extended if `session` was not in it, or a new entry
    /// for `ns` with `session` alone at the end.
    pub open spec fn spec_publishers_added(pre: Seq<(NamespaceKey, Vec<S>)>, post: Seq<(NamespaceKey, Vec<S>)>, ns: Seq<Seq<u8>>, session: S) -> bool {
        &&& forall|a: int| 0 <= a < pre.len() && pre[a].0@ != ns ==> #[trigger] post[a] == pre[a]
        &&& forall|a: int| 0 <= a < pre.len() && (#[trigger] pre[a]).0@ == ns ==> post[a].0 == pre[a].0
            && post[a].1@ == if pre[a].1@.contains(session) { pre[a].1@ } else { pre[a].1@.push(session) }
        &&& if exists|a: int| 0 <= a < pre.len() && (#[trigger] pre[a]).0@ == ns {
            post.len() == pre.len()
        } else {
            &&& post.len() == pre.len() + 1
            &&& post[pre.len() as int].0@ == ns
            &&& post[pre.len() as int].1@ == seq![session]
        }
    }


    /// Whether `ns` is among the namespaces session `s` published.
    pub open spec fn spec_session_published(s: Session<S>, ns: Seq<Seq<u8>>) -> bool {
        exists|j: int| 0 <= j < s.published_namespaces@.len() && (#[trigger] s.published_namespaces@[j])@ == ns
    }

    /// Whether `session` is among the publishers recorded for `ns`.
    pub open spec fn spec_publisher_of(&self, ns: Seq<Seq<u8>>, session: S) -> bool {
        exists|a: int| 0 <= a < self.publishers().len() && (#[trigger] self.publishers()[a]).0@ == ns
            && self.publishers()[a].1@.contains(session)
    }

    /// Records `session` as a publisher of `ns`.
    fn add_publisher(&mut self, ns: &NamespaceKey, session: &S)
        requires
            spec_unique_namespaces(old(self).publishers_by_namespace@),
        ensures
            spec_unique_namespaces(final(self).publishers_by_namespace@),
            final(self).spec_publisher_of(ns@, *session),
            Self::spec_publishers_added(old(self).publishers(), final(self).publishers(), ns@, *session),
            final(self).sessions@ == old(self).sessions@,
            final(self).tracks@ == old(self).tracks@,
            final(self).upstream_request_index@ == old(self).upstream_request_index@,
            final(self).downstream_request_index@ == old(self).downstream_request_index@,
            final(self).config == old(self).config,
    {
        match self.find_publishers(ns) {
            Some(a) => {
                let ghost before = self.publishers_by_namespace@;
                if !contains_key(&self.publishers_by_namespace[a].1, session) {
                    self.publishers_by_namespace[a].1.push(session.key_clone());
                    assert(self.publishers_by_namespace@[a as int].1@[self.publishers_by_namespace@[a as int].1@.len() - 1] == *session);
                }
                assert forall|b: int| 0 <= b < before.len() && (#[trigger] before[b]).0@ == ns@ implies b == a by {
                    if b != a {
                        assert(before[a as int].0@ == ns@);
                    }
                }
                assert(forall|b: int| 0 <= b < before.len() && b != a ==> #[trigger] self.publishers_by_namespace@[b] == before[b]);
                assert(self.publishers()[a as int].0@ == ns@);
                assert forall|x: int, y: int| 0 <= x < self.publishers_by_namespace@.len() && 0 <= y < self.publishers_by_namespace@.len() && x != y
                    implies self.publishers_by_namespace@[x].0@ != self.publishers_by_namespace@[y].0@ by {
                    assert(self.publishers_by_namespace@[x].0 == before[x].0);
                    assert(self.publishers_by_namespace@[y].0 == before[y].0);
                }
            },
            None => {
                let ghost before = self.publishers_by_namespace@;
                let mut v: Vec<S> = Vec::new();
                v.push(session.key_clone());
                assert(v@[0] == *session);
                self.publishers_by_namespace.push((ns.duplicate(), v));
                assert(self.publishers()[self.publishers().len() - 1].0@ == ns@);
                assert(forall|b: int| 0 <= b < before.len() ==> #[trigger] self.publishers_by_namespace@[b] == before[b]);
                assert(self.publishers_by_namespace@[before.len() as int].1@ =~= seq![*session]);
                assert forall|x: int, y: int| 0 <= x < self.publishers_by_namespace@.len() && 0 <= y < self.publishers_by_namespace@.len() && x != y
                    implies self.publishers_by_namespace@[x].0@ != self.publishers_by_namespace@[y].0@ by {
                    if x < before.len() {
                        assert(self.publishers_by_namespace@[x] == before[x]);
                    }
                    if y < before.len() {
                        assert(self.publishers_by_namespace@[y] == before[y]);
                    }
                }
            },
        }
    }

    /// The error a rejected new request ID is answered with.
    pub open spec fn spec_request_id_error(s: Session<S>, id: RequestId) -> SessionError {
        if id.0 % 2 != s.role.spec_peer_first() || id != s.request_ids.peer_next_expected {
            SessionError::InvalidRequestId
        } else {
            SessionError::TooManyRequests
        }
    }

    fn handle_publish_namespace(&mut self, session: S, channel: ControlChannel, msg: PublishNamespace) -> (out: Vec<OutputEvent<S>>)
        requires
            old(self).wf(),
            old(self).has_session(session),
        ensures
            final(self).wf(),
            Self::post_publish_namespace(old(self), final(self), session, channel, msg, out@),
    {
        let k = match self.find_session(&session) {
            Some(k) => k,
            None => return Vec::new(),
        };
        proof {
            self.lemma_session_index(k as int);
        }
        if self.sessions[k].setup != SetupState::SetupComplete {
            return close(session, SessionError::ProtocolViolation, "PUBLISH_NAMESPACE before setup complete");
        }
        let req_id = RequestId(msg.request_id);
        match self.sessions[k].validate_peer_new_request_id(req_id) {
            Ok(()) => {},
            Err(e) => {
                assert(self.sessions@ =~= old(self).sessions@);
                return close(session, e, "invalid request ID in PUBLISH_NAMESPACE");
            },
        }
        let ns_key = NamespaceKey(msg.track_namespace.duplicate());
        let mut found = false;
        let mut j: usize = 0;
        while j < self.sessions[k].published_namespaces.len()
            invariant
                k < self.sessions@.len(),
                j <= self.sessions@[k as int].published_namespaces@.len(),
                found ==> Self::spec_session_published(self.sessions@[k as int], ns_key@),
            decreases self.sessions@[k as int].published_namespaces@.len() - j,
        {
            if self.sessions[k].published_namespaces[j].same(&ns_key) {
                found = true;
            }
            j = j + 1;
        }
        if !found {
            let dup = ns_key.duplicate();
            self.sessions[k].published_namespaces.push(dup);
            let ghost pn = self.sessions@[k as int].published_namespaces@;
            assert(pn[pn.len() - 1]@ == ns_key@);
        }
        proof {
            lemma_sessions_update_wf(old(self).sessions@, k as int, self.sessions@[k as int]);
            self.lemma_session_index(k as int);
        }
        self.add_publisher(&ns_key, &session);
        let mut out: Vec<OutputEvent<S>> = Vec::new();
        out.push(OutputEvent::SendControlMessage {
            session: session.key_clone(),
            channel,
            message: ControlMessage::RequestOk(RequestOk { request_id: msg.request_id, parameters: Parameters::new() }),
        });
        let ghost sess_k = self.sessions@[k as int];
        let ghost pubs0 = self.publishers_by_namespace@;
        let ghost snapshot = *self;
        let ghost l0: int = old(self).sessions@[k as int].request_ids.local_next.0 as int;
        let ghost pmax: int = old(self).sessions@[k as int].request_ids.peer_max_exclusive.0 as int;
        let ghost ns = msg.track_namespace@;
        let ghost tracks0 = self.tracks@;
        proof {
            assert(tracks0 == old(self).tracks@);
            assert(sess_k.request_ids.local_next.0 == l0);
            assert(sess_k.request_ids.peer_max_exclusive.0 == pmax);
        }
        proof {
            Self::lemma_pn_start(out@, tracks0, ns, session, l0, pmax);
        }
        let mut ti: usize = 0;
        while ti < self.tracks.len()
            invariant
                self.wf(),
                k < self.sessions@.len(),
                self.sessions@[k as int].id == session,
                self.sessions@[k as int].published_namespaces == sess_k.published_namespaces,
                self.sessions@[k as int].request_ids.peer_next_expected == sess_k.request_ids.peer_next_expected,
                self.sessions@[k as int].request_ids.peer_max_exclusive.0 == pmax,
                self.sessions@[k as int].request_ids.local_next.0 == l0 + 2 * (out@.len() - 1),
                self.publishers_by_namespace@ == pubs0,
                ns_key@ == msg.track_namespace@,
                ns == msg.track_namespace@,
                Self::spec_session_published(sess_k, ns_key@),
                self.tracks@.len() == tracks0.len(),
                ti <= self.tracks@.len(),
                forall|t: int| 0 <= t < self.tracks@.len() ==> (#[trigger] self.tracks@[t]).track == tracks0[t].track
                    && self.tracks@[t].downstream_subs@ == tracks0[t].downstream_subs@,
                forall|t: int| ti <= t < self.tracks@.len() ==> (#[trigger] self.tracks@[t]) == tracks0[t],
                self.sessions@.len() == old(self).sessions@.len(),
                forall|j: int| 0 <= j < old(self).sessions@.len() ==> (#[trigger] self.sessions@[j]).id == old(self).sessions@[j].id,
                forall|j: int| 0 <= j < old(self).sessions@.len() && j != k ==> #[trigger] self.sessions@[j] == old(self).sessions@[j],
                out@.len() >= 1,
                out@[0] matches OutputEvent::SendControlMessage { session: to, channel: ch, message: ControlMessage::RequestOk(ok) }
                    && to == session && ch == channel && ok.request_id == msg.request_id && ok.parameters@.len() == 0,
                spec_unique_tracks(tracks0),
                Self::spec_pn_sound(out@, tracks0, ti as int, ns, session),
                Self::spec_pn_ids(out@, l0),
                Self::spec_pn_distinct(out@),
                Self::spec_pn_complete(out@, tracks0, ti as int, ns, session, l0, pmax),
                forall|i: int| 1 <= i < out@.len() ==> #[trigger] Self::spec_leg_in(self.tracks@, ti as int,
                    Self::spec_sub_track(out@[i]), session, out@[i]->SendControlMessage_message->Subscribe_0.request_id),
            decreases self.tracks@.len() - ti,
        {
            let ghost out0 = out@;
            let ghost ts_it = self.tracks@;
            let ghost r = tracks0[ti as int];
            assert(self.tracks@[ti as int] == r);
            let is_prefix = fields_prefix(&msg.track_namespace.fields, &self.tracks[ti].track.namespace.fields);
            let no_leg = self.tracks[ti].find_upstream(&session).is_none();
            proof {
                assert(no_leg == !spec_ups_has(r.upstream_subs@, session)) by {
                    if spec_ups_has(r.upstream_subs@, session) {
                        let l = choose|l: int| 0 <= l < r.upstream_subs@.len() && (#[trigger] r.upstream_subs@[l]).publisher_session == session;
                    }
                }
            }
            if is_prefix && no_leg && !self.tracks[ti].no_active_downstream() {
                proof {
                    assert(Self::spec_ns_waits(r, ns, session));
                }
                let ghost before = self.sessions@;
                match self.sessions[k].alloc_local_request_id() {
                    Some(upstream_req_id) => {
                        proof {
                            lemma_sessions_update_wf(before, k as int, self.sessions@[k as int]);
                        }
                        let track_key = self.tracks[ti].track.duplicate();
                        out.push(OutputEvent::SendControlMessage {
                            session: session.key_clone(),
                            channel: ControlChannel::ControlStream,
                            message: ControlMessage::Subscribe(Subscribe {
                                request_id: upstream_req_id.0,
                                track_namespace: track_key.namespace.duplicate(),
                                track_name: vstd::slice::slice_to_vec(track_key.name.as_slice()),
                                parameters: Parameters::new(),
                            }),
                        });
                        proof {
                            let e = out@[out@.len() - 1];
                            assert(out@ =~= out0.push(e));
                            assert(Self::spec_sub_route(e, r, session));
                            Self::lemma_pn_push(out0, tracks0, ti as int, ns, session, l0, pmax, e);
                        }
                        let leg = UpstreamSubscriptionLeg {
                            publisher_session: session.key_clone(),
                            request_id: upstream_req_id,
                            state: UpstreamSubState::Pending,
                            inbound_alias: None,
                            forward_current: false,
                        };
                        index_insert(&mut self.upstream_request_index, session.key_clone(), upstream_req_id, track_key);
                        let ghost tb = self.tracks@;
                        let ghost lg = leg;
                        self.tracks[ti].insert_upstream(leg);
                        proof {
                            lemma_route_unique_insert_up(tb[ti as int], self.tracks@[ti as int], lg);
                            lemma_routes_unique_at(tb, self.tracks@, ti as int);
                            assert forall|t: int| 0 <= t < self.tracks@.len() implies (#[trigger] self.tracks@[t]).track == tracks0[t].track
                                && self.tracks@[t].downstream_subs@ == tracks0[t].downstream_subs@ by {
                                assert(self.tracks@[t].track == tb[t].track);
                                assert(self.tracks@[t].downstream_subs@ == tb[t].downstream_subs@);
                            }
                            assert forall|j: int| 0 <= j < old(self).sessions@.len() implies (#[trigger] self.sessions@[j]).id == old(self).sessions@[j].id
                                && (j != k ==> self.sessions@[j] == old(self).sessions@[j]) by {
                                if j != k {
                                    assert(self.sessions@[j] == before[j]);
                                }
                            }
                            lemma_tracks_same_keys(tracks0, self.tracks@);
                            assert forall|t: int| ti + 1 <= t < self.tracks@.len() implies (#[trigger] self.tracks@[t]) == tracks0[t] by {
                                assert(self.tracks@[t] == tb[t]);
                            }
                            assert forall|t: int| 0 <= t < ti implies #[trigger] self.tracks@[t] == ts_it[t] by {
                                assert(self.tracks@[t] == tb[t]);
                            }
                            let last = out@.len() - 1;
                            let nl = self.tracks@[ti as int].upstream_subs@.len() - 1;
                            assert(self.tracks@[ti as int].upstream_subs@[nl] == leg);
                            assert(Self::spec_sub_track(out@[last]) == r.track@);
                            assert(Self::spec_leg_in(self.tracks@, ti + 1, Self::spec_sub_track(out@[last]), session,
                                out@[last]->SendControlMessage_message->Subscribe_0.request_id));
                            assert forall|i: int| 1 <= i < out@.len() implies #[trigger] Self::spec_leg_in(self.tracks@, ti + 1,
                                Self::spec_sub_track(out@[i]), session, out@[i]->SendControlMessage_message->Subscribe_0.request_id) by {
                                if i < last {
                                    assert(out@[i] == out0[i]);
                                    Self::lemma_leg_in_keep(ts_it, self.tracks@, ti as int, ti + 1, Self::spec_sub_track(out0[i]), session,
                                        out0[i]->SendControlMessage_message->Subscribe_0.request_id);
                                }
                            }
                        }
                    },
                    None => {
                        proof {
                            Self::lemma_pn_skip(out@, tracks0, ti as int, ns, session, l0, pmax);
                            assert forall|i: int| 1 <= i < out@.len() implies #[trigger] Self::spec_leg_in(self.tracks@, ti + 1,
                                Self::spec_sub_track(out@[i]), session, out@[i]->SendControlMessage_message->Subscribe_0.request_id) by {
                                Self::lemma_leg_in_keep(ts_it, self.tracks@, ti as int, ti + 1, Self::spec_sub_track(out@[i]), session,
                                    out@[i]->SendControlMessage_message->Subscribe_0.request_id);
                            }
                        }
                    },
                }
            } else {
                proof {
                    Self::lemma_pn_skip(out@, tracks0, ti as int, ns, session, l0, pmax);
                    assert forall|i: int| 1 <= i < out@.len() implies #[trigger] Self::spec_leg_in(self.tracks@, ti + 1,
                        Self::spec_sub_track(out@[i]), session, out@[i]->SendControlMessage_message->Subscribe_0.request_id) by {
                        Self::lemma_leg_in_keep(ts_it, self.tracks@, ti as int, ti + 1, Self::spec_sub_track(out@[i]), session,
                            out@[i]->SendControlMessage_message->Subscribe_0.request_id);
                    }
                }
            }
            ti = ti + 1;
        }
        proof {
            assert forall|i: int| 1 <= i < out@.len() implies self.spec_route_has_leg(Self::spec_sub_track(#[trigger] out@[i]), session,
                out@[i]->SendControlMessage_message->Subscribe_0.request_id) by {
                let key = Self::spec_sub_track(out@[i]);
                let rid = out@[i]->SendControlMessage_message->Subscribe_0.request_id;
                assert(Self::spec_leg_in(self.tracks@, ti as int, key, session, rid));
                let (t, l) = choose|t: int, l: int| 0 <= t < ti && self.tracks@[t].track@ == key
                    && 0 <= l < self.tracks@[t].upstream_subs@.len()
                    && (#[trigger] self.tracks@[t].upstream_subs@[l]).publisher_session == session
                    && self.tracks@[t].upstream_subs@[l].request_id.0 == rid
                    && self.tracks@[t].upstream_subs@[l].state == UpstreamSubState::Pending;
                assert(self.tracks()[t].upstream_subs@[l] == self.tracks@[t].upstream_subs@[l]);
            }
            self.lemma_session_index(k as int);
            let a = choose|a: int| 0 <= a < snapshot.publishers().len() && (#[trigger] snapshot.publishers()[a]).0@ == ns_key@
                && snapshot.publishers()[a].1@.contains(session);
            assert(self.publishers()[a] == snapshot.publishers()[a]);
            old(self).lemma_session_index(k as int);
        }
        out
    }

    /// Whether the route of `key` has an established upstream leg.
    pub open spec fn spec_track_established(&self, key: (Seq<Seq<u8>>, Seq<u8>)) -> bool {
        exists|j: int| 0 <= j < self.tracks().len() && (#[trigger] self.tracks()[j]).track@ == key
            && spec_has_established_upstream(self.tracks()[j].upstream_subs@)
    }

    #[verifier::rlimit(40)]
    #[verifier::spinoff_prover]
    fn handle_subscribe(&mut self, session: S, channel: ControlChannel, msg: Subscribe) -> (out: Vec<OutputEvent<S>>)
        requires
            old(self).wf(),
            old(self).has_session(session),
            old(self).alias_room(),
        ensures
            final(self).wf(),
            Self::post_subscribe(old(self), final(self), session, channel, msg, out@),
    {
        let k = match self.find_session(&session) {
            Some(k) => k,
            None => return Vec::new(),
        };
        proof {
            self.lemma_session_index(k as int);
        }
        if self.sessions[k].setup != SetupState::SetupComplete {
            return close(session, SessionError::ProtocolViolation, "SUBSCRIBE before setup complete");
        }
        let rid = RequestId(msg.request_id);
        match self.sessions[k].validate_peer_new_request_id(rid) {
            Ok(()) => {},
            Err(e) => {
                assert(self.sessions@ =~= old(self).sessions@);
                return close(session, e, "invalid request ID in SUBSCRIBE");
            },
        }
        proof {
            lemma_sessions_update_wf(old(self).sessions@, k as int, self.sessions@[k as int]);
        }
        let ghost mid = *self;
        let ghost s_mid = self.sessions@;
        assert(forall|j: int| 0 <= j < s_mid.len() && j != k ==> #[trigger] s_mid[j] == old(self).sessions@[j]);
        let track_key = TrackKey {
            namespace: msg.track_namespace.duplicate(),
            name: vstd::slice::slice_to_vec(msg.track_name.as_slice()),
        };
        let sub_id = SubscriptionId { session: session.key_clone(), request_id: rid };
        let ghost dix0 = self.downstream_request_index@;
        let tk_ds = track_key.duplicate();
        let ghost tkd = tk_ds;
        index_insert(&mut self.downstream_request_index, session.key_clone(), rid, tk_ds);
        let ghost dix = self.downstream_request_index@;
        proof {
            lemma_index_insert_track(dix0, session, rid, tkd, session, rid);
            assert(spec_index_names(dix, session, msg.request_id, (msg.track_namespace@, msg.track_name@)));
        }
        let ti = match self.find_track(&track_key) {
            Some(t) => t,
            None => {
                let ghost before = self.tracks@;
                self.tracks.push(TrackRoute::new(track_key.duplicate()));
                proof {
                    assert forall|i: int, j: int| 0 <= i < self.tracks@.len() && 0 <= j < self.tracks@.len() && i != j
                        implies self.tracks@[i].track@ != self.tracks@[j].track@ by {
                        if i < before.len() && j < before.len() {
                            assert(self.tracks@[i] == before[i] && self.tracks@[j] == before[j]);
                        } else if i < before.len() {
                            assert(self.tracks@[i] == before[i]);
                        } else {
                            assert(self.tracks@[j] == before[j]);
                        }
                    }
                }
                self.tracks.len() - 1
            },
        };
        let ghost ups0 = self.tracks@[ti as int].upstream_subs@;
        assert(forall|t: int| 0 <= t < old(self).tracks@.len() && t != ti ==> #[trigger] self.tracks@[t] == old(self).tracks@[t]);
        assert(self.tracks@.len() == old(self).tracks@.len()
            || (self.tracks@.len() == old(self).tracks@.len() + 1 && ti == old(self).tracks@.len()));
        assert(self.tracks@[ti as int].track@ == track_key@);
        assert(ti < old(self).tracks@.len() ==> spec_first_pos(old(self).tracks@, spec_route_of::<S>(track_key@)) == ti
            && self.tracks@[ti as int] == old(self).tracks@[ti as int]);
        assert(ti >= old(self).tracks@.len() ==> ups0.len() == 0 && self.tracks@[ti as int].downstream_subs@.len() == 0);
        proof {
            lemma_first_pos(old(self).tracks@, spec_route_of::<S>(track_key@));
            if ti >= old(self).tracks@.len() {
                let t = spec_first_pos(old(self).tracks@, spec_route_of::<S>(track_key@));
                if t >= 0 {
                    assert(self.tracks@[t] == old(self).tracks@[t]);
                    assert(self.tracks@[t].track@ == track_key@);
                }
            }
            assert(old(self).spec_route_ds(track_key@) == self.tracks@[ti as int].downstream_subs@);
            assert(old(self).spec_route_ups(track_key@) == self.tracks@[ti as int].upstream_subs@);
        }
        proof {
            if old(self).spec_track_established((msg.track_namespace@, msg.track_name@)) {
                let j = choose|j: int| 0 <= j < old(self).tracks().len() && (#[trigger] old(self).tracks()[j]).track@
                    == (msg.track_namespace@, msg.track_name@) && spec_has_established_upstream(old(self).tracks()[j].upstream_subs@);
                assert(j == ti);
            }
        }
        let ds = DownstreamSubscription {
            id: sub_id,
            state: DownstreamSubState::Pending,
            requested_parameters: msg.parameters,
            forward_desired: true,
            outbound_alias: None,
        };
        let ghost tracks_before = self.tracks@;
        let ghost dsv = ds;
        proof {
            assert forall|t: int| 0 <= t < tracks_before.len() implies #[trigger] spec_route_unique(tracks_before[t]) by {
                if t < old(self).tracks@.len() {
                    assert(tracks_before[t] == old(self).tracks@[t]);
                }
            }
        }
        self.tracks[ti].insert_downstream(ds);
        proof {
            lemma_route_unique_insert_ds(tracks_before[ti as int], self.tracks@[ti as int], dsv);
            lemma_routes_unique_at(tracks_before, self.tracks@, ti as int);
            assert forall|i: int, j: int| 0 <= i < self.tracks@.len() && 0 <= j < self.tracks@.len() && i != j
                implies self.tracks@[i].track@ != self.tracks@[j].track@ by {
                assert(self.tracks@[i].track == tracks_before[i].track);
                assert(self.tracks@[j].track == tracks_before[j].track);
            }
        }
        let di = self.tracks[ti].downstream_subs.len() - 1;
        if self.tracks[ti].has_established_upstream() {
            self.tracks[ti].downstream_subs[di].state = DownstreamSubState::Established;
            self.tracks[ti].downstream_subs[di].forward_desired = false;
            let ghost before = self.sessions@;
            let alias = self.sessions[k].alloc_outbound_track_alias();
            proof {
                lemma_sessions_update_wf(before, k as int, self.sessions@[k as int]);
            }
            self.tracks[ti].downstream_subs[di].outbound_alias = Some(alias);
            proof {
                assert forall|i: int, j: int| 0 <= i < self.tracks@.len() && 0 <= j < self.tracks@.len() && i != j
                    implies self.tracks@[i].track@ != self.tracks@[j].track@ by {
                    assert(self.tracks@[i].track == tracks_before[i].track);
                    assert(self.tracks@[j].track == tracks_before[j].track);
                }
            }
            proof {
                assert(self.tracks@[ti as int].downstream_subs@[di as int].id == sub_id);
                assert(self.tracks@[ti as int].track@ == track_key@);
            }
            proof {
                assert(ti < old(self).tracks@.len());
                assert(self.tracks@[ti as int].track_extensions == old(self).tracks@[ti as int].track_extensions);
                lemma_route_pos(self.tracks@, ti as int, track_key@);
                let dd = self.tracks@[ti as int].downstream_subs@;
                let di0 = tracks_before[ti as int].downstream_subs@;
                assert(dd.drop_last() =~= spec_ds_without(di0, sub_id));
                assert(dd.last().id == sub_id);
                assert(self.tracks@[ti as int].upstream_subs@ == tracks_before[ti as int].upstream_subs@);
            }
            let ext = match &self.tracks[ti].track_extensions {
                Some(v) => copy_pairs(v),
                None => Vec::new(),
            };
            proof {
                assert(spec_kvs_view(ext@) == match old(self).tracks@[ti as int].track_extensions {
                    Some(v) => spec_kvs_view(v@),
                    None => Seq::<KvSpec>::empty(),
                });
                assert forall|t: int| 0 <= t < old(self).tracks@.len() && t != ti implies #[trigger] self.tracks@[t] == old(self).tracks@[t] by {
                    assert(self.tracks@[t] == tracks_before[t]);
                }
                lemma_tracks_kept_at(old(self).tracks@, self.tracks@, ti as int, track_key@);
                assert forall|j: int| 0 <= j < old(self).sessions@.len() implies (#[trigger] self.sessions@[j]).id == old(self).sessions@[j].id
                    && (j != k ==> self.sessions@[j] == old(self).sessions@[j]) by {
                    if j != k {
                        assert(self.sessions@[j] == s_mid[j]);
                    }
                }
            }
            return one(OutputEvent::SendControlMessage {
                session,
                channel,
                message: ControlMessage::SubscribeOk(SubscribeOk {
                    request_id: msg.request_id,
                    track_alias: alias.0,
                    parameters: Parameters::new(),
                    track_extensions: ext,
                }),
            });
        }
        let publishers = self.match_publishers_for_namespace(&msg.track_namespace);
        if publishers.len() == 0 {
            let ghost ds_ins = self.tracks@[ti as int].downstream_subs@;
            self.tracks[ti].downstream_subs[di].state = DownstreamSubState::Terminated;
            proof {
                lemma_ds_without_none(tracks_before[ti as int].downstream_subs@, sub_id);
                assert forall|d: int| 0 <= d < self.tracks@[ti as int].downstream_subs@.len()
                    && (#[trigger] self.tracks@[ti as int].downstream_subs@[d]).id == sub_id
                    implies self.tracks@[ti as int].downstream_subs@[d].state == DownstreamSubState::Terminated by {
                    if d < di {
                        assert(self.tracks@[ti as int].downstream_subs@[d] == ds_ins[d]);
                        assert(ds_ins[d] == spec_ds_without(tracks_before[ti as int].downstream_subs@, sub_id)[d]);
                    }
                }
            }
            let ghost tt = self.tracks@;
            proof {
                assert forall|i: int, j: int| 0 <= i < self.tracks@.len() && 0 <= j < self.tracks@.len() && i != j
                    implies self.tracks@[i].track@ != self.tracks@[j].track@ by {
                    assert(self.tracks@[i].track == tracks_before[i].track);
                    assert(self.tracks@[j].track == tracks_before[j].track);
                }
            }
            if self.tracks[ti].no_active_downstream() && self.tracks[ti].upstream_subs.len() == 0 {
                let ghost before = self.tracks@;
                self.tracks.remove(ti);
                proof {
                    assert forall|i: int, j: int| 0 <= i < self.tracks@.len() && 0 <= j < self.tracks@.len() && i != j
                        implies self.tracks@[i].track@ != self.tracks@[j].track@ by {
                        let a = if i < ti { i } else { i + 1 };
                        let b = if j < ti { j } else { j + 1 };
                        assert(self.tracks@[i] == before[a] && self.tracks@[j] == before[b]);
                    }
                }
            }
            let ghost idx_before = self.downstream_request_index@;
            index_remove(&mut self.downstream_request_index, &session, rid);
            proof {
                assert forall|x: S| !old(self).spec_publishes_prefix_of(msg.track_namespace@, x) by {
                    assert(!publishers@.contains(x));
                }
                lemma_index_without_absent(idx_before, session, rid);
                let key = (msg.track_namespace@, msg.track_name@);
                assert(tt[ti as int].track@ == key);
                assert forall|t: int| 0 <= t < old(self).tracks@.len() && t != ti implies #[trigger] tt[t] == old(self).tracks@[t] by {
                    assert(tt[t] == tracks_before[t]);
                }
                lemma_tracks_kept_at(old(self).tracks@, tt, ti as int, key);
                if self.tracks@.len() < tt.len() {
                    assert(self.tracks@ == tt.remove(ti as int));
                    lemma_tracks_kept_remove(tt, ti as int, key);
                    lemma_tracks_kept_trans(old(self).tracks@, tt, self.tracks@, key);
                } else {
                    assert(self.tracks@ == tt);
                }
                if forall|t: int| 0 <= t < old(self).tracks().len() ==> (#[trigger] old(self).tracks()[t]).track@ != key {
                    if ti < old(self).tracks@.len() {
                        assert(old(self).tracks()[ti as int].track@ == key);
                    }
                    assert(tt[ti as int].downstream_subs@.len() == 1);
                    assert(tt[ti as int].upstream_subs@.len() == 0);
                    assert(spec_no_active_downstream(tt[ti as int].downstream_subs@));
                    assert(self.tracks@.len() < tt.len());
                    assert(self.tracks@ =~= old(self).tracks@) by {
                        assert forall|t: int| 0 <= t < self.tracks@.len() implies #[trigger] self.tracks@[t] == old(self).tracks@[t] by {
                            assert(self.tracks@[t] == tt[t]);
                        }
                    }
                }
                assert forall|j: int| 0 <= j < old(self).sessions@.len() implies (#[trigger] self.sessions@[j]).id == old(self).sessions@[j].id
                    && (j != k ==> self.sessions@[j] == old(self).sessions@[j]) by {
                    assert(self.sessions@ == s_mid);
                }
                assert forall|st: DownstreamSubState| st != DownstreamSubState::Terminated
                    implies !self.spec_route_has_ds(key, sub_id, st) by {
                    if self.spec_route_has_ds(key, sub_id, st) {
                        let (t, d) = choose|t: int, d: int| 0 <= t < self.tracks().len() && self.tracks()[t].track@ == key
                            && 0 <= d < self.tracks()[t].downstream_subs@.len()
                            && (#[trigger] self.tracks()[t].downstream_subs@[d]).id == sub_id
                            && self.tracks()[t].downstream_subs@[d].state == st;
                        if self.tracks@.len() == tt.len() {
                            assert(self.tracks@ == tt);
                            assert(t == ti);
                        } else {
                            let a = if t < ti { t } else { t + 1 };
                            assert(self.tracks@[t] == tt[a]);
                            assert(a != ti);
                        }
                    }
                }
            }
            return one(OutputEvent::SendControlMessage {
                session,
                channel,
                message: ControlMessage::RequestError(RequestErrorMsg {
                    request_id: msg.request_id,
                    error_code: RequestErrorCode::DoesNotExist.as_u64(),
                    retry_interval: 0,
                    error_reason: ReasonPhrase("no publisher for namespace".to_owned()),
                }),
            });
        }
        proof {
            assert(publishers@.contains(publishers@[0]));
        }
        let ghost ns = msg.track_namespace@;
        let ghost name = msg.track_name@;
        proof {
            assert forall|x: S| spec_ups_has(ups0, x) <==> old(self).spec_has_leg((ns, name), x) by {
                if ti < old(self).tracks@.len() {
                    assert(ups0 == old(self).tracks()[ti as int].upstream_subs@);
                    if old(self).spec_has_leg((ns, name), x) {
                        let (t, l) = choose|t: int, l: int| 0 <= t < old(self).tracks().len() && old(self).tracks()[t].track@ == (ns, name)
                            && 0 <= l < old(self).tracks()[t].upstream_subs@.len()
                            && (#[trigger] old(self).tracks()[t].upstream_subs@[l]).publisher_session == x;
                        assert(t == ti);
                        assert(ups0[l].publisher_session == x);
                    }
                    if spec_ups_has(ups0, x) {
                        let l = choose|l: int| 0 <= l < ups0.len() && (#[trigger] ups0[l]).publisher_session == x;
                        assert(old(self).tracks()[ti as int].upstream_subs@[l].publisher_session == x);
                    }
                } else {
                    assert(ups0.len() == 0);
                    if old(self).spec_has_leg((ns, name), x) {
                        let (t, l) = choose|t: int, l: int| 0 <= t < old(self).tracks().len() && old(self).tracks()[t].track@ == (ns, name)
                            && 0 <= l < old(self).tracks()[t].upstream_subs@.len()
                            && (#[trigger] old(self).tracks()[t].upstream_subs@[l]).publisher_session == x;
                        assert(old(self).tracks@[t].track@ == track_key@);
                    }
                }
            }
            assert forall|j: int| 0 <= j < old(self).sessions@.len() implies (#[trigger] self.sessions@[j]).id == old(self).sessions@[j].id
                && self.sessions@[j].request_ids.local_next == old(self).sessions@[j].request_ids.local_next
                && self.sessions@[j].request_ids.peer_max_exclusive == old(self).sessions@[j].request_ids.peer_max_exclusive by {
                if j != k {
                    assert(self.sessions@[j] == old(self).sessions@[j]);
                }
            }
            assert(publishers@.subrange(0, 0) =~= Seq::<S>::empty());
        }
        let mut out: Vec<OutputEvent<S>> = Vec::new();
        let ghost tracks_mid = self.tracks@;
        let ghost ds_ins = self.tracks@[ti as int].downstream_subs@;
        proof {
            assert(ds_ins[di as int].id == sub_id && ds_ins[di as int].state == DownstreamSubState::Pending);
            assert(self.tracks@[ti as int].track@ == track_key@);
            if forall|t: int| 0 <= t < old(self).tracks().len() ==> (#[trigger] old(self).tracks()[t]).track@ != track_key@ {
                if ti < old(self).tracks@.len() {
                    assert(old(self).tracks()[ti as int].track@ == track_key@);
                }
                assert(tracks_before[ti as int].downstream_subs@.len() == 0);
                assert(spec_ds_without(tracks_before[ti as int].downstream_subs@, sub_id) =~= Seq::<DownstreamSubscription<S>>::empty());
                assert(ds_ins.len() == 1);
            }
        }
        let mut pi: usize = 0;
        while pi < publishers.len()
            invariant
                self.wf(),
                ti < self.tracks@.len(),
                self.tracks@.len() == tracks_mid.len(),
                self.publishers_by_namespace@ == old(self).publishers_by_namespace@,
                publishers@.no_duplicates(),
                forall|x: S| publishers@.contains(x) <==> old(self).spec_publishes_prefix_of(ns, x),
                ns == msg.track_namespace@,
                name == msg.track_name@,
                track_key@ == (ns, name),
                old(self).wf(),
                pi <= publishers@.len(),
                self.sessions@.len() == old(self).sessions@.len(),
                forall|j: int| 0 <= j < old(self).sessions@.len() ==> (#[trigger] self.sessions@[j]).id == old(self).sessions@[j].id,
                forall|j: int| 0 <= j < old(self).sessions@.len() && !publishers@.subrange(0, pi as int).contains(old(self).sessions@[j].id)
                    ==> (#[trigger] self.sessions@[j]).request_ids.local_next == old(self).sessions@[j].request_ids.local_next
                    && self.sessions@[j].request_ids.peer_max_exclusive == old(self).sessions@[j].request_ids.peer_max_exclusive,
                forall|x: S| !publishers@.subrange(0, pi as int).contains(x)
                    ==> (#[trigger] spec_ups_has(self.tracks@[ti as int].upstream_subs@, x) <==> old(self).spec_has_leg((ns, name), x)),
                forall|i: int| 0 <= i < out@.len() ==> publishers@.subrange(0, pi as int).contains((#[trigger] out@[i])->SendControlMessage_session)
                    && old(self).spec_fanout_target(ns, name, out@[i]->SendControlMessage_session)
                    && old(self).spec_sub_to(out@[i], ns, name),
                forall|i: int, j: int| 0 <= i < j < out@.len()
                    ==> (#[trigger] out@[i])->SendControlMessage_session != (#[trigger] out@[j])->SendControlMessage_session,
                forall|x: S| publishers@.subrange(0, pi as int).contains(x) && #[trigger] old(self).spec_fanout_target(ns, name, x)
                    ==> exists|i: int| 0 <= i < out@.len() && (#[trigger] out@[i])->SendControlMessage_session == x,
                self.tracks@[ti as int].downstream_subs@ == ds_ins,
                self.tracks@[ti as int].track@ == (ns, name),
                di < ds_ins.len(),
                ds_ins[di as int].id == sub_id && ds_ins[di as int].state == DownstreamSubState::Pending,
                forall|i: int| 0 <= i < out@.len() ==> exists|l: int| 0 <= l < self.tracks@[ti as int].upstream_subs@.len()
                    && (#[trigger] self.tracks@[ti as int].upstream_subs@[l]).publisher_session == (#[trigger] out@[i])->SendControlMessage_session
                    && self.tracks@[ti as int].upstream_subs@[l].request_id.0 == out@[i]->SendControlMessage_message->Subscribe_0.request_id
                    && self.tracks@[ti as int].upstream_subs@[l].state == UpstreamSubState::Pending,
                forall|i: int| 0 <= i < out@.len() ==> #[trigger] spec_first_leg_is(self.tracks@[ti as int].upstream_subs@,
                    out@[i]->SendControlMessage_session, out@[i]->SendControlMessage_message->Subscribe_0.request_id),
                forall|i: int| 0 <= i < out@.len() ==> #[trigger] spec_index_names(self.upstream_request_index@,
                    out@[i]->SendControlMessage_session, out@[i]->SendControlMessage_message->Subscribe_0.request_id, (ns, name)),
                ds_ins[di as int].forward_desired,
                self.downstream_request_index@ == dix,
                (forall|t: int| 0 <= t < old(self).tracks().len() ==> (#[trigger] old(self).tracks()[t]).track@ != (ns, name))
                    ==> ds_ins.len() == 1 && ds_ins[0].id == sub_id,
                forall|t: int| 0 <= t < self.tracks@.len() && t != ti ==> #[trigger] self.tracks@[t] == tracks_mid[t],
                self.tracks@[ti as int].upstream_subs@.len() == ups0.len() + out@.len(),
                self.tracks@[ti as int].upstream_subs@.take(ups0.len() as int) == ups0,
                k < old(self).sessions@.len(),
                old(self).sessions@[k as int].id == session,
                forall|j: int| 0 <= j < old(self).sessions@.len() && j != k
                    && !publishers@.subrange(0, pi as int).contains(old(self).sessions@[j].id)
                    ==> #[trigger] self.sessions@[j] == old(self).sessions@[j],
            decreases publishers@.len() - pi,
        {
            let p = &publishers[pi];
            let ghost pv = *p;
            let ghost done0 = publishers@.subrange(0, pi as int);
            let ghost done1 = publishers@.subrange(0, pi + 1);
            let ghost out0 = out@;
            proof {
                assert(publishers@.contains(pv));
                assert(done1 =~= done0.push(pv));
                assert(done1[pi as int] == pv);
                assert(done1.contains(pv));
                assert(!done0.contains(pv)) by {
                    if done0.contains(pv) {
                        let q = choose|q: int| 0 <= q < done0.len() && done0[q] == pv;
                        assert(publishers@[q] == publishers@[pi as int]);
                    }
                }
            }
            if self.tracks[ti].find_upstream(p).is_none() {
                proof {
                    assert(!spec_ups_has(self.tracks@[ti as int].upstream_subs@, pv));
                }
                match self.find_session(p) {
                    Some(ps) => {
                        let ghost before = self.sessions@;
                        let ghost tb = self.tracks@;
                        proof {
                            old(self).lemma_session_index(ps as int);
                            assert(old(self).sessions@[ps as int].id == pv);
                        }
                        match self.sessions[ps].alloc_local_request_id() {
                            Some(upstream_req_id) => {
                                proof {
                                    lemma_sessions_update_wf(before, ps as int, self.sessions@[ps as int]);
                                    assert(old(self).spec_fanout_target(ns, name, pv));
                                }
                                out.push(OutputEvent::SendControlMessage {
                                    session: p.key_clone(),
                                    channel: ControlChannel::ControlStream,
                                    message: ControlMessage::Subscribe(Subscribe {
                                        request_id: upstream_req_id.0,
                                        track_namespace: msg.track_namespace.duplicate(),
                                        track_name: vstd::slice::slice_to_vec(msg.track_name.as_slice()),
                                        parameters: Parameters::new(),
                                    }),
                                });
                                let leg = UpstreamSubscriptionLeg {
                                    publisher_session: p.key_clone(),
                                    request_id: upstream_req_id,
                                    state: UpstreamSubState::Pending,
                                    inbound_alias: None,
                                    forward_current: false,
                                };
                                let ghost ib = self.upstream_request_index@;
                                let tkd = track_key.duplicate();
                                let ghost tkg = tkd;
                                index_insert(&mut self.upstream_request_index, p.key_clone(), upstream_req_id, tkd);
                                let ghost ups_b = self.tracks@[ti as int].upstream_subs@;
                                let ghost legv = leg;
                                self.tracks[ti].insert_upstream(leg);
                                proof {
                                    lemma_route_unique_insert_up(tb[ti as int], self.tracks@[ti as int], legv);
                                    lemma_routes_unique_at(tb, self.tracks@, ti as int);
                                    assert forall|t: int| 0 <= t < self.tracks@.len() && t != ti implies #[trigger] self.tracks@[t] == tracks_mid[t] by {
                                        assert(self.tracks@[t] == tb[t]);
                                    }
                                    assert forall|j: int| 0 <= j < old(self).sessions@.len() && j != k
                                        && !done1.contains(old(self).sessions@[j].id)
                                        implies #[trigger] self.sessions@[j] == old(self).sessions@[j] by {
                                        assert(j != ps);
                                        assert(self.sessions@[j] == before[j]);
                                        assert(!done0.contains(old(self).sessions@[j].id));
                                    }
                                    assert(self.tracks@[ti as int].upstream_subs@ == spec_ups_without(ups_b, pv).push(legv));
                                    lemma_ups_without_same(ups_b, pv);
                                    assert(self.tracks@[ti as int].upstream_subs@.take(ups0.len() as int) =~= ups_b.take(ups0.len() as int));
                                    assert forall|i: int| 0 <= i < out0.len() implies (#[trigger] out0[i])->SendControlMessage_session != pv by {
                                        assert(done0.contains(out0[i]->SendControlMessage_session));
                                    }
                                    assert(out@ == out0.push(out@[out@.len() - 1]));
                                    Self::lemma_fanout_record(out0, out@[out@.len() - 1], ups_b, legv, ib, tkg, (ns, name));
                                }
                                proof {
                                    assert forall|i: int, j: int| 0 <= i < self.tracks@.len() && 0 <= j < self.tracks@.len() && i != j
                                        implies self.tracks@[i].track@ != self.tracks@[j].track@ by {
                                        assert(self.tracks@[i].track == tb[i].track);
                                        assert(self.tracks@[j].track == tb[j].track);
                                    }
                                    let e = out@[out@.len() - 1];
                                    assert(e->SendControlMessage_session == pv);
                                    assert(old(self).spec_sub_to(e, ns, name));
                                    let u = self.tracks@[ti as int].upstream_subs@;
                                    assert(u == spec_ups_without(ups_b, pv).push(leg));
                                    assert forall|i: int| 0 <= i < out@.len() implies exists|l: int| 0 <= l < u.len()
                                        && (#[trigger] u[l]).publisher_session == (#[trigger] out@[i])->SendControlMessage_session
                                        && u[l].request_id.0 == out@[i]->SendControlMessage_message->Subscribe_0.request_id
                                        && u[l].state == UpstreamSubState::Pending by {
                                        if i < out0.len() {
                                            assert(out@[i] == out0[i]);
                                            let l = choose|l: int| 0 <= l < ups_b.len()
                                                && (#[trigger] ups_b[l]).publisher_session == (#[trigger] out0[i])->SendControlMessage_session
                                                && ups_b[l].request_id.0 == out0[i]->SendControlMessage_message->Subscribe_0.request_id
                                                && ups_b[l].state == UpstreamSubState::Pending;
                                            assert(done0.contains(out0[i]->SendControlMessage_session));
                                            assert(out0[i]->SendControlMessage_session != pv);
                                            lemma_ups_without_keeps(ups_b, pv, l);
                                            let w = spec_ups_without(ups_b, pv);
                                            let m = choose|m: int| 0 <= m < w.len() && w[m] == ups_b[l];
                                            assert(u[m] == w[m]);
                                        } else {
                                            assert(u[u.len() - 1] == leg);
                                        }
                                    }
                                    assert forall|x: S| !done1.contains(x)
                                        implies (#[trigger] spec_ups_has(self.tracks@[ti as int].upstream_subs@, x) <==> old(self).spec_has_leg((ns, name), x)) by {
                                        assert(x != pv);
                                        assert(!done0.contains(x));
                                        lemma_ups_without_has(ups_b, pv, x);
                                        let w = spec_ups_without(ups_b, pv);
                                        let u = self.tracks@[ti as int].upstream_subs@;
                                        assert(u == w.push(leg));
                                        if spec_ups_has(u, x) {
                                            let l = choose|l: int| 0 <= l < u.len() && (#[trigger] u[l]).publisher_session == x;
                                            assert(l < w.len());
                                            assert(w[l] == u[l]);
                                        }
                                        if spec_ups_has(w, x) {
                                            let l = choose|l: int| 0 <= l < w.len() && (#[trigger] w[l]).publisher_session == x;
                                            assert(u[l] == w[l]);
                                        }
                                    }
                                    assert forall|j: int| 0 <= j < old(self).sessions@.len() && !done1.contains(old(self).sessions@[j].id)
                                        implies (#[trigger] self.sessions@[j]).request_ids.local_next == old(self).sessions@[j].request_ids.local_next
                                        && self.sessions@[j].request_ids.peer_max_exclusive == old(self).sessions@[j].request_ids.peer_max_exclusive by {
                                        assert(j != ps);
                                        assert(self.sessions@[j] == before[j]);
                                        assert(!done0.contains(old(self).sessions@[j].id));
                                    }
                                    assert forall|j: int| 0 <= j < old(self).sessions@.len() implies (#[trigger] self.sessions@[j]).id == old(self).sessions@[j].id by {
                                        if j != ps {
                                            assert(self.sessions@[j] == before[j]);
                                        }
                                    }
                                    assert forall|i: int| 0 <= i < out@.len() implies done1.contains((#[trigger] out@[i])->SendControlMessage_session)
                                        && old(self).spec_fanout_target(ns, name, out@[i]->SendControlMessage_session)
                                        && old(self).spec_sub_to(out@[i], ns, name) by {
                                        if i < out0.len() {
                                            assert(out@[i] == out0[i]);
                                            assert(done0.contains(out0[i]->SendControlMessage_session));
                                            let q = choose|q: int| 0 <= q < done0.len() && done0[q] == out0[i]->SendControlMessage_session;
                                            assert(done1[q] == done0[q]);
                                        } else {
                                            assert(done1[pi as int] == pv);
                                        }
                                    }
                                    assert forall|i: int, j: int| 0 <= i < j < out@.len()
                                        implies (#[trigger] out@[i])->SendControlMessage_session != (#[trigger] out@[j])->SendControlMessage_session by {
                                        if j < out0.len() {
                                            assert(out@[i] == out0[i] && out@[j] == out0[j]);
                                        } else {
                                            assert(out@[i] == out0[i]);
                                            assert(done0.contains(out0[i]->SendControlMessage_session));
                                        }
                                    }
                                    assert forall|x: S| done1.contains(x) && #[trigger] old(self).spec_fanout_target(ns, name, x)
                                        implies exists|i: int| 0 <= i < out@.len() && (#[trigger] out@[i])->SendControlMessage_session == x by {
                                        if x == pv {
                                            assert(out@[out@.len() - 1]->SendControlMessage_session == x);
                                        } else {
                                            let q = choose|q: int| 0 <= q < done1.len() && done1[q] == x;
                                            assert(q < done0.len());
                                            assert(done0[q] == x);
                                            let i = choose|i: int| 0 <= i < out0.len() && (#[trigger] out0[i])->SendControlMessage_session == x;
                                            assert(out@[i] == out0[i]);
                                        }
                                    }
                                }
                            },
                            None => {
                                proof {
                                    assert(!old(self).spec_fanout_target(ns, name, pv));
                                }
                            },
                        }
                    },
                    None => {
                        proof {
                            assert(!old(self).has_session(pv)) by {
                                if old(self).has_session(pv) {
                                    let a = choose|a: int| 0 <= a < old(self).sessions().len() && (#[trigger] old(self).sessions()[a]).id == pv;
                                    assert(self.sessions@[a].id == pv);
                                }
                            }
                        }
                    },
                }
            } else {
                proof {
                    assert(spec_ups_has(self.tracks@[ti as int].upstream_subs@, pv));
                    assert(old(self).spec_has_leg((ns, name), pv));
                }
            }
            proof {
                if out@ == out0 {
                    assert forall|x: S| !done1.contains(x)
                        implies (#[trigger] spec_ups_has(self.tracks@[ti as int].upstream_subs@, x) <==> old(self).spec_has_leg((ns, name), x)) by {
                        assert(!done0.contains(x));
                    }
                    assert forall|j: int| 0 <= j < old(self).sessions@.len() && !done1.contains(old(self).sessions@[j].id)
                        implies (#[trigger] self.sessions@[j]).request_ids.local_next == old(self).sessions@[j].request_ids.local_next
                        && self.sessions@[j].request_ids.peer_max_exclusive == old(self).sessions@[j].request_ids.peer_max_exclusive by {
                        assert(!done0.contains(old(self).sessions@[j].id));
                    }
                    assert forall|i: int| 0 <= i < out@.len() implies done1.contains((#[trigger] out@[i])->SendControlMessage_session) by {
                        assert(done0.contains(out0[i]->SendControlMessage_session));
                        let q = choose|q: int| 0 <= q < done0.len() && done0[q] == out0[i]->SendControlMessage_session;
                        assert(done1[q] == done0[q]);
                    }
                    assert forall|x: S| done1.contains(x) && #[trigger] old(self).spec_fanout_target(ns, name, x)
                        implies exists|i: int| 0 <= i < out@.len() && (#[trigger] out@[i])->SendControlMessage_session == x by {
                        if x != pv {
                            let q = choose|q: int| 0 <= q < done1.len() && done1[q] == x;
                            assert(q < done0.len());
                            assert(done0[q] == x);
                        }
                    }
                }
            }
            pi = pi + 1;
        }
        proof {
            assert(publishers@.subrange(0, publishers@.len() as int) =~= publishers@);
            lemma_route_pos(self.tracks@, ti as int, track_key@);
            assert(self.tracks@[ti as int].downstream_subs@.drop_last() =~= spec_ds_without(tracks_before[ti as int].downstream_subs@, sub_id));
            assert forall|t: int| 0 <= t < old(self).tracks@.len() && t != ti implies #[trigger] self.tracks@[t] == old(self).tracks@[t] by {
                assert(self.tracks@[t] == tracks_mid[t]);
                assert(tracks_mid[t] == tracks_before[t]);
            }
            lemma_tracks_kept_at(old(self).tracks@, self.tracks@, ti as int, track_key@);
            assert forall|j: int| 0 <= j < old(self).sessions@.len()
                && !(old(self).sessions@[j].id == session || old(self).spec_publishes_prefix_of(msg.track_namespace@, old(self).sessions@[j].id))
                implies #[trigger] self.sessions@[j] == old(self).sessions@[j] by {
                assert(j != k);
                assert(!publishers@.contains(old(self).sessions@[j].id));
            }
            assert(self.tracks@[ti as int].downstream_subs@[di as int].id == sub_id);
            assert(self.spec_route_awaits((ns, name), sub_id));
            assert forall|i: int| 0 <= i < out@.len() implies self.spec_route_first_leg((ns, name), (#[trigger] out@[i])->SendControlMessage_session,
                out@[i]->SendControlMessage_message->Subscribe_0.request_id) by {
                assert(spec_first_leg_is(self.tracks@[ti as int].upstream_subs@,
                    out@[i]->SendControlMessage_session, out@[i]->SendControlMessage_message->Subscribe_0.request_id));
                assert(self.tracks()[ti as int] == self.tracks@[ti as int]);
            }
            assert forall|y: S| old(self).has_session(y) implies self.has_session(y) by {
                let a = choose|a: int| 0 <= a < old(self).sessions().len() && (#[trigger] old(self).sessions()[a]).id == y;
                assert(self.sessions@[a].id == y);
            }
            if forall|t: int| 0 <= t < old(self).tracks().len() ==> (#[trigger] old(self).tracks()[t]).track@ != (ns, name) {
                assert(self.tracks()[ti as int].downstream_subs@ == ds_ins);
                assert(self.spec_route_only((ns, name), sub_id));
            }
        }
        out
    }

    pub closed spec fn upstream_index(&self) -> Seq<IndexEntry<S>> {
        self.upstream_request_index@
    }

    pub closed spec fn downstream_index(&self) -> Seq<IndexEntry<S>> {
        self.downstream_request_index@
    }

    /// A SUBSCRIBE_OK passed downstream on the control stream: no
    /// parameters, an alias of at least 1, the publisher's extensions.
    pub open spec fn spec_forwarded_ok(e: OutputEvent<S>, msg: SubscribeOk) -> bool {
        &&& e matches OutputEvent::SendControlMessage {
            channel: ControlChannel::ControlStream, message: ControlMessage::SubscribeOk(ok), ..
        }
        &&& e->SendControlMessage_message->SubscribeOk_0.track_alias >= 1
        &&& e->SendControlMessage_message->SubscribeOk_0.parameters@.len() == 0
        &&& spec_kvs_view(e->SendControlMessage_message->SubscribeOk_0.track_extensions@) == spec_kvs_view(msg.track_extensions@)
    }

    /// The SUBSCRIBE_OKs the relay passes on for one upstream SUBSCRIBE_OK
    /// carry fresh track aliases of their subscriber sessions: each at
    /// least the session's next outbound alias before the call, no two the
    /// same on one session, and the session's next outbound alias moves
    /// past every one of them.
    pub proof fn law_forwarded_aliases_fresh(pre: Self, post: Self, session: S, msg: SubscribeOk, out: Seq<OutputEvent<S>>)
        requires
            pre.wf(),
            Self::post_subscribe_ok(&pre, &post, session, msg, out),
        ensures
            forall|i: int| 0 <= i < out.len() && Self::spec_is_ok_msg(#[trigger] out[i])
                ==> Self::spec_ok_alias(out[i]) >= pre.session_state(out[i]->SendControlMessage_session).aliases.next_outbound.0
                    && (pre.has_session(out[i]->SendControlMessage_session) ==> Self::spec_ok_alias(out[i])
                        < post.session_state(out[i]->SendControlMessage_session).aliases.next_outbound.0),
            forall|i: int, j: int| 0 <= i < j < out.len()
                && Self::spec_is_ok_msg(#[trigger] out[i])
                && Self::spec_is_ok_msg(#[trigger] out[j])
                && out[i]->SendControlMessage_session == out[j]->SendControlMessage_session
                ==> Self::spec_ok_alias(out[i]) != Self::spec_ok_alias(out[j]),
    {
        if out.len() > 1 || (out.len() == 1 && out[0] is SendControlMessage) {
            assert forall|i: int| 0 <= i < out.len() && Self::spec_is_ok_msg(#[trigger] out[i])
                implies Self::spec_ok_alias(out[i]) >= pre.session_state(out[i]->SendControlMessage_session).aliases.next_outbound.0
                    && (pre.has_session(out[i]->SendControlMessage_session) ==> Self::spec_ok_alias(out[i])
                        < post.session_state(out[i]->SendControlMessage_session).aliases.next_outbound.0) by {
                let x = out[i]->SendControlMessage_session;
                lemma_count_to_mono(out, i + 1, out.len() as int, x);
            }
            assert forall|i: int, j: int| 0 <= i < j < out.len()
                && Self::spec_is_ok_msg(#[trigger] out[i])
                && Self::spec_is_ok_msg(#[trigger] out[j])
                && out[i]->SendControlMessage_session == out[j]->SendControlMessage_session
                implies Self::spec_ok_alias(out[i]) != Self::spec_ok_alias(out[j]) by {
                let x = out[i]->SendControlMessage_session;
                lemma_count_to_mono(out, i + 1, j, x);
            }
        }
    }

    /// A publisher that answers a SUBSCRIBE the relay fanned out for a new
    /// subscriber with SUBSCRIBE_OK, under a track alias it has not bound
    /// yet, has that SUBSCRIBE_OK passed on to the subscriber, for the
    /// subscriber's request ID and with the publisher's extensions.
    pub proof fn law_subscribe_ok_reaches_subscriber(a: Self, b: Self, c: Self, sub: S, channel: ControlChannel, msg: Subscribe,
        out1: Seq<OutputEvent<S>>, i: int, ok: SubscribeOk, out2: Seq<OutputEvent<S>>)
        requires
            a.wf(),
            b.wf(),
            a.has_session(sub),
            Self::post_subscribe(&a, &b, sub, channel, msg, out1),
            0 <= i < out1.len(),
            out1[i] matches OutputEvent::SendControlMessage { message: ControlMessage::Subscribe(_), .. },
            ok.request_id == out1[i]->SendControlMessage_message->Subscribe_0.request_id,
            b.session_state(out1[i]->SendControlMessage_session).setup == SetupState::SetupComplete,
            !spec_alias_bound(b.session_state(out1[i]->SendControlMessage_session).inbound_aliases@, TrackAlias(ok.track_alias)),
            Self::post_subscribe_ok(&b, &c, out1[i]->SendControlMessage_session, ok, out2),
        ensures
            exists|j: int| 0 <= j < out2.len() && #[trigger] Self::spec_ok_answer(out2[j], sub, msg.request_id, ok),
    {
        let x = out1[i]->SendControlMessage_session;
        let rid = out1[i]->SendControlMessage_message->Subscribe_0.request_id;
        let key = (msg.track_namespace@, msg.track_name@);
        let sub_id = SubscriptionId { session: sub, request_id: RequestId(msg.request_id) };
        assert(out1[i] == out1[i]);
        assert(b.spec_route_first_leg(key, x, rid));
        assert(spec_index_names(b.upstream_index(), x, rid, key));
        assert(b.spec_route_awaits(key, sub_id));
        assert(b.has_session(sub));
        let t0 = choose|t: int| 0 <= t < b.tracks().len() && (#[trigger] b.tracks()[t]).track@ == key
            && spec_first_leg_is(b.tracks()[t].upstream_subs@, x, rid);
        lemma_first_pos(b.tracks(), spec_route_of::<S>(key));
        let t = spec_first_pos(b.tracks(), spec_route_of::<S>(key));
        assert(t == t0) by {
            if t < 0 {
                assert(!spec_route_of::<S>(key)(b.tracks()[t0]));
            } else if t != t0 {
                assert(b.tracks()[t].track@ == key);
            }
        }
        assert(spec_index_track(b.upstream_index(), x, RequestId(ok.request_id)) matches Some(tk) && tk@ == key);
        let route = b.tracks()[t];
        let ds = route.downstream_subs@;
        let (t1, d) = choose|t1: int, d: int| 0 <= t1 < b.tracks().len() && b.tracks()[t1].track@ == key
            && 0 <= d < b.tracks()[t1].downstream_subs@.len()
            && (#[trigger] b.tracks()[t1].downstream_subs@[d]).id == sub_id
            && Self::spec_awaits_ok(b.tracks()[t1].downstream_subs@[d]);
        assert(t1 == t);
        assert(b.spec_oks_complete(out2, ds, ds.len() as int, ok));
        reveal(Relay::spec_oks_complete);
        assert(Self::spec_awaits_ok(ds[d]) && b.has_session(ds[d].id.session));
        assert(Self::spec_ok_sent(out2, ds[d], ok));
        let j = choose|j: int| 0 <= j < out2.len() && #[trigger] Self::spec_ok_to(out2[j], ds[d], ok);
        assert(Self::spec_ok_answer(out2[j], sub, msg.request_id, ok));
    }

    /// What a fanned-out SUBSCRIBE and its SUBSCRIBE_OK leave: the upstream
    /// request still names the track, and the route of the track holds the
    /// subscription established.
    proof fn lemma_after_fanout_ok(a: Self, b: Self, c: Self, sub: S, channel: ControlChannel, msg: Subscribe,
        out1: Seq<OutputEvent<S>>, i: int, ok: SubscribeOk, out2: Seq<OutputEvent<S>>)
        requires
            a.wf(),
            b.wf(),
            c.wf(),
            a.has_session(sub),
            Self::post_subscribe(&a, &b, sub, channel, msg, out1),
            0 <= i < out1.len(),
            out1[i] matches OutputEvent::SendControlMessage { message: ControlMessage::Subscribe(_), .. },
            ok.request_id == out1[i]->SendControlMessage_message->Subscribe_0.request_id,
            b.session_state(out1[i]->SendControlMessage_session).setup == SetupState::SetupComplete,
            !spec_alias_bound(b.session_state(out1[i]->SendControlMessage_session).inbound_aliases@, TrackAlias(ok.track_alias)),
            Self::post_subscribe_ok(&b, &c, out1[i]->SendControlMessage_session, ok, out2),
        ensures
            spec_index_names(c.upstream_index(), out1[i]->SendControlMessage_session,
                out1[i]->SendControlMessage_message->Subscribe_0.request_id, (msg.track_namespace@, msg.track_name@)),
            exists|t: int, d: int| 0 <= t < c.tracks().len() && c.tracks()[t].track@ == (msg.track_namespace@, msg.track_name@)
                && 0 <= d < c.tracks()[t].downstream_subs@.len()
                && (#[trigger] c.tracks()[t].downstream_subs@[d]).id == (SubscriptionId { session: sub, request_id: RequestId(msg.request_id) })
                && c.tracks()[t].downstream_subs@[d].state == DownstreamSubState::Established,
    {
        let x = out1[i]->SendControlMessage_session;
        let rid = out1[i]->SendControlMessage_message->Subscribe_0.request_id;
        let key = (msg.track_namespace@, msg.track_name@);
        let sub_id = SubscriptionId { session: sub, request_id: RequestId(msg.request_id) };
        assert(b.spec_route_first_leg(key, x, rid));
        assert(b.spec_route_awaits(key, sub_id));
        let t0 = choose|t: int| 0 <= t < b.tracks().len() && (#[trigger] b.tracks()[t]).track@ == key
            && spec_first_leg_is(b.tracks()[t].upstream_subs@, x, rid);
        lemma_first_pos(b.tracks(), spec_route_of::<S>(key));
        let t = spec_first_pos(b.tracks(), spec_route_of::<S>(key));
        assert(t == t0) by {
            if t < 0 {
                assert(!spec_route_of::<S>(key)(b.tracks()[t0]));
            } else if t != t0 {
                assert(b.tracks()[t].track@ == key);
            }
        }
        let ds = b.tracks()[t].downstream_subs@;
        let (t1, d) = choose|t1: int, d: int| 0 <= t1 < b.tracks().len() && b.tracks()[t1].track@ == key
            && 0 <= d < b.tracks()[t1].downstream_subs@.len()
            && (#[trigger] b.tracks()[t1].downstream_subs@[d]).id == sub_id
            && Self::spec_awaits_ok(b.tracks()[t1].downstream_subs@[d]);
        assert(t1 == t);
        assert(b.spec_ok_applied(ds[d], c.tracks()[t].downstream_subs@[d]));
        assert(c.tracks()[t].downstream_subs@[d].id == sub_id);
    }

    /// Once a subscriber's SUBSCRIBE was fanned out and answered with
    /// SUBSCRIBE_OK, the publisher's PUBLISH_DONE for that upstream request
    /// is passed on to the subscriber, for the subscriber's request ID and
    /// with the publisher's status, stream count and reason.
    pub proof fn law_publish_done_reaches_subscriber(a: Self, b: Self, c: Self, d: Self, sub: S, channel: ControlChannel,
        msg: Subscribe, out1: Seq<OutputEvent<S>>, i: int, ok: SubscribeOk, out2: Seq<OutputEvent<S>>,
        done: PublishDone, out3: Seq<OutputEvent<S>>)
        requires
            a.wf(),
            b.wf(),
            c.wf(),
            a.has_session(sub),
            Self::post_subscribe(&a, &b, sub, channel, msg, out1),
            0 <= i < out1.len(),
            out1[i] matches OutputEvent::SendControlMessage { message: ControlMessage::Subscribe(_), .. },
            ok.request_id == out1[i]->SendControlMessage_message->Subscribe_0.request_id,
            b.session_state(out1[i]->SendControlMessage_session).setup == SetupState::SetupComplete,
            !spec_alias_bound(b.session_state(out1[i]->SendControlMessage_session).inbound_aliases@, TrackAlias(ok.track_alias)),
            Self::post_subscribe_ok(&b, &c, out1[i]->SendControlMessage_session, ok, out2),
            done.request_id == ok.request_id,
            c.session_state(out1[i]->SendControlMessage_session).setup == SetupState::SetupComplete,
            Self::post_publish_done(&c, &d, out1[i]->SendControlMessage_session, done, out3),
        ensures
            exists|k: int| 0 <= k < out3.len() && #[trigger] Self::spec_done_answer(out3[k], sub, msg.request_id, done),
    {
        let x = out1[i]->SendControlMessage_session;
        let key = (msg.track_namespace@, msg.track_name@);
        let sub_id = SubscriptionId { session: sub, request_id: RequestId(msg.request_id) };
        Self::lemma_after_fanout_ok(a, b, c, sub, channel, msg, out1, i, ok, out2);
        let (t0, dd) = choose|t: int, dd: int| 0 <= t < c.tracks().len() && c.tracks()[t].track@ == key
            && 0 <= dd < c.tracks()[t].downstream_subs@.len()
            && (#[trigger] c.tracks()[t].downstream_subs@[dd]).id == sub_id
            && c.tracks()[t].downstream_subs@[dd].state == DownstreamSubState::Established;
        lemma_first_pos(c.tracks(), spec_route_of::<S>(key));
        let t = spec_first_pos(c.tracks(), spec_route_of::<S>(key));
        assert(t == t0) by {
            if t < 0 {
                assert(!spec_route_of::<S>(key)(c.tracks()[t0]));
            } else if t != t0 {
                assert(c.tracks()[t].track@ == key);
            }
        }
        let ds = c.tracks()[t].downstream_subs@;
        assert(spec_is_established::<S>()(ds[dd]));
        assert(spec_index_track(c.upstream_index(), x, RequestId(done.request_id)) matches Some(tk) && tk@ == key);
        assert(Self::spec_done_complete(out3, ds, ds.len() as int, spec_is_established(), done));
        reveal(Relay::spec_done_complete);
        assert(Self::spec_done_sent(out3, ds[dd], done));
        let k = choose|k: int| 0 <= k < out3.len() && #[trigger] Self::spec_done_to(out3[k], ds[dd], done);
        assert(Self::spec_done_answer(out3[k], sub, msg.request_id, done));
    }

    /// When the only subscriber of a track that had no route leaves with
    /// UNSUBSCRIBE right after the relay fanned its SUBSCRIBE out, the relay
    /// sends UNSUBSCRIBE to each publisher it subscribed to, for the request
    /// ID it used there.
    pub proof fn law_last_unsubscribe_reaches_publishers(a: Self, b: Self, c: Self, sub: S, channel: ControlChannel,
        msg: Subscribe, out1: Seq<OutputEvent<S>>, i: int, un: Unsubscribe, out2: Seq<OutputEvent<S>>)
        requires
            a.wf(),
            b.wf(),
            a.has_session(sub),
            forall|t: int| 0 <= t < a.tracks().len() ==> (#[trigger] a.tracks()[t]).track@ != (msg.track_namespace@, msg.track_name@),
            Self::post_subscribe(&a, &b, sub, channel, msg, out1),
            0 <= i < out1.len(),
            out1[i] matches OutputEvent::SendControlMessage { message: ControlMessage::Subscribe(_), .. },
            un.request_id == msg.request_id,
            b.session_state(sub).setup == SetupState::SetupComplete,
            Self::post_unsubscribe(&b, &c, sub, un, out2),
        ensures
            exists|k: int| 0 <= k < out2.len() && #[trigger] Self::spec_unsub_answer(out2[k], out1[i]->SendControlMessage_session,
                out1[i]->SendControlMessage_message->Subscribe_0.request_id),
    {
        let x = out1[i]->SendControlMessage_session;
        let rid = out1[i]->SendControlMessage_message->Subscribe_0.request_id;
        let key = (msg.track_namespace@, msg.track_name@);
        let sub_id = SubscriptionId { session: sub, request_id: RequestId(msg.request_id) };
        assert(b.spec_route_first_leg(key, x, rid));
        assert(b.spec_route_only(key, sub_id));
        assert(spec_index_names(b.downstream_index(), sub, msg.request_id, key));
        let t0 = choose|t: int| 0 <= t < b.tracks().len() && (#[trigger] b.tracks()[t]).track@ == key
            && spec_first_leg_is(b.tracks()[t].upstream_subs@, x, rid);
        let t1 = choose|t: int| 0 <= t < b.tracks().len() && (#[trigger] b.tracks()[t]).track@ == key
            && b.tracks()[t].downstream_subs@.len() == 1 && b.tracks()[t].downstream_subs@[0].id == sub_id;
        lemma_first_pos(b.tracks(), spec_route_of::<S>(key));
        let t = spec_first_pos(b.tracks(), spec_route_of::<S>(key));
        assert(t == t0 && t == t1) by {
            if t < 0 {
                assert(!spec_route_of::<S>(key)(b.tracks()[t0]));
            } else {
                assert(b.tracks()[t].track@ == key);
            }
        }
        let route = b.tracks()[t];
        let ds = route.downstream_subs@;
        let ups = route.upstream_subs@;
        lemma_first_pos_at(ds, spec_ds_is(sub_id), 0);
        let ds1 = spec_end_ds(ds, sub_id);
        assert(ds1.len() == 1 && ds1[0].state == DownstreamSubState::Terminated);
        assert(spec_no_active_downstream(ds1));
        assert(Self::spec_unsub_complete(out2, ups, ups.len() as int, spec_leg_active()));
        reveal(Relay::spec_unsub_complete);
        let l = spec_first_pos(ups, spec_leg_of(x));
        lemma_first_pos(ups, spec_leg_of(x));
        assert(spec_leg_active::<S>()(ups[l]));
        assert(Self::spec_unsub_sent(out2, ups[l]));
        let k = choose|k: int| 0 <= k < out2.len() && #[trigger] Self::spec_unsub_to(out2[k], ups[l]);
        assert(Self::spec_unsub_answer(out2[k], x, rid));
    }

    /// An UNSUBSCRIBE to `to` on the control stream for its request
    /// `request_id`.
    pub open spec fn spec_unsub_answer(e: OutputEvent<S>, to: S, request_id: u64) -> bool {
        &&& e matches OutputEvent::SendControlMessage { channel: ControlChannel::ControlStream, message: ControlMessage::Unsubscribe(m), .. }
        &&& e->SendControlMessage_session == to
        &&& e->SendControlMessage_message->Unsubscribe_0.request_id == request_id
    }

    /// A PUBLISH_DONE to `to` on the control stream for its request
    /// `request_id`, with the status, count and reason of `done`.
    pub open spec fn spec_done_answer(e: OutputEvent<S>, to: S, request_id: u64, done: PublishDone) -> bool {
        &&& e matches OutputEvent::SendControlMessage { channel: ControlChannel::ControlStream, message: ControlMessage::PublishDone(m), .. }
        &&& e->SendControlMessage_session == to
        &&& e->SendControlMessage_message->PublishDone_0.request_id == request_id
        &&& e->SendControlMessage_message->PublishDone_0.status_code == done.status_code
        &&& e->SendControlMessage_message->PublishDone_0.stream_count == done.stream_count
        &&& e->SendControlMessage_message->PublishDone_0.error_reason@ == done.error_reason@
    }

    /// A SUBSCRIBE_OK to `to` for its request `request_id`, carrying the
    /// extensions of `ok`.
    pub open spec fn spec_ok_answer(e: OutputEvent<S>, to: S, request_id: u64, ok: SubscribeOk) -> bool {
        &&& e matches OutputEvent::SendControlMessage { message: ControlMessage::SubscribeOk(m), .. }
        &&& e->SendControlMessage_session == to
        &&& e->SendControlMessage_message->SubscribeOk_0.request_id == request_id
        &&& spec_kvs_view(e->SendControlMessage_message->SubscribeOk_0.track_extensions@) == spec_kvs_view(ok.track_extensions@)
    }

    fn handle_subscribe_ok(&mut self, session: S, msg: SubscribeOk) -> (out: Vec<OutputEvent<S>>)
        requires
            old(self).wf(),
            old(self).has_session(session),
            old(self).alias_room(),
        ensures
            final(self).wf(),
            Self::post_subscribe_ok(old(self), final(self), session, msg, out@),
    {
        let k = match self.find_session(&session) {
            Some(k) => k,
            None => return Vec::new(),
        };
        proof {
            self.lemma_session_index(k as int);
        }
        if self.sessions[k].setup != SetupState::SetupComplete {
            return close(session, SessionError::ProtocolViolation, "SUBSCRIBE_OK before setup complete");
        }
        let rid = RequestId(msg.request_id);
        let ix = match index_find(&self.upstream_request_index, &session, rid) {
            Some(i) => i,
            None => return close(session, SessionError::ProtocolViolation, "SUBSCRIBE_OK for unknown request ID"),
        };
        let track_key = self.upstream_request_index[ix].2.duplicate();
        let ti = match self.find_track(&track_key) {
            Some(t) => t,
            None => return close(session, SessionError::ProtocolViolation, "SUBSCRIBE_OK for unknown track"),
        };
        let li = match self.tracks[ti].find_upstream(&session) {
            Some(l) => l,
            None => return close(session, SessionError::ProtocolViolation, "SUBSCRIBE_OK from non-upstream session"),
        };
        if self.tracks[ti].upstream_subs[li].state != UpstreamSubState::Pending {
            return close(session, SessionError::ProtocolViolation, "SUBSCRIBE_OK for non-pending upstream leg");
        }
        let ghost tracks0 = self.tracks@;
        let inbound_alias = TrackAlias(msg.track_alias);
        let ghost tbu = self.tracks@;
        self.tracks[ti].upstream_subs[li].state = UpstreamSubState::Established;
        self.tracks[ti].upstream_subs[li].inbound_alias = Some(inbound_alias);
        self.tracks[ti].upstream_subs[li].forward_current = true;
        proof {
            lemma_route_unique_same_ids(tbu[ti as int], self.tracks@[ti as int]);
            lemma_routes_unique_at(tbu, self.tracks@, ti as int);
        }
        proof {
            assert forall|i: int, j: int| 0 <= i < self.tracks@.len() && 0 <= j < self.tracks@.len() && i != j
                implies self.tracks@[i].track@ != self.tracks@[j].track@ by {
                assert(self.tracks@[i].track == tracks0[i].track);
                assert(self.tracks@[j].track == tracks0[j].track);
            }
        }
        let ghost before = self.sessions@;
        match self.sessions[k].bind_inbound_alias(inbound_alias, track_key.duplicate()) {
            Ok(()) => {},
            Err(e) => {
                proof {
                    assert(self.sessions@ =~= before);
                }
                return close(session, e, "duplicate track alias in SUBSCRIBE_OK");
            },
        }
        proof {
            lemma_sessions_update_wf(before, k as int, self.sessions@[k as int]);
        }
        if msg.track_extensions.len() > 0 {
            let ghost tbu = self.tracks@;
            self.tracks[ti].track_extensions = Some(copy_pairs(&msg.track_extensions));
            proof {
                lemma_route_unique_same_ids(tbu[ti as int], self.tracks@[ti as int]);
                lemma_routes_unique_at(tbu, self.tracks@, ti as int);
            }
        }
        proof {
            assert forall|i: int, j: int| 0 <= i < self.tracks@.len() && 0 <= j < self.tracks@.len() && i != j
                implies self.tracks@[i].track@ != self.tracks@[j].track@ by {
                assert(self.tracks@[i].track == tracks0[i].track);
                assert(self.tracks@[j].track == tracks0[j].track);
            }
        }
        let mut out: Vec<OutputEvent<S>> = Vec::new();
        let n = self.tracks[ti].downstream_subs.len();
        let ghost sessions0 = self.sessions@;
        let ghost ds0 = old(self).tracks@[ti as int].downstream_subs@;
        let ghost ups1 = self.tracks@[ti as int].upstream_subs@;
        let ghost ext1 = self.tracks@[ti as int].track_extensions;
        proof {
            let ia = sessions0[k as int].inbound_aliases@;
            assert(ia[ia.len() - 1].0 == TrackAlias(msg.track_alias));
            assert(self.tracks@[ti as int].downstream_subs@ == ds0);
            assert(n == ds0.len());
            assert forall|j: int| 0 <= j < sessions0.len() implies
                (#[trigger] sessions0[j]).aliases == old(self).sessions@[j].aliases by {
                if j != k {
                    assert(sessions0[j] == old(self).sessions@[j]);
                }
            }
            assert forall|j: int| 0 <= j < sessions0.len() implies
                (#[trigger] sessions0[j]).aliases.next_outbound.0 + n < u64::MAX by {
                assert(sessions0[j].aliases == old(self).sessions@[j].aliases);
            }
            assert forall|j: int| 0 <= j < sessions0.len() implies (#[trigger] sessions0[j]).id == old(self).sessions@[j].id by {
                if j != k {
                    assert(sessions0[j] == old(self).sessions@[j]);
                }
            }
        }
        proof {
            old(self).lemma_oks_start(ds0, msg);
            assert(spec_route_unique(old(self).tracks()[ti as int]));
        }
        let mut di: usize = 0;
        while di < n
            invariant
                self.wf(),
                self.publishers_by_namespace@ == old(self).publishers_by_namespace@,
                forall|i: int| 0 <= i < self.tracks@.len() && i != ti ==> #[trigger] self.tracks@[i] == tracks0[i],
                forall|j: int| 0 <= j < old(self).sessions@.len() && old(self).sessions@[j].id != session
                    && !(exists|q: int| 0 <= q < ds0.len() && (#[trigger] ds0[q]).id.session == old(self).sessions@[j].id)
                    ==> #[trigger] self.sessions@[j] == old(self).sessions@[j],
                ti < self.tracks@.len(),
                self.tracks@.len() == tracks0.len(),
                n == ds0.len(),
                n == self.tracks@[ti as int].downstream_subs@.len(),
                self.tracks@[ti as int].upstream_subs@ == ups1,
                self.tracks@[ti as int].track_extensions == ext1,
                self.upstream_request_index@ == old(self).upstream_request_index@,
                self.downstream_request_index@ == old(self).downstream_request_index@,
                forall|j: int| 0 <= j < sessions0.len() ==> (#[trigger] self.sessions@[j]).inbound_aliases == sessions0[j].inbound_aliases,
                k < sessions0.len(),
                sessions0[k as int].id == session,
                spec_alias_bound(sessions0[k as int].inbound_aliases@, TrackAlias(msg.track_alias)),
                forall|j: int| 0 <= j < n ==> (#[trigger] self.tracks@[ti as int].downstream_subs@[j]).id == ds0[j].id,
                forall|j: int| di <= j < n ==> (#[trigger] self.tracks@[ti as int].downstream_subs@[j]) == ds0[j],
                forall|j: int| 0 <= j < di ==> old(self).spec_ok_applied(ds0[j], #[trigger] self.tracks@[ti as int].downstream_subs@[j]),
                forall|i: int| 0 <= i < self.tracks@.len() ==> (#[trigger] self.tracks@[i]).track == tracks0[i].track,
                self.sessions@.len() == sessions0.len(),
                forall|j: int| 0 <= j < sessions0.len() ==> (#[trigger] self.sessions@[j]).id == sessions0[j].id,
                forall|j: int| 0 <= j < sessions0.len() ==> (#[trigger] sessions0[j]).id == old(self).sessions@[j].id,
                sessions0.len() == old(self).sessions@.len(),
                forall|j: int| 0 <= j < sessions0.len() ==> (#[trigger] sessions0[j]).aliases.next_outbound.0 + n < u64::MAX,
                forall|j: int| 0 <= j < sessions0.len() ==> (#[trigger] self.sessions@[j]).aliases.next_outbound.0
                    <= sessions0[j].aliases.next_outbound.0 + di,
                forall|j: int| 0 <= j < sessions0.len() ==> (#[trigger] self.sessions@[j]).aliases.next_outbound.0
                    == sessions0[j].aliases.next_outbound.0 + spec_count_to(out@, out@.len() as int, sessions0[j].id),
                forall|i: int| #![trigger out@[i]] 0 <= i < out@.len() ==> exists|j: int| 0 <= j < sessions0.len()
                    && (#[trigger] sessions0[j]).id == out@[i]->SendControlMessage_session
                    && Self::spec_ok_alias(out@[i]) == sessions0[j].aliases.next_outbound.0
                        + spec_count_to(out@, i, out@[i]->SendControlMessage_session),
                forall|j: int| 0 <= j < di && Self::spec_awaits_ok(ds0[j]) && old(self).has_session(ds0[j].id.session)
                    ==> exists|i: int| 0 <= i < out@.len() && #[trigger] Self::spec_ok_to(out@[i], ds0[j], msg)
                        && self.tracks@[ti as int].downstream_subs@[j].outbound_alias == Some(TrackAlias(Self::spec_ok_alias(out@[i]))),
                di <= n,
                Self::spec_oks_sound(out@, ds0, di as int, msg),
                Self::spec_ok_targets_distinct(out@),
                forall|i: int, j: int| 0 <= i < j < ds0.len() ==> (#[trigger] ds0[i]).id != (#[trigger] ds0[j]).id,
                old(self).spec_oks_complete(out@, ds0, di as int, msg),
            decreases n - di,
        {
            let st = self.tracks[ti].downstream_subs[di].state;
            let fd = self.tracks[ti].downstream_subs[di].forward_desired;
            let ghost d = ds0[di as int];
            assert(self.tracks@[ti as int].downstream_subs@[di as int] == d);
            let ghost out_before = out@;
            if st == DownstreamSubState::Pending && fd {
                let sub_session = self.tracks[ti].downstream_subs[di].id.session.key_clone();
                let sub_rid = self.tracks[ti].downstream_subs[di].id.request_id;
                match self.find_session(&sub_session) {
                    Some(ss) => {
                        let ghost sb = self.sessions@;
                        assert(self.sessions@[ss as int].aliases.next_outbound.0 < u64::MAX);
                        let alias = self.sessions[ss].alloc_outbound_track_alias();
                        proof {
                            lemma_sessions_update_wf(sb, ss as int, self.sessions@[ss as int]);
                            assert forall|j: int| 0 <= j < sessions0.len() implies (#[trigger] self.sessions@[j]).aliases.next_outbound.0
                                <= sessions0[j].aliases.next_outbound.0 + di + 1 by {
                                if j != ss {
                                    assert(self.sessions@[j] == sb[j]);
                                }
                            }
                            assert forall|j: int| 0 <= j < sessions0.len() implies (#[trigger] self.sessions@[j]).id == sessions0[j].id by {
                                if j != ss {
                                    assert(self.sessions@[j] == sb[j]);
                                }
                            }
                        }
                        let ghost tb = self.tracks@;
                        let ghost tbu = self.tracks@;
                        self.tracks[ti].downstream_subs[di].state = DownstreamSubState::Established;
                        self.tracks[ti].downstream_subs[di].forward_desired = false;
                        self.tracks[ti].downstream_subs[di].outbound_alias = Some(alias);
                        proof {
                            lemma_route_unique_same_ids(tbu[ti as int], self.tracks@[ti as int]);
                            lemma_routes_unique_at(tbu, self.tracks@, ti as int);
                        }
                        proof {
                            assert forall|i: int| 0 <= i < self.tracks@.len() implies (#[trigger] self.tracks@[i]).track == tracks0[i].track by {
                                assert(self.tracks@[i].track == tb[i].track);
                            }
                            assert forall|i: int, j: int| 0 <= i < self.tracks@.len() && 0 <= j < self.tracks@.len() && i != j
                                implies self.tracks@[i].track@ != self.tracks@[j].track@ by {
                                assert(self.tracks@[i].track == tracks0[i].track);
                                assert(self.tracks@[j].track == tracks0[j].track);
                            }
                            assert forall|j: int| 0 <= j < n implies (#[trigger] self.tracks@[ti as int].downstream_subs@[j]).id == ds0[j].id by {
                                if j != di {
                                    assert(self.tracks@[ti as int].downstream_subs@[j] == tb[ti as int].downstream_subs@[j]);
                                }
                            }
                            assert forall|j: int| di + 1 <= j < n implies (#[trigger] self.tracks@[ti as int].downstream_subs@[j]) == ds0[j] by {
                                assert(self.tracks@[ti as int].downstream_subs@[j] == tb[ti as int].downstream_subs@[j]);
                            }
                            assert(old(self).has_session(d.id.session)) by {
                                assert(old(self).sessions()[ss as int].id == d.id.session);
                            }
                            assert forall|j: int| 0 <= j < di + 1 implies
                                old(self).spec_ok_applied(ds0[j], #[trigger] self.tracks@[ti as int].downstream_subs@[j]) by {
                                if j < di {
                                    assert(self.tracks@[ti as int].downstream_subs@[j] == tb[ti as int].downstream_subs@[j]);
                                }
                            }
                        }
                        out.push(OutputEvent::SendControlMessage {
                            session: sub_session,
                            channel: ControlChannel::ControlStream,
                            message: ControlMessage::SubscribeOk(SubscribeOk {
                                request_id: sub_rid.0,
                                track_alias: alias.0,
                                parameters: Parameters::new(),
                                track_extensions: copy_pairs(&msg.track_extensions),
                            }),
                        });
                        proof {
                            Self::lemma_oks_distinct_push(out_before, ds0, di as int, msg, out@[out@.len() - 1]);
                            old(self).lemma_oks_push(out_before, ds0, di as int, msg, out@[out@.len() - 1]);
                            let e = out@[out@.len() - 1];
                            assert(out@ =~= out_before.push(e));
                            let L = out_before.len() as int;
                            assert(spec_count_to(out@, L + 1, sub_session) == spec_count_to(out@, L, sub_session) + 1);
                            lemma_count_to_push(out_before, e, L, sub_session);
                            assert forall|j: int| 0 <= j < sessions0.len() implies (#[trigger] self.sessions@[j]).aliases.next_outbound.0
                                == sessions0[j].aliases.next_outbound.0 + spec_count_to(out@, out@.len() as int, sessions0[j].id) by {
                                lemma_count_to_push(out_before, e, L, sessions0[j].id);
                                if j != ss {
                                    assert(self.sessions@[j] == sb[j]);
                                    assert(sb[j].id != sb[ss as int].id);
                                }
                            }
                            assert forall|i: int| #![trigger out@[i]] 0 <= i < out@.len() implies exists|j: int| 0 <= j < sessions0.len()
                                && (#[trigger] sessions0[j]).id == out@[i]->SendControlMessage_session
                                && Self::spec_ok_alias(out@[i]) == sessions0[j].aliases.next_outbound.0
                                    + spec_count_to(out@, i, out@[i]->SendControlMessage_session) by {
                                lemma_count_to_push(out_before, e, i, out@[i]->SendControlMessage_session);
                                if i < L {
                                    assert(out@[i] == out_before[i]);
                                    let j = choose|j: int| 0 <= j < sessions0.len()
                                        && (#[trigger] sessions0[j]).id == out_before[i]->SendControlMessage_session
                                        && Self::spec_ok_alias(out_before[i]) == sessions0[j].aliases.next_outbound.0
                                            + spec_count_to(out_before, i, out_before[i]->SendControlMessage_session);
                                    assert(sessions0[j].id == out@[i]->SendControlMessage_session);
                                } else {
                                    assert(sessions0[ss as int].id == sub_session);
                                    assert(sb[ss as int].aliases.next_outbound.0 == sessions0[ss as int].aliases.next_outbound.0
                                        + spec_count_to(out_before, L, sub_session));
                                }
                            }
                            assert forall|j: int| 0 <= j < di + 1 && Self::spec_awaits_ok(ds0[j]) && old(self).has_session(ds0[j].id.session)
                                implies exists|i: int| 0 <= i < out@.len() && #[trigger] Self::spec_ok_to(out@[i], ds0[j], msg)
                                    && self.tracks@[ti as int].downstream_subs@[j].outbound_alias == Some(TrackAlias(Self::spec_ok_alias(out@[i]))) by {
                                if j < di {
                                    let i = choose|i: int| 0 <= i < out_before.len() && #[trigger] Self::spec_ok_to(out_before[i], ds0[j], msg)
                                        && tb[ti as int].downstream_subs@[j].outbound_alias == Some(TrackAlias(Self::spec_ok_alias(out_before[i])));
                                    assert(out@[i] == out_before[i]);
                                    assert(self.tracks@[ti as int].downstream_subs@[j] == tb[ti as int].downstream_subs@[j]);
                                    assert(Self::spec_ok_to(out@[i], ds0[j], msg));
                                } else {
                                    assert(Self::spec_ok_to(out@[L], ds0[j], msg));
                                }
                            }
                        }
                    },
                    None => {
                        proof {
                            assert(!old(self).has_session(d.id.session)) by {
                                if old(self).has_session(d.id.session) {
                                    let a = choose|a: int| 0 <= a < old(self).sessions().len() && (#[trigger] old(self).sessions()[a]).id == d.id.session;
                                    assert(self.sessions@[a].id == d.id.session);
                                }
                            }
                            old(self).lemma_oks_skip(out@, ds0, di as int, msg);
                            assert(old(self).spec_ok_applied(ds0[di as int], self.tracks@[ti as int].downstream_subs@[di as int]));
                        }
                    },
                }
            } else {
                proof {
                    old(self).lemma_oks_skip(out@, ds0, di as int, msg);
                    assert(old(self).spec_ok_applied(ds0[di as int], self.tracks@[ti as int].downstream_subs@[di as int]));
                }
            }
            di = di + 1;
        }
        proof {
            assert(spec_index_track(old(self).upstream_index(), session, rid) == Some(old(self).upstream_request_index@[ix as int].2));
            assert(track_key@ == old(self).upstream_request_index@[ix as int].2@);
            assert(self.sessions@[k as int].id == session);
            self.lemma_session_index(k as int);
            assert(self.has_session(session));
            assert(self.session_state(session).inbound_aliases == sessions0[k as int].inbound_aliases);
        }
        proof {
            assert forall|i: int| 0 <= i < out@.len() implies Self::spec_ok_alias(#[trigger] out@[i])
                == old(self).session_state(out@[i]->SendControlMessage_session).aliases.next_outbound.0
                    + spec_count_to(out@, i, out@[i]->SendControlMessage_session) by {
                let j = choose|j: int| 0 <= j < sessions0.len()
                    && (#[trigger] sessions0[j]).id == out@[i]->SendControlMessage_session
                    && Self::spec_ok_alias(out@[i]) == sessions0[j].aliases.next_outbound.0
                        + spec_count_to(out@, i, out@[i]->SendControlMessage_session);
                old(self).lemma_session_index(j);
                assert(sessions0[j].aliases == old(self).sessions@[j].aliases);
            }
            assert forall|x: S| #[trigger] old(self).has_session(x) implies self.session_state(x).aliases.next_outbound.0
                == old(self).session_state(x).aliases.next_outbound.0 + spec_count_to(out@, out@.len() as int, x) by {
                let j = choose|j: int| 0 <= j < old(self).sessions().len() && (#[trigger] old(self).sessions()[j]).id == x;
                old(self).lemma_session_index(j);
                assert(self.sessions@[j].id == x);
                self.lemma_session_index(j);
                assert(sessions0[j].aliases == old(self).sessions@[j].aliases);
            }
        }
        out
    }

    /// A REQUEST_ERROR passed downstream on the control stream with the
    /// publisher's code, retry interval and reason.
    pub open spec fn spec_forwarded_error(e: OutputEvent<S>, msg: RequestErrorMsg) -> bool {
        &&& e matches OutputEvent::SendControlMessage {
            channel: ControlChannel::ControlStream, message: ControlMessage::RequestError(err), ..
        }
        &&& e->SendControlMessage_message->RequestError_0.error_code == msg.error_code
        &&& e->SendControlMessage_message->RequestError_0.retry_interval == msg.retry_interval
        &&& e->SendControlMessage_message->RequestError_0.error_reason@ == msg.error_reason@
    }

    #[verifier::rlimit(40)]
    fn handle_request_error(&mut self, session: S, msg: RequestErrorMsg) -> (out: Vec<OutputEvent<S>>)
        requires
            old(self).wf(),
            old(self).has_session(session),
        ensures
            final(self).wf(),
            Self::post_request_error(old(self), final(self), session, msg, out@),
    {
        let k = match self.find_session(&session) {
            Some(k) => k,
            None => return Vec::new(),
        };
        if self.sessions[k].setup != SetupState::SetupComplete {
            proof {
                self.lemma_session_index(k as int);
            }
            return close(session, SessionError::ProtocolViolation, "REQUEST_ERROR before setup complete");
        }
        proof {
            self.lemma_session_index(k as int);
        }
        let rid = RequestId(msg.request_id);
        let ix = match index_find(&self.upstream_request_index, &session, rid) {
            Some(i) => i,
            None => return Vec::new(),
        };
        let track_key = self.upstream_request_index[ix].2.duplicate();
        let ti = match self.find_track(&track_key) {
            Some(t) => t,
            None => return Vec::new(),
        };
        let ghost tracks0 = self.tracks@;
        let ghost ds0 = tracks0[ti as int].downstream_subs@;
        match self.tracks[ti].find_upstream(&session) {
            Some(li) => {
                let ghost tbu = self.tracks@;
                self.tracks[ti].upstream_subs[li].state = UpstreamSubState::Terminated;
                proof {
                    lemma_route_unique_same_ids(tbu[ti as int], self.tracks@[ti as int]);
                    lemma_routes_unique_at(tbu, self.tracks@, ti as int);
                }
                assert(self.tracks@[ti as int].upstream_subs@ =~= spec_end_leg(tracks0[ti as int].upstream_subs@, session));
            },
            None => {
                assert(self.tracks@[ti as int].upstream_subs@ =~= spec_end_leg(tracks0[ti as int].upstream_subs@, session));
            },
        }
        index_remove(&mut self.upstream_request_index, &session, rid);
        proof {
            lemma_tracks_same_keys(tracks0, self.tracks@);
            lemma_index_without_absent(old(self).upstream_request_index@, session, rid);
            assert(spec_index_track(old(self).upstream_index(), session, rid) == Some(old(self).upstream_request_index@[ix as int].2));
            assert(track_key@ == old(self).upstream_request_index@[ix as int].2@);
        }
        let mut out: Vec<OutputEvent<S>> = Vec::new();
        assert(forall|i: int| 0 <= i < self.tracks@.len() && i != ti ==> #[trigger] self.tracks@[i] == tracks0[i]);
        if self.tracks[ti].all_upstream_terminated() {
            let n = self.tracks[ti].downstream_subs.len();
            proof {
                Self::lemma_err_empty(ds0, 0, spec_is_pending(), msg);
                assert(spec_route_unique(tracks0[ti as int]));
            }
            let mut di: usize = 0;
            while di < n
                invariant
                    self.wf(),
                    self.sessions@ == old(self).sessions@,
                    self.publishers_by_namespace@ == old(self).publishers_by_namespace@,
                    ti < self.tracks@.len(),
                    self.tracks@.len() == tracks0.len(),
                    spec_unique_tracks(tracks0),
                    n == self.tracks@[ti as int].downstream_subs@.len(),
                    n == ds0.len(),
                    forall|i: int| 0 <= i < self.tracks@.len() ==> (#[trigger] self.tracks@[i]).track == tracks0[i].track,
                    forall|j: int| di <= j < n ==> (#[trigger] self.tracks@[ti as int].downstream_subs@[j]) == ds0[j],
                    self.tracks@[ti as int].upstream_subs@ == spec_end_leg(tracks0[ti as int].upstream_subs@, session),
                    !spec_index_has(self.upstream_request_index@, session, rid),
                    di <= n,
                    Self::spec_err_sound(out@, ds0, di as int, spec_is_pending(), msg),
                    Self::spec_err_complete(out@, ds0, di as int, spec_is_pending(), msg),
                    Self::spec_err_targets_distinct(out@),
                    forall|i: int, j: int| 0 <= i < j < ds0.len() ==> (#[trigger] ds0[i]).id != (#[trigger] ds0[j]).id,
                    forall|j: int| 0 <= j < di ==> (#[trigger] self.tracks@[ti as int].downstream_subs@[j]).state != DownstreamSubState::Pending,
                    forall|i: int| 0 <= i < self.tracks@.len() && i != ti ==> #[trigger] self.tracks@[i] == tracks0[i],
                    forall|j: int| 0 <= j < di ==> ((#[trigger] self.tracks@[ti as int].downstream_subs@[j]).state == DownstreamSubState::Established
                        <==> ds0[j].state == DownstreamSubState::Established),
                    forall|j: int| 0 <= j < di ==> Self::spec_pending_ended(ds0[j], #[trigger] self.tracks@[ti as int].downstream_subs@[j]),
                    self.tracks@[ti as int].track_extensions == tracks0[ti as int].track_extensions,
                decreases n - di,
            {
                let ghost d = ds0[di as int];
                assert(self.tracks@[ti as int].downstream_subs@[di as int] == d);
                if self.tracks[ti].downstream_subs[di].state == DownstreamSubState::Pending {
                    let ghost tb = self.tracks@;
                    let ghost tbu = self.tracks@;
                    self.tracks[ti].downstream_subs[di].state = DownstreamSubState::Terminated;
                    proof {
                        lemma_route_unique_same_ids(tbu[ti as int], self.tracks@[ti as int]);
                        lemma_routes_unique_at(tbu, self.tracks@, ti as int);
                    }
                    proof {
                        assert forall|i: int| 0 <= i < self.tracks@.len() implies (#[trigger] self.tracks@[i]).track == tracks0[i].track by {
                            assert(self.tracks@[i].track == tb[i].track);
                        }
                        lemma_tracks_same_keys(tracks0, self.tracks@);
                        assert forall|j: int| di + 1 <= j < n implies (#[trigger] self.tracks@[ti as int].downstream_subs@[j]) == ds0[j] by {
                            assert(self.tracks@[ti as int].downstream_subs@[j] == tb[ti as int].downstream_subs@[j]);
                        }
                        assert forall|j: int| 0 <= j < di + 1 implies (#[trigger] self.tracks@[ti as int].downstream_subs@[j]).state != DownstreamSubState::Pending by {
                            if j < di {
                                assert(self.tracks@[ti as int].downstream_subs@[j] == tb[ti as int].downstream_subs@[j]);
                            }
                        }
                        assert forall|j: int| 0 <= j < di + 1 implies ((#[trigger] self.tracks@[ti as int].downstream_subs@[j]).state == DownstreamSubState::Established
                            <==> ds0[j].state == DownstreamSubState::Established) by {
                            if j < di {
                                assert(self.tracks@[ti as int].downstream_subs@[j] == tb[ti as int].downstream_subs@[j]);
                            }
                        }
                        assert forall|j: int| 0 <= j < di + 1 implies Self::spec_pending_ended(ds0[j], #[trigger] self.tracks@[ti as int].downstream_subs@[j]) by {
                            if j < di {
                                assert(self.tracks@[ti as int].downstream_subs@[j] == tb[ti as int].downstream_subs@[j]);
                            }
                        }
                        assert forall|i: int| 0 <= i < self.tracks@.len() && i != ti implies #[trigger] self.tracks@[i] == tracks0[i] by {
                            assert(self.tracks@[i] == tb[i]);
                        }
                    }
                    let sub_session = self.tracks[ti].downstream_subs[di].id.session.key_clone();
                    let sub_rid = self.tracks[ti].downstream_subs[di].id.request_id;
                    index_remove(&mut self.downstream_request_index, &sub_session, sub_rid);
                    let ghost ob = out@;
                    out.push(OutputEvent::SendControlMessage {
                        session: sub_session,
                        channel: ControlChannel::ControlStream,
                        message: ControlMessage::RequestError(RequestErrorMsg {
                            request_id: sub_rid.0,
                            error_code: msg.error_code,
                            retry_interval: msg.retry_interval,
                            error_reason: ReasonPhrase(msg.error_reason.0.clone()),
                        }),
                    });
                    proof {
                        let e = out@[out@.len() - 1];
                        assert(out@ =~= ob.push(e));
                        assert(Self::spec_err_to(e, d, msg));
                        Self::lemma_err_distinct_push(ob, ds0, di as int, spec_is_pending(), msg, e);
                        Self::lemma_err_keep(ob, ds0, di as int, spec_is_pending(), msg, e);
                        Self::lemma_err_step(out@, ds0, di as int, spec_is_pending(), msg);
                    }
                } else {
                    proof {
                        Self::lemma_err_step(out@, ds0, di as int, spec_is_pending(), msg);
                        Self::lemma_err_widen(out@, ds0, di as int, spec_is_pending(), msg);
                    }
                }
                di = di + 1;
            }
            proof {
                assert forall|t: int, d: int| 0 <= t < self.tracks().len() && self.tracks()[t].track@ == track_key@
                    && 0 <= d < self.tracks()[t].downstream_subs@.len()
                    implies (#[trigger] self.tracks()[t].downstream_subs@[d]).state != DownstreamSubState::Pending by {
                    assert(self.tracks@[t].track == tracks0[t].track);
                    assert(t == ti);
                }
            }
            proof {
                assert((forall|j: int| 0 <= j < ds0.len() ==> (#[trigger] ds0[j]).state != DownstreamSubState::Established)
                    == spec_no_active_downstream(self.tracks@[ti as int].downstream_subs@)) by {
                    let dd = self.tracks@[ti as int].downstream_subs@;
                    if forall|j: int| 0 <= j < ds0.len() ==> (#[trigger] ds0[j]).state != DownstreamSubState::Established {
                        assert forall|j: int| 0 <= j < dd.len() implies (#[trigger] dd[j]).state == DownstreamSubState::Terminated by {
                            assert(ds0[j].state != DownstreamSubState::Established);
                        }
                    }
                    if spec_no_active_downstream(dd) {
                        assert forall|j: int| 0 <= j < ds0.len() implies (#[trigger] ds0[j]).state != DownstreamSubState::Established by {
                            assert(dd[j].state == DownstreamSubState::Terminated);
                        }
                    }
                }
                assert(self.tracks@[ti as int].track == tracks0[ti as int].track);
            }
            if self.tracks[ti].no_active_downstream() && self.tracks[ti].all_upstream_terminated() {
                proof {
                    lemma_tracks_remove(self.tracks@, ti as int);
                }
                let ghost tb = self.tracks@;
                self.tracks.remove(ti);
                assert(self.tracks@ =~= tracks0.remove(ti as int)) by {
                    assert forall|i: int| 0 <= i < self.tracks@.len() implies #[trigger] self.tracks@[i] == tracks0.remove(ti as int)[i] by {
                        if i < ti {
                            assert(self.tracks@[i] == tb[i]);
                        } else {
                            assert(self.tracks@[i] == tb[i + 1]);
                        }
                    }
                }
                proof {
                    assert forall|t: int, d: int| 0 <= t < self.tracks().len() && self.tracks()[t].track@ == track_key@
                        && 0 <= d < self.tracks()[t].downstream_subs@.len()
                        implies (#[trigger] self.tracks()[t].downstream_subs@[d]).state != DownstreamSubState::Pending by {
                        let x = if t < ti { t } else { t + 1 };
                        assert(self.tracks@[t] == tb[x]);
                        assert(tb[x].track == tracks0[x].track);
                        assert(x != ti);
                    }
                }
            }
        }
        out
    }

    fn handle_unsubscribe(&mut self, session: S, msg: Unsubscribe) -> (out: Vec<OutputEvent<S>>)
        requires
            old(self).wf(),
            old(self).has_session(session),
        ensures
            final(self).wf(),
            Self::post_unsubscribe(old(self), final(self), session, msg, out@),
    {
        let k = match self.find_session(&session) {
            Some(k) => k,
            None => return Vec::new(),
        };
        proof {
            self.lemma_session_index(k as int);
        }
        if self.sessions[k].setup != SetupState::SetupComplete {
            return close(session, SessionError::ProtocolViolation, "UNSUBSCRIBE before setup complete");
        }
        let rid = RequestId(msg.request_id);
        let ix = match index_find(&self.downstream_request_index, &session, rid) {
            Some(i) => i,
            None => return close(session, SessionError::ProtocolViolation, "UNSUBSCRIBE for unknown request ID"),
        };
        let track_key = self.downstream_request_index[ix].2.duplicate();
        let ti = match self.find_track(&track_key) {
            Some(t) => t,
            None => return Vec::new(),
        };
        let ghost tracks0 = self.tracks@;
        let ghost ups0 = tracks0[ti as int].upstream_subs@;
        let sub_id = SubscriptionId { session: session.key_clone(), request_id: rid };
        match self.tracks[ti].find_downstream(&sub_id) {
            Some(di) => {
                let ghost tbu = self.tracks@;
                self.tracks[ti].downstream_subs[di].state = DownstreamSubState::Terminated;
                proof {
                    lemma_route_unique_same_ids(tbu[ti as int], self.tracks@[ti as int]);
                    lemma_routes_unique_at(tbu, self.tracks@, ti as int);
                }
                assert(self.tracks@[ti as int].downstream_subs@ =~= spec_end_ds(tracks0[ti as int].downstream_subs@, sub_id));
            },
            None => {
                assert(self.tracks@[ti as int].downstream_subs@ =~= spec_end_ds(tracks0[ti as int].downstream_subs@, sub_id));
            },
        }
        let ghost tracks1 = self.tracks@;
        assert(forall|i: int| 0 <= i < tracks1.len() && i != ti ==> #[trigger] tracks1[i] == tracks0[i]);
        assert(tracks1[ti as int].upstream_subs@ == ups0);
        index_remove(&mut self.downstream_request_index, &session, rid);
        proof {
            lemma_tracks_same_keys(tracks0, self.tracks@);
            lemma_index_without_absent(old(self).downstream_request_index@, session, rid);
            assert(spec_index_track(old(self).downstream_index(), session, rid) == Some(old(self).downstream_request_index@[ix as int].2));
            assert(track_key@ == old(self).downstream_request_index@[ix as int].2@);
        }
        let mut out: Vec<OutputEvent<S>> = Vec::new();
        if self.tracks[ti].no_active_downstream() {
            let m = self.tracks[ti].upstream_subs.len();
            proof {
                Self::lemma_unsub_empty(ups0, m as int, spec_leg_active());
                assert(spec_route_unique(old(self).tracks()[ti as int]));
            }
            let mut li: usize = 0;
            while li < m
                invariant
                    self.wf(),
                    self.sessions@ == old(self).sessions@,
                    self.publishers_by_namespace@ == old(self).publishers_by_namespace@,
                    ti < self.tracks@.len(),
                    self.tracks@.len() == tracks0.len(),
                    spec_unique_tracks(tracks0),
                    m == self.tracks@[ti as int].upstream_subs@.len(),
                    m == ups0.len(),
                    forall|i: int| 0 <= i < self.tracks@.len() ==> (#[trigger] self.tracks@[i]).track == tracks0[i].track,
                    forall|j: int| li <= j < m ==> (#[trigger] self.tracks@[ti as int].upstream_subs@[j]) == ups0[j],
                    !spec_index_has(self.downstream_request_index@, session, rid),
                    li <= m,
                    Self::spec_unsub_sound(out@, ups0, m as int, spec_leg_active()),
                    Self::spec_unsub_complete(out@, ups0, li as int, spec_leg_active()),
                    Self::spec_sessions_distinct(out@),
                    Self::spec_sent_to_legs(out@, ups0, li as int),
                    forall|i: int, j: int| 0 <= i < j < ups0.len() ==> (#[trigger] ups0[i]).publisher_session != (#[trigger] ups0[j]).publisher_session,
                    forall|i: int| 0 <= i < self.tracks@.len() && i != ti ==> (#[trigger] self.tracks@[i]) == tracks1[i],
                    self.tracks@[ti as int].downstream_subs@ == tracks1[ti as int].downstream_subs@,
                    forall|j: int| 0 <= j < li ==> (#[trigger] self.tracks@[ti as int].upstream_subs@[j]).state == UpstreamSubState::Terminated,
                    forall|j: int| 0 <= j < li && (spec_leg_active::<S>())(#[trigger] ups0[j])
                        ==> !spec_index_has(self.upstream_request_index@, ups0[j].publisher_session, ups0[j].request_id),
                decreases m - li,
            {
                let ghost l = ups0[li as int];
                assert(self.tracks@[ti as int].upstream_subs@[li as int] == l);
                let st = self.tracks[ti].upstream_subs[li].state;
                if st == UpstreamSubState::Pending || st == UpstreamSubState::Established {
                    let pub_session = self.tracks[ti].upstream_subs[li].publisher_session.key_clone();
                    let upstream_req_id = self.tracks[ti].upstream_subs[li].request_id;
                    let ghost ob = out@;
                    out.push(OutputEvent::SendControlMessage {
                        session: pub_session.key_clone(),
                        channel: ControlChannel::ControlStream,
                        message: ControlMessage::Unsubscribe(Unsubscribe { request_id: upstream_req_id.0 }),
                    });
                    proof {
                        let e = out@[out@.len() - 1];
                        assert(out@ =~= ob.push(e));
                        assert(Self::spec_unsub_to(e, l));
                        Self::lemma_unsub_push(ob, ups0, m as int, li as int, spec_leg_active(), e);
                        Self::lemma_unsub_keep(ob, ups0, li as int, spec_leg_active(), e);
                        Self::lemma_unsub_step(out@, ups0, li as int, spec_leg_active());
                        Self::lemma_legs_step(ob, ups0, li as int, Some(e));
                    }
                    let ghost tb = self.tracks@;
                    let ghost tbu = self.tracks@;
                    self.tracks[ti].upstream_subs[li].state = UpstreamSubState::Terminated;
                    proof {
                        lemma_route_unique_same_ids(tbu[ti as int], self.tracks@[ti as int]);
                        lemma_routes_unique_at(tbu, self.tracks@, ti as int);
                    }
                    proof {
                        assert forall|i: int| 0 <= i < self.tracks@.len() implies (#[trigger] self.tracks@[i]).track == tracks0[i].track by {
                            assert(self.tracks@[i].track == tb[i].track);
                        }
                        lemma_tracks_same_keys(tracks0, self.tracks@);
                        assert forall|j: int| li + 1 <= j < m implies (#[trigger] self.tracks@[ti as int].upstream_subs@[j]) == ups0[j] by {
                            assert(self.tracks@[ti as int].upstream_subs@[j] == tb[ti as int].upstream_subs@[j]);
                        }
                        assert forall|j: int| 0 <= j < li + 1 implies (#[trigger] self.tracks@[ti as int].upstream_subs@[j]).state == UpstreamSubState::Terminated by {
                            if j < li {
                                assert(self.tracks@[ti as int].upstream_subs@[j] == tb[ti as int].upstream_subs@[j]);
                            }
                        }
                        assert forall|i: int| 0 <= i < self.tracks@.len() && i != ti implies (#[trigger] self.tracks@[i]) == tracks1[i] by {
                            assert(self.tracks@[i] == tb[i]);
                        }
                    }
                    let ghost ib = self.upstream_request_index@;
                    index_remove(&mut self.upstream_request_index, &pub_session, upstream_req_id);
                    proof {
                        assert forall|j: int| 0 <= j < li + 1 && (spec_leg_active::<S>())(#[trigger] ups0[j])
                            implies !spec_index_has(self.upstream_request_index@, ups0[j].publisher_session, ups0[j].request_id) by {
                            if j < li {
                                lemma_index_without_keeps_absent(ib, pub_session, upstream_req_id, ups0[j].publisher_session, ups0[j].request_id);
                            } else {
                                lemma_index_without_absent(ib, pub_session, upstream_req_id);
                            }
                        }
                    }
                } else {
                    proof {
                        Self::lemma_unsub_step(out@, ups0, li as int, spec_leg_active());
                        Self::lemma_legs_step(out@, ups0, li as int, None);
                    }
                }
                li = li + 1;
            }
            if self.tracks[ti].no_active_downstream()
                && (self.tracks[ti].upstream_subs.len() == 0 || self.tracks[ti].all_upstream_terminated()) {
                proof {
                    lemma_tracks_remove(self.tracks@, ti as int);
                }
                let ghost tl = self.tracks@;
                self.tracks.remove(ti);
                assert(self.tracks@ =~= old(self).tracks@.remove(ti as int)) by {
                    assert forall|i: int| 0 <= i < self.tracks@.len() implies #[trigger] self.tracks@[i] == old(self).tracks@.remove(ti as int)[i] by {
                        if i < ti {
                            assert(self.tracks@[i] == tl[i]);
                        } else {
                            assert(self.tracks@[i] == tl[i + 1]);
                        }
                    }
                }
            }
        }
        out
    }

    /// What PUBLISH_DONE makes the relay tell the downstream subscription
    /// `d`, on the control stream: PUBLISH_DONE with the publisher's status,
    /// count and reason when `d` is established, REQUEST_ERROR (does not
    /// exist) when it is pending.
    pub open spec fn spec_done_to(e: OutputEvent<S>, d: DownstreamSubscription<S>, msg: PublishDone) -> bool {
        &&& e matches OutputEvent::SendControlMessage { channel: ControlChannel::ControlStream, .. }
        &&& e->SendControlMessage_session == d.id.session
        &&& match e->SendControlMessage_message {
            ControlMessage::PublishDone(x) => d.state == DownstreamSubState::Established
                && x.request_id == d.id.request_id.0
                && x.status_code == msg.status_code && x.stream_count == msg.stream_count
                && x.error_reason@ == msg.error_reason@,
            ControlMessage::RequestError(err) => d.state == DownstreamSubState::Pending
                && err.request_id == d.id.request_id.0
                && err.error_code == RequestErrorCode::DoesNotExist.spec_code() && err.retry_interval == 0,
            _ => false,
        }
    }

    /// Whether `e` is sent to one of the first `upto` subscriptions of `xs`
    /// that `sel` picks.
    pub open spec fn spec_done_from(e: OutputEvent<S>, xs: Seq<DownstreamSubscription<S>>, upto: int, sel: spec_fn(DownstreamSubscription<S>) -> bool, msg: PublishDone) -> bool {
        exists|j: int| 0 <= j < upto && sel(xs[j]) && #[trigger] Self::spec_done_to(e, xs[j], msg)
    }

    /// Whether `out` holds what is sent to `x`.
    pub open spec fn spec_done_sent(out: Seq<OutputEvent<S>>, x: DownstreamSubscription<S>, msg: PublishDone) -> bool {
        exists|i: int| 0 <= i < out.len() && #[trigger] Self::spec_done_to(out[i], x, msg)
    }

    /// Every output is sent to one of the first `upto` subscriptions of `xs`
    /// that `sel` picks.
    #[verifier::opaque]
    pub open spec fn spec_done_sound(out: Seq<OutputEvent<S>>, xs: Seq<DownstreamSubscription<S>>, upto: int, sel: spec_fn(DownstreamSubscription<S>) -> bool, msg: PublishDone) -> bool {
        forall|i: int| 0 <= i < out.len() ==> #[trigger] Self::spec_done_from(out[i], xs, upto, sel, msg)
    }

    /// Each of the first `upto` subscriptions of `xs` that `sel` picks is
    /// sent one.
    #[verifier::opaque]
    pub open spec fn spec_done_complete(out: Seq<OutputEvent<S>>, xs: Seq<DownstreamSubscription<S>>, upto: int, sel: spec_fn(DownstreamSubscription<S>) -> bool, msg: PublishDone) -> bool {
        forall|j: int| 0 <= j < upto && sel(#[trigger] xs[j]) ==> Self::spec_done_sent(out, xs[j], msg)
    }

    proof fn lemma_done_empty(xs: Seq<DownstreamSubscription<S>>, upto: int, sel: spec_fn(DownstreamSubscription<S>) -> bool, msg: PublishDone)
        ensures
            Self::spec_done_sound(Seq::empty(), xs, upto, sel, msg),
            Self::spec_done_complete(Seq::empty(), xs, 0, sel, msg),
    {
        reveal(Relay::spec_done_sound);
        reveal(Relay::spec_done_complete);
    }

    proof fn lemma_done_push(out: Seq<OutputEvent<S>>, xs: Seq<DownstreamSubscription<S>>, upto: int, d: int, sel: spec_fn(DownstreamSubscription<S>) -> bool, msg: PublishDone,
        e: OutputEvent<S>)
        requires
            0 <= d < upto,
            Self::spec_done_sound(out, xs, upto, sel, msg),
            sel(xs[d]),
            Self::spec_done_to(e, xs[d], msg),
        ensures
            Self::spec_done_sound(out.push(e), xs, upto, sel, msg),
            Self::spec_done_sent(out.push(e), xs[d], msg),
    {
        reveal(Relay::spec_done_sound);
        let o = out.push(e);
        assert forall|i: int| 0 <= i < o.len() implies #[trigger] Self::spec_done_from(o[i], xs, upto, sel, msg) by {
            if i < out.len() {
                assert(o[i] == out[i]);
                assert(Self::spec_done_from(out[i], xs, upto, sel, msg));
            } else {
                assert(Self::spec_done_to(o[i], xs[d], msg));
            }
        }
        assert(Self::spec_done_to(o[out.len() as int], xs[d], msg));
    }

    proof fn lemma_done_keep(out: Seq<OutputEvent<S>>, xs: Seq<DownstreamSubscription<S>>, c: int, sel: spec_fn(DownstreamSubscription<S>) -> bool, msg: PublishDone,
        e: OutputEvent<S>)
        requires
            Self::spec_done_complete(out, xs, c, sel, msg),
        ensures
            Self::spec_done_complete(out.push(e), xs, c, sel, msg),
    {
        reveal(Relay::spec_done_complete);
        let o = out.push(e);
        assert forall|j: int| 0 <= j < c && sel(#[trigger] xs[j]) implies Self::spec_done_sent(o, xs[j], msg) by {
            assert(Self::spec_done_sent(out, xs[j], msg));
            let i = choose|i: int| 0 <= i < out.len() && #[trigger] Self::spec_done_to(out[i], xs[j], msg);
            assert(o[i] == out[i]);
            assert(Self::spec_done_to(o[i], xs[j], msg));
        }
    }

    proof fn lemma_done_step(out: Seq<OutputEvent<S>>, xs: Seq<DownstreamSubscription<S>>, d: int, sel: spec_fn(DownstreamSubscription<S>) -> bool, msg: PublishDone)
        requires
            0 <= d < xs.len(),
            Self::spec_done_complete(out, xs, d, sel, msg),
            sel(xs[d]) ==> Self::spec_done_sent(out, xs[d], msg),
        ensures
            Self::spec_done_complete(out, xs, d + 1, sel, msg),
    {
        reveal(Relay::spec_done_complete);
    }

    /// The request ID that a PUBLISH_DONE or REQUEST_ERROR answers.
    pub open spec fn spec_reply_rid(e: OutputEvent<S>) -> u64 {
        match e->SendControlMessage_message {
            ControlMessage::PublishDone(x) => x.request_id,
            ControlMessage::RequestError(x) => x.request_id,
            _ => 0,
        }
    }

    /// Whether no two outputs answer the same request of the same session.
    pub open spec fn spec_done_targets_distinct(out: Seq<OutputEvent<S>>) -> bool {
        forall|i: int, j: int| 0 <= i < j < out.len() ==>
            (#[trigger] out[i])->SendControlMessage_session != (#[trigger] out[j])->SendControlMessage_session
            || Self::spec_reply_rid(out[i]) != Self::spec_reply_rid(out[j])
    }

    /// Whether `e` went to a subscription of `xs` other than `d`.
    pub open spec fn spec_done_elsewhere(e: OutputEvent<S>, xs: Seq<DownstreamSubscription<S>>, d: int, msg: PublishDone) -> bool {
        exists|q: int| 0 <= q < xs.len() && q != d && #[trigger] Self::spec_done_to(e, xs[q], msg)
    }

    /// Whether `e` went to a subscription of `xs` that comes before `d` or
    /// is not pending.
    pub open spec fn spec_done_early(e: OutputEvent<S>, xs: Seq<DownstreamSubscription<S>>, d: int, msg: PublishDone) -> bool {
        exists|q: int| 0 <= q < xs.len() && (q < d || xs[q].state != DownstreamSubState::Pending)
            && #[trigger] Self::spec_done_to(e, xs[q], msg)
    }

    /// Whether every output went to a subscription of `xs` that comes
    /// before `d` or is not pending.
    #[verifier::opaque]
    pub open spec fn spec_done_before(out: Seq<OutputEvent<S>>, xs: Seq<DownstreamSubscription<S>>, d: int, msg: PublishDone) -> bool {
        forall|i: int| 0 <= i < out.len() ==> #[trigger] Self::spec_done_early(out[i], xs, d, msg)
    }

    /// Sending to subscription `d`, where no earlier output went, keeps the
    /// targets distinct, as the subscriptions' IDs are.
    proof fn lemma_done_distinct_push(out: Seq<OutputEvent<S>>, xs: Seq<DownstreamSubscription<S>>, d: int, msg: PublishDone,
        e: OutputEvent<S>)
        requires
            0 <= d < xs.len(),
            forall|i: int| 0 <= i < out.len() ==> #[trigger] Self::spec_done_elsewhere(out[i], xs, d, msg),
            Self::spec_done_targets_distinct(out),
            forall|i: int, j: int| 0 <= i < j < xs.len() ==> (#[trigger] xs[i]).id != (#[trigger] xs[j]).id,
            Self::spec_done_to(e, xs[d], msg),
        ensures
            Self::spec_done_targets_distinct(out.push(e)),
    {
        let o = out.push(e);
        assert forall|i: int, j: int| 0 <= i < j < o.len() implies
            (#[trigger] o[i])->SendControlMessage_session != (#[trigger] o[j])->SendControlMessage_session
            || Self::spec_reply_rid(o[i]) != Self::spec_reply_rid(o[j]) by {
            assert(o[i] == out[i]);
            if j < out.len() {
                assert(o[j] == out[j]);
            } else {
                assert(Self::spec_done_elsewhere(out[i], xs, d, msg));
                let q = choose|q: int| 0 <= q < xs.len() && q != d && #[trigger] Self::spec_done_to(out[i], xs[q], msg);
                if q < d {
                    assert(xs[q].id != xs[d].id);
                } else {
                    assert(xs[d].id != xs[q].id);
                }
            }
        }
    }

    /// A PUBLISH_DONE to the established subscription `d`, after those to
    /// the established ones before it.
    proof fn lemma_done_first_push(out: Seq<OutputEvent<S>>, xs: Seq<DownstreamSubscription<S>>, d: int, msg: PublishDone,
        e: OutputEvent<S>)
        requires
            0 <= d < xs.len(),
            Self::spec_done_sound(out, xs, d, spec_is_established(), msg),
            Self::spec_done_targets_distinct(out),
            forall|i: int, j: int| 0 <= i < j < xs.len() ==> (#[trigger] xs[i]).id != (#[trigger] xs[j]).id,
            xs[d].state == DownstreamSubState::Established,
            Self::spec_done_to(e, xs[d], msg),
        ensures
            Self::spec_done_sound(out.push(e), xs, d + 1, spec_is_established(), msg),
            Self::spec_done_targets_distinct(out.push(e)),
    {
        reveal(Relay::spec_done_sound);
        assert forall|i: int| 0 <= i < out.len() implies #[trigger] Self::spec_done_elsewhere(out[i], xs, d, msg) by {
            assert(Self::spec_done_from(out[i], xs, d, spec_is_established(), msg));
            let q = choose|q: int| 0 <= q < d && spec_is_established()(xs[q]) && #[trigger] Self::spec_done_to(out[i], xs[q], msg);
            assert(Self::spec_done_to(out[i], xs[q], msg));
        }
        Self::lemma_done_distinct_push(out, xs, d, msg, e);
        let o = out.push(e);
        assert forall|i: int| 0 <= i < o.len() implies #[trigger] Self::spec_done_from(o[i], xs, d + 1, spec_is_established(), msg) by {
            if i < out.len() {
                assert(o[i] == out[i]);
                assert(Self::spec_done_from(out[i], xs, d, spec_is_established(), msg));
            } else {
                assert(Self::spec_done_to(o[i], xs[d], msg));
            }
        }
    }

    proof fn lemma_done_first_skip(out: Seq<OutputEvent<S>>, xs: Seq<DownstreamSubscription<S>>, d: int, msg: PublishDone)
        requires
            Self::spec_done_sound(out, xs, d, spec_is_established(), msg),
        ensures
            Self::spec_done_sound(out, xs, d + 1, spec_is_established(), msg),
    {
        reveal(Relay::spec_done_sound);
        assert forall|i: int| 0 <= i < out.len() implies #[trigger] Self::spec_done_from(out[i], xs, d + 1, spec_is_established(), msg) by {
            assert(Self::spec_done_from(out[i], xs, d, spec_is_established(), msg));
        }
    }

    /// Once the established subscriptions are told, no output went to a
    /// pending one.
    proof fn lemma_done_second_start(out: Seq<OutputEvent<S>>, xs: Seq<DownstreamSubscription<S>>, msg: PublishDone)
        requires
            Self::spec_done_sound(out, xs, xs.len() as int, spec_is_established(), msg),
        ensures
            Self::spec_done_before(out, xs, 0, msg),
    {
        reveal(Relay::spec_done_sound);
        reveal(Relay::spec_done_before);
        assert forall|i: int| 0 <= i < out.len() implies #[trigger] Self::spec_done_early(out[i], xs, 0, msg) by {
            assert(Self::spec_done_from(out[i], xs, xs.len() as int, spec_is_established(), msg));
            let q = choose|q: int| 0 <= q < xs.len() && spec_is_established()(xs[q]) && #[trigger] Self::spec_done_to(out[i], xs[q], msg);
            assert(Self::spec_done_to(out[i], xs[q], msg));
        }
    }

    /// A REQUEST_ERROR to the pending subscription `d`, after those to the
    /// pending ones before it.
    proof fn lemma_done_second_push(out: Seq<OutputEvent<S>>, xs: Seq<DownstreamSubscription<S>>, d: int, msg: PublishDone,
        e: OutputEvent<S>)
        requires
            0 <= d < xs.len(),
            Self::spec_done_before(out, xs, d, msg),
            Self::spec_done_targets_distinct(out),
            forall|i: int, j: int| 0 <= i < j < xs.len() ==> (#[trigger] xs[i]).id != (#[trigger] xs[j]).id,
            xs[d].state == DownstreamSubState::Pending,
            Self::spec_done_to(e, xs[d], msg),
        ensures
            Self::spec_done_before(out.push(e), xs, d + 1, msg),
            Self::spec_done_targets_distinct(out.push(e)),
    {
        reveal(Relay::spec_done_before);
        assert forall|i: int| 0 <= i < out.len() implies #[trigger] Self::spec_done_elsewhere(out[i], xs, d, msg) by {
            assert(Self::spec_done_early(out[i], xs, d, msg));
            let q = choose|q: int| 0 <= q < xs.len() && (q < d || xs[q].state != DownstreamSubState::Pending)
                && #[trigger] Self::spec_done_to(out[i], xs[q], msg);
            assert(Self::spec_done_to(out[i], xs[q], msg));
        }
        Self::lemma_done_distinct_push(out, xs, d, msg, e);
        let o = out.push(e);
        assert forall|i: int| 0 <= i < o.len() implies #[trigger] Self::spec_done_early(o[i], xs, d + 1, msg) by {
            if i < out.len() {
                assert(o[i] == out[i]);
                assert(Self::spec_done_early(out[i], xs, d, msg));
                let q = choose|q: int| 0 <= q < xs.len() && (q < d || xs[q].state != DownstreamSubState::Pending)
                    && #[trigger] Self::spec_done_to(out[i], xs[q], msg);
                assert(Self::spec_done_to(o[i], xs[q], msg));
            } else {
                assert(Self::spec_done_to(o[i], xs[d], msg));
            }
        }
    }

    proof fn lemma_done_second_skip(out: Seq<OutputEvent<S>>, xs: Seq<DownstreamSubscription<S>>, d: int, msg: PublishDone)
        requires
            Self::spec_done_before(out, xs, d, msg),
        ensures
            Self::spec_done_before(out, xs, d + 1, msg),
    {
        reveal(Relay::spec_done_before);
        assert forall|i: int| 0 <= i < out.len() implies #[trigger] Self::spec_done_early(out[i], xs, d + 1, msg) by {
            assert(Self::spec_done_early(out[i], xs, d, msg));
            let q = choose|q: int| 0 <= q < xs.len() && (q < d || xs[q].state != DownstreamSubState::Pending)
                && #[trigger] Self::spec_done_to(out[i], xs[q], msg);
            assert(Self::spec_done_to(out[i], xs[q], msg));
        }
    }

    #[verifier::rlimit(40)]
    fn handle_publish_done(&mut self, session: S, msg: PublishDone) -> (out: Vec<OutputEvent<S>>)
        requires
            old(self).wf(),
            old(self).has_session(session),
        ensures
            final(self).wf(),
            Self::post_publish_done(old(self), final(self), session, msg, out@),
    {
        let k = match self.find_session(&session) {
            Some(k) => k,
            None => return Vec::new(),
        };
        proof {
            self.lemma_session_index(k as int);
        }
        if self.sessions[k].setup != SetupState::SetupComplete {
            return close(session, SessionError::ProtocolViolation, "PUBLISH_DONE before setup complete");
        }
        let rid = RequestId(msg.request_id);
        let ix = match index_find(&self.upstream_request_index, &session, rid) {
            Some(i) => i,
            None => return Vec::new(),
        };
        let track_key = self.upstream_request_index[ix].2.duplicate();
        let ti = match self.find_track(&track_key) {
            Some(t) => t,
            None => return Vec::new(),
        };
        let ghost tracks0 = self.tracks@;
        let ghost ds0 = tracks0[ti as int].downstream_subs@;
        match self.tracks[ti].find_upstream(&session) {
            Some(li) => {
                let ghost tbu = self.tracks@;
                self.tracks[ti].upstream_subs[li].state = UpstreamSubState::Terminated;
                proof {
                    lemma_route_unique_same_ids(tbu[ti as int], self.tracks@[ti as int]);
                    lemma_routes_unique_at(tbu, self.tracks@, ti as int);
                }
                assert(self.tracks@[ti as int].upstream_subs@ =~= spec_end_leg(tracks0[ti as int].upstream_subs@, session));
            },
            None => {
                assert(self.tracks@[ti as int].upstream_subs@ =~= spec_end_leg(tracks0[ti as int].upstream_subs@, session));
            },
        }
        let ghost ups1 = self.tracks@[ti as int].upstream_subs@;
        let ghost all_ended = spec_all_upstream_terminated(ups1);
        index_remove(&mut self.upstream_request_index, &session, rid);
        proof {
            lemma_tracks_same_keys(tracks0, self.tracks@);
            lemma_index_without_absent(old(self).upstream_request_index@, session, rid);
            assert(spec_index_track(old(self).upstream_index(), session, rid) == Some(old(self).upstream_request_index@[ix as int].2));
            assert(track_key@ == old(self).upstream_request_index@[ix as int].2@);
        }
        let mut out: Vec<OutputEvent<S>> = Vec::new();
        assert(forall|i: int| 0 <= i < self.tracks@.len() && i != ti ==> #[trigger] self.tracks@[i] == tracks0[i]);
        let n = self.tracks[ti].downstream_subs.len();
        proof {
            Self::lemma_done_empty(ds0, n as int, spec_done_sel(all_ended), msg);
            Self::lemma_done_empty(ds0, 0, spec_is_established(), msg);
            assert(spec_route_unique(tracks0[ti as int]));
        }
        let mut di: usize = 0;
        while di < n
            invariant
                self.wf(),
                self.sessions@ == old(self).sessions@,
                self.publishers_by_namespace@ == old(self).publishers_by_namespace@,
                ti < self.tracks@.len(),
                self.tracks@.len() == tracks0.len(),
                spec_unique_tracks(tracks0),
                n == self.tracks@[ti as int].downstream_subs@.len(),
                n == ds0.len(),
                forall|i: int| 0 <= i < self.tracks@.len() ==> (#[trigger] self.tracks@[i]).track == tracks0[i].track,
                forall|j: int| di <= j < n ==> (#[trigger] self.tracks@[ti as int].downstream_subs@[j]) == ds0[j],
                forall|j: int| 0 <= j < di ==> (#[trigger] self.tracks@[ti as int].downstream_subs@[j]).id == ds0[j].id
                    && (self.tracks@[ti as int].downstream_subs@[j].state == DownstreamSubState::Pending
                        <==> ds0[j].state == DownstreamSubState::Pending),
                self.tracks@[ti as int].upstream_subs@ == ups1,
                !spec_index_has(self.upstream_request_index@, session, rid),
                di <= n,
                Self::spec_done_sound(out@, ds0, n as int, spec_done_sel(all_ended), msg),
                Self::spec_done_sound(out@, ds0, di as int, spec_is_established(), msg),
                Self::spec_done_targets_distinct(out@),
                forall|i: int, j: int| 0 <= i < j < ds0.len() ==> (#[trigger] ds0[i]).id != (#[trigger] ds0[j]).id,
                Self::spec_done_complete(out@, ds0, di as int, spec_is_established(), msg),
                forall|j: int| 0 <= j < di ==> (#[trigger] self.tracks@[ti as int].downstream_subs@[j]).state != DownstreamSubState::Established,
                forall|i: int| 0 <= i < self.tracks@.len() && i != ti ==> #[trigger] self.tracks@[i] == tracks0[i],
                forall|j: int| 0 <= j < di ==> Self::spec_ds_ended_if(ds0[j], #[trigger] self.tracks@[ti as int].downstream_subs@[j],
                    ds0[j].state == DownstreamSubState::Established),
                self.tracks@[ti as int].track_extensions == tracks0[ti as int].track_extensions,
            decreases n - di,
        {
            let ghost d = ds0[di as int];
            assert(self.tracks@[ti as int].downstream_subs@[di as int] == d);
            if self.tracks[ti].downstream_subs[di].state == DownstreamSubState::Established {
                let ghost tb = self.tracks@;
                let ghost tbu = self.tracks@;
                self.tracks[ti].downstream_subs[di].state = DownstreamSubState::Terminated;
                proof {
                    lemma_route_unique_same_ids(tbu[ti as int], self.tracks@[ti as int]);
                    lemma_routes_unique_at(tbu, self.tracks@, ti as int);
                }
                proof {
                    assert forall|i: int| 0 <= i < self.tracks@.len() implies (#[trigger] self.tracks@[i]).track == tracks0[i].track by {
                        assert(self.tracks@[i].track == tb[i].track);
                    }
                    lemma_tracks_same_keys(tracks0, self.tracks@);
                    assert forall|i: int| 0 <= i < self.tracks@.len() && i != ti implies #[trigger] self.tracks@[i] == tracks0[i] by {
                        assert(self.tracks@[i] == tb[i]);
                    }
                    assert forall|j: int| di + 1 <= j < n implies (#[trigger] self.tracks@[ti as int].downstream_subs@[j]) == ds0[j] by {
                        assert(self.tracks@[ti as int].downstream_subs@[j] == tb[ti as int].downstream_subs@[j]);
                    }
                    assert forall|j: int| 0 <= j < di + 1 implies (#[trigger] self.tracks@[ti as int].downstream_subs@[j]).id == ds0[j].id
                        && (self.tracks@[ti as int].downstream_subs@[j].state == DownstreamSubState::Pending
                            <==> ds0[j].state == DownstreamSubState::Pending) by {
                        if j < di {
                            assert(self.tracks@[ti as int].downstream_subs@[j] == tb[ti as int].downstream_subs@[j]);
                        }
                    }
                    assert forall|j: int| 0 <= j < di + 1 implies (#[trigger] self.tracks@[ti as int].downstream_subs@[j]).state != DownstreamSubState::Established by {
                        if j < di {
                            assert(self.tracks@[ti as int].downstream_subs@[j] == tb[ti as int].downstream_subs@[j]);
                        }
                    }
                    assert forall|j: int| 0 <= j < di + 1 implies Self::spec_ds_ended_if(ds0[j], #[trigger] self.tracks@[ti as int].downstream_subs@[j],
                        ds0[j].state == DownstreamSubState::Established) by {
                        if j < di {
                            assert(self.tracks@[ti as int].downstream_subs@[j] == tb[ti as int].downstream_subs@[j]);
                        }
                    }
                }
                let sub_session = self.tracks[ti].downstream_subs[di].id.session.key_clone();
                let sub_rid = self.tracks[ti].downstream_subs[di].id.request_id;
                index_remove(&mut self.downstream_request_index, &sub_session, sub_rid);
                let ghost ob = out@;
                out.push(OutputEvent::SendControlMessage {
                    session: sub_session,
                    channel: ControlChannel::ControlStream,
                    message: ControlMessage::PublishDone(PublishDone {
                        request_id: sub_rid.0,
                        status_code: msg.status_code,
                        stream_count: msg.stream_count,
                        error_reason: ReasonPhrase(msg.error_reason.0.clone()),
                    }),
                });
                proof {
                    let e = out@[out@.len() - 1];
                    assert(out@ =~= ob.push(e));
                    assert(Self::spec_done_to(e, d, msg));
                    Self::lemma_done_push(ob, ds0, n as int, di as int, spec_done_sel(all_ended), msg, e);
                    Self::lemma_done_first_push(ob, ds0, di as int, msg, e);
                    Self::lemma_done_keep(ob, ds0, di as int, spec_is_established(), msg, e);
                    Self::lemma_done_step(out@, ds0, di as int, spec_is_established(), msg);
                }
            } else {
                proof {
                    Self::lemma_done_step(out@, ds0, di as int, spec_is_established(), msg);
                    Self::lemma_done_first_skip(out@, ds0, di as int, msg);
                }
            }
            di = di + 1;
        }
        if self.tracks[ti].all_upstream_terminated() {
            assert(Self::spec_done_complete(out@, ds0, 0, spec_is_pending(), msg)) by {
                reveal(Relay::spec_done_complete);
            }
            proof {
                Self::lemma_done_second_start(out@, ds0, msg);
            }
            let mut di: usize = 0;
            while di < n
                invariant
                    self.wf(),
                    self.sessions@ == old(self).sessions@,
                    self.publishers_by_namespace@ == old(self).publishers_by_namespace@,
                    ti < self.tracks@.len(),
                    self.tracks@.len() == tracks0.len(),
                    spec_unique_tracks(tracks0),
                    n == self.tracks@[ti as int].downstream_subs@.len(),
                    n == ds0.len(),
                    all_ended,
                    forall|i: int| 0 <= i < self.tracks@.len() ==> (#[trigger] self.tracks@[i]).track == tracks0[i].track,
                    forall|j: int| di <= j < n ==> (#[trigger] self.tracks@[ti as int].downstream_subs@[j]).id == ds0[j].id
                        && (self.tracks@[ti as int].downstream_subs@[j].state == DownstreamSubState::Pending
                            <==> ds0[j].state == DownstreamSubState::Pending),
                    self.tracks@[ti as int].upstream_subs@ == ups1,
                    !spec_index_has(self.upstream_request_index@, session, rid),
                    di <= n,
                    Self::spec_done_sound(out@, ds0, n as int, spec_done_sel(all_ended), msg),
                    Self::spec_done_complete(out@, ds0, n as int, spec_is_established(), msg),
                    Self::spec_done_complete(out@, ds0, di as int, spec_is_pending(), msg),
                    Self::spec_done_before(out@, ds0, di as int, msg),
                    Self::spec_done_targets_distinct(out@),
                    forall|i: int, j: int| 0 <= i < j < ds0.len() ==> (#[trigger] ds0[i]).id != (#[trigger] ds0[j]).id,
                    forall|j: int| 0 <= j < n ==> (#[trigger] self.tracks@[ti as int].downstream_subs@[j]).state != DownstreamSubState::Established,
                    forall|j: int| 0 <= j < di ==> (#[trigger] self.tracks@[ti as int].downstream_subs@[j]).state != DownstreamSubState::Pending,
                    forall|i: int| 0 <= i < self.tracks@.len() && i != ti ==> #[trigger] self.tracks@[i] == tracks0[i],
                decreases n - di,
            {
                let ghost d = ds0[di as int];
                if self.tracks[ti].downstream_subs[di].state == DownstreamSubState::Pending {
                    let ghost tb = self.tracks@;
                    let ghost tbu = self.tracks@;
                    self.tracks[ti].downstream_subs[di].state = DownstreamSubState::Terminated;
                    proof {
                        lemma_route_unique_same_ids(tbu[ti as int], self.tracks@[ti as int]);
                        lemma_routes_unique_at(tbu, self.tracks@, ti as int);
                    }
                    proof {
                        assert forall|i: int| 0 <= i < self.tracks@.len() implies (#[trigger] self.tracks@[i]).track == tracks0[i].track by {
                            assert(self.tracks@[i].track == tb[i].track);
                        }
                        lemma_tracks_same_keys(tracks0, self.tracks@);
                        assert forall|i: int| 0 <= i < self.tracks@.len() && i != ti implies #[trigger] self.tracks@[i] == tracks0[i] by {
                            assert(self.tracks@[i] == tb[i]);
                        }
                        assert forall|j: int| di + 1 <= j < n implies (#[trigger] self.tracks@[ti as int].downstream_subs@[j]).id == ds0[j].id
                            && (self.tracks@[ti as int].downstream_subs@[j].state == DownstreamSubState::Pending
                                <==> ds0[j].state == DownstreamSubState::Pending) by {
                            assert(self.tracks@[ti as int].downstream_subs@[j] == tb[ti as int].downstream_subs@[j]);
                        }
                        assert forall|j: int| 0 <= j < n implies (#[trigger] self.tracks@[ti as int].downstream_subs@[j]).state != DownstreamSubState::Established by {
                            if j != di {
                                assert(self.tracks@[ti as int].downstream_subs@[j] == tb[ti as int].downstream_subs@[j]);
                            }
                        }
                        assert forall|j: int| 0 <= j < di + 1 implies (#[trigger] self.tracks@[ti as int].downstream_subs@[j]).state != DownstreamSubState::Pending by {
                            if j < di {
                                assert(self.tracks@[ti as int].downstream_subs@[j] == tb[ti as int].downstream_subs@[j]);
                            }
                        }
                    }
                    let sub_session = self.tracks[ti].downstream_subs[di].id.session.key_clone();
                    let sub_rid = self.tracks[ti].downstream_subs[di].id.request_id;
                    index_remove(&mut self.downstream_request_index, &sub_session, sub_rid);
                    let ghost ob = out@;
                    out.push(OutputEvent::SendControlMessage {
                        session: sub_session,
                        channel: ControlChannel::ControlStream,
                        message: ControlMessage::RequestError(RequestErrorMsg {
                            request_id: sub_rid.0,
                            error_code: RequestErrorCode::DoesNotExist.as_u64(),
                            retry_interval: 0,
                            error_reason: ReasonPhrase("publisher done".to_owned()),
                        }),
                    });
                    proof {
                        let e = out@[out@.len() - 1];
                        assert(out@ =~= ob.push(e));
                        assert(Self::spec_done_to(e, d, msg));
                        Self::lemma_done_push(ob, ds0, n as int, di as int, spec_done_sel(all_ended), msg, e);
                        Self::lemma_done_keep(ob, ds0, n as int, spec_is_established(), msg, e);
                        Self::lemma_done_keep(ob, ds0, di as int, spec_is_pending(), msg, e);
                        Self::lemma_done_step(out@, ds0, di as int, spec_is_pending(), msg);
                        Self::lemma_done_second_push(ob, ds0, di as int, msg, e);
                    }
                } else {
                    proof {
                        Self::lemma_done_step(out@, ds0, di as int, spec_is_pending(), msg);
                        Self::lemma_done_second_skip(out@, ds0, di as int, msg);
                    }
                }
                di = di + 1;
            }
        }
        proof {
            assert forall|t: int, d: int| 0 <= t < self.tracks().len() && self.tracks()[t].track@ == track_key@
                && 0 <= d < self.tracks()[t].downstream_subs@.len()
                implies (#[trigger] self.tracks()[t].downstream_subs@[d]).state != DownstreamSubState::Established
                && (all_ended ==> self.tracks()[t].downstream_subs@[d].state != DownstreamSubState::Pending) by {
                assert(self.tracks@[t].track == tracks0[t].track);
                assert(t == ti);
            }
        }
        proof {
            let dd = self.tracks@[ti as int].downstream_subs@;
            assert((forall|j: int| 0 <= j < ds0.len() ==> (#[trigger] ds0[j]).state != DownstreamSubState::Pending || all_ended)
                == spec_no_active_downstream(dd)) by {
                if forall|j: int| 0 <= j < ds0.len() ==> (#[trigger] ds0[j]).state != DownstreamSubState::Pending || all_ended {
                    assert forall|j: int| 0 <= j < dd.len() implies (#[trigger] dd[j]).state == DownstreamSubState::Terminated by {
                        assert(ds0[j].state != DownstreamSubState::Pending || all_ended);
                    }
                }
                if spec_no_active_downstream(dd) {
                    assert forall|j: int| 0 <= j < ds0.len() implies (#[trigger] ds0[j]).state != DownstreamSubState::Pending || all_ended by {
                        assert(dd[j].state == DownstreamSubState::Terminated);
                    }
                }
            }
            assert(self.tracks@[ti as int].track == tracks0[ti as int].track);
        }
        if self.tracks[ti].no_active_downstream()
            && (self.tracks[ti].upstream_subs.len() == 0 || self.tracks[ti].all_upstream_terminated()) {
            proof {
                lemma_tracks_remove(self.tracks@, ti as int);
            }
            let ghost tb = self.tracks@;
            self.tracks.remove(ti);
            assert(self.tracks@ =~= tracks0.remove(ti as int)) by {
                assert forall|i: int| 0 <= i < self.tracks@.len() implies #[trigger] self.tracks@[i] == tracks0.remove(ti as int)[i] by {
                    if i < ti {
                        assert(self.tracks@[i] == tb[i]);
                    } else {
                        assert(self.tracks@[i] == tb[i + 1]);
                    }
                }
            }
            proof {
                assert forall|t: int, d: int| 0 <= t < self.tracks().len() && self.tracks()[t].track@ == track_key@
                    && 0 <= d < self.tracks()[t].downstream_subs@.len()
                    implies (#[trigger] self.tracks()[t].downstream_subs@[d]).state != DownstreamSubState::Established
                    && (all_ended ==> self.tracks()[t].downstream_subs@[d].state != DownstreamSubState::Pending) by {
                    let x = if t < ti { t } else { t + 1 };
                    assert(self.tracks@[t] == tb[x]);
                    assert(tb[x].track == tracks0[x].track);
                    assert(x != ti);
                }
            }
        }
        out
    }

    /// The upstream legs route `r` keeps once session `s` is gone.
    pub open spec fn spec_ups_after_close(r: TrackRoute<S>, s: S) -> Seq<UpstreamSubscriptionLeg<S>> {
        spec_ups_without(r.upstream_subs@, s)
    }

    /// Whether route `r` is left without a pending or established
    /// downstream subscription once session `s` is gone.
    pub open spec fn spec_idle_after_close(r: TrackRoute<S>, s: S) -> bool {
        spec_no_active_downstream(spec_ds_without_session(r.downstream_subs@, s))
    }

    /// Whether upstream leg `b` is leg `a` ended: the same publisher,
    /// request, alias and forwarding, now terminated.
    pub open spec fn spec_leg_ended(a: UpstreamSubscriptionLeg<S>, b: UpstreamSubscriptionLeg<S>) -> bool {
        &&& b.publisher_session == a.publisher_session
        &&& b.request_id == a.request_id
        &&& b.inbound_alias == a.inbound_alias
        &&& b.forward_current == a.forward_current
        &&& b.state == UpstreamSubState::Terminated
    }

    /// Whether route `b` is route `a` once session `s` is gone: the
    /// subscriptions of `s` and the legs to `s` are dropped, and when no
    /// subscriber is left active every remaining leg is ended.
    pub open spec fn spec_route_closed(a: TrackRoute<S>, b: TrackRoute<S>, s: S) -> bool {
        let u = Self::spec_ups_after_close(a, s);
        &&& b.track == a.track
        &&& b.track_extensions == a.track_extensions
        &&& b.downstream_subs@ == spec_ds_without_session(a.downstream_subs@, s)
        &&& if Self::spec_idle_after_close(a, s) {
            &&& b.upstream_subs@.len() == u.len()
            &&& forall|l: int| 0 <= l < u.len() ==> Self::spec_leg_ended(u[l], #[trigger] b.upstream_subs@[l])
        } else {
            b.upstream_subs@ == u
        }
    }

    /// Whether a route still has a subscription or a leg.
    pub open spec fn spec_route_in_use() -> spec_fn(TrackRoute<S>) -> bool {
        |r: TrackRoute<S>| r.downstream_subs@.len() > 0 || r.upstream_subs@.len() > 0
    }

    /// Whether publisher entry `b` is entry `a` once session `s` no longer
    /// publishes the namespaces of `pn`.
    pub open spec fn spec_entry_closed(a: (NamespaceKey, Vec<S>), b: (NamespaceKey, Vec<S>), pn: Seq<NamespaceKey>, s: S) -> bool {
        if spec_ns_listed(pn, a.0@) {
            &&& b.0 == a.0
            &&& forall|y: S| b.1@.contains(y) <==> a.1@.contains(y) && y != s
        } else {
            b == a
        }
    }

    /// Whether a publisher entry stays: it is not one of the namespaces of
    /// `pn` left without a publisher.
    pub open spec fn spec_entry_kept(pn: Seq<NamespaceKey>) -> spec_fn((NamespaceKey, Vec<S>)) -> bool {
        |e: (NamespaceKey, Vec<S>)| !(spec_ns_listed(pn, e.0@) && e.1@.len() == 0)
    }

    /// Whether `e` is the UNSUBSCRIBE for leg `at.1` of route `at.0` of
    /// `ts`, among the legs that route keeps once `s` is gone, the leg
    /// pending or established and the route left idle.
    pub open spec fn spec_close_leg(e: OutputEvent<S>, ts: Seq<TrackRoute<S>>, at: (int, int), s: S) -> bool {
        &&& 0 <= at.0 < ts.len()
        &&& Self::spec_idle_after_close(ts[at.0], s)
        &&& 0 <= at.1 < Self::spec_ups_after_close(ts[at.0], s).len()
        &&& spec_leg_active()(Self::spec_ups_after_close(ts[at.0], s)[at.1])
        &&& Self::spec_unsub_to(e, Self::spec_ups_after_close(ts[at.0], s)[at.1])
    }

    /// Whether `at` names, for each output, the route and the leg it
    /// unsubscribes, no two outputs the same leg.
    pub open spec fn spec_close_at(out: Seq<OutputEvent<S>>, ts: Seq<TrackRoute<S>>, at: Seq<(int, int)>, s: S) -> bool {
        &&& at.len() == out.len()
        &&& forall|i: int| 0 <= i < out.len() ==> Self::spec_close_leg(#[trigger] out[i], ts, at[i], s)
        &&& forall|i: int, j: int| 0 <= i < j < at.len() ==> (#[trigger] at[i]) != (#[trigger] at[j])
    }

    /// Whether `e` is an UNSUBSCRIBE for a pending or established leg that
    /// one of the first `upto` routes of `ts` keeps once `s` is gone, and
    /// that route is left idle.
    pub open spec fn spec_close_from(e: OutputEvent<S>, ts: Seq<TrackRoute<S>>, upto: int, s: S) -> bool {
        exists|t: int, l: int| 0 <= t < upto && Self::spec_idle_after_close(ts[t], s)
            && 0 <= l < Self::spec_ups_after_close(ts[t], s).len()
            && spec_leg_active()(Self::spec_ups_after_close(ts[t], s)[l])
            && #[trigger] Self::spec_unsub_to(e, Self::spec_ups_after_close(ts[t], s)[l])
    }

    /// Every output is an UNSUBSCRIBE that closing `s` owes one of the first
    /// `upto` routes of `ts`.
    #[verifier::opaque]
    pub open spec fn spec_close_sound(out: Seq<OutputEvent<S>>, ts: Seq<TrackRoute<S>>, upto: int, s: S) -> bool {
        forall|i: int| 0 <= i < out.len() ==> #[trigger] Self::spec_close_from(out[i], ts, upto, s)
    }

    /// Each of the first `upto` routes of `ts` that closing `s` leaves idle
    /// has each of its remaining pending or established legs sent an
    /// UNSUBSCRIBE.
    #[verifier::opaque]
    pub open spec fn spec_close_complete(out: Seq<OutputEvent<S>>, ts: Seq<TrackRoute<S>>, upto: int, s: S) -> bool {
        forall|t: int| 0 <= t < upto && #[trigger] Self::spec_idle_after_close(ts[t], s)
            ==> Self::spec_unsub_complete(out, Self::spec_ups_after_close(ts[t], s),
                Self::spec_ups_after_close(ts[t], s).len() as int, spec_leg_active())
    }

    proof fn lemma_close_start(ts: Seq<TrackRoute<S>>, s: S)
        ensures
            Self::spec_close_sound(Seq::empty(), ts, 0, s),
            Self::spec_close_complete(Seq::empty(), ts, 0, s),
    {
        reveal(Relay::spec_close_sound);
        reveal(Relay::spec_close_complete);
    }

    /// Adding what route `t` is owed.
    proof fn lemma_close_route(out: Seq<OutputEvent<S>>, more: Seq<OutputEvent<S>>, ts: Seq<TrackRoute<S>>, t: int, s: S)
        requires
            0 <= t < ts.len(),
            Self::spec_close_sound(out, ts, t, s),
            Self::spec_close_complete(out, ts, t, s),
            Self::spec_idle_after_close(ts[t], s) ==> Self::spec_unsub_sound(more, Self::spec_ups_after_close(ts[t], s),
                Self::spec_ups_after_close(ts[t], s).len() as int, spec_leg_active()),
            Self::spec_idle_after_close(ts[t], s) ==> Self::spec_unsub_complete(more, Self::spec_ups_after_close(ts[t], s),
                Self::spec_ups_after_close(ts[t], s).len() as int, spec_leg_active()),
            !Self::spec_idle_after_close(ts[t], s) ==> more.len() == 0,
        ensures
            Self::spec_close_sound(out + more, ts, t + 1, s),
            Self::spec_close_complete(out + more, ts, t + 1, s),
    {
        reveal(Relay::spec_close_sound);
        reveal(Relay::spec_close_complete);
        reveal(Relay::spec_unsub_sound);
        reveal(Relay::spec_unsub_complete);
        let o = out + more;
        let u = Self::spec_ups_after_close(ts[t], s);
        assert forall|i: int| 0 <= i < o.len() implies #[trigger] Self::spec_close_from(o[i], ts, t + 1, s) by {
            if i < out.len() {
                assert(o[i] == out[i]);
                assert(Self::spec_close_from(out[i], ts, t, s));
                let (a, l) = choose|a: int, l: int| 0 <= a < t && Self::spec_idle_after_close(ts[a], s)
                    && 0 <= l < Self::spec_ups_after_close(ts[a], s).len()
                    && spec_leg_active()(Self::spec_ups_after_close(ts[a], s)[l])
                    && #[trigger] Self::spec_unsub_to(out[i], Self::spec_ups_after_close(ts[a], s)[l]);
                assert(Self::spec_unsub_to(o[i], Self::spec_ups_after_close(ts[a], s)[l]));
            } else {
                assert(o[i] == more[i - out.len()]);
                assert(Self::spec_unsub_from(more[i - out.len()], u, u.len() as int, spec_leg_active()));
                let l = choose|l: int| 0 <= l < u.len() && spec_leg_active()(u[l]) && #[trigger] Self::spec_unsub_to(more[i - out.len()], u[l]);
                assert(Self::spec_unsub_to(o[i], Self::spec_ups_after_close(ts[t], s)[l]));
            }
        }
        assert forall|a: int| 0 <= a < t + 1 && #[trigger] Self::spec_idle_after_close(ts[a], s)
            implies Self::spec_unsub_complete(o, Self::spec_ups_after_close(ts[a], s),
                Self::spec_ups_after_close(ts[a], s).len() as int, spec_leg_active()) by {
            let w = Self::spec_ups_after_close(ts[a], s);
            assert forall|j: int| 0 <= j < w.len() && spec_leg_active()(#[trigger] w[j]) implies Self::spec_unsub_sent(o, w[j]) by {
                if a < t {
                    assert(Self::spec_unsub_sent(out, w[j]));
                    let i = choose|i: int| 0 <= i < out.len() && #[trigger] Self::spec_unsub_to(out[i], w[j]);
                    assert(o[i] == out[i]);
                    assert(Self::spec_unsub_to(o[i], w[j]));
                } else {
                    assert(Self::spec_unsub_sent(more, w[j]));
                    let i = choose|i: int| 0 <= i < more.len() && #[trigger] Self::spec_unsub_to(more[i], w[j]);
                    assert(o[out.len() + i] == more[i]);
                    assert(Self::spec_unsub_to(o[out.len() + i], w[j]));
                }
            }
        }
    }

    /// Whether `idx` holds no entry for a downstream subscription of
    /// session `s` in the first `upto` routes of `ts`.
    pub open spec fn spec_ds_index_cleared(idx: Seq<IndexEntry<S>>, ts: Seq<TrackRoute<S>>, upto: int, s: S) -> bool {
        forall|t: int, d: int| 0 <= t < upto && 0 <= d < ts[t].downstream_subs@.len()
            && (#[trigger] ts[t].downstream_subs@[d]).id.session == s
            ==> !spec_index_has(idx, s, ts[t].downstream_subs@[d].id.request_id)
    }

    /// Whether one of the first `upto` routes of `ts` has a leg to `s`.
    pub open spec fn spec_had_leg_upto(ts: Seq<TrackRoute<S>>, upto: int, s: S) -> bool {
        exists|t: int| 0 <= t < upto && #[trigger] spec_ups_has(ts[t].upstream_subs@, s)
    }

    /// What closing `session` leaves and sends: the session is gone, every
    /// leg that no subscriber needs any more is unsubscribed once, each
    /// route keeps the rest of its subscriptions and legs (those of a route
    /// left idle ended), routes left with neither are dropped, the request
    /// IDs of the session's subscriptions and legs are forgotten, and the
    /// session is taken off the publishers of its namespaces, a namespace
    /// left without one forgotten; other sessions' entries stay.
    pub open spec fn post_session_closed(pre: &Self, post: &Self, session: S, out: Seq<OutputEvent<S>>) -> bool {
        &&& !post.has_session(session)
        &&& post.sessions() == if pre.has_session(session) {
            pre.sessions().remove(pre.session_index(session))
        } else {
            pre.sessions()
        }
        &&& Self::spec_close_sound(out, pre.tracks(), pre.tracks().len() as int, session)
        &&& Self::spec_close_complete(out, pre.tracks(), pre.tracks().len() as int, session)
        &&& exists|at: Seq<(int, int)>| #[trigger] Self::spec_close_at(out, pre.tracks(), at, session)
        &&& exists|m: Seq<TrackRoute<S>>| #![trigger m.filter(Self::spec_route_in_use())]
            m.len() == pre.tracks().len()
            && (forall|t: int| 0 <= t < m.len() ==> Self::spec_route_closed(pre.tracks()[t], #[trigger] m[t], session))
            && post.tracks() == m.filter(Self::spec_route_in_use())
        &&& forall|t: int| 0 <= t < post.tracks().len() ==> !spec_ups_has((#[trigger] post.tracks()[t]).upstream_subs@, session)
            && forall|d: int| 0 <= d < post.tracks()[t].downstream_subs@.len()
                ==> (#[trigger] post.tracks()[t].downstream_subs@[d]).id.session != session
        &&& pre.has_session(session) ==> forall|j: int| 0 <= j < pre.session_state(session).published_namespaces@.len()
            ==> !post.spec_publisher_of((#[trigger] pre.session_state(session).published_namespaces@[j])@, session)
        &&& if pre.has_session(session) {
            let pn = pre.session_state(session).published_namespaces@;
            exists|m: Seq<(NamespaceKey, Vec<S>)>| #![trigger m.filter(Self::spec_entry_kept(pn))]
                m.len() == pre.publishers().len()
                && (forall|a: int| 0 <= a < m.len() ==> Self::spec_entry_closed(pre.publishers()[a], #[trigger] m[a], pn, session))
                && post.publishers() == m.filter(Self::spec_entry_kept(pn))
        } else {
            post.publishers() == pre.publishers()
        }
        &&& Self::spec_ds_index_cleared(post.downstream_index(), pre.tracks(), pre.tracks().len() as int, session)
        &&& Self::spec_had_leg_upto(pre.tracks(), pre.tracks().len() as int, session)
            ==> spec_index_free_of(post.upstream_index(), session)
    }

    #[verifier::rlimit(40)]
    fn on_session_closed(&mut self, session: S) -> (out: Vec<OutputEvent<S>>)
        requires
            old(self).wf(),
        ensures
            final(self).wf(),
            Self::post_session_closed(old(self), final(self), session, out@),
    {
        let mut out: Vec<OutputEvent<S>> = Vec::new();
        let found = self.find_session(&session);
        let ghost pubs0 = self.publishers_by_namespace@;
        let ghost mut pmid: Seq<(NamespaceKey, Vec<S>)> = pubs0;
        match found {
            Some(k) => {
                let n = self.sessions[k].published_namespaces.len();
                let ghost pn = self.sessions@[k as int].published_namespaces@;
                proof {
                    old(self).lemma_session_index(k as int);
                    assert(pn.take(0) =~= Seq::<NamespaceKey>::empty());
                }
                // Drop the session from the publishers of its namespaces.
                let mut j: usize = 0;
                while j < n
                    invariant
                        self.wf(),
                        self.sessions@ == old(self).sessions@,
                        self.tracks@ == old(self).tracks@,
                        pubs0 == old(self).publishers_by_namespace@,
                        k < self.sessions@.len(),
                        self.sessions@[k as int].id == session,
                        pn == self.sessions@[k as int].published_namespaces@,
                        n == pn.len(),
                        j <= n,
                        self.publishers_by_namespace@.len() == pubs0.len(),
                        forall|a: int| 0 <= a < pubs0.len() ==> Self::spec_entry_closed(pubs0[a],
                            #[trigger] self.publishers_by_namespace@[a], pn.take(j as int), session),
                    decreases n - j,
                {
                    let ghost before = self.publishers_by_namespace@;
                    let ghost nsj = pn[j as int]@;
                    match self.find_publishers(&self.sessions[k].published_namespaces[j]) {
                        Some(a) => {
                            remove_key_from(&mut self.publishers_by_namespace[a].1, &session);
                            proof {
                                assert forall|b: int| 0 <= b < pubs0.len() implies Self::spec_entry_closed(pubs0[b],
                                    #[trigger] self.publishers_by_namespace@[b], pn.take(j + 1), session) by {
                                    lemma_ns_listed_take(pn, j as int, pubs0[b].0@);
                                    assert(Self::spec_entry_closed(pubs0[b], before[b], pn.take(j as int), session));
                                    assert(before[b].0@ == pubs0[b].0@);
                                    if b != a {
                                        assert(self.publishers_by_namespace@[b] == before[b]);
                                        assert(before[b].0@ != before[a as int].0@);
                                    }
                                }
                            }
                        },
                        None => {
                            proof {
                                assert forall|b: int| 0 <= b < pubs0.len() implies Self::spec_entry_closed(pubs0[b],
                                    #[trigger] self.publishers_by_namespace@[b], pn.take(j + 1), session) by {
                                    lemma_ns_listed_take(pn, j as int, pubs0[b].0@);
                                    assert(Self::spec_entry_closed(pubs0[b], before[b], pn.take(j as int), session));
                                    assert(before[b].0@ == pubs0[b].0@);
                                    assert(before[b].0@ != nsj);
                                }
                            }
                        },
                    }
                    j = j + 1;
                }
                proof {
                    assert(pn.take(n as int) =~= pn);
                    pmid = self.publishers_by_namespace@;
                    assert forall|q: int| 0 <= q < n implies !self.spec_publisher_of((#[trigger] pn[q])@, session) by {
                        if self.spec_publisher_of(pn[q]@, session) {
                            let b = choose|b: int| 0 <= b < self.publishers().len() && (#[trigger] self.publishers()[b]).0@ == pn[q]@
                                && self.publishers()[b].1@.contains(session);
                            assert(Self::spec_entry_closed(pubs0[b], pmid[b], pn, session));
                            assert(pmid[b].0@ == pubs0[b].0@);
                            assert(spec_ns_listed(pn, pubs0[b].0@));
                        }
                    }
                    assert(pmid.take(0).filter(Self::spec_entry_kept(pn)) =~= Seq::<(NamespaceKey, Vec<S>)>::empty()) by {
                        reveal(Seq::filter);
                    }
                    assert(self.publishers_by_namespace@ =~= pmid.take(0).filter(Self::spec_entry_kept(pn)) + pmid.skip(0));
                }
                // Forget the namespaces left without a publisher.
                let ghost mut c: int = 0;
                let mut a: usize = 0;
                while a < self.publishers_by_namespace.len()
                    invariant
                        self.wf(),
                        self.sessions@ == old(self).sessions@,
                        self.tracks@ == old(self).tracks@,
                        k < self.sessions@.len(),
                        self.sessions@[k as int].id == session,
                        pn == self.sessions@[k as int].published_namespaces@,
                        n == pn.len(),
                        0 <= c <= pmid.len(),
                        self.publishers_by_namespace@ == pmid.take(c).filter(Self::spec_entry_kept(pn)) + pmid.skip(c),
                        a == pmid.take(c).filter(Self::spec_entry_kept(pn)).len(),
                        forall|q: int| 0 <= q < n ==> !self.spec_publisher_of((#[trigger] pn[q])@, session),
                    decreases pmid.len() - c,
                {
                    proof {
                        lemma_filter_in_place(self.publishers_by_namespace@, pmid, c, Self::spec_entry_kept(pn));
                    }
                    if self.publishers_by_namespace[a].1.len() == 0
                        && ns_listed(&self.sessions[k].published_namespaces, &self.publishers_by_namespace[a].0) {
                        let ghost mid = self.publishers_by_namespace@;
                        self.publishers_by_namespace.remove(a);
                        proof {
                            assert forall|q: int| 0 <= q < n implies !self.spec_publisher_of((#[trigger] pn[q])@, session) by {
                                if self.spec_publisher_of(pn[q]@, session) {
                                    let b = choose|b: int| 0 <= b < self.publishers().len() && (#[trigger] self.publishers()[b]).0@ == pn[q]@
                                        && self.publishers()[b].1@.contains(session);
                                    let x = if b < a { b } else { b + 1 };
                                    assert(self.publishers()[b] == mid[x]);
                                    assert(false);
                                }
                            }
                            c = c + 1;
                        }
                    } else {
                        a = a + 1;
                        proof {
                            c = c + 1;
                        }
                    }
                }
                proof {
                    lemma_filter_in_place_done(self.publishers_by_namespace@, pmid, c, Self::spec_entry_kept(pn));
                    assert(old(self).session_state(session) == old(self).sessions@[k as int]);
                }
            },
            None => {},
        }
        let ghost after_ns = *self;
        assert(old(self).has_session(session) ==> forall|q: int| 0 <= q < old(self).session_state(session).published_namespaces@.len()
            ==> !after_ns.spec_publisher_of((#[trigger] old(self).session_state(session).published_namespaces@[q])@, session));
        let nt = self.tracks.len();
        let ghost tracks0 = self.tracks@;
        let ghost pubs1 = self.publishers_by_namespace@;
        proof {
            Self::lemma_close_start(tracks0, session);
        }
        let ghost mut src: Seq<(int, int)> = Seq::empty();
        let mut ti: usize = 0;
        while ti < nt
            invariant
                self.wf(),
                self.sessions@ == old(self).sessions@,
                self.publishers_by_namespace@ == pubs1,
                tracks0 == old(self).tracks@,
                nt == self.tracks@.len(),
                nt == tracks0.len(),
                spec_unique_tracks(tracks0),
                forall|i: int| 0 <= i < self.tracks@.len() ==> (#[trigger] self.tracks@[i]).track == tracks0[i].track,
                forall|i: int| ti <= i < self.tracks@.len() ==> (#[trigger] self.tracks@[i]) == tracks0[i],
                forall|i: int| 0 <= i < ti ==> !spec_ups_has((#[trigger] self.tracks@[i]).upstream_subs@, session)
                    && forall|d: int| 0 <= d < self.tracks@[i].downstream_subs@.len()
                        ==> (#[trigger] self.tracks@[i].downstream_subs@[d]).id.session != session,
                ti <= nt,
                Self::spec_close_sound(out@, tracks0, ti as int, session),
                Self::spec_close_complete(out@, tracks0, ti as int, session),
                forall|i: int| 0 <= i < ti ==> Self::spec_route_closed(tracks0[i], #[trigger] self.tracks@[i], session),
                src.len() == out@.len(),
                forall|i: int| 0 <= i < out@.len() ==> Self::spec_close_leg(#[trigger] out@[i], tracks0, src[i], session),
                forall|i: int| 0 <= i < src.len() ==> (#[trigger] src[i]).0 < ti,
                forall|i: int, j: int| 0 <= i < j < src.len() ==> (#[trigger] src[i]).0 < (#[trigger] src[j]).0
                    || (src[i].0 == src[j].0 && src[i].1 < src[j].1),
                Self::spec_ds_index_cleared(self.downstream_request_index@, tracks0, ti as int, session),
                Self::spec_had_leg_upto(tracks0, ti as int, session) ==> spec_index_free_of(self.upstream_request_index@, session),
            decreases nt - ti,
        {
            let ghost r0 = tracks0[ti as int];
            let ghost out0 = out@;
            let ghost tr_before = self.tracks@;
            let ghost up0 = self.upstream_request_index@;
            if self.tracks[ti].find_upstream(&session).is_some() {
                self.tracks[ti].remove_upstream(&session);
                index_remove_session(&mut self.upstream_request_index, &session);
                proof {
                    lemma_index_without_session_free(up0, session, session);
                }
            } else {
                proof {
                    assert(!spec_ups_has(r0.upstream_subs@, session)) by {
                        if spec_ups_has(r0.upstream_subs@, session) {
                            let l = choose|l: int| 0 <= l < r0.upstream_subs@.len() && (#[trigger] r0.upstream_subs@[l]).publisher_session == session;
                        }
                    }
                    lemma_ups_without_same(r0.upstream_subs@, session);
                }
            }
            let removed = self.tracks[ti].remove_downstream_of_session(&session);
            proof {
                lemma_tracks_same_keys(tracks0, self.tracks@);
                lemma_ups_without_none(r0.upstream_subs@, session);
                lemma_ds_without_session_none(r0.downstream_subs@, session);
                assert(self.tracks@[ti as int].upstream_subs@ == Self::spec_ups_after_close(r0, session));
                assert(self.tracks@[ti as int].downstream_subs@ == spec_ds_without_session(r0.downstream_subs@, session));
                assert(self.tracks@[ti as int].track_extensions == r0.track_extensions);
                assert(self.tracks@[ti as int].track == r0.track);
                assert forall|i: int| 0 <= i < ti implies Self::spec_route_closed(tracks0[i], #[trigger] self.tracks@[i], session) by {
                    assert(self.tracks@[i] == tr_before[i]);
                }
                assert(tr_before[ti as int] == r0);
                assert(spec_route_unique(old(self).tracks()[ti as int]));
                lemma_ds_without_session_distinct(r0.downstream_subs@, session);
                lemma_ups_without_distinct(r0.upstream_subs@, session);
                assert(spec_route_unique(self.tracks@[ti as int]));
                lemma_routes_unique_at(tr_before, self.tracks@, ti as int);
                assert forall|i: int| ti < i < self.tracks@.len() implies (#[trigger] self.tracks@[i]) == tracks0[i] by {
                    assert(self.tracks@[i] == tr_before[i]);
                }
                assert forall|i: int| 0 <= i < ti implies !spec_ups_has((#[trigger] self.tracks@[i]).upstream_subs@, session)
                    && forall|d: int| 0 <= d < self.tracks@[i].downstream_subs@.len()
                        ==> (#[trigger] self.tracks@[i].downstream_subs@[d]).id.session != session by {
                    assert(self.tracks@[i] == tr_before[i]);
                }
            }
            let ghost tr = self.tracks@;
            let ghost up1 = self.upstream_request_index@;
            proof {
                assert(Self::spec_had_leg_upto(tracks0, ti + 1, session) ==> spec_index_free_of(up1, session)) by {
                    if Self::spec_had_leg_upto(tracks0, ti + 1, session) && !spec_ups_has(r0.upstream_subs@, session) {
                        let t = choose|t: int| 0 <= t < ti + 1 && #[trigger] spec_ups_has(tracks0[t].upstream_subs@, session);
                        assert(Self::spec_had_leg_upto(tracks0, ti as int, session));
                    }
                }
            }
            let mut r: usize = 0;
            while r < removed.len()
                invariant
                    r <= removed@.len(),
                    self.tracks@ == tr,
                    self.sessions@ == old(self).sessions@,
                    self.publishers_by_namespace@ == pubs1,
                    self.wf(),
                    self.upstream_request_index@ == up1,
                    Self::spec_ds_index_cleared(self.downstream_request_index@, tracks0, ti as int, session),
                    forall|q: int| 0 <= q < r ==> !spec_index_has(self.downstream_request_index@, session, #[trigger] removed@[q]),
                    src.len() == out@.len(),
                    forall|i: int| 0 <= i < out@.len() ==> Self::spec_close_leg(#[trigger] out@[i], tracks0, src[i], session),
                forall|i: int| 0 <= i < src.len() ==> (#[trigger] src[i]).0 < ti,
                    forall|i: int, j: int| 0 <= i < j < src.len() ==> (#[trigger] src[i]).0 < (#[trigger] src[j]).0
                        || (src[i].0 == src[j].0 && src[i].1 < src[j].1),
                decreases removed@.len() - r,
            {
                let ghost ib = self.downstream_request_index@;
                index_remove(&mut self.downstream_request_index, &session, removed[r]);
                proof {
                    lemma_index_without_absent(ib, session, removed@[r as int]);
                    assert forall|q: int| 0 <= q < r + 1 implies !spec_index_has(self.downstream_request_index@, session, #[trigger] removed@[q]) by {
                        if q < r {
                            lemma_index_without_keeps_absent(ib, session, removed@[r as int], session, removed@[q]);
                        }
                    }
                    assert forall|t: int, d: int| 0 <= t < ti && 0 <= d < tracks0[t].downstream_subs@.len()
                        && (#[trigger] tracks0[t].downstream_subs@[d]).id.session == session
                        implies !spec_index_has(self.downstream_request_index@, session, tracks0[t].downstream_subs@[d].id.request_id) by {
                        lemma_index_without_keeps_absent(ib, session, removed@[r as int], session, tracks0[t].downstream_subs@[d].id.request_id);
                    }
                }
                r = r + 1;
            }
            proof {
                assert forall|t: int, d: int| 0 <= t < ti + 1 && 0 <= d < tracks0[t].downstream_subs@.len()
                    && (#[trigger] tracks0[t].downstream_subs@[d]).id.session == session
                    implies !spec_index_has(self.downstream_request_index@, session, tracks0[t].downstream_subs@[d].id.request_id) by {
                    if t == ti {
                        lemma_ds_ids_of_session_has(r0.downstream_subs@, session, d);
                        let q = choose|q: int| 0 <= q < removed@.len() && removed@[q] == r0.downstream_subs@[d].id.request_id;
                        assert(!spec_index_has(self.downstream_request_index@, session, removed@[q]));
                    }
                }
            }
            let ghost dix = self.downstream_request_index@;
            let ghost u = Self::spec_ups_after_close(r0, session);
            if self.tracks[ti].no_active_downstream() {
                let m = self.tracks[ti].upstream_subs.len();
                proof {
                    Self::lemma_unsub_empty(u, m as int, spec_leg_active());
                    assert(Self::spec_idle_after_close(tracks0[ti as int], session));
                    assert(out@ == out0);
                    assert(out@.subrange(out0.len() as int, out@.len() as int) =~= Seq::<OutputEvent<S>>::empty());
                    assert(out@.subrange(0, out0.len() as int) =~= out0);
                }
                let ghost tr2 = self.tracks@;
                let mut li: usize = 0;
                while li < m
                    invariant
                        self.wf(),
                        self.sessions@ == old(self).sessions@,
                        self.publishers_by_namespace@ == pubs1,
                        tracks0 == old(self).tracks@,
                        ti < nt,
                        nt == self.tracks@.len(),
                        nt == tracks0.len(),
                        spec_unique_tracks(tracks0),
                        forall|i: int| 0 <= i < self.tracks@.len() ==> (#[trigger] self.tracks@[i]).track == tracks0[i].track,
                        forall|i: int| 0 <= i < self.tracks@.len() && i != ti ==> (#[trigger] self.tracks@[i]) == tr2[i],
                        self.tracks@[ti as int].downstream_subs@ == tr2[ti as int].downstream_subs@,
                        self.tracks@[ti as int].track_extensions == tr2[ti as int].track_extensions,
                        forall|l: int| 0 <= l < li ==> Self::spec_leg_ended(u[l], #[trigger] self.tracks@[ti as int].upstream_subs@[l]),
                        u == Self::spec_ups_after_close(tracks0[ti as int], session),
                        Self::spec_idle_after_close(tracks0[ti as int], session),
                        src.len() == out@.len(),
                        forall|i: int| 0 <= i < out@.len() ==> Self::spec_close_leg(#[trigger] out@[i], tracks0, src[i], session),
                        forall|i: int| 0 <= i < src.len() ==> (#[trigger] src[i]).0 < ti || (src[i].0 == ti && src[i].1 < li),
                        forall|i: int, j: int| 0 <= i < j < src.len() ==> (#[trigger] src[i]).0 < (#[trigger] src[j]).0
                            || (src[i].0 == src[j].0 && src[i].1 < src[j].1),
                        m == self.tracks@[ti as int].upstream_subs@.len(),
                        m == u.len(),
                        forall|l: int| 0 <= l < m ==> (#[trigger] self.tracks@[ti as int].upstream_subs@[l]).publisher_session == u[l].publisher_session,
                        forall|l: int| li <= l < m ==> (#[trigger] self.tracks@[ti as int].upstream_subs@[l]) == u[l],
                        li <= m,
                        out@.len() >= out0.len(),
                        out@.subrange(0, out0.len() as int) == out0,
                        Self::spec_unsub_sound(out@.subrange(out0.len() as int, out@.len() as int), u, m as int, spec_leg_active()),
                        Self::spec_unsub_complete(out@.subrange(out0.len() as int, out@.len() as int), u, li as int, spec_leg_active()),
                        self.downstream_request_index@ == dix,
                        self.upstream_request_index@ == up1,
                    decreases m - li,
                {
                    let ghost l = u[li as int];
                    let ghost more0 = out@.subrange(out0.len() as int, out@.len() as int);
                    let st = self.tracks[ti].upstream_subs[li].state;
                    if st == UpstreamSubState::Pending || st == UpstreamSubState::Established {
                        let pub_session = self.tracks[ti].upstream_subs[li].publisher_session.key_clone();
                        let req_id = self.tracks[ti].upstream_subs[li].request_id;
                        let ghost ob = out@;
                        out.push(OutputEvent::SendControlMessage {
                            session: pub_session,
                            channel: ControlChannel::ControlStream,
                            message: ControlMessage::Unsubscribe(Unsubscribe { request_id: req_id.0 }),
                        });
                        proof {
                            let e = out@[out@.len() - 1];
                            assert(Self::spec_unsub_to(e, l));
                            assert(Self::spec_close_leg(e, tracks0, (ti as int, li as int), session));
                            let src0 = src;
                            src = src.push((ti as int, li as int));
                            assert forall|i: int| 0 <= i < out@.len() implies Self::spec_close_leg(#[trigger] out@[i], tracks0, src[i], session) by {
                                if i < ob.len() {
                                    assert(out@[i] == ob[i]);
                                    assert(src[i] == src0[i]);
                                    assert(Self::spec_close_leg(ob[i], tracks0, src0[i], session));
                                }
                            }
                            assert forall|i: int| 0 <= i < src.len() implies (#[trigger] src[i]).0 < ti || (src[i].0 == ti && src[i].1 < li + 1) by {
                                if i < src0.len() {
                                    assert(src[i] == src0[i]);
                                }
                            }
                            assert forall|i: int, j: int| 0 <= i < j < src.len() implies (#[trigger] src[i]).0 < (#[trigger] src[j]).0
                                || (src[i].0 == src[j].0 && src[i].1 < src[j].1) by {
                                assert(src[i] == src0[i]);
                                if j < src0.len() {
                                    assert(src[j] == src0[j]);
                                }
                            }
                            assert(out@.subrange(out0.len() as int, out@.len() as int) =~= more0.push(e));
                            assert(out@.subrange(0, out0.len() as int) =~= out0);
                            Self::lemma_unsub_push(more0, u, m as int, li as int, spec_leg_active(), e);
                            Self::lemma_unsub_keep(more0, u, li as int, spec_leg_active(), e);
                            Self::lemma_unsub_step(more0.push(e), u, li as int, spec_leg_active());
                        }
                        let ghost tb = self.tracks@;
                        let ghost tbu = self.tracks@;
                        self.tracks[ti].upstream_subs[li].state = UpstreamSubState::Terminated;
                        proof {
                            lemma_route_unique_same_ids(tbu[ti as int], self.tracks@[ti as int]);
                            lemma_routes_unique_at(tbu, self.tracks@, ti as int);
                        }
                        proof {
                            assert forall|i: int| 0 <= i < self.tracks@.len() implies (#[trigger] self.tracks@[i]).track == tracks0[i].track by {
                                assert(self.tracks@[i].track == tb[i].track);
                            }
                            lemma_tracks_same_keys(tracks0, self.tracks@);
                            assert forall|i: int| 0 <= i < self.tracks@.len() && i != ti implies (#[trigger] self.tracks@[i]) == tr2[i] by {
                                assert(self.tracks@[i] == tb[i]);
                            }
                            assert forall|x: int| 0 <= x < m implies (#[trigger] self.tracks@[ti as int].upstream_subs@[x]).publisher_session == u[x].publisher_session by {
                                if x != li {
                                    assert(self.tracks@[ti as int].upstream_subs@[x] == tb[ti as int].upstream_subs@[x]);
                                }
                            }
                            assert forall|x: int| li + 1 <= x < m implies (#[trigger] self.tracks@[ti as int].upstream_subs@[x]) == u[x] by {
                                assert(self.tracks@[ti as int].upstream_subs@[x] == tb[ti as int].upstream_subs@[x]);
                            }
                            assert forall|x: int| 0 <= x < li + 1 implies Self::spec_leg_ended(u[x], #[trigger] self.tracks@[ti as int].upstream_subs@[x]) by {
                                if x < li {
                                    assert(self.tracks@[ti as int].upstream_subs@[x] == tb[ti as int].upstream_subs@[x]);
                                }
                            }
                        }
                    } else {
                        proof {
                            Self::lemma_unsub_step(more0, u, li as int, spec_leg_active());
                            assert(Self::spec_leg_ended(u[li as int], self.tracks@[ti as int].upstream_subs@[li as int]));
                        }
                    }
                    li = li + 1;
                }
                proof {
                    let more = out@.subrange(out0.len() as int, out@.len() as int);
                    assert(out@ =~= out0 + more);
                    assert(Self::spec_idle_after_close(r0, session));
                    Self::lemma_close_route(out0, more, tracks0, ti as int, session);
                    assert(!spec_ups_has(self.tracks@[ti as int].upstream_subs@, session)) by {
                        if spec_ups_has(self.tracks@[ti as int].upstream_subs@, session) {
                            let x = choose|x: int| 0 <= x < self.tracks@[ti as int].upstream_subs@.len()
                                && (#[trigger] self.tracks@[ti as int].upstream_subs@[x]).publisher_session == session;
                            assert(u[x].publisher_session == session);
                        }
                    }
                    assert forall|i: int| ti < i < self.tracks@.len() implies (#[trigger] self.tracks@[i]) == tracks0[i] by {
                        assert(self.tracks@[i] == tr2[i]);
                    }
                    assert(Self::spec_route_closed(tracks0[ti as int], self.tracks@[ti as int], session));
                    assert forall|i: int| 0 <= i < ti implies Self::spec_route_closed(tracks0[i], #[trigger] self.tracks@[i], session) by {
                        assert(self.tracks@[i] == tr2[i]);
                    }
                    assert forall|i: int| 0 <= i < ti implies !spec_ups_has((#[trigger] self.tracks@[i]).upstream_subs@, session)
                        && forall|d: int| 0 <= d < self.tracks@[i].downstream_subs@.len()
                            ==> (#[trigger] self.tracks@[i].downstream_subs@[d]).id.session != session by {
                        assert(self.tracks@[i] == tr2[i]);
                    }
                }
            } else {
                proof {
                    assert(out@ =~= out0 + Seq::<OutputEvent<S>>::empty());
                    Self::lemma_close_route(out0, Seq::empty(), tracks0, ti as int, session);
                    assert(Self::spec_route_closed(tracks0[ti as int], self.tracks@[ti as int], session));
                }
            }
            ti = ti + 1;
        }
        // Drop the routes nobody uses any more.
        let ghost dfin = self.downstream_request_index@;
        let ghost ufin = self.upstream_request_index@;
        let ghost tmid = self.tracks@;
        let ghost mut c: int = 0;
        proof {
            assert(tmid.take(0).filter(Self::spec_route_in_use()) =~= Seq::<TrackRoute<S>>::empty()) by {
                reveal(Seq::filter);
            }
            assert(self.tracks@ =~= tmid.take(0).filter(Self::spec_route_in_use()) + tmid.skip(0));
        }
        let mut ti: usize = 0;
        while ti < self.tracks.len()
            invariant
                self.wf(),
                self.sessions@ == old(self).sessions@,
                self.publishers_by_namespace@ == pubs1,
                self.downstream_request_index@ == dfin,
                self.upstream_request_index@ == ufin,
                0 <= c <= tmid.len(),
                self.tracks@ == tmid.take(c).filter(Self::spec_route_in_use()) + tmid.skip(c),
                ti == tmid.take(c).filter(Self::spec_route_in_use()).len(),
                ti <= self.tracks@.len(),
                forall|i: int| 0 <= i < self.tracks@.len() ==> !spec_ups_has((#[trigger] self.tracks@[i]).upstream_subs@, session)
                    && forall|d: int| 0 <= d < self.tracks@[i].downstream_subs@.len()
                        ==> (#[trigger] self.tracks@[i].downstream_subs@[d]).id.session != session,
            decreases self.tracks@.len() - ti,
        {
            proof {
                lemma_filter_in_place(self.tracks@, tmid, c, Self::spec_route_in_use());
            }
            if self.tracks[ti].downstream_subs.len() == 0 && self.tracks[ti].upstream_subs.len() == 0 {
                proof {
                    lemma_tracks_remove(self.tracks@, ti as int);
                    c = c + 1;
                }
                let ghost tb = self.tracks@;
                self.tracks.remove(ti);
                proof {
                    assert forall|i: int| 0 <= i < self.tracks@.len() implies !spec_ups_has((#[trigger] self.tracks@[i]).upstream_subs@, session)
                        && forall|d: int| 0 <= d < self.tracks@[i].downstream_subs@.len()
                            ==> (#[trigger] self.tracks@[i].downstream_subs@[d]).id.session != session by {
                        let x = if i < ti { i } else { i + 1 };
                        assert(self.tracks@[i] == tb[x]);
                    }
                }
            } else {
                ti = ti + 1;
                proof {
                    c = c + 1;
                }
            }
        }
        proof {
            lemma_filter_in_place_done(self.tracks@, tmid, c, Self::spec_route_in_use());
        }
        match found {
            Some(k) => {
                let ghost before = self.sessions@;
                self.sessions.remove(k);
                proof {
                    old(self).lemma_session_index(k as int);
                    assert(before == old(self).sessions@);
                    assert forall|i: int| 0 <= i < self.sessions@.len() implies (#[trigger] self.sessions@[i]).id != session by {
                        let x = if i < k { i } else { i + 1 };
                        assert(self.sessions@[i] == before[x]);
                        assert(x != k);
                    }
                    assert forall|i: int, j: int| 0 <= i < self.sessions@.len() && 0 <= j < self.sessions@.len() && i != j
                        implies self.sessions@[i].id != self.sessions@[j].id by {
                        let x = if i < k { i } else { i + 1 };
                        let y = if j < k { j } else { j + 1 };
                        assert(self.sessions@[i] == before[x] && self.sessions@[j] == before[y]);
                    }
                    assert forall|i: int| 0 <= i < self.sessions@.len() implies spec_session_bounded(#[trigger] self.sessions@[i])
                        && old(self).sessions().contains(self.sessions@[i]) by {
                        let x = if i < k { i } else { i + 1 };
                        assert(self.sessions@[i] == before[x]);
                    }
                }
            },
            None => {
                proof {
                    assert forall|i: int| 0 <= i < self.sessions@.len() implies
                        old(self).sessions().contains(#[trigger] self.sessions@[i]) by {
                        assert(old(self).sessions@[i] == self.sessions@[i]);
                    }
                }
            },
        }
        proof {
            if old(self).has_session(session) {
                let pn = old(self).session_state(session).published_namespaces@;
                let k = old(self).session_index(session);
                old(self).lemma_session_index(k);
                assert(pmid.filter(Self::spec_entry_kept(pn)) == self.publishers());
            }
            assert(tmid.filter(Self::spec_route_in_use()) == self.tracks());
            assert forall|i: int, j: int| 0 <= i < j < src.len() implies (#[trigger] src[i]) != (#[trigger] src[j]) by {
                assert(src[i].0 < src[j].0 || (src[i].0 == src[j].0 && src[i].1 < src[j].1));
            }
            assert(Self::spec_close_at(out@, old(self).tracks(), src, session));
        }
        proof {
            if old(self).has_session(session) {
                let pns = old(self).session_state(session).published_namespaces@;
                assert forall|q: int| 0 <= q < pns.len() implies !self.spec_publisher_of((#[trigger] pns[q])@, session) by {
                    assert(!after_ns.spec_publisher_of(pns[q]@, session));
                    if self.spec_publisher_of(pns[q]@, session) {
                        let b = choose|b: int| 0 <= b < self.publishers().len() && (#[trigger] self.publishers()[b]).0@ == pns[q]@
                            && self.publishers()[b].1@.contains(session);
                        assert(after_ns.publishers()[b] == self.publishers()[b]);
                    }
                }
            }
        }
        out
    }

    /// What an incoming control message may carry without overflowing the
    /// relay's counters: a MAX_REQUEST_ID below `u64::MAX - 1`, a
    /// SERVER_SETUP request-ID limit below `u64::MAX` (values off the wire
    /// are varints, far below both).
    pub open spec fn spec_message_bounded(msg: ControlMessage) -> bool {
        match msg {
            ControlMessage::MaxRequestId(m) => m.max_request_id < u64::MAX - 1,
            ControlMessage::ServerSetup(m) => spec_get_varint(m.parameters@, PARAM_MAX_REQUEST_ID) matches Some(v) ==> v < u64::MAX,
            _ => true,
        }
    }

    /// What an input event may carry; see `spec_message_bounded`.
    pub open spec fn spec_event_bounded(ev: InputEvent<S>) -> bool {
        match ev {
            InputEvent::ControlMessageReceived { message, .. } => Self::spec_message_bounded(message),
            _ => true,
        }
    }

    /// What `on_control_message` leaves and answers.
    pub open spec fn post_control_message(pre: &Self, post: &Self, session: S, channel: ControlChannel, msg: ControlMessage,
        out: Seq<OutputEvent<S>>) -> bool {
        if !pre.has_session(session) {
            &&& out.len() == 1
            &&& spec_is_close(out[0], session, SessionError::ProtocolViolation, "message from unknown session"@)
            &&& *post == *pre
        } else {
            match msg {
                ControlMessage::ClientSetup(m) => Self::post_client_setup(pre, post, session, channel, m, out),
                ControlMessage::ServerSetup(m) => Self::post_server_setup(pre, post, session, m, out),
                ControlMessage::MaxRequestId(m) => Self::post_max_request_id(pre, post, session, m, out),
                ControlMessage::RequestsBlocked(_) => out.len() == 0 && *post == *pre,
                ControlMessage::Goaway(m) => Self::post_goaway(pre, post, session, m, out),
                ControlMessage::PublishNamespace(m) => Self::post_publish_namespace(pre, post, session, channel, m, out),
                ControlMessage::Subscribe(m) => Self::post_subscribe(pre, post, session, channel, m, out),
                ControlMessage::SubscribeOk(m) => Self::post_subscribe_ok(pre, post, session, m, out),
                ControlMessage::RequestError(m) => Self::post_request_error(pre, post, session, m, out),
                ControlMessage::Unsubscribe(m) => Self::post_unsubscribe(pre, post, session, m, out),
                ControlMessage::PublishDone(m) => Self::post_publish_done(pre, post, session, m, out),
                _ => {
                    &&& *post == *pre
                    &&& if pre.session_state(session).setup != SetupState::SetupComplete {
                        out.len() == 1 && spec_is_close(out[0], session, SessionError::ProtocolViolation, "control message before setup complete"@)
                    } else {
                        out.len() == 0
                    }
                },
            }
        }
    }

    fn on_control_message(&mut self, session: S, channel: ControlChannel, msg: ControlMessage) -> (out: Vec<OutputEvent<S>>)
        requires
            old(self).wf(),
            old(self).alias_room(),
            Self::spec_message_bounded(msg),
        ensures
            final(self).wf(),
            Self::post_control_message(old(self), final(self), session, channel, msg, out@),
    {
        let k = match self.find_session(&session) {
            Some(k) => k,
            None => return close(session, SessionError::ProtocolViolation, "message from unknown session"),
        };
        assert(self.sessions@[k as int].id == session);
        match msg {
            ControlMessage::ClientSetup(m) => self.handle_client_setup(session, channel, m),
            ControlMessage::ServerSetup(m) => self.handle_server_setup(session, m),
            ControlMessage::MaxRequestId(m) => self.handle_max_request_id(session, m),
            ControlMessage::RequestsBlocked(m) => self.handle_requests_blocked(session, m),
            ControlMessage::Goaway(m) => self.handle_goaway(session, m),
            ControlMessage::PublishNamespace(m) => self.handle_publish_namespace(session, channel, m),
            ControlMessage::Subscribe(m) => self.handle_subscribe(session, channel, m),
            ControlMessage::SubscribeOk(m) => self.handle_subscribe_ok(session, m),
            ControlMessage::RequestError(m) => self.handle_request_error(session, m),
            ControlMessage::Unsubscribe(m) => self.handle_unsubscribe(session, m),
            ControlMessage::PublishDone(m) => self.handle_publish_done(session, m),
            _ => {
                proof {
                    self.lemma_session_index(k as int);
                }
                if self.sessions[k].setup != SetupState::SetupComplete {
                    return close(session, SessionError::ProtocolViolation, "control message before setup complete");
                }
                Vec::new()
            },
        }
    }

    /// Handles one input event and returns what to send or close.
    pub fn on_event(&mut self, ev: InputEvent<S>) -> (out: Vec<OutputEvent<S>>)
        requires
            old(self).wf(),
            old(self).alias_room(),
            Self::spec_event_bounded(ev),
        ensures
            final(self).wf(),
            match ev {
                InputEvent::SessionOpened { session, role } => {
                    &&& out@.len() == 0
                    &&& Self::post_session_opened(old(self), final(self), session, role)
                },
                InputEvent::SessionClosed { session } => Self::post_session_closed(old(self), final(self), session, out@),
                InputEvent::ControlMessageReceived { session, channel, message } =>
                    Self::post_control_message(old(self), final(self), session, channel, message, out@),
                _ => out@.len() == 0 && *final(self) == *old(self),
            },
    {
        match ev {
            InputEvent::SessionOpened { session, role } => {
                let ghost sess = session;
                let out = self.on_session_opened(session, role);
                proof {
                    let k = self.session_index(sess);
                    assert(0 <= k < self.sessions().len() && self.sessions()[k].id == sess);
                }
                out
            },
            InputEvent::SessionClosed { session } => self.on_session_closed(session),
            InputEvent::ControlMessageReceived { session, channel, message } => self.on_control_message(session, channel, message),
            InputEvent::SubscriptionObjectReceived { .. } => Vec::new(),
            InputEvent::FetchObjectReceived { .. } => Vec::new(),
        }
    }

    /// Exec test of `alias_room`: whether every session can take as many
    /// track aliases as any route has downstream subscriptions.
    pub fn has_alias_room(&self) -> (r: bool)
        ensures
            r == self.alias_room(),
    {
        let mut i: usize = 0;
        while i < self.sessions.len()
            invariant
                i <= self.sessions@.len(),
                forall|a: int| 0 <= a < i ==> (#[trigger] self.sessions@[a]).aliases.next_outbound.0 < u64::MAX,
                forall|a: int, b: int| 0 <= a < i && 0 <= b < self.tracks@.len()
                    ==> (#[trigger] self.sessions@[a]).aliases.next_outbound.0 + (#[trigger] self.tracks@[b]).downstream_subs@.len() < u64::MAX,
            decreases self.sessions@.len() - i,
        {
            let next = self.sessions[i].aliases.next_outbound.0;
            if next == u64::MAX {
                return false;
            }
            let mut j: usize = 0;
            while j < self.tracks.len()
                invariant
                    i < self.sessions@.len(),
                    next == self.sessions@[i as int].aliases.next_outbound.0,
                    j <= self.tracks@.len(),
                    forall|b: int| 0 <= b < j ==> next + (#[trigger] self.tracks@[b]).downstream_subs@.len() < u64::MAX,
                decreases self.tracks@.len() - j,
            {
                let len = self.tracks[j].downstream_subs.len() as u64;
                if next >= u64::MAX - len {
                    return false;
                }
                j = j + 1;
            }
            i = i + 1;
        }
        true
    }

    fn handle_requests_blocked(&mut self, session: S, msg: RequestsBlocked) -> (out: Vec<OutputEvent<S>>)
        ensures
            out@.len() == 0,
            *final(self) == *old(self),
    {
        Vec::new()
    }

    fn handle_goaway(&mut self, session: S, msg: Goaway) -> (out: Vec<OutputEvent<S>>)
        requires
            old(self).wf(),
            old(self).has_session(session),
        ensures
            final(self).wf(),
            Self::post_goaway(old(self), final(self), session, msg, out@),
    {
        let k = match self.find_session(&session) {
            Some(k) => k,
            None => return Vec::new(),
        };
        proof {
            self.lemma_session_index(k as int);
        }
        if self.sessions[k].goaway.received {
            return close(session, SessionError::ProtocolViolation, "duplicate GOAWAY");
        }
        self.sessions[k].goaway.received = true;
        let uri = if msg.new_session_uri.len() == 0 {
            None
        } else {
            Some(msg.new_session_uri)
        };
        self.sessions[k].goaway.new_session_uri = uri;
        proof {
            lemma_sessions_update_wf(old(self).sessions@, k as int, self.sessions@[k as int]);
        }
        Vec::new()
    }
}

/// Replacing a session by one with the same ID and bounded limits keeps
/// IDs unique and limits bounded.
proof fn lemma_sessions_update_wf<S>(ss: Seq<Session<S>>, k: int, s: Session<S>)
    requires
        spec_unique_sessions(ss),
        forall|i: int| 0 <= i < ss.len() ==> spec_session_bounded(#[trigger] ss[i]),
        0 <= k < ss.len(),
        s.id == ss[k].id,
        spec_session_bounded(s),
    ensures
        spec_unique_sessions(ss.update(k, s)),
        forall|i: int| 0 <= i < ss.len() ==> spec_session_bounded(#[trigger] ss.update(k, s)[i]),
{
    let t = ss.update(k, s);
    assert forall|i: int| 0 <= i < ss.len() implies spec_session_bounded(#[trigger] t[i]) by {
        if i != k {
            assert(t[i] == ss[i]);
        }
    }
    assert forall|i: int, j: int| 0 <= i < t.len() && 0 <= j < t.len() && i != j implies t[i].id != t[j].id by {
        assert(t[i].id == ss[i].id);
        assert(t[j].id == ss[j].id);
    }
}

/// Routes with the same tracks in the same places stay unique.
proof fn lemma_tracks_same_keys<S>(a: Seq<TrackRoute<S>>, b: Seq<TrackRoute<S>>)
    requires
        spec_unique_tracks(a),
        a.len() == b.len(),
        forall|i: int| 0 <= i < a.len() ==> (#[trigger] b[i]).track == a[i].track,
    ensures
        spec_unique_tracks(b),
{
    assert forall|i: int, j: int| 0 <= i < b.len() && 0 <= j < b.len() && i != j implies b[i].track@ != b[j].track@ by {
        assert(b[i].track == a[i].track && b[j].track == a[j].track);
    }
}

/// Whether the routes of tracks other than `key` are the same in `a` and
/// `b`.
pub open spec fn spec_tracks_kept<S>(a: Seq<TrackRoute<S>>, b: Seq<TrackRoute<S>>, key: (Seq<Seq<u8>>, Seq<u8>)) -> bool {
    &&& forall|t: int| 0 <= t < a.len() && a[t].track@ != key ==> b.contains(#[trigger] a[t])
    &&& forall|t: int| 0 <= t < b.len() && b[t].track@ != key ==> a.contains(#[trigger] b[t])
}

/// In routes with unique tracks, the route of a track is the one that
/// serves it.
proof fn lemma_route_pos<S>(ts: Seq<TrackRoute<S>>, ti: int, key: (Seq<Seq<u8>>, Seq<u8>))
    requires
        spec_unique_tracks(ts),
        0 <= ti < ts.len(),
        ts[ti].track@ == key,
    ensures
        spec_first_pos(ts, spec_route_of::<S>(key)) == ti,
{
    lemma_first_pos(ts, spec_route_of::<S>(key));
    let t = spec_first_pos(ts, spec_route_of::<S>(key));
    if t != ti {
        if t < 0 {
            assert(!spec_route_of::<S>(key)(ts[ti]));
        } else {
            assert(ts[t].track@ == key);
        }
    }
}

/// Changing or adding only the route at `ti`, which serves `key`, keeps the
/// other routes.
proof fn lemma_tracks_kept_at<S>(a: Seq<TrackRoute<S>>, b: Seq<TrackRoute<S>>, ti: int, key: (Seq<Seq<u8>>, Seq<u8>))
    requires
        b.len() == a.len() || (b.len() == a.len() + 1 && ti == a.len()),
        0 <= ti < b.len(),
        ti < a.len() ==> a[ti].track@ == key,
        b[ti].track@ == key,
        forall|t: int| 0 <= t < a.len() && t != ti ==> #[trigger] b[t] == a[t],
    ensures
        spec_tracks_kept(a, b, key),
{
    assert forall|t: int| 0 <= t < a.len() && a[t].track@ != key implies b.contains(#[trigger] a[t]) by {
        assert(b[t] == a[t]);
    }
    assert forall|t: int| 0 <= t < b.len() && b[t].track@ != key implies a.contains(#[trigger] b[t]) by {
        assert(b[t] == a[t]);
    }
}

/// Dropping the route of `key` keeps the other routes.
proof fn lemma_tracks_kept_remove<S>(a: Seq<TrackRoute<S>>, ti: int, key: (Seq<Seq<u8>>, Seq<u8>))
    requires
        0 <= ti < a.len(),
        a[ti].track@ == key,
    ensures
        spec_tracks_kept(a, a.remove(ti), key),
{
    let b = a.remove(ti);
    assert forall|t: int| 0 <= t < a.len() && a[t].track@ != key implies b.contains(#[trigger] a[t]) by {
        if t < ti {
            assert(b[t] == a[t]);
        } else {
            assert(b[t - 1] == a[t]);
        }
    }
    assert forall|t: int| 0 <= t < b.len() && b[t].track@ != key implies a.contains(#[trigger] b[t]) by {
        if t < ti {
            assert(b[t] == a[t]);
        } else {
            assert(b[t] == a[t + 1]);
        }
    }
}

proof fn lemma_tracks_kept_trans<S>(a: Seq<TrackRoute<S>>, b: Seq<TrackRoute<S>>, c: Seq<TrackRoute<S>>, key: (Seq<Seq<u8>>, Seq<u8>))
    requires
        spec_tracks_kept(a, b, key),
        spec_tracks_kept(b, c, key),
    ensures
        spec_tracks_kept(a, c, key),
{
    assert forall|t: int| 0 <= t < a.len() && a[t].track@ != key implies c.contains(#[trigger] a[t]) by {
        assert(b.contains(a[t]));
        let u = choose|u: int| 0 <= u < b.len() && b[u] == a[t];
        assert(c.contains(b[u]));
    }
    assert forall|t: int| 0 <= t < c.len() && c[t].track@ != key implies a.contains(#[trigger] c[t]) by {
        assert(b.contains(c[t]));
        let u = choose|u: int| 0 <= u < b.len() && b[u] == c[t];
        assert(a.contains(b[u]));
    }
}

/// Dropping a route keeps the others unique.
proof fn lemma_tracks_remove<S>(a: Seq<TrackRoute<S>>, k: int)
    requires
        spec_unique_tracks(a),
        0 <= k < a.len(),
    ensures
        spec_unique_tracks(a.remove(k)),
{
    let b = a.remove(k);
    assert forall|i: int, j: int| 0 <= i < b.len() && 0 <= j < b.len() && i != j implies b[i].track@ != b[j].track@ by {
        let x = if i < k { i } else { i + 1 };
        let y = if j < k { j } else { j + 1 };
        assert(b[i] == a[x] && b[j] == a[y]);
    }
}

/// Entries of a request index: (session, request ID, track).
pub type IndexEntry<S> = (S, RequestId, TrackKey);

/// `idx` without the entries of `(s, id)`.
pub open spec fn spec_index_without<S>(idx: Seq<IndexEntry<S>>, s: S, id: RequestId) -> Seq<IndexEntry<S>>
    decreases idx.len(),
{
    if idx.len() == 0 {
        Seq::empty()
    } else {
        let rest = spec_index_without(idx.drop_first(), s, id);
        if idx[0].0 == s && idx[0].1 == id {
            rest
        } else {
            seq![idx[0]] + rest
        }
    }
}

/// `idx` without the entries of session `s`.
pub open spec fn spec_index_without_session<S>(idx: Seq<IndexEntry<S>>, s: S) -> Seq<IndexEntry<S>>
    decreases idx.len(),
{
    if idx.len() == 0 {
        Seq::empty()
    } else {
        let rest = spec_index_without_session(idx.drop_first(), s);
        if idx[0].0 == s {
            rest
        } else {
            seq![idx[0]] + rest
        }
    }
}

/// Test of an index entry for `(s, id)`.
pub open spec fn spec_entry_is<S>(s: S, id: RequestId) -> spec_fn(IndexEntry<S>) -> bool {
    |e: IndexEntry<S>| e.0 == s && e.1 == id
}

/// The track that `(s, id)` was recorded for: that of its first entry.
pub open spec fn spec_index_track<S>(idx: Seq<IndexEntry<S>>, s: S, id: RequestId) -> Option<TrackKey> {
    let i = spec_first_pos(idx, spec_entry_is(s, id));
    if i < 0 { None } else { Some(idx[i].2) }
}

/// Test of the route of track `key`.
pub open spec fn spec_route_of<S>(key: (Seq<Seq<u8>>, Seq<u8>)) -> spec_fn(TrackRoute<S>) -> bool {
    |t: TrackRoute<S>| t.track@ == key
}

/// Whether `idx` has an entry for `(s, id)`.
pub open spec fn spec_index_has<S>(idx: Seq<IndexEntry<S>>, s: S, id: RequestId) -> bool {
    exists|i: int| 0 <= i < idx.len() && (#[trigger] idx[i]).0 == s && idx[i].1 == id
}

proof fn lemma_index_without_absent<S>(idx: Seq<IndexEntry<S>>, s: S, id: RequestId)
    ensures
        !spec_index_has(spec_index_without(idx, s, id), s, id),
        forall|i: int| 0 <= i < spec_index_without(idx, s, id).len()
            ==> idx.contains(#[trigger] spec_index_without(idx, s, id)[i]),
    decreases idx.len(),
{
    if idx.len() > 0 {
        lemma_index_without_absent(idx.drop_first(), s, id);
        let rest = spec_index_without(idx.drop_first(), s, id);
        let r = spec_index_without(idx, s, id);
        assert forall|i: int| 0 <= i < r.len() implies idx.contains(#[trigger] r[i]) by {
            if !(idx[0].0 == s && idx[0].1 == id) && i == 0 {
                assert(idx[0] == r[0]);
            } else {
                let j = if idx[0].0 == s && idx[0].1 == id { i } else { i - 1 };
                assert(r[i] == rest[j]);
                let k = choose|k: int| 0 <= k < idx.drop_first().len() && idx.drop_first()[k] == rest[j];
                assert(idx[k + 1] == r[i]);
            }
        }
        if spec_index_has(r, s, id) {
            let i = choose|i: int| 0 <= i < r.len() && (#[trigger] r[i]).0 == s && r[i].1 == id;
            if idx[0].0 == s && idx[0].1 == id {
                assert(rest[i] == r[i]);
            } else {
                assert(i != 0);
                assert(rest[i - 1] == r[i]);
            }
        }
    }
}

/// Whether no entry of `idx` is for session `s`.
pub open spec fn spec_index_free_of<S>(idx: Seq<IndexEntry<S>>, s: S) -> bool {
    forall|i: int| 0 <= i < idx.len() ==> (#[trigger] idx[i]).0 != s
}

/// Whether `idx` records `(s, rid)` for track `key`.
pub open spec fn spec_index_names<S>(idx: Seq<IndexEntry<S>>, s: S, rid: u64, key: (Seq<Seq<u8>>, Seq<u8>)) -> bool {
    spec_index_track(idx, s, RequestId(rid)) matches Some(tk) && tk@ == key
}

proof fn lemma_index_without_first<S>(idx: Seq<IndexEntry<S>>, s: S, id: RequestId, s2: S, id2: RequestId)
    requires
        !(s2 == s && id2 == id),
    ensures
        spec_index_track(spec_index_without(idx, s, id), s2, id2) == spec_index_track(idx, s2, id2),
    decreases idx.len(),
{
    let w = spec_index_without(idx, s, id);
    lemma_first_pos(idx, spec_entry_is(s2, id2));
    lemma_first_pos(w, spec_entry_is(s2, id2));
    if idx.len() > 0 {
        let rest = idx.drop_first();
        lemma_index_without_first(rest, s, id, s2, id2);
        assert(idx =~= seq![idx[0]] + rest);
        lemma_first_pos_cons(idx[0], rest, spec_entry_is(s2, id2));
        lemma_first_pos(rest, spec_entry_is(s2, id2));
        let wr = spec_index_without(rest, s, id);
        lemma_first_pos(wr, spec_entry_is(s2, id2));
        let ar = spec_first_pos(rest, spec_entry_is(s2, id2));
        let br = spec_first_pos(wr, spec_entry_is(s2, id2));
        if idx[0].0 == s && idx[0].1 == id {
            assert(w == wr);
            if ar >= 0 {
                assert(idx[ar + 1] == rest[ar]);
            }
        } else {
            assert(w == seq![idx[0]] + wr);
            lemma_first_pos_cons(idx[0], wr, spec_entry_is(s2, id2));
            if !(idx[0].0 == s2 && idx[0].1 == id2) {
                if ar >= 0 {
                    assert(idx[ar + 1] == rest[ar]);
                }
                if br >= 0 {
                    assert(w[br + 1] == wr[br]);
                }
            } else {
                assert(w[0] == idx[0]);
            }
        }
    }
}

/// Recording `(s, id) -> tk` names `tk` for `(s, id)` and leaves every
/// other request as it was.
proof fn lemma_index_insert_track<S>(idx: Seq<IndexEntry<S>>, s: S, id: RequestId, tk: TrackKey, s2: S, id2: RequestId)
    ensures
        spec_index_track(spec_index_without(idx, s, id).push((s, id, tk)), s, id) == Some(tk),
        !(s2 == s && id2 == id) ==> spec_index_track(spec_index_without(idx, s, id).push((s, id, tk)), s2, id2)
            == spec_index_track(idx, s2, id2),
{
    let w = spec_index_without(idx, s, id);
    let e = (s, id, tk);
    lemma_index_without_absent(idx, s, id);
    lemma_first_pos(w, spec_entry_is(s, id));
    if spec_first_pos(w, spec_entry_is(s, id)) >= 0 {
        let q = spec_first_pos(w, spec_entry_is(s, id));
        assert(w[q].0 == s && w[q].1 == id);
    }
    lemma_first_pos_push(w, e, spec_entry_is(s, id));
    assert(w.push(e)[w.len() as int] == e);
    if !(s2 == s && id2 == id) {
        lemma_index_without_first(idx, s, id, s2, id2);
        lemma_first_pos_push(w, e, spec_entry_is(s2, id2));
        lemma_first_pos(w, spec_entry_is(s2, id2));
        let b = spec_first_pos(w, spec_entry_is(s2, id2));
        if b >= 0 {
            assert(w.push(e)[b] == w[b]);
        }
    }
}

proof fn lemma_index_without_session_free<S>(idx: Seq<IndexEntry<S>>, s: S, s2: S)
    requires
        s2 == s || spec_index_free_of(idx, s2),
    ensures
        spec_index_free_of(spec_index_without_session(idx, s), s2),
    decreases idx.len(),
{
    if idx.len() > 0 {
        if s2 != s {
            assert forall|i: int| 0 <= i < idx.drop_first().len() implies (#[trigger] idx.drop_first()[i]).0 != s2 by {
                assert(idx.drop_first()[i] == idx[i + 1]);
            }
        }
        lemma_index_without_session_free(idx.drop_first(), s, s2);
        let rest = spec_index_without_session(idx.drop_first(), s);
        let w = spec_index_without_session(idx, s);
        assert forall|i: int| 0 <= i < w.len() implies (#[trigger] w[i]).0 != s2 by {
            if idx[0].0 == s {
                assert(w[i] == rest[i]);
            } else if i == 0 {
                assert(w[0] == idx[0]);
            } else {
                assert(w[i] == rest[i - 1]);
            }
        }
    }
}

proof fn lemma_index_without_keeps_absent<S>(idx: Seq<IndexEntry<S>>, s: S, id: RequestId, s2: S, id2: RequestId)
    requires
        !spec_index_has(idx, s2, id2),
    ensures
        !spec_index_has(spec_index_without(idx, s, id), s2, id2),
{
    lemma_index_without_absent(idx, s, id);
    let r = spec_index_without(idx, s, id);
    if spec_index_has(r, s2, id2) {
        let i = choose|i: int| 0 <= i < r.len() && (#[trigger] r[i]).0 == s2 && r[i].1 == id2;
        assert(idx.contains(r[i]));
        let k = choose|k: int| 0 <= k < idx.len() && idx[k] == r[i];
        assert(idx[k].0 == s2 && idx[k].1 == id2);
    }
}

/// Position of the entry of `(s, id)`.
fn index_find<S: SessionKey>(idx: &Vec<IndexEntry<S>>, s: &S, id: RequestId) -> (r: Option<usize>)
    ensures
        r matches Some(i) ==> i < idx@.len() && idx@[i as int].0 == *s && idx@[i as int].1 == id,
        r is None ==> !spec_index_has(idx@, *s, id),
        match r {
            Some(i) => spec_first_pos(idx@, spec_entry_is(*s, id)) == i,
            None => spec_first_pos(idx@, spec_entry_is(*s, id)) < 0,
        },
{
    proof {
        lemma_first_pos(idx@, spec_entry_is(*s, id));
    }
    let mut i: usize = 0;
    while i < idx.len()
        invariant
            i <= idx@.len(),
            forall|j: int| 0 <= j < i ==> !((#[trigger] idx@[j]).0 == *s && idx@[j].1 == id),
        decreases idx@.len() - i,
    {
        if idx[i].0.key_eq(s) && idx[i].1 == id {
            proof {
                lemma_first_pos_at(idx@, spec_entry_is(*s, id), i as int);
            }
            return Some(i);
        }
        i = i + 1;
    }
    None
}

/// Drops the entries of `(s, id)`.
fn index_remove<S: SessionKey>(idx: &mut Vec<IndexEntry<S>>, s: &S, id: RequestId)
    ensures
        final(idx)@ == spec_index_without(old(idx)@, *s, id),
{
    let ghost orig = idx@;
    let mut i: usize = 0;
    assert(idx@.skip(0) =~= idx@);
    assert(idx@.take(0) =~= Seq::<IndexEntry<S>>::empty());
    while i < idx.len()
        invariant
            i <= idx@.len(),
            spec_index_without(orig, *s, id) == idx@.take(i as int) + spec_index_without(idx@.skip(i as int), *s, id),
        decreases idx@.len() - i,
    {
        let ghost before = idx@;
        assert(before.skip(i as int).drop_first() =~= before.skip(i + 1));
        assert(before.skip(i as int)[0] == before[i as int]);
        if idx[i].0.key_eq(s) && idx[i].1 == id {
            idx.remove(i);
            assert(idx@.take(i as int) =~= before.take(i as int));
            assert(idx@.skip(i as int) =~= before.skip(i + 1));
        } else {
            assert(before.take(i + 1) =~= before.take(i as int) + seq![before[i as int]]);
            i = i + 1;
            assert(before.take(i as int) + spec_index_without(before.skip(i as int), *s, id)
                =~= before.take(i - 1) + (seq![before[i - 1]] + spec_index_without(before.skip(i as int), *s, id)));
        }
    }
    assert(idx@.skip(i as int) =~= Seq::<IndexEntry<S>>::empty());
    assert(idx@.take(i as int) =~= idx@);
    assert(idx@ + Seq::<IndexEntry<S>>::empty() =~= idx@);
}

/// Drops the entries of session `s`.
fn index_remove_session<S: SessionKey>(idx: &mut Vec<IndexEntry<S>>, s: &S)
    ensures
        final(idx)@ == spec_index_without_session(old(idx)@, *s),
{
    let ghost orig = idx@;
    let mut i: usize = 0;
    assert(idx@.skip(0) =~= idx@);
    assert(idx@.take(0) =~= Seq::<IndexEntry<S>>::empty());
    while i < idx.len()
        invariant
            i <= idx@.len(),
            spec_index_without_session(orig, *s) == idx@.take(i as int) + spec_index_without_session(idx@.skip(i as int), *s),
        decreases idx@.len() - i,
    {
        let ghost before = idx@;
        assert(before.skip(i as int).drop_first() =~= before.skip(i + 1));
        assert(before.skip(i as int)[0] == before[i as int]);
        if idx[i].0.key_eq(s) {
            idx.remove(i);
            assert(idx@.take(i as int) =~= before.take(i as int));
            assert(idx@.skip(i as int) =~= before.skip(i + 1));
        } else {
            assert(before.take(i + 1) =~= before.take(i as int) + seq![before[i as int]]);
            i = i + 1;
            assert(before.take(i as int) + spec_index_without_session(before.skip(i as int), *s)
                =~= before.take(i - 1) + (seq![before[i - 1]] + spec_index_without_session(before.skip(i as int), *s)));
        }
    }
    assert(idx@.skip(i as int) =~= Seq::<IndexEntry<S>>::empty());
    assert(idx@.take(i as int) =~= idx@);
    assert(idx@ + Seq::<IndexEntry<S>>::empty() =~= idx@);
}

/// Records `(s, id) -> track`, replacing an earlier entry of `(s, id)`.
fn index_insert<S: SessionKey>(idx: &mut Vec<IndexEntry<S>>, s: S, id: RequestId, track: TrackKey)
    ensures
        final(idx)@ == spec_index_without(old(idx)@, s, id).push((s, id, track)),
{
    index_remove(idx, &s, id);
    idx.push((s, id, track));
}

/// Drops every copy of `x` from `v`.
fn remove_key_from<S: SessionKey>(v: &mut Vec<S>, x: &S)
    ensures
        !final(v)@.contains(*x),
        forall|y: S| final(v)@.contains(y) ==> old(v)@.contains(y),
        forall|y: S| old(v)@.contains(y) && y != *x ==> final(v)@.contains(y),
        old(v)@.no_duplicates() ==> final(v)@.no_duplicates(),
{
    let mut i: usize = 0;
    while i < v.len()
        invariant
            i <= v@.len(),
            forall|j: int| 0 <= j < i ==> v@[j] != *x,
            forall|y: S| v@.contains(y) ==> old(v)@.contains(y),
            forall|y: S| old(v)@.contains(y) && y != *x ==> v@.contains(y),
            old(v)@.no_duplicates() ==> v@.no_duplicates(),
        decreases v@.len() - i,
    {
        if v[i].key_eq(x) {
            let ghost before = v@;
            v.remove(i);
            assert(before.no_duplicates() ==> v@.no_duplicates()) by {
                if before.no_duplicates() {
                    assert forall|p: int, q: int| 0 <= p < v@.len() && 0 <= q < v@.len() && p != q implies v@[p] != v@[q] by {
                        let pp = if p < i { p } else { p + 1 };
                        let qq = if q < i { q } else { q + 1 };
                        assert(v@[p] == before[pp] && v@[q] == before[qq]);
                    }
                }
            }
            assert forall|y: S| v@.contains(y) implies old(v)@.contains(y) by {
                let q = choose|q: int| 0 <= q < v@.len() && v@[q] == y;
                if q < i {
                    assert(before[q] == y);
                } else {
                    assert(before[q + 1] == y);
                }
                assert(before.contains(y));
            }
            assert forall|y: S| old(v)@.contains(y) && y != *x implies v@.contains(y) by {
                assert(before.contains(y));
                let q = choose|q: int| 0 <= q < before.len() && before[q] == y;
                assert(q != i);
                if q < i {
                    assert(v@[q] == y);
                } else {
                    assert(v@[q - 1] == y);
                }
            }
        } else {
            i = i + 1;
        }
    }
}

/// How many of the first `upto` outputs go to session `x`.
pub open spec fn spec_count_to<S>(out: Seq<OutputEvent<S>>, upto: int, x: S) -> nat
    decreases upto,
{
    if upto <= 0 {
        0
    } else {
        spec_count_to(out, upto - 1, x) + if out[upto - 1]->SendControlMessage_session == x { 1nat } else { 0nat }
    }
}

/// Counting over a prefix does not look past it.
proof fn lemma_count_to_push<S>(out: Seq<OutputEvent<S>>, e: OutputEvent<S>, upto: int, x: S)
    requires
        0 <= upto <= out.len(),
    ensures
        spec_count_to(out.push(e), upto, x) == spec_count_to(out, upto, x),
    decreases upto,
{
    if upto > 0 {
        lemma_count_to_push(out, e, upto - 1, x);
        assert(out.push(e)[upto - 1] == out[upto - 1]);
    }
}

/// Counting grows with the prefix.
proof fn lemma_count_to_mono<S>(out: Seq<OutputEvent<S>>, a: int, b: int, x: S)
    requires
        0 <= a <= b,
    ensures
        spec_count_to(out, a, x) <= spec_count_to(out, b, x),
    decreases b - a,
{
    if a < b {
        lemma_count_to_mono(out, a, b - 1, x);
    }
}

/// Whether `k` is one of the namespaces of `pn`.
pub open spec fn spec_ns_listed(pn: Seq<NamespaceKey>, k: Seq<Seq<u8>>) -> bool {
    exists|q: int| 0 <= q < pn.len() && (#[trigger] pn[q])@ == k
}

proof fn lemma_ns_listed_take(pn: Seq<NamespaceKey>, j: int, k: Seq<Seq<u8>>)
    requires
        0 <= j < pn.len(),
    ensures
        spec_ns_listed(pn.take(j + 1), k) == (spec_ns_listed(pn.take(j), k) || pn[j]@ == k),
{
    if spec_ns_listed(pn.take(j + 1), k) {
        let q = choose|q: int| 0 <= q < j + 1 && (#[trigger] pn.take(j + 1)[q])@ == k;
        if q < j {
            assert(pn.take(j)[q] == pn[q]);
        }
    }
    if spec_ns_listed(pn.take(j), k) {
        let q = choose|q: int| 0 <= q < j && (#[trigger] pn.take(j)[q])@ == k;
        assert(pn.take(j + 1)[q] == pn[q]);
    }
    if pn[j]@ == k {
        assert(pn.take(j + 1)[j] == pn[j]);
    }
}

/// Whether `k` is one of the namespaces of `pn`.
fn ns_listed(pn: &Vec<NamespaceKey>, k: &NamespaceKey) -> (r: bool)
    ensures
        r == spec_ns_listed(pn@, k@),
{
    let mut i: usize = 0;
    while i < pn.len()
        invariant
            i <= pn@.len(),
            forall|q: int| 0 <= q < i ==> (#[trigger] pn@[q])@ != k@,
        decreases pn@.len() - i,
    {
        if pn[i].same(k) {
            assert(pn@[i as int]@ == k@);
            return true;
        }
        i = i + 1;
    }
    false
}

/// One more element of `mid` looked at by a filter done in place: `cur`
/// holds the kept ones of the first `c`, then the rest.
proof fn lemma_filter_in_place<T>(cur: Seq<T>, mid: Seq<T>, c: int, pred: spec_fn(T) -> bool)
    requires
        0 <= c <= mid.len(),
        cur == mid.take(c).filter(pred) + mid.skip(c),
        mid.take(c).filter(pred).len() < cur.len(),
    ensures
        c < mid.len(),
        cur[mid.take(c).filter(pred).len() as int] == mid[c],
        pred(mid[c]) ==> cur == mid.take(c + 1).filter(pred) + mid.skip(c + 1)
            && mid.take(c + 1).filter(pred).len() == mid.take(c).filter(pred).len() + 1,
        !pred(mid[c]) ==> cur.remove(mid.take(c).filter(pred).len() as int) == mid.take(c + 1).filter(pred) + mid.skip(c + 1)
            && mid.take(c + 1).filter(pred).len() == mid.take(c).filter(pred).len(),
{
    let f = mid.take(c).filter(pred);
    assert(mid.take(c + 1).drop_last() =~= mid.take(c));
    assert(mid.take(c + 1).filter(pred) == if pred(mid[c]) { f.push(mid[c]) } else { f }) by {
        reveal(Seq::filter);
    }
    assert(mid.skip(c)[0] == mid[c]);
    if pred(mid[c]) {
        assert(cur =~= f.push(mid[c]) + mid.skip(c + 1));
    } else {
        assert(cur.remove(f.len() as int) =~= f + mid.skip(c + 1));
    }
}

/// A filter done in place is over once every element was looked at.
proof fn lemma_filter_in_place_done<T>(cur: Seq<T>, mid: Seq<T>, c: int, pred: spec_fn(T) -> bool)
    requires
        0 <= c <= mid.len(),
        cur == mid.take(c).filter(pred) + mid.skip(c),
        mid.take(c).filter(pred).len() >= cur.len(),
    ensures
        c == mid.len(),
        cur == mid.filter(pred),
{
    assert(mid.take(mid.len() as int) =~= mid);
    assert(cur =~= mid.take(c).filter(pred));
}

/// Whether `v` holds `x`.
fn contains_key<S: SessionKey>(v: &Vec<S>, x: &S) -> (r: bool)
    ensures
        r == v@.contains(*x),
{
    let mut i: usize = 0;
    while i < v.len()
        invariant
            i <= v@.len(),
            forall|j: int| 0 <= j < i ==> v@[j] != *x,
        decreases v@.len() - i,
    {
        if v[i].key_eq(x) {
            assert(v@[i as int] == *x);
            return true;
        }
        i = i + 1;
    }
    false
}

/// A one-event output.
fn one<T>(x: T) -> (r: Vec<T>)
    ensures
        r@ == seq![x],
{
    let mut v = Vec::new();
    v.push(x);
    assert(v@ =~= seq![x]);
    v
}

/// The output that closes `session` with `error`.
fn close<S>(session: S, error: SessionError, reason: &str) -> (r: Vec<OutputEvent<S>>)
    ensures
        r@.len() == 1,
        spec_is_close(r@[0], session, error, reason@),
{
    one(OutputEvent::CloseSession { session, error, reason: reason.to_owned() })
}

} // verus!
