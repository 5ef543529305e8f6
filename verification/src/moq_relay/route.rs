//! Per-track aggregation of the relay: the downstream subscriptions of a
//! track and the upstream legs that feed it.
use vstd::prelude::*;
use crate::moq_protocol::params::Parameters;
use crate::moq_protocol::types::KeyValuePair;
use crate::moq_relay::types::{RequestId, SessionKey, TrackAlias, TrackKey};
use crate::first_pos::{spec_first_pos, lemma_first_pos, lemma_first_pos_at, lemma_first_pos_cons, lemma_first_pos_push};

verus! {

#[derive(Debug, Clone, Copy, PartialEq, Eq, Structural)]
pub enum DownstreamSubState {
    /// Waiting for a first upstream SUBSCRIBE_OK.
    Pending,
    /// SUBSCRIBE_OK sent downstream.
    Established,
    /// Ended: UNSUBSCRIBE received, REQUEST_ERROR sent or PUBLISH_DONE forwarded.
    Terminated,
}

#[derive(Debug, Clone, Copy, PartialEq, Eq, Structural)]
pub enum UpstreamSubState {
    /// SUBSCRIBE sent upstream, no answer yet.
    Pending,
    /// SUBSCRIBE_OK received from the publisher.
    Established,
    /// Ended: REQUEST_ERROR received, UNSUBSCRIBE sent or PUBLISH_DONE received.
    Terminated,
}

/// A downstream subscription: the subscriber's session and request ID.
#[derive(Debug, Clone, PartialEq, Eq, Hash)]
pub struct SubscriptionId<S> {
    pub session: S,
    pub request_id: RequestId,
}

#[derive(Debug)]
pub struct DownstreamSubscription<S> {
    pub id: SubscriptionId<S>,
    pub state: DownstreamSubState,
    pub requested_parameters: Parameters,
    /// Whether an upstream SUBSCRIBE_OK is still to be passed on.
    pub forward_desired: bool,
    /// Track alias allocated for sending objects to this subscriber.
    pub outbound_alias: Option<TrackAlias>,
}

/// One upstream subscription per publisher session and track.
#[derive(Debug)]
pub struct UpstreamSubscriptionLeg<S> {
    pub publisher_session: S,
    /// Request ID the relay chose for the upstream SUBSCRIBE.
    pub request_id: RequestId,
    pub state: UpstreamSubState,
    /// Track alias the publisher assigned in SUBSCRIBE_OK.
    pub inbound_alias: Option<TrackAlias>,
    /// Whether this leg currently forwards data.
    pub forward_current: bool,
}

#[derive(Debug)]
pub struct TrackRoute<S> {
    pub track: TrackKey,
    pub downstream_subs: Vec<DownstreamSubscription<S>>,
    pub upstream_subs: Vec<UpstreamSubscriptionLeg<S>>,
    pub track_extensions: Option<Vec<KeyValuePair>>,
}

/// Whether every upstream leg has ended, and there is at least one.
pub open spec fn spec_all_upstream_terminated<S>(ups: Seq<UpstreamSubscriptionLeg<S>>) -> bool {
    ups.len() > 0 && forall|i: int| 0 <= i < ups.len() ==> (#[trigger] ups[i]).state == UpstreamSubState::Terminated
}

/// Whether no downstream subscription is pending or established.
pub open spec fn spec_no_active_downstream<S>(ds: Seq<DownstreamSubscription<S>>) -> bool {
    forall|i: int| 0 <= i < ds.len() ==> (#[trigger] ds[i]).state == DownstreamSubState::Terminated
}

/// Whether some upstream leg is established.
pub open spec fn spec_has_established_upstream<S>(ups: Seq<UpstreamSubscriptionLeg<S>>) -> bool {
    exists|i: int| 0 <= i < ups.len() && (#[trigger] ups[i]).state == UpstreamSubState::Established
}

impl<S> TrackRoute<S> {
    pub fn new(track: TrackKey) -> (r: Self)
        ensures
            r.track == track,
            r.downstream_subs@.len() == 0,
            r.upstream_subs@.len() == 0,
            r.track_extensions is None,
    {
        TrackRoute { track, downstream_subs: Vec::new(), upstream_subs: Vec::new(), track_extensions: None }
    }

    /// True if all upstream legs are terminated (and there is at least one).
    pub fn all_upstream_terminated(&self) -> (r: bool)
        ensures
            r == spec_all_upstream_terminated(self.upstream_subs@),
    {
        if self.upstream_subs.len() == 0 {
            return false;
        }
        let mut i: usize = 0;
        while i < self.upstream_subs.len()
            invariant
                i <= self.upstream_subs@.len(),
                forall|j: int| 0 <= j < i ==> (#[trigger] self.upstream_subs@[j]).state == UpstreamSubState::Terminated,
            decreases self.upstream_subs@.len() - i,
        {
            if self.upstream_subs[i].state != UpstreamSubState::Terminated {
                return false;
            }
            i = i + 1;
        }
        true
    }

    /// True if no downstream subscription is pending or established.
    pub fn no_active_downstream(&self) -> (r: bool)
        ensures
            r == spec_no_active_downstream(self.downstream_subs@),
    {
        let mut i: usize = 0;
        while i < self.downstream_subs.len()
            invariant
                i <= self.downstream_subs@.len(),
                forall|j: int| 0 <= j < i ==> (#[trigger] self.downstream_subs@[j]).state == DownstreamSubState::Terminated,
            decreases self.downstream_subs@.len() - i,
        {
            let st = self.downstream_subs[i].state;
            if st == DownstreamSubState::Pending || st == DownstreamSubState::Established {
                return false;
            }
            i = i + 1;
        }
        true
    }

    /// True if at least one upstream leg is established.
    pub fn has_established_upstream(&self) -> (r: bool)
        ensures
            r == spec_has_established_upstream(self.upstream_subs@),
    {
        let mut i: usize = 0;
        while i < self.upstream_subs.len()
            invariant
                i <= self.upstream_subs@.len(),
                forall|j: int| 0 <= j < i ==> (#[trigger] self.upstream_subs@[j]).state != UpstreamSubState::Established,
            decreases self.upstream_subs@.len() - i,
        {
            if self.upstream_subs[i].state == UpstreamSubState::Established {
                return true;
            }
            i = i + 1;
        }
        false
    }
}

/// Test of the upstream leg to publisher `s`.
pub open spec fn spec_leg_of<S>(s: S) -> spec_fn(UpstreamSubscriptionLeg<S>) -> bool {
    |l: UpstreamSubscriptionLeg<S>| l.publisher_session == s
}

/// `ups` with the first leg to publisher `s` ended.
pub open spec fn spec_end_leg<S>(ups: Seq<UpstreamSubscriptionLeg<S>>, s: S) -> Seq<UpstreamSubscriptionLeg<S>> {
    let l = spec_first_pos(ups, spec_leg_of(s));
    if l < 0 { ups } else { ups.update(l, UpstreamSubscriptionLeg { state: UpstreamSubState::Terminated, ..ups[l] }) }
}

/// Test of a pending downstream subscription.
pub open spec fn spec_is_pending<S>() -> spec_fn(DownstreamSubscription<S>) -> bool {
    |d: DownstreamSubscription<S>| d.state == DownstreamSubState::Pending
}

/// Test of an established downstream subscription.
pub open spec fn spec_is_established<S>() -> spec_fn(DownstreamSubscription<S>) -> bool {
    |d: DownstreamSubscription<S>| d.state == DownstreamSubState::Established
}

/// Test of the subscriptions PUBLISH_DONE answers: the established ones,
/// and the pending ones once every upstream leg has ended.
pub open spec fn spec_done_sel<S>(all_ended: bool) -> spec_fn(DownstreamSubscription<S>) -> bool {
    |d: DownstreamSubscription<S>| d.state == DownstreamSubState::Established
        || (all_ended && d.state == DownstreamSubState::Pending)
}

/// Test of the downstream subscription `id`.
pub open spec fn spec_ds_is<S>(id: SubscriptionId<S>) -> spec_fn(DownstreamSubscription<S>) -> bool {
    |d: DownstreamSubscription<S>| d.id == id
}

/// `ds` with the first subscription of id `id` ended.
pub open spec fn spec_end_ds<S>(ds: Seq<DownstreamSubscription<S>>, id: SubscriptionId<S>) -> Seq<DownstreamSubscription<S>> {
    let p = spec_first_pos(ds, spec_ds_is(id));
    if p < 0 { ds } else { ds.update(p, DownstreamSubscription { state: DownstreamSubState::Terminated, ..ds[p] }) }
}

/// Test of a pending or established upstream leg.
pub open spec fn spec_leg_active<S>() -> spec_fn(UpstreamSubscriptionLeg<S>) -> bool {
    |l: UpstreamSubscriptionLeg<S>| l.state == UpstreamSubState::Pending || l.state == UpstreamSubState::Established
}

/// Whether some leg of `ups` leads to publisher `s`.
pub open spec fn spec_ups_has<S>(ups: Seq<UpstreamSubscriptionLeg<S>>, s: S) -> bool {
    exists|l: int| 0 <= l < ups.len() && (#[trigger] ups[l]).publisher_session == s
}

/// `ds` without the subscriptions of id `id`.
pub open spec fn spec_ds_without<S>(ds: Seq<DownstreamSubscription<S>>, id: SubscriptionId<S>) -> Seq<DownstreamSubscription<S>>
    decreases ds.len(),
{
    if ds.len() == 0 {
        Seq::empty()
    } else {
        let rest = spec_ds_without(ds.drop_first(), id);
        if ds[0].id == id {
            rest
        } else {
            seq![ds[0]] + rest
        }
    }
}

/// `ds` without the subscriptions of session `s`.
pub open spec fn spec_ds_without_session<S>(ds: Seq<DownstreamSubscription<S>>, s: S) -> Seq<DownstreamSubscription<S>>
    decreases ds.len(),
{
    if ds.len() == 0 {
        Seq::empty()
    } else {
        let rest = spec_ds_without_session(ds.drop_first(), s);
        if ds[0].id.session == s {
            rest
        } else {
            seq![ds[0]] + rest
        }
    }
}

/// Request IDs of the subscriptions of session `s`, in order.
pub open spec fn spec_ds_ids_of_session<S>(ds: Seq<DownstreamSubscription<S>>, s: S) -> Seq<RequestId>
    decreases ds.len(),
{
    if ds.len() == 0 {
        Seq::empty()
    } else {
        let rest = spec_ds_ids_of_session(ds.drop_first(), s);
        if ds[0].id.session == s {
            seq![ds[0].id.request_id] + rest
        } else {
            rest
        }
    }
}

/// `ups` without the legs of publisher `s`.
pub open spec fn spec_ups_without<S>(ups: Seq<UpstreamSubscriptionLeg<S>>, s: S) -> Seq<UpstreamSubscriptionLeg<S>>
    decreases ups.len(),
{
    if ups.len() == 0 {
        Seq::empty()
    } else {
        let rest = spec_ups_without(ups.drop_first(), s);
        if ups[0].publisher_session == s {
            rest
        } else {
            seq![ups[0]] + rest
        }
    }
}

/// Dropping the legs to `s` keeps the legs to every other publisher.
pub proof fn lemma_ups_without_has<S>(ups: Seq<UpstreamSubscriptionLeg<S>>, s: S, x: S)
    requires
        x != s,
    ensures
        spec_ups_has(spec_ups_without(ups, s), x) <==> spec_ups_has(ups, x),
    decreases ups.len(),
{
    if ups.len() > 0 {
        let rest = spec_ups_without(ups.drop_first(), s);
        lemma_ups_without_has(ups.drop_first(), s, x);
        let w = spec_ups_without(ups, s);
        if spec_ups_has(ups, x) {
            let l = choose|l: int| 0 <= l < ups.len() && (#[trigger] ups[l]).publisher_session == x;
            if l == 0 {
                assert(w[0] == ups[0]);
            } else {
                assert(ups.drop_first()[l - 1] == ups[l]);
                assert(spec_ups_has(ups.drop_first(), x));
                let m = choose|m: int| 0 <= m < rest.len() && (#[trigger] rest[m]).publisher_session == x;
                if ups[0].publisher_session == s {
                    assert(w[m] == rest[m]);
                } else {
                    assert(w[m + 1] == rest[m]);
                }
            }
        }
        if spec_ups_has(w, x) {
            let m = choose|m: int| 0 <= m < w.len() && (#[trigger] w[m]).publisher_session == x;
            if ups[0].publisher_session == s {
                assert(rest[m] == w[m]);
                assert(spec_ups_has(rest, x));
                let l = choose|l: int| 0 <= l < ups.drop_first().len() && (#[trigger] ups.drop_first()[l]).publisher_session == x;
                assert(ups[l + 1] == ups.drop_first()[l]);
            } else if m == 0 {
                assert(w[0] == ups[0]);
            } else {
                assert(rest[m - 1] == w[m]);
                assert(spec_ups_has(rest, x));
                let l = choose|l: int| 0 <= l < ups.drop_first().len() && (#[trigger] ups.drop_first()[l]).publisher_session == x;
                assert(ups[l + 1] == ups.drop_first()[l]);
            }
        }
    }
}

/// Dropping the legs to `s` keeps every leg to another publisher.
pub proof fn lemma_ups_without_keeps<S>(ups: Seq<UpstreamSubscriptionLeg<S>>, s: S, l: int)
    requires
        0 <= l < ups.len(),
        ups[l].publisher_session != s,
    ensures
        spec_ups_without(ups, s).contains(ups[l]),
    decreases ups.len(),
{
    let rest = spec_ups_without(ups.drop_first(), s);
    let w = spec_ups_without(ups, s);
    if l == 0 {
        assert(w[0] == ups[0]);
    } else {
        assert(ups.drop_first()[l - 1] == ups[l]);
        lemma_ups_without_keeps(ups.drop_first(), s, l - 1);
        let m = choose|m: int| 0 <= m < rest.len() && rest[m] == ups[l];
        if ups[0].publisher_session == s {
            assert(w[m] == rest[m]);
        } else {
            assert(w[m + 1] == rest[m]);
        }
    }
}

/// No leg to `s` is left once the legs to `s` are dropped.
pub proof fn lemma_ups_without_none<S>(ups: Seq<UpstreamSubscriptionLeg<S>>, s: S)
    ensures
        !spec_ups_has(spec_ups_without(ups, s), s),
    decreases ups.len(),
{
    if ups.len() > 0 {
        lemma_ups_without_none(ups.drop_first(), s);
        let rest = spec_ups_without(ups.drop_first(), s);
        let w = spec_ups_without(ups, s);
        if spec_ups_has(w, s) {
            let m = choose|m: int| 0 <= m < w.len() && (#[trigger] w[m]).publisher_session == s;
            if ups[0].publisher_session == s {
                assert(rest[m] == w[m]);
            } else {
                assert(m != 0);
                assert(rest[m - 1] == w[m]);
            }
        }
    }
}

/// Dropping the legs to `s` changes nothing when there is none.
pub proof fn lemma_ups_without_same<S>(ups: Seq<UpstreamSubscriptionLeg<S>>, s: S)
    requires
        !spec_ups_has(ups, s),
    ensures
        spec_ups_without(ups, s) == ups,
    decreases ups.len(),
{
    if ups.len() > 0 {
        assert(ups[0].publisher_session != s);
        assert(!spec_ups_has(ups.drop_first(), s)) by {
            if spec_ups_has(ups.drop_first(), s) {
                let l = choose|l: int| 0 <= l < ups.drop_first().len() && (#[trigger] ups.drop_first()[l]).publisher_session == s;
                assert(ups[l + 1] == ups.drop_first()[l]);
            }
        }
        lemma_ups_without_same(ups.drop_first(), s);
        assert(seq![ups[0]] + ups.drop_first() =~= ups);
    }
}

/// No subscription of `s` is left once those of `s` are dropped.
pub proof fn lemma_ds_without_session_none<S>(ds: Seq<DownstreamSubscription<S>>, s: S)
    ensures
        forall|i: int| 0 <= i < spec_ds_without_session(ds, s).len()
            ==> (#[trigger] spec_ds_without_session(ds, s)[i]).id.session != s,
    decreases ds.len(),
{
    if ds.len() > 0 {
        lemma_ds_without_session_none(ds.drop_first(), s);
        let rest = spec_ds_without_session(ds.drop_first(), s);
        let w = spec_ds_without_session(ds, s);
        assert forall|i: int| 0 <= i < w.len() implies (#[trigger] w[i]).id.session != s by {
            if ds[0].id.session == s {
                assert(w[i] == rest[i]);
            } else if i > 0 {
                assert(w[i] == rest[i - 1]);
            }
        }
    }
}

/// Whether the first leg of `ups` to publisher `x` is pending, under
/// request ID `rid`.
pub open spec fn spec_first_leg_is<S>(ups: Seq<UpstreamSubscriptionLeg<S>>, x: S, rid: u64) -> bool {
    let l = spec_first_pos(ups, spec_leg_of(x));
    &&& 0 <= l < ups.len()
    &&& ups[l].request_id.0 == rid
    &&& ups[l].state == UpstreamSubState::Pending
}

/// Dropping the legs to `p` keeps the first leg to any other publisher.
pub proof fn lemma_ups_without_first<S>(ups: Seq<UpstreamSubscriptionLeg<S>>, p: S, x: S)
    requires
        x != p,
    ensures
        ({
            let w = spec_ups_without(ups, p);
            let a = spec_first_pos(ups, spec_leg_of(x));
            let b = spec_first_pos(w, spec_leg_of(x));
            &&& a < 0 <==> b < 0
            &&& a >= 0 ==> 0 <= b < w.len() && w[b] == ups[a]
        }),
    decreases ups.len(),
{
    lemma_first_pos(ups, spec_leg_of(x));
    lemma_first_pos(spec_ups_without(ups, p), spec_leg_of(x));
    if ups.len() > 0 {
        let rest = ups.drop_first();
        lemma_ups_without_first(rest, p, x);
        assert(ups =~= seq![ups[0]] + rest);
        lemma_first_pos_cons(ups[0], rest, spec_leg_of(x));
        let wr = spec_ups_without(rest, p);
        let w = spec_ups_without(ups, p);
        let a = spec_first_pos(ups, spec_leg_of(x));
        let ar = spec_first_pos(rest, spec_leg_of(x));
        let br = spec_first_pos(wr, spec_leg_of(x));
        if ups[0].publisher_session == p {
            assert(w == wr);
            if a >= 0 {
                assert(ups[a] == rest[ar]);
            }
        } else {
            assert(w == seq![ups[0]] + wr);
            lemma_first_pos_cons(ups[0], wr, spec_leg_of(x));
            if a > 0 {
                assert(ups[a] == rest[ar]);
                assert(w[br + 1] == wr[br]);
            } else if a == 0 {
                assert(w[0] == ups[0]);
            }
        }
    }
}

/// After recording `leg`, the first leg to any other publisher is as it
/// was.
pub proof fn lemma_first_leg_insert<S>(ups: Seq<UpstreamSubscriptionLeg<S>>, leg: UpstreamSubscriptionLeg<S>, x: S, rid: u64)
    requires
        x != leg.publisher_session,
        spec_first_leg_is(ups, x, rid),
    ensures
        spec_first_leg_is(spec_ups_without(ups, leg.publisher_session).push(leg), x, rid),
{
    let w = spec_ups_without(ups, leg.publisher_session);
    lemma_ups_without_first(ups, leg.publisher_session, x);
    lemma_first_pos_push(w, leg, spec_leg_of(x));
    let b = spec_first_pos(w, spec_leg_of(x));
    assert(w.push(leg)[b] == w[b]);
}

/// After recording a pending `leg`, it is the first leg to its publisher.
pub proof fn lemma_first_leg_new<S>(ups: Seq<UpstreamSubscriptionLeg<S>>, leg: UpstreamSubscriptionLeg<S>)
    requires
        leg.state == UpstreamSubState::Pending,
    ensures
        spec_first_leg_is(spec_ups_without(ups, leg.publisher_session).push(leg), leg.publisher_session, leg.request_id.0),
{
    let x = leg.publisher_session;
    let w = spec_ups_without(ups, x);
    lemma_ups_without_none(ups, x);
    lemma_first_pos(w, spec_leg_of(x));
    if spec_first_pos(w, spec_leg_of(x)) >= 0 {
        assert(w[spec_first_pos(w, spec_leg_of(x))].publisher_session == x);
    }
    lemma_first_pos_push(w, leg, spec_leg_of(x));
    assert(w.push(leg)[w.len() as int] == leg);
}

/// Dropping the legs to `p` keeps legs to distinct publishers distinct.
pub proof fn lemma_ups_without_distinct<S>(ups: Seq<UpstreamSubscriptionLeg<S>>, p: S)
    requires
        forall|i: int, j: int| 0 <= i < j < ups.len() ==> (#[trigger] ups[i]).publisher_session != (#[trigger] ups[j]).publisher_session,
    ensures
        ({
            let w = spec_ups_without(ups, p);
            forall|i: int, j: int| 0 <= i < j < w.len() ==> (#[trigger] w[i]).publisher_session != (#[trigger] w[j]).publisher_session
        }),
    decreases ups.len(),
{
    if ups.len() > 0 {
        let rest = ups.drop_first();
        assert forall|i: int, j: int| 0 <= i < j < rest.len() implies (#[trigger] rest[i]).publisher_session != (#[trigger] rest[j]).publisher_session by {
            assert(rest[i] == ups[i + 1] && rest[j] == ups[j + 1]);
        }
        lemma_ups_without_distinct(rest, p);
        let wr = spec_ups_without(rest, p);
        let w = spec_ups_without(ups, p);
        if ups[0].publisher_session != p {
            let x = ups[0].publisher_session;
            lemma_ups_without_has(rest, p, x);
            if spec_ups_has(rest, x) {
                let l = choose|l: int| 0 <= l < rest.len() && (#[trigger] rest[l]).publisher_session == x;
                assert(rest[l] == ups[l + 1]);
            }
            assert forall|i: int, j: int| 0 <= i < j < w.len() implies (#[trigger] w[i]).publisher_session != (#[trigger] w[j]).publisher_session by {
                assert(w[j] == wr[j - 1]);
                if i == 0 {
                    assert(w[0] == ups[0]);
                    if wr[j - 1].publisher_session == x {
                        assert(spec_ups_has(wr, x));
                    }
                } else {
                    assert(w[i] == wr[i - 1]);
                }
            }
        } else {
            assert(w == wr);
        }
    }
}

/// Dropping the subscriptions of `id` keeps subscriptions with distinct IDs
/// distinct, and keeps no subscription that was not there.
pub proof fn lemma_ds_without_distinct<S>(ds: Seq<DownstreamSubscription<S>>, id: SubscriptionId<S>)
    requires
        forall|i: int, j: int| 0 <= i < j < ds.len() ==> (#[trigger] ds[i]).id != (#[trigger] ds[j]).id,
    ensures
        ({
            let w = spec_ds_without(ds, id);
            &&& forall|i: int, j: int| 0 <= i < j < w.len() ==> (#[trigger] w[i]).id != (#[trigger] w[j]).id
            &&& forall|i: int| 0 <= i < w.len() ==> ds.contains(#[trigger] w[i])
        }),
    decreases ds.len(),
{
    if ds.len() > 0 {
        let rest = ds.drop_first();
        assert forall|i: int, j: int| 0 <= i < j < rest.len() implies (#[trigger] rest[i]).id != (#[trigger] rest[j]).id by {
            assert(rest[i] == ds[i + 1] && rest[j] == ds[j + 1]);
        }
        lemma_ds_without_distinct(rest, id);
        let wr = spec_ds_without(rest, id);
        let w = spec_ds_without(ds, id);
        if ds[0].id != id {
            assert forall|i: int| 0 <= i < w.len() implies ds.contains(#[trigger] w[i]) by {
                if i == 0 {
                    assert(w[0] == ds[0]);
                } else {
                    assert(w[i] == wr[i - 1]);
                    let k = choose|k: int| 0 <= k < rest.len() && rest[k] == wr[i - 1];
                    assert(ds[k + 1] == rest[k]);
                }
            }
            assert forall|i: int, j: int| 0 <= i < j < w.len() implies (#[trigger] w[i]).id != (#[trigger] w[j]).id by {
                assert(w[j] == wr[j - 1]);
                if i == 0 {
                    assert(w[0] == ds[0]);
                    let k = choose|k: int| 0 <= k < rest.len() && rest[k] == wr[j - 1];
                    assert(ds[k + 1] == rest[k]);
                } else {
                    assert(w[i] == wr[i - 1]);
                }
            }
        } else {
            assert(w == wr);
            assert forall|i: int| 0 <= i < w.len() implies ds.contains(#[trigger] w[i]) by {
                let k = choose|k: int| 0 <= k < rest.len() && rest[k] == wr[i];
                assert(ds[k + 1] == rest[k]);
            }
        }
    }
}

/// Dropping the subscriptions of session `s` keeps subscriptions with
/// distinct IDs distinct.
pub proof fn lemma_ds_without_session_distinct<S>(ds: Seq<DownstreamSubscription<S>>, s: S)
    requires
        forall|i: int, j: int| 0 <= i < j < ds.len() ==> (#[trigger] ds[i]).id != (#[trigger] ds[j]).id,
    ensures
        ({
            let w = spec_ds_without_session(ds, s);
            &&& forall|i: int, j: int| 0 <= i < j < w.len() ==> (#[trigger] w[i]).id != (#[trigger] w[j]).id
            &&& forall|i: int| 0 <= i < w.len() ==> ds.contains(#[trigger] w[i])
        }),
    decreases ds.len(),
{
    if ds.len() > 0 {
        let rest = ds.drop_first();
        assert forall|i: int, j: int| 0 <= i < j < rest.len() implies (#[trigger] rest[i]).id != (#[trigger] rest[j]).id by {
            assert(rest[i] == ds[i + 1] && rest[j] == ds[j + 1]);
        }
        lemma_ds_without_session_distinct(rest, s);
        let wr = spec_ds_without_session(rest, s);
        let w = spec_ds_without_session(ds, s);
        if ds[0].id.session != s {
            assert forall|i: int| 0 <= i < w.len() implies ds.contains(#[trigger] w[i]) by {
                if i == 0 {
                    assert(w[0] == ds[0]);
                } else {
                    assert(w[i] == wr[i - 1]);
                    let k = choose|k: int| 0 <= k < rest.len() && rest[k] == wr[i - 1];
                    assert(ds[k + 1] == rest[k]);
                }
            }
            assert forall|i: int, j: int| 0 <= i < j < w.len() implies (#[trigger] w[i]).id != (#[trigger] w[j]).id by {
                assert(w[j] == wr[j - 1]);
                if i == 0 {
                    assert(w[0] == ds[0]);
                    let k = choose|k: int| 0 <= k < rest.len() && rest[k] == wr[j - 1];
                    assert(ds[k + 1] == rest[k]);
                } else {
                    assert(w[i] == wr[i - 1]);
                }
            }
        } else {
            assert(w == wr);
            assert forall|i: int| 0 <= i < w.len() implies ds.contains(#[trigger] w[i]) by {
                let k = choose|k: int| 0 <= k < rest.len() && rest[k] == wr[i];
                assert(ds[k + 1] == rest[k]);
            }
        }
    }
}

/// The request ID of every subscription of session `s` is listed.
pub proof fn lemma_ds_ids_of_session_has<S>(ds: Seq<DownstreamSubscription<S>>, s: S, d: int)
    requires
        0 <= d < ds.len(),
        ds[d].id.session == s,
    ensures
        spec_ds_ids_of_session(ds, s).contains(ds[d].id.request_id),
    decreases ds.len(),
{
    let rest = spec_ds_ids_of_session(ds.drop_first(), s);
    let w = spec_ds_ids_of_session(ds, s);
    if d == 0 {
        assert(w[0] == ds[0].id.request_id);
    } else {
        assert(ds.drop_first()[d - 1] == ds[d]);
        lemma_ds_ids_of_session_has(ds.drop_first(), s, d - 1);
        let q = choose|q: int| 0 <= q < rest.len() && rest[q] == ds[d].id.request_id;
        if ds[0].id.session == s {
            assert(w[q + 1] == rest[q]);
        } else {
            assert(w[q] == rest[q]);
        }
    }
}

/// Dropping the subscriptions of id `id` leaves none of that id.
pub proof fn lemma_ds_without_none<S>(ds: Seq<DownstreamSubscription<S>>, id: SubscriptionId<S>)
    ensures
        forall|i: int| 0 <= i < spec_ds_without(ds, id).len() ==> (#[trigger] spec_ds_without(ds, id)[i]).id != id,
    decreases ds.len(),
{
    if ds.len() > 0 {
        lemma_ds_without_none(ds.drop_first(), id);
        let rest = spec_ds_without(ds.drop_first(), id);
        let w = spec_ds_without(ds, id);
        assert forall|i: int| 0 <= i < w.len() implies (#[trigger] w[i]).id != id by {
            if ds[0].id == id {
                assert(w[i] == rest[i]);
            } else if i > 0 {
                assert(w[i] == rest[i - 1]);
            }
        }
    }
}

impl<S: SessionKey> TrackRoute<S> {
    /// Position of the downstream subscription `id`.
    pub fn find_downstream(&self, id: &SubscriptionId<S>) -> (r: Option<usize>)
        ensures
            r matches Some(i) ==> i < self.downstream_subs@.len() && self.downstream_subs@[i as int].id == *id,
            r is None ==> forall|i: int| 0 <= i < self.downstream_subs@.len() ==> (#[trigger] self.downstream_subs@[i]).id != *id,
            match r {
                Some(i) => spec_first_pos(self.downstream_subs@, spec_ds_is(*id)) == i,
                None => spec_first_pos(self.downstream_subs@, spec_ds_is(*id)) < 0,
            },
    {
        proof {
            lemma_first_pos(self.downstream_subs@, spec_ds_is(*id));
        }
        let mut i: usize = 0;
        while i < self.downstream_subs.len()
            invariant
                i <= self.downstream_subs@.len(),
                forall|j: int| 0 <= j < i ==> (#[trigger] self.downstream_subs@[j]).id != *id,
            decreases self.downstream_subs@.len() - i,
        {
            let d = &self.downstream_subs[i];
            if d.id.session.key_eq(&id.session) && d.id.request_id == id.request_id {
                proof {
                    lemma_first_pos_at(self.downstream_subs@, spec_ds_is(*id), i as int);
                }
                return Some(i);
            }
            i = i + 1;
        }
        None
    }

    /// Position of the upstream leg to publisher `s`.
    pub fn find_upstream(&self, s: &S) -> (r: Option<usize>)
        ensures
            r matches Some(i) ==> i < self.upstream_subs@.len() && self.upstream_subs@[i as int].publisher_session == *s,
            r is None ==> forall|i: int| 0 <= i < self.upstream_subs@.len()
                ==> (#[trigger] self.upstream_subs@[i]).publisher_session != *s,
            match r {
                Some(i) => spec_first_pos(self.upstream_subs@, spec_leg_of(*s)) == i,
                None => spec_first_pos(self.upstream_subs@, spec_leg_of(*s)) < 0,
            },
    {
        proof {
            lemma_first_pos(self.upstream_subs@, spec_leg_of(*s));
        }
        let mut i: usize = 0;
        while i < self.upstream_subs.len()
            invariant
                i <= self.upstream_subs@.len(),
                forall|j: int| 0 <= j < i ==> (#[trigger] self.upstream_subs@[j]).publisher_session != *s,
            decreases self.upstream_subs@.len() - i,
        {
            if self.upstream_subs[i].publisher_session.key_eq(s) {
                proof {
                    lemma_first_pos_at(self.upstream_subs@, spec_leg_of(*s), i as int);
                }
                return Some(i);
            }
            i = i + 1;
        }
        None
    }

    /// Drops the downstream subscriptions of id `id`.
    pub fn remove_downstream(&mut self, id: &SubscriptionId<S>)
        ensures
            final(self).downstream_subs@ == spec_ds_without(old(self).downstream_subs@, *id),
            final(self).upstream_subs@ == old(self).upstream_subs@,
            final(self).track == old(self).track,
            final(self).track_extensions == old(self).track_extensions,
    {
        let ghost orig = self.downstream_subs@;
        let mut i: usize = 0;
        assert(orig.skip(0) =~= orig);
        assert(orig.take(0) =~= Seq::<DownstreamSubscription<S>>::empty());
        while i < self.downstream_subs.len()
            invariant
                i <= self.downstream_subs@.len(),
                spec_ds_without(orig, *id) == self.downstream_subs@.take(i as int)
                    + spec_ds_without(self.downstream_subs@.skip(i as int), *id),
                self.upstream_subs@ == old(self).upstream_subs@,
                self.track == old(self).track,
                self.track_extensions == old(self).track_extensions,
            decreases self.downstream_subs@.len() - i,
        {
            let ghost before = self.downstream_subs@;
            assert(before.skip(i as int).drop_first() =~= before.skip(i + 1));
            assert(before.skip(i as int)[0] == before[i as int]);
            let hit = self.downstream_subs[i].id.session.key_eq(&id.session)
                && self.downstream_subs[i].id.request_id == id.request_id;
            if hit {
                self.downstream_subs.remove(i);
                assert(self.downstream_subs@.take(i as int) =~= before.take(i as int));
                assert(self.downstream_subs@.skip(i as int) =~= before.skip(i + 1));
            } else {
                assert(before.take(i + 1) =~= before.take(i as int) + seq![before[i as int]]);
                i = i + 1;
                assert(before.take(i as int) + spec_ds_without(before.skip(i as int), *id)
                    =~= before.take(i - 1) + (seq![before[i - 1]] + spec_ds_without(before.skip(i as int), *id)));
            }
        }
        assert(self.downstream_subs@.skip(i as int) =~= Seq::<DownstreamSubscription<S>>::empty());
        assert(self.downstream_subs@.take(i as int) =~= self.downstream_subs@);
        assert(self.downstream_subs@ + Seq::<DownstreamSubscription<S>>::empty() =~= self.downstream_subs@);
    }

    /// Drops the downstream subscriptions of session `s`; returns their
    /// request IDs.
    pub fn remove_downstream_of_session(&mut self, s: &S) -> (removed: Vec<RequestId>)
        ensures
            final(self).downstream_subs@ == spec_ds_without_session(old(self).downstream_subs@, *s),
            removed@ == spec_ds_ids_of_session(old(self).downstream_subs@, *s),
            final(self).upstream_subs@ == old(self).upstream_subs@,
            final(self).track == old(self).track,
            final(self).track_extensions == old(self).track_extensions,
    {
        let ghost orig = self.downstream_subs@;
        let mut removed: Vec<RequestId> = Vec::new();
        let mut i: usize = 0;
        assert(orig.skip(0) =~= orig);
        assert(orig.take(0) =~= Seq::<DownstreamSubscription<S>>::empty());
        assert(removed@ + spec_ds_ids_of_session(orig, *s) =~= spec_ds_ids_of_session(orig, *s));
        while i < self.downstream_subs.len()
            invariant
                i <= self.downstream_subs@.len(),
                spec_ds_without_session(orig, *s) == self.downstream_subs@.take(i as int)
                    + spec_ds_without_session(self.downstream_subs@.skip(i as int), *s),
                spec_ds_ids_of_session(orig, *s) == removed@ + spec_ds_ids_of_session(self.downstream_subs@.skip(i as int), *s),
                self.upstream_subs@ == old(self).upstream_subs@,
                self.track == old(self).track,
                self.track_extensions == old(self).track_extensions,
            decreases self.downstream_subs@.len() - i,
        {
            let ghost before = self.downstream_subs@;
            assert(before.skip(i as int).drop_first() =~= before.skip(i + 1));
            assert(before.skip(i as int)[0] == before[i as int]);
            if self.downstream_subs[i].id.session.key_eq(s) {
                let rid = self.downstream_subs[i].id.request_id;
                let ghost old_removed = removed@;
                removed.push(rid);
                assert(old_removed + (seq![rid] + spec_ds_ids_of_session(before.skip(i + 1), *s))
                    =~= removed@ + spec_ds_ids_of_session(before.skip(i + 1), *s));
                self.downstream_subs.remove(i);
                assert(self.downstream_subs@.take(i as int) =~= before.take(i as int));
                assert(self.downstream_subs@.skip(i as int) =~= before.skip(i + 1));
            } else {
                assert(before.take(i + 1) =~= before.take(i as int) + seq![before[i as int]]);
                i = i + 1;
                assert(before.take(i as int) + spec_ds_without_session(before.skip(i as int), *s)
                    =~= before.take(i - 1) + (seq![before[i - 1]] + spec_ds_without_session(before.skip(i as int), *s)));
            }
        }
        assert(self.downstream_subs@.skip(i as int) =~= Seq::<DownstreamSubscription<S>>::empty());
        assert(self.downstream_subs@.take(i as int) =~= self.downstream_subs@);
        assert(self.downstream_subs@ + Seq::<DownstreamSubscription<S>>::empty() =~= self.downstream_subs@);
        assert(removed@ + Seq::<RequestId>::empty() =~= removed@);
        removed
    }

    /// Drops the upstream legs to publisher `s`.
    pub fn remove_upstream(&mut self, s: &S)
        ensures
            final(self).upstream_subs@ == spec_ups_without(old(self).upstream_subs@, *s),
            final(self).downstream_subs@ == old(self).downstream_subs@,
            final(self).track == old(self).track,
            final(self).track_extensions == old(self).track_extensions,
    {
        let ghost orig = self.upstream_subs@;
        let mut i: usize = 0;
        assert(orig.skip(0) =~= orig);
        assert(orig.take(0) =~= Seq::<UpstreamSubscriptionLeg<S>>::empty());
        while i < self.upstream_subs.len()
            invariant
                i <= self.upstream_subs@.len(),
                spec_ups_without(orig, *s) == self.upstream_subs@.take(i as int)
                    + spec_ups_without(self.upstream_subs@.skip(i as int), *s),
                self.downstream_subs@ == old(self).downstream_subs@,
                self.track == old(self).track,
                self.track_extensions == old(self).track_extensions,
            decreases self.upstream_subs@.len() - i,
        {
            let ghost before = self.upstream_subs@;
            assert(before.skip(i as int).drop_first() =~= before.skip(i + 1));
            assert(before.skip(i as int)[0] == before[i as int]);
            if self.upstream_subs[i].publisher_session.key_eq(s) {
                self.upstream_subs.remove(i);
                assert(self.upstream_subs@.take(i as int) =~= before.take(i as int));
                assert(self.upstream_subs@.skip(i as int) =~= before.skip(i + 1));
            } else {
                assert(before.take(i + 1) =~= before.take(i as int) + seq![before[i as int]]);
                i = i + 1;
                assert(before.take(i as int) + spec_ups_without(before.skip(i as int), *s)
                    =~= before.take(i - 1) + (seq![before[i - 1]] + spec_ups_without(before.skip(i as int), *s)));
            }
        }
        assert(self.upstream_subs@.skip(i as int) =~= Seq::<UpstreamSubscriptionLeg<S>>::empty());
        assert(self.upstream_subs@.take(i as int) =~= self.upstream_subs@);
        assert(self.upstream_subs@ + Seq::<UpstreamSubscriptionLeg<S>>::empty() =~= self.upstream_subs@);
    }

    /// Records a downstream subscription, replacing one of the same id.
    pub fn insert_downstream(&mut self, ds: DownstreamSubscription<S>)
        ensures
            final(self).downstream_subs@ == spec_ds_without(old(self).downstream_subs@, ds.id).push(ds),
            final(self).upstream_subs@ == old(self).upstream_subs@,
            final(self).track == old(self).track,
            final(self).track_extensions == old(self).track_extensions,
    {
        self.remove_downstream(&ds.id);
        self.downstream_subs.push(ds);
    }

    /// Records an upstream leg, replacing one to the same publisher.
    pub fn insert_upstream(&mut self, leg: UpstreamSubscriptionLeg<S>)
        ensures
            final(self).upstream_subs@ == spec_ups_without(old(self).upstream_subs@, leg.publisher_session).push(leg),
            final(self).downstream_subs@ == old(self).downstream_subs@,
            final(self).track == old(self).track,
            final(self).track_extensions == old(self).track_extensions,
    {
        self.remove_upstream(&leg.publisher_session);
        self.upstream_subs.push(leg);
    }
}

} // verus!
