//! Identifiers and keys shared by the relay's state machine.
use vstd::prelude::*;
use crate::moq_protocol::types::{
    TrackNamespace, TrackNamespacePrefix, bytes_eq, copy_fields, fields_prefix, spec_fields_prefix,
    spec_fields_view,
};

verus! {

pub type StreamId = u64;

/// A session identifier: the relay compares and copies keys through these
/// two methods, whose contracts say they are equality and copy.
pub trait SessionKey: Sized {
    fn key_eq(&self, other: &Self) -> (r: bool)
        ensures
            r == (*self == *other),
    ;

    fn key_clone(&self) -> (r: Self)
        ensures
            r == *self,
    ;
}

impl SessionKey for u32 {
    fn key_eq(&self, other: &Self) -> (r: bool) {
        *self == *other
    }

    fn key_clone(&self) -> (r: Self) {
        *self
    }
}

impl SessionKey for u64 {
    fn key_eq(&self, other: &Self) -> (r: bool) {
        *self == *other
    }

    fn key_clone(&self) -> (r: Self) {
        *self
    }
}

#[derive(Debug, Clone, Copy, PartialEq, Eq, Hash, Structural)]
pub struct RequestId(pub u64);

#[derive(Debug, Clone, Copy, PartialEq, Eq, Hash, Structural)]
pub struct TrackAlias(pub u64);

/// A track: its namespace and its name.
#[derive(Debug, Clone, PartialEq, Eq, Hash)]
pub struct TrackKey {
    pub namespace: TrackNamespace,
    pub name: Vec<u8>,
}

impl View for TrackKey {
    type V = (Seq<Seq<u8>>, Seq<u8>);

    open spec fn view(&self) -> (Seq<Seq<u8>>, Seq<u8>) {
        (self.namespace@, self.name@)
    }
}

/// Whether two field lists are equal.
pub fn fields_eq(a: &Vec<Vec<u8>>, b: &Vec<Vec<u8>>) -> (r: bool)
    ensures
        r == (spec_fields_view(a@) == spec_fields_view(b@)),
{
    if a.len() != b.len() {
        assert(spec_fields_view(a@).len() != spec_fields_view(b@).len());
        return false;
    }
    let r = fields_prefix(a, b);
    assert(r ==> spec_fields_view(a@) =~= spec_fields_view(b@));
    r
}

impl TrackKey {
    /// Whether two track keys name the same track.
    pub fn same(&self, other: &TrackKey) -> (r: bool)
        ensures
            r == (self@ == other@),
    {
        fields_eq(&self.namespace.fields, &other.namespace.fields)
            && bytes_eq(self.name.as_slice(), other.name.as_slice())
    }

    pub fn duplicate(&self) -> (r: TrackKey)
        ensures
            r@ == self@,
    {
        TrackKey { namespace: self.namespace.duplicate(), name: vstd::slice::slice_to_vec(self.name.as_slice()) }
    }
}

#[derive(Debug, Clone, PartialEq, Eq, Hash)]
pub struct NamespaceKey(pub TrackNamespace);

impl View for NamespaceKey {
    type V = Seq<Seq<u8>>;

    open spec fn view(&self) -> Seq<Seq<u8>> {
        self.0@
    }
}

impl NamespaceKey {
    /// Whether two keys name the same namespace.
    pub fn same(&self, other: &NamespaceKey) -> (r: bool)
        ensures
            r == (self@ == other@),
    {
        fields_eq(&self.0.fields, &other.0.fields)
    }

    pub fn duplicate(&self) -> (r: NamespaceKey)
        ensures
            r@ == self@,
    {
        NamespaceKey(self.0.duplicate())
    }
}

#[derive(Debug, Clone, PartialEq, Eq, Hash)]
pub struct NamespacePrefixKey(pub TrackNamespacePrefix);

impl View for NamespacePrefixKey {
    type V = Seq<Seq<u8>>;

    open spec fn view(&self) -> Seq<Seq<u8>> {
        self.0@
    }
}

#[derive(Debug, Clone, Copy, PartialEq, Eq, Structural)]
pub enum EndpointRole {
    Client,
    Server,
}

impl EndpointRole {
    /// Request IDs of a client are even, those of a server odd.
    pub open spec fn spec_local_first(self) -> u64 {
        match self {
            EndpointRole::Client => 0,
            EndpointRole::Server => 1,
        }
    }

    pub open spec fn spec_peer_first(self) -> u64 {
        match self {
            EndpointRole::Client => 1,
            EndpointRole::Server => 0,
        }
    }

    pub fn local_first_request_id(self) -> (r: RequestId)
        ensures
            r.0 == self.spec_local_first(),
    {
        match self {
            EndpointRole::Client => RequestId(0),
            EndpointRole::Server => RequestId(1),
        }
    }

    pub fn peer_first_request_id(self) -> (r: RequestId)
        ensures
            r.0 == self.spec_peer_first(),
    {
        match self {
            EndpointRole::Client => RequestId(1),
            EndpointRole::Server => RequestId(0),
        }
    }

    /// Whether `id` has the parity of the peer's request IDs.
    pub fn is_valid_peer_request_id(self, id: RequestId) -> (r: bool)
        ensures
            r == (id.0 % 2 == self.spec_peer_first()),
    {
        let expected_lsb: u64 = match self {
            EndpointRole::Client => 1,
            EndpointRole::Server => 0,
        };
        let v: u64 = id.0;
        let lsb = v & 1;
        assert(v & 1 == v % 2) by (bit_vector);
        lsb == expected_lsb
    }
}

/// Object Status: lets a publisher say that a range of
/// objects does not exist.
#[derive(Debug, Clone, Copy, PartialEq, Eq, Structural)]
pub enum ObjectStatus {
    /// 0x0: a normal object.
    Normal,
    /// 0x3: no object of this group from this object on.
    EndOfGroup,
    /// 0x4: no object from this location on.
    EndOfTrack,
}

impl ObjectStatus {
    pub open spec fn spec_code(self) -> u64 {
        match self {
            ObjectStatus::Normal => 0x0,
            ObjectStatus::EndOfGroup => 0x3,
            ObjectStatus::EndOfTrack => 0x4,
        }
    }

    pub fn from_u64(v: u64) -> (r: Option<Self>)
        ensures
            r matches Some(s) ==> s.spec_code() == v,
            r is None ==> forall|s: ObjectStatus| s.spec_code() != v,
    {
        match v {
            0x0 => Some(ObjectStatus::Normal),
            0x3 => Some(ObjectStatus::EndOfGroup),
            0x4 => Some(ObjectStatus::EndOfTrack),
            _ => None,
        }
    }

    pub fn as_u64(self) -> (r: u64)
        ensures
            r == self.spec_code(),
    {
        match self {
            ObjectStatus::Normal => 0x0,
            ObjectStatus::EndOfGroup => 0x3,
            ObjectStatus::EndOfTrack => 0x4,
        }
    }
}

/// Object Forwarding Preference: how a publisher sends an object.
#[derive(Debug, Clone, Copy, PartialEq, Eq, Structural)]
pub enum ForwardingPreference {
    /// Sent on a subgroup stream.
    Subgroup,
    /// Sent in a datagram.
    Datagram,
}

#[derive(Debug, Clone, Copy, PartialEq, Eq, Hash, Structural)]
pub enum ControlChannel {
    ControlStream,
    BidiStream(StreamId),
}

/// Whether the fields of `prefix` are the first fields of `ns`.
pub fn prefix_matches_namespace(prefix: &TrackNamespacePrefix, ns: &TrackNamespace) -> (r: bool)
    ensures
        r == spec_fields_prefix(prefix@, ns@),
{
    fields_prefix(&prefix.fields, &ns.fields)
}

} // verus!
