//! Message parameters: a list of key-value pairs, written to the wire in
//! ascending key order (a stable sort, so pairs of one key keep their order).
use vstd::prelude::*;
use crate::moq_protocol::codec::{write_varint, Cursor, Decode, Encode, SpecParse, lemma_varint_parse_roundtrip, lemma_skip_concat};
use crate::moq_protocol::error::{Error, ErrorKind, Result};
use crate::moq_protocol::types::{
    encode_key_value_pairs, decode_kvs, KeyValuePair, KvValue, KvSpec, KvValueSpec, Location,
    SubscriptionFilter, spec_kvs_view, spec_encode_kvs, spec_parse_kvs, spec_cat, spec_prepend,
    spec_parse_filter, spec_parse_location, spec_encode_filter, spec_encode_location, bytes_eq,
    law_kvs_roundtrip, law_filter_roundtrip, law_location_roundtrip,
};
use crate::moq_protocol::varint::{spec_parse_varint, spec_encode_varint};
use vstd::std_specs::cmp::PartialEqSpecImpl;

verus! {

pub const PARAM_PATH: u64 = 0x01;
pub const PARAM_DELIVERY_TIMEOUT: u64 = 0x02;
pub const PARAM_AUTHORIZATION_TOKEN: u64 = 0x03;
pub const PARAM_MAX_AUTH_TOKEN_CACHE_SIZE: u64 = 0x04;
pub const PARAM_AUTHORITY: u64 = 0x05;
pub const PARAM_MOQT_IMPLEMENTATION: u64 = 0x07;
pub const PARAM_EXPIRES: u64 = 0x08;
pub const PARAM_LARGEST_OBJECT: u64 = 0x09;
pub const PARAM_MAX_REQUEST_ID: u64 = 0x02;
pub const PARAM_FORWARD: u64 = 0x10;
pub const PARAM_SUBSCRIBER_PRIORITY: u64 = 0x20;
pub const PARAM_SUBSCRIPTION_FILTER: u64 = 0x21;
pub const PARAM_GROUP_ORDER: u64 = 0x22;
pub const PARAM_NEW_GROUP_REQUEST: u64 = 0x32;

// ---------------------------------------------------------------------------
// Stable ordering by key
// ---------------------------------------------------------------------------

/// Where a stable insertion puts `e` into the key-sorted `s`: after every
/// pair whose key is not greater than `e.key`.
pub open spec fn spec_insert_pos(s: Seq<KvSpec>, e: KvSpec) -> nat
    decreases s.len(),
{
    if s.len() == 0 || s.last().key <= e.key {
        s.len()
    } else {
        spec_insert_pos(s.drop_last(), e)
    }
}

/// `ps` ordered by key, pairs of equal key in their original order.
pub open spec fn spec_sort_kvs(ps: Seq<KvSpec>) -> Seq<KvSpec>
    decreases ps.len(),
{
    if ps.len() == 0 {
        Seq::empty()
    } else {
        let s = spec_sort_kvs(ps.drop_last());
        s.insert(spec_insert_pos(s, ps.last()) as int, ps.last())
    }
}

/// Keys in ascending order.
pub open spec fn spec_sorted_by_key(s: Seq<KvSpec>) -> bool {
    forall|i: int, j: int| 0 <= i <= j < s.len() ==> s[i].key <= s[j].key
}

proof fn lemma_insert_pos_bound(s: Seq<KvSpec>, e: KvSpec)
    ensures
        spec_insert_pos(s, e) <= s.len(),
        forall|i: int| spec_insert_pos(s, e) <= i < s.len() ==> s[i].key > e.key,
    decreases s.len(),
{
    if s.len() > 0 && s.last().key > e.key {
        lemma_insert_pos_bound(s.drop_last(), e);
        assert forall|i: int| spec_insert_pos(s, e) <= i < s.len() implies s[i].key > e.key by {
            if i < s.len() - 1 {
                assert(s.drop_last()[i] == s[i]);
            }
        }
    }
}

proof fn lemma_insert_pos_sorted(s: Seq<KvSpec>, e: KvSpec)
    requires
        spec_sorted_by_key(s),
    ensures
        forall|i: int| 0 <= i < spec_insert_pos(s, e) ==> s[i].key <= e.key,
    decreases s.len(),
{
    lemma_insert_pos_bound(s, e);
    if s.len() > 0 && s.last().key > e.key {
        lemma_insert_pos_sorted(s.drop_last(), e);
        lemma_insert_pos_bound(s.drop_last(), e);
        assert forall|i: int| 0 <= i < spec_insert_pos(s, e) implies s[i].key <= e.key by {
            assert(s.drop_last()[i] == s[i]);
        }
    }
}

/// Sorting keeps the length and orders the keys.
pub proof fn lemma_sort_kvs(ps: Seq<KvSpec>)
    ensures
        spec_sort_kvs(ps).len() == ps.len(),
        spec_sorted_by_key(spec_sort_kvs(ps)),
    decreases ps.len(),
{
    if ps.len() > 0 {
        let s = spec_sort_kvs(ps.drop_last());
        let e = ps.last();
        lemma_sort_kvs(ps.drop_last());
        lemma_insert_pos_bound(s, e);
        lemma_insert_pos_sorted(s, e);
        let p = spec_insert_pos(s, e) as int;
        let r = s.insert(p, e);
        assert forall|i: int, j: int| 0 <= i <= j < r.len() implies r[i].key <= r[j].key by {
            if i < p && j < p {
            } else if i < p && j == p {
            } else if i < p {
                assert(r[j] == s[j - 1]);
            } else if i == p && j == p {
            } else if i == p {
                assert(r[j] == s[j - 1]);
            } else {
                assert(r[i] == s[i - 1] && r[j] == s[j - 1]);
            }
        }
    }
}

/// Viewing commutes with inserting.
proof fn lemma_kvs_view_insert(v: Seq<KeyValuePair>, i: int, p: KeyValuePair)
    requires
        0 <= i <= v.len(),
    ensures
        spec_kvs_view(v.insert(i, p)) == spec_kvs_view(v).insert(i, p@),
{
    assert(spec_kvs_view(v.insert(i, p)) =~= spec_kvs_view(v).insert(i, p@));
}

/// Copies `ps` into key order, stably.
fn sort_pairs(ps: &Vec<KeyValuePair>) -> (r: Vec<KeyValuePair>)
    ensures
        spec_kvs_view(r@) == spec_sort_kvs(spec_kvs_view(ps@)),
{
    let ghost all = spec_kvs_view(ps@);
    let mut out: Vec<KeyValuePair> = Vec::new();
    let mut i: usize = 0;
    assert(all.take(0) =~= Seq::<KvSpec>::empty());
    while i < ps.len()
        invariant
            i <= ps@.len(),
            all == spec_kvs_view(ps@),
            spec_kvs_view(out@) == spec_sort_kvs(all.take(i as int)),
        decreases ps@.len() - i,
    {
        let p = ps[i].duplicate();
        let ghost s = spec_kvs_view(out@);
        proof {
            lemma_sort_kvs(all.take(i as int));
            assert(all.take(i + 1).drop_last() =~= all.take(i as int));
            assert(all.take(i + 1).last() == ps@[i as int]@);
        }
        let mut j: usize = out.len();
        assert(s.take(j as int) =~= s);
        while j > 0 && out[j - 1].key > p.key
            invariant
                j <= out@.len(),
                s == spec_kvs_view(out@),
                spec_insert_pos(s.take(j as int), p@) == spec_insert_pos(s, p@),
            decreases j,
        {
            proof {
                assert(s.take(j as int).drop_last() =~= s.take(j - 1));
                assert(s.take(j as int).last() == out@[j - 1]@);
            }
            j = j - 1;
        }
        proof {
            assert(s.take(out@.len() as int) =~= s);
            if j > 0 {
                assert(s.take(j as int).last() == out@[j - 1]@);
            } else {
                assert(s.take(0).len() == 0);
            }
            lemma_insert_pos_bound(s, p@);
            lemma_kvs_view_insert(out@, j as int, p);
        }
        out.insert(j, p);
        i = i + 1;
    }
    assert(all.take(i as int) =~= all);
    out
}

// ---------------------------------------------------------------------------
// Lookups
// ---------------------------------------------------------------------------

/// The value of the first varint pair of type `key`.
pub open spec fn spec_get_varint(ps: Seq<KvSpec>, key: u64) -> Option<u64>
    decreases ps.len(),
{
    if ps.len() == 0 {
        None
    } else if ps[0].key == key && ps[0].value is Varint {
        Some(ps[0].value->Varint_0)
    } else {
        spec_get_varint(ps.drop_first(), key)
    }
}

/// The value of the first byte-string pair of type `key`.
pub open spec fn spec_get_bytes(ps: Seq<KvSpec>, key: u64) -> Option<Seq<u8>>
    decreases ps.len(),
{
    if ps.len() == 0 {
        None
    } else if ps[0].key == key && ps[0].value is Bytes {
        Some(ps[0].value->Bytes_0)
    } else {
        spec_get_bytes(ps.drop_first(), key)
    }
}

/// `ps` without the pairs of type `key`.
pub open spec fn spec_remove_key(ps: Seq<KvSpec>, key: u64) -> Seq<KvSpec>
    decreases ps.len(),
{
    if ps.len() == 0 {
        Seq::empty()
    } else {
        let r = spec_remove_key(ps.drop_last(), key);
        if ps.last().key == key {
            r
        } else {
            r.push(ps.last())
        }
    }
}

#[derive(Debug, Clone)]
pub struct Parameters(pub Vec<KeyValuePair>);

impl View for Parameters {
    type V = Seq<KvSpec>;

    open spec fn view(&self) -> Seq<KvSpec> {
        spec_kvs_view(self.0@)
    }
}

impl Default for Parameters {
    fn default() -> (r: Self)
        ensures
            r@ == Seq::<KvSpec>::empty(),
    {
        Parameters::new()
    }
}

impl Parameters {
    pub fn new() -> (r: Self)
        ensures
            r@ == Seq::<KvSpec>::empty(),
    {
        let r = Parameters(Vec::new());
        assert(r@ =~= Seq::<KvSpec>::empty());
        r
    }

    /// A copy with the same pairs in the same order.
    pub fn duplicate(&self) -> (r: Self)
        ensures
            r@ == self@,
    {
        Parameters(crate::moq_protocol::types::copy_pairs(&self.0))
    }

    /// Appends a varint pair; varint pairs have even keys.
    pub fn add_varint(&mut self, key: u64, value: u64)
        requires
            key % 2 == 0,
        ensures
            final(self)@ == old(self)@.push(KvSpec { key, value: KvValueSpec::Varint(value) }),
    {
        let p = KeyValuePair { key, value: KvValue::Varint(value) };
        self.0.push(p);
        assert(self@ =~= old(self)@.push(p@));
    }

    /// Appends a byte-string pair; byte-string pairs have odd keys.
    pub fn add_bytes(&mut self, key: u64, value: Vec<u8>)
        requires
            key % 2 == 1,
        ensures
            final(self)@ == old(self)@.push(KvSpec { key, value: KvValueSpec::Bytes(value@) }),
    {
        let ghost vv = value@;
        let p = KeyValuePair { key, value: KvValue::Bytes(value) };
        self.0.push(p);
        assert(self@ =~= old(self)@.push(p@));
    }

    pub fn get_varint(&self, key: u64) -> (r: Option<u64>)
        ensures
            r == spec_get_varint(self@, key),
    {
        let mut i: usize = 0;
        assert(self@.skip(0) =~= self@);
        while i < self.0.len()
            invariant
                i <= self.0@.len(),
                spec_get_varint(self@, key) == spec_get_varint(self@.skip(i as int), key),
            decreases self.0@.len() - i,
        {
            proof {
                assert(self@.skip(i as int).drop_first() =~= self@.skip(i + 1));
                assert(self@.skip(i as int)[0] == self.0@[i as int]@);
            }
            if self.0[i].key == key {
                match &self.0[i].value {
                    KvValue::Varint(v) => return Some(*v),
                    _ => {},
                }
            }
            i = i + 1;
        }
        None
    }

    pub fn get_bytes(&self, key: u64) -> (r: Option<&[u8]>)
        ensures
            match spec_get_bytes(self@, key) {
                Some(b) => r matches Some(x) && x@ == b,
                None => r is None,
            },
    {
        let mut i: usize = 0;
        assert(self@.skip(0) =~= self@);
        while i < self.0.len()
            invariant
                i <= self.0@.len(),
                spec_get_bytes(self@, key) == spec_get_bytes(self@.skip(i as int), key),
            decreases self.0@.len() - i,
        {
            proof {
                assert(self@.skip(i as int).drop_first() =~= self@.skip(i + 1));
                assert(self@.skip(i as int)[0] == self.0@[i as int]@);
            }
            if self.0[i].key == key {
                match &self.0[i].value {
                    KvValue::Bytes(v) => return Some(v.as_slice()),
                    _ => {},
                }
            }
            i = i + 1;
        }
        None
    }

    pub fn is_empty(&self) -> (r: bool)
        ensures
            r == (self@.len() == 0),
    {
        self.0.len() == 0
    }

    pub fn len(&self) -> (r: usize)
        ensures
            r == self@.len(),
    {
        self.0.len()
    }

    /// The pairs in key order, pairs of equal key in their stored order.
    fn sorted(&self) -> (r: Vec<KeyValuePair>)
        ensures
            spec_kvs_view(r@) == spec_sort_kvs(self@),
    {
        sort_pairs(&self.0)
    }

    /// Drops every pair of type `key`.
    fn remove_key(&mut self, key: u64)
        ensures
            final(self)@ == spec_remove_key(old(self)@, key),
    {
        let ghost all = self@;
        let mut kept: Vec<KeyValuePair> = Vec::new();
        let mut i: usize = 0;
        assert(all.take(0) =~= Seq::<KvSpec>::empty());
        while i < self.0.len()
            invariant
                i <= self.0@.len(),
                all == spec_kvs_view(self.0@),
                spec_kvs_view(kept@) == spec_remove_key(all.take(i as int), key),
            decreases self.0@.len() - i,
        {
            proof {
                assert(all.take(i + 1).drop_last() =~= all.take(i as int));
                assert(all.take(i + 1).last() == self.0@[i as int]@);
            }
            if self.0[i].key != key {
                let p = self.0[i].duplicate();
                kept.push(p);
                assert(spec_kvs_view(kept@) =~= spec_remove_key(all.take(i as int), key).push(p@));
            }
            i = i + 1;
        }
        assert(all.take(i as int) =~= all);
        self.0 = kept;
    }
}

impl Parameters {
    /// The subscription filter parameter, decoded, if there is one.
    pub fn get_subscription_filter(&self) -> (r: Result<Option<SubscriptionFilter>>)
        ensures
            match spec_get_bytes(self@, PARAM_SUBSCRIPTION_FILTER) {
                None => r == Ok::<Option<SubscriptionFilter>, Error>(None),
                Some(b) => match spec_parse_filter(b) {
                    Ok((f, _)) => r == Ok::<Option<SubscriptionFilter>, Error>(Some(f)),
                    Err(k) => r matches Err(e) && e.kind() == k,
                },
            },
    {
        match self.get_bytes(PARAM_SUBSCRIPTION_FILTER) {
            Some(bytes) => {
                let mut c = Cursor::new(bytes);
                match SubscriptionFilter::decode(&mut c) {
                    Ok(f) => Ok(Some(f)),
                    Err(e) => Err(e),
                }
            },
            None => Ok(None),
        }
    }

    /// Replaces every subscription filter parameter by `filter`.
    pub fn set_subscription_filter(&mut self, filter: &SubscriptionFilter) -> (r: Result<()>)
        ensures
            match spec_encode_filter(*filter) {
                Ok(b) => r is Ok && final(self)@ == spec_remove_key(old(self)@, PARAM_SUBSCRIPTION_FILTER).push(
                    KvSpec { key: PARAM_SUBSCRIPTION_FILTER, value: KvValueSpec::Bytes(b) }),
                Err(k) => r matches Err(e) && e.kind() == k && final(self)@ == old(self)@,
            },
    {
        let bytes = match filter.encode_to_vec() {
            Ok(b) => b,
            Err(e) => return Err(e),
        };
        self.remove_key(PARAM_SUBSCRIPTION_FILTER);
        self.add_bytes(PARAM_SUBSCRIPTION_FILTER, bytes);
        Ok(())
    }

    /// The largest-object parameter, decoded, if there is one.
    pub fn get_largest_object(&self) -> (r: Result<Option<Location>>)
        ensures
            match spec_get_bytes(self@, PARAM_LARGEST_OBJECT) {
                None => r == Ok::<Option<Location>, Error>(None),
                Some(b) => match spec_parse_location(b) {
                    Ok((l, _)) => r == Ok::<Option<Location>, Error>(Some(l)),
                    Err(k) => r matches Err(e) && e.kind() == k,
                },
            },
    {
        match self.get_bytes(PARAM_LARGEST_OBJECT) {
            Some(bytes) => {
                let mut c = Cursor::new(bytes);
                match Location::decode(&mut c) {
                    Ok(l) => Ok(Some(l)),
                    Err(e) => Err(e),
                }
            },
            None => Ok(None),
        }
    }

    /// Replaces every largest-object parameter by `loc`.
    pub fn set_largest_object(&mut self, loc: &Location) -> (r: Result<()>)
        ensures
            match spec_encode_location(*loc) {
                Ok(b) => r is Ok && final(self)@ == spec_remove_key(old(self)@, PARAM_LARGEST_OBJECT).push(
                    KvSpec { key: PARAM_LARGEST_OBJECT, value: KvValueSpec::Bytes(b) }),
                Err(k) => r matches Err(e) && e.kind() == k && final(self)@ == old(self)@,
            },
    {
        let bytes = match loc.encode_to_vec() {
            Ok(b) => b,
            Err(e) => return Err(e),
        };
        self.remove_key(PARAM_LARGEST_OBJECT);
        self.add_bytes(PARAM_LARGEST_OBJECT, bytes);
        Ok(())
    }

    pub fn get_forward(&self) -> (r: Option<bool>)
        ensures
            r == (match spec_get_varint(self@, PARAM_FORWARD) {
                Some(v) => Some(v != 0),
                None => None::<bool>,
            }),
    {
        match self.get_varint(PARAM_FORWARD) {
            Some(v) => Some(v != 0),
            None => None,
        }
    }

    pub fn set_forward(&mut self, forward: bool)
        ensures
            final(self)@ == spec_remove_key(old(self)@, PARAM_FORWARD).push(
                KvSpec { key: PARAM_FORWARD, value: KvValueSpec::Varint(if forward { 1 } else { 0 }) }),
    {
        self.remove_key(PARAM_FORWARD);
        self.add_varint(PARAM_FORWARD, if forward { 1 } else { 0 });
    }

    /// The subscriber priority, truncated to its low byte.
    pub fn get_subscriber_priority(&self) -> (r: Option<u8>)
        ensures
            r == (match spec_get_varint(self@, PARAM_SUBSCRIBER_PRIORITY) {
                Some(v) => Some(v as u8),
                None => None::<u8>,
            }),
    {
        match self.get_varint(PARAM_SUBSCRIBER_PRIORITY) {
            Some(v) => Some(v as u8),
            None => None,
        }
    }

    pub fn set_subscriber_priority(&mut self, priority: u8)
        ensures
            final(self)@ == spec_remove_key(old(self)@, PARAM_SUBSCRIBER_PRIORITY).push(
                KvSpec { key: PARAM_SUBSCRIBER_PRIORITY, value: KvValueSpec::Varint(priority as u64) }),
    {
        self.remove_key(PARAM_SUBSCRIBER_PRIORITY);
        self.add_varint(PARAM_SUBSCRIBER_PRIORITY, priority as u64);
    }

    pub fn get_delivery_timeout(&self) -> (r: Option<u64>)
        ensures
            r == spec_get_varint(self@, PARAM_DELIVERY_TIMEOUT),
    {
        self.get_varint(PARAM_DELIVERY_TIMEOUT)
    }

    pub fn set_delivery_timeout(&mut self, timeout_ms: u64)
        ensures
            final(self)@ == spec_remove_key(old(self)@, PARAM_DELIVERY_TIMEOUT).push(
                KvSpec { key: PARAM_DELIVERY_TIMEOUT, value: KvValueSpec::Varint(timeout_ms) }),
    {
        self.remove_key(PARAM_DELIVERY_TIMEOUT);
        self.add_varint(PARAM_DELIVERY_TIMEOUT, timeout_ms);
    }

    pub fn get_expires(&self) -> (r: Option<u64>)
        ensures
            r == spec_get_varint(self@, PARAM_EXPIRES),
    {
        self.get_varint(PARAM_EXPIRES)
    }

    pub fn set_expires(&mut self, expires_ms: u64)
        ensures
            final(self)@ == spec_remove_key(old(self)@, PARAM_EXPIRES).push(
                KvSpec { key: PARAM_EXPIRES, value: KvValueSpec::Varint(expires_ms) }),
    {
        self.remove_key(PARAM_EXPIRES);
        self.add_varint(PARAM_EXPIRES, expires_ms);
    }
}

// ---------------------------------------------------------------------------
// Wire format
// ---------------------------------------------------------------------------

/// A count, then the pairs in key order.
pub open spec fn spec_encode_params(ps: Seq<KvSpec>) -> core::result::Result<Seq<u8>, ErrorKind> {
    if ps.len() > crate::quic_varint::spec_max_varint() {
        Err(ErrorKind::VarintOverflow)
    } else {
        spec_cat(spec_encode_varint(ps.len() as u64), spec_encode_kvs(spec_sort_kvs(ps), 0))
    }
}

/// A count, then that many pairs.
pub open spec fn spec_parse_params(s: Seq<u8>) -> SpecParse<Seq<KvSpec>> {
    match spec_parse_varint(s) {
        Err(k) => Err(k),
        Ok((count, n)) => spec_prepend(Seq::empty(), n, spec_parse_kvs(s.skip(n as int), count as nat, 0)),
    }
}

impl Encode for Parameters {
    open spec fn spec_encode(v: Seq<KvSpec>) -> core::result::Result<Seq<u8>, ErrorKind> {
        spec_encode_params(v)
    }

    fn encode(&self, buf: &mut Vec<u8>) -> (r: Result<()>) {
        let sorted = self.sorted();
        proof {
            lemma_sort_kvs(self@);
        }
        match write_varint(buf, sorted.len() as u64) {
            Ok(()) => {},
            Err(e) => return Err(e),
        }
        let ghost mid = buf@;
        match encode_key_value_pairs(buf, sorted.as_slice()) {
            Ok(()) => {},
            Err(e) => return Err(e),
        }
        proof {
            let a = spec_encode_varint(self@.len() as u64)->Ok_0;
            let b = spec_encode_kvs(spec_sort_kvs(self@), 0)->Ok_0;
            assert(buf@ =~= old(buf)@ + (a + b));
        }
        Ok(())
    }
}

impl Decode for Parameters {
    open spec fn spec_parse(s: Seq<u8>) -> SpecParse<Seq<KvSpec>> {
        spec_parse_params(s)
    }

    fn decode(cursor: &mut Cursor<'_>) -> (r: Result<Self>) {
        let ghost s = cursor.rest();
        let count = match cursor.read_varint() {
            Ok(c) => c,
            Err(e) => return Err(e),
        };
        let ghost n = spec_parse_varint(s)->Ok_0.1;
        let pairs = match decode_kvs(cursor, count) {
            Ok(p) => p,
            Err(e) => return Err(e),
        };
        proof {
            let m = spec_parse_kvs(s.skip(n as int), count as nat, 0)->Ok_0.1;
            assert(s.skip(n as int).skip(m as int) =~= s.skip((n + m) as int));
            assert(Seq::<KvSpec>::empty() + spec_kvs_view(pairs@) =~= spec_kvs_view(pairs@));
        }
        Ok(Parameters(pairs))
    }
}

/// Parameters read back from their encoding come out in key order: the
/// stable sort of what was written.
pub proof fn law_params_roundtrip(ps: Seq<KvSpec>, rest: Seq<u8>)
    requires
        spec_encode_params(ps) is Ok,
    ensures
        spec_parse_params(spec_encode_params(ps)->Ok_0 + rest)
            == Ok::<(Seq<KvSpec>, nat), ErrorKind>((spec_sort_kvs(ps), spec_encode_params(ps)->Ok_0.len())),
{
    let a = spec_encode_varint(ps.len() as u64)->Ok_0;
    let b = spec_encode_kvs(spec_sort_kvs(ps), 0)->Ok_0;
    let s = spec_encode_params(ps)->Ok_0 + rest;
    assert(s =~= a + (b + rest));
    lemma_varint_parse_roundtrip(ps.len() as u64, b + rest);
    lemma_sort_kvs(ps);
    law_kvs_roundtrip(spec_sort_kvs(ps), 0, rest);
    assert(Seq::<KvSpec>::empty() + spec_sort_kvs(ps) =~= spec_sort_kvs(ps));
}

/// Sorting an already key-ordered list changes nothing.
pub proof fn lemma_sort_sorted(ps: Seq<KvSpec>)
    requires
        spec_sorted_by_key(ps),
    ensures
        spec_sort_kvs(ps) == ps,
    decreases ps.len(),
{
    if ps.len() > 0 {
        let d = ps.drop_last();
        assert(spec_sorted_by_key(d));
        lemma_sort_sorted(d);
        lemma_insert_pos_bound(d, ps.last());
        assert(d.len() == 0 || d.last().key <= ps.last().key);
        assert(spec_insert_pos(d, ps.last()) == d.len());
        assert(d.insert(d.len() as int, ps.last()) =~= ps);
    }
}

/// Encoding sorts: encoding parameters gives the bytes of their sorted
/// copy, so the two are equal on the wire.
proof fn lemma_remove_key_none(ps: Seq<KvSpec>, key: u64)
    ensures
        forall|i: int| 0 <= i < spec_remove_key(ps, key).len() ==> (#[trigger] spec_remove_key(ps, key)[i]).key != key,
    decreases ps.len(),
{
    if ps.len() > 0 {
        lemma_remove_key_none(ps.drop_last(), key);
    }
}

proof fn lemma_get_bytes_last(x: Seq<KvSpec>, key: u64, b: Seq<u8>)
    requires
        forall|i: int| 0 <= i < x.len() ==> (#[trigger] x[i]).key != key,
    ensures
        spec_get_bytes(x.push(KvSpec { key, value: KvValueSpec::Bytes(b) }), key) == Some(b),
    decreases x.len(),
{
    let e = KvSpec { key, value: KvValueSpec::Bytes(b) };
    if x.len() == 0 {
        assert(x.push(e)[0] == e);
    } else {
        assert(x[0].key != key);
        assert(x.push(e)[0] == x[0]);
        assert(x.push(e).drop_first() =~= x.drop_first().push(e));
        assert forall|i: int| 0 <= i < x.drop_first().len() implies (#[trigger] x.drop_first()[i]).key != key by {
            assert(x.drop_first()[i] == x[i + 1]);
        }
        lemma_get_bytes_last(x.drop_first(), key, b);
    }
}

/// Setting the subscription filter and reading it back gives the filter
/// that was set.
pub proof fn law_subscription_filter_set_get(ps: Seq<KvSpec>, f: SubscriptionFilter)
    requires
        spec_encode_filter(f) is Ok,
    ensures
        ({
            let b = spec_encode_filter(f)->Ok_0;
            let ps2 = spec_remove_key(ps, PARAM_SUBSCRIPTION_FILTER).push(
                KvSpec { key: PARAM_SUBSCRIPTION_FILTER, value: KvValueSpec::Bytes(b) });
            &&& spec_get_bytes(ps2, PARAM_SUBSCRIPTION_FILTER) == Some(b)
            &&& spec_parse_filter(b) == Ok::<(SubscriptionFilter, nat), ErrorKind>((f, b.len()))
        }),
{
    let b = spec_encode_filter(f)->Ok_0;
    lemma_remove_key_none(ps, PARAM_SUBSCRIPTION_FILTER);
    lemma_get_bytes_last(spec_remove_key(ps, PARAM_SUBSCRIPTION_FILTER), PARAM_SUBSCRIPTION_FILTER, b);
    law_filter_roundtrip(f, Seq::empty());
    assert(b + Seq::<u8>::empty() =~= b);
}

/// Setting the largest-object location and reading it back gives the
/// location that was set.
pub proof fn law_largest_object_set_get(ps: Seq<KvSpec>, l: Location)
    requires
        spec_encode_location(l) is Ok,
    ensures
        ({
            let b = spec_encode_location(l)->Ok_0;
            let ps2 = spec_remove_key(ps, PARAM_LARGEST_OBJECT).push(
                KvSpec { key: PARAM_LARGEST_OBJECT, value: KvValueSpec::Bytes(b) });
            &&& spec_get_bytes(ps2, PARAM_LARGEST_OBJECT) == Some(b)
            &&& spec_parse_location(b) == Ok::<(Location, nat), ErrorKind>((l, b.len()))
        }),
{
    let b = spec_encode_location(l)->Ok_0;
    lemma_remove_key_none(ps, PARAM_LARGEST_OBJECT);
    lemma_get_bytes_last(spec_remove_key(ps, PARAM_LARGEST_OBJECT), PARAM_LARGEST_OBJECT, b);
    law_location_roundtrip(l, Seq::empty());
    assert(b + Seq::<u8>::empty() =~= b);
}

pub proof fn law_params_sort_idempotent(ps: Seq<KvSpec>)
    ensures
        spec_sort_kvs(spec_sort_kvs(ps)) == spec_sort_kvs(ps),
        spec_encode_params(spec_sort_kvs(ps)) == spec_encode_params(ps),
{
    lemma_sort_kvs(ps);
    lemma_sort_sorted(spec_sort_kvs(ps));
}

// ---------------------------------------------------------------------------
// Equality: the same pairs once put in key order
// ---------------------------------------------------------------------------

/// Whether two pairs are equal.
pub fn kv_eq(a: &KeyValuePair, b: &KeyValuePair) -> (r: bool)
    ensures
        r == (a@ == b@),
{
    if a.key != b.key {
        return false;
    }
    match (&a.value, &b.value) {
        (KvValue::Varint(x), KvValue::Varint(y)) => *x == *y,
        (KvValue::Bytes(x), KvValue::Bytes(y)) => bytes_eq(x.as_slice(), y.as_slice()),
        _ => false,
    }
}

/// Whether two lists of pairs are equal, pair by pair.
pub fn kvs_eq(a: &Vec<KeyValuePair>, b: &Vec<KeyValuePair>) -> (r: bool)
    ensures
        r == (spec_kvs_view(a@) == spec_kvs_view(b@)),
{
    if a.len() != b.len() {
        assert(spec_kvs_view(a@).len() != spec_kvs_view(b@).len());
        return false;
    }
    let mut i: usize = 0;
    while i < a.len()
        invariant
            a@.len() == b@.len(),
            i <= a@.len(),
            forall|j: int| 0 <= j < i ==> a@[j]@ == b@[j]@,
        decreases a@.len() - i,
    {
        if !kv_eq(&a[i], &b[i]) {
            assert(spec_kvs_view(a@)[i as int] != spec_kvs_view(b@)[i as int]);
            return false;
        }
        i = i + 1;
    }
    assert(spec_kvs_view(a@) =~= spec_kvs_view(b@));
    true
}

impl PartialEq for Parameters {
    fn eq(&self, other: &Self) -> (r: bool) {
        let a = self.sorted();
        let b = other.sorted();
        kvs_eq(&a, &b)
    }
}

impl PartialEqSpecImpl for Parameters {
    open spec fn obeys_eq_spec() -> bool {
        true
    }

    open spec fn eq_spec(&self, other: &Parameters) -> bool {
        spec_sort_kvs(self@) == spec_sort_kvs(other@)
    }
}

impl Eq for Parameters {}

} // verus!
