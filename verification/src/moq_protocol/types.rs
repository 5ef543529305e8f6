//! Wire structures shared by the control messages: locations, track
//! namespaces, reason phrases, subscription filters and key-value pairs.
use vstd::prelude::*;
use vstd::utf8::{valid_utf8, decode_utf8, encode_utf8, encode_utf8_valid_utf8, encode_utf8_decode_utf8};
use vstd::string::StringSliceAdditionalSpecFns;
use crate::moq_protocol::codec::{
    write_prefixed_bytes, write_varint, write_bytes, Cursor, Decode, Encode, SpecParse,
    spec_parse_prefixed, spec_parse_bytes, spec_encode_prefixed, lemma_prefixed_roundtrip,
    lemma_varint_parse_roundtrip, lemma_skip_concat, lemma_parse_varint_len,
};
use crate::moq_protocol::error::{Error, ErrorKind, KvFault, Result, kv_formatting_error, protocol_violation};
use crate::moq_protocol::varint::{spec_parse_varint, spec_encode_varint};

verus! {

pub const MAX_TRACK_NAMESPACE_FIELDS: usize = 32;
pub const MAX_FULL_TRACK_NAME_BYTES: usize = 4096;
pub const MAX_REASON_PHRASE_BYTES: usize = 1024;
pub const MAX_KV_VALUE_BYTES: usize = 65535;

/// Sequential composition of two encodings: the first error wins.
pub open spec fn spec_cat(a: core::result::Result<Seq<u8>, ErrorKind>, b: core::result::Result<Seq<u8>, ErrorKind>) -> core::result::Result<Seq<u8>, ErrorKind> {
    match a {
        Err(k) => Err(k),
        Ok(x) => match b {
            Err(k) => Err(k),
            Ok(y) => Ok(x + y),
        },
    }
}

/// A parse that follows `used` bytes already parsed into `done`.
pub open spec fn spec_prepend<X>(done: Seq<X>, used: nat, r: SpecParse<Seq<X>>) -> SpecParse<Seq<X>> {
    match r {
        Err(k) => Err(k),
        Ok((t, m)) => Ok((done + t, used + m)),
    }
}

/// Byte-wise equality of two byte strings.
pub fn bytes_eq(a: &[u8], b: &[u8]) -> (r: bool)
    ensures
        r == (a@ == b@),
{
    if a.len() != b.len() {
        return false;
    }
    let mut i: usize = 0;
    while i < a.len()
        invariant
            a@.len() == b@.len(),
            i <= a@.len(),
            forall|j: int| 0 <= j < i ==> a@[j] == b@[j],
        decreases a@.len() - i,
    {
        if a[i] != b[i] {
            return false;
        }
        i = i + 1;
    }
    assert(a@ =~= b@);
    true
}

// ---------------------------------------------------------------------------
// Location
// ---------------------------------------------------------------------------

#[derive(Debug, Clone, PartialEq, Eq)]
pub struct Location {
    pub group: u64,
    pub object: u64,
}

impl View for Location {
    type V = Location;

    open spec fn view(&self) -> Location {
        *self
    }
}

impl Location {
    pub fn duplicate(&self) -> (r: Location)
        ensures
            r == *self,
    {
        Location { group: self.group, object: self.object }
    }
}

pub open spec fn spec_encode_location(l: Location) -> core::result::Result<Seq<u8>, ErrorKind> {
    spec_cat(spec_encode_varint(l.group), spec_encode_varint(l.object))
}

pub open spec fn spec_parse_location(s: Seq<u8>) -> SpecParse<Location> {
    match spec_parse_varint(s) {
        Err(k) => Err(k),
        Ok((g, n)) => match spec_parse_varint(s.skip(n as int)) {
            Err(k) => Err(k),
            Ok((o, m)) => Ok((Location { group: g, object: o }, n + m)),
        },
    }
}

impl Encode for Location {
    open spec fn spec_encode(v: Location) -> core::result::Result<Seq<u8>, ErrorKind> {
        spec_encode_location(v)
    }

    fn encode(&self, buf: &mut Vec<u8>) -> (r: Result<()>) {
        match write_varint(buf, self.group) {
            Ok(()) => {},
            Err(e) => return Err(e),
        }
        match write_varint(buf, self.object) {
            Ok(()) => {},
            Err(e) => return Err(e),
        }
        assert(buf@ =~= old(buf)@ + spec_encode_location(*self)->Ok_0);
        Ok(())
    }
}

impl Decode for Location {
    open spec fn spec_parse(s: Seq<u8>) -> SpecParse<Location> {
        spec_parse_location(s)
    }

    fn decode(cursor: &mut Cursor<'_>) -> (r: Result<Self>) {
        let ghost s = cursor.rest();
        let group = match cursor.read_varint() {
            Ok(v) => v,
            Err(e) => return Err(e),
        };
        let object = match cursor.read_varint() {
            Ok(v) => v,
            Err(e) => return Err(e),
        };
        proof {
            let n = spec_parse_varint(s)->Ok_0.1;
            let m = spec_parse_varint(s.skip(n as int))->Ok_0.1;
            assert(s.skip(n as int).skip(m as int) =~= s.skip((n + m) as int));
        }
        Ok(Location { group, object })
    }
}

/// A location survives encoding and decoding.
pub proof fn law_location_roundtrip(l: Location, rest: Seq<u8>)
    requires
        spec_encode_location(l) is Ok,
    ensures
        spec_parse_location(spec_encode_location(l)->Ok_0 + rest)
            == Ok::<(Location, nat), ErrorKind>((l, spec_encode_location(l)->Ok_0.len())),
{
    let a = spec_encode_varint(l.group)->Ok_0;
    let b = spec_encode_varint(l.object)->Ok_0;
    let s = spec_encode_location(l)->Ok_0 + rest;
    assert(s =~= a + (b + rest));
    lemma_varint_parse_roundtrip(l.group, b + rest);
    lemma_varint_parse_roundtrip(l.object, rest);
}

// ---------------------------------------------------------------------------
// Track namespace fields
// ---------------------------------------------------------------------------

/// View of a list of byte strings.
pub open spec fn spec_fields_view(fields: Seq<Vec<u8>>) -> Seq<Seq<u8>> {
    fields.map_values(|f: Vec<u8>| f@)
}

pub proof fn lemma_fields_view_push(a: Seq<Vec<u8>>, v: Vec<u8>)
    ensures
        spec_fields_view(a.push(v)) == spec_fields_view(a).push(v@),
        spec_fields_view(a).len() == a.len(),
{
    assert(spec_fields_view(a.push(v)) =~= spec_fields_view(a).push(v@));
}

pub proof fn lemma_fields_view_index(a: Seq<Vec<u8>>, i: int)
    requires
        0 <= i < a.len(),
    ensures
        spec_fields_view(a)[i] == a[i]@,
        spec_fields_view(a).len() == a.len(),
{
}

/// Bytes of each string of a list.
pub open spec fn spec_strs_bytes(parts: Seq<&str>) -> Seq<Seq<u8>> {
    parts.map_values(|p: &str| p.spec_bytes())
}

/// Encoding of the namespace fields, one length-prefixed string each.
pub open spec fn spec_encode_fields(fs: Seq<Seq<u8>>) -> core::result::Result<Seq<u8>, ErrorKind>
    decreases fs.len(),
{
    if fs.len() == 0 {
        Ok(Seq::empty())
    } else {
        spec_cat(spec_encode_fields(fs.drop_last()), spec_encode_prefixed(fs.last()))
    }
}

/// Encoding of a field list: its count, then the fields.
pub open spec fn spec_encode_namespace(fs: Seq<Seq<u8>>) -> core::result::Result<Seq<u8>, ErrorKind> {
    spec_cat(spec_encode_varint(fs.len() as u64), spec_encode_fields(fs))
}

/// Parser for `k` non-empty length-prefixed fields.
pub open spec fn spec_parse_fields(s: Seq<u8>, k: nat) -> SpecParse<Seq<Seq<u8>>>
    decreases k,
{
    if k == 0 {
        Ok((Seq::empty(), 0))
    } else {
        match spec_parse_prefixed(s) {
            Err(e) => Err(e),
            Ok((f, n)) => if f.len() == 0 {
                Err(ErrorKind::ProtocolViolation)
            } else {
                spec_prepend(seq![f], n, spec_parse_fields(s.skip(n as int), (k - 1) as nat))
            },
        }
    }
}

pub open spec fn spec_parse_namespace(s: Seq<u8>) -> SpecParse<Seq<Seq<u8>>> {
    match spec_parse_varint(s) {
        Err(k) => Err(k),
        Ok((count, n)) => if count == 0 || count > 32 {
            Err(ErrorKind::ProtocolViolation)
        } else {
            spec_prepend(Seq::empty(), n, spec_parse_fields(s.skip(n as int), count as nat))
        },
    }
}

pub open spec fn spec_parse_namespace_prefix(s: Seq<u8>) -> SpecParse<Seq<Seq<u8>>> {
    match spec_parse_varint(s) {
        Err(k) => Err(k),
        Ok((count, n)) => if count > 32 {
            Err(ErrorKind::ProtocolViolation)
        } else {
            spec_prepend(Seq::empty(), n, spec_parse_fields(s.skip(n as int), count as nat))
        },
    }
}

/// Sum of the field lengths.
pub open spec fn spec_total_len(fs: Seq<Seq<u8>>) -> nat
    decreases fs.len(),
{
    if fs.len() == 0 {
        0
    } else {
        spec_total_len(fs.drop_last()) + fs.last().len()
    }
}

/// What `TrackNamespace::new` accepts: 1 to 32 fields, none empty, at most
/// 4096 bytes in all.
pub open spec fn spec_valid_namespace(fs: Seq<Seq<u8>>) -> bool {
    &&& 1 <= fs.len() <= 32
    &&& forall|i: int| 0 <= i < fs.len() ==> #[trigger] fs[i].len() > 0
    &&& spec_total_len(fs) <= 4096
}

/// What the decoder accepts of a namespace's fields: 1 to 32, none empty.
pub open spec fn spec_decodable_namespace(fs: Seq<Seq<u8>>) -> bool {
    &&& 1 <= fs.len() <= 32
    &&& forall|i: int| 0 <= i < fs.len() ==> #[trigger] fs[i].len() > 0
}

/// What the decoder accepts of a prefix's fields: at most 32, none empty.
pub open spec fn spec_decodable_prefix(fs: Seq<Seq<u8>>) -> bool {
    &&& fs.len() <= 32
    &&& forall|i: int| 0 <= i < fs.len() ==> #[trigger] fs[i].len() > 0
}

/// Appends the fields, one length-prefixed string each.
fn encode_fields(buf: &mut Vec<u8>, fields: &Vec<Vec<u8>>) -> (r: Result<()>)
    ensures
        match spec_encode_fields(spec_fields_view(fields@)) {
            Ok(b) => r is Ok && final(buf)@ == old(buf)@ + b,
            Err(k) => r matches Err(e) && e.kind() == k,
        },
{
    let ghost fs = spec_fields_view(fields@);
    let mut i: usize = 0;
    while i < fields.len()
        invariant
            i <= fields@.len(),
            fs == spec_fields_view(fields@),
            spec_encode_fields(fs.take(i as int)) is Ok,
            buf@ == old(buf)@ + spec_encode_fields(fs.take(i as int))->Ok_0,
            forall|j: int| i <= j <= fields@.len() ==>
                (#[trigger] spec_encode_fields(fs.take(j)) is Ok ==> spec_encode_fields(fs.take(i as int)) is Ok),
        decreases fields@.len() - i,
    {
        assert(fs.take(i + 1).drop_last() =~= fs.take(i as int));
        assert(fs.take(i + 1).last() == fields@[i as int]@);
        match write_prefixed_bytes(buf, fields[i].as_slice()) {
            Ok(()) => {},
            Err(e) => {
                proof {
                    lemma_encode_fields_err_extends(fs, (i + 1) as nat);
                    assert(fs.take(fields@.len() as int) =~= fs);
                }
                return Err(e);
            },
        }
        i = i + 1;
        assert(buf@ =~= old(buf)@ + spec_encode_fields(fs.take(i as int))->Ok_0);
    }
    assert(fs.take(i as int) =~= fs);
    Ok(())
}

/// Once an encoding of a prefix of the fields fails, every longer one fails
/// with the same error.
proof fn lemma_encode_fields_err_extends(fs: Seq<Seq<u8>>, i: nat)
    requires
        i <= fs.len(),
        spec_encode_fields(fs.take(i as int)) is Err,
    ensures
        forall|j: nat| i <= j <= fs.len() ==> spec_encode_fields(fs.take(j as int)) == spec_encode_fields(fs.take(i as int)),
    decreases fs.len() - i,
{
    if i < fs.len() {
        let j = (i + 1) as nat;
        assert(fs.take(j as int).drop_last() =~= fs.take(i as int));
        lemma_encode_fields_err_extends(fs, j);
    }
}

/// Reads `count` non-empty length-prefixed fields.
fn decode_fields(cursor: &mut Cursor<'_>, count: u64) -> (r: Result<Vec<Vec<u8>>>)
    ensures
        final(cursor).data() == old(cursor).data(),
        match spec_parse_fields(old(cursor).rest(), count as nat) {
            Ok((v, n)) => r matches Ok(x) && spec_fields_view(x@) == v && n <= old(cursor).rest().len()
                && final(cursor).pos() == old(cursor).pos() + n
                && final(cursor).rest() == old(cursor).rest().skip(n as int),
            Err(k) => r matches Err(e) && e.kind() == k,
        },
{
    let ghost s0 = cursor.rest();
    let ghost p0 = cursor.pos();
    let mut fields: Vec<Vec<u8>> = Vec::new();
    let mut i: u64 = 0;
    let ghost mut used: nat = 0;
    while i < count
        invariant
            i <= count,
            cursor.data() == old(cursor).data(),
            used <= s0.len(),
            s0 == old(cursor).rest(),
            p0 == old(cursor).pos(),
            cursor.rest() == s0.skip(used as int),
            cursor.pos() == p0 + used,
            spec_parse_fields(s0, count as nat) == spec_prepend(
                spec_fields_view(fields@), used, spec_parse_fields(cursor.rest(), (count - i) as nat)),
        decreases count - i,
    {
        let ghost cur = cursor.rest();
        let ghost done = spec_fields_view(fields@);
        let ghost k = (count - i) as nat;
        assert(spec_parse_fields(cur, k) == match spec_parse_prefixed(cur) {
            Err(e) => Err(e),
            Ok((f, n)) => if f.len() == 0 {
                Err(ErrorKind::ProtocolViolation)
            } else {
                spec_prepend(seq![f], n, spec_parse_fields(cur.skip(n as int), (k - 1) as nat))
            },
        });
        let field = match cursor.read_prefixed_bytes() {
            Ok(f) => f,
            Err(e) => {
                assert(spec_parse_fields(s0, count as nat) == spec_parse_fields(cur, k));
                return Err(e);
            },
        };
        if field.len() == 0 {
            assert(spec_parse_fields(s0, count as nat) == spec_parse_fields(cur, k));
            return Err(protocol_violation("track namespace field must not be empty"));
        }
        let v = vstd::slice::slice_to_vec(field);
        proof {
            let n = spec_parse_prefixed(cur)->Ok_0.1;
            let tail = spec_parse_fields(cur.skip(n as int), (count - i - 1) as nat);
            lemma_fields_view_push(fields@, v);
            match tail {
                Ok((t, m)) => {
                    assert(done + (seq![field@] + t) =~= done.push(v@) + t);
                },
                Err(_) => {},
            }
            assert(cursor.rest() == s0.skip((used + n) as int)) by {
                assert(cur.skip(n as int) =~= s0.skip((used + n) as int));
            }
        }
        fields.push(v);
        proof {
            used = used + spec_parse_prefixed(cur)->Ok_0.1;
        }
        i = i + 1;
    }
    proof {
        assert(spec_fields_view(fields@) + Seq::<Seq<u8>>::empty() =~= spec_fields_view(fields@));
    }
    Ok(fields)
}

/// Fields decode back from their encoding.
pub proof fn lemma_fields_roundtrip(fs: Seq<Seq<u8>>, rest: Seq<u8>)
    requires
        spec_encode_fields(fs) is Ok,
        forall|i: int| 0 <= i < fs.len() ==> #[trigger] fs[i].len() > 0,
    ensures
        spec_parse_fields(spec_encode_fields(fs)->Ok_0 + rest, fs.len())
            == Ok::<(Seq<Seq<u8>>, nat), ErrorKind>((fs, spec_encode_fields(fs)->Ok_0.len())),
    decreases fs.len(),
{
    if fs.len() > 0 {
        lemma_encode_fields_split(fs);
        let f0 = fs[0];
        let tl = fs.drop_first();
        let a = spec_encode_prefixed(f0)->Ok_0;
        let b = spec_encode_fields(tl)->Ok_0;
        let s = spec_encode_fields(fs)->Ok_0 + rest;
        assert(s =~= a + (b + rest));
        lemma_prefixed_roundtrip(f0, b + rest);
        assert(spec_parse_prefixed(s) == Ok::<(Seq<u8>, nat), ErrorKind>((f0, a.len())));
        assert(s.skip(a.len() as int) == b + rest);
        assert(f0.len() > 0);
        assert forall|i: int| 0 <= i < tl.len() implies #[trigger] tl[i].len() > 0 by {
            assert(tl[i] == fs[i + 1]);
        }
        lemma_fields_roundtrip(tl, rest);
        assert(spec_parse_fields(b + rest, tl.len()) == Ok::<(Seq<Seq<u8>>, nat), ErrorKind>((tl, b.len())));
        assert(seq![f0] + tl =~= fs);
        assert(spec_encode_fields(fs)->Ok_0 == a + b);
        assert(spec_parse_fields(s, fs.len()) == spec_prepend(seq![f0], a.len(), spec_parse_fields(b + rest, tl.len())));
        assert(spec_parse_fields(s, fs.len()) == Ok::<(Seq<Seq<u8>>, nat), ErrorKind>((seq![f0] + tl, a.len() + b.len())));
    } else {
        assert(fs =~= Seq::<Seq<u8>>::empty());
    }
}

/// Encoding fields front-first: the first field, then the others.
proof fn lemma_encode_fields_split(fs: Seq<Seq<u8>>)
    requires
        fs.len() > 0,
    ensures
        spec_encode_fields(fs) == spec_cat(spec_encode_prefixed(fs[0]), spec_encode_fields(fs.drop_first())),
    decreases fs.len(),
{
    if fs.len() == 1 {
        assert(fs.drop_last() =~= Seq::<Seq<u8>>::empty());
        assert(fs.drop_first() =~= Seq::<Seq<u8>>::empty());
        match spec_encode_prefixed(fs[0]) {
            Ok(x) => {
                assert(Seq::<u8>::empty() + x =~= x);
                assert(x + Seq::<u8>::empty() =~= x);
            },
            Err(_) => {},
        }
    } else {
        let init = fs.drop_last();
        lemma_encode_fields_split(init);
        assert(init.drop_first() =~= fs.drop_first().drop_last());
        assert(init[0] == fs[0]);
        assert(fs.drop_first().last() == fs.last());
        match spec_encode_prefixed(fs[0]) {
            Ok(x) => match spec_encode_fields(init.drop_first()) {
                Ok(y) => match spec_encode_prefixed(fs.last()) {
                    Ok(z) => {
                        assert(x + y + z =~= x + (y + z));
                    },
                    Err(_) => {},
                },
                Err(_) => {},
            },
            Err(_) => {},
        }
    }
}

// ---------------------------------------------------------------------------
// TrackNamespace
// ---------------------------------------------------------------------------

#[derive(Debug, Clone, PartialEq, Eq, Hash, Default)]
pub struct TrackNamespace {
    pub fields: Vec<Vec<u8>>,
}

impl View for TrackNamespace {
    type V = Seq<Seq<u8>>;

    open spec fn view(&self) -> Seq<Seq<u8>> {
        spec_fields_view(self.fields@)
    }
}

/// Copies a list of byte strings.
pub fn copy_fields(fields: &Vec<Vec<u8>>) -> (r: Vec<Vec<u8>>)
    ensures
        spec_fields_view(r@) == spec_fields_view(fields@),
{
    let mut out: Vec<Vec<u8>> = Vec::new();
    let mut i: usize = 0;
    while i < fields.len()
        invariant
            i <= fields@.len(),
            spec_fields_view(out@) == spec_fields_view(fields@).take(i as int),
        decreases fields@.len() - i,
    {
        let v = vstd::slice::slice_to_vec(fields[i].as_slice());
        proof {
            lemma_fields_view_push(out@, v);
            lemma_fields_view_index(fields@, i as int);
            assert(spec_fields_view(fields@).take(i as int).push(v@) =~= spec_fields_view(fields@).take(i + 1));
        }
        out.push(v);
        i = i + 1;
    }
    assert(spec_fields_view(fields@).take(i as int) =~= spec_fields_view(fields@));
    out
}

/// Whether the fields of `a` are the first fields of `b`.
pub open spec fn spec_fields_prefix(a: Seq<Seq<u8>>, b: Seq<Seq<u8>>) -> bool {
    a.len() <= b.len() && forall|i: int| 0 <= i < a.len() ==> #[trigger] a[i] == b[i]
}

/// Exec test of `spec_fields_prefix`.
pub fn fields_prefix(a: &Vec<Vec<u8>>, b: &Vec<Vec<u8>>) -> (r: bool)
    ensures
        r == spec_fields_prefix(spec_fields_view(a@), spec_fields_view(b@)),
{
    if a.len() > b.len() {
        return false;
    }
    let mut i: usize = 0;
    while i < a.len()
        invariant
            a@.len() <= b@.len(),
            i <= a@.len(),
            forall|j: int| 0 <= j < i ==> #[trigger] spec_fields_view(a@)[j] == spec_fields_view(b@)[j],
        decreases a@.len() - i,
    {
        proof {
            lemma_fields_view_index(a@, i as int);
            lemma_fields_view_index(b@, i as int);
        }
        if !bytes_eq(a[i].as_slice(), b[i].as_slice()) {
            return false;
        }
        i = i + 1;
    }
    true
}

impl TrackNamespace {
    pub fn new(fields: Vec<Vec<u8>>) -> (r: Result<Self>)
        ensures
            spec_valid_namespace(spec_fields_view(fields@)) ==> (r matches Ok(ns) && ns@ == spec_fields_view(fields@)),
            !spec_valid_namespace(spec_fields_view(fields@)) ==> (r matches Err(e) && e.kind() == ErrorKind::InvalidTrackNamespace),
    {
        let ghost fs = spec_fields_view(fields@);
        if fields.len() == 0 || fields.len() > MAX_TRACK_NAMESPACE_FIELDS {
            return Err(Error::InvalidTrackNamespace("field count must be between 1 and 32".to_owned()));
        }
        let mut i: usize = 0;
        while i < fields.len()
            invariant
                i <= fields@.len(),
                fs == spec_fields_view(fields@),
                forall|j: int| 0 <= j < i ==> #[trigger] fs[j].len() > 0,
            decreases fields@.len() - i,
        {
            proof {
                lemma_fields_view_index(fields@, i as int);
            }
            if fields[i].len() == 0 {
                return Err(Error::InvalidTrackNamespace("namespace field must not be empty".to_owned()));
            }
            i = i + 1;
        }
        let mut total: usize = 0;
        let mut i: usize = 0;
        while i < fields.len()
            invariant
                i <= fields@.len(),
                fs == spec_fields_view(fields@),
                total == spec_total_len(fs.take(i as int)),
                total <= 4096,
            decreases fields@.len() - i,
        {
            assert(fs.take(i + 1).drop_last() =~= fs.take(i as int));
            proof {
                lemma_fields_view_index(fields@, i as int);
            }
            let l = fields[i].len();
            if l > MAX_FULL_TRACK_NAME_BYTES - total {
                proof {
                    lemma_total_len_monotone(fs, (i + 1) as nat);
                    assert(fs.take(fs.len() as int) =~= fs);
                }
                return Err(Error::InvalidTrackNamespace("total length exceeds 4096".to_owned()));
            }
            total = total + l;
            i = i + 1;
        }
        assert(fs.take(i as int) =~= fs);
        Ok(TrackNamespace { fields })
    }

    pub fn from_strings(parts: &[&str]) -> (r: Result<Self>)
        ensures
            ({
                let fs = spec_strs_bytes(parts@);
                &&& spec_valid_namespace(fs) ==> (r matches Ok(ns) && ns@ == fs)
                &&& !spec_valid_namespace(fs) ==> (r matches Err(e) && e.kind() == ErrorKind::InvalidTrackNamespace)
            }),
    {
        let mut fields: Vec<Vec<u8>> = Vec::new();
        let mut i: usize = 0;
        while i < parts.len()
            invariant
                i <= parts@.len(),
                spec_fields_view(fields@) == spec_strs_bytes(parts@).take(i as int),
            decreases parts@.len() - i,
        {
            let b = parts[i].as_bytes();
            let v = vstd::slice::slice_to_vec(b);
            proof {
                lemma_fields_view_push(fields@, v);
                assert(spec_strs_bytes(parts@)[i as int] == parts@[i as int].spec_bytes());
                assert(spec_strs_bytes(parts@).take(i as int).push(v@) =~= spec_strs_bytes(parts@).take(i + 1));
            }
            fields.push(v);
            i = i + 1;
        }
        assert(spec_strs_bytes(parts@).take(i as int) =~= spec_strs_bytes(parts@));
        Self::new(fields)
    }

    pub fn is_prefix_of(&self, other: &TrackNamespace) -> (r: bool)
        ensures
            r == spec_fields_prefix(self@, other@),
    {
        fields_prefix(&self.fields, &other.fields)
    }

    pub fn duplicate(&self) -> (r: Self)
        ensures
            r@ == self@,
    {
        TrackNamespace { fields: copy_fields(&self.fields) }
    }
}

/// The running total only grows: a prefix that exceeds the bound means the
/// whole does.
proof fn lemma_total_len_monotone(fs: Seq<Seq<u8>>, i: nat)
    requires
        i <= fs.len(),
    ensures
        forall|j: nat| i <= j <= fs.len() ==> spec_total_len(fs.take(j as int)) >= spec_total_len(fs.take(i as int)),
    decreases fs.len() - i,
{
    if i < fs.len() {
        let j = (i + 1) as nat;
        assert(fs.take(j as int).drop_last() =~= fs.take(i as int));
        lemma_total_len_monotone(fs, j);
    }
}

/// Appends a field list: count, then the fields.
fn encode_field_list(buf: &mut Vec<u8>, fields: &Vec<Vec<u8>>) -> (r: Result<()>)
    ensures
        match spec_encode_namespace(spec_fields_view(fields@)) {
            Ok(b) => r is Ok && final(buf)@ == old(buf)@ + b,
            Err(k) => r matches Err(e) && e.kind() == k,
        },
{
    match write_varint(buf, fields.len() as u64) {
        Ok(()) => {},
        Err(e) => return Err(e),
    }
    let ghost mid = buf@;
    match encode_fields(buf, fields) {
        Ok(()) => {},
        Err(e) => return Err(e),
    }
    assert(buf@ =~= old(buf)@ + spec_encode_namespace(spec_fields_view(fields@))->Ok_0);
    Ok(())
}

impl Encode for TrackNamespace {
    open spec fn spec_encode(v: Seq<Seq<u8>>) -> core::result::Result<Seq<u8>, ErrorKind> {
        spec_encode_namespace(v)
    }

    fn encode(&self, buf: &mut Vec<u8>) -> (r: Result<()>) {
        encode_field_list(buf, &self.fields)
    }
}

impl Decode for TrackNamespace {
    open spec fn spec_parse(s: Seq<u8>) -> SpecParse<Seq<Seq<u8>>> {
        spec_parse_namespace(s)
    }

    fn decode(cursor: &mut Cursor<'_>) -> (r: Result<Self>) {
        let ghost s = cursor.rest();
        let count = match cursor.read_varint() {
            Ok(c) => c,
            Err(e) => return Err(e),
        };
        if count == 0 || count > 32 {
            return Err(protocol_violation("track namespace field count out of range 1..=32"));
        }
        let ghost n = spec_parse_varint(s)->Ok_0.1;
        let ghost s1 = cursor.rest();
        let fields = match decode_fields(cursor, count) {
            Ok(f) => f,
            Err(e) => return Err(e),
        };
        proof {
            let m = spec_parse_fields(s1, count as nat)->Ok_0.1;
            assert(Seq::<Seq<u8>>::empty() + spec_fields_view(fields@) =~= spec_fields_view(fields@));
            assert(s.skip(n as int).skip(m as int) =~= s.skip((n + m) as int));
        }
        Ok(TrackNamespace { fields })
    }
}

/// A decodable namespace survives encoding and decoding.
pub proof fn law_namespace_roundtrip(fs: Seq<Seq<u8>>, rest: Seq<u8>)
    requires
        spec_encode_namespace(fs) is Ok,
        spec_decodable_namespace(fs),
    ensures
        spec_parse_namespace(spec_encode_namespace(fs)->Ok_0 + rest)
            == Ok::<(Seq<Seq<u8>>, nat), ErrorKind>((fs, spec_encode_namespace(fs)->Ok_0.len())),
{
    let a = spec_encode_varint(fs.len() as u64)->Ok_0;
    let b = spec_encode_fields(fs)->Ok_0;
    assert(spec_encode_namespace(fs)->Ok_0 + rest =~= a + (b + rest));
    lemma_varint_parse_roundtrip(fs.len() as u64, b + rest);
    lemma_fields_roundtrip(fs, rest);
    assert(Seq::<Seq<u8>>::empty() + fs =~= fs);
}

/// A decodable prefix survives encoding and decoding.
pub proof fn law_namespace_prefix_roundtrip(fs: Seq<Seq<u8>>, rest: Seq<u8>)
    requires
        spec_encode_namespace(fs) is Ok,
        spec_decodable_prefix(fs),
    ensures
        spec_parse_namespace_prefix(spec_encode_namespace(fs)->Ok_0 + rest)
            == Ok::<(Seq<Seq<u8>>, nat), ErrorKind>((fs, spec_encode_namespace(fs)->Ok_0.len())),
{
    let a = spec_encode_varint(fs.len() as u64)->Ok_0;
    let b = spec_encode_fields(fs)->Ok_0;
    assert(spec_encode_namespace(fs)->Ok_0 + rest =~= a + (b + rest));
    lemma_varint_parse_roundtrip(fs.len() as u64, b + rest);
    lemma_fields_roundtrip(fs, rest);
    assert(Seq::<Seq<u8>>::empty() + fs =~= fs);
}

/// Track Namespace Prefix — used in SUBSCRIBE_NAMESPACE; unlike a
/// namespace it may have no field (the empty prefix matches everything).
#[derive(Debug, Clone, PartialEq, Eq, Hash, Default)]
pub struct TrackNamespacePrefix {
    pub fields: Vec<Vec<u8>>,
}

impl View for TrackNamespacePrefix {
    type V = Seq<Seq<u8>>;

    open spec fn view(&self) -> Seq<Seq<u8>> {
        spec_fields_view(self.fields@)
    }
}

impl TrackNamespacePrefix {
    pub fn duplicate(&self) -> (r: Self)
        ensures
            r@ == self@,
    {
        TrackNamespacePrefix { fields: copy_fields(&self.fields) }
    }
}

impl Encode for TrackNamespacePrefix {
    open spec fn spec_encode(v: Seq<Seq<u8>>) -> core::result::Result<Seq<u8>, ErrorKind> {
        spec_encode_namespace(v)
    }

    fn encode(&self, buf: &mut Vec<u8>) -> (r: Result<()>) {
        encode_field_list(buf, &self.fields)
    }
}

impl Decode for TrackNamespacePrefix {
    open spec fn spec_parse(s: Seq<u8>) -> SpecParse<Seq<Seq<u8>>> {
        spec_parse_namespace_prefix(s)
    }

    fn decode(cursor: &mut Cursor<'_>) -> (r: Result<Self>) {
        let ghost s = cursor.rest();
        let count = match cursor.read_varint() {
            Ok(c) => c,
            Err(e) => return Err(e),
        };
        if count > 32 {
            return Err(protocol_violation("track namespace prefix field count exceeds 32"));
        }
        let ghost n = spec_parse_varint(s)->Ok_0.1;
        let ghost s1 = cursor.rest();
        let fields = match decode_fields(cursor, count) {
            Ok(f) => f,
            Err(e) => return Err(e),
        };
        proof {
            let m = spec_parse_fields(s1, count as nat)->Ok_0.1;
            assert(Seq::<Seq<u8>>::empty() + spec_fields_view(fields@) =~= spec_fields_view(fields@));
            assert(s.skip(n as int).skip(m as int) =~= s.skip((n + m) as int));
        }
        Ok(TrackNamespacePrefix { fields })
    }
}

// ---------------------------------------------------------------------------
// ReasonPhrase
// ---------------------------------------------------------------------------

#[derive(Debug, Clone, PartialEq, Eq, Default)]
pub struct ReasonPhrase(pub String);

impl View for ReasonPhrase {
    type V = Seq<char>;

    open spec fn view(&self) -> Seq<char> {
        self.0@
    }
}

pub open spec fn spec_encode_reason(v: Seq<char>) -> core::result::Result<Seq<u8>, ErrorKind> {
    let b = encode_utf8(v);
    if b.len() > 1024 {
        Err(ErrorKind::ReasonPhraseTooLong(b.len() as usize))
    } else {
        spec_encode_prefixed(b)
    }
}

pub open spec fn spec_parse_reason(s: Seq<u8>) -> SpecParse<Seq<char>> {
    match spec_parse_varint(s) {
        Err(k) => Err(k),
        Ok((len, n)) => if len > 1024 {
            Err(ErrorKind::ProtocolViolation)
        } else {
            match spec_parse_bytes(s.skip(n as int), len as nat) {
                Err(k) => Err(k),
                Ok((b, m)) => if valid_utf8(b) {
                    Ok((decode_utf8(b), n + m))
                } else {
                    Err(ErrorKind::ProtocolViolation)
                },
            }
        },
    }
}

/// Converts bytes to a `String` through `String::from_utf8`; `None` when
/// the bytes are not valid UTF-8. Claims: the result is `Some` exactly for
/// valid UTF-8, and then holds the characters the bytes encode.
#[verifier::external_body]
pub(crate) fn string_from_utf8(bytes: Vec<u8>) -> (r: Option<String>)
    ensures
        r is Some <==> valid_utf8(bytes@),
        r matches Some(s) ==> s@ == decode_utf8(bytes@),
{
    String::from_utf8(bytes).ok()
}

impl Encode for ReasonPhrase {
    open spec fn spec_encode(v: Seq<char>) -> core::result::Result<Seq<u8>, ErrorKind> {
        spec_encode_reason(v)
    }

    fn encode(&self, buf: &mut Vec<u8>) -> (r: Result<()>)
        ensures
            r is Err ==> final(buf)@ == old(buf)@
                && r == Err::<(), Error>(Error::ReasonPhraseTooLong(encode_utf8(self.0@).len() as usize)),
    {
        let bytes = self.0.as_str().as_bytes();
        if bytes.len() > MAX_REASON_PHRASE_BYTES {
            return Err(Error::ReasonPhraseTooLong(bytes.len()));
        }
        write_prefixed_bytes(buf, bytes)
    }
}

impl Decode for ReasonPhrase {
    open spec fn spec_parse(s: Seq<u8>) -> SpecParse<Seq<char>> {
        spec_parse_reason(s)
    }

    fn decode(cursor: &mut Cursor<'_>) -> (r: Result<Self>) {
        let ghost s = cursor.rest();
        let len = match cursor.read_varint() {
            Ok(l) => l,
            Err(e) => return Err(e),
        };
        if len > 1024 {
            return Err(protocol_violation("reason phrase length exceeds 1024"));
        }
        let ghost n = spec_parse_varint(s)->Ok_0.1;
        let bytes = match cursor.read_bytes(len as usize) {
            Ok(b) => b,
            Err(e) => return Err(e),
        };
        match string_from_utf8(vstd::slice::slice_to_vec(bytes)) {
            Some(st) => {
                proof {
                    assert(s.skip(n as int).skip(len as int) =~= s.skip((n + len) as int));
                }
                Ok(ReasonPhrase(st))
            },
            None => Err(protocol_violation("reason phrase is not valid UTF-8")),
        }
    }
}

/// A reason phrase of at most 1024 bytes survives encoding and decoding.
pub proof fn law_reason_roundtrip(v: Seq<char>, rest: Seq<u8>)
    requires
        spec_encode_reason(v) is Ok,
    ensures
        spec_parse_reason(spec_encode_reason(v)->Ok_0 + rest)
            == Ok::<(Seq<char>, nat), ErrorKind>((v, spec_encode_reason(v)->Ok_0.len())),
{
    let b = encode_utf8(v);
    let l = spec_encode_varint(b.len() as u64)->Ok_0;
    assert(spec_encode_reason(v)->Ok_0 + rest =~= l + (b + rest));
    lemma_varint_parse_roundtrip(b.len() as u64, b + rest);
    assert((b + rest).take(b.len() as int) =~= b);
    encode_utf8_valid_utf8(v);
    encode_utf8_decode_utf8(v);
}

// ---------------------------------------------------------------------------
// Filters and enumerations
// ---------------------------------------------------------------------------

#[derive(Debug, Clone, Copy, PartialEq, Eq)]
pub enum FilterType {
    NextGroupStart,
    LargestObject,
    AbsoluteStart,
    AbsoluteRange,
}

impl FilterType {
    pub open spec fn spec_code(self) -> u64 {
        match self {
            FilterType::NextGroupStart => 0x1,
            FilterType::LargestObject => 0x2,
            FilterType::AbsoluteStart => 0x3,
            FilterType::AbsoluteRange => 0x4,
        }
    }

    pub fn as_u64(&self) -> (r: u64)
        ensures
            r == self.spec_code(),
    {
        match self {
            FilterType::NextGroupStart => 0x1,
            FilterType::LargestObject => 0x2,
            FilterType::AbsoluteStart => 0x3,
            FilterType::AbsoluteRange => 0x4,
        }
    }

    pub fn from_u64(v: u64) -> (r: Result<Self>)
        ensures
            1 <= v <= 4 ==> (r matches Ok(t) && t.spec_code() == v),
            !(1 <= v <= 4) ==> (r matches Err(e) && e.kind() == ErrorKind::InvalidFilterType(v)),
    {
        match v {
            0x1 => Ok(FilterType::NextGroupStart),
            0x2 => Ok(FilterType::LargestObject),
            0x3 => Ok(FilterType::AbsoluteStart),
            0x4 => Ok(FilterType::AbsoluteRange),
            _ => Err(Error::InvalidFilterType(v)),
        }
    }
}

#[derive(Debug, Clone, PartialEq, Eq)]
pub enum SubscriptionFilter {
    NextGroupStart,
    LargestObject,
    AbsoluteStart { start: Location },
    AbsoluteRange { start: Location, end_group: u64 },
}

impl View for SubscriptionFilter {
    type V = SubscriptionFilter;

    open spec fn view(&self) -> SubscriptionFilter {
        *self
    }
}

pub open spec fn spec_encode_filter(f: SubscriptionFilter) -> core::result::Result<Seq<u8>, ErrorKind> {
    match f {
        SubscriptionFilter::NextGroupStart => spec_encode_varint(1),
        SubscriptionFilter::LargestObject => spec_encode_varint(2),
        SubscriptionFilter::AbsoluteStart { start } => spec_cat(spec_encode_varint(3), spec_encode_location(start)),
        SubscriptionFilter::AbsoluteRange { start, end_group } => spec_cat(
            spec_cat(spec_encode_varint(4), spec_encode_location(start)),
            spec_encode_varint(end_group),
        ),
    }
}

pub open spec fn spec_parse_filter(s: Seq<u8>) -> SpecParse<SubscriptionFilter> {
    match spec_parse_varint(s) {
        Err(k) => Err(k),
        Ok((t, n)) => if t == 1 {
            Ok((SubscriptionFilter::NextGroupStart, n))
        } else if t == 2 {
            Ok((SubscriptionFilter::LargestObject, n))
        } else if t == 3 {
            match spec_parse_location(s.skip(n as int)) {
                Err(k) => Err(k),
                Ok((l, m)) => Ok((SubscriptionFilter::AbsoluteStart { start: l }, n + m)),
            }
        } else if t == 4 {
            match spec_parse_location(s.skip(n as int)) {
                Err(k) => Err(k),
                Ok((l, m)) => match spec_parse_varint(s.skip((n + m) as int)) {
                    Err(k) => Err(k),
                    Ok((e, o)) => Ok((SubscriptionFilter::AbsoluteRange { start: l, end_group: e }, n + m + o)),
                },
            }
        } else {
            Err(ErrorKind::InvalidFilterType(t))
        },
    }
}

impl Encode for SubscriptionFilter {
    open spec fn spec_encode(v: SubscriptionFilter) -> core::result::Result<Seq<u8>, ErrorKind> {
        spec_encode_filter(v)
    }

    fn encode(&self, buf: &mut Vec<u8>) -> (r: Result<()>) {
        match self {
            SubscriptionFilter::NextGroupStart => {
                write_varint(buf, FilterType::NextGroupStart.as_u64())
            },
            SubscriptionFilter::LargestObject => {
                write_varint(buf, FilterType::LargestObject.as_u64())
            },
            SubscriptionFilter::AbsoluteStart { start } => {
                match write_varint(buf, FilterType::AbsoluteStart.as_u64()) {
                    Ok(()) => {},
                    Err(e) => return Err(e),
                }
                let r = start.encode(buf);
                assert(r is Ok ==> buf@ =~= old(buf)@ + spec_encode_filter(*self)->Ok_0);
                r
            },
            SubscriptionFilter::AbsoluteRange { start, end_group } => {
                match write_varint(buf, FilterType::AbsoluteRange.as_u64()) {
                    Ok(()) => {},
                    Err(e) => return Err(e),
                }
                match start.encode(buf) {
                    Ok(()) => {},
                    Err(e) => return Err(e),
                }
                let r = write_varint(buf, *end_group);
                assert(r is Ok ==> buf@ =~= old(buf)@ + spec_encode_filter(*self)->Ok_0);
                r
            },
        }
    }
}

impl Decode for SubscriptionFilter {
    open spec fn spec_parse(s: Seq<u8>) -> SpecParse<SubscriptionFilter> {
        spec_parse_filter(s)
    }

    fn decode(cursor: &mut Cursor<'_>) -> (r: Result<Self>) {
        let ghost s = cursor.rest();
        let t = match cursor.read_varint() {
            Ok(v) => v,
            Err(e) => return Err(e),
        };
        let ghost n = spec_parse_varint(s)->Ok_0.1;
        let filter_type = match FilterType::from_u64(t) {
            Ok(f) => f,
            Err(e) => return Err(e),
        };
        match filter_type {
            FilterType::NextGroupStart => Ok(SubscriptionFilter::NextGroupStart),
            FilterType::LargestObject => Ok(SubscriptionFilter::LargestObject),
            FilterType::AbsoluteStart => {
                let start = match Location::decode(cursor) {
                    Ok(l) => l,
                    Err(e) => return Err(e),
                };
                proof {
                    let m = spec_parse_location(s.skip(n as int))->Ok_0.1;
                    assert(s.skip(n as int).skip(m as int) =~= s.skip((n + m) as int));
                }
                Ok(SubscriptionFilter::AbsoluteStart { start })
            },
            FilterType::AbsoluteRange => {
                let start = match Location::decode(cursor) {
                    Ok(l) => l,
                    Err(e) => return Err(e),
                };
                let ghost m = spec_parse_location(s.skip(n as int))->Ok_0.1;
                assert(s.skip(n as int).skip(m as int) =~= s.skip((n + m) as int));
                let end_group = match cursor.read_varint() {
                    Ok(v) => v,
                    Err(e) => return Err(e),
                };
                proof {
                    let o = spec_parse_varint(s.skip((n + m) as int))->Ok_0.1;
                    assert(s.skip((n + m) as int).skip(o as int) =~= s.skip((n + m + o) as int));
                }
                Ok(SubscriptionFilter::AbsoluteRange { start, end_group })
            },
        }
    }
}

/// Subscription filters travel as their wire type, 0x1 for the next group
/// start, 0x2 for the largest object, 0x3 for an absolute start and 0x4
/// for an absolute range: an encoded filter starts with the byte of its
/// type, a decoded filter is the one of the type read, and types 0x1 and
/// 0x2 decode to their filters with nothing more to read.
pub proof fn law_filter_wire_types(f: SubscriptionFilter, s: Seq<u8>)
    ensures
        spec_encode_filter(f) is Ok ==> spec_encode_filter(f)->Ok_0.len() > 0
            && spec_encode_filter(f)->Ok_0[0] == (match f {
                SubscriptionFilter::NextGroupStart => 0x01u8,
                SubscriptionFilter::LargestObject => 0x02u8,
                SubscriptionFilter::AbsoluteStart { .. } => 0x03u8,
                SubscriptionFilter::AbsoluteRange { .. } => 0x04u8,
            }),
        spec_parse_filter(s) is Ok ==> spec_parse_varint(s) is Ok
            && spec_parse_varint(s)->Ok_0.0 == (match spec_parse_filter(s)->Ok_0.0 {
                SubscriptionFilter::NextGroupStart => 0x01u64,
                SubscriptionFilter::LargestObject => 0x02u64,
                SubscriptionFilter::AbsoluteStart { .. } => 0x03u64,
                SubscriptionFilter::AbsoluteRange { .. } => 0x04u64,
            }),
        spec_parse_varint(s) is Ok && spec_parse_varint(s)->Ok_0.0 == 1
            ==> spec_parse_filter(s) == Ok::<(SubscriptionFilter, nat), ErrorKind>((SubscriptionFilter::NextGroupStart, spec_parse_varint(s)->Ok_0.1)),
        spec_parse_varint(s) is Ok && spec_parse_varint(s)->Ok_0.0 == 2
            ==> spec_parse_filter(s) == Ok::<(SubscriptionFilter, nat), ErrorKind>((SubscriptionFilter::LargestObject, spec_parse_varint(s)->Ok_0.1)),
        f is AbsoluteStart && f->AbsoluteStart_start.group <= 0x3FFF_FFFF_FFFF_FFFF && f->AbsoluteStart_start.object <= 0x3FFF_FFFF_FFFF_FFFF
            ==> spec_encode_filter(f) == Ok::<Seq<u8>, ErrorKind>(seq![0x03u8]
                + crate::quic_varint::spec_varint_bytes(f->AbsoluteStart_start.group)
                + crate::quic_varint::spec_varint_bytes(f->AbsoluteStart_start.object)),
        f is AbsoluteRange && f->AbsoluteRange_start.group <= 0x3FFF_FFFF_FFFF_FFFF
            && f->AbsoluteRange_start.object <= 0x3FFF_FFFF_FFFF_FFFF && f->AbsoluteRange_end_group <= 0x3FFF_FFFF_FFFF_FFFF
            ==> spec_encode_filter(f) == Ok::<Seq<u8>, ErrorKind>(seq![0x04u8]
                + crate::quic_varint::spec_varint_bytes(f->AbsoluteRange_start.group)
                + crate::quic_varint::spec_varint_bytes(f->AbsoluteRange_start.object)
                + crate::quic_varint::spec_varint_bytes(f->AbsoluteRange_end_group)),
{
    match f {
        SubscriptionFilter::NextGroupStart => {},
        SubscriptionFilter::LargestObject => {},
        SubscriptionFilter::AbsoluteStart { start } => {
            if spec_encode_filter(f) is Ok {
                assert(spec_encode_filter(f)->Ok_0 =~= crate::quic_varint::spec_varint_bytes(3) + spec_encode_location(start)->Ok_0);
            }
            assert(crate::quic_varint::spec_varint_bytes(3) =~= seq![0x03u8]);
            if start.group <= 0x3FFF_FFFF_FFFF_FFFF && start.object <= 0x3FFF_FFFF_FFFF_FFFF {
                assert(spec_encode_filter(f)->Ok_0 =~= seq![0x03u8]
                    + crate::quic_varint::spec_varint_bytes(start.group) + crate::quic_varint::spec_varint_bytes(start.object));
            }
        },
        SubscriptionFilter::AbsoluteRange { start, end_group } => {
            if spec_encode_filter(f) is Ok {
                assert(spec_encode_filter(f)->Ok_0 =~= crate::quic_varint::spec_varint_bytes(4) + spec_encode_location(start)->Ok_0
                    + spec_encode_varint(end_group)->Ok_0);
            }
            assert(crate::quic_varint::spec_varint_bytes(4) =~= seq![0x04u8]);
            if start.group <= 0x3FFF_FFFF_FFFF_FFFF && start.object <= 0x3FFF_FFFF_FFFF_FFFF && end_group <= 0x3FFF_FFFF_FFFF_FFFF {
                assert(spec_encode_filter(f)->Ok_0 =~= seq![0x04u8]
                    + crate::quic_varint::spec_varint_bytes(start.group) + crate::quic_varint::spec_varint_bytes(start.object)
                    + crate::quic_varint::spec_varint_bytes(end_group));
            }
        },
    }
}

/// A subscription filter survives encoding and decoding.
pub proof fn law_filter_roundtrip(f: SubscriptionFilter, rest: Seq<u8>)
    requires
        spec_encode_filter(f) is Ok,
    ensures
        spec_parse_filter(spec_encode_filter(f)->Ok_0 + rest)
            == Ok::<(SubscriptionFilter, nat), ErrorKind>((f, spec_encode_filter(f)->Ok_0.len())),
{
    let s = spec_encode_filter(f)->Ok_0 + rest;
    match f {
        SubscriptionFilter::NextGroupStart => {
            lemma_varint_parse_roundtrip(1, rest);
        },
        SubscriptionFilter::LargestObject => {
            lemma_varint_parse_roundtrip(2, rest);
        },
        SubscriptionFilter::AbsoluteStart { start } => {
            let a = spec_encode_varint(3)->Ok_0;
            let b = spec_encode_location(start)->Ok_0;
            assert(s =~= a + (b + rest));
            lemma_varint_parse_roundtrip(3, b + rest);
            law_location_roundtrip(start, rest);
        },
        SubscriptionFilter::AbsoluteRange { start, end_group } => {
            let a = spec_encode_varint(4)->Ok_0;
            let b = spec_encode_location(start)->Ok_0;
            let c = spec_encode_varint(end_group)->Ok_0;
            assert(s =~= a + (b + (c + rest)));
            lemma_varint_parse_roundtrip(4, b + (c + rest));
            law_location_roundtrip(start, c + rest);
            lemma_skip_concat(b, c + rest);
            assert(s.skip((a.len() + b.len()) as int) =~= c + rest);
            lemma_varint_parse_roundtrip(end_group, rest);
        },
    }
}

#[derive(Debug, Clone, Copy, PartialEq, Eq)]
pub enum GroupOrder {
    Ascending,
    Descending,
}

impl GroupOrder {
    pub open spec fn spec_code(self) -> u64 {
        match self {
            GroupOrder::Ascending => 0x1,
            GroupOrder::Descending => 0x2,
        }
    }

    pub fn as_u64(&self) -> (r: u64)
        ensures
            r == self.spec_code(),
    {
        match self {
            GroupOrder::Ascending => 0x1,
            GroupOrder::Descending => 0x2,
        }
    }

    pub fn from_u64(v: u64) -> (r: Result<Self>)
        ensures
            (v == 1 || v == 2) ==> (r matches Ok(g) && g.spec_code() == v),
            !(v == 1 || v == 2) ==> (r matches Err(e) && e.kind() == ErrorKind::InvalidValue),
    {
        match v {
            0x1 => Ok(GroupOrder::Ascending),
            0x2 => Ok(GroupOrder::Descending),
            _ => Err(Error::InvalidValue("invalid group order".to_owned())),
        }
    }
}

#[derive(Debug, Clone, Copy, PartialEq, Eq)]
pub enum SubscribeOption {
    Publish,
    Namespace,
    Both,
}

impl View for SubscribeOption {
    type V = SubscribeOption;

    open spec fn view(&self) -> SubscribeOption {
        *self
    }
}

impl SubscribeOption {
    pub open spec fn spec_code(self) -> u64 {
        match self {
            SubscribeOption::Publish => 0x0,
            SubscribeOption::Namespace => 0x1,
            SubscribeOption::Both => 0x2,
        }
    }

    pub fn as_u64(&self) -> (r: u64)
        ensures
            r == self.spec_code(),
    {
        match self {
            SubscribeOption::Publish => 0x0,
            SubscribeOption::Namespace => 0x1,
            SubscribeOption::Both => 0x2,
        }
    }

    pub open spec fn spec_from_code(v: u64) -> core::result::Result<SubscribeOption, ErrorKind> {
        if v == 0 {
            Ok(SubscribeOption::Publish)
        } else if v == 1 {
            Ok(SubscribeOption::Namespace)
        } else if v == 2 {
            Ok(SubscribeOption::Both)
        } else {
            Err(ErrorKind::InvalidValue)
        }
    }

    pub fn from_u64(v: u64) -> (r: Result<Self>)
        ensures
            match Self::spec_from_code(v) {
                Ok(o) => r == Ok::<SubscribeOption, Error>(o),
                Err(k) => r matches Err(e) && e.kind() == k,
            },
    {
        match v {
            0x0 => Ok(SubscribeOption::Publish),
            0x1 => Ok(SubscribeOption::Namespace),
            0x2 => Ok(SubscribeOption::Both),
            _ => Err(Error::InvalidValue("invalid subscribe option".to_owned())),
        }
    }
}

// ---------------------------------------------------------------------------
// Key-value pairs
// ---------------------------------------------------------------------------

/// Key-Value-Pair with delta-encoded types. The struct
/// stores the absolute type; the delta encoding is done on the list.
#[derive(Debug, Clone, PartialEq, Eq)]
pub struct KeyValuePair {
    pub key: u64,
    pub value: KvValue,
}

#[derive(Debug, Clone, PartialEq, Eq)]
pub enum KvValue {
    Varint(u64),
    Bytes(Vec<u8>),
}

/// Mathematical value of a [`KvValue`].
pub enum KvValueSpec {
    Varint(u64),
    Bytes(Seq<u8>),
}

/// Mathematical value of a [`KeyValuePair`].
pub struct KvSpec {
    pub key: u64,
    pub value: KvValueSpec,
}

impl View for KvValue {
    type V = KvValueSpec;

    open spec fn view(&self) -> KvValueSpec {
        match self {
            KvValue::Varint(v) => KvValueSpec::Varint(*v),
            KvValue::Bytes(b) => KvValueSpec::Bytes(b@),
        }
    }
}

impl View for KeyValuePair {
    type V = KvSpec;

    open spec fn view(&self) -> KvSpec {
        KvSpec { key: self.key, value: self.value@ }
    }
}

impl KeyValuePair {
    pub fn duplicate(&self) -> (r: KeyValuePair)
        ensures
            r@ == self@,
    {
        let value = match &self.value {
            KvValue::Varint(v) => KvValue::Varint(*v),
            KvValue::Bytes(b) => KvValue::Bytes(vstd::slice::slice_to_vec(b.as_slice())),
        };
        KeyValuePair { key: self.key, value }
    }
}

/// View of a list of pairs.
pub open spec fn spec_kvs_view(ps: Seq<KeyValuePair>) -> Seq<KvSpec> {
    ps.map_values(|p: KeyValuePair| p@)
}

/// Copies a list of pairs.
pub fn copy_pairs(ps: &Vec<KeyValuePair>) -> (r: Vec<KeyValuePair>)
    ensures
        spec_kvs_view(r@) == spec_kvs_view(ps@),
{
    let mut out: Vec<KeyValuePair> = Vec::new();
    let mut i: usize = 0;
    while i < ps.len()
        invariant
            i <= ps@.len(),
            spec_kvs_view(out@) == spec_kvs_view(ps@).take(i as int),
        decreases ps@.len() - i,
    {
        let p = ps[i].duplicate();
        proof {
            assert(spec_kvs_view(out@.push(p)) =~= spec_kvs_view(out@).push(p@));
            assert(spec_kvs_view(ps@)[i as int] == ps@[i as int]@);
            assert(spec_kvs_view(ps@).take(i as int).push(p@) =~= spec_kvs_view(ps@).take(i + 1));
        }
        out.push(p);
        i = i + 1;
    }
    assert(spec_kvs_view(ps@).take(i as int) =~= spec_kvs_view(ps@));
    out
}

/// Encoding of one pair after a pair of type `prev`.
pub open spec fn spec_encode_kv(p: KvSpec, prev: u64) -> core::result::Result<Seq<u8>, ErrorKind> {
    if p.key < prev {
        Err(ErrorKind::KeyValueFormattingError(KvFault::Decreasing))
    } else {
        spec_cat(
            spec_encode_varint((p.key - prev) as u64),
            match p.value {
                KvValueSpec::Varint(v) => if p.key % 2 != 0 {
                    Err(ErrorKind::KeyValueFormattingError(KvFault::VarintNeedsEven))
                } else {
                    spec_encode_varint(v)
                },
                KvValueSpec::Bytes(b) => if p.key % 2 != 1 {
                    Err(ErrorKind::KeyValueFormattingError(KvFault::BytesNeedOdd))
                } else if b.len() > 65535 {
                    Err(ErrorKind::KeyValueFormattingError(KvFault::TooLong))
                } else {
                    spec_encode_prefixed(b)
                },
            },
        )
    }
}

/// Encoding of a list of pairs, each type delta-encoded against the last.
pub open spec fn spec_encode_kvs(ps: Seq<KvSpec>, prev: u64) -> core::result::Result<Seq<u8>, ErrorKind>
    decreases ps.len(),
{
    if ps.len() == 0 {
        Ok(Seq::empty())
    } else {
        spec_cat(spec_encode_kv(ps[0], prev), spec_encode_kvs(ps.drop_first(), ps[0].key))
    }
}

/// Parser of one pair after a pair of type `prev`.
pub open spec fn spec_parse_kv(s: Seq<u8>, prev: u64) -> SpecParse<KvSpec> {
    match spec_parse_varint(s) {
        Err(k) => Err(k),
        Ok((delta, n)) => if prev + delta > u64::MAX {
            Err(ErrorKind::ProtocolViolation)
        } else {
            let key = (prev + delta) as u64;
            if key % 2 == 0 {
                match spec_parse_varint(s.skip(n as int)) {
                    Err(k) => Err(k),
                    Ok((v, m)) => Ok((KvSpec { key, value: KvValueSpec::Varint(v) }, n + m)),
                }
            } else {
                match spec_parse_varint(s.skip(n as int)) {
                    Err(k) => Err(k),
                    Ok((len, m)) => if len > 65535 {
                        Err(ErrorKind::ProtocolViolation)
                    } else {
                        match spec_parse_bytes(s.skip((n + m) as int), len as nat) {
                            Err(k) => Err(k),
                            Ok((b, o)) => Ok((KvSpec { key, value: KvValueSpec::Bytes(b) }, n + m + o)),
                        }
                    },
                }
            }
        },
    }
}

/// Parser of `k` pairs.
pub open spec fn spec_parse_kvs(s: Seq<u8>, k: nat, prev: u64) -> SpecParse<Seq<KvSpec>>
    decreases k,
{
    if k == 0 {
        Ok((Seq::empty(), 0))
    } else {
        match spec_parse_kv(s, prev) {
            Err(e) => Err(e),
            Ok((p, n)) => spec_prepend(seq![p], n, spec_parse_kvs(s.skip(n as int), (k - 1) as nat, p.key)),
        }
    }
}

/// One pair takes at least one byte and at most all of them.
pub proof fn lemma_parse_kv_len(s: Seq<u8>, prev: u64)
    ensures
        spec_parse_kv(s, prev) matches Ok((p, n)) ==> 1 <= n <= s.len(),
{
    lemma_parse_varint_len(s);
    if let Ok((d, n)) = spec_parse_varint(s) {
        lemma_parse_varint_len(s.skip(n as int));
    }
}

/// Parser of pairs up to the end of the bytes.
pub open spec fn spec_parse_kvs_all(s: Seq<u8>, prev: u64) -> SpecParse<Seq<KvSpec>>
    decreases s.len(),
{
    if s.len() == 0 {
        Ok((Seq::empty(), 0))
    } else {
        match spec_parse_kv(s, prev) {
            Err(e) => Err(e),
            Ok((p, n)) => if 1 <= n <= s.len() {
                spec_prepend(seq![p], n, spec_parse_kvs_all(s.skip(n as int), p.key))
            } else {
                Err(ErrorKind::BufferTooShort)
            },
        }
    }
}

/// Appends one pair; `prev` is the type of the pair before it.
fn encode_kv(buf: &mut Vec<u8>, pair: &KeyValuePair, prev: u64) -> (r: Result<()>)
    ensures
        match spec_encode_kv(pair@, prev) {
            Ok(b) => r is Ok && final(buf)@ == old(buf)@ + b,
            Err(k) => r matches Err(e) && e.kind() == k,
        },
{
    let delta = match pair.key.checked_sub(prev) {
        Some(d) => d,
        None => return Err(kv_formatting_error(KvFault::Decreasing)),
    };
    match write_varint(buf, delta) {
        Ok(()) => {},
        Err(e) => return Err(e),
    }
    let ghost mid = buf@;
    match &pair.value {
        KvValue::Varint(v) => {
            if pair.key % 2 != 0 {
                return Err(kv_formatting_error(KvFault::VarintNeedsEven));
            }
            match write_varint(buf, *v) {
                Ok(()) => {},
                Err(e) => return Err(e),
            }
        },
        KvValue::Bytes(b) => {
            if pair.key % 2 != 1 {
                return Err(kv_formatting_error(KvFault::BytesNeedOdd));
            }
            if b.len() > MAX_KV_VALUE_BYTES {
                return Err(kv_formatting_error(KvFault::TooLong));
            }
            match write_prefixed_bytes(buf, b.as_slice()) {
                Ok(()) => {},
                Err(e) => return Err(e),
            }
        },
    }
    assert(buf@ =~= old(buf)@ + spec_encode_kv(pair@, prev)->Ok_0);
    Ok(())
}

/// Once the encoding of a prefix fails, the whole encoding fails the same way.
proof fn lemma_encode_kvs_prepend(ps: Seq<KvSpec>, i: nat, prev0: u64, prev: u64, done: Seq<u8>)
    requires
        i < ps.len(),
        spec_encode_kvs(ps, prev0) == spec_cat(Ok(done), spec_encode_kvs(ps.skip(i as int), prev)),
    ensures
        ps.skip(i as int)[0] == ps[i as int],
        spec_encode_kvs(ps.skip(i as int), prev) == spec_cat(
            spec_encode_kv(ps[i as int], prev), spec_encode_kvs(ps.skip((i + 1) as int), ps[i as int].key)),
{
    assert(ps.skip(i as int).drop_first() =~= ps.skip((i + 1) as int));
}

/// Appends the pairs, each type delta-encoded against the previous one.
pub fn encode_key_value_pairs(buf: &mut Vec<u8>, pairs: &[KeyValuePair]) -> (r: Result<()>)
    ensures
        match spec_encode_kvs(spec_kvs_view(pairs@), 0) {
            Ok(b) => r is Ok && final(buf)@ == old(buf)@ + b,
            Err(k) => r matches Err(e) && e.kind() == k,
        },
{
    let ghost ps = spec_kvs_view(pairs@);
    let mut prev: u64 = 0;
    let mut i: usize = 0;
    proof {
        assert(buf@.skip(old(buf)@.len() as int) =~= Seq::<u8>::empty());
        assert(ps.skip(0) =~= ps);
        match spec_encode_kvs(ps, 0) {
            Ok(x) => { assert(Seq::<u8>::empty() + x =~= x); },
            Err(_) => {},
        }
    }
    while i < pairs.len()
        invariant
            i <= pairs@.len(),
            ps == spec_kvs_view(pairs@),
            buf@.len() >= old(buf)@.len(),
            buf@.subrange(0, old(buf)@.len() as int) == old(buf)@,
            spec_encode_kvs(ps, 0) == spec_cat(
                Ok(buf@.skip(old(buf)@.len() as int)), spec_encode_kvs(ps.skip(i as int), prev)),
        decreases pairs@.len() - i,
    {
        let ghost before = buf@;
        proof {
            lemma_encode_kvs_prepend(ps, i as nat, 0, prev, buf@.skip(old(buf)@.len() as int));
        }
        match encode_kv(buf, &pairs[i], prev) {
            Ok(()) => {},
            Err(e) => return Err(e),
        }
        proof {
            let d = before.skip(old(buf)@.len() as int);
            let x = spec_encode_kv(ps[i as int], prev)->Ok_0;
            assert(buf@.skip(old(buf)@.len() as int) =~= d + x);
            assert(buf@.subrange(0, old(buf)@.len() as int) =~= old(buf)@);
            match spec_encode_kvs(ps.skip((i + 1) as int), pairs@[i as int].key) {
                Ok(y) => {
                    assert(d + (x + y) =~= (d + x) + y);
                },
                Err(_) => {},
            }
        }
        prev = pairs[i].key;
        i = i + 1;
    }
    proof {
        assert(ps.skip(i as int) =~= Seq::<KvSpec>::empty());
        assert(buf@.skip(old(buf)@.len() as int) + Seq::<u8>::empty() =~= buf@.skip(old(buf)@.len() as int));
        assert(buf@ =~= old(buf)@ + buf@.skip(old(buf)@.len() as int));
    }
    Ok(())
}

/// Reads one pair after a pair of type `prev`.
fn decode_kv(cursor: &mut Cursor<'_>, prev: u64) -> (r: Result<KeyValuePair>)
    ensures
        final(cursor).data() == old(cursor).data(),
        match spec_parse_kv(old(cursor).rest(), prev) {
            Ok((v, n)) => r matches Ok(x) && x@ == v && n <= old(cursor).rest().len()
                && final(cursor).pos() == old(cursor).pos() + n
                && final(cursor).rest() == old(cursor).rest().skip(n as int),
            Err(k) => r matches Err(e) && e.kind() == k,
        },
{
    let ghost s = cursor.rest();
    let delta = match cursor.read_varint() {
        Ok(d) => d,
        Err(e) => return Err(e),
    };
    let ghost n = spec_parse_varint(s)->Ok_0.1;
    let key = match prev.checked_add(delta) {
        Some(k) => k,
        None => return Err(protocol_violation("key-value delta type overflow")),
    };
    if key % 2 == 0 {
        let v = match cursor.read_varint() {
            Ok(v) => v,
            Err(e) => return Err(e),
        };
        proof {
            let m = spec_parse_varint(s.skip(n as int))->Ok_0.1;
            assert(s.skip(n as int).skip(m as int) =~= s.skip((n + m) as int));
        }
        Ok(KeyValuePair { key, value: KvValue::Varint(v) })
    } else {
        let len = match cursor.read_varint() {
            Ok(v) => v,
            Err(e) => return Err(e),
        };
        if len > 65535 {
            return Err(protocol_violation("key-value value length exceeds 65535"));
        }
        let ghost m = spec_parse_varint(s.skip(n as int))->Ok_0.1;
        assert(s.skip(n as int).skip(m as int) =~= s.skip((n + m) as int));
        let b = match cursor.read_bytes(len as usize) {
            Ok(b) => b,
            Err(e) => return Err(e),
        };
        proof {
            assert(s.skip((n + m) as int).skip(len as int) =~= s.skip((n + m + len) as int));
        }
        Ok(KeyValuePair { key, value: KvValue::Bytes(vstd::slice::slice_to_vec(b)) })
    }
}

/// Reads `count` pairs.
pub(crate) fn decode_kvs(cursor: &mut Cursor<'_>, count: u64) -> (r: Result<Vec<KeyValuePair>>)
    ensures
        final(cursor).data() == old(cursor).data(),
        match spec_parse_kvs(old(cursor).rest(), count as nat, 0) {
            Ok((v, n)) => r matches Ok(x) && spec_kvs_view(x@) == v && n <= old(cursor).rest().len()
                && final(cursor).pos() == old(cursor).pos() + n
                && final(cursor).rest() == old(cursor).rest().skip(n as int),
            Err(k) => r matches Err(e) && e.kind() == k,
        },
{
    let ghost s0 = cursor.rest();
    let ghost p0 = cursor.pos();
    let mut pairs: Vec<KeyValuePair> = Vec::new();
    let mut prev: u64 = 0;
    let mut i: u64 = 0;
    let ghost mut used: nat = 0;
    while i < count
        invariant
            i <= count,
            cursor.data() == old(cursor).data(),
            used <= s0.len(),
            s0 == old(cursor).rest(),
            p0 == old(cursor).pos(),
            cursor.rest() == s0.skip(used as int),
            cursor.pos() == p0 + used,
            spec_parse_kvs(s0, count as nat, 0) == spec_prepend(
                spec_kvs_view(pairs@), used, spec_parse_kvs(cursor.rest(), (count - i) as nat, prev)),
        decreases count - i,
    {
        let ghost cur = cursor.rest();
        let ghost done = spec_kvs_view(pairs@);
        let ghost prev0 = prev;
        let pair = match decode_kv(cursor, prev) {
            Ok(p) => p,
            Err(e) => return Err(e),
        };
        let ghost n_step = spec_parse_kv(cur, prev0)->Ok_0.1;
        proof {
            let n = n_step;
            let tail = spec_parse_kvs(cur.skip(n as int), (count - i - 1) as nat, pair.key);
            assert(spec_kvs_view(pairs@.push(pair)) =~= done.push(pair@));
            match tail {
                Ok((t, m)) => {
                    assert(done + (seq![pair@] + t) =~= done.push(pair@) + t);
                },
                Err(_) => {},
            }
            assert(cur.skip(n as int) =~= s0.skip((used + n) as int));
        }
        prev = pair.key;
        pairs.push(pair);
        proof {
            used = used + n_step;
        }
        i = i + 1;
    }
    proof {
        assert(spec_kvs_view(pairs@) + Seq::<KvSpec>::empty() =~= spec_kvs_view(pairs@));
    }
    Ok(pairs)
}

/// Reads `count` pairs, each type delta-decoded against the previous one.
pub fn decode_key_value_pairs(cursor: &mut Cursor<'_>, count: usize) -> (r: Result<Vec<KeyValuePair>>)
    ensures
        final(cursor).data() == old(cursor).data(),
        match spec_parse_kvs(old(cursor).rest(), count as nat, 0) {
            Ok((v, n)) => r matches Ok(x) && spec_kvs_view(x@) == v && n <= old(cursor).rest().len()
                && final(cursor).pos() == old(cursor).pos() + n
                && final(cursor).rest() == old(cursor).rest().skip(n as int),
            Err(k) => r matches Err(e) && e.kind() == k,
        },
{
    decode_kvs(cursor, count as u64)
}

pub fn encode_extensions(buf: &mut Vec<u8>, extensions: &[KeyValuePair]) -> (r: Result<()>)
    ensures
        match spec_encode_kvs(spec_kvs_view(extensions@), 0) {
            Ok(b) => r is Ok && final(buf)@ == old(buf)@ + b,
            Err(k) => r matches Err(e) && e.kind() == k,
        },
{
    encode_key_value_pairs(buf, extensions)
}

/// Reads pairs until the cursor is exhausted.
pub fn decode_extensions_from_remaining(cursor: &mut Cursor<'_>) -> (r: Result<Vec<KeyValuePair>>)
    ensures
        final(cursor).data() == old(cursor).data(),
        match spec_parse_kvs_all(old(cursor).rest(), 0) {
            Ok((v, n)) => r matches Ok(x) && spec_kvs_view(x@) == v && n == old(cursor).rest().len()
                && final(cursor).pos() == old(cursor).pos() + n
                && final(cursor).rest() == old(cursor).rest().skip(n as int),
            Err(k) => r matches Err(e) && e.kind() == k,
        },
{
    let ghost s0 = cursor.rest();
    let ghost p0 = cursor.pos();
    let mut pairs: Vec<KeyValuePair> = Vec::new();
    let mut prev: u64 = 0;
    let ghost mut used: nat = 0;
    while cursor.remaining() > 0
        invariant
            cursor.data() == old(cursor).data(),
            used <= s0.len(),
            s0 == old(cursor).rest(),
            p0 == old(cursor).pos(),
            cursor.rest() == s0.skip(used as int),
            cursor.pos() == p0 + used,
            spec_parse_kvs_all(s0, 0) == spec_prepend(
                spec_kvs_view(pairs@), used, spec_parse_kvs_all(cursor.rest(), prev)),
        decreases cursor.rest().len(),
    {
        let ghost cur = cursor.rest();
        let ghost done = spec_kvs_view(pairs@);
        let ghost prev0 = prev;
        proof {
            lemma_parse_kv_len(cur, prev0);
        }
        let pair = match decode_kv(cursor, prev) {
            Ok(p) => p,
            Err(e) => return Err(e),
        };
        let ghost n_step = spec_parse_kv(cur, prev0)->Ok_0.1;
        proof {
            let n = n_step;
            let tail = spec_parse_kvs_all(cur.skip(n as int), pair.key);
            assert(spec_kvs_view(pairs@.push(pair)) =~= done.push(pair@));
            match tail {
                Ok((t, m)) => {
                    assert(done + (seq![pair@] + t) =~= done.push(pair@) + t);
                },
                Err(_) => {},
            }
            assert(cur.skip(n as int) =~= s0.skip((used + n) as int));
        }
        prev = pair.key;
        pairs.push(pair);
        proof {
            used = used + n_step;
        }
    }
    proof {
        assert(spec_kvs_view(pairs@) + Seq::<KvSpec>::empty() =~= spec_kvs_view(pairs@));
    }
    Ok(pairs)
}

/// Pairs whose encoding succeeds decode back, one pair per encoded pair.
#[verifier::rlimit(30)]
pub proof fn law_kvs_roundtrip(ps: Seq<KvSpec>, prev: u64, rest: Seq<u8>)
    requires
        spec_encode_kvs(ps, prev) is Ok,
    ensures
        spec_parse_kvs(spec_encode_kvs(ps, prev)->Ok_0 + rest, ps.len(), prev)
            == Ok::<(Seq<KvSpec>, nat), ErrorKind>((ps, spec_encode_kvs(ps, prev)->Ok_0.len())),
    decreases ps.len(),
{
    if ps.len() > 0 {
        let p = ps[0];
        let tl = ps.drop_first();
        let a = spec_encode_kv(p, prev)->Ok_0;
        let b = spec_encode_kvs(tl, p.key)->Ok_0;
        let s = spec_encode_kvs(ps, prev)->Ok_0 + rest;
        assert(spec_encode_kvs(ps, prev)->Ok_0 == a + b);
        assert(s =~= a + (b + rest));
        lemma_kv_roundtrip(p, prev, b + rest);
        assert(spec_parse_kv(s, prev) == Ok::<(KvSpec, nat), ErrorKind>((p, a.len())));
        assert(s.skip(a.len() as int) == b + rest);
        law_kvs_roundtrip(tl, p.key, rest);
        assert(seq![p] + tl =~= ps);
        assert(spec_parse_kvs(s, ps.len(), prev) == spec_prepend(seq![p], a.len(), spec_parse_kvs(b + rest, tl.len(), p.key)));
    } else {
        assert(ps =~= Seq::<KvSpec>::empty());
    }
}

/// Pairs whose encoding succeeds decode back when read to the end.
pub proof fn law_kvs_all_roundtrip(ps: Seq<KvSpec>, prev: u64)
    requires
        spec_encode_kvs(ps, prev) is Ok,
    ensures
        spec_parse_kvs_all(spec_encode_kvs(ps, prev)->Ok_0, prev)
            == Ok::<(Seq<KvSpec>, nat), ErrorKind>((ps, spec_encode_kvs(ps, prev)->Ok_0.len())),
    decreases ps.len(),
{
    if ps.len() > 0 {
        let p = ps[0];
        let a = spec_encode_kv(p, prev)->Ok_0;
        let b = spec_encode_kvs(ps.drop_first(), p.key)->Ok_0;
        assert(spec_encode_kvs(ps, prev)->Ok_0 =~= a + b);
        lemma_kv_roundtrip(p, prev, b);
        lemma_parse_kv_len(a + b, prev);
        law_kvs_all_roundtrip(ps.drop_first(), p.key);
        assert(seq![p] + ps.drop_first() =~= ps);
    } else {
        assert(ps =~= Seq::<KvSpec>::empty());
        assert(spec_encode_kvs(ps, prev)->Ok_0.len() == 0);
    }
}

proof fn lemma_kv_roundtrip(p: KvSpec, prev: u64, rest: Seq<u8>)
    requires
        spec_encode_kv(p, prev) is Ok,
    ensures
        spec_parse_kv(spec_encode_kv(p, prev)->Ok_0 + rest, prev)
            == Ok::<(KvSpec, nat), ErrorKind>((p, spec_encode_kv(p, prev)->Ok_0.len())),
        (spec_encode_kv(p, prev)->Ok_0 + rest).skip(spec_encode_kv(p, prev)->Ok_0.len() as int) == rest,
{
    let d = (p.key - prev) as u64;
    let a = spec_encode_varint(d)->Ok_0;
    let s = spec_encode_kv(p, prev)->Ok_0 + rest;
    lemma_skip_concat(spec_encode_kv(p, prev)->Ok_0, rest);
    match p.value {
        KvValueSpec::Varint(v) => {
            let b = spec_encode_varint(v)->Ok_0;
            assert(s =~= a + (b + rest));
            lemma_varint_parse_roundtrip(d, b + rest);
            lemma_varint_parse_roundtrip(v, rest);
            assert(prev + d == p.key);
        },
        KvValueSpec::Bytes(by) => {
            let l = spec_encode_varint(by.len() as u64)->Ok_0;
            assert(s =~= a + (l + (by + rest)));
            lemma_varint_parse_roundtrip(d, l + (by + rest));
            lemma_varint_parse_roundtrip(by.len() as u64, by + rest);
            assert(s.skip((a.len() + l.len()) as int) =~= by + rest);
            assert((by + rest).take(by.len() as int) =~= by);
            assert(prev + d == p.key);
        },
    }
}

} // verus!
