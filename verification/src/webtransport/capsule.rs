//! HTTP capsules of a WebTransport session: encoding, decoding, and
//! an incremental parser over a byte stream.
use vstd::prelude::*;
use vstd::utf8::{valid_utf8, decode_utf8, encode_utf8, encode_utf8_valid_utf8, encode_utf8_decode_utf8};
use vstd::string::StringSliceAdditionalSpecFns;
use crate::quic_varint::{
    spec_varint_len, spec_max_varint, spec_varint_bytes, spec_decode_varint, lemma_varint_roundtrip,
    lemma_varint_bytes_len, lemma_decode_varint_bound,
};
use crate::moq_protocol::types::string_from_utf8;
use crate::webtransport::error::{Error, ErrorKind, Result};
use crate::webtransport::frame::{
    CAPSULE_CLOSE_SESSION, CAPSULE_DRAIN_SESSION, CAPSULE_MAX_STREAMS_BIDI, CAPSULE_MAX_STREAMS_UNI,
    CAPSULE_STREAMS_BLOCKED_BIDI, CAPSULE_STREAMS_BLOCKED_UNI, CAPSULE_MAX_DATA, CAPSULE_DATA_BLOCKED,
};
use crate::webtransport::varint;

verus! {

/// Longest message a CLOSE_SESSION capsule may carry, in bytes.
pub const MAX_CLOSE_MESSAGE_LEN: usize = 1024;

#[derive(Debug, Clone, PartialEq, Eq)]
pub enum Capsule {
    CloseSession { error_code: u32, error_message: String },
    DrainSession,
    MaxStreamsBidi(u64),
    MaxStreamsUni(u64),
    StreamsBlockedBidi(u64),
    StreamsBlockedUni(u64),
    MaxData(u64),
    DataBlocked(u64),
}

/// Mathematical value of a [`Capsule`].
pub enum CapsuleView {
    CloseSession { error_code: u32, error_message: Seq<char> },
    DrainSession,
    MaxStreamsBidi(u64),
    MaxStreamsUni(u64),
    StreamsBlockedBidi(u64),
    StreamsBlockedUni(u64),
    MaxData(u64),
    DataBlocked(u64),
}

impl View for Capsule {
    type V = CapsuleView;

    open spec fn view(&self) -> CapsuleView {
        match self {
            Capsule::CloseSession { error_code, error_message } =>
                CapsuleView::CloseSession { error_code: *error_code, error_message: error_message@ },
            Capsule::DrainSession => CapsuleView::DrainSession,
            Capsule::MaxStreamsBidi(v) => CapsuleView::MaxStreamsBidi(*v),
            Capsule::MaxStreamsUni(v) => CapsuleView::MaxStreamsUni(*v),
            Capsule::StreamsBlockedBidi(v) => CapsuleView::StreamsBlockedBidi(*v),
            Capsule::StreamsBlockedUni(v) => CapsuleView::StreamsBlockedUni(*v),
            Capsule::MaxData(v) => CapsuleView::MaxData(*v),
            Capsule::DataBlocked(v) => CapsuleView::DataBlocked(*v),
        }
    }
}

impl CapsuleView {
    /// Wire type of the capsule.
    pub open spec fn spec_type(self) -> u64 {
        match self {
            CapsuleView::CloseSession { .. } => CAPSULE_CLOSE_SESSION,
            CapsuleView::DrainSession => CAPSULE_DRAIN_SESSION,
            CapsuleView::MaxStreamsBidi(_) => CAPSULE_MAX_STREAMS_BIDI,
            CapsuleView::MaxStreamsUni(_) => CAPSULE_MAX_STREAMS_UNI,
            CapsuleView::StreamsBlockedBidi(_) => CAPSULE_STREAMS_BLOCKED_BIDI,
            CapsuleView::StreamsBlockedUni(_) => CAPSULE_STREAMS_BLOCKED_UNI,
            CapsuleView::MaxData(_) => CAPSULE_MAX_DATA,
            CapsuleView::DataBlocked(_) => CAPSULE_DATA_BLOCKED,
        }
    }

    /// The value a flow-control capsule carries.
    pub open spec fn spec_value(self) -> Option<u64> {
        match self {
            CapsuleView::MaxStreamsBidi(v) => Some(v),
            CapsuleView::MaxStreamsUni(v) => Some(v),
            CapsuleView::StreamsBlockedBidi(v) => Some(v),
            CapsuleView::StreamsBlockedUni(v) => Some(v),
            CapsuleView::MaxData(v) => Some(v),
            CapsuleView::DataBlocked(v) => Some(v),
            _ => None,
        }
    }
}

/// Big-endian bytes of a u32.
pub open spec fn spec_be32(x: u32) -> Seq<u8> {
    seq![(x >> 24u32) as u8, (x >> 16u32) as u8, (x >> 8u32) as u8, x as u8]
}

/// The u32 of four big-endian bytes.
pub open spec fn spec_be32_value(a: u8, b: u8, c: u8, d: u8) -> u32 {
    ((a as u32) << 24u32) | ((b as u32) << 16u32) | ((c as u32) << 8u32) | (d as u32)
}

/// Bytes of a capsule: type, payload length and payload.
pub open spec fn spec_encode_capsule(c: CapsuleView) -> core::result::Result<Seq<u8>, ErrorKind> {
    let t = spec_varint_bytes(c.spec_type());
    match c {
        CapsuleView::CloseSession { error_code, error_message } => {
            let m = encode_utf8(error_message);
            if m.len() > 1024 {
                Err(ErrorKind::CloseMessageTooLong)
            } else {
                Ok(t + spec_varint_bytes((4 + m.len()) as u64) + spec_be32(error_code) + m)
            }
        },
        CapsuleView::DrainSession => Ok(t + seq![0u8]),
        _ => {
            let v = c.spec_value().unwrap();
            if v > spec_max_varint() {
                Err(ErrorKind::VarintOverflow)
            } else {
                Ok(t + spec_varint_bytes(spec_varint_len(v) as u64) + spec_varint_bytes(v))
            }
        },
    }
}

/// What encoding a capsule writes before it finds an error: the type, and
/// for a capsule carrying one value, the length of that value.
pub open spec fn spec_capsule_error_prefix(c: CapsuleView) -> Seq<u8> {
    let t = spec_varint_bytes(c.spec_type());
    match c {
        CapsuleView::CloseSession { .. } => t,
        CapsuleView::DrainSession => t,
        _ => t + spec_varint_bytes(spec_varint_len(c.spec_value().unwrap()) as u64),
    }
}

/// The capsule a payload of type `t` carries.
pub open spec fn spec_decode_capsule_payload(t: u64, p: Seq<u8>) -> core::result::Result<CapsuleView, ErrorKind> {
    if t == CAPSULE_CLOSE_SESSION {
        if p.len() < 4 {
            Err(ErrorKind::CapsuleError)
        } else if p.len() - 4 > 1024 {
            Err(ErrorKind::CloseMessageTooLong)
        } else if !valid_utf8(p.skip(4)) {
            Err(ErrorKind::CapsuleError)
        } else {
            Ok(CapsuleView::CloseSession {
                error_code: spec_be32_value(p[0], p[1], p[2], p[3]),
                error_message: decode_utf8(p.skip(4)),
            })
        }
    } else if t == CAPSULE_DRAIN_SESSION {
        if p.len() != 0 {
            Err(ErrorKind::CapsuleError)
        } else {
            Ok(CapsuleView::DrainSession)
        }
    } else if t == CAPSULE_MAX_STREAMS_BIDI || t == CAPSULE_MAX_STREAMS_UNI || t == CAPSULE_STREAMS_BLOCKED_BIDI
        || t == CAPSULE_STREAMS_BLOCKED_UNI || t == CAPSULE_MAX_DATA || t == CAPSULE_DATA_BLOCKED {
        match spec_decode_varint(p) {
            None => Err(ErrorKind::BufferTooShort),
            Some((v, _)) => Ok(
                if t == CAPSULE_MAX_STREAMS_BIDI {
                    CapsuleView::MaxStreamsBidi(v)
                } else if t == CAPSULE_MAX_STREAMS_UNI {
                    CapsuleView::MaxStreamsUni(v)
                } else if t == CAPSULE_STREAMS_BLOCKED_BIDI {
                    CapsuleView::StreamsBlockedBidi(v)
                } else if t == CAPSULE_STREAMS_BLOCKED_UNI {
                    CapsuleView::StreamsBlockedUni(v)
                } else if t == CAPSULE_MAX_DATA {
                    CapsuleView::MaxData(v)
                } else {
                    CapsuleView::DataBlocked(v)
                }
            ),
        }
    } else {
        Err(ErrorKind::CapsuleError)
    }
}

/// Decoding of a capsule at the start of `s`: the capsule and the bytes
/// it takes.
pub open spec fn spec_decode_capsule(s: Seq<u8>) -> core::result::Result<(CapsuleView, nat), ErrorKind> {
    match spec_decode_varint(s) {
        None => Err(ErrorKind::BufferTooShort),
        Some((t, n1)) => match spec_decode_varint(s.skip(n1 as int)) {
            None => Err(ErrorKind::BufferTooShort),
            Some((plen, n2)) => if s.len() - (n1 + n2) < plen {
                Err(ErrorKind::BufferTooShort)
            } else {
                match spec_decode_capsule_payload(t, s.skip((n1 + n2) as int).take(plen as int)) {
                    Err(k) => Err(k),
                    Ok(c) => Ok((c, (n1 + n2 + plen) as nat)),
                }
            },
        },
    }
}

/// Appends `bytes` to `buf`.
pub(crate) fn extend(buf: &mut Vec<u8>, bytes: &[u8])
    ensures
        final(buf)@ == old(buf)@ + bytes@,
{
    crate::moq_protocol::codec::write_bytes(buf, bytes)
}

/// Appends the encoding of `v`, which must be a varint.
pub(crate) fn push_varint(buf: &mut Vec<u8>, v: u64)
    requires
        v <= spec_max_varint(),
    ensures
        final(buf)@ == old(buf)@ + spec_varint_bytes(v),
{
    let mut tmp = [0u8; 8];
    let n = match varint::encode(v, &mut tmp) {
        Ok(n) => n,
        Err(_) => return,
    };
    proof {
        lemma_varint_bytes_len(v);
        assert(tmp@.take(n as int) =~= spec_varint_bytes(v));
    }
    extend(buf, &tmp[0..n]);
}

impl Capsule {
    pub fn capsule_type(&self) -> (t: u64)
        ensures
            t == self@.spec_type(),
    {
        match self {
            Capsule::CloseSession { .. } => CAPSULE_CLOSE_SESSION,
            Capsule::DrainSession => CAPSULE_DRAIN_SESSION,
            Capsule::MaxStreamsBidi(_) => CAPSULE_MAX_STREAMS_BIDI,
            Capsule::MaxStreamsUni(_) => CAPSULE_MAX_STREAMS_UNI,
            Capsule::StreamsBlockedBidi(_) => CAPSULE_STREAMS_BLOCKED_BIDI,
            Capsule::StreamsBlockedUni(_) => CAPSULE_STREAMS_BLOCKED_UNI,
            Capsule::MaxData(_) => CAPSULE_MAX_DATA,
            Capsule::DataBlocked(_) => CAPSULE_DATA_BLOCKED,
        }
    }

    /// Appends the capsule to `buf`; returns the number of bytes written.
    /// On an error the bytes written before it stay.
    pub fn encode(&self, buf: &mut Vec<u8>) -> (r: Result<usize>)
        ensures
            match spec_encode_capsule(self@) {
                Ok(b) => r == Ok::<usize, Error>(b.len() as usize) && final(buf)@ == old(buf)@ + b,
                Err(k) => r matches Err(e) && e.kind() == k
                    && final(buf)@ == old(buf)@ + spec_capsule_error_prefix(self@),
            },
    {
        let start = buf.len();
        push_varint(buf, self.capsule_type());
        let ghost after_type = buf@;
        match self {
            Capsule::CloseSession { error_code, error_message } => {
                let m = error_message.as_str().as_bytes();
                if m.len() > MAX_CLOSE_MESSAGE_LEN {
                    return Err(Error::CloseMessageTooLong);
                }
                let payload_len = 4 + m.len();
                push_varint(buf, payload_len as u64);
                let code = *error_code;
                buf.push((code >> 24u32) as u8);
                buf.push((code >> 16u32) as u8);
                buf.push((code >> 8u32) as u8);
                buf.push(code as u8);
                extend(buf, m);
            },
            Capsule::DrainSession => {
                buf.push(0x00u8);
            },
            Capsule::MaxStreamsBidi(v) | Capsule::MaxStreamsUni(v) | Capsule::StreamsBlockedBidi(v)
            | Capsule::StreamsBlockedUni(v) | Capsule::MaxData(v) | Capsule::DataBlocked(v) => {
                let v = *v;
                let value_len = varint::varint_len(v);
                push_varint(buf, value_len as u64);
                if v > varint::MAX_VARINT {
                    assert(buf@ =~= old(buf)@ + spec_capsule_error_prefix(self@));
                    return Err(Error::VarintOverflow);
                }
                push_varint(buf, v);
            },
        }
        proof {
            let b = spec_encode_capsule(self@)->Ok_0;
            assert(buf@ =~= old(buf)@ + b);
        }
        Ok(buf.len() - start)
    }

    /// Decodes a capsule from the start of `buf`; returns it and the number
    /// of bytes it takes.
    pub fn decode(buf: &[u8]) -> (r: Result<(Capsule, usize)>)
        ensures
            match spec_decode_capsule(buf@) {
                Ok((c, n)) => r matches Ok((x, m)) && x@ == c && m == n,
                Err(k) => r matches Err(e) && e.kind() == k,
            },
    {
        let (capsule_type, n1) = match varint::decode(buf) {
            Ok(x) => x,
            Err(e) => return Err(e),
        };
        proof {
            lemma_decode_varint_bound(buf@);
        }
        let rest = &buf[n1..buf.len()];
        assert(rest@ =~= buf@.skip(n1 as int));
        let (payload_len, n2) = match varint::decode(rest) {
            Ok(x) => x,
            Err(e) => return Err(e),
        };
        proof {
            lemma_decode_varint_bound(rest@);
        }
        let offset = n1 + n2;
        if ((buf.len() - offset) as u64) < payload_len {
            return Err(Error::BufferTooShort);
        }
        let plen = payload_len as usize;
        let payload = &buf[offset..offset + plen];
        assert(payload@ =~= buf@.skip(offset as int).take(plen as int)) by {
            assert(buf@.skip(n1 as int).skip(n2 as int) =~= buf@.skip(offset as int));
        }
        match decode_payload(capsule_type, payload) {
            Ok(c) => Ok((c, offset + plen)),
            Err(e) => Err(e),
        }
    }
}

/// The u32 of the first four bytes of `p`, big-endian.
fn read_be32(p: &[u8]) -> (r: u32)
    requires
        p@.len() >= 4,
    ensures
        r == spec_be32_value(p@[0], p@[1], p@[2], p@[3]),
{
    ((p[0] as u32) << 24u32) | ((p[1] as u32) << 16u32) | ((p[2] as u32) << 8u32) | (p[3] as u32)
}

/// Decodes the payload of a capsule of type `t`.
fn decode_payload(t: u64, payload: &[u8]) -> (r: Result<Capsule>)
    ensures
        match spec_decode_capsule_payload(t, payload@) {
            Ok(c) => r matches Ok(x) && x@ == c,
            Err(k) => r matches Err(e) && e.kind() == k,
        },
{
    if t == CAPSULE_CLOSE_SESSION {
        if payload.len() < 4 {
            return Err(Error::CapsuleError("CLOSE_SESSION payload too short".to_owned()));
        }
        let error_code = read_be32(payload);
        let msg_bytes = &payload[4..payload.len()];
        assert(msg_bytes@ =~= payload@.skip(4));
        if msg_bytes.len() > MAX_CLOSE_MESSAGE_LEN {
            return Err(Error::CloseMessageTooLong);
        }
        match string_from_utf8(vstd::slice::slice_to_vec(msg_bytes)) {
            Some(error_message) => Ok(Capsule::CloseSession { error_code, error_message }),
            None => Err(Error::CapsuleError("CLOSE_SESSION message is not valid UTF-8".to_owned())),
        }
    } else if t == CAPSULE_DRAIN_SESSION {
        if payload.len() != 0 {
            return Err(Error::CapsuleError("DRAIN_SESSION must have empty payload".to_owned()));
        }
        Ok(Capsule::DrainSession)
    } else if t == CAPSULE_MAX_STREAMS_BIDI || t == CAPSULE_MAX_STREAMS_UNI || t == CAPSULE_STREAMS_BLOCKED_BIDI
        || t == CAPSULE_STREAMS_BLOCKED_UNI || t == CAPSULE_MAX_DATA || t == CAPSULE_DATA_BLOCKED {
        let (v, _) = match varint::decode(payload) {
            Ok(x) => x,
            Err(e) => return Err(e),
        };
        if t == CAPSULE_MAX_STREAMS_BIDI {
            Ok(Capsule::MaxStreamsBidi(v))
        } else if t == CAPSULE_MAX_STREAMS_UNI {
            Ok(Capsule::MaxStreamsUni(v))
        } else if t == CAPSULE_STREAMS_BLOCKED_BIDI {
            Ok(Capsule::StreamsBlockedBidi(v))
        } else if t == CAPSULE_STREAMS_BLOCKED_UNI {
            Ok(Capsule::StreamsBlockedUni(v))
        } else if t == CAPSULE_MAX_DATA {
            Ok(Capsule::MaxData(v))
        } else {
            Ok(Capsule::DataBlocked(v))
        }
    } else {
        Err(Error::CapsuleError("unknown capsule type".to_owned()))
    }
}

proof fn lemma_be32_roundtrip(x: u32)
    ensures
        spec_be32_value(spec_be32(x)[0], spec_be32(x)[1], spec_be32(x)[2], spec_be32(x)[3]) == x,
{
    let a = (x >> 24u32) as u8;
    let b = (x >> 16u32) as u8;
    let c = (x >> 8u32) as u8;
    let d = x as u8;
    assert(((a as u32) << 24u32) | ((b as u32) << 16u32) | ((c as u32) << 8u32) | (d as u32) == x) by (bit_vector)
        requires a == (x >> 24u32) as u8, b == (x >> 16u32) as u8, c == (x >> 8u32) as u8, d == x as u8;
}

/// A capsule whose encoding succeeds decodes back to itself, whatever
/// bytes follow it, and the decoder reports exactly its bytes as used.
#[verifier::rlimit(40)]
/// A capsule cut short anywhere before its end is reported as too short,
/// never as another error or as a different capsule.
pub proof fn law_capsule_prefix_too_short(s: Seq<u8>, k: int)
    requires
        spec_decode_capsule(s) is Ok,
        0 <= k < spec_decode_capsule(s)->Ok_0.1,
    ensures
        spec_decode_capsule(s.take(k)) == Err::<(CapsuleView, nat), ErrorKind>(ErrorKind::BufferTooShort),
{
    let p = s.take(k);
    let (t, n1) = spec_decode_varint(s)->Some_0;
    crate::quic_varint::lemma_decode_varint_take(s, k);
    if k >= n1 {
        let s1 = s.skip(n1 as int);
        let p1 = p.skip(n1 as int);
        assert(p1 =~= s1.take(k - n1));
        crate::quic_varint::lemma_decode_varint_take(s1, k - n1);
    }
}

pub proof fn law_capsule_roundtrip(c: CapsuleView, rest: Seq<u8>)
    requires
        spec_encode_capsule(c) is Ok,
    ensures
        spec_decode_capsule(spec_encode_capsule(c)->Ok_0 + rest)
            == Ok::<(CapsuleView, nat), ErrorKind>((c, spec_encode_capsule(c)->Ok_0.len())),
{
    let t = spec_varint_bytes(c.spec_type());
    let enc = spec_encode_capsule(c)->Ok_0;
    let s = enc + rest;
    lemma_varint_bytes_len(c.spec_type());
    match c {
        CapsuleView::CloseSession { error_code, error_message } => {
            let m = encode_utf8(error_message);
            let l = spec_varint_bytes((4 + m.len()) as u64);
            let p = spec_be32(error_code) + m;
            assert(s =~= t + (l + (p + rest)));
            lemma_varint_roundtrip(c.spec_type(), l + (p + rest));
            assert(s.skip(t.len() as int) =~= l + (p + rest));
            lemma_varint_roundtrip((4 + m.len()) as u64, p + rest);
            lemma_varint_bytes_len((4 + m.len()) as u64);
            assert(s.skip((t.len() + l.len()) as int) =~= p + rest);
            assert((p + rest).take(p.len() as int) =~= p);
            assert(p.skip(4) =~= m);
            lemma_be32_roundtrip(error_code);
            assert(p[0] == spec_be32(error_code)[0] && p[1] == spec_be32(error_code)[1]
                && p[2] == spec_be32(error_code)[2] && p[3] == spec_be32(error_code)[3]);
            encode_utf8_valid_utf8(error_message);
            encode_utf8_decode_utf8(error_message);
        },
        CapsuleView::DrainSession => {
            let z = seq![0u8];
            assert(spec_varint_bytes(0) =~= z);
            assert(s =~= t + (z + rest));
            lemma_varint_roundtrip(c.spec_type(), z + rest);
            assert(s.skip(t.len() as int) =~= z + rest);
            lemma_varint_roundtrip(0, rest);
            assert(s.skip((t.len() + 1) as int).take(0) =~= Seq::<u8>::empty());
        },
        _ => {
            let v = c.spec_value().unwrap();
            lemma_varint_bytes_len(v);
            let l = spec_varint_bytes(spec_varint_len(v) as u64);
            let p = spec_varint_bytes(v);
            assert(s =~= t + (l + (p + rest)));
            lemma_varint_roundtrip(c.spec_type(), l + (p + rest));
            assert(s.skip(t.len() as int) =~= l + (p + rest));
            lemma_varint_roundtrip(spec_varint_len(v) as u64, p + rest);
            lemma_varint_bytes_len(spec_varint_len(v) as u64);
            assert(s.skip((t.len() + l.len()) as int) =~= p + rest);
            assert((p + rest).take(p.len() as int) =~= p);
            lemma_varint_roundtrip(v, Seq::empty());
            assert(p + Seq::<u8>::empty() =~= p);
        },
    }
}

/// A decoded capsule or the error, as values.
pub open spec fn spec_result_view(r: Result<Capsule>) -> core::result::Result<CapsuleView, ErrorKind> {
    match r {
        Ok(c) => Ok(c@),
        Err(e) => Err(e.kind()),
    }
}

/// Views of a list of results.
pub open spec fn spec_results_view(rs: Seq<Result<Capsule>>) -> Seq<core::result::Result<CapsuleView, ErrorKind>> {
    rs.map_values(|r: Result<Capsule>| spec_result_view(r))
}

/// A successful decode takes at least two bytes and at most all of them.
pub proof fn lemma_decode_capsule_len(s: Seq<u8>)
    ensures
        spec_decode_capsule(s) matches Ok((c, n)) ==> 2 <= n <= s.len(),
{
    if let Some((t, n1)) = spec_decode_varint(s) {
        lemma_decode_varint_bound(s);
        if let Some((plen, n2)) = spec_decode_varint(s.skip(n1 as int)) {
            lemma_decode_varint_bound(s.skip(n1 as int));
        }
    }
}

/// The capsules a buffer holds, decoded one after the other up to the first
/// incomplete one (which stays, with what follows) or the first error
/// (which is reported, and stays too).
pub open spec fn spec_parse_capsules(s: Seq<u8>) -> (Seq<core::result::Result<CapsuleView, ErrorKind>>, Seq<u8>)
    decreases s.len(),
{
    match spec_decode_capsule(s) {
        Ok((c, n)) => if 0 < n <= s.len() {
            let (rs, rem) = spec_parse_capsules(s.skip(n as int));
            (seq![Ok(c)] + rs, rem)
        } else {
            (Seq::empty(), s)
        },
        Err(ErrorKind::BufferTooShort) => (Seq::empty(), s),
        Err(k) => (seq![Err(k)], s),
    }
}

/// Decoding a capsule looks only at its own bytes: bytes appended after a
/// complete capsule change nothing.
pub proof fn lemma_decode_capsule_prefix(s: Seq<u8>, t: Seq<u8>)
    requires
        spec_decode_capsule(s) is Ok,
    ensures
        spec_decode_capsule(s + t) == spec_decode_capsule(s),
{
    let (t0, n1) = spec_decode_varint(s).unwrap();
    crate::quic_varint::lemma_decode_varint_prefix(s, t);
    lemma_decode_varint_bound(s);
    assert((s + t).skip(n1 as int) =~= s.skip(n1 as int) + t);
    let (plen, n2) = spec_decode_varint(s.skip(n1 as int)).unwrap();
    crate::quic_varint::lemma_decode_varint_prefix(s.skip(n1 as int), t);
    assert((s + t).skip((n1 + n2) as int).take(plen as int) =~= s.skip((n1 + n2) as int).take(plen as int));
}

/// Feeding bytes in two parts gives what feeding them at once gives, as
/// long as the first part holds no malformed capsule: the capsules of the
/// first part, then those that the bytes left over and the second part
/// make up.
pub proof fn law_parse_capsules_split(x: Seq<u8>, y: Seq<u8>)
    requires
        forall|i: int| 0 <= i < spec_parse_capsules(x).0.len() ==> (#[trigger] spec_parse_capsules(x).0[i]) is Ok,
    ensures
        spec_parse_capsules(x + y) == ({
            let (r1, m1) = spec_parse_capsules(x);
            let (r2, m2) = spec_parse_capsules(m1 + y);
            (r1 + r2, m2)
        }),
    decreases x.len(),
{
    lemma_decode_capsule_len(x);
    match spec_decode_capsule(x) {
        Ok((c, n)) => {
            if 0 < n <= x.len() {
                lemma_decode_capsule_prefix(x, y);
                let x1 = x.skip(n as int);
                assert((x + y).skip(n as int) =~= x1 + y);
                let (rs, rem) = spec_parse_capsules(x1);
                assert forall|i: int| 0 <= i < spec_parse_capsules(x1).0.len() implies (#[trigger] spec_parse_capsules(x1).0[i]) is Ok by {
                    assert(spec_parse_capsules(x).0[i + 1] == spec_parse_capsules(x1).0[i]);
                }
                law_parse_capsules_split(x1, y);
                let (r2, m2) = spec_parse_capsules(rem + y);
                assert(seq![Ok(c)] + (rs + r2) =~= (seq![Ok(c)] + rs) + r2);
            }
        },
        Err(k) => {
            if k != ErrorKind::BufferTooShort {
                assert(spec_parse_capsules(x).0[0] is Err);
            }
            assert(Seq::<core::result::Result<CapsuleView, ErrorKind>>::empty() + spec_parse_capsules(x + y).0 =~= spec_parse_capsules(x + y).0);
        },
    }
}

/// Feeding a parser `a` and then `b` gives the capsules and leaves the
/// bytes that feeding it `a` and `b` at once does, whenever the capsules
/// of the first feed all decoded: how the input is cut into chunks does
/// not matter.
pub proof fn law_feed_chunks(buf: Seq<u8>, a: Seq<u8>, b: Seq<u8>)
    requires
        forall|i: int| 0 <= i < spec_parse_capsules(buf + a).0.len() ==> (#[trigger] spec_parse_capsules(buf + a).0[i]) is Ok,
    ensures
        ({
            let (r1, m1) = spec_parse_capsules(buf + a);
            let (r2, m2) = spec_parse_capsules(m1 + b);
            (r1 + r2, m2)
        }) == spec_parse_capsules(buf + (a + b)),
{
    law_parse_capsules_split(buf + a, b);
    assert(buf + a + b =~= buf + (a + b));
}

/// Incremental capsule parser over a byte stream.
#[derive(Debug)]
pub struct CapsuleParser {
    buf: Vec<u8>,
}

impl View for CapsuleParser {
    type V = Seq<u8>;

    /// The bytes received and not yet decoded.
    closed spec fn view(&self) -> Seq<u8> {
        self.buf@
    }
}

impl CapsuleParser {
    pub fn new() -> (p: Self)
        ensures
            p@.len() == 0,
    {
        CapsuleParser { buf: Vec::new() }
    }

    /// Appends `data` and decodes every complete capsule; stops at the
    /// first incomplete capsule or error.
    pub fn feed(&mut self, data: &[u8]) -> (results: Vec<Result<Capsule>>)
        ensures
            (spec_results_view(results@), final(self)@) == spec_parse_capsules(old(self)@ + data@),
    {
        extend(&mut self.buf, data);
        let ghost all = self.buf@;
        let mut results: Vec<Result<Capsule>> = Vec::new();
        let mut done = false;
        assert(spec_results_view(results@) =~= Seq::empty());
        while !done
            invariant
                !done ==> spec_parse_capsules(all) == ({
                    let (rs, rem) = spec_parse_capsules(self.buf@);
                    (spec_results_view(results@) + rs, rem)
                }),
                done ==> spec_parse_capsules(all) == (spec_results_view(results@), self.buf@),
            decreases self.buf@.len() + (if done { 0int } else { 1int }),
        {
            let ghost before = self.buf@;
            let ghost done_rs = spec_results_view(results@);
            proof {
                lemma_decode_capsule_len(before);
            }
            match Capsule::decode(self.buf.as_slice()) {
                Ok((c, consumed)) => {
                    let rest = vstd::slice::slice_to_vec(&self.buf.as_slice()[consumed..self.buf.len()]);
                    self.buf = rest;
                    assert(self.buf@ =~= before.skip(consumed as int));
                    results.push(Ok(c));
                    proof {
                        assert(spec_results_view(results@) =~= done_rs.push(Ok(c@)));
                        let (rs, rem) = spec_parse_capsules(self.buf@);
                        assert(done_rs + (seq![Ok(c@)] + rs) =~= done_rs.push(Ok(c@)) + rs);
                    }
                },
                Err(e) => {
                    match e {
                        Error::BufferTooShort => {
                            assert(done_rs + Seq::empty() =~= done_rs);
                        },
                        _ => {
                            let ghost k = e.kind();
                            results.push(Err(e));
                            assert(spec_results_view(results@) =~= done_rs + seq![Err(k)]);
                        },
                    }
                    done = true;
                },
            }
        }
        results
    }
}

} // verus!
