//! HTTP/3 frames: type, length and payload; SETTINGS and
//! GOAWAY payloads; an incremental frame parser.
use vstd::prelude::*;
use crate::quic_varint::{
    spec_max_varint, spec_varint_bytes, spec_decode_varint, lemma_varint_roundtrip,
    lemma_varint_bytes_len, lemma_decode_varint_bound,
};
use crate::webtransport::capsule::{extend, push_varint};
use crate::webtransport::error::{Error, ErrorKind, Result};
use crate::webtransport::frame::{H3_FRAME_SETTINGS, H3_FRAME_GOAWAY};
use crate::webtransport::varint;

verus! {

#[derive(Debug, Clone, PartialEq, Eq)]
pub struct H3Frame {
    pub frame_type: u64,
    pub payload: Vec<u8>,
}

/// Mathematical value of an [`H3Frame`].
pub struct H3FrameView {
    pub frame_type: u64,
    pub payload: Seq<u8>,
}

impl View for H3Frame {
    type V = H3FrameView;

    open spec fn view(&self) -> H3FrameView {
        H3FrameView { frame_type: self.frame_type, payload: self.payload@ }
    }
}

/// Bytes of a frame: type, payload length, payload.
pub open spec fn spec_encode_frame(f: H3FrameView) -> core::result::Result<Seq<u8>, ErrorKind> {
    if f.frame_type > spec_max_varint() || f.payload.len() > spec_max_varint() {
        Err(ErrorKind::VarintOverflow)
    } else {
        Ok(spec_varint_bytes(f.frame_type) + spec_varint_bytes(f.payload.len() as u64) + f.payload)
    }
}

/// Decoding of a frame at the start of `s`: the frame and the bytes it
/// takes.
pub open spec fn spec_decode_frame(s: Seq<u8>) -> core::result::Result<(H3FrameView, nat), ErrorKind> {
    match spec_decode_varint(s) {
        None => Err(ErrorKind::BufferTooShort),
        Some((t, n1)) => match spec_decode_varint(s.skip(n1 as int)) {
            None => Err(ErrorKind::BufferTooShort),
            Some((plen, n2)) => if s.len() - (n1 + n2) < plen {
                Err(ErrorKind::BufferTooShort)
            } else {
                Ok((H3FrameView {
                    frame_type: t,
                    payload: s.skip((n1 + n2) as int).take(plen as int),
                }, (n1 + n2 + plen) as nat))
            },
        },
    }
}

impl H3Frame {
    /// Appends the frame to `buf`; returns the number of bytes written.
    /// On an error the bytes written before it stay.
    pub fn encode(&self, buf: &mut Vec<u8>) -> (r: Result<usize>)
        ensures
            match spec_encode_frame(self@) {
                Ok(b) => r == Ok::<usize, Error>(b.len() as usize) && final(buf)@ == old(buf)@ + b,
                Err(k) => r matches Err(e) && e.kind() == k && final(buf)@.len() >= old(buf)@.len()
                    && final(buf)@.take(old(buf)@.len() as int) == old(buf)@,
            },
    {
        let start = buf.len();
        if self.frame_type > varint::MAX_VARINT {
            assert(buf@.take(old(buf)@.len() as int) =~= old(buf)@);
            return Err(Error::VarintOverflow);
        }
        push_varint(buf, self.frame_type);
        let plen = self.payload.len() as u64;
        if plen > varint::MAX_VARINT {
            assert(buf@.take(old(buf)@.len() as int) =~= old(buf)@);
            return Err(Error::VarintOverflow);
        }
        push_varint(buf, plen);
        extend(buf, self.payload.as_slice());
        proof {
            let b = spec_encode_frame(self@)->Ok_0;
            assert(buf@ =~= old(buf)@ + b);
        }
        Ok(buf.len() - start)
    }

    /// Decodes a frame from the start of `buf`; returns it and the number
    /// of bytes it takes.
    pub fn decode(buf: &[u8]) -> (r: Result<(H3Frame, usize)>)
        ensures
            match spec_decode_frame(buf@) {
                Ok((f, n)) => r matches Ok((x, m)) && x@ == f && m == n,
                Err(k) => r matches Err(e) && e.kind() == k,
            },
    {
        let (frame_type, n1) = match varint::decode(buf) {
            Ok(x) => x,
            Err(e) => return Err(e),
        };
        proof {
            lemma_decode_varint_bound(buf@);
        }
        let rest = &buf[n1..buf.len()];
        assert(rest@ =~= buf@.skip(n1 as int));
        let (payload_len, n2) = match varint::decode(rest) {
            Ok(x) => x,
            Err(e) => return Err(e),
        };
        proof {
            lemma_decode_varint_bound(rest@);
        }
        let offset = n1 + n2;
        if ((buf.len() - offset) as u64) < payload_len {
            return Err(Error::BufferTooShort);
        }
        let plen = payload_len as usize;
        let payload = vstd::slice::slice_to_vec(&buf[offset..offset + plen]);
        assert(payload@ =~= buf@.skip(offset as int).take(plen as int)) by {
            assert(buf@.skip(n1 as int).skip(n2 as int) =~= buf@.skip(offset as int));
        }
        Ok((H3Frame { frame_type, payload }, offset + plen))
    }
}

/// A frame decodes back from its bytes, whatever follows them.
pub proof fn law_frame_roundtrip(f: H3FrameView, rest: Seq<u8>)
    requires
        spec_encode_frame(f) is Ok,
    ensures
        spec_decode_frame(spec_encode_frame(f)->Ok_0 + rest)
            == Ok::<(H3FrameView, nat), ErrorKind>((f, spec_encode_frame(f)->Ok_0.len())),
{
    let t = spec_varint_bytes(f.frame_type);
    let l = spec_varint_bytes(f.payload.len() as u64);
    let enc = spec_encode_frame(f)->Ok_0;
    let s = enc + rest;
    lemma_varint_bytes_len(f.frame_type);
    lemma_varint_bytes_len(f.payload.len() as u64);
    assert(s =~= t + (l + (f.payload + rest)));
    lemma_varint_roundtrip(f.frame_type, l + (f.payload + rest));
    assert(s.skip(t.len() as int) =~= l + (f.payload + rest));
    lemma_varint_roundtrip(f.payload.len() as u64, f.payload + rest);
    assert(s.skip((t.len() + l.len()) as int) =~= f.payload + rest);
    assert((f.payload + rest).take(f.payload.len() as int) =~= f.payload);
}

/// Payload of a SETTINGS frame: each identifier and value as varints.
pub open spec fn spec_settings_payload(settings: Seq<(u64, u64)>) -> core::result::Result<Seq<u8>, ErrorKind>
    decreases settings.len(),
{
    if settings.len() == 0 {
        Ok(Seq::empty())
    } else {
        let (id, value) = settings[0];
        if id > spec_max_varint() || value > spec_max_varint() {
            Err(ErrorKind::VarintOverflow)
        } else {
            match spec_settings_payload(settings.skip(1)) {
                Ok(p) => Ok(spec_varint_bytes(id) + spec_varint_bytes(value) + p),
                Err(k) => Err(k),
            }
        }
    }
}

/// Bytes of the SETTINGS frame that carries `settings`.
pub open spec fn spec_encode_settings(settings: Seq<(u64, u64)>) -> core::result::Result<Seq<u8>, ErrorKind> {
    match spec_settings_payload(settings) {
        Ok(p) => spec_encode_frame(H3FrameView { frame_type: H3_FRAME_SETTINGS, payload: p }),
        Err(k) => Err(k),
    }
}

/// Encodes a SETTINGS frame.
pub fn encode_settings(settings: &[(u64, u64)]) -> (r: Result<Vec<u8>>)
    ensures
        match spec_encode_settings(settings@) {
            Ok(b) => r matches Ok(v) && v@ == b,
            Err(k) => r matches Err(e) && e.kind() == k,
        },
{
    let mut payload: Vec<u8> = Vec::new();
    let mut i: usize = 0;
    proof {
        assert(settings@.skip(0) =~= settings@);
        if let Ok(p) = spec_settings_payload(settings@) {
            assert(payload@ + p =~= p);
        }
    }
    while i < settings.len()
        invariant
            i <= settings.len(),
            spec_settings_payload(settings@) == match spec_settings_payload(settings@.skip(i as int)) {
                Ok(p) => Ok(payload@ + p),
                Err(k) => Err(k),
            },
        decreases settings.len() - i,
    {
        let (id, value) = settings[i];
        assert(settings@.skip(i as int).skip(1) =~= settings@.skip(i + 1));
        if id > varint::MAX_VARINT || value > varint::MAX_VARINT {
            return Err(Error::VarintOverflow);
        }
        let ghost before = payload@;
        push_varint(&mut payload, id);
        push_varint(&mut payload, value);
        proof {
            match spec_settings_payload(settings@.skip(i + 1)) {
                Ok(p) => {
                    assert(before + (spec_varint_bytes(id) + spec_varint_bytes(value) + p)
                        =~= payload@ + p);
                },
                Err(k) => {},
            }
        }
        i = i + 1;
    }
    assert(settings@.skip(i as int) =~= Seq::<(u64, u64)>::empty());
    assert(payload@ + Seq::<u8>::empty() =~= payload@);
    let frame = H3Frame { frame_type: H3_FRAME_SETTINGS, payload };
    let mut buf: Vec<u8> = Vec::new();
    match frame.encode(&mut buf) {
        Ok(_) => {
            assert(buf@ =~= Seq::<u8>::empty() + buf@);
            Ok(buf)
        },
        Err(e) => Err(e),
    }
}

/// The settings a SETTINGS payload carries: identifier and value pairs up
/// to its end.
pub open spec fn spec_decode_settings(s: Seq<u8>) -> core::result::Result<Seq<(u64, u64)>, ErrorKind>
    decreases s.len(),
{
    if s.len() == 0 {
        Ok(Seq::empty())
    } else {
        match spec_decode_varint(s) {
            None => Err(ErrorKind::BufferTooShort),
            Some((id, n1)) => match spec_decode_varint(s.skip(n1 as int)) {
                None => Err(ErrorKind::BufferTooShort),
                Some((value, n2)) => if 0 < n1 + n2 <= s.len() {
                    match spec_decode_settings(s.skip((n1 + n2) as int)) {
                        Ok(rest) => Ok(seq![(id, value)] + rest),
                        Err(k) => Err(k),
                    }
                } else {
                    Err(ErrorKind::BufferTooShort)
                },
            },
        }
    }
}

/// Decodes the payload of a SETTINGS frame.
pub fn decode_settings(payload: &[u8]) -> (r: Result<Vec<(u64, u64)>>)
    ensures
        match spec_decode_settings(payload@) {
            Ok(v) => r matches Ok(x) && x@ == v,
            Err(k) => r matches Err(e) && e.kind() == k,
        },
{
    let mut settings: Vec<(u64, u64)> = Vec::new();
    let mut offset: usize = 0;
    proof {
        assert(payload@.skip(0) =~= payload@);
        if let Ok(v) = spec_decode_settings(payload@) {
            assert(settings@ + v =~= v);
        }
    }
    while offset < payload.len()
        invariant
            offset <= payload.len(),
            spec_decode_settings(payload@) == match spec_decode_settings(payload@.skip(offset as int)) {
                Ok(rest) => Ok(settings@ + rest),
                Err(k) => Err(k),
            },
        decreases payload.len() - offset,
    {
        let ghost cur = payload@.skip(offset as int);
        let s1 = &payload[offset..payload.len()];
        assert(s1@ =~= cur);
        let (id, n1) = match varint::decode(s1) {
            Ok(x) => x,
            Err(e) => return Err(e),
        };
        proof {
            lemma_decode_varint_bound(cur);
        }
        let s2 = &payload[offset + n1..payload.len()];
        assert(s2@ =~= cur.skip(n1 as int));
        let (value, n2) = match varint::decode(s2) {
            Ok(x) => x,
            Err(e) => return Err(e),
        };
        proof {
            lemma_decode_varint_bound(cur.skip(n1 as int));
            assert(cur.skip((n1 + n2) as int) =~= payload@.skip((offset + n1 + n2) as int));
            match spec_decode_settings(cur.skip((n1 + n2) as int)) {
                Ok(rest) => {
                    assert(settings@ + (seq![(id, value)] + rest) =~= settings@.push((id, value)) + rest);
                },
                Err(k) => {},
            }
        }
        settings.push((id, value));
        offset = offset + n1 + n2;
    }
    assert(payload@.skip(offset as int) =~= Seq::<u8>::empty());
    assert(settings@ + Seq::<(u64, u64)>::empty() =~= settings@);
    Ok(settings)
}

/// Settings written by [`encode_settings`] read back the same.
pub proof fn law_settings_roundtrip(settings: Seq<(u64, u64)>)
    requires
        spec_settings_payload(settings) is Ok,
    ensures
        spec_decode_settings(spec_settings_payload(settings)->Ok_0) == Ok::<Seq<(u64, u64)>, ErrorKind>(settings),
    decreases settings.len(),
{
    if settings.len() > 0 {
        let (id, value) = settings[0];
        let p = spec_settings_payload(settings.skip(1))->Ok_0;
        let a = spec_varint_bytes(id);
        let b = spec_varint_bytes(value);
        let s = a + b + p;
        lemma_varint_bytes_len(id);
        lemma_varint_bytes_len(value);
        assert(s =~= a + (b + p));
        lemma_varint_roundtrip(id, b + p);
        assert(s.skip(a.len() as int) =~= b + p);
        lemma_varint_roundtrip(value, p);
        assert(s.skip((a.len() + b.len()) as int) =~= p);
        law_settings_roundtrip(settings.skip(1));
        assert(seq![(id, value)] + settings.skip(1) =~= settings);
    } else {
        assert(settings =~= Seq::<(u64, u64)>::empty());
    }
}

/// Bytes of the GOAWAY frame that names `stream_id`.
pub open spec fn spec_encode_goaway(stream_id: u64) -> core::result::Result<Seq<u8>, ErrorKind> {
    if stream_id > spec_max_varint() {
        Err(ErrorKind::VarintOverflow)
    } else {
        spec_encode_frame(H3FrameView { frame_type: H3_FRAME_GOAWAY, payload: spec_varint_bytes(stream_id) })
    }
}

/// Encodes a GOAWAY frame.
pub fn encode_goaway(stream_id: u64) -> (r: Result<Vec<u8>>)
    ensures
        match spec_encode_goaway(stream_id) {
            Ok(b) => r matches Ok(v) && v@ == b,
            Err(k) => r matches Err(e) && e.kind() == k,
        },
{
    let payload = varint::encode_vec(stream_id)?;
    let frame = H3Frame { frame_type: H3_FRAME_GOAWAY, payload };
    let mut buf: Vec<u8> = Vec::new();
    match frame.encode(&mut buf) {
        Ok(_) => {
            assert(buf@ =~= Seq::<u8>::empty() + buf@);
            Ok(buf)
        },
        Err(e) => Err(e),
    }
}

/// A decoded frame or the error, as values.
pub open spec fn spec_frame_result_view(r: Result<H3Frame>) -> core::result::Result<H3FrameView, ErrorKind> {
    match r {
        Ok(f) => Ok(f@),
        Err(e) => Err(e.kind()),
    }
}

/// Views of a list of results.
pub open spec fn spec_frame_results_view(rs: Seq<Result<H3Frame>>) -> Seq<core::result::Result<H3FrameView, ErrorKind>> {
    rs.map_values(|r: Result<H3Frame>| spec_frame_result_view(r))
}

/// A successful decode takes at least two bytes and at most all of them.
pub proof fn lemma_decode_frame_len(s: Seq<u8>)
    ensures
        spec_decode_frame(s) matches Ok((f, n)) ==> 2 <= n <= s.len(),
{
    if let Some((t, n1)) = spec_decode_varint(s) {
        lemma_decode_varint_bound(s);
        if let Some((plen, n2)) = spec_decode_varint(s.skip(n1 as int)) {
            lemma_decode_varint_bound(s.skip(n1 as int));
        }
    }
}

/// The frames a buffer holds, decoded one after the other up to the first
/// incomplete one (which stays, with what follows) or the first error
/// (which is reported, and stays too).
pub open spec fn spec_parse_frames(s: Seq<u8>) -> (Seq<core::result::Result<H3FrameView, ErrorKind>>, Seq<u8>)
    decreases s.len(),
{
    match spec_decode_frame(s) {
        Ok((f, n)) => if 0 < n <= s.len() {
            let (rs, rem) = spec_parse_frames(s.skip(n as int));
            (seq![Ok(f)] + rs, rem)
        } else {
            (Seq::empty(), s)
        },
        Err(ErrorKind::BufferTooShort) => (Seq::empty(), s),
        Err(k) => (seq![Err(k)], s),
    }
}

/// Decoding a frame looks only at its own bytes: bytes appended after a
/// complete frame change nothing.
pub proof fn lemma_decode_frame_prefix(s: Seq<u8>, t: Seq<u8>)
    requires
        spec_decode_frame(s) is Ok,
    ensures
        spec_decode_frame(s + t) == spec_decode_frame(s),
{
    let (t0, n1) = spec_decode_varint(s).unwrap();
    crate::quic_varint::lemma_decode_varint_prefix(s, t);
    lemma_decode_varint_bound(s);
    assert((s + t).skip(n1 as int) =~= s.skip(n1 as int) + t);
    let (plen, n2) = spec_decode_varint(s.skip(n1 as int)).unwrap();
    crate::quic_varint::lemma_decode_varint_prefix(s.skip(n1 as int), t);
    assert((s + t).skip((n1 + n2) as int).take(plen as int) =~= s.skip((n1 + n2) as int).take(plen as int));
}

/// Feeding bytes in two parts gives what feeding them at once gives, as
/// long as the first part holds no malformed frame: the frames of the
/// first part, then those that the bytes left over and the second part
/// make up.
pub proof fn law_parse_frames_split(x: Seq<u8>, y: Seq<u8>)
    requires
        forall|i: int| 0 <= i < spec_parse_frames(x).0.len() ==> (#[trigger] spec_parse_frames(x).0[i]) is Ok,
    ensures
        spec_parse_frames(x + y) == ({
            let (r1, m1) = spec_parse_frames(x);
            let (r2, m2) = spec_parse_frames(m1 + y);
            (r1 + r2, m2)
        }),
    decreases x.len(),
{
    lemma_decode_frame_len(x);
    match spec_decode_frame(x) {
        Ok((c, n)) => {
            if 0 < n <= x.len() {
                lemma_decode_frame_prefix(x, y);
                let x1 = x.skip(n as int);
                assert((x + y).skip(n as int) =~= x1 + y);
                let (rs, rem) = spec_parse_frames(x1);
                assert forall|i: int| 0 <= i < spec_parse_frames(x1).0.len() implies (#[trigger] spec_parse_frames(x1).0[i]) is Ok by {
                    assert(spec_parse_frames(x).0[i + 1] == spec_parse_frames(x1).0[i]);
                }
                law_parse_frames_split(x1, y);
                let (r2, m2) = spec_parse_frames(rem + y);
                assert(seq![Ok(c)] + (rs + r2) =~= (seq![Ok(c)] + rs) + r2);
            }
        },
        Err(k) => {
            if k != ErrorKind::BufferTooShort {
                assert(spec_parse_frames(x).0[0] is Err);
            }
            assert(Seq::<core::result::Result<H3FrameView, ErrorKind>>::empty() + spec_parse_frames(x + y).0 =~= spec_parse_frames(x + y).0);
        },
    }
}

/// Incremental H3 frame parser for one stream.
#[derive(Debug)]
pub struct FrameParser {
    buf: Vec<u8>,
}

impl View for FrameParser {
    type V = Seq<u8>;

    /// The bytes received and not yet decoded.
    closed spec fn view(&self) -> Seq<u8> {
        self.buf@
    }
}

impl FrameParser {
    pub fn new() -> (p: Self)
        ensures
            p@.len() == 0,
    {
        FrameParser { buf: Vec::new() }
    }

    /// Appends `data` and decodes every complete frame; stops at the first
    /// incomplete frame or error.
    pub fn feed(&mut self, data: &[u8]) -> (results: Vec<Result<H3Frame>>)
        ensures
            (spec_frame_results_view(results@), final(self)@) == spec_parse_frames(old(self)@ + data@),
    {
        extend(&mut self.buf, data);
        let ghost all = self.buf@;
        let mut results: Vec<Result<H3Frame>> = Vec::new();
        let mut done = false;
        assert(spec_frame_results_view(results@) =~= Seq::empty());
        while !done
            invariant
                !done ==> spec_parse_frames(all) == ({
                    let (rs, rem) = spec_parse_frames(self.buf@);
                    (spec_frame_results_view(results@) + rs, rem)
                }),
                done ==> spec_parse_frames(all) == (spec_frame_results_view(results@), self.buf@),
            decreases self.buf@.len() + (if done { 0int } else { 1int }),
        {
            let ghost before = self.buf@;
            let ghost done_rs = spec_frame_results_view(results@);
            proof {
                lemma_decode_frame_len(before);
            }
            match H3Frame::decode(self.buf.as_slice()) {
                Ok((f, consumed)) => {
                    let rest = vstd::slice::slice_to_vec(&self.buf.as_slice()[consumed..self.buf.len()]);
                    self.buf = rest;
                    assert(self.buf@ =~= before.skip(consumed as int));
                    results.push(Ok(f));
                    proof {
                        assert(spec_frame_results_view(results@) =~= done_rs.push(Ok(f@)));
                        let (rs, rem) = spec_parse_frames(self.buf@);
                        assert(done_rs + (seq![Ok(f@)] + rs) =~= done_rs.push(Ok(f@)) + rs);
                    }
                },
                Err(e) => {
                    match e {
                        Error::BufferTooShort => {
                            assert(done_rs + Seq::empty() =~= done_rs);
                        },
                        _ => {
                            let ghost k = e.kind();
                            results.push(Err(e));
                            assert(spec_frame_results_view(results@) =~= done_rs + seq![Err(k)]);
                        },
                    }
                    done = true;
                },
            }
        }
        results
    }
}

} // verus!
