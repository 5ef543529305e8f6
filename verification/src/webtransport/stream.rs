//! WebTransport data streams: the stream header (signal or
//! stream type, then the session ID) and its incremental parsing.
use vstd::prelude::*;
use crate::quic_varint::{
    spec_max_varint, spec_varint_bytes, spec_prefix_len, spec_be_value, lemma_varint_roundtrip,
    lemma_varint_bytes_len,
};
use crate::webtransport::error::{Error, ErrorKind, Result};
use crate::webtransport::frame::{WT_UNI_STREAM_TYPE, WT_BIDI_SIGNAL};
use crate::webtransport::varint::{self, VarintDecoder};

verus! {

#[derive(Debug, Clone, Copy, PartialEq, Eq, Structural)]
pub enum StreamType {
    UniDirectional,
    BiDirectional,
}

#[derive(Debug, Clone, Copy, PartialEq, Eq, Structural)]
pub enum HeaderState {
    AwaitingSignal,
    AwaitingSessionId,
    Done,
}

/// The value that opens the header of a stream of type `t`.
pub open spec fn spec_expected_signal(t: StreamType) -> u64 {
    match t {
        StreamType::UniDirectional => WT_UNI_STREAM_TYPE,
        StreamType::BiDirectional => WT_BIDI_SIGNAL,
    }
}

/// How far the header of a stream has been read.
pub struct HeaderProgress {
    pub state: HeaderState,
    /// Bytes of the signal (or stream type) read so far.
    pub signal_bytes: Seq<u8>,
    /// Bytes of the session ID read so far.
    pub id_bytes: Seq<u8>,
    pub session_id: u64,
    pub header_len: u64,
}

/// Whether the bytes `s` make up exactly one varint.
pub open spec fn spec_varint_complete(s: Seq<u8>) -> bool {
    s.len() > 0 && s.len() == spec_prefix_len(s[0])
}

/// Reads the session ID from `data[i..]`: the number of bytes taken and
/// the progress afterwards.
pub open spec fn spec_read_session_id(p: HeaderProgress, data: Seq<u8>, i: nat) -> (nat, HeaderProgress)
    decreases data.len() - i,
{
    if i >= data.len() {
        (i, p)
    } else {
        match p.state {
            HeaderState::AwaitingSessionId => {
                let ids = p.id_bytes.push(data[i as int]);
                if spec_varint_complete(ids) {
                    (i + 1, HeaderProgress {
                        state: HeaderState::Done,
                        id_bytes: ids,
                        session_id: spec_be_value(ids, ids.len()),
                        header_len: (p.header_len + ids.len()) as u64,
                        ..p
                    })
                } else {
                    spec_read_session_id(HeaderProgress { id_bytes: ids, ..p }, data, i + 1)
                }
            },
            _ => (i, p),
        }
    }
}

/// Reads the whole header from `data[i..]` for a stream of type `t`:
/// `None` when the signal is not the one expected, else the number of
/// bytes taken; and the progress afterwards.
pub open spec fn spec_read_header(p: HeaderProgress, t: StreamType, data: Seq<u8>, i: nat)
    -> (Option<nat>, HeaderProgress)
    decreases data.len() - i,
{
    if i >= data.len() {
        (Some(i), p)
    } else {
        match p.state {
            HeaderState::AwaitingSignal => {
                let sig = p.signal_bytes.push(data[i as int]);
                if spec_varint_complete(sig) {
                    if spec_be_value(sig, sig.len()) != spec_expected_signal(t) {
                        (None, HeaderProgress { signal_bytes: sig, ..p })
                    } else {
                        spec_read_header(HeaderProgress {
                            state: HeaderState::AwaitingSessionId,
                            signal_bytes: sig,
                            header_len: sig.len() as u64,
                            ..p
                        }, t, data, i + 1)
                    }
                } else {
                    spec_read_header(HeaderProgress { signal_bytes: sig, ..p }, t, data, i + 1)
                }
            },
            HeaderState::AwaitingSessionId => {
                let (n, q) = spec_read_session_id(p, data, i);
                (Some(n), q)
            },
            HeaderState::Done => (Some(i), p),
        }
    }
}

/// Mathematical value of a [`WtStream`].
pub struct WtStreamView {
    pub quic_stream_id: u64,
    pub stream_type: StreamType,
    pub progress: HeaderProgress,
}

#[derive(Clone)]
pub struct WtStream {
    pub quic_stream_id: u64,
    pub session_id: u64,
    pub stream_type: StreamType,
    pub header_len: u64,
    pub header_state: HeaderState,
    pub signal_decoder: VarintDecoder,
    pub session_id_decoder: VarintDecoder,
}

impl View for WtStream {
    type V = WtStreamView;

    open spec fn view(&self) -> WtStreamView {
        WtStreamView { quic_stream_id: self.quic_stream_id, stream_type: self.stream_type, progress: self.progress() }
    }
}

impl WtStream {
    /// The header reading progress of this stream.
    pub open spec fn progress(&self) -> HeaderProgress {
        HeaderProgress {
            state: self.header_state,
            signal_bytes: self.signal_decoder.fed(),
            id_bytes: self.session_id_decoder.fed(),
            session_id: self.session_id,
            header_len: self.header_len,
        }
    }

    /// The stream's invariant: the decoders are sound and hold no more than
    /// one unfinished varint each.
    pub closed spec fn wf(&self) -> bool {
        &&& self.signal_decoder.wf()
        &&& self.session_id_decoder.wf()
        &&& self.header_state == HeaderState::AwaitingSignal ==> {
            &&& self.signal_decoder.fed().len() < 8
            &&& (self.signal_decoder.fed().len() > 0 ==>
                    self.signal_decoder.fed().len() < spec_prefix_len(self.signal_decoder.fed()[0]))
        }
        &&& self.header_state != HeaderState::Done ==> {
            &&& self.session_id_decoder.fed().len() < 8
            &&& (self.session_id_decoder.fed().len() > 0 ==>
                    self.session_id_decoder.fed().len() < spec_prefix_len(self.session_id_decoder.fed()[0]))
        }
    }

    pub fn new_outgoing(quic_stream_id: u64, session_id: u64, stream_type: StreamType) -> (s: Self)
        ensures
            s.wf(),
            s.quic_stream_id == quic_stream_id,
            s.session_id == session_id,
            s.stream_type == stream_type,
            s.header_len == 0,
            s.progress() == (HeaderProgress {
                state: HeaderState::Done,
                signal_bytes: Seq::empty(),
                id_bytes: Seq::empty(),
                session_id,
                header_len: 0,
            }),
    {
        let s = WtStream {
            quic_stream_id,
            session_id,
            stream_type,
            header_len: 0,
            header_state: HeaderState::Done,
            signal_decoder: VarintDecoder::new(),
            session_id_decoder: VarintDecoder::new(),
        };
        assert(s.signal_decoder.fed() =~= Seq::<u8>::empty());
        assert(s.session_id_decoder.fed() =~= Seq::<u8>::empty());
        s
    }

    pub fn new_incoming(quic_stream_id: u64, stream_type: StreamType) -> (s: Self)
        ensures
            s.wf(),
            s.quic_stream_id == quic_stream_id,
            s.session_id == 0,
            s.stream_type == stream_type,
            s.header_len == 0,
            s.progress() == (HeaderProgress {
                state: HeaderState::AwaitingSignal,
                signal_bytes: Seq::empty(),
                id_bytes: Seq::empty(),
                session_id: 0,
                header_len: 0,
            }),
    {
        let s = WtStream {
            quic_stream_id,
            session_id: 0,
            stream_type,
            header_len: 0,
            header_state: HeaderState::AwaitingSignal,
            signal_decoder: VarintDecoder::new(),
            session_id_decoder: VarintDecoder::new(),
        };
        assert(s.signal_decoder.fed() =~= Seq::<u8>::empty());
        assert(s.session_id_decoder.fed() =~= Seq::<u8>::empty());
        s
    }

    pub fn is_header_complete(&self) -> (r: bool)
        ensures
            r == (self.progress().state == HeaderState::Done),
    {
        self.header_state == HeaderState::Done
    }

    /// Feeds bytes of the stream, consuming the header at its front; returns
    /// how many bytes of `data` belong to the header. Fails with
    /// `ProtocolViolation` when the signal is not the one the stream type
    /// calls for.
    pub fn parse_header(&mut self, data: &[u8]) -> (r: Result<usize>)
        requires
            old(self).wf(),
            old(self).header_len <= u64::MAX - 8,
        ensures
            r is Ok ==> final(self).wf(),
            final(self).header_len <= (if old(self).header_len > 8 { old(self).header_len } else { 8 }) + 8,
            final(self).progress().state != HeaderState::Done ==> (final(self).header_len == old(self).header_len
                || final(self).header_len <= 8),
            final(self).quic_stream_id == old(self).quic_stream_id,
            final(self).stream_type == old(self).stream_type,
            final(self).session_id == final(self).progress().session_id,
            final(self).header_len == final(self).progress().header_len,
            ({
                let (n, p) = spec_read_header(old(self).progress(), old(self).stream_type, data@, 0);
                &&& final(self).progress() == p
                &&& match n {
                    Some(k) => r == Ok::<usize, Error>(k as usize),
                    None => r matches Err(e) && e.kind() == ErrorKind::ProtocolViolation,
                }
            }),
    {
        let mut consumed: usize = 0;
        let mut stop = false;
        let mut bad = false;
        let ghost orig = self.progress();
        let ghost t = self.stream_type;
        while !stop && consumed < data.len()
            invariant
                consumed <= data.len(),
                self.quic_stream_id == old(self).quic_stream_id,
                self.stream_type == t,
                t == old(self).stream_type,
                !stop ==> self.header_len <= u64::MAX - 8,
                self.header_len <= (if old(self).header_len > 8 { old(self).header_len } else { 8 }) + 8,
                self.progress().state != HeaderState::Done ==> (self.header_len == old(self).header_len
                    || self.header_len <= 8),
                self.progress().state == HeaderState::AwaitingSessionId ==> (self.header_len == old(self).header_len
                    || self.header_len <= 8),
                self.progress().state == HeaderState::AwaitingSessionId && old(self).progress().state != HeaderState::AwaitingSessionId ==> self.header_len <= 8,
                bad ==> stop,
                !bad ==> self.wf(),
                self.signal_decoder.wf(),
                self.session_id_decoder.wf(),
                !stop ==> self.wf() && spec_read_header(orig, t, data@, 0)
                    == spec_read_header(self.progress(), t, data@, consumed as nat),
                stop && bad ==> spec_read_header(orig, t, data@, 0) == (None::<nat>, self.progress()),
                stop && !bad ==> spec_read_header(orig, t, data@, 0) == (Some(consumed as nat), self.progress()),
            decreases data.len() - consumed + (if stop { 0int } else { 1int }),
        {
            let byte = data[consumed];
            match self.header_state {
                HeaderState::AwaitingSignal => {
                    let fed = self.signal_decoder.feed(byte);
                    match fed {
                        Some((signal, n)) => {
                            let expected = match self.stream_type {
                                StreamType::UniDirectional => WT_UNI_STREAM_TYPE,
                                StreamType::BiDirectional => WT_BIDI_SIGNAL,
                            };
                            if signal != expected {
                                bad = true;
                                stop = true;
                            } else {
                                self.header_len = n as u64;
                                self.header_state = HeaderState::AwaitingSessionId;
                                consumed = consumed + 1;
                            }
                        },
                        None => {
                            consumed = consumed + 1;
                        },
                    }
                },
                HeaderState::AwaitingSessionId => {
                    let fed = self.session_id_decoder.feed(byte);
                    match fed {
                        Some((sid, n)) => {
                            self.session_id = sid;
                            self.header_len = self.header_len + n as u64;
                            self.header_state = HeaderState::Done;
                            stop = true;
                        },
                        None => {},
                    }
                    consumed = consumed + 1;
                },
                HeaderState::Done => {
                    stop = true;
                },
            }
        }
        if bad {
            Err(Error::ProtocolViolation("unexpected stream signal".to_owned()))
        } else {
            Ok(consumed)
        }
    }

    /// Reads only the session ID, the stream type having been read when the
    /// stream was classified; returns how many bytes of `data` it took.
    pub fn parse_session_id_only(&mut self, data: &[u8]) -> (r: Result<usize>)
        requires
            old(self).wf(),
            old(self).header_len <= u64::MAX - 8,
        ensures
            final(self).wf(),
            final(self).header_len <= old(self).header_len + 8,
            final(self).progress().state != HeaderState::Done ==> final(self).header_len == old(self).header_len,
            final(self).quic_stream_id == old(self).quic_stream_id,
            final(self).stream_type == old(self).stream_type,
            final(self).session_id == final(self).progress().session_id,
            final(self).header_len == final(self).progress().header_len,
            ({
                let p0 = if old(self).progress().state == HeaderState::AwaitingSignal {
                    HeaderProgress { state: HeaderState::AwaitingSessionId, ..old(self).progress() }
                } else {
                    old(self).progress()
                };
                let (n, p) = spec_read_session_id(p0, data@, 0);
                final(self).progress() == p && r == Ok::<usize, Error>(n as usize)
            }),
    {
        if self.header_state == HeaderState::AwaitingSignal {
            self.header_state = HeaderState::AwaitingSessionId;
        }
        let ghost orig = self.progress();
        let mut consumed: usize = 0;
        let mut stop = false;
        while !stop && consumed < data.len()
            invariant
                self.wf(),
                consumed <= data.len(),
                self.quic_stream_id == old(self).quic_stream_id,
                self.stream_type == old(self).stream_type,
                !stop ==> self.header_len <= u64::MAX - 8,
                self.header_len <= old(self).header_len + 8,
                self.progress().state != HeaderState::Done ==> self.header_len == old(self).header_len,
                self.progress().state != HeaderState::AwaitingSignal,
                !stop ==> spec_read_session_id(orig, data@, 0)
                    == spec_read_session_id(self.progress(), data@, consumed as nat),
                stop ==> spec_read_session_id(orig, data@, 0) == (consumed as nat, self.progress()),
            decreases data.len() - consumed + (if stop { 0int } else { 1int }),
        {
            let byte = data[consumed];
            match self.header_state {
                HeaderState::AwaitingSessionId => {
                    let fed = self.session_id_decoder.feed(byte);
                    match fed {
                        Some((sid, n)) => {
                            self.session_id = sid;
                            self.header_len = self.header_len + n as u64;
                            self.header_state = HeaderState::Done;
                            stop = true;
                        },
                        None => {},
                    }
                    consumed = consumed + 1;
                },
                _ => {
                    stop = true;
                },
            }
        }
        Ok(consumed)
    }
}

/// The invariant looks only at the header state and the decoders.
pub proof fn lemma_wf_same_decoders(a: WtStream, b: WtStream)
    requires
        a.wf(),
        b.header_state == a.header_state,
        b.signal_decoder == a.signal_decoder,
        b.session_id_decoder == a.session_id_decoder,
    ensures
        b.wf(),
{
}

/// Reading the session ID takes no more bytes than there are.
pub proof fn lemma_read_session_id_bound(p: HeaderProgress, data: Seq<u8>, i: nat)
    requires
        i <= data.len(),
    ensures
        i <= spec_read_session_id(p, data, i).0 <= data.len(),
    decreases data.len() - i,
{
    if i < data.len() && p.state == HeaderState::AwaitingSessionId {
        let ids = p.id_bytes.push(data[i as int]);
        if !spec_varint_complete(ids) {
            lemma_read_session_id_bound(HeaderProgress { id_bytes: ids, ..p }, data, i + 1);
        }
    }
}

/// Reading the header takes no more bytes than there are.
pub proof fn lemma_read_header_bound(p: HeaderProgress, t: StreamType, data: Seq<u8>, i: nat)
    requires
        i <= data.len(),
    ensures
        spec_read_header(p, t, data, i).0 matches Some(n) ==> i <= n <= data.len(),
    decreases data.len() - i,
{
    if i < data.len() {
        match p.state {
            HeaderState::AwaitingSignal => {
                let sig = p.signal_bytes.push(data[i as int]);
                if spec_varint_complete(sig) {
                    if spec_be_value(sig, sig.len()) == spec_expected_signal(t) {
                        lemma_read_header_bound(HeaderProgress {
                            state: HeaderState::AwaitingSessionId,
                            signal_bytes: sig,
                            header_len: sig.len() as u64,
                            ..p
                        }, t, data, i + 1);
                    }
                } else {
                    lemma_read_header_bound(HeaderProgress { signal_bytes: sig, ..p }, t, data, i + 1);
                }
            },
            HeaderState::AwaitingSessionId => {
                lemma_read_session_id_bound(p, data, i);
            },
            HeaderState::Done => {},
        }
    }
}

/// The header of an outgoing stream: signal, then session ID.
pub open spec fn spec_stream_header(session_id: u64, t: StreamType) -> Seq<u8> {
    spec_varint_bytes(spec_expected_signal(t)) + spec_varint_bytes(session_id)
}

/// Encodes the header (signal, then session ID) of an outgoing stream.
pub fn encode_stream_header(session_id: u64, stream_type: StreamType) -> (r: Result<Vec<u8>>)
    ensures
        session_id <= spec_max_varint() ==> (r matches Ok(b) && b@ == spec_stream_header(session_id, stream_type)),
        session_id > spec_max_varint() ==> (r matches Err(e) && e.kind() == ErrorKind::VarintOverflow),
{
    let signal = match stream_type {
        StreamType::UniDirectional => WT_UNI_STREAM_TYPE,
        StreamType::BiDirectional => WT_BIDI_SIGNAL,
    };
    let mut buf = varint::encode_vec(signal)?;
    let mut id = varint::encode_vec(session_id)?;
    buf.append(&mut id);
    Ok(buf)
}

/// Whether the QUIC stream was opened by the client.
pub fn is_client_initiated(stream_id: u64) -> (r: bool)
    ensures
        r == (stream_id % 2 == 0),
{
    assert((stream_id & 1u64 == 0u64) == (stream_id % 2 == 0)) by (bit_vector);
    stream_id & 0x01 == 0
}

/// Whether the QUIC stream is bidirectional.
pub fn is_bidi(stream_id: u64) -> (r: bool)
    ensures
        r == ((stream_id / 2) % 2 == 0),
{
    assert((stream_id & 2u64 == 0u64) == ((stream_id / 2) % 2 == 0)) by (bit_vector);
    stream_id & 0x02 == 0
}

/// `r` with its count of bytes moved on by `k`.
pub open spec fn spec_shift_read(r: (Option<nat>, HeaderProgress), k: nat) -> (Option<nat>, HeaderProgress) {
    (match r.0 { Some(n) => Some(n + k), None => None }, r.1)
}

proof fn lemma_read_session_id_shift(p: HeaderProgress, a: Seq<u8>, b: Seq<u8>, j: nat)
    ensures
        spec_read_session_id(p, a + b, a.len() + j)
            == (spec_read_session_id(p, b, j).0 + a.len(), spec_read_session_id(p, b, j).1),
    decreases b.len() - j,
{
    if j < b.len() {
        assert((a + b)[(a.len() + j) as int] == b[j as int]);
        if p.state == HeaderState::AwaitingSessionId {
            let ids = p.id_bytes.push(b[j as int]);
            if !spec_varint_complete(ids) {
                lemma_read_session_id_shift(HeaderProgress { id_bytes: ids, ..p }, a, b, j + 1);
            }
        }
    }
}

proof fn lemma_read_header_shift(p: HeaderProgress, t: StreamType, a: Seq<u8>, b: Seq<u8>, j: nat)
    ensures
        spec_read_header(p, t, a + b, a.len() + j) == spec_shift_read(spec_read_header(p, t, b, j), a.len()),
    decreases b.len() - j,
{
    if j < b.len() {
        assert((a + b)[(a.len() + j) as int] == b[j as int]);
        match p.state {
            HeaderState::AwaitingSignal => {
                let sig = p.signal_bytes.push(b[j as int]);
                if spec_varint_complete(sig) {
                    if spec_be_value(sig, sig.len()) == spec_expected_signal(t) {
                        lemma_read_header_shift(HeaderProgress {
                            state: HeaderState::AwaitingSessionId,
                            signal_bytes: sig,
                            header_len: sig.len() as u64,
                            ..p
                        }, t, a, b, j + 1);
                    }
                } else {
                    lemma_read_header_shift(HeaderProgress { signal_bytes: sig, ..p }, t, a, b, j + 1);
                }
            },
            HeaderState::AwaitingSessionId => {
                lemma_read_session_id_shift(p, a, b, j);
            },
            HeaderState::Done => {},
        }
    }
}

proof fn lemma_read_session_id_split(p: HeaderProgress, a: Seq<u8>, b: Seq<u8>, i: nat)
    requires
        i <= a.len(),
        p.state == HeaderState::AwaitingSessionId,
        spec_read_session_id(p, a, i).1.state != HeaderState::Done,
    ensures
        spec_read_session_id(p, a + b, i) == ({
            let q = spec_read_session_id(p, a, i).1;
            (spec_read_session_id(q, b, 0).0 + a.len(), spec_read_session_id(q, b, 0).1)
        }),
    decreases a.len() - i,
{
    if i < a.len() {
        assert((a + b)[i as int] == a[i as int]);
        let ids = p.id_bytes.push(a[i as int]);
        if !spec_varint_complete(ids) {
            lemma_read_session_id_split(HeaderProgress { id_bytes: ids, ..p }, a, b, i + 1);
        }
    } else {
        lemma_read_session_id_shift(p, a, b, 0);
    }
}

proof fn lemma_read_header_split(p: HeaderProgress, t: StreamType, a: Seq<u8>, b: Seq<u8>, i: nat)
    requires
        i <= a.len(),
        spec_read_header(p, t, a, i).0 is Some,
        spec_read_header(p, t, a, i).1.state != HeaderState::Done,
    ensures
        spec_read_header(p, t, a + b, i) == spec_shift_read(spec_read_header(spec_read_header(p, t, a, i).1, t, b, 0), a.len()),
    decreases a.len() - i,
{
    if i < a.len() {
        assert((a + b)[i as int] == a[i as int]);
        match p.state {
            HeaderState::AwaitingSignal => {
                let sig = p.signal_bytes.push(a[i as int]);
                if spec_varint_complete(sig) {
                    if spec_be_value(sig, sig.len()) == spec_expected_signal(t) {
                        lemma_read_header_split(HeaderProgress {
                            state: HeaderState::AwaitingSessionId,
                            signal_bytes: sig,
                            header_len: sig.len() as u64,
                            ..p
                        }, t, a, b, i + 1);
                    }
                } else {
                    lemma_read_header_split(HeaderProgress { signal_bytes: sig, ..p }, t, a, b, i + 1);
                }
            },
            HeaderState::AwaitingSessionId => {
                lemma_read_session_id_split(p, a, b, i);
                let q = spec_read_session_id(p, a, i).1;
                assert(q.state == HeaderState::AwaitingSessionId) by {
                    lemma_read_session_id_state(p, a, i);
                }
                if b.len() > 0 {
                    assert(spec_read_header(q, t, b, 0) == ({
                        let (n, r) = spec_read_session_id(q, b, 0);
                        (Some(n), r)
                    }));
                }
            },
            HeaderState::Done => {},
        }
    } else {
        lemma_read_header_shift(p, t, a, b, 0);
    }
}

/// Reading the session ID keeps waiting for it until it is complete.
proof fn lemma_read_session_id_state(p: HeaderProgress, a: Seq<u8>, i: nat)
    requires
        p.state == HeaderState::AwaitingSessionId,
    ensures
        spec_read_session_id(p, a, i).1.state == HeaderState::AwaitingSessionId
            || spec_read_session_id(p, a, i).1.state == HeaderState::Done,
    decreases a.len() - i,
{
    if i < a.len() {
        let ids = p.id_bytes.push(a[i as int]);
        if !spec_varint_complete(ids) {
            lemma_read_session_id_state(HeaderProgress { id_bytes: ids, ..p }, a, i + 1);
        }
    }
}

/// Feeding a stream's bytes in two parts reads the header as feeding them
/// at once does, when the first part neither ends the header nor holds a
/// wrong signal: the second part continues from where the first stopped.
pub proof fn law_read_header_split(p: HeaderProgress, t: StreamType, a: Seq<u8>, b: Seq<u8>)
    requires
        spec_read_header(p, t, a, 0).0 is Some,
        spec_read_header(p, t, a, 0).1.state != HeaderState::Done,
    ensures
        spec_read_header(p, t, a + b, 0) == spec_shift_read(spec_read_header(spec_read_header(p, t, a, 0).1, t, b, 0), a.len()),
{
    lemma_read_header_split(p, t, a, b, 0);
}

/// A header written by [`encode_stream_header`] is read back whole by a
/// fresh incoming stream of the same type, which learns the session ID.
pub proof fn law_stream_header_roundtrip(session_id: u64, t: StreamType, rest: Seq<u8>)
    requires
        session_id <= spec_max_varint(),
    ensures
        ({
            let p0 = HeaderProgress {
                state: HeaderState::AwaitingSignal,
                signal_bytes: Seq::empty(),
                id_bytes: Seq::empty(),
                session_id: 0,
                header_len: 0,
            };
            let h = spec_stream_header(session_id, t);
            let (n, p) = spec_read_header(p0, t, h + rest, 0);
            &&& n == Some(h.len())
            &&& p.state == HeaderState::Done
            &&& p.session_id == session_id
            &&& p.header_len == h.len()
        }),
{
    let sigb = spec_varint_bytes(spec_expected_signal(t));
    let idb = spec_varint_bytes(session_id);
    let h = sigb + idb;
    let data = h + rest;
    lemma_varint_facts(spec_expected_signal(t));
    lemma_varint_facts(session_id);
    let p0 = HeaderProgress {
        state: HeaderState::AwaitingSignal,
        signal_bytes: Seq::empty(),
        id_bytes: Seq::empty(),
        session_id: 0,
        header_len: 0,
    };
    assert(p0.signal_bytes =~= sigb.take(0));
    assert(data.subrange(0, sigb.len() as int) =~= sigb.skip(0));
    lemma_read_signal(p0, t, data, 0, 0, sigb);
    let p1 = HeaderProgress {
        state: HeaderState::AwaitingSessionId,
        signal_bytes: sigb,
        header_len: sigb.len() as u64,
        ..p0
    };
    assert(p1.id_bytes =~= idb.take(0));
    assert(data.subrange(sigb.len() as int, (sigb.len() + idb.len()) as int) =~= idb.skip(0));
    lemma_read_id(p1, data, sigb.len(), 0, idb);
}

/// The encoding of `v` announces its own length in its first byte, and its
/// value is `v`.
proof fn lemma_varint_facts(v: u64)
    requires
        v <= spec_max_varint(),
    ensures
        spec_varint_complete(spec_varint_bytes(v)),
        spec_be_value(spec_varint_bytes(v), spec_varint_bytes(v).len()) == v,
        spec_varint_bytes(v).len() <= 8,
{
    let b = spec_varint_bytes(v);
    lemma_varint_roundtrip(v, Seq::empty());
    assert(b + Seq::<u8>::empty() =~= b);
    lemma_varint_bytes_len(v);
}

/// Reading the rest of a signal whose first `k` bytes were read.
proof fn lemma_read_signal(p: HeaderProgress, t: StreamType, data: Seq<u8>, i: nat, k: nat, full: Seq<u8>)
    requires
        p.state == HeaderState::AwaitingSignal,
        spec_varint_complete(full),
        spec_be_value(full, full.len()) == spec_expected_signal(t),
        k < full.len(),
        p.signal_bytes == full.take(k as int),
        i + (full.len() - k) <= data.len(),
        data.subrange(i as int, i + (full.len() - k)) == full.skip(k as int),
    ensures
        spec_read_header(p, t, data, i) == spec_read_header(HeaderProgress {
            state: HeaderState::AwaitingSessionId,
            signal_bytes: full,
            header_len: full.len() as u64,
            ..p
        }, t, data, (i + (full.len() - k)) as nat),
    decreases full.len() - k,
{
    let sig = p.signal_bytes.push(data[i as int]);
    assert(data[i as int] == data.subrange(i as int, i + (full.len() - k))[0]);
    assert(sig =~= full.take((k + 1) as int));
    assert(sig[0] == full[0]);
    if k + 1 == full.len() {
        assert(sig =~= full);
    } else {
        let whole = data.subrange(i as int, i + (full.len() - k));
        assert forall|j: int| 0 <= j < full.len() - (k + 1) implies
            #[trigger] data.subrange((i + 1) as int, (i + 1) + (full.len() - (k + 1)))[j] == full.skip((k + 1) as int)[j] by {
            assert(whole[j + 1] == full.skip(k as int)[j + 1]);
        }
        assert(data.subrange((i + 1) as int, (i + 1) + (full.len() - (k + 1)))
            =~= full.skip((k + 1) as int));
        lemma_read_signal(HeaderProgress { signal_bytes: sig, ..p }, t, data, i + 1, k + 1, full);
    }
}

/// Reading the rest of a session ID whose first `k` bytes were read.
proof fn lemma_read_id(p: HeaderProgress, data: Seq<u8>, i: nat, k: nat, full: Seq<u8>)
    requires
        p.state == HeaderState::AwaitingSessionId,
        spec_varint_complete(full),
        k < full.len(),
        p.id_bytes == full.take(k as int),
        i + (full.len() - k) <= data.len(),
        data.subrange(i as int, i + (full.len() - k)) == full.skip(k as int),
    ensures
        spec_read_session_id(p, data, i) == ((i + (full.len() - k)) as nat, HeaderProgress {
            state: HeaderState::Done,
            id_bytes: full,
            session_id: spec_be_value(full, full.len()),
            header_len: (p.header_len + full.len()) as u64,
            ..p
        }),
        spec_read_header(p, StreamType::UniDirectional, data, i).0 == Some((i + (full.len() - k)) as nat),
    decreases full.len() - k,
{
    let ids = p.id_bytes.push(data[i as int]);
    assert(data[i as int] == data.subrange(i as int, i + (full.len() - k))[0]);
    assert(ids =~= full.take((k + 1) as int));
    assert(ids[0] == full[0]);
    if k + 1 == full.len() {
        assert(ids =~= full);
    } else {
        let whole = data.subrange(i as int, i + (full.len() - k));
        assert forall|j: int| 0 <= j < full.len() - (k + 1) implies
            #[trigger] data.subrange((i + 1) as int, (i + 1) + (full.len() - (k + 1)))[j] == full.skip((k + 1) as int)[j] by {
            assert(whole[j + 1] == full.skip(k as int)[j + 1]);
        }
        assert(data.subrange((i + 1) as int, (i + 1) + (full.len() - (k + 1)))
            =~= full.skip((k + 1) as int));
        lemma_read_id(HeaderProgress { id_bytes: ids, ..p }, data, i + 1, k + 1, full);
    }
}

} // verus!
